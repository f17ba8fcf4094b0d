# openlogi

Verified core of the OpenLogi asset tooling, written in Verus.

- `src/` is the library, every function proved against its contract:
  - `text`: trimming, ASCII case folding and exact comparison of strings;
  - `order`: lexicographic order and sorted, duplicate-free name lists;
  - `digest`: SHA-256 (through the `sha2` crate) as lower-case hex, and the
    cache check against a registry digest;
  - `urls`: the registry and per-file URLs on the asset host;
  - `registry`: the asset registry model and the sync decisions over it
    (visiting order, targets, required files, orphan directories, bundle size);
  - `sync`: the per-file decision (not listed / cache hit / fetch);
  - `policy`: whether the startup sync runs, and the release architecture name;
  - `popover`: the button-to-action picker model and its labels;
  - `bundle`: the arguments of the bundle sync.
- `app/` is the command line (`openlogi assets sync`) and the startup sync:
  HTTP, files, environment variables and `index.json` parsing.
- `tests/` runs the library on concrete values.
