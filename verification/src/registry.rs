//! The asset registry (`index.json`) and the decisions a sync takes over it:
//! which depots to visit and in what order, which of a depot's files to
//! fetch, which local directories are orphans, and how large the bundle is.

use vstd::prelude::*;

use crate::order::{
    lemma_lex_lt_irreflexive, lemma_strictly_sorted_canonical, sorted_unique, strictly_sorted, views,
};
use crate::text::str_eq;

verus! {

/// Files the GUI actually opens, in the order they are synced.
pub const FRONT_CORE_PNG: &'static str = "front_core.png";

/// Files the GUI actually opens, in the order they are synced.
pub const CORE_METADATA_JSON: &'static str = "core_metadata.json";

/// One file of a depot as the registry lists it.
pub struct FileEntry {
    pub name: String,
    /// Expected hex SHA-256 of the file.
    pub sha256: String,
    /// Size in bytes.
    pub bytes: u64,
}

/// One depot (device) of the registry.
pub struct DeviceEntry {
    /// Path of the depot below the asset host's root, e.g. `v1/devices/mx_master_4/`.
    pub asset_path: String,
    pub files: Vec<FileEntry>,
}

/// The registry: each depot name with its entry. The registry is a map, so
/// a well-formed index names each depot once (see `Index::well_formed`).
pub struct Index {
    pub devices: Vec<(String, DeviceEntry)>,
}

/// The names of the files a sync fetches, in order.
pub open spec fn fetch_files() -> Seq<Seq<char>> {
    seq![FRONT_CORE_PNG@, CORE_METADATA_JSON@]
}

/// `name` is one of the files a sync fetches.
pub open spec fn is_fetch_file(name: Seq<char>) -> bool {
    name == FRONT_CORE_PNG@ || name == CORE_METADATA_JSON@
}

/// The first entry of `files` whose name is `name`, if any.
pub open spec fn lookup_file(files: Seq<FileEntry>, name: Seq<char>) -> Option<FileEntry>
    decreases files.len(),
{
    if files.len() == 0 {
        None
    } else if files[0].name@ == name {
        Some(files[0])
    } else {
        lookup_file(files.drop_first(), name)
    }
}

/// Bytes of the fetched files of one depot.
pub open spec fn depot_bundle_bytes(files: Seq<FileEntry>) -> int
    decreases files.len(),
{
    if files.len() == 0 {
        0
    } else {
        depot_bundle_bytes(files.drop_last()) + if is_fetch_file(files.last().name@) {
            files.last().bytes as int
        } else {
            0
        }
    }
}

/// Bytes of the fetched files of all depots.
pub open spec fn bundle_bytes_spec(devices: Seq<(String, DeviceEntry)>) -> int
    decreases devices.len(),
{
    if devices.len() == 0 {
        0
    } else {
        bundle_bytes_spec(devices.drop_last()) + depot_bundle_bytes(devices.last().1.files@)
    }
}

/// The names of `dirs` that are not in `names`, in their order.
pub open spec fn orphans(dirs: Seq<Seq<char>>, names: Seq<Seq<char>>) -> Seq<Seq<char>>
    decreases dirs.len(),
{
    if dirs.len() == 0 {
        seq![]
    } else if names.contains(dirs.last()) {
        orphans(dirs.drop_last(), names)
    } else {
        orphans(dirs.drop_last(), names).push(dirs.last())
    }
}

/// The value behind an optional reference.
pub open spec fn opt_ref<T>(o: Option<&T>) -> Option<T> {
    match o {
        Some(r) => Some(*r),
        None => None,
    }
}

/// The view of an optional string.
pub open spec fn forced_view(o: Option<&str>) -> Option<Seq<char>> {
    match o {
        Some(s) => Some(s@),
        None => None,
    }
}

/// The names of the files a sync fetches.
pub fn fetch_file_names() -> (res: Vec<&'static str>)
    ensures
        res@.map_values(|s: &str| s@) == fetch_files(),
{
    let mut v: Vec<&'static str> = Vec::new();
    v.push(FRONT_CORE_PNG);
    v.push(CORE_METADATA_JSON);
    assert(v@.map_values(|s: &str| s@) =~= fetch_files());
    v
}

fn is_fetch_file_exec(name: &str) -> (res: bool)
    ensures
        res == is_fetch_file(name@),
{
    str_eq(name, FRONT_CORE_PNG) || str_eq(name, CORE_METADATA_JSON)
}

/// The registry entry for `name` among `files` (the first one so named).
pub fn find_file<'a>(files: &'a Vec<FileEntry>, name: &str) -> (res: Option<&'a FileEntry>)
    ensures
        opt_ref(res) == lookup_file(files@, name@),
{
    let n = files.len();
    let mut i: usize = 0;
    assert(files@.skip(0) =~= files@);
    while i < n
        invariant
            n == files@.len(),
            i <= n,
            lookup_file(files@.skip(i as int), name@) == lookup_file(files@, name@),
        decreases n - i,
    {
        let ghost rest = files@.skip(i as int);
        assert(rest[0] == files@[i as int]);
        if str_eq(files[i].name.as_str(), name) {
            return Some(&files[i]);
        }
        assert(rest.drop_first() =~= files@.skip(i + 1));
        i = i + 1;
    }
    None
}

/// For each file a sync fetches, in order, its name and the depot's entry
/// for it (`None` when the registry lists no such file for the depot).
pub fn plan_depot<'a>(entry: &'a DeviceEntry) -> (res: Vec<(&'static str, Option<&'a FileEntry>)>)
    ensures
        res@.len() == fetch_files().len(),
        forall|k: int|
            0 <= k < res@.len() ==> {
                &&& (#[trigger] res@[k]).0@ == fetch_files()[k]
                &&& opt_ref(res@[k].1) == lookup_file(entry.files@, fetch_files()[k])
            },
{
    let names = fetch_file_names();
    let mut res: Vec<(&'static str, Option<&'a FileEntry>)> = Vec::new();
    let mut k: usize = 0;
    while k < names.len()
        invariant
            names@.map_values(|s: &str| s@) == fetch_files(),
            k <= names@.len(),
            res@.len() == k,
            forall|j: int|
                0 <= j < k ==> {
                    &&& (#[trigger] res@[j]).0@ == fetch_files()[j]
                    &&& opt_ref(res@[j].1) == lookup_file(entry.files@, fetch_files()[j])
                },
        decreases names@.len() - k,
    {
        let name = names[k];
        assert(name@ == fetch_files()[k as int]);
        let found = find_file(&entry.files, name);
        res.push((name, found));
        k = k + 1;
    }
    res
}

impl Index {
    /// The depot names, in the order the index holds them.
    pub open spec fn depot_names(self) -> Seq<Seq<char>> {
        self.devices@.map_values(|d: (String, DeviceEntry)| d.0@)
    }

    /// Each depot is named once, as in the registry's map.
    pub open spec fn well_formed(self) -> bool {
        self.depot_names().no_duplicates()
    }

    /// `i` is the first position of `depot`.
    pub open spec fn is_first_position(self, depot: Seq<char>, i: int) -> bool {
        &&& 0 <= i < self.devices@.len()
        &&& self.devices@[i].0@ == depot
        &&& forall|j: int| 0 <= j < i ==> self.devices@[j].0@ != depot
    }

    /// The entry of the depot named `depot`.
    pub fn get(&self, depot: &str) -> (res: Option<&DeviceEntry>)
        ensures
            res is None <==> !self.depot_names().contains(depot@),
            res matches Some(e) ==> exists|i: int|
                self.is_first_position(depot@, i) && *e == #[trigger] self.devices@[i].1,
    {
        let n = self.devices.len();
        let mut i: usize = 0;
        while i < n
            invariant
                n == self.devices@.len(),
                i <= n,
                forall|j: int| 0 <= j < i ==> self.devices@[j].0@ != depot@,
            decreases n - i,
        {
            if str_eq(self.devices[i].0.as_str(), depot) {
                assert(self.depot_names()[i as int] == depot@);
                assert(self.is_first_position(depot@, i as int));
                return Some(&self.devices[i].1);
            }
            i = i + 1;
        }
        assert forall|j: int| 0 <= j < self.depot_names().len() implies self.depot_names()[j]
            != depot@ by {
            assert(self.devices@[j].0@ != depot@);
        }
        None
    }

    /// The depot names, in the order the index holds them.
    pub fn names(&self) -> (res: Vec<String>)
        ensures
            views(res@) == self.depot_names(),
    {
        let n = self.devices.len();
        let mut res: Vec<String> = Vec::new();
        let mut i: usize = 0;
        while i < n
            invariant
                n == self.devices@.len(),
                i <= n,
                views(res@) =~= self.depot_names().take(i as int),
            decreases n - i,
        {
            let ghost before = views(res@);
            res.push(self.devices[i].0.clone());
            assert(views(res@) =~= before.push(self.devices@[i as int].0@));
            i = i + 1;
        }
        assert(self.depot_names().take(n as int) =~= self.depot_names());
        res
    }

    /// The depots in the order a bundle sync visits them: sorted by name.
    pub fn sorted_depots(&self) -> (res: Vec<String>)
        ensures
            strictly_sorted(views(res@)),
            forall|x: Seq<char>| views(res@).contains(x) <==> self.depot_names().contains(x),
    {
        let names = self.names();
        sorted_unique(&names)
    }

    /// `x` is a depot of the index and either the forced depot or one of
    /// the resolved depots.
    pub open spec fn is_target(self, forced: Option<Seq<char>>, resolved: Seq<Seq<char>>, x: Seq<
        char,
    >) -> bool {
        &&& self.depot_names().contains(x)
        &&& (forced == Some(x) || resolved.contains(x))
    }

    /// The depots a startup sync refreshes: `forced` (the `OPENLOGI_FORCE_DEPOT`
    /// override) when the index has it, and every depot resolved for a
    /// connected device that the index has, sorted by name, each once.
    pub fn collect_targets(&self, forced: Option<&str>, resolved: &Vec<String>) -> (res: Vec<
        String,
    >)
        ensures
            strictly_sorted(views(res@)),
            forall|x: Seq<char>|
                views(res@).contains(x) <==> self.is_target(forced_view(forced), views(resolved@), x),
    {
        let mut candidates: Vec<String> = Vec::new();
        match forced {
            Some(f) => {
                if self.get(f).is_some() {
                    candidates.push(crate::text::string_from(f));
                    assert(views(candidates@) =~= seq![f@]);
                    assert(views(candidates@)[0] == f@);
                } else {
                    assert(views(candidates@) =~= Seq::<Seq<char>>::empty());
                }
            },
            None => {
                assert(views(candidates@) =~= Seq::<Seq<char>>::empty());
            },
        }
        let ghost start = views(candidates@);
        assert forall|x: Seq<char>|
            start.contains(x) <==> (self.depot_names().contains(x) && (forced matches Some(f) && f@
                == x)) by {
            if start.contains(x) {
                let k = choose|k: int| 0 <= k < start.len() && start[k] == x;
                assert(k == 0);
            }
        }
        assert(resolved@.take(0) =~= Seq::<String>::empty());
        assert(views(resolved@.take(0)) =~= Seq::<Seq<char>>::empty());
        let n = resolved.len();
        let mut i: usize = 0;
        while i < n
            invariant
                n == resolved@.len(),
                i <= n,
                forall|x: Seq<char>|
                    views(candidates@).contains(x) <==> (start.contains(x) || (self.depot_names().contains(x)
                        && views(resolved@.take(i as int)).contains(x))),
                forall|x: Seq<char>|
                    start.contains(x) <==> (self.depot_names().contains(x) && (forced matches Some(f)
                        && f@ == x)),
            decreases n - i,
        {
            let ghost before = views(candidates@);
            let ghost x = resolved@[i as int]@;
            let ghost pv = views(resolved@.take(i as int));
            assert forall|y: Seq<char>|
                before.contains(y) <==> (start.contains(y) || (self.depot_names().contains(y)
                    && pv.contains(y))) by {}
            let found = self.get(resolved[i].as_str()).is_some();
            if found {
                candidates.push(resolved[i].clone());
                assert(views(candidates@) =~= before.push(x));
            }
            let ghost tv = views(resolved@.take(i + 1));
            assert(tv =~= pv.push(x));
            assert forall|y: Seq<char>|
                views(candidates@).contains(y) <==> (start.contains(y) || (self.depot_names().contains(
                    y,
                ) && tv.contains(y))) by {
                assert(found <==> self.depot_names().contains(x));
                if tv.contains(y) && y != x {
                    let k = choose|k: int| 0 <= k < tv.len() && tv[k] == y;
                    assert(pv[k] == y);
                }
                if pv.contains(y) {
                    let k = choose|k: int| 0 <= k < pv.len() && pv[k] == y;
                    assert(tv[k] == y);
                }
                if y == x {
                    assert(tv[i as int] == y);
                }
                if found {
                    if views(candidates@).contains(y) && y != x {
                        let k = choose|k: int|
                            0 <= k < views(candidates@).len() && views(candidates@)[k] == y;
                        assert(before[k] == y);
                    }
                    if before.contains(y) {
                        let k = choose|k: int| 0 <= k < before.len() && before[k] == y;
                        assert(views(candidates@)[k] == y);
                    }
                    if y == x {
                        assert(views(candidates@)[before.len() as int] == y);
                    }
                }
            }
            i = i + 1;
        }
        assert(resolved@.take(n as int) =~= resolved@);
        assert(views(resolved@.take(n as int)) == views(resolved@));
        let res = sorted_unique(&candidates);
        assert forall|x: Seq<char>|
            views(res@).contains(x) <==> self.is_target(forced_view(forced), views(resolved@), x) by {
            assert(views(res@).contains(x) <==> views(candidates@).contains(x));
            assert(start.contains(x) <==> (self.depot_names().contains(x) && (forced matches Some(f)
                && f@ == x)));
        }
        res
    }

    /// Local depot directories that the registry no longer lists, in the
    /// order given (the bundle sync prunes them).
    pub fn orphan_dirs(&self, dirs: &Vec<String>) -> (res: Vec<String>)
        ensures
            views(res@) == orphans(views(dirs@), self.depot_names()),
    {
        let n = dirs.len();
        let mut res: Vec<String> = Vec::new();
        let mut i: usize = 0;
        while i < n
            invariant
                n == dirs@.len(),
                i <= n,
                views(res@) =~= orphans(views(dirs@).take(i as int), self.depot_names()),
            decreases n - i,
        {
            let ghost d = views(dirs@).take(i + 1);
            assert(d.drop_last() =~= views(dirs@).take(i as int));
            assert(d.last() == dirs@[i as int]@);
            if self.get(dirs[i].as_str()).is_none() {
                res.push(dirs[i].clone());
            }
            i = i + 1;
        }
        assert(views(dirs@).take(n as int) =~= views(dirs@));
        res
    }

    /// Total size of the files a bundle holds, over all depots; `None` when
    /// the total does not fit in a `u64`.
    pub fn bundle_bytes(&self) -> (res: Option<u64>)
        ensures
            res == (if bundle_bytes_spec(self.devices@) <= u64::MAX {
                Some(bundle_bytes_spec(self.devices@) as u64)
            } else {
                None::<u64>
            }),
    {
        let n = self.devices.len();
        let mut total: u64 = 0;
        let mut i: usize = 0;
        while i < n
            invariant
                n == self.devices@.len(),
                i <= n,
                total == bundle_bytes_spec(self.devices@.take(i as int)),
            decreases n - i,
        {
            let files = &self.devices[i].1.files;
            let ghost outer = bundle_bytes_spec(self.devices@.take(i as int));
            let m = files.len();
            let mut j: usize = 0;
            let ghost base = total as int;
            while j < m
                invariant
                    m == files@.len(),
                    j <= m,
                    i < n,
                    n == self.devices@.len(),
                    *files == self.devices@[i as int].1.files,
                    base == outer,
                    outer == bundle_bytes_spec(self.devices@.take(i as int)),
                    total == base + depot_bundle_bytes(files@.take(j as int)),
                decreases m - j,
            {
                assert(files@.take(j + 1).drop_last() =~= files@.take(j as int));
                if is_fetch_file_exec(files[j].name.as_str()) {
                    match total.checked_add(files[j].bytes) {
                        Some(t) => {
                            total = t;
                        },
                        None => {
                            proof {
                                lemma_depot_bytes_prefix(files@, j + 1);
                                assert(files@.take(m as int) =~= files@);
                                lemma_bundle_bytes_prefix(self.devices@, i + 1);
                                assert(self.devices@.take(i + 1).drop_last() =~= self.devices@.take(
                                    i as int,
                                ));
                                assert(self.devices@.take(i + 1).last() == self.devices@[i as int]);
                            }
                            return None;
                        },
                    }
                }
                j = j + 1;
            }
            assert(files@.take(m as int) =~= files@);
            assert(self.devices@.take(i + 1).drop_last() =~= self.devices@.take(i as int));
            assert(self.devices@.take(i + 1).last() == self.devices@[i as int]);
            i = i + 1;
        }
        assert(self.devices@.take(n as int) =~= self.devices@);
        Some(total)
    }
}

proof fn lemma_depot_bytes_nonneg(files: Seq<FileEntry>)
    ensures
        depot_bundle_bytes(files) >= 0,
    decreases files.len(),
{
    if files.len() > 0 {
        lemma_depot_bytes_nonneg(files.drop_last());
    }
}

proof fn lemma_depot_bytes_prefix(files: Seq<FileEntry>, j: int)
    requires
        0 <= j <= files.len(),
    ensures
        depot_bundle_bytes(files.take(j)) <= depot_bundle_bytes(files),
    decreases files.len(),
{
    if j < files.len() {
        assert(files.drop_last().take(j) =~= files.take(j));
        lemma_depot_bytes_prefix(files.drop_last(), j);
    } else {
        assert(files.take(j) =~= files);
    }
}

proof fn lemma_bundle_bytes_prefix(devices: Seq<(String, DeviceEntry)>, i: int)
    requires
        0 <= i <= devices.len(),
    ensures
        bundle_bytes_spec(devices.take(i)) <= bundle_bytes_spec(devices),
    decreases devices.len(),
{
    if i < devices.len() {
        assert(devices.drop_last().take(i) =~= devices.take(i));
        lemma_bundle_bytes_prefix(devices.drop_last(), i);
        lemma_depot_bytes_nonneg(devices.last().1.files@);
    } else {
        assert(devices.take(i) =~= devices);
    }
}

/// A lookup finds a file of that name from the list, and finds nothing only
/// when no file has that name.
pub proof fn lemma_lookup_file_sound(files: Seq<FileEntry>, name: Seq<char>)
    ensures
        lookup_file(files, name) matches Some(f) ==> f.name@ == name && files.contains(f),
        lookup_file(files, name) is None ==> forall|i: int|
            0 <= i < files.len() ==> (#[trigger] files[i]).name@ != name,
    decreases files.len(),
{
    if files.len() > 0 {
        let rest = files.drop_first();
        lemma_lookup_file_sound(rest, name);
        if files[0].name@ != name {
            if let Some(f) = lookup_file(rest, name) {
                let k = choose|k: int| 0 <= k < rest.len() && rest[k] == f;
                assert(files[k + 1] == f);
            } else {
                assert forall|i: int| 0 <= i < files.len() implies (#[trigger] files[i]).name@
                    != name by {
                    if i > 0 {
                        assert(files[i] == rest[i - 1]);
                    }
                }
            }
        } else {
            assert(files[0] == files[0]);
        }
    }
}

/// A directory is pruned exactly when it is not a depot of the registry.
pub proof fn lemma_orphans_exact(dirs: Seq<Seq<char>>, names: Seq<Seq<char>>)
    ensures
        forall|x: Seq<char>|
            #[trigger] orphans(dirs, names).contains(x) <==> (dirs.contains(x) && !names.contains(x)),
    decreases dirs.len(),
{
    if dirs.len() > 0 {
        let rest = dirs.drop_last();
        lemma_orphans_exact(rest, names);
        assert forall|x: Seq<char>| #[trigger] orphans(dirs, names).contains(x) <==> (dirs.contains(
            x,
        ) && !names.contains(x)) by {
            let o = orphans(rest, names);
            if rest.contains(x) {
                let k = choose|k: int| 0 <= k < rest.len() && rest[k] == x;
                assert(dirs[k] == x);
            }
            if dirs.contains(x) && x != dirs.last() {
                let k = choose|k: int| 0 <= k < dirs.len() && dirs[k] == x;
                assert(rest[k] == x);
            }
            if !names.contains(dirs.last()) {
                assert(orphans(dirs, names) == o.push(dirs.last()));
                if o.contains(x) {
                    let k = choose|k: int| 0 <= k < o.len() && o[k] == x;
                    assert(o.push(dirs.last())[k] == x);
                }
                if o.push(dirs.last()).contains(x) && x != dirs.last() {
                    let k = choose|k: int| 0 <= k < o.len() + 1 && o.push(dirs.last())[k] == x;
                    assert(o[k] == x);
                }
                assert(o.push(dirs.last())[o.len() as int] == dirs.last());
            }
        }
    } else {
        assert forall|x: Seq<char>| !(#[trigger] orphans(dirs, names).contains(x)) by {}
    }
}

/// The visiting order of a bundle sync depends only on which depots the
/// registry has, not on the order it lists them in: any two orders that
/// `Index::sorted_depots` may return for indexes with the same depots agree.
pub proof fn lemma_depot_order_independent_of_listing(
    a: Index,
    b: Index,
    order_a: Seq<Seq<char>>,
    order_b: Seq<Seq<char>>,
)
    requires
        forall|x: Seq<char>| a.depot_names().contains(x) <==> b.depot_names().contains(x),
        strictly_sorted(order_a),
        forall|x: Seq<char>| order_a.contains(x) <==> a.depot_names().contains(x),
        strictly_sorted(order_b),
        forall|x: Seq<char>| order_b.contains(x) <==> b.depot_names().contains(x),
    ensures
        order_a == order_b,
{
    lemma_strictly_sorted_canonical(order_a, order_b);
}

/// The depots a startup sync refreshes depend only on which depots the
/// registry has, the forced depot, and which depots were resolved, not on
/// the order or repetition of the resolved list: two results that
/// `Index::collect_targets` may return for the same wanted depots agree.
pub proof fn lemma_targets_independent_of_resolution_order(
    index: Index,
    forced: Option<Seq<char>>,
    resolved_a: Seq<Seq<char>>,
    resolved_b: Seq<Seq<char>>,
    targets_a: Seq<Seq<char>>,
    targets_b: Seq<Seq<char>>,
)
    requires
        forall|x: Seq<char>| resolved_a.contains(x) <==> resolved_b.contains(x),
        strictly_sorted(targets_a),
        forall|x: Seq<char>| targets_a.contains(x) <==> index.is_target(forced, resolved_a, x),
        strictly_sorted(targets_b),
        forall|x: Seq<char>| targets_b.contains(x) <==> index.is_target(forced, resolved_b, x),
    ensures
        targets_a == targets_b,
{
    assert forall|x: Seq<char>| targets_a.contains(x) <==> targets_b.contains(x) by {
        assert(index.is_target(forced, resolved_a, x) <==> index.is_target(forced, resolved_b, x));
    }
    lemma_strictly_sorted_canonical(targets_a, targets_b);
}

/// On a well-formed registry a bundle sync visits every depot exactly
/// once: the visiting order holds as many names as the registry has depots.
pub proof fn lemma_every_depot_visited_once(index: Index, order: Seq<Seq<char>>)
    requires
        index.well_formed(),
        strictly_sorted(order),
        forall|x: Seq<char>| order.contains(x) <==> index.depot_names().contains(x),
    ensures
        order.len() == index.devices@.len(),
        order.no_duplicates(),
{
    assert forall|i: int, j: int| 0 <= i < order.len() && 0 <= j < order.len() && i != j implies order[i]
        != order[j] by {
        if i < j {
            assert(crate::order::lex_lt(order[i], order[j]));
        } else {
            assert(crate::order::lex_lt(order[j], order[i]));
        }
        lemma_lex_lt_irreflexive(order[i]);
    }
    let names = index.depot_names();
    order.unique_seq_to_set();
    names.unique_seq_to_set();
    assert(order.to_set() =~= names.to_set());
}

/// Which depots a startup sync refreshes, one property at a time:
/// the forced depot is refreshed whenever the registry has it, whatever
/// (and however many) depots were resolved, even none; every resolved depot
/// the registry has is refreshed, with or without a forced depot; and
/// nothing else is: a refreshed depot is in the registry and is the forced
/// depot or a resolved one.
pub proof fn lemma_target_selection(
    index: Index,
    forced: Option<Seq<char>>,
    resolved: Seq<Seq<char>>,
    x: Seq<char>,
)
    ensures
        forced == Some(x) && index.depot_names().contains(x) ==> index.is_target(
            forced,
            resolved,
            x,
        ),
        forced == Some(x) && index.depot_names().contains(x) ==> index.is_target(
            forced,
            Seq::<Seq<char>>::empty(),
            x,
        ),
        resolved.contains(x) && index.depot_names().contains(x) ==> index.is_target(
            forced,
            resolved,
            x,
        ),
        resolved.contains(x) && index.depot_names().contains(x) ==> index.is_target(
            None,
            resolved,
            x,
        ),
        index.is_target(forced, resolved, x) ==> index.depot_names().contains(x),
        index.is_target(forced, resolved, x) ==> (forced == Some(x) || resolved.contains(x)),
        !index.is_target(None, Seq::<Seq<char>>::empty(), x),
{
}

/// The bundle size adds up depot by depot and file by file: no depots
/// count nothing, appending a depot adds exactly that depot's bytes, and a
/// depot's bytes grow by a file's size exactly when the file is one of the
/// required files (`front_core.png`, `core_metadata.json`). Splitting the
/// registry anywhere gives the sum of the two parts, so every depot counts,
/// however many precede it.
pub proof fn lemma_bundle_bytes_additive(
    ds: Seq<(String, DeviceEntry)>,
    more: Seq<(String, DeviceEntry)>,
    d: (String, DeviceEntry),
    files: Seq<FileEntry>,
    f: FileEntry,
)
    ensures
        bundle_bytes_spec(Seq::<(String, DeviceEntry)>::empty()) == 0,
        bundle_bytes_spec(ds.push(d)) == bundle_bytes_spec(ds) + depot_bundle_bytes(d.1.files@),
        bundle_bytes_spec(ds + more) == bundle_bytes_spec(ds) + bundle_bytes_spec(more),
        bundle_bytes_spec(seq![d]) == depot_bundle_bytes(d.1.files@),
        depot_bundle_bytes(Seq::<FileEntry>::empty()) == 0,
        depot_bundle_bytes(files.push(f)) == depot_bundle_bytes(files) + if f.name@ == FRONT_CORE_PNG@
            || f.name@ == CORE_METADATA_JSON@ {
            f.bytes as int
        } else {
            0int
        },
        bundle_bytes_spec(ds) >= 0,
{
    assert(ds.push(d).drop_last() =~= ds);
    assert(seq![d].drop_last() =~= Seq::<(String, DeviceEntry)>::empty());
    assert(files.push(f).drop_last() =~= files);
    lemma_bundle_bytes_concat(ds, more);
    lemma_bundle_bytes_nonneg(ds);
}

proof fn lemma_bundle_bytes_nonneg(ds: Seq<(String, DeviceEntry)>)
    ensures
        bundle_bytes_spec(ds) >= 0,
    decreases ds.len(),
{
    if ds.len() > 0 {
        lemma_bundle_bytes_nonneg(ds.drop_last());
        lemma_depot_bytes_nonneg(ds.last().1.files@);
    }
}

proof fn lemma_bundle_bytes_concat(ds: Seq<(String, DeviceEntry)>, more: Seq<(String, DeviceEntry)>)
    ensures
        bundle_bytes_spec(ds + more) == bundle_bytes_spec(ds) + bundle_bytes_spec(more),
    decreases more.len(),
{
    if more.len() == 0 {
        assert(ds + more =~= ds);
    } else {
        assert((ds + more).drop_last() =~= ds + more.drop_last());
        assert((ds + more).last() == more.last());
        lemma_bundle_bytes_concat(ds, more.drop_last());
    }
}

} // verus!
