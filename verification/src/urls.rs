//! URLs on the asset host: the registry at `<base>/index.json` and per-depot
//! files at `<base>/<asset_path><name>`.

use vstd::prelude::*;
use vstd::string::StringExecFns;

use crate::text::{
    lemma_trim_end_char_idempotent, lemma_trim_start_char_idempotent, push_char, string_from,
    trim_end_char, trim_end_matches_char, trim_start_char, trim_start_matches_char,
};

verus! {

/// Default origin of the asset host.
pub const DEFAULT_BASE: &'static str = "https://assets.openlogi.org";

/// Filename of the registry at the asset host's root.
pub const INDEX_NAME: &'static str = "index.json";

/// The origin with its trailing slashes removed.
pub open spec fn base_spec(base: Seq<char>) -> Seq<char> {
    trim_end_char(base, '/')
}

/// `<base>/index.json`, with the base's trailing slashes removed first.
pub open spec fn index_url_spec(base: Seq<char>) -> Seq<char> {
    base_spec(base) + seq!['/'] + INDEX_NAME@
}

/// `<base>/<asset_path><name>`, with the base's trailing slashes and the asset
/// path's leading slashes removed first.
pub open spec fn file_url_spec(base: Seq<char>, asset_path: Seq<char>, name: Seq<char>) -> Seq<
    char,
> {
    base_spec(base) + seq!['/'] + trim_start_char(asset_path, '/') + name
}

/// The origin with its trailing slashes removed (`trim_end_matches('/')`).
pub fn trim_base(base: &str) -> (res: &str)
    ensures
        res@ == base_spec(base@),
{
    trim_end_matches_char(base, '/')
}

/// URL of the registry: `<base>/index.json`.
pub fn index_url(base: &str) -> (res: String)
    ensures
        res@ == index_url_spec(base@),
{
    let mut url = string_from(trim_base(base));
    push_char(&mut url, '/');
    url.append(INDEX_NAME);
    url
}

/// URL of a per-depot file, e.g.
/// `file_url("https://assets.openlogi.org", "v1/devices/mx_master_4/", "front_core.png")`
/// is `https://assets.openlogi.org/v1/devices/mx_master_4/front_core.png`.
pub fn file_url(base: &str, asset_path: &str, name: &str) -> (res: String)
    ensures
        res@ == file_url_spec(base@, asset_path@, name@),
{
    let mut url = string_from(trim_base(base));
    push_char(&mut url, '/');
    url.append(trim_start_matches_char(asset_path, '/'));
    url.append(name);
    url
}

/// Slashes that end the origin or start the asset path do not change the
/// URLs: trimming an already trimmed origin or asset path is a no-op, so a
/// caller may trim first (as the bundle sync does) without effect.
pub proof fn lemma_urls_ignore_extra_slashes(base: Seq<char>, asset_path: Seq<char>, name: Seq<char>)
    ensures
        index_url_spec(base_spec(base)) == index_url_spec(base),
        index_url_spec(base + seq!['/']) == index_url_spec(base),
        file_url_spec(base_spec(base), asset_path, name) == file_url_spec(base, asset_path, name),
        file_url_spec(base + seq!['/'], asset_path, name) == file_url_spec(base, asset_path, name),
        file_url_spec(base, trim_start_char(asset_path, '/'), name) == file_url_spec(
            base,
            asset_path,
            name,
        ),
        file_url_spec(base, seq!['/'] + asset_path, name) == file_url_spec(base, asset_path, name),
{
    lemma_trim_end_char_idempotent(base, '/');
    lemma_trim_start_char_idempotent(asset_path, '/');
    let b2 = base + seq!['/'];
    assert(b2.drop_last() =~= base);
    let a2 = seq!['/'] + asset_path;
    assert(a2.drop_first() =~= asset_path);
}

} // verus!
