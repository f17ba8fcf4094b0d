use openlogi::digest::sha256_hex;
use openlogi::registry::FileEntry;
use openlogi::sync::{decide_file, FileDecision};

fn entry_for(contents: &[u8]) -> FileEntry {
    FileEntry { name: "front_core.png".to_string(), sha256: sha256_hex(contents), bytes: contents.len() as u64 }
}

#[test]
fn unlisted_file_is_skipped() {
    assert_eq!(decide_file(None, Some(b"x")), FileDecision::NotListed);
    assert_eq!(decide_file(None, None), FileDecision::NotListed);
}

#[test]
fn matching_cache_is_kept() {
    let e = entry_for(b"png bytes");
    assert_eq!(decide_file(Some(&e), Some(b"png bytes")), FileDecision::CacheHit);
    let upper = FileEntry { sha256: e.sha256.to_uppercase(), ..e };
    assert_eq!(decide_file(Some(&upper), Some(b"png bytes")), FileDecision::CacheHit);
}

#[test]
fn stale_or_missing_cache_is_fetched() {
    let e = entry_for(b"png bytes");
    assert_eq!(decide_file(Some(&e), Some(b"old bytes")), FileDecision::Fetch);
    assert_eq!(decide_file(Some(&e), None), FileDecision::Fetch);
}
