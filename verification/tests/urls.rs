use openlogi::urls::{file_url, index_url, trim_base, DEFAULT_BASE, INDEX_NAME};

#[test]
fn index_url_on_plain_base() {
    assert_eq!(index_url("https://assets.openlogi.org"), "https://assets.openlogi.org/index.json");
    assert_eq!(index_url(DEFAULT_BASE), format!("{DEFAULT_BASE}/{INDEX_NAME}"));
}

#[test]
fn index_url_drops_trailing_slashes() {
    assert_eq!(index_url("https://assets.openlogi.org/"), "https://assets.openlogi.org/index.json");
    assert_eq!(index_url("https://assets.openlogi.org///"), "https://assets.openlogi.org/index.json");
    assert_eq!(index_url(""), "/index.json");
    assert_eq!(index_url("///"), "/index.json");
}

#[test]
fn file_url_documented_example() {
    assert_eq!(
        file_url("https://assets.openlogi.org", "v1/devices/mx_master_4/", "front_core.png"),
        "https://assets.openlogi.org/v1/devices/mx_master_4/front_core.png"
    );
}

#[test]
fn file_url_trims_base_end_and_path_start() {
    assert_eq!(
        file_url("https://h.example//", "//v1/devices/x/", "core_metadata.json"),
        "https://h.example/v1/devices/x/core_metadata.json"
    );
    assert_eq!(file_url("https://h.example", "", "a.png"), "https://h.example/a.png");
    assert_eq!(file_url("http://h/", "p/", ""), "http://h/p/");
}

#[test]
fn file_url_keeps_inner_slashes_and_unicode() {
    assert_eq!(file_url("https://h/a/", "/é/ü//", "ß.png"), "https://h/a/é/ü//ß.png");
}

#[test]
fn trim_base_is_idempotent() {
    assert_eq!(trim_base("https://h//"), "https://h");
    assert_eq!(trim_base(trim_base("https://h//")), "https://h");
    assert_eq!(trim_base("/"), "");
}
