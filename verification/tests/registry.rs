use openlogi::registry::{
    fetch_file_names, find_file, plan_depot, DeviceEntry, FileEntry, Index, CORE_METADATA_JSON,
    FRONT_CORE_PNG,
};

fn file(name: &str, sha: &str, bytes: u64) -> FileEntry {
    FileEntry { name: name.to_string(), sha256: sha.to_string(), bytes }
}

fn device(path: &str, files: Vec<FileEntry>) -> DeviceEntry {
    DeviceEntry { asset_path: path.to_string(), files }
}

fn sample_index() -> Index {
    Index {
        devices: vec![
            (
                "mx_master_4".to_string(),
                device(
                    "v1/devices/mx_master_4/",
                    vec![
                        file("front_core.png", "aa", 1000),
                        file("side.png", "bb", 5000),
                        file("core_metadata.json", "cc", 200),
                    ],
                ),
            ),
            (
                "lift".to_string(),
                device("v1/devices/lift/", vec![file("front_core.png", "dd", 300)]),
            ),
            (
                "anywhere_3".to_string(),
                device(
                    "v1/devices/anywhere_3/",
                    vec![file("core_metadata.json", "ee", 40), file("core_metadata.json", "ff", 7)],
                ),
            ),
        ],
    }
}

#[test]
fn fetch_files_are_front_image_then_metadata() {
    assert_eq!(fetch_file_names(), vec!["front_core.png", "core_metadata.json"]);
    assert_eq!(FRONT_CORE_PNG, "front_core.png");
    assert_eq!(CORE_METADATA_JSON, "core_metadata.json");
}

#[test]
fn get_finds_depots_by_exact_name() {
    let index = sample_index();
    assert_eq!(index.get("lift").unwrap().asset_path, "v1/devices/lift/");
    assert!(index.get("Lift").is_none());
    assert!(index.get("").is_none());
}

#[test]
fn names_in_index_order() {
    assert_eq!(sample_index().names(), vec!["mx_master_4", "lift", "anywhere_3"]);
}

#[test]
fn sorted_depots_are_sorted() {
    assert_eq!(sample_index().sorted_depots(), vec!["anywhere_3", "lift", "mx_master_4"]);
    assert!(Index { devices: Vec::new() }.sorted_depots().is_empty());
}

#[test]
fn sorted_depots_ignore_listing_order() {
    let mut index = sample_index();
    index.devices.reverse();
    assert_eq!(index.sorted_depots(), sample_index().sorted_depots());
}

#[test]
fn find_file_takes_first_match() {
    let index = sample_index();
    let files = &index.get("anywhere_3").unwrap().files;
    assert_eq!(find_file(files, "core_metadata.json").unwrap().sha256, "ee");
    assert!(find_file(files, "front_core.png").is_none());
}

#[test]
fn plan_lists_required_files_in_order() {
    let index = sample_index();
    let plan = plan_depot(index.get("mx_master_4").unwrap());
    assert_eq!(plan.len(), 2);
    assert_eq!(plan[0].0, "front_core.png");
    assert_eq!(plan[0].1.unwrap().sha256, "aa");
    assert_eq!(plan[1].0, "core_metadata.json");
    assert_eq!(plan[1].1.unwrap().bytes, 200);

    let plan = plan_depot(index.get("lift").unwrap());
    assert_eq!(plan[0].1.unwrap().sha256, "dd");
    assert!(plan[1].1.is_none());
}

#[test]
fn collect_targets_merges_forced_and_resolved() {
    let index = sample_index();
    let resolved = vec!["mx_master_4".to_string(), "unknown".to_string(), "lift".to_string(), "mx_master_4".to_string()];
    assert_eq!(index.collect_targets(Some("anywhere_3"), &resolved), vec!["anywhere_3", "lift", "mx_master_4"]);
    assert_eq!(index.collect_targets(None, &resolved), vec!["lift", "mx_master_4"]);
    assert_eq!(index.collect_targets(Some("nope"), &Vec::new()), Vec::<String>::new());
    assert_eq!(index.collect_targets(Some("lift"), &vec!["lift".to_string()]), vec!["lift"]);
}

#[test]
fn orphan_dirs_are_unlisted_dirs_in_order() {
    let index = sample_index();
    let dirs: Vec<String> = ["zz_old", "lift", "abc", "mx_master_4", "LIFT"].iter().map(|s| s.to_string()).collect();
    assert_eq!(index.orphan_dirs(&dirs), vec!["zz_old", "abc", "LIFT"]);
    assert!(index.orphan_dirs(&Vec::new()).is_empty());
}

#[test]
fn bundle_bytes_counts_required_files_only() {
    // 1000 + 200 (mx_master_4) + 300 (lift) + 40 + 7 (anywhere_3)
    assert_eq!(sample_index().bundle_bytes(), Some(1547));
    assert_eq!(Index { devices: Vec::new() }.bundle_bytes(), Some(0));
}

#[test]
fn bundle_bytes_reports_overflow() {
    let index = Index {
        devices: vec![
            ("a".to_string(), device("a/", vec![file("front_core.png", "", u64::MAX), file("other", "", 5)])),
            ("b".to_string(), device("b/", vec![file("core_metadata.json", "", 1)])),
        ],
    };
    assert_eq!(index.bundle_bytes(), None);
    let index = Index {
        devices: vec![
            ("a".to_string(), device("a/", vec![file("front_core.png", "", u64::MAX - 1), file("other", "", 5)])),
            ("b".to_string(), device("b/", vec![file("core_metadata.json", "", 1)])),
        ],
    };
    assert_eq!(index.bundle_bytes(), Some(u64::MAX));
}

#[test]
fn collect_targets_ignore_resolution_order() {
    let index = sample_index();
    let a = vec!["lift".to_string(), "mx_master_4".to_string()];
    let b = vec!["mx_master_4".to_string(), "lift".to_string(), "lift".to_string()];
    assert_eq!(index.collect_targets(None, &a), index.collect_targets(None, &b));
}
