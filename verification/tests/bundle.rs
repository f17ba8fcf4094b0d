use openlogi::bundle::{SyncArgs, DEFAULT_OUT};
use openlogi::urls::DEFAULT_BASE;

#[test]
fn normalized_base_drops_trailing_slashes() {
    let args = SyncArgs { base: format!("{DEFAULT_BASE}//"), out: DEFAULT_OUT.to_string() };
    assert_eq!(args.normalized_base(), "https://assets.openlogi.org");
    let args = SyncArgs { base: DEFAULT_BASE.to_string(), out: DEFAULT_OUT.to_string() };
    assert_eq!(args.normalized_base(), DEFAULT_BASE);
    assert_eq!(DEFAULT_OUT, "crates/openlogi-gui/assets");
}
