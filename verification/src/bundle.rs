//! Arguments of the bundle sync (`openlogi assets sync`), which pulls every
//! depot's required files into the GUI crate's bundle resources.

use vstd::prelude::*;

use crate::text::string_from;
use crate::urls::{base_spec, trim_base};

verus! {

/// Default destination: the cargo-bundle resources path of the GUI crate.
pub const DEFAULT_OUT: &'static str = "crates/openlogi-gui/assets";

/// Where the bundle sync reads from and writes to.
pub struct SyncArgs {
    /// Origin of the asset host.
    pub base: String,
    /// Destination directory.
    pub out: String,
}

impl SyncArgs {
    /// The origin the sync uses: `base` with its trailing slashes removed.
    pub fn normalized_base(&self) -> (res: String)
        ensures
            res@ == base_spec(self.base@),
    {
        string_from(trim_base(self.base.as_str()))
    }
}

} // verus!
