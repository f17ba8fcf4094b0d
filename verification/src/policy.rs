//! Launch-time decisions: whether the startup asset sync runs, and which
//! release asset matches the running CPU architecture.

use vstd::prelude::*;

use crate::text::str_eq;

verus! {

/// What the `OPENLOGI_SYNC` setting says, when it says anything:
/// `off`, `false` or `0` turn the sync off, `on`, `true` or `1` turn it on.
pub open spec fn sync_override(value: Seq<char>) -> Option<bool> {
    if value == "off"@ || value == "false"@ || value == "0"@ {
        Some(false)
    } else if value == "on"@ || value == "true"@ || value == "1"@ {
        Some(true)
    } else {
        None
    }
}

/// The explicit on/off setting, if `OPENLOGI_SYNC` is set to one.
pub open spec fn explicit_setting(sync_env: Option<Seq<char>>) -> Option<bool> {
    match sync_env {
        Some(v) => sync_override(v),
        None => None,
    }
}

/// Whether the startup sync runs, given the `OPENLOGI_SYNC` value (if the
/// variable is set), whether this is a debug build, and whether the app
/// bundle ships assets.
pub open spec fn should_run_spec(sync_env: Option<Seq<char>>, debug_build: bool, has_bundle: bool) -> bool {
    match explicit_setting(sync_env) {
        Some(b) => b,
        None => debug_build || !has_bundle,
    }
}

/// Whether the startup HTTP sync should run on this launch.
///
/// Policy:
/// - `OPENLOGI_SYNC=off` (or `false`, `0`) → never run.
/// - `OPENLOGI_SYNC=on` (or `true`, `1`) → always run.
/// - Debug builds → run (so devs see registry updates immediately).
/// - Release builds → run only when the app bundle didn't ship assets.
///
/// `sync_env` is the value of `OPENLOGI_SYNC` when it is set (and valid
/// Unicode); `debug_build` is whether debug assertions are on.
pub fn should_run(sync_env: Option<&str>, debug_build: bool, has_bundle: bool) -> (res: bool)
    ensures
        res == should_run_spec(
            match sync_env {
                Some(v) => Some(v@),
                None => None,
            },
            debug_build,
            has_bundle,
        ),
{
    match sync_env {
        Some(v) => {
            if str_eq(v, "off") || str_eq(v, "false") || str_eq(v, "0") {
                return false;
            }
            if str_eq(v, "on") || str_eq(v, "true") || str_eq(v, "1") {
                return true;
            }
        },
        None => {},
    }
    if debug_build {
        return true;
    }
    !has_bundle
}

/// The architecture name that release assets use for `arch` (the value of
/// `std::env::consts::ARCH`): `aarch64` is published as `arm64`, every other
/// architecture under its own name.
pub open spec fn release_arch_spec(arch: Seq<char>) -> Seq<char> {
    if arch == "aarch64"@ {
        "arm64"@
    } else {
        arch
    }
}

/// The architecture name that release assets use for `arch`.
pub fn release_arch(arch: &str) -> (res: &str)
    ensures
        res@ == release_arch_spec(arch@),
{
    if str_eq(arch, "aarch64") {
        "arm64"
    } else {
        arch
    }
}

/// An explicit `OPENLOGI_SYNC` setting decides alone, whatever the build
/// and the bundle; without one, debug builds always sync and release builds
/// sync exactly when the bundle shipped no assets.
pub proof fn lemma_sync_policy(value: Option<Seq<char>>, debug_build: bool, has_bundle: bool)
    ensures
        explicit_setting(value) matches Some(b) ==> should_run_spec(
            value,
            debug_build,
            has_bundle,
        ) == b,
        explicit_setting(value) is None ==> (should_run_spec(value, debug_build, has_bundle) <==> (
        debug_build || !has_bundle)),
        should_run_spec(Some("off"@), debug_build, has_bundle) == false,
        should_run_spec(Some("on"@), debug_build, has_bundle) == true,
{
    reveal_strlit("on");
    reveal_strlit("off");
    reveal_strlit("false");
    reveal_strlit("0");
    assert("on"@.len() == 2);
    assert("off"@.len() == 3);
    assert("false"@.len() == 5);
    assert("0"@.len() == 1);
    assert("on"@ != "off"@);
    assert("on"@ != "false"@);
    assert("on"@ != "0"@);
}

} // verus!
