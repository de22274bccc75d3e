//! What differs between platforms.
use vstd::prelude::*;

verus! {

pub struct Platform;

impl Platform {
    /// File name of the launcher binary asset published in releases: with
    /// `.exe` on Windows (`windows` says whether this build targets it).
    pub fn release_asset_name(windows: bool) -> (r: &'static str)
        ensures
            r@ == if windows {
                "Launcher.exe"@
            } else {
                "Launcher"@
            },
    {
        if windows {
            "Launcher.exe"
        } else {
            "Launcher"
        }
    }
}

} // verus!
