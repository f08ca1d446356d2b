//! Disk-space reclamation engine: category catalog, scan and clean planning,
//! and the large-item sweep, all over a plain-value model of the filesystem.
//!
//! Every destructive decision (which paths may be deleted, under which time
//! window, inside which roots) is computed and proved here; the surrounding
//! program performs the filesystem walks and removals and feeds the observed
//! outcomes back in.

pub mod catalog;
pub mod clean;
pub mod large;
pub mod laws;
pub mod scan;
pub mod model;
pub mod paths;
pub mod volume;

use vstd::prelude::*;

verus! {

/// Every operation is refused on a platform other than Windows; the caller
/// reports whether it runs there.
pub fn ensure_windows(windows: bool) -> (r: Result<(), String>)
    ensures
        windows <==> r is Ok,
        !windows ==> (r matches Err(m) && m@ == "This app currently supports Windows only."@),
{
    if windows {
        Ok(())
    } else {
        Err(String::from_str("This app currently supports Windows only."))
    }
}

} // verus!
