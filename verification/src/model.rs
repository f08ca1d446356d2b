//! The plain-value model of the filesystem and the result shapes of the
//! engine.
//!
//! A walk of a directory tree is handed in as a list of [`FsEntry`] records in
//! walk order; a stat of a single path is handed in as a [`PathProbe`]. All
//! sizes are in bytes and all timestamps in milliseconds since the epoch.

use vstd::prelude::*;

verus! {

/// One entry observed while walking a root: a file or a directory.
pub struct FsEntry {
    /// Absolute path of the entry.
    pub path: String,
    /// Size in bytes; zero for directories.
    pub size: u64,
    /// Last-modified time in milliseconds since the epoch, when readable.
    pub modified: Option<i64>,
    /// Whether the entry is a directory.
    pub is_dir: bool,
}

/// What a stat of one path observed.
pub enum PathProbe {
    /// The path could not be read; the message is the underlying error.
    Failed(String),
    /// The path names a file.
    FileFound { size: u64, modified: Option<i64> },
    /// The path names a directory; the totals are those of a walk below it.
    DirFound { total_bytes: u64, total_files: u64 },
}

/// A single matched file, as listed to the caller.
pub struct CleanupItem {
    pub path: String,
    pub size_bytes: u64,
    pub modified_ms: Option<i64>,
}

/// A page of matched files plus whether entries remained unvisited.
pub struct CategoryItems {
    pub items: Vec<CleanupItem>,
    pub has_more: bool,
}

/// One path that could not be deleted, with the reason.
pub struct CleanupError {
    pub path: String,
    pub message: String,
}

/// The accounting of one clean operation: totals reflect only successfully
/// removed entries, and every failed path appears in `failed`.
pub struct CleanupResult {
    pub deleted_bytes: u64,
    pub deleted_count: u64,
    pub failed: Vec<CleanupError>,
}

/// Previously computed size and count of a category, as supplied by a caller.
pub struct CategoryStats {
    pub size_bytes: u64,
    pub file_count: u64,
}

/// Size and item count of the platform trash, as queried just before
/// emptying it.
pub struct RecycleBinStats {
    pub deleted_bytes: u64,
    pub deleted_count: u64,
}

/// Aggregate of one category scan.
pub struct CategoryScan {
    pub size_bytes: u64,
    pub file_count: u64,
}

/// A file or directory found by the whole-volume sweep.
pub struct LargeItem {
    pub path: String,
    pub name: String,
    pub size_bytes: u64,
    pub is_dir: bool,
    pub suspicious: bool,
    pub category_id: Option<String>,
}

/// One deletion the plan asks the caller to attempt, with the totals to be
/// credited on success.
pub struct DeleteAttempt {
    /// The path to remove.
    pub path: String,
    /// Bytes credited if the removal succeeds.
    pub bytes: u64,
    /// Files credited if the removal succeeds.
    pub files: u64,
}

/// The scan, list and delete aggregates of one category, as displayed.
pub struct CleanupCategory {
    pub id: String,
    pub title: String,
    pub description: String,
    pub size_bytes: u64,
    pub file_count: u64,
}

/// The state of the hibernation file: present (with its size) or absent.
pub struct HibernationInfo {
    pub enabled: bool,
    pub size_bytes: u64,
    pub path: String,
}

/// Whether a file's last-modified time passes a cutoff: with no cutoff
/// everything matches; with a cutoff only files strictly older match, and a
/// file whose time could not be read never matches.
pub open spec fn spec_matches_cutoff(modified: Option<i64>, cutoff: Option<i64>) -> bool {
    match cutoff {
        Some(c) => match modified {
            Some(m) => m < c,
            None => false,
        },
        None => true,
    }
}

/// Applies the time filter to one observed modification time.
pub fn matches_cutoff(modified: &Option<i64>, cutoff: &Option<i64>) -> (r: bool)
    ensures
        r == spec_matches_cutoff(*modified, *cutoff),
{
    match cutoff {
        Some(c) => match modified {
            Some(m) => *m < *c,
            None => false,
        },
        None => true,
    }
}

/// `now − days·86400s` in milliseconds, clamped to the earliest representable
/// instant when the subtraction underflows.
pub open spec fn spec_cutoff_val(now_ms: i64, days: u64) -> i64 {
    if now_ms - days * 86_400_000 < i64::MIN {
        i64::MIN
    } else {
        (now_ms - days * 86_400_000) as i64
    }
}

/// Relies on `u64::saturating_mul`: the product, saturating at the numeric
/// bounds instead of overflowing.
pub assume_specification[ u64::saturating_mul ](x: u64, y: u64) -> (r: u64)
    ensures
        r == clamp_u64(x * y),
;

/// An unbounded total clamped into the range of a 64-bit counter.
pub open spec fn clamp_u64(x: int) -> u64 {
    if x > u64::MAX {
        u64::MAX
    } else if x < 0 {
        0
    } else {
        x as u64
    }
}

/// The listing form of one observed file entry.
pub fn to_item(entry: &FsEntry) -> (r: CleanupItem)
    ensures
        r.path@ == entry.path@,
        r.size_bytes == entry.size,
        r.modified_ms == entry.modified,
{
    CleanupItem { path: entry.path.clone(), size_bytes: entry.size, modified_ms: entry.modified }
}

} // verus!
