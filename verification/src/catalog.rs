//! The static category table, built from environment-derived base locations.
//!
//! Construction is pure: unresolvable locations yield shorter root lists and
//! never a failure, and every root list is deduplicated by comparison key.

use vstd::prelude::*;
use crate::paths::dedup_paths;
use crate::paths::join_path;
use crate::paths::spec_dedup;
use crate::paths::spec_join;

verus! {

/// The time window of a category: match everything, or only files older
/// than the given number of days.
#[derive(Clone, Copy)]
pub enum CategoryKind {
    Standard,
    DownloadsOlderThan { days: u64 },
}

/// One row of the category table.
pub struct CategoryDef {
    /// Stable key of the category.
    pub id: String,
    /// Display title; not a protocol contract.
    pub title: String,
    /// Display description; not a protocol contract.
    pub description: String,
    /// The time window applied to files under the roots.
    pub kind: CategoryKind,
    /// The locations searched, deduplicated by comparison key.
    pub roots: Vec<String>,
    /// Whether emptied directories are removed after file deletion.
    pub cleanup_dirs: bool,
}

/// The environment-derived base locations the table is built from. Absent
/// values fall back to defaults or drop the affected roots.
pub struct EnvInfo {
    /// The system drive, e.g. `C:`.
    pub system_drive: Option<String>,
    /// The OS installation directory, e.g. `C:\Windows`.
    pub system_root: Option<String>,
    /// The user's profile directory.
    pub user_profile: Option<String>,
    /// The user's local application-data directory.
    pub local_app_data: Option<String>,
    /// The temp directory of the current process.
    pub temp_dir: String,
    /// The mount points of all detected volumes.
    pub volume_mounts: Vec<String>,
}

/// The system drive, with its default.
pub open spec fn spec_drive(env: &EnvInfo) -> Seq<char> {
    match env.system_drive {
        Some(d) => d@,
        None => "C:"@,
    }
}

/// The OS installation directory, with its default under the system drive.
pub open spec fn spec_system_root(env: &EnvInfo) -> Seq<char> {
    match env.system_root {
        Some(r) => r@,
        None => spec_drive(env) + "\\Windows"@,
    }
}

/// The roots of the temp-files category.
pub open spec fn spec_temp_roots(env: &EnvInfo) -> Seq<Seq<char>> {
    let base = seq![spec_join(spec_system_root(env), "Temp"@), env.temp_dir@];
    match env.local_app_data {
        Some(local) => base.push(spec_join(local@, "Temp"@)),
        None => base,
    }
}

/// The roots of the browser-cache category.
pub open spec fn spec_browser_roots(env: &EnvInfo) -> Seq<Seq<char>> {
    match env.local_app_data {
        Some(local) => seq![
            spec_join(spec_join(spec_join(local@, "Microsoft"@), "Windows"@), "INetCache"@),
            spec_join(
                spec_join(
                    spec_join(spec_join(spec_join(local@, "Google"@), "Chrome"@), "User Data"@),
                    "Default"@,
                ),
                "Cache"@,
            ),
            spec_join(
                spec_join(
                    spec_join(spec_join(spec_join(local@, "Google"@), "Chrome"@), "User Data"@),
                    "Default"@,
                ),
                "Code Cache"@,
            ),
            spec_join(
                spec_join(
                    spec_join(spec_join(spec_join(local@, "Microsoft"@), "Edge"@), "User Data"@),
                    "Default"@,
                ),
                "Cache"@,
            ),
            spec_join(
                spec_join(
                    spec_join(spec_join(spec_join(local@, "Microsoft"@), "Edge"@), "User Data"@),
                    "Default"@,
                ),
                "Code Cache"@,
            ),
        ],
        None => Seq::empty(),
    }
}

/// The roots of the recycle-bin category: one per detected volume, or a
/// single root under the system drive when no volume was detected.
pub open spec fn spec_recycle_roots(env: &EnvInfo) -> Seq<Seq<char>> {
    if env.volume_mounts@.len() > 0 {
        Seq::new(
            env.volume_mounts@.len(),
            |i: int| spec_join(env.volume_mounts@[i]@, "$Recycle.Bin"@),
        )
    } else {
        seq![spec_drive(env) + "\\$Recycle.Bin"@]
    }
}

/// The root of the old-downloads category, when a profile is known.
pub open spec fn spec_download_roots(env: &EnvInfo) -> Seq<Seq<char>> {
    match env.user_profile {
        Some(profile) => seq![spec_join(profile@, "Downloads"@)],
        None => Seq::empty(),
    }
}

/// The roots of the system-cache category.
pub open spec fn spec_system_cache_roots(env: &EnvInfo) -> Seq<Seq<char>> {
    seq![
        spec_join(spec_join(spec_system_root(env), "SoftwareDistribution"@), "Download"@),
        spec_join(
            spec_join(spec_join(spec_system_root(env), "SoftwareDistribution"@), "DeliveryOptimization"@),
            "Cache"@,
        ),
    ]
}

/// The roots of the system-logs category.
pub open spec fn spec_system_logs_roots(env: &EnvInfo) -> Seq<Seq<char>> {
    seq![
        spec_join(spec_system_root(env), "Logs"@),
        spec_join(spec_join(spec_system_root(env), "System32"@), "LogFiles"@),
        spec_join(spec_system_root(env), "Panther"@),
    ]
}

/// The root of the superseded-OS-install category.
pub open spec fn spec_windows_old_roots(env: &EnvInfo) -> Seq<Seq<char>> {
    seq![spec_drive(env) + "\\Windows.old"@]
}

fn drive_of(env: &EnvInfo) -> (r: String)
    ensures
        r@ == spec_drive(env),
{
    match &env.system_drive {
        Some(d) => d.clone(),
        None => String::from_str("C:"),
    }
}

fn system_root_of(env: &EnvInfo) -> (r: String)
    ensures
        r@ == spec_system_root(env),
{
    match &env.system_root {
        Some(root) => root.clone(),
        None => {
            let mut d = drive_of(env);
            d.append("\\Windows");
            d
        },
    }
}

/// The mount path of the system volume: the system drive followed by a
/// backslash.
pub fn system_drive_mount(system_drive: &Option<String>) -> (r: String)
    ensures
        (system_drive matches Some(d) ==> r@ == d@ + "\\"@),
        (system_drive is None ==> r@ == "C:"@ + "\\"@),
{
    let mut d = match system_drive {
        Some(d) => d.clone(),
        None => String::from_str("C:"),
    };
    d.append("\\");
    d
}

/// Builds the fixed category table from the given environment. The table is
/// deterministic in `env`, has no failure mode, and every root list is
/// deduplicated by comparison key.
#[verifier::loop_isolation(false)]
pub fn build_categories(env: &EnvInfo) -> (r: Vec<CategoryDef>)
    ensures
        r@.len() == 7,
        r@[0].id@ == "temp_files"@,
        r@[0].kind is Standard,
        r@[0].cleanup_dirs,
        r@[0].roots.deep_view() == spec_dedup(spec_temp_roots(env)),
        r@[1].id@ == "recycle_bin"@,
        r@[1].kind is Standard,
        r@[1].cleanup_dirs,
        r@[1].roots.deep_view() == spec_dedup(spec_recycle_roots(env)),
        r@[2].id@ == "downloads_old"@,
        r@[2].kind matches CategoryKind::DownloadsOlderThan { days: 30u64 },
        !r@[2].cleanup_dirs,
        r@[2].roots.deep_view() == spec_dedup(spec_download_roots(env)),
        r@[3].id@ == "system_cache"@,
        r@[3].kind is Standard,
        r@[3].cleanup_dirs,
        r@[3].roots.deep_view() == spec_dedup(spec_system_cache_roots(env)),
        r@[4].id@ == "browser_cache"@,
        r@[4].kind is Standard,
        r@[4].cleanup_dirs,
        r@[4].roots.deep_view() == spec_dedup(spec_browser_roots(env)),
        r@[5].id@ == "system_logs"@,
        r@[5].kind is Standard,
        r@[5].cleanup_dirs,
        r@[5].roots.deep_view() == spec_dedup(spec_system_logs_roots(env)),
        r@[6].id@ == "windows_old"@,
        r@[6].kind is Standard,
        r@[6].cleanup_dirs,
        r@[6].roots.deep_view() == spec_dedup(spec_windows_old_roots(env)),
{
    let sysroot = system_root_of(env);

    let mut temp_roots: Vec<String> = Vec::new();
    temp_roots.push(join_path(&sysroot, "Temp"));
    temp_roots.push(env.temp_dir.clone());
    match &env.local_app_data {
        Some(local) => {
            temp_roots.push(join_path(local, "Temp"));
        },
        None => {},
    }
    proof {
        assert(temp_roots.deep_view() =~~= spec_temp_roots(env));
    }

    let mut browser_roots: Vec<String> = Vec::new();
    match &env.local_app_data {
        Some(local) => {
            let ms = join_path(local, "Microsoft");
            let goog = join_path(local, "Google");
            let chrome_default = join_path(
                &join_path(&join_path(&goog, "Chrome"), "User Data"),
                "Default",
            );
            let edge_default = join_path(
                &join_path(&join_path(&ms, "Edge"), "User Data"),
                "Default",
            );
            browser_roots.push(join_path(&join_path(&ms, "Windows"), "INetCache"));
            browser_roots.push(join_path(&chrome_default, "Cache"));
            browser_roots.push(join_path(&chrome_default, "Code Cache"));
            browser_roots.push(join_path(&edge_default, "Cache"));
            browser_roots.push(join_path(&edge_default, "Code Cache"));
        },
        None => {},
    }
    proof {
        assert(browser_roots.deep_view() =~~= spec_browser_roots(env));
    }

    let mut recycle_roots: Vec<String> = Vec::new();
    let nvol = env.volume_mounts.len();
    if nvol == 0 {
        let mut root = drive_of(env);
        root.append("\\$Recycle.Bin");
        recycle_roots.push(root);
    } else {
        let mut i: usize = 0;
        while i < nvol
            invariant
                i <= nvol,
                recycle_roots.deep_view().len() == i,
                forall|j: int|
                    0 <= j < i ==> recycle_roots.deep_view()[j] == spec_join(
                        env.volume_mounts@[j]@,
                        "$Recycle.Bin"@,
                    ),
            decreases nvol - i,
        {
            let ghost rdv = recycle_roots.deep_view();
            let joined = join_path(&env.volume_mounts[i], "$Recycle.Bin");
            let ghost jv = joined@;
            recycle_roots.push(joined);
            proof {
                assert(recycle_roots.deep_view() =~= rdv.push(jv));
            }
            i = i + 1;
        }
    }
    proof {
        assert(recycle_roots.deep_view() =~~= spec_recycle_roots(env));
    }

    let mut download_roots: Vec<String> = Vec::new();
    match &env.user_profile {
        Some(profile) => {
            download_roots.push(join_path(profile, "Downloads"));
        },
        None => {},
    }
    proof {
        assert(download_roots.deep_view() =~~= spec_download_roots(env));
    }

    let sd = join_path(&sysroot, "SoftwareDistribution");
    let mut cache_roots: Vec<String> = Vec::new();
    cache_roots.push(join_path(&sd, "Download"));
    cache_roots.push(join_path(&join_path(&sd, "DeliveryOptimization"), "Cache"));
    proof {
        assert(cache_roots.deep_view() =~~= spec_system_cache_roots(env));
    }

    let mut log_roots: Vec<String> = Vec::new();
    log_roots.push(join_path(&sysroot, "Logs"));
    log_roots.push(join_path(&join_path(&sysroot, "System32"), "LogFiles"));
    log_roots.push(join_path(&sysroot, "Panther"));
    proof {
        assert(log_roots.deep_view() =~~= spec_system_logs_roots(env));
    }

    let mut old_roots: Vec<String> = Vec::new();
    let mut old_root = drive_of(env);
    old_root.append("\\Windows.old");
    old_roots.push(old_root);
    proof {
        assert(old_roots.deep_view() =~~= spec_windows_old_roots(env));
    }

    let mut r: Vec<CategoryDef> = Vec::new();
    r.push(
        CategoryDef {
            id: String::from_str("temp_files"),
            title: String::from_str("Temporary files"),
            description: String::from_str("Temporary files created by Windows and applications"),
            kind: CategoryKind::Standard,
            roots: dedup_paths(temp_roots),
            cleanup_dirs: true,
        },
    );
    r.push(
        CategoryDef {
            id: String::from_str("recycle_bin"),
            title: String::from_str("Recycle bin"),
            description: String::from_str("Empty all files in the recycle bin"),
            kind: CategoryKind::Standard,
            roots: dedup_paths(recycle_roots),
            cleanup_dirs: true,
        },
    );
    r.push(
        CategoryDef {
            id: String::from_str("downloads_old"),
            title: String::from_str("Downloads folder"),
            description: String::from_str("Remove downloads older than 30 days"),
            kind: CategoryKind::DownloadsOlderThan { days: 30 },
            roots: dedup_paths(download_roots),
            cleanup_dirs: false,
        },
    );
    r.push(
        CategoryDef {
            id: String::from_str("system_cache"),
            title: String::from_str("System cache"),
            description: String::from_str("Windows update and system cache files"),
            kind: CategoryKind::Standard,
            roots: dedup_paths(cache_roots),
            cleanup_dirs: true,
        },
    );
    r.push(
        CategoryDef {
            id: String::from_str("browser_cache"),
            title: String::from_str("Browser cache"),
            description: String::from_str("Clear browser caches and cookies"),
            kind: CategoryKind::Standard,
            roots: dedup_paths(browser_roots),
            cleanup_dirs: true,
        },
    );
    r.push(
        CategoryDef {
            id: String::from_str("system_logs"),
            title: String::from_str("System logs"),
            description: String::from_str("Windows event logs and application logs"),
            kind: CategoryKind::Standard,
            roots: dedup_paths(log_roots),
            cleanup_dirs: true,
        },
    );
    r.push(
        CategoryDef {
            id: String::from_str("windows_old"),
            title: String::from_str("Previous Windows version"),
            description: String::from_str("Old system files kept after a Windows upgrade"),
            kind: CategoryKind::Standard,
            roots: dedup_paths(old_roots),
            cleanup_dirs: true,
        },
    );
    r
}

/// The first category of the table carrying the given id, when any does.
#[verifier::loop_isolation(false)]
pub fn find_category<'a>(catalog: &'a Vec<CategoryDef>, id: &String) -> (r: Option<&'a CategoryDef>)
    ensures
        match r {
            Some(def) => exists|i: int|
                0 <= i < catalog@.len() && catalog@[i].id@ == id@ && *def == catalog@[i],
            None => forall|i: int| 0 <= i < catalog@.len() ==> catalog@[i].id@ != id@,
        },
{
    let n = catalog.len();
    let mut i: usize = 0;
    while i < n
        invariant
            i <= n,
            forall|j: int| 0 <= j < i ==> catalog@[j].id@ != id@,
        decreases n - i,
    {
        if catalog[i].id.eq(id) {
            return Some(&catalog[i]);
        }
        i = i + 1;
    }
    None
}


/// The time cutoff of a category at the given instant: nothing for an
/// unconditional category, and `now − days·86400s` otherwise, clamped to the
/// earliest representable instant on underflow.
pub open spec fn cutoff_for(kind: CategoryKind, now_ms: i64) -> Option<i64> {
    match kind {
        CategoryKind::Standard => None,
        CategoryKind::DownloadsOlderThan { days } => Some(
            crate::model::spec_cutoff_val(now_ms, days),
        ),
    }
}

/// Computes the cutoff of a time window, taking the current instant in
/// milliseconds since the epoch.
pub fn cutoff_time(kind: &CategoryKind, now_ms: i64) -> (r: Option<i64>)
    ensures
        r == cutoff_for(*kind, now_ms),
{
    match kind {
        CategoryKind::Standard => None,
        CategoryKind::DownloadsOlderThan { days } => {
            let age: i128 = (*days as i128) * 86_400_000;
            let cut: i128 = (now_ms as i128) - age;
            if cut < (i64::MIN as i128) {
                Some(i64::MIN)
            } else {
                Some(cut as i64)
            }
        },
    }
}

/// Containment of a path in some root of a category, given which roots are
/// files.
pub open spec fn spec_within_roots(
    def: &CategoryDef,
    root_is_file: Seq<bool>,
    path: Seq<char>,
) -> bool {
    exists|i: int|
        0 <= i < def.roots@.len() && crate::paths::spec_root_contains(
            def.roots@[i]@,
            root_is_file[i],
            path,
        )
}

/// Whether `path` lies inside any root of the category. `root_is_file`
/// reports, for each root in order, whether it names a file.
#[verifier::loop_isolation(false)]
pub fn is_within_roots(def: &CategoryDef, root_is_file: &Vec<bool>, path: &String) -> (r: bool)
    requires
        root_is_file@.len() == def.roots@.len(),
    ensures
        r == spec_within_roots(def, root_is_file@, path@),
{
    let n = def.roots.len();
    let mut i: usize = 0;
    while i < n
        invariant
            i <= n,
            forall|j: int|
                0 <= j < i ==> !crate::paths::spec_root_contains(
                    def.roots@[j]@,
                    root_is_file@[j],
                    path@,
                ),
        decreases n - i,
    {
        if crate::paths::root_contains(&def.roots[i], root_is_file[i], path) {
            return true;
        }
        i = i + 1;
    }
    false
}

} // verus!
