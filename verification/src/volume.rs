//! Volume-level helpers: hibernation-file reporting and disk usage.

use vstd::prelude::*;
use crate::model::HibernationInfo;

verus! {

/// What a stat of the hibernation file observed.
pub enum FileCheck {
    /// The file exists with the given size.
    Present { size: u64 },
    /// The file does not exist.
    Absent,
    /// The stat failed for another reason; the message is the underlying
    /// error.
    Failed(String),
}

/// The path of the hibernation file on the system drive.
pub fn hibernation_file_path(system_drive: &Option<String>) -> (r: String)
    ensures
        (system_drive matches Some(d) ==> r@ == d@ + "\\hiberfil.sys"@),
        (system_drive is None ==> r@ == "C:"@ + "\\hiberfil.sys"@),
{
    let mut p = match system_drive {
        Some(d) => d.clone(),
        None => String::from_str("C:"),
    };
    p.append("\\hiberfil.sys");
    p
}

/// Interprets a stat of the hibernation file: present means enabled with the
/// observed size, absent means disabled with zero size, and any other stat
/// failure is the operation's error.
pub fn hibernation_info(system_drive: &Option<String>, check: FileCheck) -> (r: Result<
    HibernationInfo,
    String,
>)
    ensures
        (check matches FileCheck::Present { size } ==> (r matches Ok(h) && h.enabled
            && h.size_bytes == size)),
        (check is Absent ==> (r matches Ok(h) && !h.enabled && h.size_bytes == 0)),
        (r matches Ok(h) ==> ((system_drive matches Some(d) ==> h.path@ == d@
            + "\\hiberfil.sys"@) && (system_drive is None ==> h.path@ == "C:"@
            + "\\hiberfil.sys"@))),
        (check matches FileCheck::Failed(m) ==> (r matches Err(e) && e@ == m@)),
{
    let path = hibernation_file_path(system_drive);
    match check {
        FileCheck::Present { size } => Ok(
            HibernationInfo { enabled: true, size_bytes: size, path },
        ),
        FileCheck::Absent => Ok(HibernationInfo { enabled: false, size_bytes: 0, path }),
        FileCheck::Failed(m) => Err(m),
    }
}

/// The bytes in use on a volume: total minus free, never negative.
pub fn disk_usage(total_bytes: u64, free_bytes: u64) -> (r: u64)
    ensures
        r == if free_bytes > total_bytes {
            0u64
        } else {
            (total_bytes - free_bytes) as u64
        },
{
    if free_bytes > total_bytes {
        0
    } else {
        total_bytes - free_bytes
    }
}

} // verus!
