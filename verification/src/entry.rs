//! The data model: one autostart entry, the sandbox kinds, the directory
//! access snapshot, and the error taxonomy.

use vstd::prelude::*;

verus! {

/// One parsed `.desktop` autostart entry.
///
/// `name` is the identity used for override matching between directories;
/// `file_path` is the absolute location backing the entry, and
/// `is_user_entry` says whether that location lies under the per-user
/// autostart directory.
#[derive(Debug, Clone)]
pub struct AutostartEntry {
    pub name: String,
    pub command: String,
    pub icon: Option<String>,
    pub comment: Option<String>,
    pub enabled: bool,
    pub file_path: String,
    pub is_user_entry: bool,
}

/// The mathematical image of an [`AutostartEntry`]: the same fields over
/// character sequences.
#[verifier::ext_equal]
pub struct EntryModel {
    pub name: Seq<char>,
    pub command: Seq<char>,
    pub icon: Option<Seq<char>>,
    pub comment: Option<Seq<char>>,
    pub enabled: bool,
    pub file_path: Seq<char>,
    pub is_user_entry: bool,
}

pub open spec fn opt_view(o: Option<String>) -> Option<Seq<char>> {
    match o {
        Some(s) => Some(s@),
        None => None,
    }
}

impl View for AutostartEntry {
    type V = EntryModel;

    open spec fn view(&self) -> EntryModel {
        EntryModel {
            name: self.name@,
            command: self.command@,
            icon: opt_view(self.icon),
            comment: opt_view(self.comment),
            enabled: self.enabled,
            file_path: self.file_path@,
            is_user_entry: self.is_user_entry,
        }
    }
}

/// A successfully parsed entry always carries a non-empty name and command.
pub open spec fn entry_wf(e: EntryModel) -> bool {
    e.name.len() > 0 && e.command.len() > 0
}

/// The confinement environment the process runs in.
#[derive(Debug, Clone, PartialEq, Eq, Structural)]
pub enum SandboxType {
    Snap,
    Flatpak,
    Unconfined,
}

/// Snapshot of which well-known directories are reachable, plus the detected
/// sandbox. Diagnostic only; the merge iterates whatever is readable.
#[derive(Debug, Clone)]
pub struct DirectoryAccess {
    pub user_autostart: bool,
    pub etc_xdg_autostart: bool,
    pub usr_share_gnome_autostart: bool,
    pub usr_share_applications: bool,
    pub sandbox_type: SandboxType,
}

/// Why parsing or a mutation plan failed. The first two are the
/// missing-field kind (structurally fine file without a usable `Name` or
/// `Exec`); the last is a backing path with no extractable filename.
#[derive(Debug, Clone, PartialEq, Eq, Structural)]
pub enum RepoError {
    MissingName,
    MissingExec,
    InvalidPath,
}

impl RepoError {
    /// A human-readable description, mirroring the messages shown to users.
    pub fn message(&self) -> (r: &'static str)
        ensures
            r@ == (match self {
                RepoError::MissingName => "Missing Name field"@,
                RepoError::MissingExec => "Missing Exec field"@,
                RepoError::InvalidPath => "Invalid file name"@,
            }),
    {
        match self {
            RepoError::MissingName => "Missing Name field",
            RepoError::MissingExec => "Missing Exec field",
            RepoError::InvalidPath => "Invalid file name",
        }
    }
}

/// Classifies the environment from the presence of the `SNAP`, `SNAP_NAME`
/// and `FLATPAK_ID` variables: either `SNAP` variable wins over `FLATPAK_ID`.
pub fn detect_sandbox(has_snap: bool, has_snap_name: bool, has_flatpak_id: bool) -> (r:
    SandboxType)
    ensures
        r == (if has_snap || has_snap_name {
            SandboxType::Snap
        } else if has_flatpak_id {
            SandboxType::Flatpak
        } else {
            SandboxType::Unconfined
        }),
{
    if has_snap || has_snap_name {
        SandboxType::Snap
    } else if has_flatpak_id {
        SandboxType::Flatpak
    } else {
        SandboxType::Unconfined
    }
}

/// Assembles the access snapshot from the caller's directory probes and
/// environment flags.
pub fn check_directory_access(
    user_autostart: bool,
    etc_xdg_autostart: bool,
    usr_share_gnome_autostart: bool,
    usr_share_applications: bool,
    has_snap: bool,
    has_snap_name: bool,
    has_flatpak_id: bool,
) -> (r: DirectoryAccess)
    ensures
        r.user_autostart == user_autostart,
        r.etc_xdg_autostart == etc_xdg_autostart,
        r.usr_share_gnome_autostart == usr_share_gnome_autostart,
        r.usr_share_applications == usr_share_applications,
        r.sandbox_type == (if has_snap || has_snap_name {
            SandboxType::Snap
        } else if has_flatpak_id {
            SandboxType::Flatpak
        } else {
            SandboxType::Unconfined
        }),
{
    DirectoryAccess {
        user_autostart,
        etc_xdg_autostart,
        usr_share_gnome_autostart,
        usr_share_applications,
        sandbox_type: detect_sandbox(has_snap, has_snap_name, has_flatpak_id),
    }
}

} // verus!
