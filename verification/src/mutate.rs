//! Mutation plans: what a save or a delete must do to the filesystem. The
//! caller performs the described write or removal; everything decided here —
//! target path, rendered text, which action applies — is verified.

use vstd::prelude::*;
use vstd::string::StringExecFns;

use crate::entry::AutostartEntry;
use crate::entry::RepoError;
use crate::paths::basename;
use crate::paths::basename_of;
use crate::render::hidden_content;
use crate::render::hidden_content_model;
use crate::render::save_content;
use crate::render::save_content_model;

verus! {

/// A file to write: saves always target the user autostart directory.
#[derive(Debug)]
pub struct WritePlan {
    pub path: String,
    pub content: String,
}

/// What deleting an entry requires: a user entry's backing file is removed;
/// a system entry is shadowed by an override file in the user directory.
#[derive(Debug)]
pub enum DeleteAction {
    RemoveFile { path: String },
    WriteOverride { path: String, content: String },
}

/// `dir`, a slash, and `base`.
pub open spec fn joined_path(dir: Seq<char>, base: Seq<char>) -> Seq<char> {
    dir + "/"@ + base
}

fn join_path(dir: &str, base: &str) -> (r: String)
    ensures
        r@ == joined_path(dir@, base@),
{
    let mut p = String::new();
    p.append(dir);
    p.append("/");
    p.append(base);
    assert(p@ =~= joined_path(dir@, base@));
    p
}

impl AutostartEntry {
    /// The write a save performs: into the user autostart directory, under
    /// the same filename as the entry's backing file (shadowing a system
    /// entry on the next load), with `new_exec` in place of the stored
    /// command. Fails exactly when the backing path has no filename.
    pub fn save_plan(&self, new_exec: &str, user_autostart_dir: &str) -> (r: Result<
        WritePlan,
        RepoError,
    >)
        ensures
            (match r {
                Ok(p) => {
                    &&& basename_of(self.file_path@) matches Some(b)
                    &&& p.path@ == joined_path(user_autostart_dir@, b)
                    &&& p.content@ == save_content_model(
                        self@.name,
                        new_exec@,
                        self@.icon,
                        self@.comment,
                        self@.enabled,
                    )
                },
                Err(er) => er == RepoError::InvalidPath && basename_of(self.file_path@) is None,
            }),
    {
        let base = match basename(self.file_path.as_str()) {
            Some(b) => b,
            None => {
                return Err(RepoError::InvalidPath);
            },
        };
        Ok(
            WritePlan {
                path: join_path(user_autostart_dir, base.as_str()),
                content: save_content(self, new_exec),
            },
        )
    }

    /// What deleting this entry requires. A user entry: remove its backing
    /// file. A system entry: write an override with the same filename into
    /// the user autostart directory, whose text carries `Hidden=true`; this
    /// shadows the system entry, which reappears disabled on the next load
    /// rather than vanishing. Fails exactly when a system entry's backing
    /// path has no filename.
    pub fn delete_plan(&self, user_autostart_dir: &str) -> (r: Result<DeleteAction, RepoError>)
        ensures
            (match r {
                Ok(DeleteAction::RemoveFile { path }) => self.is_user_entry && path@
                    == self.file_path@,
                Ok(DeleteAction::WriteOverride { path, content }) => {
                    &&& !self.is_user_entry
                    &&& basename_of(self.file_path@) matches Some(b)
                    &&& path@ == joined_path(user_autostart_dir@, b)
                    &&& content@ == hidden_content_model(self@.name, self@.command)
                },
                Err(er) => er == RepoError::InvalidPath && !self.is_user_entry && basename_of(
                    self.file_path@,
                ) is None,
            }),
    {
        if self.is_user_entry {
            return Ok(DeleteAction::RemoveFile { path: self.file_path.clone() });
        }
        let base = match basename(self.file_path.as_str()) {
            Some(b) => b,
            None => {
                return Err(RepoError::InvalidPath);
            },
        };
        Ok(
            DeleteAction::WriteOverride {
                path: join_path(user_autostart_dir, base.as_str()),
                content: hidden_content(self.name.as_str(), self.command.as_str()),
            },
        )
    }
}

} // verus!
