//! Run settings, and the decisions a run takes from them.
use vstd::prelude::*;
use crate::paths::{join, join_spec};
use crate::retention::{marker, RetentionRules, StampOrder};
use crate::text::concat;

verus! {

/// The file that lists the source patterns.
pub const BACKUP_SRC: &'static str = ".backupsrc";

/// The name of an ignore manifest inside a directory.
pub const BACKUP_IGNORE: &'static str = ".backupignore";

/// The staging directory.
pub const BACKUP_DIR: &'static str = "backupdata";

/// The directory that holds local archives.
pub const BACKUP_GROUP_DIR: &'static str = "backups";

/// The extension of the archives that a run builds.
pub const ARCHIVE_EXT: &'static str = ".tar.gz";

/// Settings of one run.
pub struct Config {
    /// The directory to back up.
    pub work_dir: String,
    /// Keep the archive locally only; push nothing.
    pub backup_only: bool,
    /// Report what would be removed or pushed, and change nothing.
    pub dry_run: bool,
    /// How many archives to keep, the new one included; zero keeps all.
    pub rotate_count: usize,
    /// Push this existing archive instead of building one.
    pub push_only: Option<String>,
    /// The extension of the archives that retention considers.
    pub archive_format: String,
    /// Archive stems are opaque tokens rather than calendar timestamps.
    pub timestamp_prefix: bool,
}

impl Config {
    /// Whether this run builds a new archive locally.
    pub fn builds_locally(&self) -> (r: bool)
        ensures
            r == (self.push_only is None),
    {
        self.push_only.is_none()
    }

    /// Whether this run pushes an archive to the remote store.
    pub fn pushes(&self) -> (r: bool)
        ensures
            r == (!self.dry_run && !self.backup_only),
    {
        !self.dry_run && !self.backup_only
    }

    /// The retention rules of this run, for a store that puts `prefix`
    /// before each identifier.
    pub fn retention_rules(&self, prefix: &str) -> (r: RetentionRules)
        ensures
            r.keep == self.rotate_count,
            r.extension@ == self.archive_format@,
            r.prefix@ == prefix@,
            r.order == (if self.timestamp_prefix {
                StampOrder::Lexical
            } else {
                StampOrder::Calendar
            }),
    {
        RetentionRules {
            keep: self.rotate_count,
            extension: self.archive_format.clone(),
            prefix: prefix.to_owned(),
            order: if self.timestamp_prefix {
                StampOrder::Lexical
            } else {
                StampOrder::Calendar
            },
        }
    }

    /// The local archive that a push uploads: the one named on the command
    /// line, or else the new archive `file_name` in the archive directory.
    pub fn push_source(&self, file_name: &str) -> (r: String)
        ensures
            match self.push_only {
                Some(p) => r@ == p@,
                None => r@ == join_spec(BACKUP_GROUP_DIR@, file_name@),
            },
    {
        match &self.push_only {
            Some(p) => p.clone(),
            None => join(BACKUP_GROUP_DIR, file_name),
        }
    }
}

/// The file name of a new archive: its timestamp, then `-backup` and the
/// extension.
pub fn archive_name(stamp: &str, extension: &str) -> (r: String)
    ensures
        r@ == stamp@ + marker(extension@),
{
    let m = concat("-backup", extension);
    let r = concat(stamp, m.as_str());
    assert(r@ =~= stamp@ + marker(extension@));
    r
}

} // verus!
