//! Backup bookkeeping: the metadata a backup carries and the rotation
//! rule that bounds how many backups are kept. Copying files is the
//! embedding program's concern.

use vstd::prelude::*;

verus! {

/// What is recorded about one backup.
#[derive(Debug)]
pub struct BackupMetadata {
    /// Seconds since the epoch when the backup was taken.
    pub timestamp: u64,
    /// A free-form description.
    pub description: String,
    /// Size of the backup in bytes.
    pub size: u64,
    /// Version of the application that created it.
    pub version: String,
    /// Kind of backup (auto, manual, pre-update, ...).
    pub backup_type: String,
}

/// The backup manager: where backups live and how many to keep.
#[derive(Debug)]
pub struct BackupManager {
    backup_dir: String,
    max_backups: usize,
}

impl BackupManager {
    /// The directory backups live in.
    pub closed spec fn spec_backup_dir(&self) -> Seq<char> {
        self.backup_dir@
    }

    /// How many backups rotation keeps.
    pub closed spec fn spec_max_backups(&self) -> usize {
        self.max_backups
    }

    /// A manager for the given directory, keeping ten backups by default.
    pub fn new(backup_dir: String) -> (r: BackupManager)
        ensures
            r.spec_backup_dir() == backup_dir@,
            r.spec_max_backups() == 10,
    {
        BackupManager { backup_dir, max_backups: 10 }
    }

    /// The directory backups live in.
    pub fn backup_dir(&self) -> (r: &str)
        ensures
            r@ == self.spec_backup_dir(),
    {
        self.backup_dir.as_str()
    }

    /// Set the maximum number of backups to keep.
    pub fn set_max_backups(&mut self, max_backups: usize)
        ensures
            final(self).spec_max_backups() == max_backups,
            final(self).spec_backup_dir() == old(self).spec_backup_dir(),
    {
        self.max_backups = max_backups;
    }

    /// How many backups rotation must delete, given how many exist: the
    /// excess over the configured maximum (the oldest ones go).
    pub fn rotation_excess(&self, backup_count: usize) -> (r: usize)
        ensures
            r == if backup_count > self.spec_max_backups() {
                backup_count - self.spec_max_backups()
            } else {
                0
            },
    {
        if backup_count > self.max_backups {
            backup_count - self.max_backups
        } else {
            0
        }
    }
}

} // verus!
