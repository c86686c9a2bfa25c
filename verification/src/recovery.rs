//! Crash-recovery bookkeeping: a pure state machine over the recovery
//! record. Persisting the record to disk is the embedding program's
//! concern; every transition here is exact.

use vstd::prelude::*;
use vstd::string::StringExecFns;

use crate::time::now_timestamp;

verus! {

/// The recovery record.
#[derive(Debug)]
pub struct RecoveryState {
    /// Last known server process id.
    pub pid: Option<u32>,
    /// Last known server port.
    pub port: Option<u16>,
    /// Database path.
    pub db_path: Option<String>,
    /// Configuration path.
    pub config_path: Option<String>,
    /// Seconds since the epoch at the last update.
    pub last_update: u64,
    /// Consecutive crash count.
    pub crash_count: u32,
    /// Seconds since the epoch at the last crash.
    pub last_crash: Option<u64>,
    /// Why the last crash happened.
    pub last_crash_reason: Option<String>,
    /// Recovery attempts made so far.
    pub recovery_attempts: u32,
    /// Whether safe mode is on.
    pub safe_mode: bool,
}

impl Default for RecoveryState {
    /// A fresh record: nothing known, no crashes, stamped with the current
    /// time.
    fn default() -> (r: RecoveryState)
        ensures
            r.pid is None,
            r.port is None,
            r.db_path is None,
            r.config_path is None,
            r.crash_count == 0,
            r.last_crash is None,
            r.last_crash_reason is None,
            r.recovery_attempts == 0,
            !r.safe_mode,
    {
        RecoveryState {
            pid: None,
            port: None,
            db_path: None,
            config_path: None,
            last_update: now_timestamp() as u64,
            crash_count: 0,
            last_crash: None,
            last_crash_reason: None,
            recovery_attempts: 0,
            safe_mode: false,
        }
    }
}

/// Crashes at or beyond this count switch safe mode on.
pub const SAFE_MODE_CRASHES: u32 = 3;

/// The crash-recovery manager: the record plus the attempt ceiling.
#[derive(Debug)]
pub struct CrashRecoveryManager {
    state: RecoveryState,
    max_recovery_attempts: u32,
}

impl CrashRecoveryManager {
    /// The current record.
    pub closed spec fn spec_state(&self) -> RecoveryState {
        self.state
    }

    /// The attempt ceiling.
    pub closed spec fn spec_max_attempts(&self) -> u32 {
        self.max_recovery_attempts
    }

    /// A manager over a fresh record, allowing three recovery attempts.
    /// Nothing is known yet: no process, no port, no paths, no crashes.
    pub fn new() -> (r: CrashRecoveryManager)
        ensures
            r.spec_state().pid is None,
            r.spec_state().port is None,
            r.spec_state().db_path is None,
            r.spec_state().config_path is None,
            r.spec_state().last_crash is None,
            r.spec_state().last_crash_reason is None,
            r.spec_state().crash_count == 0,
            r.spec_state().recovery_attempts == 0,
            !r.spec_state().safe_mode,
            r.spec_max_attempts() == 3,
    {
        CrashRecoveryManager { state: RecoveryState::default(), max_recovery_attempts: 3 }
    }

    /// A manager over a record loaded elsewhere (for the embedding program
    /// that persists the record to disk).
    pub fn from_state(state: RecoveryState) -> (r: CrashRecoveryManager)
        ensures
            r.spec_state() == state,
            r.spec_max_attempts() == 3,
    {
        CrashRecoveryManager { state, max_recovery_attempts: 3 }
    }

    /// Read out the record (for the embedding program to persist).
    pub fn state(&self) -> (r: &RecoveryState)
        ensures
            *r == self.spec_state(),
    {
        &self.state
    }

    /// Set the maximum number of recovery attempts.
    pub fn set_max_recovery_attempts(&mut self, max_attempts: u32)
        ensures
            final(self).spec_max_attempts() == max_attempts,
            final(self).spec_state() == old(self).spec_state(),
    {
        self.max_recovery_attempts = max_attempts;
    }

    /// Record the paths and port recovery would need.
    pub fn set_paths(&mut self, db_path: &str, config_path: &str, port: u16)
        ensures
            final(self).spec_state().db_path matches Some(p) && p@ == db_path@,
            final(self).spec_state().config_path matches Some(p) && p@ == config_path@,
            final(self).spec_state().port == Some(port),
            final(self).spec_state() == (RecoveryState {
                db_path: final(self).spec_state().db_path,
                config_path: final(self).spec_state().config_path,
                port: Some(port),
                ..old(self).spec_state()
            }),
            final(self).spec_max_attempts() == old(self).spec_max_attempts(),
    {
        self.state.db_path = Some(String::from_str(db_path));
        self.state.config_path = Some(String::from_str(config_path));
        self.state.port = Some(port);
    }

    /// Record the server's process id and stamp the update time.
    pub fn update_pid(&mut self, pid: u32)
        ensures
            final(self).spec_state().pid == Some(pid),
            final(self).spec_state() == (RecoveryState {
                pid: Some(pid),
                last_update: final(self).spec_state().last_update,
                ..old(self).spec_state()
            }),
            final(self).spec_max_attempts() == old(self).spec_max_attempts(),
    {
        self.state.pid = Some(pid);
        self.state.last_update = now_timestamp() as u64;
    }

    /// Record a crash: bump the consecutive crash count, remember when and
    /// why, and switch safe mode on at the third consecutive crash.
    pub fn record_crash(&mut self, reason: &str)
        requires
            old(self).spec_state().crash_count < u32::MAX,
        ensures
            final(self).spec_state().crash_count == old(self).spec_state().crash_count + 1,
            final(self).spec_state().last_crash_reason matches Some(why) && why@ == reason@,
            final(self).spec_state().last_crash is Some,
            final(self).spec_state().safe_mode == (old(self).spec_state().safe_mode || old(
                self,
            ).spec_state().crash_count + 1 >= SAFE_MODE_CRASHES),
            final(self).spec_state() == (RecoveryState {
                crash_count: final(self).spec_state().crash_count,
                last_crash: final(self).spec_state().last_crash,
                last_crash_reason: final(self).spec_state().last_crash_reason,
                safe_mode: final(self).spec_state().safe_mode,
                ..old(self).spec_state()
            }),
            final(self).spec_max_attempts() == old(self).spec_max_attempts(),
    {
        self.state.crash_count = self.state.crash_count + 1;
        self.state.last_crash = Some(now_timestamp() as u64);
        self.state.last_crash_reason = Some(String::from_str(reason));
        if self.state.crash_count >= SAFE_MODE_CRASHES {
            self.state.safe_mode = true;
        }
    }

    /// The record, when any crash has been seen since the last reset.
    pub fn check_previous_crash(&self) -> (r: Option<&RecoveryState>)
        ensures
            match r {
                Some(s) => self.spec_state().crash_count > 0 && *s == self.spec_state(),
                None => self.spec_state().crash_count == 0,
            },
    {
        if self.state.crash_count > 0 {
            Some(&self.state)
        } else {
            None
        }
    }

    /// Count one recovery attempt.
    pub fn record_recovery_attempt(&mut self)
        requires
            old(self).spec_state().recovery_attempts < u32::MAX,
        ensures
            final(self).spec_state() == (RecoveryState {
                recovery_attempts: (old(self).spec_state().recovery_attempts + 1) as u32,
                ..old(self).spec_state()
            }),
            final(self).spec_max_attempts() == old(self).spec_max_attempts(),
    {
        self.state.recovery_attempts = self.state.recovery_attempts + 1;
    }

    /// Decide one recovery round, given what the integrity check and the
    /// repair attempt (run by the embedding program) reported: refuse when
    /// the attempt ceiling is reached; otherwise count the attempt and fail
    /// exactly when the database is broken and was not repaired.
    pub fn perform_recovery(&mut self, database_intact: bool, repair_succeeded: bool) -> (r:
        Result<(), &'static str>)
        requires
            old(self).spec_state().recovery_attempts < u32::MAX,
        ensures
            old(self).spec_state().recovery_attempts >= old(self).spec_max_attempts() ==> (
            r matches Err(msg) && msg@ == "Too many recovery attempts"@ && *final(self) == *old(
                self,
            )),
            old(self).spec_state().recovery_attempts < old(self).spec_max_attempts() ==> {
                &&& final(self).spec_state().recovery_attempts == old(
                    self,
                ).spec_state().recovery_attempts + 1
                &&& (r is Ok <==> (database_intact || repair_succeeded))
            },
            final(self).spec_max_attempts() == old(self).spec_max_attempts(),
            final(self).spec_state().crash_count == old(self).spec_state().crash_count,
            final(self).spec_state().safe_mode == old(self).spec_state().safe_mode,
    {
        if !self.should_attempt_recovery() {
            return Err("Too many recovery attempts");
        }
        self.record_recovery_attempt();
        if database_intact || repair_succeeded {
            Ok(())
        } else {
            Err("Database repair failed")
        }
    }

    /// Whether recovery is called for: a process id is on record and that
    /// process (as the embedding program observed) is no longer running.
    pub fn is_recovery_needed(&self, process_running: bool) -> (r: bool)
        ensures
            r == (self.spec_state().pid is Some && !process_running),
    {
        match self.state.pid {
            Some(_) => !process_running,
            None => false,
        }
    }

    /// Clear crash and attempt counters and leave safe mode.
    pub fn reset_crash_count(&mut self)
        ensures
            final(self).spec_state() == (RecoveryState {
                crash_count: 0,
                recovery_attempts: 0,
                safe_mode: false,
                ..old(self).spec_state()
            }),
            final(self).spec_max_attempts() == old(self).spec_max_attempts(),
    {
        self.state.crash_count = 0;
        self.state.recovery_attempts = 0;
        self.state.safe_mode = false;
    }

    /// Whether safe mode is on.
    pub fn is_safe_mode_enabled(&self) -> (r: bool)
        ensures
            r == self.spec_state().safe_mode,
    {
        self.state.safe_mode
    }

    /// Whether another recovery attempt is allowed.
    pub fn should_attempt_recovery(&self) -> (r: bool)
        ensures
            r == (self.spec_state().recovery_attempts < self.spec_max_attempts()),
    {
        self.state.recovery_attempts < self.max_recovery_attempts
    }

    /// The recorded database path.
    pub fn get_db_path(&self) -> (r: Option<&str>)
        ensures
            match r {
                Some(p) => self.spec_state().db_path matches Some(q) && q@ == p@,
                None => self.spec_state().db_path is None,
            },
    {
        match &self.state.db_path {
            Some(p) => Some(p.as_str()),
            None => None,
        }
    }

    /// The recorded configuration path.
    pub fn get_config_path(&self) -> (r: Option<&str>)
        ensures
            match r {
                Some(p) => self.spec_state().config_path matches Some(q) && q@ == p@,
                None => self.spec_state().config_path is None,
            },
    {
        match &self.state.config_path {
            Some(p) => Some(p.as_str()),
            None => None,
        }
    }

    /// The recorded port.
    pub fn get_port(&self) -> (r: Option<u16>)
        ensures
            r == self.spec_state().port,
    {
        self.state.port
    }

    /// The recorded process id.
    pub fn get_pid(&self) -> (r: Option<u32>)
        ensures
            r == self.spec_state().pid,
    {
        self.state.pid
    }

    /// The consecutive crash count.
    pub fn get_crash_count(&self) -> (r: u32)
        ensures
            r == self.spec_state().crash_count,
    {
        self.state.crash_count
    }

    /// The recovery attempts made so far.
    pub fn get_recovery_attempts(&self) -> (r: u32)
        ensures
            r == self.spec_state().recovery_attempts,
    {
        self.state.recovery_attempts
    }
}

} // verus!
