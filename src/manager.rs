//! The life cycle of a run directory: available, sequencing, transferring,
//! failed or unavailable. Each poll takes what the file system showed and the
//! time, and moves the directory to its next state.
use vstd::prelude::*;

use crate::seqdir::SeqDir;

verus! {

/// The state of a run directory.
#[derive(Debug, Clone, Copy, PartialEq, Eq, Structural)]
pub enum SeqDirState {
    Available,
    Transferring,
    Unavailable,
    Sequencing,
    Failed,
}

/// What a poll of the file system showed.
#[derive(Debug, Clone, Copy, PartialEq, Eq, Structural)]
pub struct Probe {
    /// The root directory can be read.
    pub readable: bool,
    /// The run is known to have failed.
    pub failed: bool,
    /// `SequenceComplete.txt` exists.
    pub sequence_complete: bool,
    /// `CopyComplete.txt` exists.
    pub copy_complete: bool,
}

/// The state that a directory in state `s` moves to on `p`.
pub open spec fn next_state(s: SeqDirState, p: Probe) -> SeqDirState {
    match s {
        SeqDirState::Available => if !p.readable {
            SeqDirState::Unavailable
        } else {
            s
        },
        SeqDirState::Failed => if !p.readable {
            SeqDirState::Unavailable
        } else {
            s
        },
        SeqDirState::Unavailable => if !p.readable {
            s
        } else if p.failed {
            SeqDirState::Failed
        } else if !p.sequence_complete {
            SeqDirState::Sequencing
        } else {
            SeqDirState::Available
        },
        SeqDirState::Sequencing => if !p.sequence_complete {
            s
        } else if !p.readable {
            SeqDirState::Unavailable
        } else if p.failed {
            SeqDirState::Failed
        } else if p.copy_complete {
            SeqDirState::Available
        } else {
            SeqDirState::Transferring
        },
        SeqDirState::Transferring => if p.copy_complete {
            SeqDirState::Available
        } else if !p.readable {
            SeqDirState::Unavailable
        } else if p.failed {
            SeqDirState::Failed
        } else {
            s
        },
    }
}

/// Watches one run directory.
#[derive(Debug, Clone)]
pub struct DirManager {
    seq_dir: SeqDir,
    state: SeqDirState,
    since: i64,
}

impl DirManager {
    pub closed spec fn current(&self) -> SeqDirState {
        self.state
    }

    pub closed spec fn entered(&self) -> i64 {
        self.since
    }

    pub closed spec fn dir(&self) -> SeqDir {
        self.seq_dir
    }

    /// Watches `seq_dir`, which is in `state` since `now`.
    pub fn new(seq_dir: SeqDir, state: SeqDirState, now: i64) -> (r: DirManager)
        ensures
            r.current() == state,
            r.entered() == now,
            r.dir() == seq_dir,
    {
        DirManager { seq_dir, state, since: now }
    }

    /// The directory, whatever its state.
    pub fn into_inner(self) -> (r: SeqDir)
        ensures
            r == self.dir(),
    {
        self.seq_dir
    }

    pub fn inner(&self) -> (r: &SeqDir)
        ensures
            *r == self.dir(),
    {
        &self.seq_dir
    }

    pub fn state(&self) -> (r: SeqDirState)
        ensures
            r == self.current(),
    {
        self.state
    }

    /// When the directory entered its current state.
    pub fn since(&self) -> (r: i64)
        ensures
            r == self.entered(),
    {
        self.since
    }

    /// Moves the directory to the state that `probe` calls for; the time of
    /// entry changes to `now` only where the state changes.
    pub fn poll(&mut self, probe: Probe, now: i64) -> (r: SeqDirState)
        ensures
            r == next_state(old(self).current(), probe),
            final(self).current() == r,
            final(self).dir() == old(self).dir(),
            final(self).entered() == if r == old(self).current() {
                old(self).entered()
            } else {
                now
            },
    {
        let next = match self.state {
            SeqDirState::Available => if !probe.readable {
                SeqDirState::Unavailable
            } else {
                SeqDirState::Available
            },
            SeqDirState::Failed => if !probe.readable {
                SeqDirState::Unavailable
            } else {
                SeqDirState::Failed
            },
            SeqDirState::Unavailable => if !probe.readable {
                SeqDirState::Unavailable
            } else if probe.failed {
                SeqDirState::Failed
            } else if !probe.sequence_complete {
                SeqDirState::Sequencing
            } else {
                SeqDirState::Available
            },
            SeqDirState::Sequencing => if !probe.sequence_complete {
                SeqDirState::Sequencing
            } else if !probe.readable {
                SeqDirState::Unavailable
            } else if probe.failed {
                SeqDirState::Failed
            } else if probe.copy_complete {
                SeqDirState::Available
            } else {
                SeqDirState::Transferring
            },
            SeqDirState::Transferring => if probe.copy_complete {
                SeqDirState::Available
            } else if !probe.readable {
                SeqDirState::Unavailable
            } else if probe.failed {
                SeqDirState::Failed
            } else {
                SeqDirState::Transferring
            },
        };
        if next != self.state {
            self.state = next;
            self.since = now;
        }
        next
    }
}

} // verus!
