//! The round of a worker: draw the traces of a phase, write them back, say
//! how far the sampler is, and only then look at the clock. What the worker
//! does next is decided here; drawing, locking, sending and reading the clock
//! are the caller's.

use vstd::prelude::*;

verus! {

/// Where in its round a worker stands.
#[derive(Clone, Copy, Debug, PartialEq, Eq, Structural)]
pub enum Stage {
    /// Between two phases: nothing is drawn that is not written back.
    Boundary,
    /// In a phase: traces may wait to be written back.
    Drawing,
    /// The traces of the phase are written back, the message is not sent.
    Flushed,
    /// The worker has come to its end.
    Stopped,
}

/// What a worker is to do next.
#[derive(Clone, Copy, Debug, PartialEq, Eq, Structural)]
pub enum Action {
    /// Ask the sampler for one more trace and keep it.
    Draw,
    /// Write all kept traces back to the histogram and forget them.
    Flush,
    /// Send the message with the samples that are left.
    Report,
    /// Leave the loop.
    Stop,
}

/// The state of a worker, as the contracts speak of it.
pub struct Round {
    pub stage: Stage,
    /// Draws that were asked for in this phase.
    pub drawn: nat,
    /// Draws that make a phase.
    pub phase_len: nat,
}

/// What a worker in a given state does next. `finished` says whether the
/// sampler is exhausted, `in_time` whether the time allowed has not run
/// out; the clock only matters between two phases.
pub open spec fn action_of(round: Round, finished: bool, in_time: bool) -> Action {
    match round.stage {
        Stage::Boundary => if !finished && in_time {
            Action::Draw
        } else {
            Action::Stop
        },
        Stage::Drawing => if round.drawn < round.phase_len && !finished {
            Action::Draw
        } else {
            Action::Flush
        },
        Stage::Flushed => Action::Report,
        Stage::Stopped => Action::Stop,
    }
}

/// The state of a worker once it has done what it was told.
pub open spec fn round_after(round: Round, finished: bool, in_time: bool) -> Round {
    match action_of(round, finished, in_time) {
        Action::Draw => Round {
            stage: Stage::Drawing,
            drawn: round.drawn + 1,
            phase_len: round.phase_len,
        },
        Action::Flush => Round { stage: Stage::Flushed, drawn: 0, phase_len: round.phase_len },
        Action::Report => Round { stage: Stage::Boundary, drawn: 0, phase_len: round.phase_len },
        Action::Stop => Round { stage: Stage::Stopped, drawn: 0, phase_len: round.phase_len },
    }
}

/// What holds of the state of every worker: a phase is made of one draw at
/// least, and draws are only counted within a phase, never more of them
/// than make a phase.
pub open spec fn round_inv(round: Round) -> bool {
    &&& round.phase_len >= 1
    &&& round.drawn <= round.phase_len
    &&& round.stage != Stage::Drawing ==> round.drawn == 0
}

/// The decisions of one worker.
pub struct Worker {
    stage: Stage,
    drawn: u64,
    phase_len: u64,
}

impl View for Worker {
    type V = Round;

    closed spec fn view(&self) -> Round {
        Round { stage: self.stage, drawn: self.drawn as nat, phase_len: self.phase_len as nat }
    }
}

impl Worker {
    /// What every worker that this library hands out satisfies.
    pub open spec fn wf(&self) -> bool {
        round_inv(self@)
    }

    /// A worker between two phases, for phases of `phase_len` draws. A
    /// phase without a draw would never get the sampler anywhere, so a phase
    /// length of zero counts as one.
    pub fn new(phase_len: u64) -> (w: Worker)
        ensures
            w.wf(),
            w@ == (Round {
                stage: Stage::Boundary,
                drawn: 0,
                phase_len: if phase_len > 0 {
                    phase_len as nat
                } else {
                    1
                },
            }),
    {
        let phase_len = if phase_len > 0 {
            phase_len
        } else {
            1
        };
        Worker { stage: Stage::Boundary, drawn: 0, phase_len }
    }

    /// Draws that make a phase.
    pub fn phase_len(&self) -> (n: u64)
        ensures
            n == self@.phase_len,
    {
        self.phase_len
    }

    /// Where in its round the worker stands.
    pub fn stage(&self) -> (s: Stage)
        ensures
            s == self@.stage,
    {
        self.stage
    }

    /// Draws that were asked for in this phase.
    pub fn drawn(&self) -> (n: u64)
        ensures
            n == self@.drawn,
    {
        self.drawn
    }

    /// Says what the worker is to do next, and moves on as if it had been
    /// done.
    pub fn next(&mut self, finished: bool, in_time: bool) -> (action: Action)
        requires
            old(self).wf(),
        ensures
            final(self).wf(),
            action == action_of(old(self)@, finished, in_time),
            final(self)@ == round_after(old(self)@, finished, in_time),
    {
        match self.stage {
            Stage::Boundary => {
                if !finished && in_time {
                    self.stage = Stage::Drawing;
                    self.drawn = 1;
                    Action::Draw
                } else {
                    self.stage = Stage::Stopped;
                    Action::Stop
                }
            },
            Stage::Drawing => {
                if self.drawn < self.phase_len && !finished {
                    self.drawn = self.drawn + 1;
                    Action::Draw
                } else {
                    self.stage = Stage::Flushed;
                    self.drawn = 0;
                    Action::Flush
                }
            },
            Stage::Flushed => {
                self.stage = Stage::Boundary;
                Action::Report
            },
            Stage::Stopped => Action::Stop,
        }
    }
}

/// How many draws make a phase where the slots of the histogram are shared
/// out among the workers: the slots divided by the workers, and one draw
/// where that comes to none.
pub open spec fn phase_len_of(width: u64, height: u64, thread_count: i32) -> int {
    let share = (width * height + 2) / (thread_count as int);
    if share > 0 {
        share
    } else {
        1
    }
}

/// The phase length for a histogram of the given frame and a number of
/// workers.
pub fn phase_len(width: u64, height: u64, thread_count: i32) -> (r: u64)
    requires
        thread_count > 0,
        width * height + 2 <= u64::MAX,
    ensures
        r == phase_len_of(width, height, thread_count),
        r >= 1,
{
    assert(0 <= width * height) by (nonlinear_arith);
    let share = (width * height + 2) / (thread_count as u64);
    if share > 0 {
        share
    } else {
        1
    }
}

/// The share of each of `thread_count` workers in `sample_count` samples:
/// the quotient, rounded towards zero.
pub open spec fn thread_share(sample_count: int, thread_count: int) -> int {
    if sample_count >= 0 {
        sample_count / thread_count
    } else {
        -((-sample_count) / thread_count)
    }
}

/// The samples that each worker is given.
pub fn thread_samples(sample_count: i32, thread_count: i32) -> (r: i32)
    requires
        thread_count > 0,
    ensures
        r == thread_share(sample_count as int, thread_count as int),
{
    sample_count / thread_count
}

/// A worker only stops between two phases: whatever it drew, it wrote back
/// and reported before it looked at the clock.
pub proof fn lemma_stop_only_at_boundary(round: Round, finished: bool, in_time: bool)
    requires
        round_inv(round),
        action_of(round, finished, in_time) == Action::Stop,
    ensures
        round.stage == Stage::Boundary || round.stage == Stage::Stopped,
        round.drawn == 0,
        round.stage == Stage::Boundary ==> finished || !in_time,
{
}

/// The clock does not matter within a phase: a worker that has begun a
/// phase draws, writes back and reports whatever the clock says.
pub proof fn lemma_clock_only_at_boundary(round: Round, finished: bool, a: bool, b: bool)
    requires
        round.stage != Stage::Boundary,
    ensures
        action_of(round, finished, a) == action_of(round, finished, b),
        round_after(round, finished, a) == round_after(round, finished, b),
{
}

/// Whatever happens, the state of a worker stays as it should be, and a
/// phase never asks for more draws than make it.
pub proof fn lemma_round_inv(round: Round, finished: bool, in_time: bool)
    requires
        round_inv(round),
    ensures
        round_inv(round_after(round, finished, in_time)),
        round_after(round, finished, in_time).phase_len == round.phase_len,
        action_of(round, finished, in_time) == Action::Flush ==> round_after(
            round,
            finished,
            in_time,
        ).drawn == 0,
{
}

} // verus!
