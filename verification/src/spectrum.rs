//! The spectrum pipeline's control state.
//!
//! One magnitude-spectrum computation may be outstanding at a time.  Each
//! spawned computation carries a generation number; the render loop polls
//! without blocking, and only the outcome that carries the current
//! generation is ever applied.  A new trigger while one computation is
//! outstanding supersedes it: last write wins, nothing is queued.  The
//! shell owns the actual sample and magnitude buffers and the channel; it
//! reports outcomes here and obeys the returned actions.

use vstd::prelude::*;

verus! {

/// Where the pipeline stands.
#[derive(Debug, Clone, Copy, PartialEq, Eq, Structural)]
pub enum SpectrumState {
    /// No computation outstanding.
    Idle,
    /// One computation outstanding, identified by the current generation.
    Computing,
    /// The current generation's result has been applied.
    Ready,
}

/// What the shell must do after a trigger.
#[derive(Debug, Clone, Copy, PartialEq, Eq, Structural)]
pub enum SpectrumAction {
    /// Drop the displayed result: the signal is empty.
    ClearResult,
    /// Spawn one computation tagged with this generation, replacing any
    /// receiver still held.
    Spawn(u64),
}

/// Control state of the one-in-flight spectrum pipeline.
pub struct SpectrumPipeline {
    pub state: SpectrumState,
    /// Identity of the newest computation ever spawned.
    pub generation: u64,
    /// Whether a result is currently displayed.
    pub has_result: bool,
}

/// What `trigger` does to the state.
pub open spec fn spec_trigger(p: SpectrumPipeline, signal_len: int) -> SpectrumPipeline {
    if signal_len == 0 {
        SpectrumPipeline { state: SpectrumState::Idle, generation: p.generation, has_result: false }
    } else {
        SpectrumPipeline {
            state: SpectrumState::Computing,
            generation: (p.generation + 1) as u64,
            has_result: p.has_result,
        }
    }
}

/// Whether an outcome tagged `gen` is applied in state `p`: only the
/// current generation's, and only while it is outstanding.
pub open spec fn spec_accepts(p: SpectrumPipeline, gen: u64) -> bool {
    p.state == SpectrumState::Computing && gen == p.generation
}

impl SpectrumPipeline {
    /// A fresh pipeline: idle, nothing displayed.
    pub fn new() -> (r: SpectrumPipeline)
        ensures
            r.state == SpectrumState::Idle,
            r.generation == 0,
            !r.has_result,
    {
        SpectrumPipeline { state: SpectrumState::Idle, generation: 0, has_result: false }
    }

    /// The signal changed or the spectrum display was switched on.  An
    /// empty signal yields an empty result at once; otherwise one
    /// computation is spawned under a fresh generation, superseding any
    /// outstanding one, while the previous result stays displayed.
    pub fn trigger(&mut self, signal_len: usize) -> (a: SpectrumAction)
        requires
            old(self).generation < u64::MAX,
        ensures
            *final(self) == spec_trigger(*old(self), signal_len as int),
            signal_len == 0 ==> a == SpectrumAction::ClearResult,
            signal_len > 0 ==> a == SpectrumAction::Spawn((old(self).generation + 1) as u64),
    {
        if signal_len == 0 {
            self.state = SpectrumState::Idle;
            self.has_result = false;
            SpectrumAction::ClearResult
        } else {
            self.generation = self.generation + 1;
            self.state = SpectrumState::Computing;
            SpectrumAction::Spawn(self.generation)
        }
    }

    /// A computation tagged `gen` delivered a result.  It is applied
    /// exactly when it is the outstanding generation; anything else is
    /// superseded and discarded.
    pub fn deliver(&mut self, gen: u64) -> (accepted: bool)
        ensures
            accepted == spec_accepts(*old(self), gen),
            accepted ==> *final(self) == (SpectrumPipeline {
                state: SpectrumState::Ready,
                has_result: true,
                ..*old(self)
            }),
            !accepted ==> *final(self) == *old(self),
    {
        let hit = match self.state {
            SpectrumState::Computing => gen == self.generation,
            _ => false,
        };
        if hit {
            self.state = SpectrumState::Ready;
            self.has_result = true;
        }
        hit
    }

    /// The worker of a computation tagged `gen` went away without a
    /// result.  The outstanding generation falls back to idle with the
    /// display unchanged; anything else is ignored.
    pub fn worker_gone(&mut self, gen: u64) -> (was_current: bool)
        ensures
            was_current == spec_accepts(*old(self), gen),
            was_current ==> *final(self) == (SpectrumPipeline {
                state: SpectrumState::Idle,
                ..*old(self)
            }),
            !was_current ==> *final(self) == *old(self),
    {
        let hit = match self.state {
            SpectrumState::Computing => gen == self.generation,
            _ => false,
        };
        if hit {
            self.state = SpectrumState::Idle;
        }
        hit
    }

    /// The spectrum display was switched off: drop the result and forget
    /// any outstanding computation.
    pub fn disable(&mut self)
        ensures
            *final(self) == (SpectrumPipeline {
                state: SpectrumState::Idle,
                has_result: false,
                generation: old(self).generation,
            }),
    {
        self.state = SpectrumState::Idle;
        self.has_result = false;
    }

    /// The signal was replaced: the displayed result is stale and is
    /// dropped at once, before any recomputation is triggered.
    pub fn invalidate(&mut self)
        ensures
            *final(self) == (SpectrumPipeline { has_result: false, ..*old(self) }),
    {
        self.has_result = false;
    }
}

/// A superseded computation's result is discarded: after a second trigger
/// while one computation is outstanding, the first computation's outcome
/// is no longer accepted, and only the newest generation's is.
pub proof fn lemma_superseded_result_discarded(p: SpectrumPipeline, n1: int, n2: int)
    requires
        n1 > 0,
        n2 > 0,
        p.generation + 2 <= u64::MAX,
    ensures
        !spec_accepts(
            spec_trigger(spec_trigger(p, n1), n2),
            spec_trigger(p, n1).generation,
        ),
        spec_accepts(
            spec_trigger(spec_trigger(p, n1), n2),
            spec_trigger(spec_trigger(p, n1), n2).generation,
        ),
{
}

/// Results always reflect the signal state present when the newest
/// computation was triggered: an outcome is applied only while its own
/// generation is the outstanding one, so an accepted generation can never
/// be accepted again after any later trigger.
pub proof fn lemma_generation_monotone(p: SpectrumPipeline, n: int, gen: u64)
    requires
        spec_accepts(p, gen),
        p.generation < u64::MAX,
    ensures
        n > 0 ==> !spec_accepts(spec_trigger(p, n), gen),
        n == 0 ==> !spec_accepts(spec_trigger(p, n), gen),
{
}

} // verus!
