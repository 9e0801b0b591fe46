//! Background-worker state machines.
//!
//! Two long-running workers exist: the live ingest worker, which reads
//! newly appended stream records past a watermark and forwards them to the
//! render thread, and the signal generator, which writes synthesized
//! records at a fixed cadence.  Their loops block on the store, so the
//! loops themselves live in the shell; every decision they take — how the
//! watermark advances, what is forwarded, when to back off, which epoch a
//! batch belongs to — is made here and proved.

use vstd::prelude::*;
use crate::stream::StreamEntry;

verus! {

/// What one blocking read of the ingest worker came back with.
pub enum IngestEvent {
    /// The read timed out with no new records.
    Timeout,
    /// The read returned newly appended records.
    Batch(Vec<StreamEntry>),
    /// The read failed; the connection may be gone.
    ReadError,
}

/// What the ingest worker does in response.
pub enum IngestAction {
    /// Send these records to the render thread.
    Forward(Vec<StreamEntry>),
    /// Nothing to do; read again.
    Wait,
    /// Sleep a fixed backoff before reading again; errors are never fatal
    /// to the loop.
    Backoff,
}

/// The ingest worker's state: the identifier of the last record already
/// seen, past which the next read resumes.
pub struct IngestState {
    pub watermark: String,
}

/// The watermark after one event: a non-empty batch advances it to its
/// last record's identifier, everything else leaves it.
pub open spec fn next_watermark(w: Seq<char>, ev: IngestEvent) -> Seq<char> {
    match ev {
        IngestEvent::Batch(es) => if es@.len() > 0 {
            es@.last().id@
        } else {
            w
        },
        _ => w,
    }
}

/// How many records one event forwards.
pub open spec fn forwarded_of(ev: IngestEvent) -> int {
    match ev {
        IngestEvent::Batch(es) => es@.len() as int,
        _ => 0,
    }
}

/// The watermark after a run of events.
pub open spec fn run_watermark(w: Seq<char>, events: Seq<IngestEvent>) -> Seq<char>
    decreases events.len(),
{
    if events.len() == 0 {
        w
    } else {
        run_watermark(next_watermark(w, events[0]), events.drop_first())
    }
}

/// The total number of records a run of events forwards.
pub open spec fn run_forwarded(events: Seq<IngestEvent>) -> int
    decreases events.len(),
{
    if events.len() == 0 {
        0
    } else {
        forwarded_of(events[0]) + run_forwarded(events.drop_first())
    }
}

impl IngestState {
    /// Start ingesting after the given record identifier.
    pub fn new(last_id: String) -> (r: IngestState)
        ensures
            r.watermark == last_id,
    {
        IngestState { watermark: last_id }
    }

    /// Take one event: a non-empty batch advances the watermark to its
    /// last record's identifier and is forwarded whole; a timeout or an
    /// empty batch changes nothing; a read error asks for a backoff and
    /// changes nothing.
    pub fn step(&mut self, ev: IngestEvent) -> (a: IngestAction)
        ensures
            final(self).watermark@ == next_watermark(old(self).watermark@, ev),
            ev matches IngestEvent::Batch(es) ==> if es@.len() > 0 {
                a == IngestAction::Forward(es)
            } else {
                a == IngestAction::Wait
            },
            ev is Timeout ==> a == IngestAction::Wait && *final(self) == *old(self),
            ev is ReadError ==> a == IngestAction::Backoff && *final(self) == *old(self),
    {
        match ev {
            IngestEvent::Timeout => IngestAction::Wait,
            IngestEvent::ReadError => IngestAction::Backoff,
            IngestEvent::Batch(es) => {
                if es.len() == 0 {
                    IngestAction::Wait
                } else {
                    let last = &es[es.len() - 1];
                    self.watermark = last.id.clone();
                    proof {
                        assert(self.watermark@ == es@.last().id@);
                    }
                    IngestAction::Forward(es)
                }
            }
        }
    }
}

/// A run of pure timeouts forwards nothing and leaves the watermark
/// where it was.
pub proof fn lemma_timeouts_forward_nothing(w: Seq<char>, events: Seq<IngestEvent>)
    requires
        forall|i: int| 0 <= i < events.len() ==> events[i] is Timeout,
    ensures
        run_watermark(w, events) == w,
        run_forwarded(events) == 0,
    decreases events.len(),
{
    if events.len() > 0 {
        assert(events[0] is Timeout);
        lemma_timeouts_forward_nothing(w, events.drop_first());
    }
}

/// Live ingestion: after any run of timeouts followed by one batch,
/// exactly that batch's records have been forwarded and the watermark
/// stands at its last record's identifier.
pub proof fn lemma_timeouts_then_batch(w: Seq<char>, events: Seq<IngestEvent>)
    requires
        events.len() > 0,
        forall|i: int| 0 <= i < events.len() - 1 ==> events[i] is Timeout,
        events.last() is Batch,
        events.last()->Batch_0@.len() > 0,
    ensures
        run_forwarded(events) == events.last()->Batch_0@.len(),
        run_watermark(w, events) == events.last()->Batch_0@.last().id@,
    decreases events.len(),
{
    if events.len() == 1 {
        assert(events.drop_first() =~= Seq::<IngestEvent>::empty());
        assert(events[0] == events.last());
        let es = events.last()->Batch_0;
        assert(forwarded_of(events[0]) == es@.len());
        assert(run_forwarded(events) == es@.len() + run_forwarded(events.drop_first()));
        assert(run_forwarded(events.drop_first()) == 0);
        assert(next_watermark(w, events[0]) == es@.last().id@);
        assert(run_watermark(w, events)
            == run_watermark(next_watermark(w, events[0]), events.drop_first()));
    } else {
        assert(events[0] is Timeout);
        assert(events.drop_first().last() == events[events.len() - 1]);
        assert(events.drop_first().last() == events.last());
        assert(forall|i: int| 0 <= i < events.drop_first().len() - 1
            ==> events.drop_first()[i] is Timeout);
        lemma_timeouts_then_batch(w, events.drop_first());
        assert(forwarded_of(events[0]) == 0);
        assert(next_watermark(w, events[0]) == w);
    }
}

/// Handle of one background worker as the owner sees it.  Starting a
/// worker opens a new epoch; every batch a worker sends is tagged with the
/// epoch it was started under, and the owner applies only batches of the
/// current epoch of an active worker.  The owner stops (cancels and joins)
/// the old worker before starting a new one — supersede, not rejection —
/// so `start` demands an inactive slot.
pub struct WorkerSlot {
    /// Epoch of the newest worker ever started.
    pub epoch: u64,
    /// Whether a worker of the current epoch is running.
    pub active: bool,
}

/// Whether a batch tagged with `epoch` is applied under slot state `s`.
pub open spec fn slot_accepts(s: WorkerSlot, epoch: u64) -> bool {
    s.active && epoch == s.epoch
}

/// What `start` does to the slot.
pub open spec fn spec_start(s: WorkerSlot) -> WorkerSlot {
    WorkerSlot { epoch: (s.epoch + 1) as u64, active: true }
}

/// What `stop` does to the slot.
pub open spec fn spec_stop(s: WorkerSlot) -> WorkerSlot {
    WorkerSlot { active: false, ..s }
}

impl WorkerSlot {
    /// A slot with no worker yet.
    pub fn new() -> (r: WorkerSlot)
        ensures
            r.epoch == 0,
            !r.active,
    {
        WorkerSlot { epoch: 0, active: false }
    }

    /// Open a new epoch for a worker about to be spawned.  The old worker
    /// must have been stopped and joined first.
    pub fn start(&mut self) -> (e: u64)
        requires
            !old(self).active,
            old(self).epoch < u64::MAX,
        ensures
            *final(self) == spec_start(*old(self)),
            e == final(self).epoch,
    {
        self.epoch = self.epoch + 1;
        self.active = true;
        self.epoch
    }

    /// The worker was cancelled and joined: the slot is free again.
    pub fn stop(&mut self)
        ensures
            *final(self) == spec_stop(*old(self)),
    {
        self.active = false;
    }

    /// Whether a batch tagged with `epoch` is applied now.
    pub fn accepts(&self, epoch: u64) -> (r: bool)
        ensures
            r == slot_accepts(*self, epoch),
    {
        self.active && epoch == self.epoch
    }
}

/// Batches of a cancelled worker and of its successor never interleave:
/// once the old worker is stopped and a new one started, every batch
/// tagged with the old epoch is rejected, and the new worker's batches
/// are accepted.
pub proof fn lemma_no_stale_batches(s: WorkerSlot)
    requires
        !s.active,
        s.epoch + 2 <= u64::MAX,
    ensures
        !slot_accepts(spec_start(spec_stop(spec_start(s))), spec_start(s).epoch),
        slot_accepts(
            spec_start(spec_stop(spec_start(s))),
            spec_start(spec_stop(spec_start(s))).epoch,
        ),
        !slot_accepts(spec_stop(spec_start(s)), spec_start(s).epoch),
{
}

/// The deterministic noise generator of the signal generator: one step of
/// a 64-bit xorshift.  Seeded from the starting phase, so runs are
/// reproducible given the same parameters.
pub open spec fn spec_xorshift(s: u64) -> u64 {
    let a = s ^ (s << 13);
    let b = a ^ (a >> 7);
    b ^ (b << 17)
}

/// Advance the noise generator one step.
pub fn xorshift_step(state: u64) -> (r: u64)
    ensures
        r == spec_xorshift(state),
{
    let a = state ^ (state << 13u64);
    let b = a ^ (a >> 7u64);
    b ^ (b << 17u64)
}

/// What one generator tick does.
#[derive(Debug, Clone, Copy, PartialEq, Eq, Structural)]
pub enum GeneratorAction {
    /// Append the next record, then sleep one cadence interval.
    WriteRecord,
    /// The last write failed: sleep a fixed backoff and try the same
    /// record again; transient failures never end the loop.
    RetryAfterBackoff,
}

/// The signal generator's control state: how many records it has written,
/// which is what its waveform phase advances with.
pub struct GeneratorState {
    pub records_written: u64,
}

impl GeneratorState {
    /// A generator that has written nothing yet.
    pub fn new() -> (r: GeneratorState)
        ensures
            r.records_written == 0,
    {
        GeneratorState { records_written: 0 }
    }

    /// Account for the outcome of one write attempt: the phase advances
    /// exactly when the record was written, so the waveform stays
    /// continuous across records and a failed write is retried at the
    /// same phase.
    pub fn tick(&mut self, write_ok: bool) -> (a: GeneratorAction)
        requires
            old(self).records_written < u64::MAX,
        ensures
            write_ok ==> final(self).records_written == old(self).records_written + 1
                && a == GeneratorAction::WriteRecord,
            !write_ok ==> *final(self) == *old(self)
                && a == GeneratorAction::RetryAfterBackoff,
    {
        if write_ok {
            self.records_written = self.records_written + 1;
            GeneratorAction::WriteRecord
        } else {
            GeneratorAction::RetryAfterBackoff
        }
    }
}

} // verus!
