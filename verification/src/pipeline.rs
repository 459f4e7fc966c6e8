//! The pipeline coordinator's shutdown protocol as a state machine, and the
//! bounded queue that connects the stages: a producer is refused (and must
//! wait) when the queue is at capacity — the backpressure that propagates a
//! slow sink back to the scanner.
use vstd::prelude::*;

verus! {

/// Where a run stands: scanning, draining the parser, draining the writer,
/// done.
#[derive(Clone, Copy, PartialEq, Eq, Structural, Debug)]
pub enum PipelineState {
    Scanning,
    DrainingParser,
    DrainingWriter,
    Done,
}

/// The three completion signals a run waits on, in order: the directory walk
/// finished, the parser drained its queue and its in-flight decodes, the
/// writer drained the batch queue.
#[derive(Clone, Copy, PartialEq, Eq, Structural, Debug)]
pub enum PipelineEvent {
    ScanFinished,
    ParserComplete,
    WriterComplete,
}

/// The coordinator's transition rule: each signal advances exactly the state
/// that awaits it, and any other signal leaves the state unchanged. There is
/// no earlier exit path.
pub open spec fn spec_step(s: PipelineState, e: PipelineEvent) -> PipelineState {
    match (s, e) {
        (PipelineState::Scanning, PipelineEvent::ScanFinished) => PipelineState::DrainingParser,
        (PipelineState::DrainingParser, PipelineEvent::ParserComplete) => PipelineState::DrainingWriter,
        (PipelineState::DrainingWriter, PipelineEvent::WriterComplete) => PipelineState::Done,
        _ => s,
    }
}

/// Advances the coordinator on one completion signal.
pub fn step(s: PipelineState, e: PipelineEvent) -> (r: PipelineState)
    ensures
        r == spec_step(s, e),
{
    match (s, e) {
        (PipelineState::Scanning, PipelineEvent::ScanFinished) => PipelineState::DrainingParser,
        (PipelineState::DrainingParser, PipelineEvent::ParserComplete) => PipelineState::DrainingWriter,
        (PipelineState::DrainingWriter, PipelineEvent::WriterComplete) => PipelineState::Done,
        _ => s,
    }
}

/// The shutdown order: scan completion, then parser completion, then writer
/// completion take a run from scanning to done.
pub proof fn lemma_shutdown_order()
    ensures
        spec_step(
            spec_step(
                spec_step(PipelineState::Scanning, PipelineEvent::ScanFinished),
                PipelineEvent::ParserComplete,
            ),
            PipelineEvent::WriterComplete,
        ) == PipelineState::Done,
{
}

/// No early exit: a run only becomes done by the writer's completion signal
/// arriving while the writer is being drained; no signal skips a stage.
pub proof fn lemma_no_early_exit(s: PipelineState, e: PipelineEvent)
    ensures
        spec_step(s, e) == PipelineState::Done <==> (s == PipelineState::Done || (s
            == PipelineState::DrainingWriter && e == PipelineEvent::WriterComplete)),
        s == PipelineState::Scanning ==> spec_step(s, e) != PipelineState::DrainingWriter,
        s == PipelineState::Scanning || s == PipelineState::DrainingParser ==> spec_step(s, e)
            != PipelineState::Done,
{
}

/// A bounded queue between two stages. Enqueueing is refused at capacity —
/// the caller blocks and retries, which is the backpressure mechanism — so
/// the queue never grows past its capacity.
pub struct BoundedQueue<T> {
    items: Vec<T>,
    capacity: usize,
}

impl<T> BoundedQueue<T> {
    /// The queued items, oldest first.
    pub closed spec fn contents(&self) -> Seq<T> {
        self.items@
    }

    /// The fixed capacity the queue was created with.
    pub closed spec fn cap(&self) -> nat {
        self.capacity as nat
    }

    /// The queue's invariant: never more items than its capacity.
    pub open spec fn wf(&self) -> bool {
        self.contents().len() <= self.cap()
    }

    /// An empty queue of the given capacity.
    pub fn new(capacity: usize) -> (q: Self)
        ensures
            q.contents() == Seq::<T>::empty(),
            q.cap() == capacity,
            q.wf(),
    {
        BoundedQueue { items: Vec::new(), capacity }
    }

    /// How many items are queued.
    pub fn len(&self) -> (r: usize)
        ensures
            r == self.contents().len(),
    {
        self.items.len()
    }

    /// Offers one item: accepted exactly when the queue is below capacity,
    /// handed back unchanged when the queue is full and the producer must
    /// wait.
    pub fn try_enqueue(&mut self, item: T) -> (r: Result<(), T>)
        requires
            old(self).wf(),
        ensures
            final(self).cap() == old(self).cap(),
            final(self).wf(),
            match r {
                Ok(()) => old(self).contents().len() < old(self).cap() && final(self).contents()
                    == old(self).contents().push(item),
                Err(back) => old(self).contents().len() == old(self).cap() && final(self).contents()
                    == old(self).contents() && back == item,
            },
    {
        if self.items.len() < self.capacity {
            self.items.push(item);
            Ok(())
        } else {
            Err(item)
        }
    }

    /// Takes the oldest item, or nothing when the queue is empty.
    pub fn dequeue(&mut self) -> (r: Option<T>)
        requires
            old(self).wf(),
        ensures
            final(self).cap() == old(self).cap(),
            final(self).wf(),
            match r {
                Some(item) => old(self).contents().len() > 0 && item == old(self).contents()[0]
                    && final(self).contents() == old(self).contents().drop_first(),
                None => old(self).contents().len() == 0 && final(self).contents() == old(
                    self,
                ).contents(),
            },
    {
        if self.items.len() == 0 {
            None
        } else {
            let item = self.items.remove(0);
            proof {
                assert(self.items@ =~= old(self).items@.drop_first());
            }
            Some(item)
        }
    }
}

} // verus!
