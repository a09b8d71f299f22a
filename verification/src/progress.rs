//! What the progress log knows of the workers: the last message of each,
//! when a report is due, and when all of them have come to their end.

use vstd::prelude::*;

verus! {

/// What a worker says after a flush: who it is and how many samples it has
/// left.
#[derive(Clone, Copy, Debug, PartialEq, Eq, Structural)]
pub struct ProgressMessage {
    pub worker_id: i32,
    pub samples_remaining: i32,
}

/// A message from a worker that the aggregator has no slot for.
#[derive(Clone, Copy, Debug, PartialEq, Eq, Structural)]
pub struct UnknownWorker {
    pub worker_id: i32,
}

/// Every worker has a message in its slot.
pub open spec fn all_reported(slots: Seq<Option<ProgressMessage>>) -> bool {
    forall|i: int| 0 <= i < slots.len() ==> (#[trigger] slots[i]) is Some
}

/// Every worker has a message in its slot that says it has nothing left.
pub open spec fn all_done(slots: Seq<Option<ProgressMessage>>) -> bool {
    forall|i: int|
        0 <= i < slots.len() ==> (#[trigger] slots[i]) == Some(
            ProgressMessage { worker_id: slots[i]->0.worker_id, samples_remaining: 0 },
        )
}

/// The samples that a slot says are left: none where it is empty.
pub open spec fn left_of(slot: Option<ProgressMessage>) -> int {
    match slot {
        Some(m) => m.samples_remaining as int,
        None => 0,
    }
}

/// The samples that all slots together say are left.
pub open spec fn left_total(slots: Seq<Option<ProgressMessage>>) -> int
    decreases slots.len(),
{
    if slots.len() == 0 {
        0
    } else {
        left_total(slots.drop_last()) + left_of(slots.last())
    }
}

/// The slots after a report: a message of a worker with nothing left
/// stays, every other slot is emptied.
pub open spec fn settled(slots: Seq<Option<ProgressMessage>>) -> Seq<Option<ProgressMessage>> {
    Seq::new(
        slots.len(),
        |i: int|
            match slots[i] {
                Some(m) if m.samples_remaining == 0 => Some(m),
                _ => None,
            },
    )
}

/// The messages of slots that all hold one.
pub open spec fn messages_of(slots: Seq<Option<ProgressMessage>>) -> Seq<ProgressMessage> {
    Seq::new(slots.len(), |i: int| slots[i]->0)
}

/// The slots after a message has come in: the newest message of a worker
/// replaces what its slot held.
pub open spec fn received(
    slots: Seq<Option<ProgressMessage>>,
    message: ProgressMessage,
) -> Seq<Option<ProgressMessage>> {
    if 0 <= message.worker_id < slots.len() {
        slots.update(message.worker_id as int, Some(message))
    } else {
        slots
    }
}

/// A report on all workers.
#[derive(Debug)]
pub struct Report {
    /// The last message of every worker, in the order of the workers.
    pub workers: Vec<ProgressMessage>,
    /// The samples that are left, over all workers.
    pub left: i64,
    /// The samples that are done, of the samples of the whole run.
    pub done: i64,
    /// Whether every worker has said that it has nothing left.
    pub finished: bool,
}

/// The last message of every worker, one slot each.
pub struct Aggregator {
    slots: Vec<Option<ProgressMessage>>,
}

impl View for Aggregator {
    type V = Seq<Option<ProgressMessage>>;

    closed spec fn view(&self) -> Seq<Option<ProgressMessage>> {
        self.slots@
    }
}

/// The samples left over all slots stay within what each slot can hold.
pub proof fn lemma_left_total_bounds(slots: Seq<Option<ProgressMessage>>)
    ensures
        -0x8000_0000 * slots.len() <= left_total(slots) <= 0x7fff_ffff * slots.len(),
    decreases slots.len(),
{
    if slots.len() > 0 {
        lemma_left_total_bounds(slots.drop_last());
    }
}

impl Aggregator {
    /// What every aggregator that this library hands out satisfies: its
    /// workers can be numbered with an `i32`.
    pub open spec fn wf(&self) -> bool {
        self@.len() <= i32::MAX
    }

    /// An aggregator for `threads` workers, with every slot empty. Fewer
    /// than one worker gives no slot.
    pub fn new(threads: i32) -> (r: Aggregator)
        ensures
            r.wf(),
            r@ == Seq::new(
                if threads > 0 {
                    threads as nat
                } else {
                    0
                },
                |i: int| None::<ProgressMessage>,
            ),
    {
        let mut slots: Vec<Option<ProgressMessage>> = Vec::new();
        let mut i: i32 = 0;
        while i < threads
            invariant
                0 <= i,
                threads >= 0 ==> i <= threads,
                threads < 0 ==> i == 0,
                slots@ == Seq::new(i as nat, |i: int| None::<ProgressMessage>),
            decreases threads - i,
        {
            slots.push(None);
            i += 1;
            assert(slots@ =~= Seq::new(i as nat, |i: int| None::<ProgressMessage>));
        }
        Aggregator { slots }
    }

    /// The slots, one for each worker.
    pub fn slots(&self) -> (r: &Vec<Option<ProgressMessage>>)
        ensures
            r@ == self@,
    {
        &self.slots
    }

    /// Takes in a message. It replaces what the slot of its worker held. A
    /// message of a worker without a slot is reported and changes nothing.
    pub fn receive(&mut self, message: ProgressMessage) -> (r: Result<(), UnknownWorker>)
        requires
            old(self).wf(),
        ensures
            final(self).wf(),
            final(self)@ == received(old(self)@, message),
            r is Ok <==> 0 <= message.worker_id < old(self)@.len(),
            r is Err ==> r == Err::<(), UnknownWorker>(
                UnknownWorker { worker_id: message.worker_id },
            ),
    {
        if message.worker_id < 0 || message.worker_id as usize >= self.slots.len() {
            return Err(UnknownWorker { worker_id: message.worker_id });
        }
        self.slots.set(message.worker_id as usize, Some(message));
        Ok(())
    }

    /// Whether every worker has a message in its slot, so that a report is
    /// due.
    pub fn complete(&self) -> (r: bool)
        ensures
            r <==> all_reported(self@),
    {
        let n = self.slots.len();
        let mut i: usize = 0;
        while i < n
            invariant
                i <= n,
                n == self@.len(),
                forall|j: int| 0 <= j < i ==> (#[trigger] self@[j]) is Some,
            decreases n - i,
        {
            if self.slots[i].is_none() {
                return false;
            }
            i += 1;
        }
        true
    }

    /// Whether every worker has said that it has nothing left.
    pub fn finished(&self) -> (r: bool)
        ensures
            r <==> all_done(self@),
    {
        let n = self.slots.len();
        let mut i: usize = 0;
        while i < n
            invariant
                i <= n,
                n == self@.len(),
                forall|j: int|
                    0 <= j < i ==> (#[trigger] self@[j]) == Some(
                        ProgressMessage { worker_id: self@[j]->0.worker_id, samples_remaining: 0 },
                    ),
            decreases n - i,
        {
            match self.slots[i] {
                Some(m) => {
                    if m.samples_remaining != 0 {
                        return false;
                    }
                },
                None => {
                    return false;
                },
            }
            i += 1;
        }
        true
    }

    /// The samples that are left over all workers; a worker without a
    /// message counts for none.
    pub fn left(&self) -> (r: i64)
        requires
            self.wf(),
        ensures
            r == left_total(self@),
    {
        let n = self.slots.len();
        let mut sum: i64 = 0;
        let mut i: usize = 0;
        while i < n
            invariant
                i <= n,
                n == self@.len(),
                n <= i32::MAX,
                sum == left_total(self@.take(i as int)),
            decreases n - i,
        {
            proof {
                lemma_left_total_bounds(self@.take(i as int));
                assert(self@.take(i + 1).drop_last() == self@.take(i as int));
            }
            match self.slots[i] {
                Some(m) => {
                    sum = sum + m.samples_remaining as i64;
                },
                None => {},
            }
            i += 1;
        }
        assert(self@.take(n as int) == self@);
        sum
    }

    /// Empties the slot of every worker that has samples left, and keeps
    /// the message of every worker that has none.
    pub fn settle(&mut self)
        requires
            old(self).wf(),
        ensures
            final(self).wf(),
            final(self)@ == settled(old(self)@),
    {
        let n = self.slots.len();
        let mut i: usize = 0;
        while i < n
            invariant
                i <= n,
                n == old(self)@.len(),
                self@.len() == n,
                forall|j: int| 0 <= j < i ==> self@[j] == settled(old(self)@)[j],
                forall|j: int| i <= j < n ==> self@[j] == old(self)@[j],
            decreases n - i,
        {
            let keep = match self.slots[i] {
                Some(m) => m.samples_remaining == 0,
                None => false,
            };
            if !keep {
                self.slots.set(i, None);
            }
            i += 1;
        }
        assert(self@ =~= settled(old(self)@));
    }

    /// The report that is due once every worker has a message in its slot,
    /// for a run of `sample_count` samples. With the report the slots are
    /// settled. While a worker has not been heard of, no report is made and
    /// nothing changes.
    pub fn report(&mut self, sample_count: i32) -> (r: Option<Report>)
        requires
            old(self).wf(),
        ensures
            final(self).wf(),
            !all_reported(old(self)@) ==> r is None && final(self)@ == old(self)@,
            all_reported(old(self)@) ==> final(self)@ == settled(old(self)@) && match r {
                Some(report) => report.workers@ == messages_of(old(self)@) && report.left
                    == left_total(old(self)@) && report.done == sample_count - left_total(
                    old(self)@,
                ) && (report.finished <==> all_done(old(self)@)),
                None => false,
            },
    {
        if !self.complete() {
            return None;
        }
        let n = self.slots.len();
        let mut workers: Vec<ProgressMessage> = Vec::new();
        let mut i: usize = 0;
        while i < n
            invariant
                i <= n,
                n == self@.len(),
                all_reported(self@),
                workers@ == messages_of(self@).take(i as int),
            decreases n - i,
        {
            match self.slots[i] {
                Some(m) => {
                    workers.push(m);
                },
                None => {},
            }
            assert(workers@ =~= messages_of(self@).take(i + 1));
            i += 1;
        }
        assert(messages_of(self@).take(n as int) == messages_of(self@));
        let left = self.left();
        proof {
            lemma_left_total_bounds(self@);
        }
        let done = sample_count as i64 - left;
        let finished = self.finished();
        self.settle();
        Some(Report { workers, left, done, finished })
    }
}

/// A message of a worker that has nothing left outlasts every report, so a
/// worker that has come to its end never holds a report up again.
pub proof fn lemma_settled_keeps_finished(slots: Seq<Option<ProgressMessage>>, i: int)
    requires
        0 <= i < slots.len(),
        slots[i] is Some,
        slots[i]->0.samples_remaining == 0,
    ensures
        settled(slots)[i] == slots[i],
        settled(settled(slots)) == settled(slots),
{
    assert(settled(settled(slots)) =~= settled(slots));
}

/// After a report the slots are all filled exactly when every worker had
/// said that it has nothing left: the log ends with the report that shows
/// every worker at zero.
pub proof fn lemma_settled_complete(slots: Seq<Option<ProgressMessage>>)
    ensures
        all_reported(settled(slots)) <==> all_done(slots),
        all_done(slots) ==> settled(slots) == slots && left_total(slots) == 0,
    decreases slots.len(),
{
    if all_reported(settled(slots)) {
        assert forall|i: int| 0 <= i < slots.len() implies (#[trigger] slots[i]) == Some(
            ProgressMessage { worker_id: slots[i]->0.worker_id, samples_remaining: 0 },
        ) by {
            assert(settled(slots)[i] is Some);
        }
    }
    if all_done(slots) {
        assert forall|i: int| 0 <= i < slots.len() implies (#[trigger] settled(slots)[i])
            is Some by {
            assert(slots[i] is Some);
        }
        assert(settled(slots) =~= slots);
        lemma_all_done_nothing_left(slots);
    }
}

/// Where every worker has nothing left, nothing is left in all.
proof fn lemma_all_done_nothing_left(slots: Seq<Option<ProgressMessage>>)
    requires
        all_done(slots),
    ensures
        left_total(slots) == 0,
    decreases slots.len(),
{
    if slots.len() > 0 {
        let front = slots.drop_last();
        assert forall|i: int| 0 <= i < front.len() implies (#[trigger] front[i]) == Some(
            ProgressMessage { worker_id: front[i]->0.worker_id, samples_remaining: 0 },
        ) by {
            assert(front[i] == slots[i]);
        }
        lemma_all_done_nothing_left(front);
        assert(slots.last() == slots[slots.len() - 1]);
    }
}

/// Of two messages of one worker the later one stays.
pub proof fn lemma_latest_wins(
    slots: Seq<Option<ProgressMessage>>,
    first: ProgressMessage,
    second: ProgressMessage,
)
    requires
        first.worker_id == second.worker_id,
    ensures
        received(received(slots, first), second) == received(slots, second),
{
    assert(received(received(slots, first), second) =~= received(slots, second));
}

} // verus!
