//! What one subscription promises over any sequence of offers and reads.

use crate::event::{
    accounted, all_below, entry_first, entry_last, event_count, first_event, first_ordinary,
    gap_of, in_sequence, law_every_event_is_accounted_for, law_ordinary_events_are_dropped_first,
    law_queue_keeps_sequence_order, law_queue_stays_bounded, lemma_accounted_concat,
    lemma_event_count_split, lemma_first_event, lemma_first_ordinary, merged_gap, with_gap,
    without_event, Event, EventClass, PendingGap, QueueEntry, QueueModel,
};
use vstd::prelude::*;

verus! {

/// One call on a subscription.
pub enum QueueStep {
    /// An event was published; the filter may refuse it.
    Publish(Event),
    /// The final event was published; the filter does not apply.
    Finish(Event),
    /// A reader looked for the next event.
    Read,
    /// The subscription was closed.
    Close,
}

/// A subscription with its past: what it was offered and what its reader got, gaps included.
#[verifier::ext_equal]
pub struct QueueHistory {
    pub queue: QueueModel,
    /// The events that the filter let through while the queue was open.
    pub offered: Seq<Event>,
    /// The places that reads took, in order.
    pub delivered: Seq<QueueEntry>,
}

impl QueueHistory {
    /// A subscription without a past.
    pub open spec fn begins(queue: QueueModel) -> QueueHistory {
        QueueHistory { queue, offered: seq![], delivered: seq![] }
    }

    /// The event that a call offers to the queue itself.
    pub open spec fn offers(self, step: QueueStep) -> Option<Event> {
        match step {
            QueueStep::Publish(event) => if self.queue.wants(event) && !self.queue.closed {
                Some(event)
            } else {
                None
            },
            QueueStep::Finish(event) => if !self.queue.closed {
                Some(event)
            } else {
                None
            },
            _ => None,
        }
    }

    /// Whether a call can be made: events are published in increasing sequence.
    pub open spec fn can(self, step: QueueStep) -> bool {
        self.offers(step) matches Some(event) ==> {
            &&& self.offered.len() < u64::MAX
            &&& self.offered.len() > 0 ==> self.offered.last().sequence < event.sequence
        }
    }

    /// The subscription after one call.
    pub open spec fn after(self, step: QueueStep) -> QueueHistory {
        match step {
            QueueStep::Publish(event) => QueueHistory {
                queue: self.queue.enqueued(event),
                offered: self.offered_after(step),
                ..self
            },
            QueueStep::Finish(event) => QueueHistory {
                queue: self.queue.accepting(event),
                offered: self.offered_after(step),
                ..self
            },
            QueueStep::Read => if self.queue.entries.len() > 0 {
                QueueHistory {
                    queue: QueueModel { entries: self.queue.entries.skip(1), ..self.queue },
                    delivered: self.delivered.push(self.queue.entries[0]),
                    ..self
                }
            } else {
                self
            },
            QueueStep::Close => QueueHistory {
                queue: QueueModel { closed: true, ..self.queue },
                ..self
            },
        }
    }

    /// What the queue was offered, a call included.
    pub open spec fn offered_after(self, step: QueueStep) -> Seq<Event> {
        match self.offers(step) {
            Some(event) => self.offered.push(event),
            None => self.offered,
        }
    }

    /// Whether a sequence of calls can be made, each after those before it.
    pub open spec fn can_all(self, steps: Seq<QueueStep>) -> bool
        decreases steps.len(),
    {
        steps.len() == 0 || (self.can_all(steps.drop_last()) && self.after_all(
            steps.drop_last(),
        ).can(steps.last()))
    }

    /// The subscription after a sequence of calls.
    pub open spec fn after_all(self, steps: Seq<QueueStep>) -> QueueHistory
        decreases steps.len(),
    {
        if steps.len() == 0 {
            self
        } else {
            self.after_all(steps.drop_last()).after(steps.last())
        }
    }

    /// What the reader got, and what it would get next.
    pub open spec fn flow(self) -> Seq<QueueEntry> {
        self.delivered + self.queue.entries
    }

    /// What holds of every subscription and its past: the queue is bounded, everything that is or
    /// was read stands in increasing sequence, and every offered event stands at one place of it.
    pub open spec fn valid(self) -> bool {
        &&& self.queue.valid()
        &&& in_sequence(self.flow())
        &&& accounted(self.flow()) == self.offered.len()
        &&& forall|n: int|
            0 <= n < self.offered.len() ==> holds(self.flow(), #[trigger] self.offered[n])
        &&& forall|k: int|
            0 <= k < self.flow().len() ==> self.offered.len() > 0 && entry_last(
                #[trigger] self.flow()[k],
            ) <= self.offered.last().sequence
        &&& forall|m: int, n: int|
            #![trigger self.offered[m], self.offered[n]]
            0 <= m < n < self.offered.len() ==> self.offered[m].sequence
                < self.offered[n].sequence
    }
}

/// Whether a place stands for an event: it holds the event itself, or a gap that covers it.
pub open spec fn stands_for(entry: QueueEntry, event: Event) -> bool {
    match entry {
        QueueEntry::Event(queued) => queued == event,
        QueueEntry::Gap(gap) => gap.first <= event.sequence <= gap.last,
    }
}

/// Whether one of the places stands for an event.
pub open spec fn holds(entries: Seq<QueueEntry>, event: Event) -> bool {
    exists|k: int| 0 <= k < entries.len() && stands_for(#[trigger] entries[k], event)
}

/// Whether every place stands only for sequences from `bound` on.
spec fn all_from(entries: Seq<QueueEntry>, bound: int) -> bool {
    forall|k: int| 0 <= k < entries.len() ==> bound <= entry_first(#[trigger] entries[k])
}

proof fn lemma_gap_keeps_holding(
    entries: Seq<QueueEntry>,
    index: int,
    gap: PendingGap,
    event: Event,
    bound: int,
)
    requires
        0 <= index <= entries.len(),
    ensures
        holds(entries, event) ==> holds(with_gap(entries, index, gap), event),
        gap.first <= event.sequence <= gap.last ==> holds(with_gap(entries, index, gap), event),
        all_from(entries, bound) && bound <= gap.first ==> all_from(
            with_gap(entries, index, gap),
            bound,
        ),
{
    let joins_left = index > 0 && entries[index - 1] is Gap;
    let joins_right = index < entries.len() && entries[index] is Gap;
    let from = if joins_left {
        index - 1
    } else {
        index
    };
    let to = if joins_right {
        index + 1
    } else {
        index
    };
    let all = with_gap(entries, index, gap);
    assert(all[from] is Gap);
    if holds(entries, event) {
        let k = choose|k: int| 0 <= k < entries.len() && stands_for(#[trigger] entries[k], event);
        if k < from {
            assert(all[k] == entries[k]);
        } else if k >= to {
            assert(all[from + 1 + (k - to)] == entries[k]);
        } else {
            assert(stands_for(all[from], event));
        }
    }
    if gap.first <= event.sequence <= gap.last {
        assert(stands_for(all[from], event));
    }
    if all_from(entries, bound) && bound <= gap.first {
        assert forall|k: int| 0 <= k < all.len() implies bound <= entry_first(
            #[trigger] all[k],
        ) by {
            if k < from {
                assert(all[k] == entries[k]);
            } else if k > from {
                assert(all[k] == entries[to + (k - from - 1)]);
            } else {
                if joins_left {
                    assert(bound <= entry_first(entries[index - 1]));
                }
                if joins_right {
                    assert(bound <= entry_first(entries[index]));
                }
            }
        }
    }
}

proof fn lemma_drop_keeps_holding(entries: Seq<QueueEntry>, index: int, event: Event, bound: int)
    requires
        0 <= index < entries.len(),
        entries[index] is Event,
    ensures
        holds(entries, event) ==> holds(without_event(entries, index), event),
        all_from(entries, bound) ==> all_from(without_event(entries, index), bound),
{
    let rest = entries.remove(index);
    let gap = gap_of(entries[index]->Event_0);
    if holds(entries, event) {
        let k = choose|k: int| 0 <= k < entries.len() && stands_for(#[trigger] entries[k], event);
        if k < index {
            assert(rest[k] == entries[k]);
        } else if k > index {
            assert(rest[k - 1] == entries[k]);
        }
    }
    if all_from(entries, bound) {
        assert forall|k: int| 0 <= k < rest.len() implies bound <= entry_first(
            #[trigger] rest[k],
        ) by {
            assert(rest[k] == entries[if k < index {
                k
            } else {
                k + 1
            }]);
        }
        assert(bound <= entry_first(entries[index]));
    }
    lemma_gap_keeps_holding(rest, index, gap, event, bound);
}

proof fn lemma_push_keeps_holding(
    entries: Seq<QueueEntry>,
    newcomer: Event,
    event: Event,
    bound: int,
)
    ensures
        holds(entries, event) ==> holds(entries.push(QueueEntry::Event(newcomer)), event),
        holds(entries.push(QueueEntry::Event(newcomer)), newcomer),
        all_from(entries, bound) && bound <= newcomer.sequence ==> all_from(
            entries.push(QueueEntry::Event(newcomer)),
            bound,
        ),
{
    let after = entries.push(QueueEntry::Event(newcomer));
    assert(stands_for(after[entries.len() as int], newcomer));
    if holds(entries, event) {
        let k = choose|k: int| 0 <= k < entries.len() && stands_for(#[trigger] entries[k], event);
        assert(after[k] == entries[k]);
    }
    if all_from(entries, bound) && bound <= newcomer.sequence {
        assert forall|k: int| 0 <= k < after.len() implies bound <= entry_first(
            #[trigger] after[k],
        ) by {
            if k < entries.len() {
                assert(after[k] == entries[k]);
            }
        }
    }
}

proof fn lemma_accepting_keeps_holding(
    queue: QueueModel,
    newcomer: Event,
    event: Event,
    bound: int,
)
    requires
        queue.valid(),
        !queue.closed,
    ensures
        holds(queue.entries, event) ==> holds(queue.accepting(newcomer).entries, event),
        holds(queue.accepting(newcomer).entries, newcomer),
        all_from(queue.entries, bound) && bound <= newcomer.sequence ==> all_from(
            queue.accepting(newcomer).entries,
            bound,
        ),
{
    let entries = queue.entries;
    lemma_first_ordinary(entries);
    lemma_first_event(entries);
    lemma_push_keeps_holding(entries, newcomer, event, bound);
    if event_count(entries) < queue.options.capacity {
    } else if first_ordinary(entries) < entries.len() {
        let index = first_ordinary(entries) as int;
        lemma_drop_keeps_holding(entries, index, event, bound);
        lemma_push_keeps_holding(without_event(entries, index), newcomer, event, bound);
    } else if newcomer.class == crate::event::EventClass::Critical {
        let index = first_event(entries) as int;
        lemma_drop_keeps_holding(entries, index, event, bound);
        lemma_push_keeps_holding(without_event(entries, index), newcomer, event, bound);
    } else {
        let gap = gap_of(newcomer);
        lemma_gap_keeps_holding(entries, entries.len() as int, gap, event, bound);
        lemma_gap_keeps_holding(entries, entries.len() as int, gap, newcomer, bound);
    }
}

proof fn lemma_last_grows(queue: QueueModel, newcomer: Event)
    requires
        queue.valid(),
        !queue.closed,
        in_sequence(queue.entries),
        all_below(queue.entries, newcomer.sequence),
    ensures
        forall|k: int|
            0 <= k < queue.accepting(newcomer).entries.len() ==> entry_last(
                #[trigger] queue.accepting(newcomer).entries[k],
            ) <= newcomer.sequence,
{
    let entries = queue.entries;
    let after = queue.accepting(newcomer).entries;
    lemma_first_ordinary(entries);
    lemma_first_event(entries);
    if event_count(entries) < queue.options.capacity {
    } else if first_ordinary(entries) < entries.len() {
        let index = first_ordinary(entries) as int;
        crate::event::lemma_drop_keeps_sequence(entries, index, newcomer.sequence);
    } else if newcomer.class == crate::event::EventClass::Critical {
        let index = first_event(entries) as int;
        crate::event::lemma_drop_keeps_sequence(entries, index, newcomer.sequence);
    } else {
        law_queue_keeps_sequence_order(queue, newcomer);
        let joins = entries.len() > 0 && entries.last() is Gap;
        assert forall|k: int| 0 <= k < after.len() implies entry_last(#[trigger] after[k])
            <= newcomer.sequence by {
            if k < after.len() - 1 {
                assert(after[k] == entries[k]);
            } else if joins {
                assert(after[k] == QueueEntry::Gap(
                    merged_gap(gap_of(newcomer), entries.last()->Gap_0),
                ));
                assert(entry_last(entries[entries.len() - 1]) < newcomer.sequence);
            } else {
                assert(after[k] == QueueEntry::Gap(gap_of(newcomer)));
            }
        }
    }
}

/// The first sequence behind what was read.
spec fn read_bound(delivered: Seq<QueueEntry>) -> int {
    if delivered.len() > 0 {
        entry_last(delivered.last()) + 1
    } else {
        0
    }
}

proof fn lemma_flow_parts(head: Seq<QueueEntry>, entries: Seq<QueueEntry>)
    requires
        in_sequence(head + entries),
    ensures
        in_sequence(head),
        in_sequence(entries),
        all_from(entries, read_bound(head)),
{
    let flow = head + entries;
    assert forall|k: int| 0 <= k < head.len() implies #[trigger] head[k] == flow[k] by {}
    assert forall|k: int| 0 <= k < entries.len() implies #[trigger] entries[k] == flow[head.len()
        + k] by {}
    assert forall|i: int, j: int| #![trigger entries[i], entries[j]]
        0 <= i < j < entries.len() implies entry_last(entries[i]) < entry_first(entries[j]) by {
        assert(entry_last(flow[head.len() + i]) < entry_first(flow[head.len() + j]));
    }
    assert forall|k: int| 0 <= k < entries.len() implies read_bound(head) <= entry_first(
        #[trigger] entries[k],
    ) by {
        if head.len() > 0 {
            assert(entry_last(flow[head.len() - 1]) < entry_first(flow[head.len() + k]));
        }
    }
}

proof fn lemma_flow_joined(head: Seq<QueueEntry>, entries: Seq<QueueEntry>)
    requires
        in_sequence(head),
        in_sequence(entries),
        all_from(entries, read_bound(head)),
    ensures
        in_sequence(head + entries),
{
    let flow = head + entries;
    assert forall|i: int, j: int| #![trigger flow[i], flow[j]]
        0 <= i < j < flow.len() implies entry_last(flow[i]) < entry_first(flow[j]) by {
        if j < head.len() {
            assert(entry_last(head[i]) < entry_first(head[j]));
        } else if i >= head.len() {
            assert(entry_last(entries[i - head.len()]) < entry_first(entries[j - head.len()]));
        } else {
            assert(read_bound(head) <= entry_first(entries[j - head.len()]));
            if i < head.len() - 1 {
                assert(entry_last(head[i]) < entry_first(head[head.len() - 1]));
                assert(entry_first(head[head.len() - 1]) <= entry_last(head[head.len() - 1]));
            }
        }
    }
    assert forall|i: int| 0 <= i < flow.len() implies entry_first(#[trigger] flow[i])
        <= entry_last(flow[i]) by {
        if i < head.len() {
            assert(flow[i] == head[i]);
        } else {
            assert(flow[i] == entries[i - head.len()]);
        }
    }
}

proof fn lemma_flow_holds(
    head: Seq<QueueEntry>,
    before: Seq<QueueEntry>,
    after: Seq<QueueEntry>,
    event: Event,
)
    requires
        holds(head + before, event) || holds(after, event),
        holds(before, event) ==> holds(after, event),
    ensures
        holds(head + after, event),
{
    if holds(after, event) {
        let m = choose|m: int| 0 <= m < after.len() && stands_for(#[trigger] after[m], event);
        assert((head + after)[head.len() + m] == after[m]);
    } else {
        let k = choose|k: int|
            0 <= k < (head + before).len() && stands_for(#[trigger] (head + before)[k], event);
        if k < head.len() {
            assert((head + after)[k] == (head + before)[k]);
        } else {
            assert(before[k - head.len()] == (head + before)[k]);
        }
    }
}

proof fn lemma_increasing_push(offered: Seq<Event>, event: Event)
    requires
        forall|m: int, n: int|
            #![trigger offered[m], offered[n]]
            0 <= m < n < offered.len() ==> offered[m].sequence < offered[n].sequence,
        offered.len() > 0 ==> offered.last().sequence < event.sequence,
    ensures
        forall|m: int, n: int|
            #![trigger offered.push(event)[m], offered.push(event)[n]]
            0 <= m < n < offered.push(event).len() ==> offered.push(event)[m].sequence
                < offered.push(event)[n].sequence,
{
    let after = offered.push(event);
    assert forall|m: int, n: int| #![trigger after[m], after[n]]
        0 <= m < n < after.len() implies after[m].sequence < after[n].sequence by {
        assert(after[m] == offered[m]);
        if n < offered.len() {
            assert(after[n] == offered[n]);
        } else if m < offered.len() - 1 {
            assert(offered[m].sequence < offered[offered.len() - 1].sequence);
        }
    }
}

proof fn lemma_offer(history: QueueHistory, event: Event)
    requires
        history.valid(),
        !history.queue.closed,
        history.offered.len() < u64::MAX,
        history.offered.len() > 0 ==> history.offered.last().sequence < event.sequence,
    ensures
        (QueueHistory {
            queue: history.queue.accepting(event),
            offered: history.offered.push(event),
            ..history
        }).valid(),
{
    let queue = history.queue;
    let head = history.delivered;
    let before = queue.entries;
    let after = queue.accepting(event).entries;
    let next = QueueHistory {
        queue: queue.accepting(event),
        offered: history.offered.push(event),
        ..history
    };
    lemma_flow_parts(head, before);
    assert(all_below(before, event.sequence)) by {
        assert forall|k: int| 0 <= k < before.len() implies entry_last(#[trigger] before[k])
            < event.sequence by {
            assert(history.flow()[head.len() + k] == before[k]);
        }
    }
    assert(read_bound(head) <= event.sequence) by {
        if head.len() > 0 {
            assert(history.flow()[head.len() - 1] == head.last());
        }
    }
    law_queue_stays_bounded(queue, event);
    law_queue_keeps_sequence_order(queue, event);
    lemma_accounted_concat(head, before);
    lemma_accounted_concat(head, after);
    law_every_event_is_accounted_for(queue, event);
    lemma_accepting_keeps_holding(queue, event, event, read_bound(head));
    lemma_last_grows(queue, event);
    lemma_flow_joined(head, after);
    lemma_increasing_push(history.offered, event);
    assert forall|n: int| 0 <= n < next.offered.len() implies holds(
        head + after,
        #[trigger] next.offered[n],
    ) by {
        let one = next.offered[n];
        if n < history.offered.len() {
            assert(history.offered[n] == one);
            lemma_accepting_keeps_holding(queue, event, one, 0);
        }
        lemma_flow_holds(head, before, after, one);
    }
    assert forall|k: int| 0 <= k < (head + after).len() implies entry_last(
        #[trigger] (head + after)[k],
    ) <= event.sequence by {
        if k < head.len() {
            assert(history.flow()[k] == (head + after)[k]);
        } else {
            assert((head + after)[k] == after[k - head.len()]);
        }
    }
    assert(next.flow() == head + after);
    assert(next.offered.last() == event);
}

proof fn lemma_call_keeps_valid(history: QueueHistory, step: QueueStep)
    requires
        history.valid(),
        history.can(step),
    ensures
        history.after(step).valid(),
{
    let after = history.after(step);
    match step {
        QueueStep::Publish(event) => {
            if history.queue.wants(event) && !history.queue.closed {
                lemma_offer(history, event);
            } else {
                assert(after =~= history);
            }
        },
        QueueStep::Finish(event) => {
            if !history.queue.closed {
                lemma_offer(history, event);
            } else {
                assert(after =~= history);
            }
        },
        QueueStep::Read => {
            let entries = history.queue.entries;
            if entries.len() > 0 {
                assert(after.flow() =~= history.flow());
                lemma_event_count_split(entries, 0);
                assert(entries.take(0) =~= seq![]);
                let rest = entries.skip(1);
                assert forall|i: int| #![trigger rest[i]]
                    0 <= i < rest.len() - 1 && rest[i] is Gap implies rest[i + 1] is Event by {
                    assert(rest[i] == entries[i + 1]);
                    assert(rest[i + 1] == entries[i + 2]);
                }
            }
        },
        QueueStep::Close => {
            assert(after.flow() =~= history.flow());
        },
    }
}

proof fn lemma_calls_keep_valid(history: QueueHistory, steps: Seq<QueueStep>)
    requires
        history.valid(),
        history.can_all(steps),
    ensures
        history.after_all(steps).valid(),
    decreases steps.len(),
{
    if steps.len() > 0 {
        lemma_calls_keep_valid(history, steps.drop_last());
        lemma_call_keeps_valid(history.after_all(steps.drop_last()), steps.last());
    }
}

/// Whatever is offered and read, in whatever order: the queue never holds more events than its
/// capacity; what is read stands in strictly increasing sequence, gaps included; each offered event
/// was read, or is queued, or is covered by a gap, at exactly one place, so that no gap covers an
/// event that was read; and the events that were read or are queued together with the counts of the
/// gaps are as many as were offered.
pub proof fn law_offers_and_reads_account_for_everything(queue: QueueModel, steps: Seq<QueueStep>)
    requires
        queue.valid(),
        queue.entries.len() == 0,
        QueueHistory::begins(queue).can_all(steps),
    ensures
        ({
            let end = QueueHistory::begins(queue).after_all(steps);
            &&& event_count(end.queue.entries) <= end.queue.options.capacity
            &&& in_sequence(end.delivered)
            &&& accounted(end.delivered) + accounted(end.queue.entries) == end.offered.len()
            &&& forall|n: int|
                0 <= n < end.offered.len() ==> holds(end.flow(), #[trigger] end.offered[n])
            &&& forall|n: int, i: int, j: int|
                #![trigger end.offered[n], end.flow()[i], end.flow()[j]]
                0 <= n < end.offered.len() && 0 <= i < end.flow().len() && 0 <= j
                    < end.flow().len() && stands_for(end.flow()[i], end.offered[n]) && stands_for(
                    end.flow()[j],
                    end.offered[n],
                ) ==> i == j
        }),
{
    let start = QueueHistory::begins(queue);
    assert(start.flow() =~= Seq::<QueueEntry>::empty());
    assert(accounted(start.flow()) == 0);
    assert(start.valid());
    lemma_calls_keep_valid(start, steps);
    let end = start.after_all(steps);
    let flow = end.flow();
    lemma_accounted_concat(end.delivered, end.queue.entries);
    assert(in_sequence(end.delivered)) by {
        assert forall|i: int| 0 <= i < end.delivered.len() implies entry_first(
            #[trigger] end.delivered[i],
        ) <= entry_last(end.delivered[i]) by {
            assert(flow[i] == end.delivered[i]);
        }
        assert forall|i: int, j: int| #![trigger end.delivered[i], end.delivered[j]]
            0 <= i < j < end.delivered.len() implies entry_last(end.delivered[i]) < entry_first(
            end.delivered[j],
        ) by {
            assert(flow[i] == end.delivered[i] && flow[j] == end.delivered[j]);
        }
    }
    assert forall|n: int, i: int, j: int|
        #![trigger end.offered[n], end.flow()[i], end.flow()[j]]
        0 <= n < end.offered.len() && 0 <= i < end.flow().len() && 0 <= j < end.flow().len()
            && stands_for(end.flow()[i], end.offered[n]) && stands_for(
            end.flow()[j],
            end.offered[n],
        ) implies i == j by {
        if i < j {
            assert(entry_last(flow[i]) < entry_first(flow[j]));
        } else if j < i {
            assert(entry_last(flow[j]) < entry_first(flow[i]));
        }
    }
}

/// Whatever was offered and read before, a queued critical event is dropped by the next offer only
/// where a critical newcomer finds the queue full and no ordinary event in it, and then it is the
/// oldest event.
pub proof fn law_critical_events_yield_last(
    queue: QueueModel,
    steps: Seq<QueueStep>,
    step: QueueStep,
    event: Event,
    kept: Event,
    place: int,
)
    requires
        queue.valid(),
        queue.entries.len() == 0,
        QueueHistory::begins(queue).can_all(steps),
        ({
            let now = QueueHistory::begins(queue).after_all(steps);
            &&& now.offers(step) == Some(event)
            &&& 0 <= place < now.queue.entries.len()
            &&& now.queue.entries[place] == QueueEntry::Event(kept)
            &&& kept.class == EventClass::Critical
            &&& !now.after(step).queue.entries.contains(QueueEntry::Event(kept))
        }),
    ensures
        ({
            let now = QueueHistory::begins(queue).after_all(steps).queue;
            &&& event.class == EventClass::Critical
            &&& event_count(now.entries) >= now.options.capacity
            &&& first_ordinary(now.entries) >= now.entries.len()
            &&& place == first_event(now.entries)
        }),
{
    let start = QueueHistory::begins(queue);
    assert(start.flow() =~= Seq::<QueueEntry>::empty());
    assert(accounted(start.flow()) == 0);
    assert(start.valid());
    lemma_calls_keep_valid(start, steps);
    let now = start.after_all(steps);
    assert(now.after(step).queue == now.queue.accepting(event));
    if first_ordinary(now.queue.entries) < now.queue.entries.len() || event.class
        == EventClass::Ordinary || event_count(now.queue.entries) < now.queue.options.capacity
        || place != first_event(now.queue.entries) {
        law_ordinary_events_are_dropped_first(now.queue, event, kept, place);
    }
}

} // verus!
