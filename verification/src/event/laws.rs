//! What one subscription promises of its filter, its limit and its reader.

use crate::event::{
    accounted, event_count, first_event, first_ordinary, gap_of, is_ordinary,
    law_every_event_is_accounted_for, lemma_first_event, lemma_first_ordinary, merged_gap,
    read_from, with_gap, without_event, Event, EventClass, EventGap, EventKind, PendingGap,
    QueueEntry, QueueModel, Severity, SubscriptionRead,
};
use crate::wait::{idle_look, nanos_of, wait_step_of, Look, WaitStep, WaitTimeout};
use vstd::prelude::*;

verus! {

/// An open queue takes every event from its minimum severity on that is no log, whatever it says of
/// logs, and logs too where it includes them. It leaves out exactly the events below the minimum
/// and, where it does not include them, the logs: those change nothing.
pub proof fn law_filter_leaves_out_low_events_and_logs_alone(queue: QueueModel, event: Event)
    requires
        queue.valid(),
        !queue.closed,
        accounted(queue.entries) < u64::MAX,
    ensures
        ({
            let high = match queue.options.minimum_severity {
                Severity::Debug => true,
                Severity::Info => event.severity != Severity::Debug,
                Severity::Warning => event.severity == Severity::Warning || event.severity
                    == Severity::Error,
                Severity::Error => event.severity == Severity::Error,
            };
            let taken = high && (event.kind != EventKind::Log || queue.options.include_logs);
            &&& taken ==> queue.enqueued(event) == queue.accepting(event) && accounted(
                queue.enqueued(event).entries,
            ) == accounted(queue.entries) + 1
            &&& !taken ==> queue.enqueued(event) == queue
        }),
{
    law_every_event_is_accounted_for(queue, event);
}

/// A closed queue takes nothing.
pub proof fn law_closed_queue_takes_nothing(queue: QueueModel, event: Event)
    requires
        queue.closed,
    ensures
        queue.enqueued(event) == queue,
        queue.accepting(event) == queue,
{
}

/// The queued events, without the gaps between them.
pub open spec fn queued(entries: Seq<QueueEntry>) -> Seq<Event>
    decreases entries.len(),
{
    if entries.len() == 0 {
        seq![]
    } else {
        match entries.last() {
            QueueEntry::Event(event) => queued(entries.drop_last()).push(event),
            QueueEntry::Gap(_) => queued(entries.drop_last()),
        }
    }
}

proof fn lemma_queued_concat(left: Seq<QueueEntry>, right: Seq<QueueEntry>)
    ensures
        queued(left + right) == queued(left) + queued(right),
    decreases right.len(),
{
    if right.len() == 0 {
        assert(left + right =~= left);
        assert(queued(left) + queued(right) =~= queued(left));
    } else {
        assert((left + right).drop_last() =~= left + right.drop_last());
        assert((left + right).last() == right.last());
        lemma_queued_concat(left, right.drop_last());
        assert(queued(left + right) =~= queued(left) + queued(right));
    }
}

proof fn lemma_queued_one(entry: QueueEntry)
    ensures
        queued(seq![entry]) == match entry {
            QueueEntry::Event(event) => seq![event],
            QueueEntry::Gap(_) => seq![],
        },
{
    reveal_with_fuel(queued, 2);
    assert(seq![entry].drop_last().len() == 0);
    assert(queued(seq![entry]) =~= match entry {
        QueueEntry::Event(event) => seq![event],
        QueueEntry::Gap(_) => seq![],
    });
}

proof fn lemma_queued_len(entries: Seq<QueueEntry>)
    ensures
        queued(entries).len() == event_count(entries),
    decreases entries.len(),
{
    if entries.len() > 0 {
        lemma_queued_len(entries.drop_last());
    }
}

proof fn lemma_queued_gap(entries: Seq<QueueEntry>, index: int, gap: PendingGap)
    requires
        0 <= index <= entries.len(),
    ensures
        queued(with_gap(entries, index, gap)) == queued(entries),
{
    let joins_left = index > 0 && entries[index - 1] is Gap;
    let joins_right = index < entries.len() && entries[index] is Gap;
    let from = if joins_left {
        index - 1
    } else {
        index
    };
    let to = if joins_right {
        index + 1
    } else {
        index
    };
    let head = entries.take(from);
    let tail = entries.skip(to);
    let all = with_gap(entries, index, gap);
    let middle = seq![all[from]];
    assert(all =~= head + middle + tail);
    lemma_queued_concat(head + middle, tail);
    lemma_queued_concat(head, middle);
    lemma_queued_one(all[from]);
    let low = entries.take(index);
    let high = entries.skip(index);
    assert(entries =~= low + high);
    lemma_queued_concat(low, high);
    if joins_left {
        assert(low =~= head + seq![entries[index - 1]]);
        lemma_queued_concat(head, seq![entries[index - 1]]);
        lemma_queued_one(entries[index - 1]);
    }
    if joins_right {
        assert(high =~= seq![entries[index]] + tail);
        lemma_queued_concat(seq![entries[index]], tail);
        lemma_queued_one(entries[index]);
    }
    assert(queued(all) =~= queued(entries));
}

/// The events around a queued one, and what is left without it.
proof fn lemma_queued_without(entries: Seq<QueueEntry>, index: int)
    requires
        0 <= index < entries.len(),
        entries[index] is Event,
    ensures
        ({
            let before = queued(entries.take(index)).len() as int;
            &&& before < queued(entries).len()
            &&& queued(entries).take(before) == queued(entries.take(index))
            &&& QueueEntry::Event(queued(entries)[before]) == entries[index]
            &&& queued(without_event(entries, index)) == queued(entries).remove(before)
        }),
{
    let head = entries.take(index);
    let one = seq![entries[index]];
    let tail = entries.skip(index + 1);
    assert(entries =~= head + one + tail);
    assert(entries.remove(index) =~= head + tail);
    lemma_queued_concat(head + one, tail);
    lemma_queued_concat(head, one);
    lemma_queued_concat(head, tail);
    lemma_queued_one(entries[index]);
    lemma_queued_gap(entries.remove(index), index, gap_of(entries[index]->Event_0));
    let before = queued(head).len() as int;
    assert(queued(entries).take(before) =~= queued(head));
    assert(queued(entries).remove(before) =~= queued(head) + queued(tail));
}

proof fn lemma_none_ordinary(entries: Seq<QueueEntry>)
    requires
        forall|i: int| 0 <= i < entries.len() ==> !is_ordinary(#[trigger] entries[i]),
    ensures
        forall|i: int|
            0 <= i < queued(entries).len() ==> (#[trigger] queued(entries)[i]).class
                == EventClass::Critical,
    decreases entries.len(),
{
    if entries.len() > 0 {
        let rest = entries.drop_last();
        assert forall|i: int| 0 <= i < rest.len() implies !is_ordinary(#[trigger] rest[i]) by {
            assert(rest[i] == entries[i]);
        }
        lemma_none_ordinary(rest);
        assert(!is_ordinary(entries[entries.len() - 1]));
    }
}

proof fn lemma_queued_push(entries: Seq<QueueEntry>, event: Event)
    ensures
        queued(entries.push(QueueEntry::Event(event))) == queued(entries).push(event),
{
    assert(entries.push(QueueEntry::Event(event)).drop_last() =~= entries);
}

/// A queue that is not full takes an event behind the queued ones.
pub proof fn law_queue_with_room_drops_nothing(queue: QueueModel, event: Event)
    requires
        queue.valid(),
        !queue.closed,
        queued(queue.entries).len() < queue.options.capacity,
    ensures
        queued(queue.accepting(event).entries) == queued(queue.entries).push(event),
        queue.accepting(event).entries == queue.entries.push(QueueEntry::Event(event)),
        queue.accepting(event).options == queue.options,
        !queue.accepting(event).closed,
{
    lemma_queued_len(queue.entries);
    lemma_queued_push(queue.entries, event);
}

/// A full queue drops its oldest ordinary event for a new one, whatever the new one is.
pub proof fn law_full_queue_drops_its_oldest_ordinary_event(
    queue: QueueModel,
    event: Event,
    oldest: int,
)
    requires
        queue.valid(),
        !queue.closed,
        queued(queue.entries).len() >= queue.options.capacity,
        0 <= oldest < queued(queue.entries).len(),
        queued(queue.entries)[oldest].class == EventClass::Ordinary,
        forall|j: int|
            0 <= j < oldest ==> (#[trigger] queued(queue.entries)[j]).class
                == EventClass::Critical,
    ensures
        queued(queue.accepting(event).entries) == queued(queue.entries).remove(oldest).push(event),
        queue.accepting(event).options == queue.options,
        !queue.accepting(event).closed,
{
    let entries = queue.entries;
    lemma_queued_len(entries);
    lemma_first_ordinary(entries);
    let index = first_ordinary(entries) as int;
    if index >= entries.len() {
        lemma_none_ordinary(entries);
        assert(queued(entries)[oldest].class == EventClass::Critical);
    } else {
        lemma_queued_without(entries, index);
        let head = entries.take(index);
        assert forall|i: int| 0 <= i < head.len() implies !is_ordinary(#[trigger] head[i]) by {
            assert(head[i] == entries[i]);
        }
        lemma_none_ordinary(head);
        let before = queued(head).len() as int;
        assert(queued(entries)[before].class == EventClass::Ordinary);
        if oldest < before {
            assert(queued(entries).take(before)[oldest] == queued(entries)[oldest]);
            assert(queued(head)[oldest].class == EventClass::Critical);
        }
        assert(oldest == before);
        lemma_queued_push(without_event(entries, index), event);
    }
}

/// A full queue without an ordinary event drops its oldest event for a critical one, and an
/// ordinary one is dropped itself.
pub proof fn law_full_critical_queue_yields_to_critical_events_alone(
    queue: QueueModel,
    event: Event,
)
    requires
        queue.valid(),
        !queue.closed,
        queued(queue.entries).len() >= queue.options.capacity,
        forall|j: int|
            0 <= j < queued(queue.entries).len() ==> (#[trigger] queued(queue.entries)[j]).class
                == EventClass::Critical,
    ensures
        event.class == EventClass::Critical ==> queued(queue.accepting(event).entries) == queued(
            queue.entries,
        ).skip(1).push(event),
        event.class == EventClass::Ordinary ==> queued(queue.accepting(event).entries) == queued(
            queue.entries,
        ),
        queue.accepting(event).options == queue.options,
        !queue.accepting(event).closed,
{
    let entries = queue.entries;
    lemma_queued_len(entries);
    lemma_first_ordinary(entries);
    lemma_first_event(entries);
    if first_ordinary(entries) < entries.len() {
        let index = first_ordinary(entries) as int;
        lemma_queued_without(entries, index);
        assert(queued(entries)[queued(entries.take(index)).len() as int].class
            == EventClass::Critical);
    }
    if event.class == EventClass::Critical {
        let index = first_event(entries) as int;
        lemma_queued_without(entries, index);
        let head = entries.take(index);
        lemma_queued_len(head);
        assert(event_count(head) == 0) by {
            assert forall|i: int| 0 <= i < head.len() implies (#[trigger] head[i]) is Gap by {
                assert(head[i] == entries[i]);
            }
            lemma_no_events(head);
        }
        assert(queued(entries).remove(0) =~= queued(entries).skip(1));
        lemma_queued_push(without_event(entries, index), event);
    } else {
        lemma_queued_gap(entries, entries.len() as int, gap_of(event));
    }
}

proof fn lemma_no_events(entries: Seq<QueueEntry>)
    requires
        forall|i: int| 0 <= i < entries.len() ==> (#[trigger] entries[i]) is Gap,
    ensures
        event_count(entries) == 0,
    decreases entries.len(),
{
    if entries.len() > 0 {
        let rest = entries.drop_last();
        assert forall|i: int| 0 <= i < rest.len() implies (#[trigger] rest[i]) is Gap by {
            assert(rest[i] == entries[i]);
        }
        assert(entries.last() == entries[entries.len() - 1]);
        lemma_no_events(rest);
    }
}

/// A dropped event leaves a gap of its own sequence and time. Two gaps join to one that reaches
/// from the smaller first to the larger last sequence, counts what both count, as far as a counter
/// reaches, and has the later time.
pub proof fn law_gaps_cover_what_was_dropped(dropped: Event, left: PendingGap, right: PendingGap)
    ensures
        gap_of(dropped).first == dropped.sequence,
        gap_of(dropped).last == dropped.sequence,
        gap_of(dropped).count == 1,
        gap_of(dropped).timestamp_ns == dropped.timestamp_ns,
        ({
            let joined = merged_gap(left, right);
            &&& joined.first <= left.first && joined.first <= right.first
            &&& joined.first == left.first || joined.first == right.first
            &&& joined.last >= left.last && joined.last >= right.last
            &&& joined.last == left.last || joined.last == right.last
            &&& left.count + right.count <= 0xFFFF_FFFF_FFFF_FFFF ==> joined.count == left.count
                + right.count
            &&& left.count + right.count > 0xFFFF_FFFF_FFFF_FFFF ==> joined.count
                == 0xFFFF_FFFF_FFFF_FFFF
            &&& joined.timestamp_ns >= left.timestamp_ns && joined.timestamp_ns
                >= right.timestamp_ns
            &&& joined.timestamp_ns == left.timestamp_ns || joined.timestamp_ns
                == right.timestamp_ns
        }),
{
}

/// A reader takes what stands first, and leaves the rest as it is. A gap shows itself as a critical
/// warning that tells the first and the last dropped sequence and how many were dropped.
pub proof fn law_reader_takes_the_oldest(
    before: QueueModel,
    wait: WaitTimeout,
    elapsed_ns: u128,
    timed_out: bool,
    look: Look<SubscriptionRead>,
    after: QueueModel,
)
    requires
        read_from(before, wait, elapsed_ns, timed_out, look, after),
        before.entries.len() > 0,
    ensures
        after.options == before.options,
        after.closed == before.closed,
        seq![before.entries[0]] + after.entries == before.entries,
        look matches Look::Done(SubscriptionRead::Event(event)) && match before.entries[0] {
            QueueEntry::Event(oldest) => event == oldest,
            QueueEntry::Gap(gap) => {
                &&& event.sequence == gap.last
                &&& event.timestamp_ns == gap.timestamp_ns
                &&& event.class == EventClass::Critical
                &&& event.severity == Severity::Warning
                &&& event.kind == EventKind::Gap(
                    EventGap {
                        first_sequence: gap.first,
                        last_sequence: gap.last,
                        dropped_count: gap.count,
                    },
                )
                &&& event.operation_id is None && event.resource_id is None && event.detail is None
            },
        },
{
    assert(seq![before.entries[0]] + before.entries.skip(1) =~= before.entries);
}

/// A reader of an empty queue takes nothing: a wait that ran out is told as that, a closed queue as
/// closed, and otherwise the caller waits for as long as it said, and no longer.
pub proof fn law_reader_of_an_empty_queue_waits(
    before: QueueModel,
    wait: WaitTimeout,
    elapsed_ns: u128,
    timed_out: bool,
    look: Look<SubscriptionRead>,
    after: QueueModel,
)
    requires
        read_from(before, wait, elapsed_ns, timed_out, look, after),
        before.entries.len() == 0,
    ensures
        after == before,
        timed_out ==> look == Look::<SubscriptionRead>::Done(SubscriptionRead::Timeout),
        !timed_out && before.closed ==> look == Look::<SubscriptionRead>::Done(
            SubscriptionRead::Closed,
        ),
        !timed_out && !before.closed ==> look == match wait {
            WaitTimeout::Poll => Look::<SubscriptionRead>::Done(SubscriptionRead::Timeout),
            WaitTimeout::Infinite => Look::<SubscriptionRead>::Sleep(WaitStep::Block),
            WaitTimeout::For(limit) => if elapsed_ns > nanos_of(limit) {
                Look::<SubscriptionRead>::Done(SubscriptionRead::Timeout)
            } else {
                Look::<SubscriptionRead>::Sleep(
                    WaitStep::BlockFor((nanos_of(limit) - elapsed_ns) as u128),
                )
            },
        },
{
}

/// A waiter never sleeps past its limit: what has elapsed and what it sleeps are the limit
/// together, and it gives up only once more than the limit has elapsed. Without a limit it never
/// gives up; as a poll it always does.
pub proof fn law_waiters_keep_their_limit<T>(
    wait: WaitTimeout,
    elapsed_ns: u128,
    timed_out: bool,
    timeout: T,
)
    ensures
        wait matches WaitTimeout::For(limit) ==> (wait_step_of(
            wait,
            elapsed_ns,
        ) matches WaitStep::BlockFor(rest) ==> elapsed_ns + rest == nanos_of(limit)),
        wait matches WaitTimeout::For(limit) ==> (wait_step_of(wait, elapsed_ns)
            == WaitStep::Timeout <==> elapsed_ns > nanos_of(limit)),
        wait is For ==> wait_step_of(wait, elapsed_ns) !is Block,
        wait is Infinite ==> wait_step_of(wait, elapsed_ns) == WaitStep::Block,
        wait is Poll ==> wait_step_of(wait, elapsed_ns) == WaitStep::Timeout,
        idle_look(wait, elapsed_ns, timed_out, timeout) == if timed_out || wait_step_of(
            wait,
            elapsed_ns,
        ) == WaitStep::Timeout {
            Look::Done(timeout)
        } else {
            Look::Sleep(wait_step_of(wait, elapsed_ns))
        },
{
}

} // verus!
