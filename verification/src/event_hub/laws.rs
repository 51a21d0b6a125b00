//! What event production promises to each of its readers.

use crate::event::{Event, EventDraft, SubscriptionOptions};
use crate::event_hub::{lemma_live_slots, live_slots, HubModel, SlotModel};
use vstd::prelude::*;

verus! {

/// Whether an event says what its draft says, with a sequence and a time.
pub open spec fn says(event: Event, draft: EventDraft, sequence: u64, timestamp_ns: u64) -> bool {
    &&& event.sequence == sequence
    &&& event.timestamp_ns == timestamp_ns
    &&& event.class == draft.class
    &&& event.kind == draft.kind
    &&& event.code == draft.code
    &&& event.severity == draft.severity
    &&& event.operation_id == draft.operation_id
    &&& event.resource_id == draft.resource_id
    &&& event.detail == draft.detail
}

/// Whether a subscription is the one that another was, with a different queue at most.
pub open spec fn same_reader(one: SlotModel, other: SlotModel) -> bool {
    one.id == other.id && one.live && other.live
}

proof fn lemma_reader_stays(slots: Seq<SlotModel>, place: int) -> (k: int)
    requires
        forall|i: int, j: int|
            #![trigger slots[i], slots[j]]
            0 <= i < j < slots.len() ==> slots[i].id < slots[j].id,
        0 <= place < slots.len(),
        slots[place].live,
    ensures
        0 <= k < live_slots(slots).len(),
        live_slots(slots)[k] == slots[place],
{
    lemma_live_slots(slots);
    assert(live_slots(slots).contains(slots[place]));
    choose|k: int| 0 <= k < live_slots(slots).len() && live_slots(slots)[k] == slots[place]
}

/// Every subscription that is held is offered a published event, with the next sequence and the
/// time of its production, through its filter. Production stays open.
pub proof fn law_published_event_is_offered_to_every_reader(
    hub: HubModel,
    timestamp_ns: u64,
    draft: EventDraft,
    place: int,
)
    requires
        hub.valid(),
        hub.next_sequence < u64::MAX,
        0 <= place < hub.slots.len(),
        hub.slots[place].live,
    ensures
        ({
            let after = hub.published(timestamp_ns, draft);
            &&& after.next_sequence == hub.next_sequence + 1
            &&& after.last_timestamp_ns == timestamp_ns
            &&& after.closed == hub.closed
            &&& after.next_subscription == hub.next_subscription
            &&& exists|k: int, event: Event|
                #![trigger after.slots[k], hub.slots[place].queue.enqueued(event)]
                0 <= k < after.slots.len() && same_reader(after.slots[k], hub.slots[place])
                    && says(event, draft, hub.next_sequence, timestamp_ns) && after.slots[k].queue
                    == hub.slots[place].queue.enqueued(event)
        }),
{
    let k = lemma_reader_stays(hub.slots, place);
    let after = hub.published(timestamp_ns, draft);
    let event = crate::event::event_of(hub.next_sequence, timestamp_ns, draft);
    assert(says(event, draft, hub.next_sequence, timestamp_ns));
    assert(same_reader(after.slots[k], hub.slots[place]));
    assert(after.slots[k].queue == hub.slots[place].queue.enqueued(event));
}

/// Every subscription that is held is offered the final event, whatever its filter says, and takes
/// nothing behind it. Production is closed.
pub proof fn law_final_event_passes_every_filter(
    hub: HubModel,
    timestamp_ns: u64,
    draft: EventDraft,
    place: int,
)
    requires
        hub.valid(),
        hub.next_sequence < u64::MAX,
        0 <= place < hub.slots.len(),
        hub.slots[place].live,
    ensures
        ({
            let after = hub.finished(timestamp_ns, draft);
            &&& after.next_sequence == hub.next_sequence + 1
            &&& after.last_timestamp_ns == timestamp_ns
            &&& after.closed
            &&& after.next_subscription == hub.next_subscription
            &&& exists|k: int, event: Event|
                #![trigger after.slots[k], hub.slots[place].queue.accepting(event)]
                0 <= k < after.slots.len() && same_reader(after.slots[k], hub.slots[place])
                    && says(event, draft, hub.next_sequence, timestamp_ns)
                    && after.slots[k].queue.closed && after.slots[k].queue.options
                    == hub.slots[place].queue.options && after.slots[k].queue.entries
                    == hub.slots[place].queue.accepting(event).entries
        }),
{
    let k = lemma_reader_stays(hub.slots, place);
    let after = hub.finished(timestamp_ns, draft);
    let event = crate::event::event_of(hub.next_sequence, timestamp_ns, draft);
    assert(says(event, draft, hub.next_sequence, timestamp_ns));
    assert(same_reader(after.slots[k], hub.slots[place]));
    assert(after.slots[k].queue.entries == hub.slots[place].queue.accepting(event).entries);
}

/// Nobody but the held subscriptions is left behind an event, each at most once.
pub proof fn law_only_held_readers_are_kept(
    hub: HubModel,
    timestamp_ns: u64,
    draft: EventDraft,
    k: int,
)
    requires
        hub.valid(),
    ensures
        0 <= k < hub.published(timestamp_ns, draft).slots.len() ==> exists|place: int|
            0 <= place < hub.slots.len() && same_reader(
                hub.published(timestamp_ns, draft).slots[k],
                #[trigger] hub.slots[place],
            ),
        0 <= k < hub.finished(timestamp_ns, draft).slots.len() ==> exists|place: int|
            0 <= place < hub.slots.len() && same_reader(
                hub.finished(timestamp_ns, draft).slots[k],
                #[trigger] hub.slots[place],
            ),
        hub.published(timestamp_ns, draft).slots.len() <= hub.slots.len(),
        hub.finished(timestamp_ns, draft).slots.len() <= hub.slots.len(),
{
    lemma_live_slots(hub.slots);
    lemma_no_more(hub.slots);
    let live = live_slots(hub.slots);
    if 0 <= k < live.len() {
        assert(hub.slots.contains(live[k]));
        let place = choose|place: int| 0 <= place < hub.slots.len() && hub.slots[place] == live[k];
        assert(same_reader(hub.published(timestamp_ns, draft).slots[k], hub.slots[place]));
        assert(same_reader(hub.finished(timestamp_ns, draft).slots[k], hub.slots[place]));
    }
}

proof fn lemma_no_more(slots: Seq<SlotModel>)
    ensures
        live_slots(slots).len() <= slots.len(),
    decreases slots.len(),
{
    if slots.len() > 0 {
        lemma_no_more(slots.drop_last());
    }
}

/// Stopping without a final event closes every held subscription and keeps what it has queued.
pub proof fn law_forced_stop_keeps_what_is_queued(hub: HubModel, place: int)
    requires
        0 <= place < hub.slots.len(),
    ensures
        hub.force_closed().closed,
        hub.force_closed().next_sequence == hub.next_sequence,
        hub.force_closed().last_timestamp_ns == hub.last_timestamp_ns,
        hub.force_closed().next_subscription == hub.next_subscription,
        hub.force_closed().slots.len() == hub.slots.len(),
        hub.force_closed().slots[place].id == hub.slots[place].id,
        hub.force_closed().slots[place].live == hub.slots[place].live,
        hub.force_closed().slots[place].queue.entries == hub.slots[place].queue.entries,
        hub.force_closed().slots[place].queue.options == hub.slots[place].queue.options,
        hub.slots[place].live ==> hub.force_closed().slots[place].queue.closed,
{
}

/// A new subscription gets a number of its own and an empty open queue with the options it asked
/// for; it changes nothing for the held ones, and hears of no earlier event.
pub proof fn law_new_reader_starts_empty(hub: HubModel, options: SubscriptionOptions, place: int)
    requires
        hub.valid(),
        hub.next_subscription < u64::MAX,
        0 <= place < hub.slots.len(),
        hub.slots[place].live,
    ensures
        ({
            let after = hub.subscribed(options);
            let newcomer = after.slots.last();
            &&& after.slots.len() > 1
            &&& newcomer.id == hub.next_subscription
            &&& newcomer.live
            &&& newcomer.queue.options == options
            &&& newcomer.queue.entries.len() == 0
            &&& !newcomer.queue.closed
            &&& after.next_subscription == hub.next_subscription + 1
            &&& after.next_sequence == hub.next_sequence
            &&& after.last_timestamp_ns == hub.last_timestamp_ns
            &&& after.closed == hub.closed
            &&& exists|k: int|
                0 <= k < after.slots.len() - 1 && #[trigger] after.slots[k] == hub.slots[place]
        }),
{
    let k = lemma_reader_stays(hub.slots, place);
    assert(hub.subscribed(options).slots[k] == hub.slots[place]);
}

/// Production starts open, without readers, and its first event and first subscription are numbered
/// one.
pub proof fn law_production_starts_empty()
    ensures
        HubModel::initial().next_sequence == 1,
        HubModel::initial().next_subscription == 1,
        HubModel::initial().slots.len() == 0,
        !HubModel::initial().closed,
        HubModel::initial().valid(),
{
}

} // verus!
