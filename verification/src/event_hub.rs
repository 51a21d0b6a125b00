//! Event production: numbers every event once and delivers it to every live subscription.

use crate::event::{
    all_below, entry_first, entry_last, event_count, event_of, in_sequence,
    law_queue_keeps_sequence_order, law_queue_stays_bounded, read_from, Event, EventDraft,
    QueueEntry, QueueModel, SubscriptionInner, SubscriptionOptions, SubscriptionRead,
};
use crate::model::{EasyConError, ErrorCode, ErrorDomain, ErrorModel};
use crate::wait::{Look, WaitTimeout};
use vstd::prelude::*;

pub mod laws;

verus! {

/// One subscription of a hub.
pub struct SubscriptionSlot {
    id: u64,
    live: bool,
    inner: SubscriptionInner,
}

/// One subscription of a hub, as plain values.
#[verifier::ext_equal]
pub struct SlotModel {
    pub id: u64,
    /// Whether a reader still holds the subscription.
    pub live: bool,
    pub queue: QueueModel,
}

impl View for SubscriptionSlot {
    type V = SlotModel;

    closed spec fn view(&self) -> SlotModel {
        SlotModel { id: self.id, live: self.live, queue: self.inner@ }
    }
}

impl SubscriptionSlot {
    /// The slot's invariant.
    pub closed spec fn valid(&self) -> bool {
        self.inner.valid()
    }
}

/// State of event production, as plain values.
#[verifier::ext_equal]
pub struct HubModel {
    pub next_sequence: u64,
    pub last_timestamp_ns: u64,
    pub closed: bool,
    pub next_subscription: u64,
    pub slots: Seq<SlotModel>,
}

/// The subscriptions that still have a reader.
pub open spec fn live_slots(slots: Seq<SlotModel>) -> Seq<SlotModel>
    decreases slots.len(),
{
    if slots.len() == 0 {
        seq![]
    } else if slots.last().live {
        live_slots(slots.drop_last()).push(slots.last())
    } else {
        live_slots(slots.drop_last())
    }
}

/// One subscription after an event was published.
pub open spec fn slot_with_event(slot: SlotModel, event: Event) -> SlotModel {
    SlotModel { queue: slot.queue.enqueued(event), ..slot }
}

/// One subscription after the final event: its filter does not apply, and nothing follows.
pub open spec fn slot_with_final(slot: SlotModel, event: Event) -> SlotModel {
    SlotModel { queue: QueueModel { closed: true, ..slot.queue.accepting(event) }, ..slot }
}

/// One subscription after production stopped without a final event.
pub open spec fn slot_forced_closed(slot: SlotModel) -> SlotModel {
    if slot.live {
        SlotModel { queue: QueueModel { closed: true, ..slot.queue }, ..slot }
    } else {
        slot
    }
}

impl HubModel {
    /// Production as it starts.
    pub open spec fn initial() -> HubModel {
        HubModel {
            next_sequence: 1,
            last_timestamp_ns: 0,
            closed: false,
            next_subscription: 1,
            slots: seq![],
        }
    }

    /// Production after an event was published: readers that left are forgotten.
    pub open spec fn published(self, timestamp_ns: u64, draft: EventDraft) -> HubModel {
        let event = event_of(self.next_sequence, timestamp_ns, draft);
        HubModel {
            next_sequence: (self.next_sequence + 1) as u64,
            last_timestamp_ns: timestamp_ns,
            slots: live_slots(self.slots).map_values(
                |slot: SlotModel| slot_with_event(slot, event),
            ),
            ..self
        }
    }

    /// Production after its final event.
    pub open spec fn finished(self, timestamp_ns: u64, draft: EventDraft) -> HubModel {
        let event = event_of(self.next_sequence, timestamp_ns, draft);
        HubModel {
            next_sequence: (self.next_sequence + 1) as u64,
            last_timestamp_ns: timestamp_ns,
            closed: true,
            slots: live_slots(self.slots).map_values(
                |slot: SlotModel| slot_with_final(slot, event),
            ),
            ..self
        }
    }

    /// Production after it stopped without a final event.
    pub open spec fn force_closed(self) -> HubModel {
        HubModel {
            closed: true,
            slots: self.slots.map_values(|slot: SlotModel| slot_forced_closed(slot)),
            ..self
        }
    }

    /// Production after a subscription was added.
    pub open spec fn subscribed(self, options: SubscriptionOptions) -> HubModel {
        HubModel {
            next_subscription: (self.next_subscription + 1) as u64,
            slots: live_slots(self.slots).push(
                SlotModel {
                    id: self.next_subscription,
                    live: true,
                    queue: QueueModel { options, entries: seq![], closed: false },
                },
            ),
            ..self
        }
    }

    /// Whether a subscription is known.
    pub open spec fn knows(self, id: u64) -> bool {
        exists|k: int| 0 <= k < self.slots.len() && (#[trigger] self.slots[k]).id == id
    }

    /// Where a subscription stands.
    pub open spec fn position(self, id: u64) -> int {
        choose|k: int| 0 <= k < self.slots.len() && (#[trigger] self.slots[k]).id == id
    }

    /// A subscription's queue.
    pub open spec fn queue(self, id: u64) -> QueueModel {
        self.slots[self.position(id)].queue
    }

    /// What event production always satisfies: every queue is bounded and shows its reader strictly
    /// increasing sequences, all of them handed out before.
    pub open spec fn valid(self) -> bool {
        &&& self.next_sequence >= 1
        &&& forall|k: int|
            0 <= k < self.slots.len() ==> (#[trigger] self.slots[k]).id < self.next_subscription
        &&& forall|j: int, k: int|
            #![trigger self.slots[j], self.slots[k]]
            0 <= j < k < self.slots.len() ==> self.slots[j].id < self.slots[k].id
        &&& forall|k: int|
            0 <= k < self.slots.len() ==> (#[trigger] self.slots[k]).queue.valid() && in_sequence(
                self.slots[k].queue.entries,
            ) && all_below(self.slots[k].queue.entries, self.next_sequence)
    }
}

pub(crate) proof fn lemma_live_slots(slots: Seq<SlotModel>)
    requires
        forall|j: int, k: int|
            #![trigger slots[j], slots[k]]
            0 <= j < k < slots.len() ==> slots[j].id < slots[k].id,
    ensures
        forall|k: int|
            0 <= k < live_slots(slots).len() ==> slots.contains(#[trigger] live_slots(slots)[k])
                && live_slots(slots)[k].live,
        forall|k: int|
            0 <= k < slots.len() && (#[trigger] slots[k]).live ==> live_slots(slots).contains(
                slots[k],
            ),
        forall|j: int, k: int|
            #![trigger live_slots(slots)[j], live_slots(slots)[k]]
            0 <= j < k < live_slots(slots).len() ==> live_slots(slots)[j].id < live_slots(
                slots,
            )[k].id,
    decreases slots.len(),
{
    if slots.len() > 0 {
        let rest = slots.drop_last();
        let before = live_slots(rest);
        let all = live_slots(slots);
        lemma_live_slots(rest);
        assert forall|k: int| 0 <= k < all.len() implies slots.contains(#[trigger] all[k])
            && all[k].live by {
            if k < before.len() {
                assert(all[k] == before[k]);
                let m = choose|m: int| 0 <= m < rest.len() && rest[m] == before[k];
                assert(slots[m] == all[k]);
            } else {
                assert(slots[slots.len() - 1] == all[k]);
            }
        }
        assert forall|k: int| 0 <= k < slots.len() && (#[trigger] slots[k]).live implies all.contains(
            slots[k],
        ) by {
            if k < rest.len() {
                assert(rest[k] == slots[k]);
                let m = choose|m: int| 0 <= m < before.len() && before[m] == rest[k];
                assert(all[m] == slots[k]);
            } else {
                assert(all[all.len() - 1] == slots[k]);
            }
        }
        assert forall|j: int, k: int| #![trigger all[j], all[k]]
            0 <= j < k < all.len() implies all[j].id < all[k].id by {
            if k < before.len() {
                assert(before[j].id < before[k].id);
            } else {
                assert(all[j] == before[j]);
                let m = choose|m: int| 0 <= m < rest.len() && rest[m] == before[j];
                assert(slots[m].id < slots[slots.len() - 1].id);
            }
        }
    }
}

proof fn lemma_published_is_valid(hub: HubModel, timestamp_ns: u64, draft: EventDraft)
    requires
        hub.valid(),
        hub.next_sequence < u64::MAX,
    ensures
        hub.published(timestamp_ns, draft).valid(),
        hub.finished(timestamp_ns, draft).valid(),
{
    lemma_live_slots(hub.slots);
    let event = event_of(hub.next_sequence, timestamp_ns, draft);
    let live = live_slots(hub.slots);
    let published = hub.published(timestamp_ns, draft);
    let finished = hub.finished(timestamp_ns, draft);
    assert forall|k: int| 0 <= k < live.len() implies ({
        let open = (#[trigger] published.slots[k]).queue;
        let done = finished.slots[k].queue;
        &&& published.slots[k].id == live[k].id
        &&& finished.slots[k].id == live[k].id
        &&& live[k].id < hub.next_subscription
        &&& open.valid() && in_sequence(open.entries) && all_below(
            open.entries,
            published.next_sequence,
        )
        &&& done.valid() && in_sequence(done.entries) && all_below(
            done.entries,
            published.next_sequence,
        )
    }) by {
        let m = choose|m: int| 0 <= m < hub.slots.len() && hub.slots[m] == live[k];
        assert(hub.slots[m].queue.valid());
        let queue = live[k].queue;
        law_queue_stays_bounded(queue, event);
        law_queue_keeps_sequence_order(queue, event);
        lemma_accepting_stays_below(queue, event, published.next_sequence);
    }
    assert forall|k: int| 0 <= k < finished.slots.len() implies (#[trigger] finished.slots[k]).id
        < finished.next_subscription && finished.slots[k].queue.valid() && in_sequence(
        finished.slots[k].queue.entries,
    ) && all_below(finished.slots[k].queue.entries, finished.next_sequence) by {
        assert(published.slots[k].id == live[k].id);
    }
    assert forall|j: int, k: int| #![trigger published.slots[j], published.slots[k]]
        0 <= j < k < published.slots.len() implies published.slots[j].id
        < published.slots[k].id by {
        assert(live[j].id < live[k].id);
    }
    assert forall|j: int, k: int| #![trigger finished.slots[j], finished.slots[k]]
        0 <= j < k < finished.slots.len() implies finished.slots[j].id < finished.slots[k].id by {
        assert(live[j].id < live[k].id);
    }
}

proof fn lemma_accepting_stays_below(queue: QueueModel, event: Event, bound: u64)
    requires
        queue.valid(),
        in_sequence(queue.entries),
        all_below(queue.entries, event.sequence),
        event.sequence < bound,
    ensures
        all_below(queue.accepting(event).entries, bound),
        all_below(queue.entries, bound),
{
    // The last place holds the newest sequence: the offered event, or the gap that it joined.
    law_queue_keeps_sequence_order(queue, event);
    let after = queue.accepting(event).entries;
    if !queue.closed {
        assert(after.len() > 0);
        assert(entry_last(after.last()) == event.sequence) by {
            if after.last() is Gap {
                let index = queue.entries.len() as int;
                assert(after == crate::event::with_gap(
                    queue.entries,
                    index,
                    crate::event::gap_of(event),
                ));
                if index > 0 {
                    assert(entry_last(queue.entries[index - 1]) < event.sequence);
                }
            }
        }
        assert forall|i: int| 0 <= i < after.len() implies entry_last(#[trigger] after[i])
            < bound by {
            if i < after.len() - 1 {
                assert(entry_last(after[i]) < entry_first(after[after.len() - 1]));
            }
        }
    }
}

/// Produces events for every subscription of one Runtime.
pub struct EventHub {
    next_sequence: u64,
    last_timestamp_ns: u64,
    closed: bool,
    next_subscription: u64,
    slots: Vec<SubscriptionSlot>,
}

impl View for EventHub {
    type V = HubModel;

    closed spec fn view(&self) -> HubModel {
        HubModel {
            next_sequence: self.next_sequence,
            last_timestamp_ns: self.last_timestamp_ns,
            closed: self.closed,
            next_subscription: self.next_subscription,
            slots: self.slots@.map_values(|slot: SubscriptionSlot| slot@),
        }
    }
}

/// Handle of one subscription.
#[derive(Clone, Copy, Debug, PartialEq, Eq, Structural)]
pub struct EventSubscription {
    pub id: u64,
}

/// What a refused publication says.
pub open spec fn events_closed_model() -> ErrorModel {
    ErrorModel {
        domain: ErrorDomain::Runtime,
        code: ErrorCode::RuntimeClosing,
        message: "Runtime event production is closed"@,
    }
}

fn events_closed_error() -> (error: EasyConError)
    ensures
        error@ == events_closed_model(),
{
    EasyConError::new(
        ErrorDomain::Runtime,
        ErrorCode::RuntimeClosing,
        "Runtime event production is closed",
    )
}

impl EventHub {
    /// Whether every queue's own counter is right.
    pub closed spec fn counted(&self) -> bool {
        forall|k: int| 0 <= k < self.slots@.len() ==> (#[trigger] self.slots@[k]).valid()
    }

    /// The hub's invariant.
    pub open spec fn valid(&self) -> bool {
        self@.valid() && self.counted()
    }

    /// Creates a hub without subscriptions.
    pub fn new() -> (hub: Self)
        ensures
            hub.valid(),
            hub@ == HubModel::initial(),
    {
        let hub = EventHub {
            next_sequence: 1,
            last_timestamp_ns: 0,
            closed: false,
            next_subscription: 1,
            slots: Vec::new(),
        };
        assert(hub@ =~= HubModel::initial());
        hub
    }

    /// Returns whether production has ended.
    pub fn is_closed(&self) -> (closed: bool)
        ensures
            closed == self@.closed,
    {
        self.closed
    }

    /// Returns how many subscriptions are remembered.
    pub fn subscription_count(&self) -> (count: usize)
        ensures
            count == self@.slots.len(),
    {
        self.slots.len()
    }

    /// Returns whether another event can be numbered.
    pub fn sequences_left(&self) -> (left: bool)
        ensures
            left == (self@.next_sequence < u64::MAX),
    {
        self.next_sequence < u64::MAX
    }

    /// Returns whether another subscription can be numbered.
    pub fn subscriptions_left(&self) -> (left: bool)
        ensures
            left == (self@.next_subscription < u64::MAX),
    {
        self.next_subscription < u64::MAX
    }

    /// Returns the time of the last produced event.
    pub fn last_timestamp_ns(&self) -> (timestamp_ns: u64)
        ensures
            timestamp_ns == self@.last_timestamp_ns,
    {
        self.last_timestamp_ns
    }

    fn prune(&mut self)
        requires
            old(self).counted(),
        ensures
            final(self).counted(),
            final(self)@ == (HubModel { slots: live_slots(old(self)@.slots), ..old(self)@ }),
    {
        let ghost all = self@.slots;
        let mut everyone: Vec<SubscriptionSlot> = Vec::new();
        std::mem::swap(&mut self.slots, &mut everyone);
        let ghost source = everyone@;
        let mut kept: Vec<SubscriptionSlot> = Vec::new();
        assert(all.take(0) =~= seq![]);
        assert(kept@.map_values(|slot: SubscriptionSlot| slot@) =~= live_slots(all.take(0)));
        for slot in walk: everyone
            invariant
                walk.seq() == source,
                all == source.map_values(|slot: SubscriptionSlot| slot@),
                forall|j: int| 0 <= j < source.len() ==> (#[trigger] source[j]).valid(),
                forall|j: int| 0 <= j < kept@.len() ==> (#[trigger] kept@[j]).valid(),
                kept@.map_values(|slot: SubscriptionSlot| slot@) == live_slots(
                    all.take(walk.index()),
                ),
        {
            let ghost done = walk.index();
            let ghost so_far = kept@;
            proof {
                assert(slot == source[done]);
                assert(all.take(done + 1).drop_last() =~= all.take(done));
                assert(all.take(done + 1).last() == slot@);
            }
            if slot.live {
                kept.push(slot);
                assert(kept@.map_values(|slot: SubscriptionSlot| slot@) =~= so_far.map_values(
                    |slot: SubscriptionSlot| slot@,
                ).push(slot@));
            }
        }
        assert(all.take(source.len() as int) =~= all);
        self.slots = kept;
    }

    /// Adds a subscription, and forgets those whose reader left.
    pub fn subscribe(&mut self, options: SubscriptionOptions) -> (subscription: EventSubscription)
        requires
            old(self).valid(),
            old(self)@.next_subscription < u64::MAX,
            options.capacity >= 1,
        ensures
            final(self).valid(),
            subscription.id == old(self)@.next_subscription,
            final(self)@ == old(self)@.subscribed(options),
            final(self)@.knows(subscription.id),
            final(self)@.queue(subscription.id) == (QueueModel {
                options,
                entries: seq![],
                closed: false,
            }),
    {
        let ghost before = self@;
        proof {
            lemma_live_slots(before.slots);
        }
        self.prune();
        let ghost pruned = self.slots@;
        let id: u64 = self.next_subscription;
        self.next_subscription = id + 1;
        self.slots.push(
            SubscriptionSlot { id, live: true, inner: SubscriptionInner::new(options) },
        );
        proof {
            let after = self@;
            let live = live_slots(before.slots);
            assert(after.slots =~= before.subscribed(options).slots);
            assert(after =~= before.subscribed(options));
            assert forall|k: int| 0 <= k < after.slots.len() implies (
            #[trigger] after.slots[k]).id < after.next_subscription && after.slots[k].queue.valid()
                && in_sequence(after.slots[k].queue.entries) && all_below(
                after.slots[k].queue.entries,
                after.next_sequence,
            ) by {
                if k < live.len() {
                    let m = choose|m: int| 0 <= m < before.slots.len() && before.slots[m] == live[k];
                    assert(before.slots[m].queue.valid());
                }
            }
            assert forall|j: int, k: int| #![trigger after.slots[j], after.slots[k]]
                0 <= j < k < after.slots.len() implies after.slots[j].id < after.slots[k].id by {
                if k < live.len() {
                    assert(live[j].id < live[k].id);
                } else {
                    let m = choose|m: int| 0 <= m < before.slots.len() && before.slots[m] == live[j];
                    assert(before.slots[m].id < before.next_subscription);
                }
            }
            assert(self.counted());
            assert(after.slots[live.len() as int].id == id);
            let p = after.position(id);
            assert(after.slots[p].id == id);
            if p < live.len() {
                assert(after.slots[p].id < after.slots[live.len() as int].id);
            }
        }
        EventSubscription { id }
    }

    fn finish_event(sequence: u64, timestamp_ns: u64, draft: EventDraft) -> (event: Event)
        ensures
            event == event_of(sequence, timestamp_ns, draft),
    {
        Event {
            sequence,
            timestamp_ns,
            class: draft.class,
            kind: draft.kind,
            code: draft.code,
            severity: draft.severity,
            operation_id: draft.operation_id,
            resource_id: draft.resource_id,
            detail: draft.detail,
        }
    }

    /// Numbers an event, stamps it and delivers it to every live subscription; refused once
    /// production has ended.
    pub fn try_publish_event(&mut self, timestamp_ns: u64, draft: EventDraft) -> (published: Result<
        Event,
        EasyConError,
    >)
        requires
            old(self).valid(),
            old(self)@.next_sequence < u64::MAX,
        ensures
            final(self).valid(),
            published is Ok <==> !old(self)@.closed,
            published matches Ok(event) ==> event == event_of(
                old(self)@.next_sequence,
                timestamp_ns,
                draft,
            ) && final(self)@ == old(self)@.published(timestamp_ns, draft),
            published matches Err(error) ==> error@ == events_closed_model() && final(self)@
                == old(self)@,
    {
        if self.closed {
            return Err(events_closed_error());
        }
        let ghost before = self@;
        proof {
            lemma_live_slots(before.slots);
            lemma_published_is_valid(before, timestamp_ns, draft);
        }
        let event = Self::finish_event(self.next_sequence, timestamp_ns, draft);
        self.prune();
        self.next_sequence = self.next_sequence + 1;
        self.last_timestamp_ns = timestamp_ns;
        let ghost live = live_slots(before.slots);
        let ghost middle = self@;
        assert(middle.slots == live);
        let mut k: usize = 0;
        while k < self.slots.len()
            invariant
                k <= self.slots.len(),
                self.counted(),
                self@ == (HubModel { slots: self@.slots, ..middle }),
                self@.slots.len() == self.slots@.len(),
                self@.slots.len() == live.len(),
                forall|j: int|
                    0 <= j < live.len() ==> (#[trigger] self@.slots[j]) == if j < k {
                        slot_with_event(live[j], event)
                    } else {
                        live[j]
                    },
            decreases self.slots.len() - k,
        {
            let ghost slots = self.slots@;
            let ghost here = self@;
            assert(slots[k as int]@ == here.slots[k as int]);
            assert(slots[k as int].valid());
            let slot = &mut self.slots[k];
            slot.inner.enqueue(event.clone());
            proof {
                assert(self@.slots =~= here.slots.update(
                    k as int,
                    slot_with_event(live[k as int], event),
                ));
                assert forall|j: int| 0 <= j < self.slots@.len() implies (
                #[trigger] self.slots@[j]).valid() by {
                    if j != k {
                        assert(self.slots@[j] == slots[j]);
                    }
                }
            }
            k += 1;
        }
        assert(self@.slots =~= before.published(timestamp_ns, draft).slots);
        assert(self@ =~= before.published(timestamp_ns, draft));
        Ok(event)
    }

    /// Delivers the final event to every live subscription and ends production; once ended, nothing
    /// changes.
    ///
    /// `now_ns` is the clock reading, or none where the clock failed: then the call fails and
    /// changes nothing, unless `recover_clock` lets it use the time of the last event instead.
    pub fn close_events(
        &mut self,
        draft: EventDraft,
        now_ns: Option<u64>,
        recover_clock: bool,
    ) -> (closed: Result<(), ()>)
        requires
            old(self).valid(),
            old(self)@.next_sequence < u64::MAX,
        ensures
            final(self).valid(),
            closed is Ok <==> old(self)@.closed || now_ns is Some || recover_clock,
            closed is Err || old(self)@.closed ==> final(self)@ == old(self)@,
            closed is Ok && !old(self)@.closed ==> final(self)@ == old(self)@.finished(
                match now_ns {
                    Some(now_ns) => now_ns,
                    None => old(self)@.last_timestamp_ns,
                },
                draft,
            ),
    {
        if self.closed {
            return Ok(());
        }
        let timestamp_ns: u64 = match now_ns {
            Some(now_ns) => now_ns,
            None => {
                if !recover_clock {
                    return Err(());
                }
                self.last_timestamp_ns
            },
        };
        let ghost before = self@;
        proof {
            lemma_live_slots(before.slots);
            lemma_published_is_valid(before, timestamp_ns, draft);
        }
        let event = Self::finish_event(self.next_sequence, timestamp_ns, draft);
        self.prune();
        self.next_sequence = self.next_sequence + 1;
        self.last_timestamp_ns = timestamp_ns;
        self.closed = true;
        let ghost live = live_slots(before.slots);
        let ghost middle = self@;
        let mut k: usize = 0;
        while k < self.slots.len()
            invariant
                k <= self.slots.len(),
                self.counted(),
                self@ == (HubModel { slots: self@.slots, ..middle }),
                self@.slots.len() == self.slots@.len(),
                self@.slots.len() == live.len(),
                forall|j: int|
                    0 <= j < live.len() ==> (#[trigger] self@.slots[j]) == if j < k {
                        slot_with_final(live[j], event)
                    } else {
                        live[j]
                    },
            decreases self.slots.len() - k,
        {
            let ghost slots = self.slots@;
            let ghost here = self@;
            assert(slots[k as int]@ == here.slots[k as int]);
            assert(slots[k as int].valid());
            let slot = &mut self.slots[k];
            slot.inner.enqueue_final(event.clone());
            slot.inner.close();
            proof {
                assert(self@.slots =~= here.slots.update(
                    k as int,
                    slot_with_final(live[k as int], event),
                ));
                assert forall|j: int| 0 <= j < self.slots@.len() implies (
                #[trigger] self.slots@[j]).valid() by {
                    if j != k {
                        assert(self.slots@[j] == slots[j]);
                    }
                }
            }
            k += 1;
        }
        assert(self@.slots =~= before.finished(timestamp_ns, draft).slots);
        assert(self@ =~= before.finished(timestamp_ns, draft));
        Ok(())
    }

    /// Ends production without a final event: every live subscription drains what it has.
    pub fn force_close(&mut self)
        requires
            old(self).valid(),
        ensures
            final(self).valid(),
            final(self)@ == old(self)@.force_closed(),
    {
        let ghost before = self@;
        self.closed = true;
        let ghost middle = self@;
        let mut k: usize = 0;
        while k < self.slots.len()
            invariant
                k <= self.slots.len(),
                self.counted(),
                middle.slots == before.slots,
                self@ == (HubModel { slots: self@.slots, ..middle }),
                self@.slots.len() == self.slots@.len(),
                self@.slots.len() == before.slots.len(),
                forall|j: int|
                    0 <= j < before.slots.len() ==> (#[trigger] self@.slots[j]) == if j < k {
                        slot_forced_closed(before.slots[j])
                    } else {
                        before.slots[j]
                    },
            decreases self.slots.len() - k,
        {
            let ghost slots = self.slots@;
            let ghost here = self@;
            assert(slots[k as int]@ == here.slots[k as int]);
            assert(slots[k as int].valid());
            if self.slots[k].live {
                let slot = &mut self.slots[k];
                slot.inner.close();
                proof {
                    assert(self@.slots =~= here.slots.update(
                        k as int,
                        slot_forced_closed(before.slots[k as int]),
                    ));
                    assert forall|j: int| 0 <= j < self.slots@.len() implies (
                    #[trigger] self.slots@[j]).valid() by {
                        if j != k {
                            assert(self.slots@[j] == slots[j]);
                        }
                    }
                }
            }
            k += 1;
        }
        proof {
            let after = HubModel {
                closed: true,
                slots: before.slots.map_values(|slot: SlotModel| slot_forced_closed(slot)),
                ..before
            };
            assert(self@.slots =~= after.slots);
            assert(self@ =~= after);
            assert forall|i: int| 0 <= i < after.slots.len() implies (
            #[trigger] after.slots[i]).id == before.slots[i].id && after.slots[i].queue.entries
                == before.slots[i].queue.entries && after.slots[i].queue.valid() by {
                assert(before.slots[i].queue.valid());
            }
            assert forall|j: int, i: int| #![trigger after.slots[j], after.slots[i]]
                0 <= j < i < after.slots.len() implies after.slots[j].id < after.slots[i].id by {
                assert(before.slots[j].id < before.slots[i].id);
            }
        }
    }

    fn find(&self, id: u64) -> (index: usize)
        requires
            self@.valid(),
            self@.knows(id),
        ensures
            index < self.slots@.len(),
            index == self@.position(id),
            self@.slots[index as int].id == id,
    {
        let mut k: usize = 0;
        while k < self.slots.len()
            invariant
                k <= self.slots.len(),
                self@.valid(),
                self@.knows(id),
                forall|j: int| 0 <= j < k ==> (#[trigger] self@.slots[j]).id != id,
            decreases self.slots.len() - k,
        {
            assert(self@.slots[k as int] == self.slots@[k as int]@);
            if self.slots[k].id == id {
                proof {
                    let p = self@.position(id);
                    assert(self@.slots[p].id == id);
                    if p < k {
                        assert(self@.slots[p].id < self@.slots[k as int].id);
                    } else if k < p {
                        assert(self@.slots[k as int].id < self@.slots[p].id);
                    }
                }
                return k;
            }
            k += 1;
        }
        proof {
            let p = self@.position(id);
            assert(self@.slots[p].id == id);
            assert(false);
        }
        0
    }
}

impl EventSubscription {
    /// Looks once for the next event on behalf of a call that waits at most `wait`.
    pub fn read(
        &self,
        hub: &mut EventHub,
        wait: WaitTimeout,
        elapsed_ns: u128,
        timed_out: bool,
    ) -> (look: Look<SubscriptionRead>)
        requires
            old(hub).valid(),
            old(hub)@.knows(self.id),
        ensures
            final(hub).valid(),
            final(hub)@ == (HubModel {
                slots: old(hub)@.slots.update(
                    old(hub)@.position(self.id),
                    SlotModel {
                        queue: final(hub)@.slots[old(hub)@.position(self.id)].queue,
                        ..old(hub)@.slots[old(hub)@.position(self.id)]
                    },
                ),
                ..old(hub)@
            }),
            read_from(
                old(hub)@.queue(self.id),
                wait,
                elapsed_ns,
                timed_out,
                look,
                final(hub)@.slots[old(hub)@.position(self.id)].queue,
            ),
    {
        let ghost before = hub@;
        let ghost slots = hub.slots@;
        let index: usize = hub.find(self.id);
        let ghost p = index as int;
        assert(slots[p]@ == before.slots[p]);
        assert(slots[p].valid());
        let slot = &mut hub.slots[index];
        let look = slot.inner.read(wait, elapsed_ns, timed_out);
        proof {
            let after = hub@;
            let queue = after.slots[p].queue;
            assert(after.slots =~= before.slots.update(p, SlotModel { queue, ..before.slots[p] }));
            assert(after =~= HubModel {
                slots: before.slots.update(p, SlotModel { queue, ..before.slots[p] }),
                ..before
            });
            assert forall|k: int| 0 <= k < hub.slots@.len() implies (
            #[trigger] hub.slots@[k]).valid() by {
                if k != p {
                    assert(hub.slots@[k] == slots[k]);
                }
            }
            let old_entries = before.slots[p].queue.entries;
            if old_entries.len() > 0 {
                let rest = old_entries.skip(1);
                assert forall|i: int, j: int| #![trigger rest[i], rest[j]]
                    0 <= i < j < rest.len() implies entry_last(rest[i]) < entry_first(rest[j]) by {
                    assert(entry_last(old_entries[i + 1]) < entry_first(old_entries[j + 1]));
                }
                assert forall|i: int| 0 <= i < rest.len() implies entry_first(#[trigger] rest[i])
                    <= entry_last(rest[i]) && entry_last(rest[i]) < before.next_sequence by {
                    assert(rest[i] == old_entries[i + 1]);
                }
            }
            assert(slot_queue_valid(hub.slots@[p]));
            assert forall|k: int| 0 <= k < after.slots.len() implies (
            #[trigger] after.slots[k]).id == before.slots[k].id && after.slots[k].queue.valid()
                && in_sequence(after.slots[k].queue.entries) && all_below(
                after.slots[k].queue.entries,
                after.next_sequence,
            ) by {
                assert(before.slots[k].queue.valid());
            }
            assert forall|j: int, k: int| #![trigger after.slots[j], after.slots[k]]
                0 <= j < k < after.slots.len() implies after.slots[j].id < after.slots[k].id by {
                assert(before.slots[j].id < before.slots[k].id);
            }
        }
        look
    }

    /// Returns the number of queued concrete events, excluding gap summaries.
    pub fn queued_len(&self, hub: &EventHub) -> (len: usize)
        requires
            hub.valid(),
            hub@.knows(self.id),
        ensures
            len == event_count(hub@.queue(self.id).entries),
    {
        let index: usize = hub.find(self.id);
        assert(hub.slots@[index as int]@ == hub@.slots[index as int]);
        assert(hub.slots@[index as int].valid());
        hub.slots[index].inner.queued_len()
    }

    /// Drops the subscription: production forgets it with the next event or subscription.
    pub fn release(&self, hub: &mut EventHub)
        requires
            old(hub).valid(),
            old(hub)@.knows(self.id),
        ensures
            final(hub).valid(),
            final(hub)@ == (HubModel {
                slots: old(hub)@.slots.update(
                    old(hub)@.position(self.id),
                    SlotModel {
                        live: false,
                        ..old(hub)@.slots[old(hub)@.position(self.id)]
                    },
                ),
                ..old(hub)@
            }),
    {
        let ghost before = hub@;
        let ghost slots = hub.slots@;
        let index: usize = hub.find(self.id);
        let ghost p = index as int;
        assert(slots[p]@ == before.slots[p]);
        assert(slots[p].valid());
        let slot = &mut hub.slots[index];
        slot.live = false;
        proof {
            let after = hub@;
            let gone = SlotModel { live: false, ..before.slots[p] };
            assert(after.slots =~= before.slots.update(p, gone));
            assert(after =~= HubModel { slots: before.slots.update(p, gone), ..before });
            assert forall|k: int| 0 <= k < hub.slots@.len() implies (
            #[trigger] hub.slots@[k]).valid() by {
                if k != p {
                    assert(hub.slots@[k] == slots[k]);
                }
            }
            assert forall|k: int| 0 <= k < after.slots.len() implies (
            #[trigger] after.slots[k]).id == before.slots[k].id && after.slots[k].queue
                == before.slots[k].queue && before.slots[k].queue.valid() by {}
            assert forall|j: int, k: int| #![trigger after.slots[j], after.slots[k]]
                0 <= j < k < after.slots.len() implies after.slots[j].id < after.slots[k].id by {
                assert(before.slots[j].id < before.slots[k].id);
            }
        }
    }
}

/// Every produced event gets a larger sequence than all before it.
pub proof fn law_sequences_strictly_increase(
    hub: HubModel,
    first_ns: u64,
    first: EventDraft,
    second_ns: u64,
    second: EventDraft,
)
    requires
        hub.valid(),
        hub.next_sequence < u64::MAX - 1,
    ensures
        event_of(hub.next_sequence, first_ns, first).sequence < event_of(
            hub.published(first_ns, first).next_sequence,
            second_ns,
            second,
        ).sequence,
        hub.published(first_ns, first).valid(),
        hub.published(first_ns, first).published(second_ns, second).valid(),
{
    lemma_published_is_valid(hub, first_ns, first);
    lemma_published_is_valid(hub.published(first_ns, first), second_ns, second);
}

/// Every open live subscription sees a critical final event, unfiltered and last, and is closed
/// behind it.
pub proof fn law_final_event_is_last(
    hub: HubModel,
    timestamp_ns: u64,
    draft: EventDraft,
    place: int,
)
    requires
        hub.valid(),
        hub.next_sequence < u64::MAX,
        draft.class == crate::event::EventClass::Critical,
        0 <= place < hub.slots.len(),
        hub.slots[place].live,
        !hub.slots[place].queue.closed,
    ensures
        hub.finished(timestamp_ns, draft).valid(),
        exists|k: int|
            0 <= k < hub.finished(timestamp_ns, draft).slots.len() && ({
                let slot = #[trigger] hub.finished(timestamp_ns, draft).slots[k];
                &&& slot.id == hub.slots[place].id
                &&& slot.queue.closed
                &&& slot.queue.entries.len() > 0
                &&& slot.queue.entries.last() == QueueEntry::Event(
                    event_of(hub.next_sequence, timestamp_ns, draft),
                )
            }),
{
    lemma_published_is_valid(hub, timestamp_ns, draft);
    lemma_live_slots(hub.slots);
    let event = event_of(hub.next_sequence, timestamp_ns, draft);
    let live = live_slots(hub.slots);
    assert(live.contains(hub.slots[place]));
    let k = choose|k: int| 0 <= k < live.len() && live[k] == hub.slots[place];
    crate::event::law_critical_event_is_always_queued(hub.slots[place].queue, event);
    let slot = hub.finished(timestamp_ns, draft).slots[k];
    assert(slot == slot_with_final(live[k], event));
}

spec fn slot_queue_valid(slot: SubscriptionSlot) -> bool {
    slot.valid() && slot@.queue.valid()
}

} // verus!
