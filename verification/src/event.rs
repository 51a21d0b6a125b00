//! Bounded pull subscriptions: slow readers lose ordinary events first and always learn what they
//! lost.

use crate::model::{OperationId, ResourceId};
use crate::wait::{idle_look, look_again, Look, WaitTimeout};
use vstd::prelude::*;

pub mod history;
pub mod laws;

verus! {

/// Priority used by a subscription when it must shed load.
#[derive(Clone, Copy, Debug, PartialEq, Eq, Structural)]
pub enum EventClass {
    /// Debug, informational, and replaceable observations.
    Ordinary,
    /// State, error, and terminal observations that displace ordinary events.
    Critical,
}

/// Summary of a contiguous or merged dropped sequence interval.
#[derive(Clone, Copy, Debug, PartialEq, Eq, Structural)]
pub struct EventGap {
    /// First dropped Runtime-global sequence.
    pub first_sequence: u64,
    /// Last dropped Runtime-global sequence.
    pub last_sequence: u64,
    /// Total dropped events represented by this summary.
    pub dropped_count: u64,
}

/// Stable event category independent of a specific domain payload.
#[derive(Clone, Copy, Debug, PartialEq, Eq, Structural)]
#[non_exhaustive]
pub enum EventKind {
    /// Runtime, operation, or resource state changed.
    State,
    /// An operation reached its terminal state.
    Terminal,
    /// Cleanup or degraded behavior that did not change the authoritative state.
    Warning,
    /// A target was delayed to preserve a scheduling invariant.
    TimingDeviation,
    /// Typed domain data such as an accepted report trace.
    Data,
    /// Replaceable diagnostic logging.
    Log,
    /// One or more subscription-local observations were dropped.
    Gap(EventGap),
}

/// Ordered severity filter for subscriptions.
#[derive(Clone, Copy, Debug, PartialEq, Eq, PartialOrd, Ord, Structural)]
pub enum Severity {
    /// Verbose diagnostics.
    Debug,
    /// Normal progress information.
    Info,
    /// Recoverable degradation.
    Warning,
    /// Operation or resource failure.
    Error,
}

/// Where a severity stands: debug below info below warning below error.
pub open spec fn severity_level(severity: Severity) -> int {
    match severity {
        Severity::Debug => 0,
        Severity::Info => 1,
        Severity::Warning => 2,
        Severity::Error => 3,
    }
}

impl Severity {
    /// Returns whether this severity is below `minimum`.
    pub fn is_below(self, minimum: Severity) -> (below: bool)
        ensures
            below == (severity_level(self) < severity_level(minimum)),
    {
        match (self, minimum) {
            (Severity::Debug, Severity::Debug) => false,
            (Severity::Debug, _) => true,
            (Severity::Info, Severity::Warning) => true,
            (Severity::Info, Severity::Error) => true,
            (Severity::Warning, Severity::Error) => true,
            _ => false,
        }
    }
}

/// Immutable event copied into each matching subscription.
#[derive(Debug)]
pub struct Event {
    /// Runtime-global monotonically increasing sequence.
    pub sequence: u64,
    /// Nanoseconds since the Runtime clock epoch.
    pub timestamp_ns: u64,
    /// Backpressure priority.
    pub class: EventClass,
    /// Stable category.
    pub kind: EventKind,
    /// Stable machine-readable event code.
    pub code: &'static str,
    /// Event severity.
    pub severity: Severity,
    /// Related operation when applicable.
    pub operation_id: Option<OperationId>,
    /// Related resource when applicable.
    pub resource_id: Option<ResourceId>,
    /// Human-readable or trace detail that is not used for machine branching.
    pub detail: Option<String>,
}

/// Copies an optional text.
pub(crate) fn copy_text(text: &Option<String>) -> (copy: Option<String>)
    ensures
        copy == *text,
{
    match text {
        Some(text) => Some(text.clone()),
        None => None,
    }
}

impl Clone for Event {
    fn clone(&self) -> (copy: Self)
        ensures
            copy == *self,
    {
        Event {
            sequence: self.sequence,
            timestamp_ns: self.timestamp_ns,
            class: self.class,
            kind: self.kind,
            code: self.code,
            severity: self.severity,
            operation_id: self.operation_id,
            resource_id: self.resource_id,
            detail: copy_text(&self.detail),
        }
    }
}

/// Event fields supplied by a Runtime domain before sequence and timestamp assignment.
#[derive(Debug)]
pub struct EventDraft {
    pub class: EventClass,
    pub kind: EventKind,
    pub code: &'static str,
    pub severity: Severity,
    pub operation_id: Option<OperationId>,
    pub resource_id: Option<ResourceId>,
    pub detail: Option<String>,
}

impl Clone for EventDraft {
    fn clone(&self) -> (copy: Self)
        ensures
            copy == *self,
    {
        EventDraft {
            class: self.class,
            kind: self.kind,
            code: self.code,
            severity: self.severity,
            operation_id: self.operation_id,
            resource_id: self.resource_id,
            detail: copy_text(&self.detail),
        }
    }
}

impl EventDraft {
    /// Creates an ordinary event.
    pub fn ordinary(kind: EventKind, code: &'static str, severity: Severity) -> (draft: Self)
        ensures
            draft == (EventDraft {
                class: EventClass::Ordinary,
                kind,
                code,
                severity,
                operation_id: None,
                resource_id: None,
                detail: None,
            }),
    {
        EventDraft {
            class: EventClass::Ordinary,
            kind,
            code,
            severity,
            operation_id: None,
            resource_id: None,
            detail: None,
        }
    }

    /// Creates a critical state, error, or terminal event.
    pub fn critical(kind: EventKind, code: &'static str, severity: Severity) -> (draft: Self)
        ensures
            draft == (EventDraft {
                class: EventClass::Critical,
                kind,
                code,
                severity,
                operation_id: None,
                resource_id: None,
                detail: None,
            }),
    {
        EventDraft {
            class: EventClass::Critical,
            kind,
            code,
            severity,
            operation_id: None,
            resource_id: None,
            detail: None,
        }
    }

    /// Associates an operation.
    pub fn with_operation(self, operation_id: OperationId) -> (draft: Self)
        ensures
            draft == (EventDraft { operation_id: Some(operation_id), ..self }),
    {
        let mut draft = self;
        draft.operation_id = Some(operation_id);
        draft
    }

    /// Associates a resource.
    pub fn with_resource(self, resource_id: ResourceId) -> (draft: Self)
        ensures
            draft == (EventDraft { resource_id: Some(resource_id), ..self }),
    {
        let mut draft = self;
        draft.resource_id = Some(resource_id);
        draft
    }

    /// Adds non-authoritative detail.
    pub fn with_detail(self, detail: String) -> (draft: Self)
        ensures
            draft == (EventDraft { detail: Some(detail), ..self }),
    {
        let mut draft = self;
        draft.detail = Some(detail);
        draft
    }
}

/// The event that a draft becomes.
pub open spec fn event_of(sequence: u64, timestamp_ns: u64, draft: EventDraft) -> Event {
    Event {
        sequence,
        timestamp_ns,
        class: draft.class,
        kind: draft.kind,
        code: draft.code,
        severity: draft.severity,
        operation_id: draft.operation_id,
        resource_id: draft.resource_id,
        detail: draft.detail,
    }
}

/// Per-subscriber queue and filter configuration.
#[derive(Clone, Copy, Debug, PartialEq, Eq, Structural)]
pub struct SubscriptionOptions {
    /// Maximum queued events, excluding synthesized gap summaries.
    pub capacity: usize,
    /// Minimum accepted severity. The final Runtime close event always bypasses this filter.
    pub minimum_severity: Severity,
    /// Whether replaceable log events are included.
    pub include_logs: bool,
}

impl Default for SubscriptionOptions {
    fn default() -> (options: Self)
        ensures
            options == (SubscriptionOptions {
                capacity: 64,
                minimum_severity: Severity::Debug,
                include_logs: true,
            }),
    {
        SubscriptionOptions { capacity: 64, minimum_severity: Severity::Debug, include_logs: true }
    }
}

/// Result of one pull from an event subscription.
#[derive(Debug)]
pub enum SubscriptionRead {
    /// An immutable event is available.
    Event(Event),
    /// The caller-side wait elapsed; the subscription remains open.
    Timeout,
    /// The Runtime closed and the queue has been drained.
    Closed,
}

/// Dropped events that stand at one place of a queue.
#[derive(Clone, Copy, Debug, PartialEq, Eq, Structural)]
pub struct PendingGap {
    pub first: u64,
    pub last: u64,
    pub count: u64,
    pub timestamp_ns: u64,
}

/// One place of a queue.
pub enum QueueEntry {
    Event(Event),
    Gap(PendingGap),
}

/// The gap that one dropped event leaves.
pub open spec fn gap_of(dropped: Event) -> PendingGap {
    PendingGap {
        first: dropped.sequence,
        last: dropped.sequence,
        count: 1,
        timestamp_ns: dropped.timestamp_ns,
    }
}

/// The union of two gaps.
pub open spec fn merged_gap(left: PendingGap, right: PendingGap) -> PendingGap {
    PendingGap {
        first: if left.first <= right.first {
            left.first
        } else {
            right.first
        },
        last: if left.last >= right.last {
            left.last
        } else {
            right.last
        },
        count: if left.count + right.count <= u64::MAX {
            (left.count + right.count) as u64
        } else {
            u64::MAX
        },
        timestamp_ns: if left.timestamp_ns >= right.timestamp_ns {
            left.timestamp_ns
        } else {
            right.timestamp_ns
        },
    }
}

/// Whether `event` is how a reader sees `gap`.
pub open spec fn shows_gap(event: Event, gap: PendingGap) -> bool {
    &&& event.sequence == gap.last
    &&& event.timestamp_ns == gap.timestamp_ns
    &&& event.class == EventClass::Critical
    &&& event.kind == EventKind::Gap(
        EventGap {
            first_sequence: gap.first,
            last_sequence: gap.last,
            dropped_count: gap.count,
        },
    )
    &&& event.code@ == "runtime.event_gap"@
    &&& event.severity == Severity::Warning
    &&& event.operation_id is None
    &&& event.resource_id is None
    &&& event.detail is None
}

impl PendingGap {
    /// Starts a gap with one dropped event.
    pub fn from_event(dropped: &Event) -> (gap: Self)
        ensures
            gap == gap_of(*dropped),
    {
        PendingGap {
            first: dropped.sequence,
            last: dropped.sequence,
            count: 1,
            timestamp_ns: dropped.timestamp_ns,
        }
    }

    /// Absorbs another gap.
    pub fn merge(&mut self, other: PendingGap)
        ensures
            *final(self) == merged_gap(*old(self), other),
    {
        if other.first < self.first {
            self.first = other.first;
        }
        if other.last > self.last {
            self.last = other.last;
        }
        self.count = self.count.saturating_add(other.count);
        if other.timestamp_ns > self.timestamp_ns {
            self.timestamp_ns = other.timestamp_ns;
        }
    }

    /// Shows the gap to a reader.
    pub fn into_event(self) -> (event: Event)
        ensures
            shows_gap(event, self),
    {
        Event {
            sequence: self.last,
            timestamp_ns: self.timestamp_ns,
            class: EventClass::Critical,
            kind: EventKind::Gap(
                EventGap {
                    first_sequence: self.first,
                    last_sequence: self.last,
                    dropped_count: self.count,
                },
            ),
            code: "runtime.event_gap",
            severity: Severity::Warning,
            operation_id: None,
            resource_id: None,
            detail: None,
        }
    }
}

/// How many places of a queue hold events.
pub open spec fn event_count(entries: Seq<QueueEntry>) -> nat
    decreases entries.len(),
{
    if entries.len() == 0 {
        0
    } else {
        event_count(entries.drop_last()) + if entries.last() is Event {
            1nat
        } else {
            0nat
        }
    }
}

/// Whether a place holds an ordinary event.
pub open spec fn is_ordinary(entry: QueueEntry) -> bool {
    entry matches QueueEntry::Event(event) && event.class == EventClass::Ordinary
}

/// The first place with an ordinary event; the length where there is none.
pub open spec fn first_ordinary(entries: Seq<QueueEntry>) -> nat
    decreases entries.len(),
{
    if entries.len() == 0 {
        0
    } else {
        let before = first_ordinary(entries.drop_last());
        if before < entries.len() - 1 || is_ordinary(entries.last()) {
            before
        } else {
            entries.len()
        }
    }
}

/// The first place with an event; the length where there is none.
pub open spec fn first_event(entries: Seq<QueueEntry>) -> nat
    decreases entries.len(),
{
    if entries.len() == 0 {
        0
    } else {
        let before = first_event(entries.drop_last());
        if before < entries.len() - 1 || entries.last() is Event {
            before
        } else {
            entries.len()
        }
    }
}

/// A queue after a gap was put in at `index`, joined with the gaps on either side.
pub open spec fn with_gap(entries: Seq<QueueEntry>, index: int, gap: PendingGap) -> Seq<
    QueueEntry,
> {
    let joins_left = index > 0 && entries[index - 1] is Gap;
    let joins_right = index < entries.len() && entries[index] is Gap;
    let left = if joins_left {
        merged_gap(gap, entries[index - 1]->Gap_0)
    } else {
        gap
    };
    let all = if joins_right {
        merged_gap(left, entries[index]->Gap_0)
    } else {
        left
    };
    entries.take(
        if joins_left {
            index - 1
        } else {
            index
        },
    ) + seq![QueueEntry::Gap(all)] + entries.skip(
        if joins_right {
            index + 1
        } else {
            index
        },
    )
}

/// A queue after the event at `index` was dropped.
pub open spec fn without_event(entries: Seq<QueueEntry>, index: int) -> Seq<QueueEntry> {
    with_gap(entries.remove(index), index, gap_of(entries[index]->Event_0))
}

/// A subscription's queue, as plain values.
#[verifier::ext_equal]
pub struct QueueModel {
    pub options: SubscriptionOptions,
    pub entries: Seq<QueueEntry>,
    pub closed: bool,
}

impl QueueModel {
    /// Whether the filter lets an event through.
    pub open spec fn wants(self, event: Event) -> bool {
        severity_level(event.severity) >= severity_level(self.options.minimum_severity) && (
        self.options.include_logs || event.kind != EventKind::Log)
    }

    /// The queue after an event that the filter does not concern: a full queue drops its oldest
    /// ordinary event; without one, a critical event displaces the oldest event and an ordinary
    /// event is itself dropped. Every drop is recorded where it happened.
    pub open spec fn accepting(self, event: Event) -> QueueModel {
        if self.closed {
            self
        } else if event_count(self.entries) < self.options.capacity {
            QueueModel { entries: self.entries.push(QueueEntry::Event(event)), ..self }
        } else if first_ordinary(self.entries) < self.entries.len() {
            QueueModel {
                entries: without_event(self.entries, first_ordinary(self.entries) as int).push(
                    QueueEntry::Event(event),
                ),
                ..self
            }
        } else if event.class == EventClass::Critical {
            QueueModel {
                entries: without_event(self.entries, first_event(self.entries) as int).push(
                    QueueEntry::Event(event),
                ),
                ..self
            }
        } else {
            QueueModel {
                entries: with_gap(self.entries, self.entries.len() as int, gap_of(event)),
                ..self
            }
        }
    }

    /// The queue after an event was published.
    pub open spec fn enqueued(self, event: Event) -> QueueModel {
        if self.wants(event) {
            self.accepting(event)
        } else {
            self
        }
    }

    /// What every queue satisfies: it holds no more events than its capacity, and no two gaps stand
    /// next to each other.
    pub open spec fn valid(self) -> bool {
        &&& self.options.capacity >= 1
        &&& event_count(self.entries) <= self.options.capacity
        &&& forall|i: int|
            #![trigger self.entries[i]]
            0 <= i < self.entries.len() - 1 && self.entries[i] is Gap ==> self.entries[i + 1]
                is Event
    }
}

proof fn lemma_first_ordinary(entries: Seq<QueueEntry>)
    ensures
        first_ordinary(entries) <= entries.len(),
        first_ordinary(entries) < entries.len() ==> is_ordinary(
            entries[first_ordinary(entries) as int],
        ),
        forall|i: int|
            0 <= i < first_ordinary(entries) ==> !is_ordinary(#[trigger] entries[i]),
    decreases entries.len(),
{
    if entries.len() > 0 {
        let rest = entries.drop_last();
        lemma_first_ordinary(rest);
        assert forall|i: int| 0 <= i < first_ordinary(entries) implies !is_ordinary(
            #[trigger] entries[i],
        ) by {
            if i < rest.len() {
                assert(rest[i] == entries[i]);
            }
        }
    }
}

proof fn lemma_first_event(entries: Seq<QueueEntry>)
    ensures
        first_event(entries) <= entries.len(),
        first_event(entries) < entries.len() ==> entries[first_event(entries) as int] is Event,
        forall|i: int| 0 <= i < first_event(entries) ==> (#[trigger] entries[i]) is Gap,
        event_count(entries) > 0 ==> first_event(entries) < entries.len(),
    decreases entries.len(),
{
    if entries.len() > 0 {
        let rest = entries.drop_last();
        lemma_first_event(rest);
        assert forall|i: int| 0 <= i < first_event(entries) implies (#[trigger] entries[i])
            is Gap by {
            if i < rest.len() {
                assert(rest[i] == entries[i]);
            }
        }
    }
}

proof fn lemma_event_count_concat(left: Seq<QueueEntry>, right: Seq<QueueEntry>)
    ensures
        event_count(left + right) == event_count(left) + event_count(right),
    decreases right.len(),
{
    if right.len() == 0 {
        assert(left + right =~= left);
    } else {
        assert((left + right).drop_last() =~= left + right.drop_last());
        assert((left + right).last() == right.last());
        lemma_event_count_concat(left, right.drop_last());
    }
}

proof fn lemma_event_count_one(entry: QueueEntry)
    ensures
        event_count(seq![entry]) == if entry is Event {
            1nat
        } else {
            0nat
        },
{
    reveal_with_fuel(event_count, 2);
    assert(seq![entry].drop_last().len() == 0);
}

proof fn lemma_event_count_split(entries: Seq<QueueEntry>, index: int)
    requires
        0 <= index < entries.len(),
    ensures
        event_count(entries) == event_count(entries.take(index)) + event_count(
            entries.skip(index + 1),
        ) + if entries[index] is Event {
            1nat
        } else {
            0nat
        },
{
    let head = entries.take(index);
    let one = seq![entries[index]];
    let tail = entries.skip(index + 1);
    assert(entries =~= head + one + tail);
    lemma_event_count_concat(head + one, tail);
    lemma_event_count_concat(head, one);
    lemma_event_count_one(entries[index]);
}

proof fn lemma_event_count_halves(entries: Seq<QueueEntry>, index: int)
    requires
        0 <= index <= entries.len(),
    ensures
        event_count(entries) == event_count(entries.take(index)) + event_count(
            entries.skip(index),
        ),
{
    assert(entries =~= entries.take(index) + entries.skip(index));
    lemma_event_count_concat(entries.take(index), entries.skip(index));
}

proof fn lemma_gap_keeps_event_count(entries: Seq<QueueEntry>, index: int, gap: PendingGap)
    requires
        0 <= index <= entries.len(),
    ensures
        event_count(with_gap(entries, index, gap)) == event_count(entries),
{
    let joins_left = index > 0 && entries[index - 1] is Gap;
    let joins_right = index < entries.len() && entries[index] is Gap;
    let from = if joins_left {
        index - 1
    } else {
        index
    };
    let to = if joins_right {
        index + 1
    } else {
        index
    };
    let head = entries.take(from);
    let tail = entries.skip(to);
    let all = with_gap(entries, index, gap);
    let middle = seq![all[from]];
    assert(all =~= head + middle + tail);
    lemma_event_count_concat(head + middle, tail);
    lemma_event_count_concat(head, middle);
    lemma_event_count_one(all[from]);
    lemma_event_count_halves(entries, index);
    if joins_left {
        assert(entries.take(index).drop_last() =~= head);
        assert(entries.take(index).last() == entries[index - 1]);
    }
    if joins_right {
        lemma_event_count_split(entries.skip(index), 0);
        assert(entries.skip(index).take(0) =~= seq![]);
        assert(entries.skip(index).skip(1) =~= tail);
        assert(entries.skip(index)[0] == entries[index]);
    }
}

/// Whether no two gaps stand next to each other.
pub open spec fn gaps_apart(entries: Seq<QueueEntry>) -> bool {
    forall|i: int|
        #![trigger entries[i]]
        0 <= i < entries.len() - 1 && entries[i] is Gap ==> entries[i + 1] is Event
}

proof fn lemma_gap_stays_apart(entries: Seq<QueueEntry>, index: int, gap: PendingGap)
    requires
        0 <= index <= entries.len(),
        forall|i: int|
            #![trigger entries[i]]
            0 <= i < entries.len() - 1 && entries[i] is Gap ==> entries[i + 1] is Event || i + 1
                == index,
    ensures
        gaps_apart(with_gap(entries, index, gap)),
{
    let joins_left = index > 0 && entries[index - 1] is Gap;
    let joins_right = index < entries.len() && entries[index] is Gap;
    let from = if joins_left {
        index - 1
    } else {
        index
    };
    let to = if joins_right {
        index + 1
    } else {
        index
    };
    let all = with_gap(entries, index, gap);
    assert forall|i: int| #![trigger all[i]]
        0 <= i < all.len() - 1 && all[i] is Gap implies all[i + 1] is Event by {
        if i < from {
            assert(all[i] == entries[i]);
            if i + 1 < from {
                assert(all[i + 1] == entries[i + 1]);
            } else {
                // The place before the gap would be a gap that the new one should have joined.
                assert(i + 1 == from);
                if joins_left {
                    assert(entries[i + 1] is Gap);
                }
                assert(false);
            }
        } else if i == from {
            assert(all[i + 1] == entries[to]);
            if joins_right {
                assert(entries[index] is Gap);
            }
        } else {
            assert(all[i] == entries[to + (i - from - 1)]);
            assert(all[i + 1] == entries[to + (i - from - 1) + 1]);
        }
    }
}

/// One subscription: its filter and its bounded queue.
pub struct SubscriptionInner {
    options: SubscriptionOptions,
    entries: Vec<QueueEntry>,
    event_count: usize,
    closed: bool,
}

impl View for SubscriptionInner {
    type V = QueueModel;

    closed spec fn view(&self) -> QueueModel {
        QueueModel { options: self.options, entries: self.entries@, closed: self.closed }
    }
}

impl SubscriptionInner {
    /// Whether the queue is valid and its event counter is right.
    pub closed spec fn counted(&self) -> bool {
        self@.valid() && self.event_count == event_count(self.entries@)
    }

    /// The subscription's invariant.
    pub open spec fn valid(&self) -> bool {
        self@.valid() && self.counted()
    }

    /// Creates an open, empty subscription.
    pub fn new(options: SubscriptionOptions) -> (subscription: Self)
        requires
            options.capacity >= 1,
        ensures
            subscription.valid(),
            subscription@ == (QueueModel { options, entries: seq![], closed: false }),
    {
        let subscription = SubscriptionInner {
            options,
            entries: Vec::new(),
            event_count: 0,
            closed: false,
        };
        assert(subscription@ =~= QueueModel { options, entries: seq![], closed: false });
        subscription
    }

    /// Offers a published event; the filter may refuse it.
    pub fn enqueue(&mut self, event: Event)
        requires
            old(self).valid(),
        ensures
            final(self).valid(),
            final(self)@ == old(self)@.enqueued(event),
    {
        if event.severity.is_below(self.options.minimum_severity) || (!self.options.include_logs
            && event.kind == EventKind::Log) {
            return;
        }
        self.enqueue_accepted(event);
    }

    /// Offers the final event; the filter does not apply.
    pub fn enqueue_final(&mut self, event: Event)
        requires
            old(self).valid(),
        ensures
            final(self).valid(),
            final(self)@ == old(self)@.accepting(event),
    {
        self.enqueue_accepted(event);
    }

    fn find_ordinary(&self) -> (index: usize)
        ensures
            index == first_ordinary(self@.entries),
    {
        let ghost all = self.entries@;
        proof {
            lemma_first_ordinary(all);
        }
        let mut k: usize = 0;
        while k < self.entries.len()
            invariant
                k <= self.entries.len(),
                all == self.entries@,
                first_ordinary(all) <= all.len(),
                first_ordinary(all) < all.len() ==> is_ordinary(all[first_ordinary(all) as int]),
                forall|i: int| 0 <= i < first_ordinary(all) ==> !is_ordinary(#[trigger] all[i]),
                forall|i: int| 0 <= i < k ==> !is_ordinary(#[trigger] all[i]),
            decreases self.entries.len() - k,
        {
            let ordinary: bool = match &self.entries[k] {
                QueueEntry::Event(event) => event.class == EventClass::Ordinary,
                QueueEntry::Gap(_) => false,
            };
            if ordinary {
                assert(is_ordinary(all[k as int]));
                return k;
            }
            k += 1;
        }
        k
    }

    fn find_event(&self) -> (index: usize)
        ensures
            index == first_event(self@.entries),
    {
        let ghost all = self.entries@;
        proof {
            lemma_first_event(all);
        }
        let mut k: usize = 0;
        while k < self.entries.len()
            invariant
                k <= self.entries.len(),
                all == self.entries@,
                first_event(all) <= all.len(),
                first_event(all) < all.len() ==> all[first_event(all) as int] is Event,
                forall|i: int| 0 <= i < first_event(all) ==> (#[trigger] all[i]) is Gap,
                forall|i: int| 0 <= i < k ==> (#[trigger] all[i]) is Gap,
            decreases self.entries.len() - k,
        {
            let concrete: bool = match &self.entries[k] {
                QueueEntry::Event(_) => true,
                QueueEntry::Gap(_) => false,
            };
            if concrete {
                assert(all[k as int] is Event);
                return k;
            }
            k += 1;
        }
        k
    }

    /// Adds an event that the filter let through, with the overflow policy of a full queue.
    pub fn enqueue_accepted(&mut self, event: Event)
        requires
            old(self).valid(),
        ensures
            final(self).valid(),
            final(self)@ == old(self)@.accepting(event),
    {
        let ghost before = self@;
        if self.closed {
            return;
        }
        if self.event_count < self.options.capacity {
            self.push_event(event);
            assert(self@ =~= before.accepting(event));
            return;
        }
        proof {
            lemma_first_ordinary(before.entries);
            lemma_first_event(before.entries);
        }
        let ordinary: usize = self.find_ordinary();
        if ordinary < self.entries.len() {
            self.drop_event_at(ordinary);
            self.push_event(event);
        } else if event.class == EventClass::Critical {
            let index: usize = self.find_event();
            self.drop_event_at(index);
            self.push_event(event);
        } else {
            let index: usize = self.entries.len();
            self.record_gap_at(index, &event);
        }
        assert(self@ =~= before.accepting(event));
    }

    fn push_event(&mut self, event: Event)
        requires
            old(self).valid(),
            event_count(old(self)@.entries) < old(self)@.options.capacity,
        ensures
            final(self).valid(),
            final(self)@ == (QueueModel {
                entries: old(self)@.entries.push(QueueEntry::Event(event)),
                ..old(self)@
            }),
    {
        let ghost before = self@;
        self.entries.push(QueueEntry::Event(event));
        self.event_count = self.event_count + 1;
        proof {
            let after = self.entries@;
            assert(after.drop_last() =~= before.entries);
            assert forall|i: int| #![trigger after[i]]
                0 <= i < after.len() - 1 && after[i] is Gap implies after[i + 1] is Event by {
                assert(before.entries[i] == after[i]);
                if i + 1 < before.entries.len() {
                    assert(before.entries[i + 1] == after[i + 1]);
                }
            }
        }
    }

    fn drop_event_at(&mut self, index: usize)
        requires
            old(self).valid(),
            index < old(self)@.entries.len(),
            old(self)@.entries[index as int] is Event,
        ensures
            final(self).valid(),
            event_count(final(self)@.entries) == event_count(old(self)@.entries) - 1,
            final(self)@ == (QueueModel {
                entries: without_event(old(self)@.entries, index as int),
                ..old(self)@
            }),
    {
        let ghost before = self@;
        let ghost rest = before.entries.remove(index as int);
        let dropped = self.entries.remove(index);
        proof {
            lemma_event_count_split(before.entries, index as int);
            lemma_event_count_halves(rest, index as int);
            assert(rest.take(index as int) =~= before.entries.take(index as int));
            assert(rest.skip(index as int) =~= before.entries.skip(index + 1));
            assert forall|i: int| #![trigger rest[i]]
                0 <= i < rest.len() - 1 && rest[i] is Gap implies rest[i + 1] is Event || i + 1
                == index by {
                if i + 1 < index {
                    assert(rest[i] == before.entries[i]);
                    assert(rest[i + 1] == before.entries[i + 1]);
                } else if i >= index {
                    assert(rest[i] == before.entries[i + 1]);
                    assert(rest[i + 1] == before.entries[i + 2]);
                }
            }
        }
        self.event_count = self.event_count - 1;
        if let QueueEntry::Event(dropped) = dropped {
            proof {
                lemma_gap_keeps_event_count(rest, index as int, gap_of(dropped));
                lemma_gap_stays_apart(rest, index as int, gap_of(dropped));
            }
            Self::put_gap(&mut self.entries, index, &dropped);
            assert(self@ =~= QueueModel {
                entries: without_event(before.entries, index as int),
                ..before
            });
        }
    }

    fn record_gap_at(&mut self, index: usize, dropped: &Event)
        requires
            old(self).valid(),
            index <= old(self)@.entries.len(),
        ensures
            final(self).valid(),
            final(self)@ == (QueueModel {
                entries: with_gap(old(self)@.entries, index as int, gap_of(*dropped)),
                ..old(self)@
            }),
    {
        let ghost before = self@;
        proof {
            lemma_gap_keeps_event_count(before.entries, index as int, gap_of(*dropped));
            lemma_gap_stays_apart(before.entries, index as int, gap_of(*dropped));
        }
        Self::put_gap(&mut self.entries, index, dropped);
    }

    fn put_gap(entries: &mut Vec<QueueEntry>, index: usize, dropped: &Event)
        requires
            index <= old(entries)@.len(),
        ensures
            final(entries)@ == with_gap(old(entries)@, index as int, gap_of(*dropped)),
    {
        let ghost before = entries@;
        let mut gap = PendingGap::from_event(dropped);
        let mut place: usize = index;
        if index > 0 {
            let previous: Option<PendingGap> = match &entries[index - 1] {
                QueueEntry::Gap(previous) => Some(*previous),
                QueueEntry::Event(_) => None,
            };
            if let Some(previous) = previous {
                let _ = entries.remove(index - 1);
                gap.merge(previous);
                place = index - 1;
            }
        }
        if place < entries.len() {
            let next: Option<PendingGap> = match &entries[place] {
                QueueEntry::Gap(next) => Some(*next),
                QueueEntry::Event(_) => None,
            };
            if let Some(next) = next {
                let _ = entries.remove(place);
                gap.merge(next);
            }
        }
        entries.insert(place, QueueEntry::Gap(gap));
        assert(entries@ =~= with_gap(before, index as int, gap_of(*dropped)));
    }

    /// Looks once for the next event on behalf of a call that waits at most `wait`.
    pub fn read(&mut self, wait: WaitTimeout, elapsed_ns: u128, timed_out: bool) -> (look: Look<
        SubscriptionRead,
    >)
        requires
            old(self).valid(),
        ensures
            final(self).valid(),
            read_from(old(self)@, wait, elapsed_ns, timed_out, look, final(self)@),
    {
        let ghost before = self@;
        if self.entries.len() > 0 {
            let entry = self.entries.remove(0);
            proof {
                assert(entry == before.entries[0]);
                assert(self.entries@ =~= before.entries.skip(1));
                lemma_event_count_split(before.entries, 0);
                assert(before.entries.take(0) =~= seq![]);
                let after = self.entries@;
                assert forall|i: int| #![trigger after[i]]
                    0 <= i < after.len() - 1 && after[i] is Gap implies after[i + 1] is Event by {
                    assert(after[i] == before.entries[i + 1]);
                    assert(after[i + 1] == before.entries[i + 2]);
                }
            }
            match entry {
                QueueEntry::Event(event) => {
                    self.event_count = self.event_count - 1;
                    Look::Done(SubscriptionRead::Event(event))
                },
                QueueEntry::Gap(gap) => Look::Done(SubscriptionRead::Event(gap.into_event())),
            }
        } else if timed_out {
            Look::Done(SubscriptionRead::Timeout)
        } else if self.closed {
            Look::Done(SubscriptionRead::Closed)
        } else {
            look_again(wait, elapsed_ns, false, SubscriptionRead::Timeout)
        }
    }

    /// Refuses every later event; what is queued can still be read.
    pub fn close(&mut self)
        requires
            old(self).valid(),
        ensures
            final(self).valid(),
            final(self)@ == (QueueModel { closed: true, ..old(self)@ }),
    {
        self.closed = true;
    }

    /// Returns the number of queued concrete events, excluding gap summaries.
    pub fn queued_len(&self) -> (len: usize)
        requires
            self.valid(),
        ensures
            len == event_count(self@.entries),
    {
        self.event_count
    }
}

/// Whether `look` and `after` are what one look for the next event gives: the front of the queue
/// leaves it; an empty queue reports that the wait ran out, that it is closed, or that the caller
/// has to wait.
pub open spec fn read_from(
    before: QueueModel,
    wait: WaitTimeout,
    elapsed_ns: u128,
    timed_out: bool,
    look: Look<SubscriptionRead>,
    after: QueueModel,
) -> bool {
    if before.entries.len() > 0 {
        &&& after == (QueueModel { entries: before.entries.skip(1), ..before })
        &&& look matches Look::Done(SubscriptionRead::Event(event)) && match before.entries[0] {
            QueueEntry::Event(queued) => event == queued,
            QueueEntry::Gap(gap) => shows_gap(event, gap),
        }
    } else {
        &&& after == before
        &&& if timed_out {
            look == Look::Done(SubscriptionRead::Timeout)
        } else if before.closed {
            look == Look::Done(SubscriptionRead::Closed)
        } else {
            look == idle_look(wait, elapsed_ns, false, SubscriptionRead::Timeout)
        }
    }
}

/// How many published events a queue accounts for: queued ones, and dropped ones in its gaps.
pub open spec fn accounted(entries: Seq<QueueEntry>) -> nat
    decreases entries.len(),
{
    if entries.len() == 0 {
        0
    } else {
        accounted(entries.drop_last()) + entry_weight(entries.last())
    }
}

/// How many published events one place accounts for.
pub open spec fn entry_weight(entry: QueueEntry) -> nat {
    match entry {
        QueueEntry::Event(_) => 1,
        QueueEntry::Gap(gap) => gap.count as nat,
    }
}

/// The first sequence that a place accounts for.
pub open spec fn entry_first(entry: QueueEntry) -> u64 {
    match entry {
        QueueEntry::Event(event) => event.sequence,
        QueueEntry::Gap(gap) => gap.first,
    }
}

/// The last sequence that a place accounts for.
pub open spec fn entry_last(entry: QueueEntry) -> u64 {
    match entry {
        QueueEntry::Event(event) => event.sequence,
        QueueEntry::Gap(gap) => gap.last,
    }
}

/// Whether a queue shows its reader strictly increasing sequences.
pub open spec fn in_sequence(entries: Seq<QueueEntry>) -> bool {
    &&& forall|i: int|
        0 <= i < entries.len() ==> entry_first(#[trigger] entries[i]) <= entry_last(entries[i])
    &&& forall|i: int, j: int|
        #![trigger entries[i], entries[j]]
        0 <= i < j < entries.len() ==> entry_last(entries[i]) < entry_first(entries[j])
}

proof fn lemma_accounted_concat(left: Seq<QueueEntry>, right: Seq<QueueEntry>)
    ensures
        accounted(left + right) == accounted(left) + accounted(right),
    decreases right.len(),
{
    if right.len() == 0 {
        assert(left + right =~= left);
    } else {
        assert((left + right).drop_last() =~= left + right.drop_last());
        assert((left + right).last() == right.last());
        lemma_accounted_concat(left, right.drop_last());
    }
}

proof fn lemma_accounted_one(entry: QueueEntry)
    ensures
        accounted(seq![entry]) == entry_weight(entry),
{
    reveal_with_fuel(accounted, 2);
    assert(seq![entry].drop_last().len() == 0);
}

proof fn lemma_accounted_split(entries: Seq<QueueEntry>, index: int)
    requires
        0 <= index < entries.len(),
    ensures
        accounted(entries) == accounted(entries.take(index)) + accounted(entries.skip(index + 1))
            + entry_weight(entries[index]),
{
    let head = entries.take(index);
    let one = seq![entries[index]];
    let tail = entries.skip(index + 1);
    assert(entries =~= head + one + tail);
    lemma_accounted_concat(head + one, tail);
    lemma_accounted_concat(head, one);
    lemma_accounted_one(entries[index]);
}

proof fn lemma_gap_is_accounted(entries: Seq<QueueEntry>, index: int, gap: PendingGap)
    requires
        0 <= index <= entries.len(),
        accounted(entries) + gap.count <= u64::MAX,
    ensures
        accounted(with_gap(entries, index, gap)) == accounted(entries) + gap.count,
{
    let joins_left = index > 0 && entries[index - 1] is Gap;
    let joins_right = index < entries.len() && entries[index] is Gap;
    let from = if joins_left {
        index - 1
    } else {
        index
    };
    let to = if joins_right {
        index + 1
    } else {
        index
    };
    let head = entries.take(from);
    let tail = entries.skip(to);
    let all = with_gap(entries, index, gap);
    let middle = seq![all[from]];
    assert(all =~= head + middle + tail);
    lemma_accounted_concat(head + middle, tail);
    lemma_accounted_concat(head, middle);
    lemma_accounted_one(all[from]);
    let low = entries.take(index);
    let high = entries.skip(index);
    assert(entries =~= low + high);
    lemma_accounted_concat(low, high);
    if joins_left {
        assert(low.drop_last() =~= head);
        assert(low.last() == entries[index - 1]);
    }
    if joins_right {
        lemma_accounted_split(high, 0);
        assert(high.take(0) =~= seq![]);
        assert(high.skip(1) =~= tail);
        assert(high[0] == entries[index]);
    }
}

/// Whether a queue accounts only for sequences below `bound`.
pub open spec fn all_below(entries: Seq<QueueEntry>, bound: u64) -> bool {
    forall|i: int| 0 <= i < entries.len() ==> entry_last(#[trigger] entries[i]) < bound
}

proof fn lemma_gap_keeps_sequence(
    entries: Seq<QueueEntry>,
    index: int,
    gap: PendingGap,
    bound: u64,
)
    requires
        0 <= index <= entries.len(),
        in_sequence(entries),
        gap.first <= gap.last,
        forall|i: int| 0 <= i < index ==> entry_last(#[trigger] entries[i]) < gap.first,
        forall|i: int|
            index <= i < entries.len() ==> gap.last < entry_first(#[trigger] entries[i]),
    ensures
        in_sequence(with_gap(entries, index, gap)),
        gap.last < bound && all_below(entries, bound) ==> all_below(
            with_gap(entries, index, gap),
            bound,
        ),
{
    let joins_left = index > 0 && entries[index - 1] is Gap;
    let joins_right = index < entries.len() && entries[index] is Gap;
    let from = if joins_left {
        index - 1
    } else {
        index
    };
    let to = if joins_right {
        index + 1
    } else {
        index
    };
    let all = with_gap(entries, index, gap);
    if joins_left {
        assert(entry_last(entries[index - 1]) < gap.first);
    }
    if joins_right {
        assert(gap.last < entry_first(entries[index]));
    }
    assert(entry_first(all[from]) == if joins_left {
        entry_first(entries[index - 1])
    } else {
        gap.first
    });
    assert(entry_last(all[from]) == if joins_right {
        entry_last(entries[index])
    } else {
        gap.last
    });
    assert forall|i: int, j: int| #![trigger all[i], all[j]]
        0 <= i < j < all.len() implies entry_last(all[i]) < entry_first(all[j]) by {
        if j < from {
            assert(all[i] == entries[i] && all[j] == entries[j]);
        } else if j == from {
            assert(all[i] == entries[i]);
            if joins_left {
                assert(entry_last(entries[i]) < entry_first(entries[index - 1]));
            }
        } else {
            let right = to + (j - from - 1);
            assert(all[j] == entries[right]);
            if i < from {
                assert(all[i] == entries[i]);
                assert(entry_last(entries[i]) < entry_first(entries[right]));
            } else if i == from {
                if joins_right {
                    assert(entry_last(entries[index]) < entry_first(entries[right]));
                }
            } else {
                assert(all[i] == entries[to + (i - from - 1)]);
            }
        }
    }
    assert forall|i: int| 0 <= i < all.len() implies entry_first(#[trigger] all[i]) <= entry_last(
        all[i],
    ) by {
        if i < from {
            assert(all[i] == entries[i]);
        } else if i > from {
            assert(all[i] == entries[to + (i - from - 1)]);
        }
    }
    if gap.last < bound && all_below(entries, bound) {
        assert forall|i: int| 0 <= i < all.len() implies entry_last(#[trigger] all[i]) < bound by {
            if i < from {
                assert(all[i] == entries[i]);
            } else if i > from {
                assert(all[i] == entries[to + (i - from - 1)]);
            } else if joins_right {
                assert(entry_last(entries[index]) < bound);
            }
        }
    }
}

/// An open queue with a valid state takes every critical event, and it is the last one it shows.
pub proof fn law_critical_event_is_always_queued(queue: QueueModel, event: Event)
    requires
        queue.valid(),
        !queue.closed,
        event.class == EventClass::Critical,
    ensures
        queue.accepting(event).entries.len() > 0,
        queue.accepting(event).entries.last() == QueueEntry::Event(event),
{
}

/// A queue never exceeds its capacity and never shows two gaps in a row, whatever is offered.
pub proof fn law_queue_stays_bounded(queue: QueueModel, event: Event)
    requires
        queue.valid(),
    ensures
        queue.accepting(event).valid(),
        queue.enqueued(event).valid(),
        event_count(queue.accepting(event).entries) <= queue.options.capacity,
{
    let entries = queue.entries;
    if !queue.closed {
        lemma_first_ordinary(entries);
        lemma_first_event(entries);
        if event_count(entries) < queue.options.capacity {
            lemma_push_keeps_queue(entries, event);
        } else if first_ordinary(entries) < entries.len() {
            lemma_drop_keeps_queue(entries, first_ordinary(entries) as int);
            lemma_push_keeps_queue(
                without_event(entries, first_ordinary(entries) as int),
                event,
            );
        } else if event.class == EventClass::Critical {
            lemma_drop_keeps_queue(entries, first_event(entries) as int);
            lemma_push_keeps_queue(without_event(entries, first_event(entries) as int), event);
        } else {
            lemma_gap_keeps_event_count(entries, entries.len() as int, gap_of(event));
            lemma_gap_stays_apart(entries, entries.len() as int, gap_of(event));
        }
    }
}

proof fn lemma_push_keeps_queue(entries: Seq<QueueEntry>, event: Event)
    requires
        gaps_apart(entries),
    ensures
        gaps_apart(entries.push(QueueEntry::Event(event))),
        event_count(entries.push(QueueEntry::Event(event))) == event_count(entries) + 1,
{
    let after = entries.push(QueueEntry::Event(event));
    assert(after.drop_last() =~= entries);
    assert forall|i: int| #![trigger after[i]]
        0 <= i < after.len() - 1 && after[i] is Gap implies after[i + 1] is Event by {
        assert(entries[i] == after[i]);
        if i + 1 < entries.len() {
            assert(entries[i + 1] == after[i + 1]);
        }
    }
}

proof fn lemma_drop_keeps_queue(entries: Seq<QueueEntry>, index: int)
    requires
        gaps_apart(entries),
        0 <= index < entries.len(),
        entries[index] is Event,
    ensures
        gaps_apart(without_event(entries, index)),
        event_count(without_event(entries, index)) == event_count(entries) - 1,
{
    let rest = entries.remove(index);
    let gap = gap_of(entries[index]->Event_0);
    lemma_event_count_split(entries, index);
    lemma_event_count_halves(rest, index);
    assert(rest.take(index) =~= entries.take(index));
    assert(rest.skip(index) =~= entries.skip(index + 1));
    assert forall|i: int| #![trigger rest[i]]
        0 <= i < rest.len() - 1 && rest[i] is Gap implies rest[i + 1] is Event || i + 1
        == index by {
        if i + 1 < index {
            assert(rest[i] == entries[i]);
            assert(rest[i + 1] == entries[i + 1]);
        } else if i >= index {
            assert(rest[i] == entries[i + 1]);
            assert(rest[i + 1] == entries[i + 2]);
        }
    }
    lemma_gap_keeps_event_count(rest, index, gap);
    lemma_gap_stays_apart(rest, index, gap);
}

/// Nothing is lost silently: an open queue accounts for every event that passed its filter, as a
/// queued event or in the count of a gap.
pub proof fn law_every_event_is_accounted_for(queue: QueueModel, event: Event)
    requires
        queue.valid(),
        !queue.closed,
        accounted(queue.entries) < u64::MAX,
    ensures
        accounted(queue.accepting(event).entries) == accounted(queue.entries) + 1,
{
    let entries = queue.entries;
    lemma_first_ordinary(entries);
    lemma_first_event(entries);
    if event_count(entries) < queue.options.capacity {
        assert(entries.push(QueueEntry::Event(event)).drop_last() =~= entries);
    } else if first_ordinary(entries) < entries.len() {
        lemma_drop_is_accounted(entries, first_ordinary(entries) as int);
        let after = without_event(entries, first_ordinary(entries) as int);
        assert(after.push(QueueEntry::Event(event)).drop_last() =~= after);
    } else if event.class == EventClass::Critical {
        lemma_drop_is_accounted(entries, first_event(entries) as int);
        let after = without_event(entries, first_event(entries) as int);
        assert(after.push(QueueEntry::Event(event)).drop_last() =~= after);
    } else {
        lemma_gap_is_accounted(entries, entries.len() as int, gap_of(event));
    }
}

proof fn lemma_drop_is_accounted(entries: Seq<QueueEntry>, index: int)
    requires
        0 <= index < entries.len(),
        entries[index] is Event,
        accounted(entries) <= u64::MAX,
    ensures
        accounted(without_event(entries, index)) == accounted(entries),
{
    let rest = entries.remove(index);
    lemma_accounted_split(entries, index);
    assert(rest =~= entries.take(index) + entries.skip(index + 1));
    lemma_accounted_concat(entries.take(index), entries.skip(index + 1));
    lemma_gap_is_accounted(rest, index, gap_of(entries[index]->Event_0));
}

/// Readers see strictly increasing sequences: a gap stands where its events were, between what
/// precedes and what follows them.
pub proof fn law_queue_keeps_sequence_order(queue: QueueModel, event: Event)
    requires
        queue.valid(),
        in_sequence(queue.entries),
        all_below(queue.entries, event.sequence),
    ensures
        in_sequence(queue.accepting(event).entries),
{
    let entries = queue.entries;
    if !queue.closed {
        lemma_first_ordinary(entries);
        lemma_first_event(entries);
        if event_count(entries) < queue.options.capacity {
            lemma_push_keeps_sequence(entries, event);
        } else if first_ordinary(entries) < entries.len() {
            lemma_drop_keeps_sequence(entries, first_ordinary(entries) as int, event.sequence);
            lemma_push_keeps_sequence(
                without_event(entries, first_ordinary(entries) as int),
                event,
            );
        } else if event.class == EventClass::Critical {
            lemma_drop_keeps_sequence(entries, first_event(entries) as int, event.sequence);
            lemma_push_keeps_sequence(without_event(entries, first_event(entries) as int), event);
        } else {
            lemma_gap_keeps_sequence(
                entries,
                entries.len() as int,
                gap_of(event),
                event.sequence,
            );
        }
    }
}

proof fn lemma_push_keeps_sequence(entries: Seq<QueueEntry>, event: Event)
    requires
        in_sequence(entries),
        all_below(entries, event.sequence),
    ensures
        in_sequence(entries.push(QueueEntry::Event(event))),
{
}

proof fn lemma_drop_keeps_sequence(entries: Seq<QueueEntry>, index: int, bound: u64)
    requires
        in_sequence(entries),
        0 <= index < entries.len(),
        entries[index] is Event,
        all_below(entries, bound),
    ensures
        in_sequence(without_event(entries, index)),
        all_below(without_event(entries, index), bound),
{
    let rest = entries.remove(index);
    let gap = gap_of(entries[index]->Event_0);
    assert forall|i: int| 0 <= i < index implies entry_last(#[trigger] rest[i]) < gap.first by {
        assert(rest[i] == entries[i]);
        assert(entry_last(entries[i]) < entry_first(entries[index]));
    }
    assert forall|i: int| index <= i < rest.len() implies gap.last < entry_first(
        #[trigger] rest[i],
    ) by {
        assert(rest[i] == entries[i + 1]);
        assert(entry_last(entries[index]) < entry_first(entries[i + 1]));
    }
    assert forall|i: int, j: int| #![trigger rest[i], rest[j]]
        0 <= i < j < rest.len() implies entry_last(rest[i]) < entry_first(rest[j]) by {
        let left = if i < index {
            i
        } else {
            i + 1
        };
        let right = if j < index {
            j
        } else {
            j + 1
        };
        assert(entry_last(entries[left]) < entry_first(entries[right]));
    }
    assert forall|i: int| 0 <= i < rest.len() implies entry_first(#[trigger] rest[i]) <= entry_last(
        rest[i],
    ) && entry_last(rest[i]) < bound by {
        let left = if i < index {
            i
        } else {
            i + 1
        };
        assert(rest[i] == entries[left]);
    }
    lemma_gap_keeps_sequence(rest, index, gap, bound);
}

/// A queued critical event is dropped only for another critical one, with no ordinary event queued
/// in a full queue, and then only the oldest event.
pub proof fn law_ordinary_events_are_dropped_first(
    queue: QueueModel,
    event: Event,
    kept: Event,
    place: int,
)
    requires
        queue.valid(),
        !queue.closed,
        0 <= place < queue.entries.len(),
        queue.entries[place] == QueueEntry::Event(kept),
        kept.class == EventClass::Critical,
        first_ordinary(queue.entries) < queue.entries.len() || event.class == EventClass::Ordinary
            || event_count(queue.entries) < queue.options.capacity || place != first_event(
            queue.entries,
        ),
    ensures
        queue.accepting(event).entries.contains(QueueEntry::Event(kept)),
{
    let entries = queue.entries;
    let after = queue.accepting(event).entries;
    lemma_first_ordinary(entries);
    if event_count(entries) < queue.options.capacity {
        assert(after[place] == entries[place]);
    } else if first_ordinary(entries) < entries.len() {
        let index = first_ordinary(entries) as int;
        let rest = entries.remove(index);
        let moved = if place < index {
            place
        } else {
            place - 1
        };
        assert(rest[moved] == entries[place]);
        let gap = gap_of(entries[index]->Event_0);
        lemma_gap_keeps_events(rest, index, gap, moved);
        let joined = with_gap(rest, index, gap);
        let at = choose|at: int| 0 <= at < joined.len() && joined[at] == rest[moved];
        assert(after[at] == entries[place]);
    } else if event.class == EventClass::Critical {
        lemma_first_event(entries);
        let index = first_event(entries) as int;
        let rest = entries.remove(index);
        let moved = if place < index {
            place
        } else {
            place - 1
        };
        assert(rest[moved] == entries[place]);
        let gap = gap_of(entries[index]->Event_0);
        lemma_gap_keeps_events(rest, index, gap, moved);
        let joined = with_gap(rest, index, gap);
        let at = choose|at: int| 0 <= at < joined.len() && joined[at] == rest[moved];
        assert(after[at] == entries[place]);
    } else {
        lemma_gap_keeps_events(entries, entries.len() as int, gap_of(event), place);
    }
}

proof fn lemma_gap_keeps_events(
    entries: Seq<QueueEntry>,
    index: int,
    gap: PendingGap,
    place: int,
)
    requires
        0 <= index <= entries.len(),
        0 <= place < entries.len(),
        entries[place] is Event,
    ensures
        with_gap(entries, index, gap).contains(entries[place]),
{
    let joins_left = index > 0 && entries[index - 1] is Gap;
    let joins_right = index < entries.len() && entries[index] is Gap;
    let from = if joins_left {
        index - 1
    } else {
        index
    };
    let to = if joins_right {
        index + 1
    } else {
        index
    };
    let all = with_gap(entries, index, gap);
    if place < from {
        assert(all[place] == entries[place]);
    } else {
        assert(place >= to);
        assert(all[from + 1 + (place - to)] == entries[place]);
    }
}

} // verus!
