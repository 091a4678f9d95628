//! Unified event ingress. The kernel does not care how events are produced
//! (voice, sensor, timer, API) -- business code enqueues them here. Priority
//! assignment is business policy; the queue merely honors the number.

use crate::json;
use crate::json::{Json, ObjectWriter};
use crate::record;
use crate::text;
use crate::text::Text;
use vstd::prelude::*;

verus! {

#[derive(Debug)]
pub struct Event {
    /// Free-form event kind, e.g. "command", "signal".
    pub kind: String,
    pub payload: Json,
    /// Higher runs first. Equal priorities run FIFO.
    pub priority: u8,
    pub source: String,
}

/// An event as the contracts see it.
pub struct EventModel {
    pub kind: Text,
    pub payload: Text,
    pub priority: u8,
    pub source: Text,
}

impl View for Event {
    type V = EventModel;

    open spec fn view(&self) -> EventModel {
        EventModel {
            kind: self.kind@,
            payload: self.payload@,
            priority: self.priority,
            source: self.source@,
        }
    }
}

impl Clone for Event {
    fn clone(&self) -> (r: Self)
        ensures
            r@ == self@,
    {
        Event {
            kind: self.kind.clone(),
            payload: self.payload.clone(),
            priority: self.priority,
            source: self.source.clone(),
        }
    }
}

/// The members of the event as a JSON object.
pub open spec fn event_members(e: EventModel) -> Seq<(Text, Text)> {
    seq![
        ("kind"@, json::quoted(e.kind)),
        ("payload"@, e.payload),
        ("priority"@, text::decimal_text(e.priority as nat)),
        ("source"@, json::quoted(e.source)),
    ]
}

/// The event as a JSON object.
pub open spec fn event_json(e: EventModel) -> Text {
    json::object_text(event_members(e))
}

impl Event {
    /// The event as a JSON object.
    pub fn to_json(&self) -> (r: Json)
        ensures
            r@ == event_json(self@),
    {
        let priority = text::decimal(self.priority as u64);
        let w = ObjectWriter::new().string("kind", self.kind.as_str()).raw(
            "payload",
            self.payload.text.as_str(),
        ).raw("priority", priority.as_str()).string("source", self.source.as_str());
        assert(w@ =~= event_members(self@));
        w.close()
    }
}

/// The events of a vector, in order.
pub open spec fn events(v: Seq<Event>) -> Seq<EventModel> {
    Seq::new(v.len(), |i: int| v[i]@)
}

/// Events waiting to run. The view lists them in the order in which they will
/// run: higher priorities first, and equal priorities as they came.
pub struct EventQueue {
    waiting: Vec<Event>,
}

/// Nothing waits behind an event of lower priority.
pub open spec fn by_priority(s: Seq<EventModel>) -> bool {
    forall|i: int, j: int|
        0 <= i < j < s.len() ==> (#[trigger] s[i]).priority >= (#[trigger] s[j]).priority
}

/// How many of the waiting events run before a new one of priority `p`: those
/// of the same or a higher priority.
pub open spec fn ahead_of(s: Seq<EventModel>, p: u8) -> nat
    decreases s.len(),
{
    if s.len() == 0 {
        0
    } else {
        ahead_of(s.drop_last(), p) + (if s.last().priority >= p {
            1nat
        } else {
            0
        })
    }
}

impl View for EventQueue {
    type V = Seq<EventModel>;

    closed spec fn view(&self) -> Seq<EventModel> {
        events(self.waiting@)
    }
}

impl Default for EventQueue {
    fn default() -> (r: Self)
        ensures
            r@ == Seq::<EventModel>::empty(),
    {
        let r = EventQueue { waiting: Vec::new() };
        assert(r@ =~= Seq::<EventModel>::empty());
        r
    }
}

proof fn lemma_ahead_of_is_prefix(s: Seq<EventModel>, p: u8, n: int)
    requires
        0 <= n <= s.len(),
        forall|i: int| 0 <= i < n ==> (#[trigger] s[i]).priority >= p,
        forall|i: int| n <= i < s.len() ==> (#[trigger] s[i]).priority < p,
    ensures
        ahead_of(s, p) == n,
    decreases s.len(),
{
    if s.len() > 0 {
        if n == s.len() {
            lemma_ahead_of_is_prefix(s.drop_last(), p, n - 1);
        } else {
            lemma_ahead_of_is_prefix(s.drop_last(), p, n);
        }
    }
}

/// In a queue that is ordered by priority, the events that run before a new
/// one of priority `p` are the leading ones.
pub proof fn lemma_ahead_of(s: Seq<EventModel>, p: u8)
    requires
        by_priority(s),
    ensures
        ahead_of(s, p) <= s.len(),
        forall|i: int| 0 <= i < ahead_of(s, p) ==> (#[trigger] s[i]).priority >= p,
        forall|i: int| ahead_of(s, p) <= i < s.len() ==> (#[trigger] s[i]).priority < p,
    decreases s.len(),
{
    if s.len() > 0 {
        let d = s.drop_last();
        lemma_ahead_of(d, p);
        assert forall|i: int| 0 <= i < ahead_of(s, p) implies (#[trigger] s[i]).priority >= p by {
            if i < ahead_of(d, p) {
                assert(d[i].priority >= p);
            } else if i < d.len() {
                assert(s[i].priority >= s[s.len() - 1].priority);
            }
        }
        assert forall|i: int| ahead_of(s, p) <= i < s.len() implies (#[trigger] s[i]).priority
            < p by {
            if i < d.len() {
                assert(d[i].priority < p);
            }
        }
        if s.last().priority >= p && ahead_of(d, p) < d.len() {
            assert(d[ahead_of(d, p) as int].priority < p);
            assert(s[ahead_of(d, p) as int].priority >= s[s.len() - 1].priority);
        }
    }
}

impl EventQueue {
    #[verifier::type_invariant]
    spec fn wf(self) -> bool {
        by_priority(events(self.waiting@))
    }

    /// Queues an event behind those of the same or a higher priority.
    pub fn push(&mut self, event: Event)
        ensures
            final(self)@ == old(self)@.insert(
                ahead_of(old(self)@, event.priority) as int,
                event@,
            ),
    {
        proof {
            use_type_invariant(&*self);
        }
        let ghost before = self@;
        let ghost e = event@;
        let mut waiting: Vec<Event> = Vec::new();
        core::mem::swap(&mut waiting, &mut self.waiting);
        let mut p: usize = waiting.len();
        while p > 0 && waiting[p - 1].priority < event.priority
            invariant
                p <= waiting@.len(),
                forall|j: int|
                    p <= j < waiting@.len() ==> (#[trigger] waiting@[j]).priority < event.priority,
            decreases p,
        {
            p -= 1;
        }
        proof {
            assert(events(waiting@) =~= before);
            assert forall|i: int| 0 <= i < p implies (#[trigger] before[i]).priority
                >= e.priority by {
                if i < p - 1 {
                    assert(before[i].priority >= before[p - 1].priority);
                }
            }
            lemma_ahead_of_is_prefix(before, e.priority, p as int);
        }
        waiting.insert(p, event);
        proof {
            let after = events(waiting@);
            assert(after =~= before.insert(p as int, e));
            assert forall|i: int, j: int| 0 <= i < j < after.len() implies (
            #[trigger] after[i]).priority >= (#[trigger] after[j]).priority by {
                let a = if i < p { i } else { i - 1 };
                let b = if j < p { j } else { j - 1 };
                if i != p && j != p {
                    assert(before[a].priority >= before[b].priority);
                }
            }
        }
        self.waiting = waiting;
    }

    /// Takes the event that is to run next: none that waits has a higher
    /// priority.
    pub fn pop(&mut self) -> (r: Option<Event>)
        ensures
            by_priority(old(self)@),
            old(self)@.len() == 0 ==> r is None && final(self)@ == old(self)@,
            old(self)@.len() > 0 ==> r is Some && r->0@ == old(self)@[0] && final(self)@
                == old(self)@.drop_first(),
    {
        proof {
            use_type_invariant(&*self);
        }
        if self.waiting.len() == 0 {
            return None;
        }
        let ghost before = self@;
        let mut waiting: Vec<Event> = Vec::new();
        core::mem::swap(&mut waiting, &mut self.waiting);
        let first = waiting.remove(0);
        proof {
            let after = events(waiting@);
            assert(after =~= before.drop_first());
            assert forall|i: int, j: int| 0 <= i < j < after.len() implies (
            #[trigger] after[i]).priority >= (#[trigger] after[j]).priority by {
                assert(before[i + 1].priority >= before[j + 1].priority);
            }
        }
        self.waiting = waiting;
        Some(first)
    }

    pub fn len(&self) -> (r: usize)
        ensures
            r == self@.len(),
    {
        self.waiting.len()
    }

    pub fn is_empty(&self) -> (r: bool)
        ensures
            r == (self@.len() == 0),
    {
        self.waiting.len() == 0
    }
}

/// The queue that results when `new` is pushed event by event.
pub open spec fn pushed_all(s: Seq<EventModel>, new: Seq<EventModel>) -> Seq<EventModel>
    decreases new.len(),
{
    if new.len() == 0 {
        s
    } else {
        let t = pushed_all(s, new.drop_last());
        t.insert(ahead_of(t, new.last().priority) as int, new.last())
    }
}

/// Pushing keeps the queue ordered by priority, so the event that is popped
/// next has the highest priority of all that wait.
pub proof fn law_push_keeps_priority_order(s: Seq<EventModel>, e: EventModel)
    requires
        by_priority(s),
    ensures
        by_priority(s.insert(ahead_of(s, e.priority) as int, e)),
{
    lemma_ahead_of(s, e.priority);
    let p = ahead_of(s, e.priority) as int;
    let t = s.insert(p, e);
    assert forall|i: int, j: int| 0 <= i < j < t.len() implies (#[trigger] t[i]).priority >= (
    #[trigger] t[j]).priority by {
        let a = if i < p { i } else { i - 1 };
        let b = if j < p { j } else { j - 1 };
        if i != p && j != p {
            assert(s[a].priority >= s[b].priority);
        }
    }
}

/// The events of `s` that have priority `p`, in order.
pub open spec fn of_priority(s: Seq<EventModel>, p: u8) -> Seq<EventModel> {
    s.filter(|e: EventModel| e.priority == p)
}

proof fn lemma_filter_concat(a: Seq<EventModel>, b: Seq<EventModel>, p: u8)
    ensures
        of_priority(a + b, p) == of_priority(a, p) + of_priority(b, p),
{
    let keep = |e: EventModel| e.priority == p;
    Seq::filter_distributes_over_add(a, b, keep);
}

/// Equal priorities run in the order they came: pushing an event puts it
/// behind every waiting event of its own priority, and leaves the order of
/// the events of each other priority as it was.
pub proof fn law_equal_priorities_run_in_order(s: Seq<EventModel>, e: EventModel, p: u8)
    requires
        by_priority(s),
    ensures
        of_priority(s.insert(ahead_of(s, e.priority) as int, e), p) == (if p == e.priority {
            of_priority(s, p).push(e)
        } else {
            of_priority(s, p)
        }),
{
    lemma_ahead_of(s, e.priority);
    let n = ahead_of(s, e.priority) as int;
    let front = s.take(n);
    let back = s.skip(n);
    let keep = |x: EventModel| x.priority == p;
    assert(s =~= front + back);
    assert(s.insert(n, e) =~= (front + seq![e]) + back);
    lemma_filter_concat(front, back, p);
    lemma_filter_concat(front + seq![e], back, p);
    lemma_filter_concat(front, seq![e], p);
    reveal_with_fuel(Seq::filter, 2);
    assert(seq![e].drop_last() =~= Seq::<EventModel>::empty());
    if p == e.priority {
        assert forall|i: int| 0 <= i < back.len() implies !keep(#[trigger] back[i]) by {
            assert(back[i] == s[n + i]);
        }
        lemma_filter_none(back, p);
        assert(of_priority(s, p) =~= of_priority(front, p));
        assert(of_priority(seq![e], p) =~= seq![e]);
        assert(of_priority(s.insert(n, e), p) =~= of_priority(front, p).push(e));
    } else {
        assert(of_priority(seq![e], p) =~= Seq::<EventModel>::empty());
        assert(of_priority(s.insert(n, e), p) =~= of_priority(front, p) + of_priority(back, p));
    }
}

proof fn lemma_filter_none(s: Seq<EventModel>, p: u8)
    requires
        forall|i: int| 0 <= i < s.len() ==> (#[trigger] s[i]).priority != p,
    ensures
        of_priority(s, p) == Seq::<EventModel>::empty(),
    decreases s.len(),
{
    reveal_with_fuel(Seq::filter, 2);
    if s.len() > 0 {
        lemma_filter_none(s.drop_last(), p);
        assert(s.last().priority != p);
    }
    assert(of_priority(s, p) =~= Seq::<EventModel>::empty());
}

/// Events pushed into an empty queue come out by priority, and within a
/// priority in the order in which they were pushed.
pub proof fn law_run_order(new: Seq<EventModel>, p: u8)
    ensures
        by_priority(pushed_all(seq![], new)),
        of_priority(pushed_all(seq![], new), p) == of_priority(new, p),
        pushed_all(seq![], new).to_multiset() == new.to_multiset(),
    decreases new.len(),
{
    broadcast use vstd::seq_lib::group_to_multiset_ensures;

    reveal_with_fuel(Seq::filter, 2);
    if new.len() == 0 {
        assert(new =~= Seq::<EventModel>::empty());
    } else {
        let t = pushed_all(seq![], new.drop_last());
        law_run_order(new.drop_last(), p);
        law_push_keeps_priority_order(t, new.last());
        law_equal_priorities_run_in_order(t, new.last(), p);
        lemma_ahead_of(t, new.last().priority);
        assert(new =~= new.drop_last().push(new.last()));
        let keep = |e: EventModel| e.priority == p;
        assert(of_priority(new, p) =~= if keep(new.last()) {
            of_priority(new.drop_last(), p).push(new.last())
        } else {
            of_priority(new.drop_last(), p)
        });
    }
}

/// An event is told whole: an object with its kind, its payload as it stands, its
/// priority as a number, and its source.
pub proof fn law_events_are_told_whole(e: EventModel)
    ensures
        event_json(e) == json::object_text(event_members(e)),
        event_members(e).len() == 4,
        record::distinct_keys(event_members(e)),
        record::lookup(event_members(e), "kind"@) == Some(json::quoted(e.kind)),
        record::lookup(event_members(e), "payload"@) == Some(e.payload),
        record::lookup(event_members(e), "priority"@) == Some(
            text::decimal_text(e.priority as nat),
        ),
        record::lookup(event_members(e), "source"@) == Some(json::quoted(e.source)),
{
    let m = event_members(e);
    reveal_strlit("kind");
    reveal_strlit("payload");
    reveal_strlit("priority");
    reveal_strlit("source");
    assert("kind"@.len() == 4 && "payload"@.len() == 7 && "priority"@.len() == 8 && "source"@.len()
        == 6);
    assert(m[0].0 == "kind"@ && m[1].0 == "payload"@ && m[2].0 == "priority"@ && m[3].0
        == "source"@);
    record::lemma_lookup_at(m, 0);
    record::lemma_lookup_at(m, 1);
    record::lemma_lookup_at(m, 2);
    record::lemma_lookup_at(m, 3);
}

/// Higher priorities come first: of events that were pushed into an empty queue, none
/// waits behind one of lower priority; and a new one goes behind all of its priority or
/// higher, and before all others.
pub proof fn law_higher_priorities_come_first(
    new: Seq<EventModel>,
    e: EventModel,
    i: int,
    j: int,
)
    requires
        0 <= i < j < pushed_all(seq![], new).len(),
    ensures
        pushed_all(seq![], new)[i].priority >= pushed_all(seq![], new)[j].priority,
        ({
            let s = pushed_all(seq![], new);
            let at = ahead_of(s, e.priority) as int;
            &&& 0 <= at <= s.len()
            &&& j < at ==> s[j].priority >= e.priority
            &&& i >= at ==> s[i].priority < e.priority
            &&& pushed_all(seq![], new.push(e)) == s.insert(at, e)
        }),
{
    law_run_order(new, e.priority);
    lemma_ahead_of(pushed_all(seq![], new), e.priority);
    assert(new.push(e).drop_last() =~= new);
}

} // verus!
