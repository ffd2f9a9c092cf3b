//! Events: a bounded history, and subscribers that name what they want by pattern.

use vstd::prelude::*;

use crate::text::chars_eq;
use crate::text::chars_of;
use crate::text::chars_prefix;
use crate::text::chars_range;
use crate::text::chars_start_with;
use crate::text::chars_end_with;
use crate::text::chars_suffix;
use crate::types::Hlc;
use crate::types::VaultId;

verus! {

/// Something that happened. The payload is JSON text.
#[derive(Clone, PartialEq, Eq, Debug)]
pub struct Event {
    pub event_id: u64,
    pub name: String,
    pub vault_id: Option<VaultId>,
    pub hlc: Hlc,
    pub payload: String,
}

impl Event {
    /// An event without a vault and with a null payload.
    pub fn new(name: &str) -> (r: Self)
        ensures
            r.event_id == 0,
            r.name@ == name@,
            r.vault_id is None,
            r.hlc == (Hlc { physical: 0, logical: 0 }),
            r.payload@ == "null"@,
    {
        Event {
            event_id: 0,
            name: name.to_owned(),
            vault_id: None,
            hlc: Hlc::zero(),
            payload: "null".to_owned(),
        }
    }

    /// The event, of a vault.
    pub fn with_vault(self, v: VaultId) -> (r: Self)
        ensures
            r == (Event { vault_id: Some(v), ..self }),
    {
        Event { vault_id: Some(v), ..self }
    }

    /// The event, with a payload.
    pub fn with_payload(self, p: String) -> (r: Self)
        ensures
            r == (Event { payload: p, ..self }),
    {
        Event { payload: p, ..self }
    }

    /// A copy of the event.
    pub fn copied(&self) -> (r: Self)
        ensures
            r == *self,
    {
        Event {
            event_id: self.event_id,
            name: self.name.clone(),
            vault_id: self.vault_id,
            hlc: self.hlc,
            payload: self.payload.clone(),
        }
    }
}

/// What a subscriber wants.
#[derive(Clone, PartialEq, Eq, Debug)]
pub struct Filter {
    pub pattern: String,
}

/// Whether a pattern covers a name: `*` covers all, `p.*` covers what begins with `p.`, and any
/// other pattern covers itself.
pub open spec fn glob(pattern: Seq<char>, name: Seq<char>) -> bool {
    if pattern == "*"@ {
        true
    } else if chars_suffix(pattern, ".*"@) {
        chars_prefix(name, pattern.drop_last())
    } else {
        pattern == name
    }
}

/// Whether a pattern covers a name.
pub fn glob_match(pattern: &str, name: &str) -> (r: bool)
    ensures
        r == glob(pattern@, name@),
{
    let p = chars_of(pattern);
    let n = chars_of(name);
    if chars_eq(&p, &chars_of("*")) {
        return true;
    }
    if chars_end_with(&p, &chars_of(".*")) {
        proof {
            reveal_strlit(".*");
        }
        let head = chars_range(&p, 0, p.len() - 1);
        assert(head@ =~= p@.drop_last());
        return chars_start_with(&n, &head);
    }
    chars_eq(&p, &n)
}

impl Filter {
    /// Whether the filter lets a name through.
    pub fn matches(&self, name: &str) -> (r: bool)
        ensures
            r == glob(self.pattern@, name@),
    {
        glob_match(self.pattern.as_str(), name)
    }
}

/// The bus: the latest events, and the subscribers.
pub struct EventBus {
    next_id: u64,
    ring: Vec<Event>,
    capacity: usize,
    subscribers: Vec<(u64, Filter)>,
}

/// A subscription: its number, and the past events that it asked for.
pub struct Subscription {
    pub id: u64,
    pub replay: Vec<Event>,
}

/// A history after one more event: the oldest leaves where there is no room, and nothing is kept
/// where there is none at all.
pub open spec fn ring_after(ring: Seq<Event>, capacity: nat, e: Event) -> Seq<Event> {
    if capacity == 0 {
        ring
    } else if ring.len() >= capacity {
        ring.drop_first().push(e)
    } else {
        ring.push(e)
    }
}

/// The subscribers that want an event, in the order in which they subscribed.
pub open spec fn recipients(subs: Seq<(u64, Filter)>, name: Seq<char>) -> Seq<u64>
    decreases subs.len(),
{
    if subs.len() == 0 {
        Seq::empty()
    } else {
        let head = recipients(subs.drop_last(), name);
        if glob(subs.last().1.pattern@, name) {
            head.push(subs.last().0)
        } else {
            head
        }
    }
}

/// The events of a history after `since` that a pattern covers, in order.
pub open spec fn replayed(ring: Seq<Event>, pattern: Seq<char>, since: u64) -> Seq<Event>
    decreases ring.len(),
{
    if ring.len() == 0 {
        Seq::empty()
    } else {
        let head = replayed(ring.drop_last(), pattern, since);
        let e = ring.last();
        if e.event_id > since && glob(pattern, e.name@) {
            head.push(e)
        } else {
            head
        }
    }
}

/// The subscribers without those of a number.
pub open spec fn without(subs: Seq<(u64, Filter)>, id: u64) -> Seq<(u64, Filter)>
    decreases subs.len(),
{
    if subs.len() == 0 {
        Seq::empty()
    } else if subs.last().0 == id {
        without(subs.drop_last(), id)
    } else {
        without(subs.drop_last(), id).push(subs.last())
    }
}

impl EventBus {
    /// The number of the next event or subscription.
    pub closed spec fn next(self) -> u64 {
        self.next_id
    }

    /// The history, oldest first.
    pub closed spec fn history(self) -> Seq<Event> {
        self.ring@
    }

    /// How many events the history can hold.
    pub closed spec fn room(self) -> nat {
        self.capacity as nat
    }

    /// The subscribers, in the order in which they subscribed.
    pub closed spec fn subscribers(self) -> Seq<(u64, Filter)> {
        self.subscribers@
    }

    /// The history is within its bound, numbers increase, and none is beyond the next.
    pub open spec fn wf(self) -> bool {
        &&& self.history().len() <= self.room()
        &&& forall|i: int, j: int|
            0 <= i < j < self.history().len() ==> (#[trigger] self.history()[i]).event_id < (
            #[trigger] self.history()[j]).event_id
        &&& forall|i: int|
            0 <= i < self.history().len() ==> (#[trigger] self.history()[i]).event_id < self.next()
    }

    /// A bus that remembers ten thousand events.
    pub fn new() -> (r: Self)
        ensures
            r.wf(),
            r.room() == 10_000,
            r.next() == 1,
            r.history().len() == 0,
            r.subscribers().len() == 0,
    {
        EventBus::with_capacity(10_000)
    }

    /// A bus that remembers `capacity` events.
    pub fn with_capacity(capacity: usize) -> (r: Self)
        ensures
            r.wf(),
            r.room() == capacity,
            r.next() == 1,
            r.history().len() == 0,
            r.subscribers().len() == 0,
    {
        EventBus { next_id: 1, ring: Vec::new(), capacity, subscribers: Vec::new() }
    }

    /// Whether there is a number left for an event or a subscription.
    pub fn has_numbers(&self) -> (r: bool)
        ensures
            r == (self.next() < u64::MAX),
    {
        self.next_id < u64::MAX
    }

    /// Numbers an event and remembers it. The result is its number and the subscribers to give it
    /// to.
    pub fn publish(&mut self, e: Event) -> (r: (u64, Vec<u64>))
        requires
            old(self).wf(),
            old(self).next() < u64::MAX,
        ensures
            final(self).wf(),
            r.0 == old(self).next(),
            final(self).next() == old(self).next() + 1,
            final(self).room() == old(self).room(),
            final(self).subscribers() == old(self).subscribers(),
            final(self).history() == ring_after(
                old(self).history(),
                old(self).room(),
                Event { event_id: old(self).next(), ..e },
            ),
            r.1@ == recipients(old(self).subscribers(), e.name@),
    {
        let ghost before = self.ring@;
        let id: u64 = self.next_id;
        self.next_id = self.next_id + 1;
        let numbered = Event { event_id: id, ..e };
        let mut to: Vec<u64> = Vec::new();
        let mut i: usize = 0;
        while i < self.subscribers.len()
            invariant
                0 <= i <= self.subscribers@.len(),
                numbered.name@ == e.name@,
                to@ == recipients(self.subscribers@.take(i as int), e.name@),
            decreases self.subscribers@.len() - i,
        {
            assert(self.subscribers@.take(i + 1).drop_last() =~= self.subscribers@.take(i as int));
            if self.subscribers[i].1.matches(numbered.name.as_str()) {
                to.push(self.subscribers[i].0);
            }
            i = i + 1;
        }
        assert(self.subscribers@.take(i as int) =~= self.subscribers@);
        if self.capacity > 0 {
            if self.ring.len() >= self.capacity {
                let _oldest = self.ring.remove(0);
                assert(self.ring@ =~= before.drop_first());
            }
            self.ring.push(numbered);
        }
        (id, to)
    }

    /// Adds a subscriber, and gathers the past events that it asks for.
    pub fn subscribe(&mut self, filter: Filter, since: Option<u64>) -> (r: Subscription)
        requires
            old(self).wf(),
            old(self).next() < u64::MAX,
        ensures
            final(self).wf(),
            r.id == old(self).next(),
            final(self).next() == old(self).next() + 1,
            final(self).room() == old(self).room(),
            final(self).history() == old(self).history(),
            final(self).subscribers() == old(self).subscribers().push((r.id, filter)),
            r.replay@ == (match since {
                Some(s) => replayed(old(self).history(), filter.pattern@, s),
                None => Seq::empty(),
            }),
    {
        let id: u64 = self.next_id;
        self.next_id = self.next_id + 1;
        let mut replay: Vec<Event> = Vec::new();
        if let Some(s) = since {
            let mut i: usize = 0;
            while i < self.ring.len()
                invariant
                    0 <= i <= self.ring@.len(),
                    replay@ == replayed(self.ring@.take(i as int), filter.pattern@, s),
                decreases self.ring@.len() - i,
            {
                assert(self.ring@.take(i + 1).drop_last() =~= self.ring@.take(i as int));
                if self.ring[i].event_id > s && filter.matches(self.ring[i].name.as_str()) {
                    replay.push(self.ring[i].copied());
                }
                i = i + 1;
            }
            assert(self.ring@.take(i as int) =~= self.ring@);
        } else {
            assert(replay@ =~= Seq::<Event>::empty());
        }
        self.subscribers.push((id, filter));
        Subscription { id, replay }
    }

    /// Takes a subscriber away.
    pub fn unsubscribe(&mut self, id: u64)
        ensures
            final(self).next() == old(self).next(),
            final(self).room() == old(self).room(),
            final(self).history() == old(self).history(),
            final(self).subscribers() == without(old(self).subscribers(), id),
    {
        let ghost all = self.subscribers@;
        let mut kept: Vec<(u64, Filter)> = Vec::new();
        let ghost mut done: int = 0;
        while self.subscribers.len() > 0
            invariant
                0 <= done <= all.len(),
                self.subscribers@ == all.skip(done),
                kept@ == without(all.take(done), id),
                self.next_id == old(self).next_id,
                self.capacity == old(self).capacity,
                self.ring@ == old(self).ring@,
            decreases self.subscribers@.len(),
        {
            let s = self.subscribers.remove(0);
            proof {
                assert(s == all[done]);
                assert(all.take(done + 1).drop_last() =~= all.take(done));
                assert(all.skip(done).remove(0) =~= all.skip(done + 1));
                done = done + 1;
            }
            if s.0 != id {
                kept.push(s);
            }
        }
        assert(all.take(done) =~= all);
        self.subscribers = kept;
    }
}

impl Default for EventBus {
    fn default() -> (r: Self)
        ensures
            r.wf(),
            r.room() == 10_000,
            r.next() == 1,
            r.history().len() == 0,
            r.subscribers().len() == 0,
    {
        EventBus::new()
    }
}

/// A subscriber that asks for everything since just before an event still finds it in the replay,
/// as long as the history holds it.
pub proof fn lemma_replay_finds(ring: Seq<Event>, pattern: Seq<char>, since: u64, at: int)
    requires
        0 <= at < ring.len(),
        ring[at].event_id > since,
        glob(pattern, ring[at].name@),
    ensures
        replayed(ring, pattern, since).contains(ring[at]),
    decreases ring.len(),
{
    let all = replayed(ring, pattern, since);
    if at == ring.len() - 1 {
        assert(all[all.len() - 1] == ring[at]);
    } else {
        let head = replayed(ring.drop_last(), pattern, since);
        assert(ring.drop_last()[at] == ring[at]);
        lemma_replay_finds(ring.drop_last(), pattern, since, at);
        let k = choose|k: int| 0 <= k < head.len() && head[k] == ring[at];
        assert(all[k] == ring[at]);
    }
}

/// What a pattern matches: a star everything, a text and `.*` the names that begin with the text and
/// a dot, and any other pattern the name that it is.
pub proof fn lemma_patterns(text: Seq<char>, name: Seq<char>)
    ensures
        glob("*"@, name),
        glob(text + ".*"@, name) <==> name.len() > text.len() && name.take(text.len() as int) == text
            && name[text.len() as int] == '.',
        text != "*"@ && !(text.len() >= 2 && text[text.len() - 2] == '.' && text.last() == '*') ==> (
        glob(text, name) <==> text == name),
{
    reveal_strlit("*");
    reveal_strlit(".*");
    let p = text + ".*"@;
    let n = text.len() as int;
    assert(p.skip(n) =~= ".*"@);
    assert(p.len() == n + 2);
    assert("*"@.len() == 1);
    let stem = p.drop_last();
    assert(stem =~= text.push('.'));
    if glob(p, name) {
        assert(name.take(n + 1) =~= stem);
        assert(name.take(n) =~= text);
        assert(name[n] == stem[n]);
    }
    if name.len() > n && name.take(n) == text && name[n] == '.' {
        assert(name.take(n + 1) =~= stem);
    }
    if chars_suffix(text, ".*"@) {
        assert(text.skip(n - 2)[0] == '.');
        assert(text.skip(n - 2)[1] == '*');
    }
}

/// Who hears of an event: the subscribers whose pattern matches its name, in their order.
pub proof fn lemma_recipients_exactly(subs: Seq<(u64, Filter)>, sub: (u64, Filter), name: Seq<char>)
    ensures
        recipients(Seq::empty(), name) == Seq::<u64>::empty(),
        recipients(subs.push(sub), name) == (if glob(sub.1.pattern@, name) {
            recipients(subs, name).push(sub.0)
        } else {
            recipients(subs, name)
        }),
{
    assert(subs.push(sub).drop_last() =~= subs);
}

/// What is replayed: the events that are kept, are later than the given one and match, and no
/// others, each as often as it is kept, in their order.
pub proof fn lemma_replayed_exactly(ring: Seq<Event>, e: Event, pattern: Seq<char>, since: u64)
    ensures
        replayed(Seq::empty(), pattern, since) == Seq::<Event>::empty(),
        replayed(ring.push(e), pattern, since) == (if e.event_id > since && glob(pattern, e.name@) {
            replayed(ring, pattern, since).push(e)
        } else {
            replayed(ring, pattern, since)
        }),
{
    assert(ring.push(e).drop_last() =~= ring);
}

/// What is kept of the past: the newest events, as many as there is room for.
pub proof fn lemma_ring_keeps_newest(ring: Seq<Event>, capacity: nat, e: Event)
    requires
        ring.len() <= capacity,
    ensures
        ring_after(ring, capacity, e).len() <= capacity,
        capacity > 0 ==> ring_after(ring, capacity, e).last() == e,
        ring.len() < capacity ==> ring_after(ring, capacity, e).drop_last() == ring,
        capacity > 0 && ring.len() == capacity ==> ring_after(ring, capacity, e).drop_last()
            == ring.drop_first(),
{
    if capacity > 0 {
        assert(ring.push(e).drop_last() =~= ring);
        if ring.len() == capacity {
            assert(ring.drop_first().push(e).drop_last() =~= ring.drop_first());
        }
    }
}

/// Who is left when a subscriber goes: all others, in their order.
pub proof fn lemma_without_exactly(subs: Seq<(u64, Filter)>, sub: (u64, Filter), id: u64)
    ensures
        without(Seq::empty(), id) == Seq::<(u64, Filter)>::empty(),
        without(subs.push(sub), id) == (if sub.0 == id {
            without(subs, id)
        } else {
            without(subs, id).push(sub)
        }),
{
    assert(subs.push(sub).drop_last() =~= subs);
}

/// The history holds no more than there is room for, and its numbers rise and have all been given
/// out.
pub proof fn lemma_history_in_order(b: EventBus, i: int, j: int)
    requires
        b.wf(),
        0 <= i < j < b.history().len(),
    ensures
        b.history().len() <= b.room(),
        b.history()[i].event_id < b.history()[j].event_id,
        b.history()[j].event_id < b.next(),
{
}

} // verus!
