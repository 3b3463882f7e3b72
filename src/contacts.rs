//! Contact bookkeeping across ticks and the events it emits.
use vstd::prelude::*;

verus! {

/// What a resolved contact recorded, for whoever consumes the events.
#[derive(Clone, Copy, PartialEq, Eq, Structural, Debug)]
pub struct ContactData {
    /// Impulse magnitude, in thousandths of mass times velocity.
    pub impulse: i128,
    /// The speed along the normal, before the impulse, of the body whose
    /// handle comes first in the pair's key.
    pub v_a_n: i64,
    /// The same for the body whose handle comes second.
    pub v_b_n: i64,
}

/// An unordered pair of body handles, the lower handle first.
#[derive(Clone, Copy, PartialEq, Eq, Structural, Debug)]
pub struct ContactKey {
    pub a: u64,
    pub b: u64,
}

/// The key of the pair `{a, b}`: the lower handle first.
pub open spec fn pair_key(a: u64, b: u64) -> ContactKey {
    if a < b {
        ContactKey { a, b }
    } else {
        ContactKey { a: b, b: a }
    }
}

/// The key of the pair `{a, b}`, the same for `(a, b)` and `(b, a)`.
pub fn ordered_pair(a: u64, b: u64) -> (r: ContactKey)
    ensures
        r == pair_key(a, b),
        r.a <= r.b,
        (r.a == a && r.b == b) || (r.a == b && r.b == a),
{
    if a < b {
        ContactKey { a, b }
    } else {
        ContactKey { a: b, b: a }
    }
}

/// `d`, measured with `a` as the first body and `b` as the second, as
/// recorded under the key of `{a, b}`: the two normal speeds change places
/// when the key puts `b` first.
pub open spec fn oriented(d: ContactData, a: u64, b: u64) -> ContactData {
    if a < b {
        d
    } else {
        ContactData { v_a_n: d.v_b_n, v_b_n: d.v_a_n, ..d }
    }
}

/// Orders `d`'s normal speeds as the key of `{a, b}` orders the bodies.
pub fn orient(d: ContactData, a: u64, b: u64) -> (r: ContactData)
    ensures
        r == oriented(d, a, b),
{
    if a < b {
        d
    } else {
        ContactData { v_a_n: d.v_b_n, v_b_n: d.v_a_n, ..d }
    }
}

/// One pair in contact this tick and what it recorded.
#[derive(Clone, Copy, PartialEq, Eq, Structural, Debug)]
pub struct ContactEntry {
    pub key: ContactKey,
    pub data: ContactData,
}

/// A transition of a pair's contact.
#[derive(Clone, Copy, PartialEq, Eq, Structural, Debug)]
pub enum CollisionEvent {
    /// The pair touches this tick and did not the tick before.
    Started { a: u64, b: u64, impulse: i128, v_a_n: i64, v_b_n: i64 },
    /// The pair touched the tick before and does not this tick.
    Stopped { a: u64, b: u64 },
}

/// No key occurs twice.
pub open spec fn keys_unique(s: Seq<ContactEntry>) -> bool {
    forall|i: int, j: int| 0 <= i < j < s.len() ==> s[i].key != s[j].key
}

pub open spec fn has_key(s: Seq<ContactEntry>, k: ContactKey) -> bool {
    exists|i: int| 0 <= i < s.len() && s[i].key == k
}

/// The position of `k` in `s`, if it is there.
pub open spec fn index_of(s: Seq<ContactEntry>, k: ContactKey) -> int {
    choose|i: int| 0 <= i < s.len() && s[i].key == k
}

/// `s` with `k` mapped to `d`: the entry replaced where `k` is present,
/// appended otherwise.
pub open spec fn inserted(s: Seq<ContactEntry>, k: ContactKey, d: ContactData) -> Seq<ContactEntry> {
    if has_key(s, k) {
        s.update(index_of(s, k), ContactEntry { key: k, data: d })
    } else {
        s.push(ContactEntry { key: k, data: d })
    }
}

/// The Started events of a tick: each pair of `cur` absent from `prev`, in
/// the order of `cur`.
pub open spec fn started_events(cur: Seq<ContactEntry>, prev: Seq<ContactEntry>) -> Seq<
    CollisionEvent,
>
    decreases cur.len(),
{
    if cur.len() == 0 {
        Seq::empty()
    } else {
        let e = cur.last();
        let rest = started_events(cur.drop_last(), prev);
        if has_key(prev, e.key) {
            rest
        } else {
            rest.push(
                CollisionEvent::Started {
                    a: e.key.a,
                    b: e.key.b,
                    impulse: e.data.impulse,
                    v_a_n: e.data.v_a_n,
                    v_b_n: e.data.v_b_n,
                },
            )
        }
    }
}

/// The Stopped events of a tick: each pair of `prev` absent from `cur`, in
/// the order of `prev`.
pub open spec fn stopped_events(prev: Seq<ContactEntry>, cur: Seq<ContactEntry>) -> Seq<
    CollisionEvent,
>
    decreases prev.len(),
{
    if prev.len() == 0 {
        Seq::empty()
    } else {
        let e = prev.last();
        let rest = stopped_events(prev.drop_last(), cur);
        if has_key(cur, e.key) {
            rest
        } else {
            rest.push(CollisionEvent::Stopped { a: e.key.a, b: e.key.b })
        }
    }
}

/// Everything a tick emits: its Started events, then its Stopped events.
pub open spec fn transition_events(cur: Seq<ContactEntry>, prev: Seq<ContactEntry>) -> Seq<
    CollisionEvent,
> {
    started_events(cur, prev) + stopped_events(prev, cur)
}

/// How many Started events for `k` are in `evs`.
pub open spec fn count_started(evs: Seq<CollisionEvent>, k: ContactKey) -> nat
    decreases evs.len(),
{
    if evs.len() == 0 {
        0
    } else {
        count_started(evs.drop_last(), k) + match evs.last() {
            CollisionEvent::Started { a, b, .. } => if a == k.a && b == k.b {
                1nat
            } else {
                0nat
            },
            CollisionEvent::Stopped { .. } => 0nat,
        }
    }
}

/// How many Stopped events for `k` are in `evs`.
pub open spec fn count_stopped(evs: Seq<CollisionEvent>, k: ContactKey) -> nat
    decreases evs.len(),
{
    if evs.len() == 0 {
        0
    } else {
        count_stopped(evs.drop_last(), k) + match evs.last() {
            CollisionEvent::Stopped { a, b } => if a == k.a && b == k.b {
                1nat
            } else {
                0nat
            },
            CollisionEvent::Started { .. } => 0nat,
        }
    }
}

/// The pairs in contact during one tick, each once, in the order found.
pub struct ContactSet {
    pub entries: Vec<ContactEntry>,
}

impl View for ContactSet {
    type V = Seq<ContactEntry>;

    open spec fn view(&self) -> Seq<ContactEntry> {
        self.entries@
    }
}

impl ContactSet {
    pub open spec fn wf(&self) -> bool {
        keys_unique(self@)
    }

    pub fn new() -> (r: ContactSet)
        ensures
            r@ == Seq::<ContactEntry>::empty(),
            r.wf(),
    {
        ContactSet { entries: Vec::new() }
    }

    pub fn len(&self) -> (r: usize)
        ensures
            r == self@.len(),
    {
        self.entries.len()
    }

    /// Where `k` is, if it is present.
    fn find(&self, k: ContactKey) -> (r: Option<usize>)
        ensures
            match r {
                Some(i) => i < self@.len() && self@[i as int].key == k,
                None => !has_key(self@, k),
            },
    {
        let mut i: usize = 0;
        while i < self.entries.len()
            invariant
                0 <= i <= self@.len(),
                forall|j: int| 0 <= j < i ==> self@[j].key != k,
            decreases self@.len() - i,
        {
            if self.entries[i].key == k {
                return Some(i);
            }
            i = i + 1;
        }
        None
    }

    pub fn contains_key(&self, k: ContactKey) -> (r: bool)
        ensures
            r == has_key(self@, k),
    {
        self.find(k).is_some()
    }

    /// Records `d` for the pair `k`, replacing what it held this tick.
    pub fn insert(&mut self, k: ContactKey, d: ContactData)
        requires
            old(self).wf(),
        ensures
            final(self)@ == inserted(old(self)@, k, d),
            final(self).wf(),
            has_key(final(self)@, k),
    {
        let e = ContactEntry { key: k, data: d };
        match self.find(k) {
            Some(i) => {
                proof {
                    let s = self@;
                    if index_of(s, k) != i as int {
                        assert(s[index_of(s, k)].key == k);
                    }
                }
                self.entries.set(i, e);
                assert(self@[i as int].key == k);
            },
            None => {
                self.entries.push(e);
                assert(self@[self@.len() - 1].key == k);
            },
        }
    }
}

/// The contact sets of this tick and of the tick before.
pub struct Contacts {
    pub current: ContactSet,
    pub prev: ContactSet,
}

impl Contacts {
    pub open spec fn wf(&self) -> bool {
        self.current.wf() && self.prev.wf()
    }

    pub fn new() -> (r: Contacts)
        ensures
            r.wf(),
            r.current@.len() == 0,
            r.prev@.len() == 0,
    {
        Contacts { current: ContactSet::new(), prev: ContactSet::new() }
    }
}

/// Emits the Started events of this tick, then its Stopped events, and makes
/// this tick's contacts the previous ones, leaving the current set empty.
pub fn emit_collision_events(contacts: &mut Contacts) -> (events: Vec<CollisionEvent>)
    requires
        old(contacts).wf(),
    ensures
        events@ == transition_events(old(contacts).current@, old(contacts).prev@),
        final(contacts).prev@ == old(contacts).current@,
        final(contacts).current@.len() == 0,
        final(contacts).wf(),
{
    let mut current = ContactSet::new();
    std::mem::swap(&mut contacts.current, &mut current);
    let mut events: Vec<CollisionEvent> = Vec::new();
    let mut i: usize = 0;
    while i < current.entries.len()
        invariant
            0 <= i <= current@.len(),
            contacts.wf(),
            events@ == started_events(current@.subrange(0, i as int), contacts.prev@),
        decreases current@.len() - i,
    {
        let e = current.entries[i];
        assert(current@.subrange(0, i + 1).drop_last() == current@.subrange(0, i as int));
        if !contacts.prev.contains_key(e.key) {
            events.push(
                CollisionEvent::Started {
                    a: e.key.a,
                    b: e.key.b,
                    impulse: e.data.impulse,
                    v_a_n: e.data.v_a_n,
                    v_b_n: e.data.v_b_n,
                },
            );
        }
        i = i + 1;
    }
    assert(current@.subrange(0, current@.len() as int) == current@);
    let ghost started = events@;
    let mut j: usize = 0;
    while j < contacts.prev.entries.len()
        invariant
            0 <= j <= contacts.prev@.len(),
            contacts.wf(),
            events@ == started + stopped_events(contacts.prev@.subrange(0, j as int), current@),
        decreases contacts.prev@.len() - j,
    {
        let e = contacts.prev.entries[j];
        assert(contacts.prev@.subrange(0, j + 1).drop_last() == contacts.prev@.subrange(0, j as int));
        if !current.contains_key(e.key) {
            events.push(CollisionEvent::Stopped { a: e.key.a, b: e.key.b });
        }
        j = j + 1;
    }
    assert(contacts.prev@.subrange(0, contacts.prev@.len() as int) == contacts.prev@);
    contacts.prev = current;
    events
}

proof fn lemma_count_concat(a: Seq<CollisionEvent>, b: Seq<CollisionEvent>, k: ContactKey)
    ensures
        count_started(a + b, k) == count_started(a, k) + count_started(b, k),
        count_stopped(a + b, k) == count_stopped(a, k) + count_stopped(b, k),
    decreases b.len(),
{
    if b.len() == 0 {
        assert(a + b == a);
    } else {
        lemma_count_concat(a, b.drop_last(), k);
        assert((a + b).drop_last() == a + b.drop_last());
        assert((a + b).last() == b.last());
    }
}

proof fn lemma_has_key_last(s: Seq<ContactEntry>, k: ContactKey)
    requires
        s.len() > 0,
        keys_unique(s),
    ensures
        keys_unique(s.drop_last()),
        has_key(s, k) == (has_key(s.drop_last(), k) || s.last().key == k),
        s.last().key == k ==> !has_key(s.drop_last(), k),
{
    let r = s.drop_last();
    if has_key(s, k) {
        let i = choose|i: int| 0 <= i < s.len() && s[i].key == k;
        if i < s.len() - 1 {
            assert(r[i].key == k);
        }
    }
    if has_key(r, k) {
        let i = choose|i: int| 0 <= i < r.len() && r[i].key == k;
        assert(s[i].key == k);
    }
}

proof fn lemma_started_counts(cur: Seq<ContactEntry>, prev: Seq<ContactEntry>, k: ContactKey)
    requires
        keys_unique(cur),
    ensures
        count_started(started_events(cur, prev), k) == if has_key(cur, k) && !has_key(prev, k) {
            1nat
        } else {
            0nat
        },
        count_stopped(started_events(cur, prev), k) == 0,
    decreases cur.len(),
{
    if cur.len() > 0 {
        lemma_has_key_last(cur, k);
        lemma_started_counts(cur.drop_last(), prev, k);
        let e = cur.last();
        let rest = started_events(cur.drop_last(), prev);
        let ev = CollisionEvent::Started {
            a: e.key.a,
            b: e.key.b,
            impulse: e.data.impulse,
            v_a_n: e.data.v_a_n,
            v_b_n: e.data.v_b_n,
        };
        assert(rest.push(ev).drop_last() == rest);
        assert(rest.push(ev).last() == ev);
    }
}

proof fn lemma_stopped_counts(prev: Seq<ContactEntry>, cur: Seq<ContactEntry>, k: ContactKey)
    requires
        keys_unique(prev),
    ensures
        count_stopped(stopped_events(prev, cur), k) == if has_key(prev, k) && !has_key(cur, k) {
            1nat
        } else {
            0nat
        },
        count_started(stopped_events(prev, cur), k) == 0,
    decreases prev.len(),
{
    if prev.len() > 0 {
        lemma_has_key_last(prev, k);
        lemma_stopped_counts(prev.drop_last(), cur, k);
        let e = prev.last();
        let rest = stopped_events(prev.drop_last(), cur);
        let ev = CollisionEvent::Stopped { a: e.key.a, b: e.key.b };
        assert(rest.push(ev).drop_last() == rest);
        assert(rest.push(ev).last() == ev);
    }
}

/// In one tick a pair gets exactly one Started event if it touches now and
/// did not before, exactly one Stopped event if it touched before and does
/// not now, and no event otherwise; never both.
pub proof fn lemma_one_transition_per_pair(cur: Seq<ContactEntry>, prev: Seq<ContactEntry>, k: ContactKey)
    requires
        keys_unique(cur),
        keys_unique(prev),
    ensures
        count_started(transition_events(cur, prev), k) == if has_key(cur, k) && !has_key(prev, k) {
            1nat
        } else {
            0nat
        },
        count_stopped(transition_events(cur, prev), k) == if !has_key(cur, k) && has_key(prev, k) {
            1nat
        } else {
            0nat
        },
        !(count_started(transition_events(cur, prev), k) > 0 && count_stopped(
            transition_events(cur, prev),
            k,
        ) > 0),
{
    lemma_count_concat(started_events(cur, prev), stopped_events(prev, cur), k);
    lemma_started_counts(cur, prev, k);
    lemma_stopped_counts(prev, cur, k);
}

/// Over consecutive ticks with contact sets `gens` (each tick diffed against
/// the one before), a pair that touches from tick `s` through tick `t` and at
/// neither `s - 1` nor `t + 1` gets one Started event at `s`, one Stopped
/// event at `t + 1`, and no event in between.
pub proof fn lemma_contact_lifecycle(gens: Seq<Seq<ContactEntry>>, k: ContactKey, s: int, t: int)
    requires
        forall|i: int| 0 <= i < gens.len() ==> keys_unique(#[trigger] gens[i]),
        1 <= s <= t,
        t + 1 < gens.len(),
        forall|i: int| s <= i <= t ==> has_key(#[trigger] gens[i], k),
        !has_key(gens[s - 1], k),
        !has_key(gens[t + 1], k),
    ensures
        count_started(transition_events(gens[s], gens[s - 1]), k) == 1,
        count_stopped(transition_events(gens[s], gens[s - 1]), k) == 0,
        forall|i: int|
            s < i <= t ==> count_started(transition_events(#[trigger] gens[i], gens[i - 1]), k) == 0
                && count_stopped(transition_events(gens[i], gens[i - 1]), k) == 0,
        count_started(transition_events(gens[t + 1], gens[t]), k) == 0,
        count_stopped(transition_events(gens[t + 1], gens[t]), k) == 1,
{
    lemma_one_transition_per_pair(gens[s], gens[s - 1], k);
    lemma_one_transition_per_pair(gens[t + 1], gens[t], k);
    assert forall|i: int| s < i <= t implies count_started(
        transition_events(#[trigger] gens[i], gens[i - 1]),
        k,
    ) == 0 && count_stopped(transition_events(gens[i], gens[i - 1]), k) == 0 by {
        lemma_one_transition_per_pair(gens[i], gens[i - 1], k);
        assert(has_key(gens[i - 1], k));
    }
}

} // verus!
