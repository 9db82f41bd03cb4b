//! Turn order: a queue of `(tick, entity)` entries served in ascending order
//! (ties by entity). Each actor's next turn comes `100 - speed` ticks after
//! the current one.
use vstd::prelude::*;
use vstd::multiset::Multiset;
use vstd::seq_lib::{to_multiset_build, to_multiset_remove};

verus! {

/// Identifies a combatant.
pub type EntityId = u64;

/// The constant from which an actor's speed is taken to get its delay.
pub const TURN_SPAN: u32 = 100;

/// Errors of the turn order.
#[derive(Clone, Copy, Debug, PartialEq, Eq, Structural)]
pub enum TurnError {
    /// A speed of `TURN_SPAN` or more, which leaves no positive delay.
    InvalidSpeed,
    /// The next tick would not fit in `u32`.
    TickOverflow,
}

/// Entry `a` is served no later than entry `b`.
pub open spec fn served_before(a: (u32, EntityId), b: (u32, EntityId)) -> bool {
    a.0 < b.0 || (a.0 == b.0 && a.1 <= b.1)
}

/// `m` is in `q` and is served before every entry of `q`.
pub open spec fn is_first(q: Multiset<(u32, EntityId)>, m: (u32, EntityId)) -> bool {
    &&& q.count(m) > 0
    &&& forall|x: (u32, EntityId)| q.count(x) > 0 ==> #[trigger] served_before(m, x)
}

/// The entry served next from a non-empty `q`.
pub open spec fn first_of(q: Multiset<(u32, EntityId)>) -> (u32, EntityId) {
    choose|m: (u32, EntityId)| is_first(q, m)
}

/// The speed listed for `e` in `roster`: its first entry for `e`.
pub open spec fn speed_of(roster: Seq<(EntityId, u32)>, e: EntityId) -> Option<u32>
    decreases roster.len(),
{
    if roster.len() == 0 {
        None
    } else if roster[0].0 == e {
        Some(roster[0].1)
    } else {
        speed_of(roster.drop_first(), e)
    }
}

/// The queue of turns.
pub struct TurnOrder {
    action_queue: Vec<(u32, EntityId)>,
    current_tick: u32,
}

/// What `update_turn_order` does to `before`, given `roster`, leaving `after`
/// and returning `r`. With nothing queued, nothing changes. Otherwise the
/// first entry `(t, e)` is taken; if `e`'s speed in the roster is too high,
/// or its next tick would overflow, the call fails and nothing changes.
/// Otherwise the current tick becomes `t`, the entry is removed and `e` is
/// queued again `100 - speed` ticks later if the roster lists it.
pub open spec fn advanced(
    before: TurnOrder,
    roster: Seq<(EntityId, u32)>,
    after: TurnOrder,
    r: Result<Option<(u32, EntityId)>, TurnError>,
) -> bool {
    let q = before.queued();
    if q.len() == 0 {
        r == Ok::<Option<(u32, EntityId)>, TurnError>(None) && after == before
    } else {
        let m = first_of(q);
        match speed_of(roster, m.1) {
            Some(s) => if s >= TURN_SPAN {
                r == Err::<Option<(u32, EntityId)>, TurnError>(TurnError::InvalidSpeed) && after == before
            } else if m.0 + (TURN_SPAN - s) > u32::MAX {
                r == Err::<Option<(u32, EntityId)>, TurnError>(TurnError::TickOverflow) && after == before
            } else {
                &&& r == Ok::<Option<(u32, EntityId)>, TurnError>(Some(m))
                &&& after.tick() == m.0
                &&& after.queued() == q.remove(m).insert(((m.0 + (TURN_SPAN - s)) as u32, m.1))
            },
            None => {
                &&& r == Ok::<Option<(u32, EntityId)>, TurnError>(Some(m))
                &&& after.tick() == m.0
                &&& after.queued() == q.remove(m)
            },
        }
    }
}

impl TurnOrder {
    /// The queued entries.
    pub closed spec fn queued(&self) -> Multiset<(u32, EntityId)> {
        self.action_queue@.to_multiset()
    }

    /// The tick of the turn under way.
    pub closed spec fn tick(&self) -> u32 {
        self.current_tick
    }

    /// No queued entry lies before the current tick.
    pub open spec fn wf(&self) -> bool {
        forall|x: (u32, EntityId)| self.queued().count(x) > 0 ==> x.0 >= #[trigger] self.tick()
    }

    /// An empty queue at tick 0.
    pub fn new() -> (r: TurnOrder)
        ensures
            r.wf(),
            r.queued() == Multiset::<(u32, EntityId)>::empty(),
            r.tick() == 0,
    {
        let r = TurnOrder { action_queue: Vec::new(), current_tick: 0 };
        proof {
            assert(r.action_queue@ =~= Seq::<(u32, EntityId)>::empty());
            broadcast use vstd::seq_lib::group_to_multiset_ensures;
            assert(r.queued() =~= Multiset::<(u32, EntityId)>::empty());
        }
        r
    }

    /// The tick of the turn under way.
    pub fn current_tick(&self) -> (r: u32)
        ensures
            r == self.tick(),
    {
        self.current_tick
    }

    /// How many entries are queued.
    pub fn len(&self) -> (r: usize)
        ensures
            r == self.queued().len(),
    {
        proof {
            broadcast use vstd::seq_lib::group_to_multiset_ensures;
        }
        self.action_queue.len()
    }

    fn push_entry(&mut self, entry: (u32, EntityId))
        requires
            old(self).wf(),
            entry.0 >= old(self).tick(),
        ensures
            final(self).wf(),
            final(self).tick() == old(self).tick(),
            final(self).queued() == old(self).queued().insert(entry),
    {
        self.action_queue.push(entry);
        proof {
            broadcast use to_multiset_build;
            broadcast use vstd::multiset::group_multiset_axioms;
            assert(self.action_queue@ == old(self).action_queue@.push(entry));
            assert forall|x: (u32, EntityId)| self.queued().count(x) > 0 implies x.0 >= #[trigger] self.tick() by {
                if x != entry {
                    assert(old(self).queued().count(x) > 0);
                }
            }
        }
    }

    /// Queues `entity`, with speed `speed`, to act `100 - speed` ticks after
    /// the current one.
    pub fn add_character(&mut self, entity: EntityId, speed: u32) -> (r: Result<(), TurnError>)
        requires
            old(self).wf(),
        ensures
            final(self).wf(),
            final(self).tick() == old(self).tick(),
            speed >= TURN_SPAN <==> r == Err::<(), TurnError>(TurnError::InvalidSpeed),
            (speed < TURN_SPAN && old(self).tick() + (TURN_SPAN - speed) > u32::MAX)
                <==> r == Err::<(), TurnError>(TurnError::TickOverflow),
            r is Err ==> *final(self) == *old(self),
            r is Ok ==> final(self).queued()
                == old(self).queued().insert(((old(self).tick() + (TURN_SPAN - speed)) as u32, entity)),
    {
        if speed >= TURN_SPAN {
            return Err(TurnError::InvalidSpeed);
        }
        let delay = TURN_SPAN - speed;
        if self.current_tick > u32::MAX - delay {
            return Err(TurnError::TickOverflow);
        }
        let tick = self.current_tick + delay;
        self.push_entry((tick, entity));
        Ok(())
    }

    /// Queues `entity` to act at the current tick, ahead of any later entry.
    pub fn priority_move(&mut self, entity: EntityId)
        requires
            old(self).wf(),
        ensures
            final(self).wf(),
            final(self).tick() == old(self).tick(),
            final(self).queued() == old(self).queued().insert((old(self).tick(), entity)),
    {
        let tick = self.current_tick;
        self.push_entry((tick, entity));
    }

    /// The position in the queue of the entry served next.
    fn first_index(&self) -> (i: usize)
        requires
            self.action_queue@.len() > 0,
        ensures
            i < self.action_queue@.len(),
            forall|j: int| 0 <= j < self.action_queue@.len() ==> served_before(self.action_queue@[i as int], #[trigger] self.action_queue@[j]),
    {
        let mut best: usize = 0;
        let mut k: usize = 1;
        while k < self.action_queue.len()
            invariant
                best < k <= self.action_queue@.len(),
                forall|j: int| 0 <= j < k ==> served_before(self.action_queue@[best as int], #[trigger] self.action_queue@[j]),
            decreases self.action_queue@.len() - k,
        {
            let a = self.action_queue[k];
            let b = self.action_queue[best];
            if a.0 < b.0 || (a.0 == b.0 && a.1 < b.1) {
                best = k;
            }
            k = k + 1;
        }
        best
    }

    /// Takes the turn that comes next: the entry `(t, e)` served first. The
    /// current tick becomes `t`, and `e` is queued again `100 - speed` ticks
    /// later, with its speed looked up in `roster`; an entity that the roster
    /// does not list is not queued again. See `advanced` for the failures.
    pub fn update_turn_order(&mut self, roster: &Vec<(EntityId, u32)>) -> (r: Result<Option<(u32, EntityId)>, TurnError>)
        requires
            old(self).wf(),
        ensures
            final(self).wf(),
            advanced(*old(self), roster@, *final(self), r),
            r matches Ok(Some(m)) ==> m.0 >= old(self).tick() && final(self).tick() == m.0,
    {
        proof {
            broadcast use vstd::seq_lib::group_to_multiset_ensures;
            broadcast use vstd::multiset::group_multiset_axioms;
        }
        if self.action_queue.len() == 0 {
            return Ok(None);
        }
        let i = self.first_index();
        let m = self.action_queue[i];
        let ghost q = self.queued();
        proof {
            let s = self.action_queue@;
            assert(s.contains(m)) by { assert(s[i as int] == m); }
            assert forall|x: (u32, EntityId)| q.count(x) > 0 implies #[trigger] served_before(m, x) by {
                assert(s.contains(x));
                let j = choose|j: int| 0 <= j < s.len() && s[j] == x;
                assert(served_before(s[i as int], s[j]));
            }
            assert(is_first(q, m));
            let c = first_of(q);
            assert(is_first(q, c));
            assert(served_before(c, m) && served_before(m, c));
            assert(c == m);
        }
        let speed = lookup_speed(roster, m.1);
        match speed {
            Some(sp) => {
                if sp >= TURN_SPAN {
                    return Err(TurnError::InvalidSpeed);
                }
                let delay = TURN_SPAN - sp;
                if m.0 > u32::MAX - delay {
                    return Err(TurnError::TickOverflow);
                }
                self.take_first(i, m);
                self.push_entry((m.0 + delay, m.1));
            },
            None => {
                self.take_first(i, m);
            },
        }
        Ok(Some(m))
    }

    fn take_first(&mut self, i: usize, m: (u32, EntityId))
        requires
            old(self).wf(),
            i < old(self).action_queue@.len(),
            old(self).action_queue@[i as int] == m,
            is_first(old(self).queued(), m),
        ensures
            final(self).wf(),
            final(self).tick() == m.0,
            final(self).queued() == old(self).queued().remove(m),
    {
        self.action_queue.remove(i);
        self.current_tick = m.0;
        proof {
            broadcast use to_multiset_remove;
            broadcast use vstd::multiset::group_multiset_axioms;
            assert(self.action_queue@ == old(self).action_queue@.remove(i as int));
            assert forall|x: (u32, EntityId)| self.queued().count(x) > 0 implies x.0 >= #[trigger] self.tick() by {
                assert(old(self).queued().count(x) > 0);
                assert(served_before(m, x));
            }
        }
    }
}

/// The speed that `roster` lists for `e` (its first entry for `e`).
pub fn lookup_speed(roster: &Vec<(EntityId, u32)>, e: EntityId) -> (r: Option<u32>)
    ensures
        r == speed_of(roster@, e),
{
    let mut k: usize = 0;
    proof {
        assert(roster@.subrange(0, roster@.len() as int) =~= roster@);
    }
    while k < roster.len()
        invariant
            k <= roster@.len(),
            speed_of(roster@, e) == speed_of(roster@.subrange(k as int, roster@.len() as int), e),
        decreases roster@.len() - k,
    {
        let (id, sp) = roster[k];
        proof {
            let rest = roster@.subrange(k as int, roster@.len() as int);
            assert(rest[0] == roster@[k as int]);
            assert(rest.drop_first() =~= roster@.subrange(k as int + 1, roster@.len() as int));
        }
        if id == e {
            return Some(sp);
        }
        k = k + 1;
    }
    proof {
        assert(roster@.subrange(k as int, roster@.len() as int).len() == 0);
    }
    None
}

/// A non-empty queue has an entry served first.
proof fn lemma_first_exists(s: Seq<(u32, EntityId)>)
    requires
        s.len() > 0,
    ensures
        exists|m: (u32, EntityId)| #[trigger] is_first(s.to_multiset(), m),
    decreases s.len(),
{
    broadcast use to_multiset_build;
    broadcast use vstd::multiset::group_multiset_axioms;
    broadcast use vstd::seq_lib::group_to_multiset_ensures;
    let rest = s.drop_last();
    let x = s.last();
    assert(s == rest.push(x));
    if rest.len() == 0 {
        assert(rest.to_multiset() =~= Multiset::<(u32, EntityId)>::empty());
        assert(is_first(s.to_multiset(), x));
    } else {
        lemma_first_exists(rest);
        let m = choose|m: (u32, EntityId)| #[trigger] is_first(rest.to_multiset(), m);
        if served_before(m, x) {
            assert(is_first(s.to_multiset(), m));
        } else {
            assert forall|y: (u32, EntityId)| s.to_multiset().count(y) > 0 implies #[trigger] served_before(x, y) by {
                if y != x {
                    assert(rest.to_multiset().count(y) > 0);
                    assert(served_before(m, y));
                }
            }
            assert(is_first(s.to_multiset(), x));
        }
    }
}

/// Turns come in tick order: of two turns taken one after the other, the
/// second is at the same tick as the first or later.
pub proof fn lemma_turns_in_tick_order(
    s0: TurnOrder,
    s1: TurnOrder,
    s2: TurnOrder,
    roster1: Seq<(EntityId, u32)>,
    roster2: Seq<(EntityId, u32)>,
    a: (u32, EntityId),
    b: (u32, EntityId),
)
    requires
        s0.wf(),
        s1.wf(),
        advanced(s0, roster1, s1, Ok(Some(a))),
        advanced(s1, roster2, s2, Ok(Some(b))),
    ensures
        a.0 <= b.0,
{
    broadcast use vstd::seq_lib::group_to_multiset_ensures;
    let q = s1.queued();
    assert(q.len() > 0);
    assert(s1.action_queue@.len() > 0);
    lemma_first_exists(s1.action_queue@);
    assert(is_first(q, first_of(q)));
    assert(q.count(b) > 0);
}

} // verus!
