use vstd::prelude::*;
use crate::components::{Bullet, Health, Lifetime, Target, Tower, TowerBase};
use crate::geometry::{direction_in_range, Position};

verus! {

/// One entity: its identifier, an optional parent, its translation and the
/// components attached to it.
#[derive(Clone, Copy, Debug)]
pub struct EntityData {
    pub id: u64,
    pub parent: Option<u64>,
    pub translation: Position,
    pub tower: Option<Tower>,
    pub tower_base: Option<TowerBase>,
    pub target: Option<Target>,
    pub health: Option<Health>,
    pub bullet: Option<Bullet>,
    pub lifetime: Option<Lifetime>,
}

/// The entity store: entities in the order they were spawned.
pub struct World {
    pub entities: Vec<EntityData>,
    pub next_id: u64,
}

/// The timers of `e` are well formed, its tower timer repeats while its
/// lifetime timer does not, and a bullet's direction is within range.
pub open spec fn entity_wf(e: EntityData) -> bool {
    &&& e.tower is Some ==> e.tower->0.shooting_timer.wf() && e.tower->0.shooting_timer.repeating
    &&& e.lifetime is Some ==> e.lifetime->0.timer.wf() && !e.lifetime->0.timer.repeating
    &&& e.bullet is Some ==> direction_in_range(e.bullet->0.direction)
    &&& e.parent is Some ==> e.parent->0 < e.id
}

/// Identifiers strictly increase along `s` and stay below `next`; every
/// parent precedes its children; every entity is well formed.
pub open spec fn entities_wf(s: Seq<EntityData>, next: u64) -> bool {
    &&& forall|i: int, j: int| 0 <= i < j < s.len() ==> s[i].id < s[j].id
    &&& forall|i: int| 0 <= i < s.len() ==> s[i].id < next
    &&& forall|i: int| 0 <= i < s.len() ==> entity_wf(#[trigger] s[i])
}

/// Identifiers of the entities among the first `n` of `s` that lie in the
/// subtree of one of `roots`: an entity does when it is a root, or when its
/// parent is an earlier entity that does.
pub open spec fn subtree_ids(s: Seq<EntityData>, roots: Set<u64>, n: int) -> Set<u64>
    decreases n,
{
    if n <= 0 {
        Set::empty()
    } else {
        let d = subtree_ids(s, roots, n - 1);
        let e = s[n - 1];
        if roots.contains(e.id) || (e.parent is Some && d.contains(e.parent->0)) {
            d.insert(e.id)
        } else {
            d
        }
    }
}

/// The first `n` entities of `s` whose identifiers are not in `dead`, in order.
pub open spec fn without(s: Seq<EntityData>, dead: Set<u64>, n: int) -> Seq<EntityData>
    decreases n,
{
    if n <= 0 {
        Seq::empty()
    } else if dead.contains(s[n - 1].id) {
        without(s, dead, n - 1)
    } else {
        without(s, dead, n - 1).push(s[n - 1])
    }
}

/// `s` after removing every entity in the subtree of one of `roots`.
pub open spec fn despawned(s: Seq<EntityData>, roots: Set<u64>) -> Seq<EntityData> {
    without(s, subtree_ids(s, roots, s.len() as int), s.len() as int)
}

/// Whether `v` holds `x`.
fn holds(v: &Vec<u64>, x: u64) -> (r: bool)
    ensures
        r == v@.contains(x),
{
    let mut i: usize = 0;
    while i < v.len()
        invariant
            i <= v.len(),
            forall|k: int| 0 <= k < i ==> v@[k] != x,
        decreases v.len() - i,
    {
        if v[i] == x {
            return true;
        }
        i += 1;
    }
    false
}

impl World {
    pub open spec fn wf(&self) -> bool {
        entities_wf(self.entities@, self.next_id)
    }

    /// An empty world.
    pub fn new() -> (w: World)
        ensures
            w.wf(),
            w.entities@.len() == 0,
            w.next_id == 0,
    {
        World { entities: Vec::new(), next_id: 0 }
    }

    /// Number of entities.
    pub fn len(&self) -> (r: usize)
        ensures
            r == self.entities@.len(),
    {
        self.entities.len()
    }

    /// Index of the entity with identifier `id`, if there is one.
    pub fn find(&self, id: u64) -> (r: Option<usize>)
        ensures
            r is Some ==> r->0 < self.entities@.len() && self.entities@[r->0 as int].id == id,
            r is None ==> forall|i: int| 0 <= i < self.entities@.len() ==> self.entities@[i].id != id,
    {
        let mut i: usize = 0;
        while i < self.entities.len()
            invariant
                i <= self.entities@.len(),
                forall|k: int| 0 <= k < i ==> self.entities@[k].id != id,
            decreases self.entities@.len() - i,
        {
            if self.entities[i].id == id {
                return Some(i);
            }
            i += 1;
        }
        None
    }

    /// Whether an entity with identifier `id` exists.
    pub fn contains(&self, id: u64) -> (r: bool)
        ensures
            r <==> exists|i: int| 0 <= i < self.entities@.len() && self.entities@[i].id == id,
    {
        match self.find(id) {
            Some(i) => true,
            None => false,
        }
    }

    /// Adds `e` under a fresh identifier, which it returns. The parent, if
    /// any, must be an identifier already handed out; `None` when it is not
    /// or when identifiers are exhausted, and then nothing changes.
    pub fn spawn(&mut self, e: EntityData) -> (r: Option<u64>)
        requires
            old(self).wf(),
            e.tower is Some ==> e.tower->0.shooting_timer.wf() && e.tower->0.shooting_timer.repeating,
            e.lifetime is Some ==> e.lifetime->0.timer.wf() && !e.lifetime->0.timer.repeating,
            e.bullet is Some ==> direction_in_range(e.bullet->0.direction),
        ensures
            final(self).wf(),
            r is Some <==> (old(self).next_id < u64::MAX && (e.parent is Some ==> e.parent->0
                < old(self).next_id)),
            r is Some ==> r->0 == old(self).next_id && final(self).next_id == old(self).next_id + 1
                && final(self).entities@ == old(self).entities@.push(
                (EntityData { id: old(self).next_id, ..e }),
            ),
            r is None ==> *final(self) == *old(self),
    {
        if self.next_id == u64::MAX {
            return None;
        }
        match e.parent {
            Some(p) => {
                if p >= self.next_id {
                    return None;
                }
            },
            None => {},
        }
        let id = self.next_id;
        self.entities.push(EntityData { id, ..e });
        self.next_id = id + 1;
        Some(id)
    }

    /// Removes every entity in the subtree of one of `roots` (the root
    /// itself and all its descendants), keeping the others in order.
    pub fn despawn_subtrees(&mut self, roots: &Vec<u64>)
        requires
            old(self).wf(),
        ensures
            final(self).wf(),
            final(self).next_id == old(self).next_id,
            final(self).entities@ == despawned(old(self).entities@, roots@.to_set()),
    {
        let ghost s = self.entities@;
        let ghost rs = roots@.to_set();
        let n = self.entities.len();
        let mut dead: Vec<u64> = Vec::new();
        let mut i: usize = 0;
        while i < n
            invariant
                n == s.len(),
                s == self.entities@,
                i <= n,
                rs == roots@.to_set(),
                forall|x: u64| dead@.contains(x) <==> subtree_ids(s, rs, i as int).contains(x),
            decreases n - i,
        {
            let e = self.entities[i];
            let in_root = holds(roots, e.id);
            let under_dead = match e.parent {
                Some(p) => holds(&dead, p),
                None => false,
            };
            proof {
                assert(rs.contains(e.id) == roots@.contains(e.id));
            }
            if in_root || under_dead {
                let ghost prev = dead@;
                dead.push(e.id);
                proof {
                    assert forall|x: u64| dead@.contains(x) <==> subtree_ids(s, rs, i + 1).contains(x) by {
                        if x == e.id {
                            assert(dead@[dead@.len() - 1] == x);
                        } else {
                            if prev.contains(x) {
                                let k = choose|k: int| 0 <= k < prev.len() && prev[k] == x;
                                assert(dead@[k] == x);
                            }
                            if dead@.contains(x) {
                                let k = choose|k: int| 0 <= k < dead@.len() && dead@[k] == x;
                                assert(prev[k] == x);
                            }
                        }
                    }
                }
            }
            i += 1;
        }
        let ghost d = subtree_ids(s, rs, n as int);
        let mut kept: Vec<EntityData> = Vec::new();
        let mut j: usize = 0;
        while j < n
            invariant
                n == s.len(),
                s == self.entities@,
                j <= n,
                d == subtree_ids(s, rs, n as int),
                entities_wf(s, self.next_id),
                forall|x: u64| dead@.contains(x) <==> d.contains(x),
                kept@ == without(s, d, j as int),
                forall|k: int|
                    0 <= k < kept@.len() ==> exists|m: int| 0 <= m < j && s[m] == #[trigger] kept@[k],
                entities_wf(kept@, self.next_id),
                forall|k: int, m: int| 0 <= k < kept@.len() && j <= m < n ==> kept@[k].id < s[m].id,
            decreases n - j,
        {
            let e = self.entities[j];
            if !holds(&dead, e.id) {
                kept.push(e);
                proof {
                    assert(kept@.last() == s[j as int]);
                    assert forall|k: int| 0 <= k < kept@.len() implies exists|m: int|
                        0 <= m < j + 1 && s[m] == #[trigger] kept@[k] by {
                        if k == kept@.len() - 1 {
                            assert(s[j as int] == kept@[k]);
                        } else {
                            assert(kept@.drop_last()[k] == kept@[k]);
                        }
                    }
                }
            }
            j += 1;
        }
        self.entities = kept;
    }

    /// Removes the entity `id` and all its descendants, keeping the others
    /// in order.
    pub fn despawn_recursive(&mut self, id: u64)
        requires
            old(self).wf(),
        ensures
            final(self).wf(),
            final(self).next_id == old(self).next_id,
            final(self).entities@ == despawned(old(self).entities@, set![id]),
    {
        let roots: Vec<u64> = vec![id];
        proof {
            assert(roots@.to_set() =~= set![id]) by {
                assert(roots@[0] == id);
            }
        }
        self.despawn_subtrees(&roots);
    }
}

} // verus!
