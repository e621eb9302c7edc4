//! The entities of a game world: their ids and the entities themselves, kept
//! in step, and filled and emptied from the roster's queues once per tick.

use crate::queue::EntityId;
use crate::session::{GameRoster, RosterView};
use std::collections::{BTreeMap, BTreeSet};
use vstd::prelude::*;

verus! {

/// The entities of the world by id, with the set of their ids, which the game
/// loop walks in increasing order.
pub struct GameWorld<A> {
    entity_ids: BTreeSet<EntityId>,
    actors: BTreeMap<EntityId, A>,
}

impl<A> View for GameWorld<A> {
    type V = Map<EntityId, A>;

    /// The entities of the world, by id.
    closed spec fn view(&self) -> Map<EntityId, A> {
        self.actors@
    }
}

/// `m` once the entities with the ids of `ids` are taken out, one by one.
pub open spec fn without_ids<A>(m: Map<EntityId, A>, ids: Seq<EntityId>) -> Map<EntityId, A>
    decreases ids.len(),
{
    if ids.len() == 0 {
        m
    } else {
        without_ids(m, ids.drop_last()).remove(ids.last())
    }
}

/// `m` once the entities of `spawns` are put in under their ids, one by one.
pub open spec fn with_spawns<A>(m: Map<EntityId, A>, spawns: Seq<(EntityId, A)>) -> Map<
    EntityId,
    A,
>
    decreases spawns.len(),
{
    if spawns.len() == 0 {
        m
    } else {
        with_spawns(m, spawns.drop_last()).insert(spawns.last().0, spawns.last().1)
    }
}

/// The ids of `spawns`, in order.
pub open spec fn spawn_ids<A>(spawns: Seq<(EntityId, A)>) -> Seq<EntityId> {
    spawns.map_values(|s: (EntityId, A)| s.0)
}

impl<A> GameWorld<A> {
    /// The set of ids is exactly the set of ids that have an entity.
    pub closed spec fn well_formed(&self) -> bool {
        self.entity_ids@ == self.actors@.dom()
    }

    /// A world without entities.
    pub fn new() -> (w: GameWorld<A>)
        ensures
            w.well_formed(),
            w@ == Map::<EntityId, A>::empty(),
    {
        let w = GameWorld { entity_ids: BTreeSet::new(), actors: BTreeMap::new() };
        assert(w.entity_ids@ =~= w.actors@.dom());
        w
    }

    /// The ids of the entities; iterating the set walks them in increasing
    /// order.
    pub fn entity_ids(&self) -> (ids: &BTreeSet<EntityId>)
        requires
            self.well_formed(),
        ensures
            ids@ == self@.dom(),
    {
        &self.entity_ids
    }

    /// The entities, by id.
    pub fn actors(&self) -> (actors: &BTreeMap<EntityId, A>)
        ensures
            actors@ == self@,
    {
        &self.actors
    }

    /// Takes every entity queued for despawn out of the world (an id without
    /// an entity is passed over), empties the roster's despawn queue, and
    /// gives the ids it held, oldest first.
    pub fn despawn_pending<Tx>(&mut self, roster: &mut GameRoster<Tx, A>) -> (despawned: Vec<
        EntityId,
    >)
        requires
            old(self).well_formed(),
        ensures
            final(self).well_formed(),
            despawned@ == old(roster)@.despawns,
            final(self)@ == without_ids(old(self)@, old(roster)@.despawns),
            final(roster)@ == (RosterView {
                despawns: Seq::<EntityId>::empty(),
                ..old(roster)@
            }),
    {
        let mut despawned: Vec<EntityId> = Vec::new();
        loop
            invariant
                self.well_formed(),
                old(roster)@.despawns == despawned@ + roster@.despawns,
                roster@ == (RosterView { despawns: roster@.despawns, ..old(roster)@ }),
                self@ == without_ids(old(self)@, despawned@),
            ensures
                roster@.despawns.len() == 0,
            decreases roster@.despawns.len(),
        {
            let ghost before = despawned@;
            let ghost waiting = roster@.despawns;
            match roster.pop_despawn() {
                Some(id) => {
                    self.entity_ids.remove(&id);
                    self.actors.remove(&id);
                    despawned.push(id);
                    proof {
                        assert(despawned@.drop_last() =~= before);
                        assert(despawned@ + roster@.despawns =~= before + waiting);
                        assert(self.entity_ids@ =~= self.actors@.dom());
                    }
                },
                None => {
                    break;
                },
            }
        }
        assert(despawned@ + roster@.despawns =~= despawned@);
        assert(roster@.despawns =~= Seq::<EntityId>::empty());
        despawned
    }

    /// Puts every entity queued for spawn into the world under its id,
    /// empties the roster's spawn queue, and gives the ids, oldest first.
    pub fn spawn_pending<Tx>(&mut self, roster: &mut GameRoster<Tx, A>) -> (spawned: Vec<
        EntityId,
    >)
        requires
            old(self).well_formed(),
        ensures
            final(self).well_formed(),
            spawned@ == spawn_ids(old(roster)@.spawns),
            final(self)@ == with_spawns(old(self)@, old(roster)@.spawns),
            final(roster)@ == (RosterView {
                spawns: Seq::<(EntityId, A)>::empty(),
                ..old(roster)@
            }),
    {
        let mut spawned: Vec<EntityId> = Vec::new();
        let ghost taken: Seq<(EntityId, A)> = Seq::empty();
        loop
            invariant
                self.well_formed(),
                old(roster)@.spawns == taken + roster@.spawns,
                roster@ == (RosterView { spawns: roster@.spawns, ..old(roster)@ }),
                spawned@ == spawn_ids(taken),
                self@ == with_spawns(old(self)@, taken),
            ensures
                roster@.spawns.len() == 0,
            decreases roster@.spawns.len(),
        {
            let ghost before = taken;
            let ghost waiting = roster@.spawns;
            match roster.pop_spawn() {
                Some((id, entity)) => {
                    proof {
                        taken = taken.push((id, entity));
                    }
                    self.entity_ids.insert(id);
                    self.actors.insert(id, entity);
                    spawned.push(id);
                    proof {
                        assert(taken.drop_last() =~= before);
                        assert(taken + roster@.spawns =~= before + waiting);
                        assert(spawned@ =~= spawn_ids(taken));
                        assert(self.entity_ids@ =~= self.actors@.dom());
                    }
                },
                None => {
                    break;
                },
            }
        }
        assert(taken + roster@.spawns =~= taken);
        assert(roster@.spawns =~= Seq::<(EntityId, A)>::empty());
        spawned
    }
}

} // verus!
