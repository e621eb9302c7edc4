//! The players connected to a game, and what each of them must hear about
//! every entity on each tick.

use crate::queue::{EntityId, EntityIdGenerator, GameQueue};
use vstd::prelude::*;

verus! {

/// A connected player: the id of the pawn it controls, the channel its
/// updates go to, and whether it still needs the full state of every entity.
pub struct ConnectedPlayer<Tx> {
    pub pawn_id: EntityId,
    pub tx: Tx,
    pub needs_inits: bool,
}

/// What a player hears about one entity on one tick.
#[derive(Debug, Clone, Copy, PartialEq, Eq, Structural)]
pub enum EntityReport {
    /// The entity's full state (the player has not seen it yet).
    Init,
    /// The entity's new state.
    Update,
    /// Nothing.
    Nothing,
}

/// What a player hears about an entity: its full state while the player
/// needs inits, else its new state when the entity has one, else nothing.
pub open spec fn entity_report_for(needs_inits: bool, has_update: bool) -> EntityReport {
    if needs_inits {
        EntityReport::Init
    } else if has_update {
        EntityReport::Update
    } else {
        EntityReport::Nothing
    }
}

/// The connected players of a game, in the order they connected.
pub struct Clients<Tx> {
    players: Vec<ConnectedPlayer<Tx>>,
}

impl<Tx> View for Clients<Tx> {
    type V = Seq<ConnectedPlayer<Tx>>;

    closed spec fn view(&self) -> Seq<ConnectedPlayer<Tx>> {
        self.players@
    }
}

/// Holds of the players whose pawn is not `pawn_id`.
pub open spec fn other_pawn<Tx>(pawn_id: EntityId) -> spec_fn(ConnectedPlayer<Tx>) -> bool {
    |c: ConnectedPlayer<Tx>| c.pawn_id != pawn_id
}

/// `c` once it has received every init it needed.
pub open spec fn inits_received<Tx>(c: ConnectedPlayer<Tx>) -> ConnectedPlayer<Tx> {
    ConnectedPlayer { needs_inits: false, ..c }
}

impl<Tx> Clients<Tx> {
    /// No player connected.
    pub fn new() -> (c: Clients<Tx>)
        ensures
            c@ == Seq::<ConnectedPlayer<Tx>>::empty(),
    {
        Clients { players: Vec::new() }
    }

    /// The number of connected players.
    pub fn len(&self) -> (n: usize)
        ensures
            n == self@.len(),
    {
        self.players.len()
    }

    /// The player at `index`, in connection order.
    pub fn get(&self, index: usize) -> (c: &ConnectedPlayer<Tx>)
        requires
            index < self@.len(),
        ensures
            *c == self@[index as int],
    {
        &self.players[index]
    }

    /// Adds a player that controls `pawn_id` and hears through `tx`; it needs
    /// the full state of every entity.
    pub fn connect(&mut self, pawn_id: EntityId, tx: Tx)
        ensures
            final(self)@ == old(self)@.push(ConnectedPlayer { pawn_id, tx, needs_inits: true }),
    {
        self.players.push(ConnectedPlayer { pawn_id, tx, needs_inits: true });
    }

    /// Removes every player that controls `pawn_id`, keeping the others in
    /// order.
    pub fn disconnect(&mut self, pawn_id: EntityId)
        ensures
            final(self)@ == old(self)@.filter(other_pawn(pawn_id)),
    {
        let ghost before = self@;
        let ghost pred = other_pawn::<Tx>(pawn_id);
        let mut kept: Vec<ConnectedPlayer<Tx>> = Vec::new();
        let mut rest: Vec<ConnectedPlayer<Tx>> = Vec::new();
        std::mem::swap(&mut rest, &mut self.players);
        let n = rest.len();
        let mut remaining: Vec<ConnectedPlayer<Tx>> = Vec::new();
        // Reverse `rest` so that popping hands out the players in order.
        let mut i: usize = 0;
        while i < n
            invariant
                n == before.len(),
                i <= n,
                rest@ == before.take(n - i),
                remaining@ == before.skip(n - i).reverse(),
            decreases n - i,
        {
            let c = rest.pop().unwrap();
            remaining.push(c);
            proof {
                assert(rest@ =~= before.take(n - i - 1));
                assert(before.skip(n - i - 1) =~= seq![before[n - i - 1]] + before.skip(n - i));
                assert(remaining@ =~= before.skip(n - i - 1).reverse());
            }
            i = i + 1;
        }
        assert(before.skip(0) =~= before);
        let mut j: usize = 0;
        while j < n
            invariant
                n == before.len(),
                j <= n,
                pred == other_pawn::<Tx>(pawn_id),
                remaining@ == before.skip(j as int).reverse(),
                kept@ == before.take(j as int).filter(pred),
            decreases n - j,
        {
            let c = remaining.pop().unwrap();
            proof {
                assert(before.skip(j as int).reverse().last() == before[j as int]);
                assert(before.skip(j as int).reverse().drop_last() =~= before.skip(j + 1).reverse());
                assert(before.take(j + 1).drop_last() =~= before.take(j as int));
                assert(before.take(j + 1).last() == before[j as int]);
                assert(before.take(j + 1).filter(pred) == (if pred(c) {
                    before.take(j as int).filter(pred).push(c)
                } else {
                    before.take(j as int).filter(pred)
                })) by {
                    reveal_with_fuel(Seq::filter, 1);
                }
            }
            if c.pawn_id != pawn_id {
                kept.push(c);
            }
            j = j + 1;
        }
        assert(before.take(n as int) =~= before);
        self.players = kept;
    }

    /// Marks every player as having received every init it needed.
    pub fn mark_inits_sent(&mut self)
        ensures
            final(self)@ == old(self)@.map_values(|c: ConnectedPlayer<Tx>| inits_received(c)),
    {
        let ghost before = self@;
        let n = self.players.len();
        let mut i: usize = 0;
        while i < n
            invariant
                n == self.players@.len(),
                n == before.len(),
                i <= n,
                forall|j: int|
                    0 <= j < n ==> #[trigger] self.players@[j] == (if j < i {
                        inits_received(before[j])
                    } else {
                        before[j]
                    }),
            decreases n - i,
        {
            self.players[i].needs_inits = false;
            i = i + 1;
        }
        assert(self@ =~= before.map_values(|c: ConnectedPlayer<Tx>| inits_received(c)));
    }

    /// What each player hears about one entity (see `entity_report_for`), in
    /// connection order.
    pub fn entity_reports(&self, has_update: bool) -> (r: Vec<EntityReport>)
        ensures
            r@ == self@.map_values(
                |c: ConnectedPlayer<Tx>| entity_report_for(c.needs_inits, has_update),
            ),
    {
        let n = self.players.len();
        let mut r: Vec<EntityReport> = Vec::new();
        let mut i: usize = 0;
        while i < n
            invariant
                n == self@.len(),
                i <= n,
                r@ == self@.take(i as int).map_values(
                    |c: ConnectedPlayer<Tx>| entity_report_for(c.needs_inits, has_update),
                ),
            decreases n - i,
        {
            let report = entity_report(self.players[i].needs_inits, has_update);
            r.push(report);
            assert(self@.take(i + 1).map_values(
                |c: ConnectedPlayer<Tx>| entity_report_for(c.needs_inits, has_update),
            ) =~= self@.take(i as int).map_values(
                |c: ConnectedPlayer<Tx>| entity_report_for(c.needs_inits, has_update),
            ).push(report));
            i = i + 1;
        }
        assert(self@.take(n as int) =~= self@);
        r
    }
}

/// What a player hears about an entity (see `entity_report_for`).
pub fn entity_report(needs_inits: bool, has_update: bool) -> (r: EntityReport)
    ensures
        r == entity_report_for(needs_inits, has_update),
{
    if needs_inits {
        EntityReport::Init
    } else if has_update {
        EntityReport::Update
    } else {
        EntityReport::Nothing
    }
}

/// The bookkeeping of a game: the entity ids handed out, the connected
/// players, and the entities waiting to be spawned or despawned at the next
/// tick. `Tx` is what a player's updates go through, `A` an entity.
pub struct GameRoster<Tx, A> {
    entity_id_gen: EntityIdGenerator,
    clients: Clients<Tx>,
    spawn_queue: GameQueue<(EntityId, A)>,
    despawn_queue: GameQueue<EntityId>,
}

/// The state of a `GameRoster`.
pub struct RosterView<Tx, A> {
    /// The id that the next new entity gets.
    pub next_id: nat,
    pub clients: Seq<ConnectedPlayer<Tx>>,
    /// Entities to spawn at the next tick, with their ids, oldest first.
    pub spawns: Seq<(EntityId, A)>,
    /// Ids of the entities to despawn at the next tick, oldest first.
    pub despawns: Seq<EntityId>,
}

impl<Tx, A> View for GameRoster<Tx, A> {
    type V = RosterView<Tx, A>;

    closed spec fn view(&self) -> RosterView<Tx, A> {
        RosterView {
            next_id: self.entity_id_gen@,
            clients: self.clients@,
            spawns: self.spawn_queue@,
            despawns: self.despawn_queue@,
        }
    }
}

impl<Tx, A> GameRoster<Tx, A> {
    /// No player, no pending entity; the first id handed out is 1.
    pub fn new() -> (r: GameRoster<Tx, A>)
        ensures
            r@.next_id == 1,
            r@.clients == Seq::<ConnectedPlayer<Tx>>::empty(),
            r@.spawns == Seq::<(EntityId, A)>::empty(),
            r@.despawns == Seq::<EntityId>::empty(),
    {
        GameRoster {
            entity_id_gen: EntityIdGenerator::new(),
            clients: Clients::new(),
            spawn_queue: GameQueue::new(),
            despawn_queue: GameQueue::new(),
        }
    }

    /// The id that the next new entity gets.
    pub fn peek_id(&self) -> (id: EntityId)
        ensures
            id == self@.next_id,
    {
        self.entity_id_gen.peek()
    }

    /// Hands out a fresh entity id for a connecting player.
    pub fn allocate_id(&mut self) -> (id: EntityId)
        requires
            old(self)@.next_id < EntityId::MAX,
        ensures
            id == old(self)@.next_id,
            final(self)@ == (RosterView { next_id: old(self)@.next_id + 1, ..old(self)@ }),
    {
        self.entity_id_gen.next()
    }

    /// A player whose connection was confirmed: it controls the entity `id`,
    /// hears through `tx`, and its `pawn` spawns at the next tick.
    pub fn add_player(&mut self, id: EntityId, tx: Tx, pawn: A)
        ensures
            final(self)@ == (RosterView {
                clients: old(self)@.clients.push(ConnectedPlayer { pawn_id: id, tx, needs_inits: true }),
                spawns: old(self)@.spawns.push((id, pawn)),
                ..old(self)@
            }),
    {
        self.clients.connect(id, tx);
        self.spawn_queue.push((id, pawn));
    }

    /// A player that left: its clients go, and its pawn despawns at the next
    /// tick.
    pub fn drop_player(&mut self, id: EntityId)
        ensures
            final(self)@ == (RosterView {
                clients: old(self)@.clients.filter(other_pawn(id)),
                despawns: old(self)@.despawns.push(id),
                ..old(self)@
            }),
    {
        self.clients.disconnect(id);
        self.despawn_queue.push(id);
    }

    /// Queues `entity` to spawn at the next tick under a fresh id, and gives
    /// that id.
    pub fn spawn(&mut self, entity: A) -> (id: EntityId)
        requires
            old(self)@.next_id < EntityId::MAX,
        ensures
            id == old(self)@.next_id,
            final(self)@ == (RosterView {
                next_id: old(self)@.next_id + 1,
                spawns: old(self)@.spawns.push((id, entity)),
                ..old(self)@
            }),
    {
        let id = self.entity_id_gen.next();
        self.spawn_queue.push((id, entity));
        id
    }

    /// Queues the entity `id` to despawn at the next tick.
    pub fn despawn(&mut self, id: EntityId)
        ensures
            final(self)@ == (RosterView { despawns: old(self)@.despawns.push(id), ..old(self)@ }),
    {
        self.despawn_queue.push(id);
    }

    /// Takes out the oldest entity waiting to spawn, or gives `None` when
    /// none waits.
    pub fn pop_spawn(&mut self) -> (r: Option<(EntityId, A)>)
        ensures
            old(self)@.spawns.len() == 0 ==> r is None && final(self)@ == old(self)@,
            old(self)@.spawns.len() > 0 ==> r == Some(old(self)@.spawns[0]) && final(self)@ == (
            RosterView { spawns: old(self)@.spawns.drop_first(), ..old(self)@ }),
    {
        self.spawn_queue.pop_front()
    }

    /// Takes out the id of the oldest entity waiting to despawn, or gives
    /// `None` when none waits.
    pub fn pop_despawn(&mut self) -> (r: Option<EntityId>)
        ensures
            old(self)@.despawns.len() == 0 ==> r is None && final(self)@ == old(self)@,
            old(self)@.despawns.len() > 0 ==> r == Some(old(self)@.despawns[0]) && final(self)@ == (
            RosterView { despawns: old(self)@.despawns.drop_first(), ..old(self)@ }),
    {
        self.despawn_queue.pop_front()
    }

    /// The connected players.
    pub fn clients(&self) -> (c: &Clients<Tx>)
        ensures
            c@ == self@.clients,
    {
        &self.clients
    }

    /// Marks every player as having received every init it needed.
    pub fn mark_inits_sent(&mut self)
        ensures
            final(self)@ == (RosterView {
                clients: old(self)@.clients.map_values(|c: ConnectedPlayer<Tx>| inits_received(c)),
                ..old(self)@
            }),
    {
        self.clients.mark_inits_sent();
    }
}

/// What kind of message a player gets about an entity during a tick.
#[derive(Debug, Clone, Copy, PartialEq, Eq, Structural)]
pub enum DeliveryKind {
    /// The entity left the world.
    Despawn,
    /// The entity's full state, for a player that has not seen it yet.
    Init,
    /// The entity's new state.
    Update,
    /// A newly spawned entity's full state.
    Spawn,
}

/// One message of a tick: to the player at index `client`, about `entity`.
#[derive(Debug, Clone, Copy, PartialEq, Eq, Structural)]
pub struct Delivery {
    pub client: usize,
    pub kind: DeliveryKind,
    pub entity: EntityId,
}

/// Whether each connected player still needs the full state of every entity.
pub open spec fn init_flags<Tx>(clients: Seq<ConnectedPlayer<Tx>>) -> Seq<bool> {
    clients.map_values(|c: ConnectedPlayer<Tx>| c.needs_inits)
}

/// One message of `kind` about `entity` to each of `n` players, in order.
pub open spec fn broadcast(n: nat, kind: DeliveryKind, entity: EntityId) -> Seq<Delivery> {
    Seq::new(n, |c: int| Delivery { client: c as usize, kind, entity })
}

/// `broadcast` for each entity of `ids`, entity after entity.
pub open spec fn broadcast_all(n: nat, kind: DeliveryKind, ids: Seq<EntityId>) -> Seq<Delivery>
    decreases ids.len(),
{
    if ids.len() == 0 {
        Seq::empty()
    } else {
        broadcast_all(n, kind, ids.drop_last()) + broadcast(n, kind, ids.last())
    }
}

/// The message that the player at `client` gets about a ticked entity (see
/// `entity_report_for`), if any.
pub open spec fn ticked_delivery(client: int, needs_inits: bool, entity: EntityId, updated: bool) -> Seq<
    Delivery,
> {
    match entity_report_for(needs_inits, updated) {
        EntityReport::Init => seq![Delivery { client: client as usize, kind: DeliveryKind::Init, entity }],
        EntityReport::Update => seq![
            Delivery { client: client as usize, kind: DeliveryKind::Update, entity },
        ],
        EntityReport::Nothing => Seq::empty(),
    }
}

/// The messages about one ticked entity, player after player, for players
/// whose init needs are `flags`.
pub open spec fn entity_deliveries(flags: Seq<bool>, entity: EntityId, updated: bool) -> Seq<Delivery>
    decreases flags.len(),
{
    if flags.len() == 0 {
        Seq::empty()
    } else {
        entity_deliveries(flags.drop_last(), entity, updated) + ticked_delivery(
            flags.len() - 1,
            flags.last(),
            entity,
            updated,
        )
    }
}

/// The messages about the ticked entities, entity after entity; each entity
/// comes with whether its tick gave it a new state.
pub open spec fn ticked_deliveries(flags: Seq<bool>, ticked: Seq<(EntityId, bool)>) -> Seq<Delivery>
    decreases ticked.len(),
{
    if ticked.len() == 0 {
        Seq::empty()
    } else {
        ticked_deliveries(flags, ticked.drop_last()) + entity_deliveries(
            flags,
            ticked.last().0,
            ticked.last().1,
        )
    }
}

/// Every message of one tick, in the order they go out: every player hears of
/// the despawned entities; then, entity after entity, of the ticked ones (the
/// full state while it needs inits, else the new state if there is one); then
/// of the entities spawned during the tick.
pub open spec fn tick_plan(
    flags: Seq<bool>,
    despawned: Seq<EntityId>,
    ticked: Seq<(EntityId, bool)>,
    spawned: Seq<EntityId>,
) -> Seq<Delivery> {
    broadcast_all(flags.len(), DeliveryKind::Despawn, despawned) + ticked_deliveries(flags, ticked)
        + broadcast_all(flags.len(), DeliveryKind::Spawn, spawned)
}

/// Appends one message of `kind` about `entity` to each of `n` players.
fn push_broadcast(out: &mut Vec<Delivery>, n: usize, kind: DeliveryKind, entity: EntityId)
    ensures
        final(out)@ == old(out)@ + broadcast(n as nat, kind, entity),
{
    let ghost start = out@;
    let mut c: usize = 0;
    while c < n
        invariant
            c <= n,
            out@ == start + broadcast(c as nat, kind, entity),
        decreases n - c,
    {
        out.push(Delivery { client: c, kind, entity });
        assert(broadcast((c + 1) as nat, kind, entity) =~= broadcast(c as nat, kind, entity).push(
            Delivery { client: c, kind, entity },
        ));
        c = c + 1;
    }
}

/// Appends `broadcast` for each entity of `ids`.
fn push_broadcast_all(out: &mut Vec<Delivery>, n: usize, kind: DeliveryKind, ids: &Vec<EntityId>)
    ensures
        final(out)@ == old(out)@ + broadcast_all(n as nat, kind, ids@),
{
    let ghost start = out@;
    let mut i: usize = 0;
    while i < ids.len()
        invariant
            i <= ids@.len(),
            out@ == start + broadcast_all(n as nat, kind, ids@.take(i as int)),
        decreases ids@.len() - i,
    {
        push_broadcast(out, n, kind, ids[i]);
        assert(ids@.take(i + 1).drop_last() =~= ids@.take(i as int));
        assert(ids@.take(i + 1).last() == ids@[i as int]);
        i = i + 1;
    }
    assert(ids@.take(ids@.len() as int) =~= ids@);
}

impl<Tx> Clients<Tx> {
    /// Appends the messages about one ticked entity (see `entity_deliveries`).
    fn push_entity_deliveries(&self, out: &mut Vec<Delivery>, entity: EntityId, updated: bool)
        ensures
            final(out)@ == old(out)@ + entity_deliveries(init_flags(self@), entity, updated),
    {
        let ghost start = out@;
        let ghost flags = init_flags(self@);
        let n = self.players.len();
        let mut c: usize = 0;
        while c < n
            invariant
                n == self@.len(),
                flags == init_flags(self@),
                c <= n,
                out@ == start + entity_deliveries(flags.take(c as int), entity, updated),
            decreases n - c,
        {
            let needs_inits = self.players[c].needs_inits;
            let ghost before = out@;
            match entity_report(needs_inits, updated) {
                EntityReport::Init => out.push(Delivery { client: c, kind: DeliveryKind::Init, entity }),
                EntityReport::Update => out.push(
                    Delivery { client: c, kind: DeliveryKind::Update, entity },
                ),
                EntityReport::Nothing => {},
            }
            proof {
                assert(flags.take(c + 1).drop_last() =~= flags.take(c as int));
                assert(flags.take(c + 1).last() == needs_inits);
                assert(out@ =~= before + ticked_delivery(c as int, needs_inits, entity, updated));
            }
            c = c + 1;
        }
        assert(flags.take(n as int) =~= flags);
    }

    /// Every message of one tick (see `tick_plan`), for these players, the
    /// entities despawned at its start, the entities ticked (each with whether
    /// its tick gave it a new state) and the entities spawned during it.
    pub fn tick_deliveries(
        &self,
        despawned: &Vec<EntityId>,
        ticked: &Vec<(EntityId, bool)>,
        spawned: &Vec<EntityId>,
    ) -> (out: Vec<Delivery>)
        ensures
            out@ == tick_plan(init_flags(self@), despawned@, ticked@, spawned@),
    {
        let n = self.players.len();
        let mut out: Vec<Delivery> = Vec::new();
        push_broadcast_all(&mut out, n, DeliveryKind::Despawn, despawned);
        let ghost after_despawns = out@;
        let mut i: usize = 0;
        while i < ticked.len()
            invariant
                n == self@.len(),
                i <= ticked@.len(),
                out@ == after_despawns + ticked_deliveries(init_flags(self@), ticked@.take(i as int)),
            decreases ticked@.len() - i,
        {
            let (entity, updated) = ticked[i];
            self.push_entity_deliveries(&mut out, entity, updated);
            proof {
                assert(ticked@.take(i + 1).drop_last() =~= ticked@.take(i as int));
                assert(ticked@.take(i + 1).last() == ticked@[i as int]);
            }
            i = i + 1;
        }
        assert(ticked@.take(ticked@.len() as int) =~= ticked@);
        push_broadcast_all(&mut out, n, DeliveryKind::Spawn, spawned);
        assert(out@ =~= tick_plan(init_flags(self@), despawned@, ticked@, spawned@));
        out
    }
}

/// Holds of the messages to the player at index `client`.
pub open spec fn to_client(client: int) -> spec_fn(Delivery) -> bool {
    |d: Delivery| d.client == client
}

/// Every message of `broadcast_all` is of its kind.
proof fn lemma_broadcast_all_kind(n: nat, kind: DeliveryKind, ids: Seq<EntityId>)
    ensures
        forall|k: int|
            0 <= k < broadcast_all(n, kind, ids).len() ==> (#[trigger] broadcast_all(n, kind, ids)[k]).kind
                == kind,
    decreases ids.len(),
{
    if ids.len() > 0 {
        lemma_broadcast_all_kind(n, kind, ids.drop_last());
        let prefix = broadcast_all(n, kind, ids.drop_last());
        let tail = broadcast(n, kind, ids.last());
        assert forall|k: int| 0 <= k < (prefix + tail).len() implies (#[trigger] (prefix + tail)[k]).kind
            == kind by {
            if k < prefix.len() {
                assert((prefix + tail)[k] == prefix[k]);
            } else {
                assert((prefix + tail)[k] == tail[k - prefix.len()]);
            }
        }
    }
}

/// The messages about one ticked entity are about that entity, go to the
/// players that exist, and are inits or updates.
proof fn lemma_entity_deliveries_shape(flags: Seq<bool>, entity: EntityId, updated: bool)
    requires
        flags.len() <= usize::MAX,
    ensures
        forall|k: int|
            0 <= k < entity_deliveries(flags, entity, updated).len() ==> {
                let d = #[trigger] entity_deliveries(flags, entity, updated)[k];
                &&& d.entity == entity
                &&& d.client < flags.len()
                &&& (d.kind == DeliveryKind::Init || d.kind == DeliveryKind::Update)
            },
    decreases flags.len(),
{
    if flags.len() > 0 {
        lemma_entity_deliveries_shape(flags.drop_last(), entity, updated);
        let prefix = entity_deliveries(flags.drop_last(), entity, updated);
        let tail = ticked_delivery(flags.len() - 1, flags.last(), entity, updated);
        assert forall|k: int| 0 <= k < (prefix + tail).len() implies {
            let d = #[trigger] (prefix + tail)[k];
            &&& d.entity == entity
            &&& d.client < flags.len()
            &&& (d.kind == DeliveryKind::Init || d.kind == DeliveryKind::Update)
        } by {
            if k < prefix.len() {
                assert((prefix + tail)[k] == prefix[k]);
            } else {
                assert((prefix + tail)[k] == tail[k - prefix.len()]);
            }
        }
    }
}

/// Every message about the ticked entities is an init or an update.
proof fn lemma_ticked_deliveries_kind(flags: Seq<bool>, ticked: Seq<(EntityId, bool)>)
    requires
        flags.len() <= usize::MAX,
    ensures
        forall|k: int|
            0 <= k < ticked_deliveries(flags, ticked).len() ==> ((#[trigger] ticked_deliveries(
                flags,
                ticked,
            )[k]).kind == DeliveryKind::Init || ticked_deliveries(flags, ticked)[k].kind
                == DeliveryKind::Update),
    decreases ticked.len(),
{
    if ticked.len() > 0 {
        lemma_ticked_deliveries_kind(flags, ticked.drop_last());
        lemma_entity_deliveries_shape(flags, ticked.last().0, ticked.last().1);
        let prefix = ticked_deliveries(flags, ticked.drop_last());
        let tail = entity_deliveries(flags, ticked.last().0, ticked.last().1);
        assert forall|k: int| 0 <= k < (prefix + tail).len() implies ((#[trigger] (prefix
            + tail)[k]).kind == DeliveryKind::Init || (prefix + tail)[k].kind
            == DeliveryKind::Update) by {
            if k < prefix.len() {
                assert((prefix + tail)[k] == prefix[k]);
            } else {
                assert((prefix + tail)[k] == tail[k - prefix.len()]);
            }
        }
    }
}

/// Despawns come first: in a tick's messages, every message before a despawn
/// is a despawn too.
pub proof fn lemma_despawns_come_first(
    flags: Seq<bool>,
    despawned: Seq<EntityId>,
    ticked: Seq<(EntityId, bool)>,
    spawned: Seq<EntityId>,
)
    requires
        flags.len() <= usize::MAX,
    ensures
        forall|i: int, j: int|
            0 <= i < j < tick_plan(flags, despawned, ticked, spawned).len() && #[trigger] tick_plan(
                flags,
                despawned,
                ticked,
                spawned,
            )[j].kind == DeliveryKind::Despawn ==> #[trigger] tick_plan(
                flags,
                despawned,
                ticked,
                spawned,
            )[i].kind == DeliveryKind::Despawn,
{
    let first = broadcast_all(flags.len(), DeliveryKind::Despawn, despawned);
    let middle = ticked_deliveries(flags, ticked);
    let last = broadcast_all(flags.len(), DeliveryKind::Spawn, spawned);
    let plan = tick_plan(flags, despawned, ticked, spawned);
    lemma_broadcast_all_kind(flags.len(), DeliveryKind::Despawn, despawned);
    lemma_broadcast_all_kind(flags.len(), DeliveryKind::Spawn, spawned);
    lemma_ticked_deliveries_kind(flags, ticked);
    assert(plan == first + middle + last);
    assert forall|k: int| 0 <= k < plan.len() implies (#[trigger] plan[k]).kind
        == DeliveryKind::Despawn <==> k < first.len() by {
        if k < first.len() {
            assert(plan[k] == first[k]);
        } else if k < first.len() + middle.len() {
            assert(plan[k] == middle[k - first.len()]);
        } else {
            assert(plan[k] == last[k - first.len() - middle.len()]);
        }
    }
}

/// A sequence none of whose items the predicate holds of filters to nothing.
proof fn lemma_filter_none<A>(s: Seq<A>, p: spec_fn(A) -> bool)
    requires
        forall|k: int| 0 <= k < s.len() ==> !p(#[trigger] s[k]),
    ensures
        s.filter(p) == Seq::<A>::empty(),
    decreases s.len(),
{
    reveal(Seq::filter);
    if s.len() > 0 {
        let rest = s.drop_last();
        assert forall|k: int| 0 <= k < rest.len() implies !p(#[trigger] rest[k]) by {
            assert(rest[k] == s[k]);
        }
        lemma_filter_none(rest, p);
        assert(!p(s[s.len() - 1]));
    }
    assert(s.filter(p) =~= Seq::<A>::empty());
}

/// A sequence of at most one item, which the predicate holds of, filters to
/// itself.
proof fn lemma_filter_single<A>(s: Seq<A>, p: spec_fn(A) -> bool)
    requires
        s.len() <= 1,
        forall|k: int| 0 <= k < s.len() ==> p(#[trigger] s[k]),
    ensures
        s.filter(p) == s,
{
    reveal_with_fuel(Seq::filter, 2);
    if s.len() == 1 {
        assert(s.drop_last() =~= Seq::<A>::empty());
        assert(p(s[0]));
    }
    assert(s.filter(p) =~= s);
}

/// Each player hears of a ticked entity exactly once when it needs inits, and
/// then by its full state; otherwise once by its new state if the tick gave it
/// one, and not at all if not.
pub proof fn lemma_each_player_hears_once(flags: Seq<bool>, entity: EntityId, updated: bool, c: int)
    requires
        flags.len() <= usize::MAX,
        0 <= c < flags.len(),
    ensures
        entity_deliveries(flags, entity, updated).filter(to_client(c)) == ticked_delivery(
            c,
            flags[c],
            entity,
            updated,
        ),
    decreases flags.len(),
{
    let m = flags.len() - 1;
    let p = to_client(c);
    let prefix = entity_deliveries(flags.drop_last(), entity, updated);
    let tail = ticked_delivery(m, flags.last(), entity, updated);
    assert(entity_deliveries(flags, entity, updated) == prefix + tail);
    Seq::filter_distributes_over_add(prefix, tail, p);
    if c < m {
        lemma_each_player_hears_once(flags.drop_last(), entity, updated, c);
        assert(flags.drop_last()[c] == flags[c]);
        assert forall|k: int| 0 <= k < tail.len() implies !p(#[trigger] tail[k]) by {}
        lemma_filter_none(tail, p);
        assert(prefix.filter(p) + Seq::<Delivery>::empty() =~= prefix.filter(p));
    } else {
        lemma_entity_deliveries_shape(flags.drop_last(), entity, updated);
        assert forall|k: int| 0 <= k < prefix.len() implies !p(#[trigger] prefix[k]) by {}
        lemma_filter_none(prefix, p);
        assert forall|k: int| 0 <= k < tail.len() implies p(#[trigger] tail[k]) by {}
        lemma_filter_single(tail, p);
        assert(Seq::<Delivery>::empty() + tail =~= tail);
    }
}

/// What the player at `client` hears of the entities `ids`, one message of
/// `kind` each, in order.
pub open spec fn client_broadcasts(client: int, kind: DeliveryKind, ids: Seq<EntityId>) -> Seq<
    Delivery,
> {
    ids.map_values(|e: EntityId| Delivery { client: client as usize, kind, entity: e })
}

/// What the player at `client`, whose init need is `needs_inits`, hears of the
/// ticked entities, entity after entity.
pub open spec fn client_ticked(client: int, needs_inits: bool, ticked: Seq<(EntityId, bool)>) -> Seq<
    Delivery,
>
    decreases ticked.len(),
{
    if ticked.len() == 0 {
        Seq::empty()
    } else {
        client_ticked(client, needs_inits, ticked.drop_last()) + ticked_delivery(
            client,
            needs_inits,
            ticked.last().0,
            ticked.last().1,
        )
    }
}

/// Every message that the player at `client` gets in one tick, in order: a
/// despawn for each despawned entity; then what it hears of each ticked
/// entity; then a spawn for each spawned entity.
pub open spec fn client_plan(
    client: int,
    needs_inits: bool,
    despawned: Seq<EntityId>,
    ticked: Seq<(EntityId, bool)>,
    spawned: Seq<EntityId>,
) -> Seq<Delivery> {
    client_broadcasts(client, DeliveryKind::Despawn, despawned) + client_ticked(
        client,
        needs_inits,
        ticked,
    ) + client_broadcasts(client, DeliveryKind::Spawn, spawned)
}

/// Of one broadcast, a player hears exactly one message.
proof fn lemma_broadcast_filter(n: nat, kind: DeliveryKind, entity: EntityId, c: int)
    requires
        n <= usize::MAX,
        0 <= c < n,
    ensures
        broadcast(n, kind, entity).filter(to_client(c)) == seq![
            Delivery { client: c as usize, kind, entity },
        ],
    decreases n,
{
    let p = to_client(c);
    let m = (n - 1) as nat;
    let last = seq![Delivery { client: m as usize, kind, entity }];
    let rest = broadcast(m, kind, entity);
    assert(broadcast(n, kind, entity) =~= rest + last);
    Seq::filter_distributes_over_add(rest, last, p);
    if c < m {
        lemma_broadcast_filter(m, kind, entity, c);
        assert forall|k: int| 0 <= k < last.len() implies !p(#[trigger] last[k]) by {}
        lemma_filter_none(last, p);
        assert(rest.filter(p) + Seq::<Delivery>::empty() =~= rest.filter(p));
    } else {
        assert forall|k: int| 0 <= k < rest.len() implies !p(#[trigger] rest[k]) by {}
        lemma_filter_none(rest, p);
        assert forall|k: int| 0 <= k < last.len() implies p(#[trigger] last[k]) by {}
        lemma_filter_single(last, p);
        assert(Seq::<Delivery>::empty() + last =~= last);
    }
}

/// Of `broadcast_all`, a player hears one message per entity, in order.
proof fn lemma_broadcast_all_filter(n: nat, kind: DeliveryKind, ids: Seq<EntityId>, c: int)
    requires
        n <= usize::MAX,
        0 <= c < n,
    ensures
        broadcast_all(n, kind, ids).filter(to_client(c)) == client_broadcasts(c, kind, ids),
    decreases ids.len(),
{
    let p = to_client(c);
    if ids.len() == 0 {
        lemma_filter_none(Seq::<Delivery>::empty(), p);
        assert(client_broadcasts(c, kind, ids) =~= Seq::<Delivery>::empty());
    } else {
        let rest = broadcast_all(n, kind, ids.drop_last());
        let tail = broadcast(n, kind, ids.last());
        Seq::filter_distributes_over_add(rest, tail, p);
        lemma_broadcast_all_filter(n, kind, ids.drop_last(), c);
        lemma_broadcast_filter(n, kind, ids.last(), c);
        assert(client_broadcasts(c, kind, ids) =~= client_broadcasts(c, kind, ids.drop_last()) + seq![
            Delivery { client: c as usize, kind, entity: ids.last() },
        ]);
    }
}

/// Of the messages about the ticked entities, a player hears what
/// `client_ticked` says.
proof fn lemma_ticked_filter(flags: Seq<bool>, ticked: Seq<(EntityId, bool)>, c: int)
    requires
        flags.len() <= usize::MAX,
        0 <= c < flags.len(),
    ensures
        ticked_deliveries(flags, ticked).filter(to_client(c)) == client_ticked(c, flags[c], ticked),
    decreases ticked.len(),
{
    let p = to_client(c);
    if ticked.len() == 0 {
        lemma_filter_none(Seq::<Delivery>::empty(), p);
    } else {
        let rest = ticked_deliveries(flags, ticked.drop_last());
        let tail = entity_deliveries(flags, ticked.last().0, ticked.last().1);
        Seq::filter_distributes_over_add(rest, tail, p);
        lemma_ticked_filter(flags, ticked.drop_last(), c);
        lemma_each_player_hears_once(flags, ticked.last().0, ticked.last().1, c);
    }
}

/// What each player gets in a tick: of all the tick's messages, those to the
/// player at `c` are, in order, a despawn for each despawned entity, then for
/// each ticked entity its full state if the player needs inits (else its new
/// state if the tick gave one), then a spawn for each spawned entity.
pub proof fn lemma_each_player_hears_its_plan(
    flags: Seq<bool>,
    despawned: Seq<EntityId>,
    ticked: Seq<(EntityId, bool)>,
    spawned: Seq<EntityId>,
    c: int,
)
    requires
        flags.len() <= usize::MAX,
        0 <= c < flags.len(),
    ensures
        tick_plan(flags, despawned, ticked, spawned).filter(to_client(c)) == client_plan(
            c,
            flags[c],
            despawned,
            ticked,
            spawned,
        ),
{
    let p = to_client(c);
    let first = broadcast_all(flags.len(), DeliveryKind::Despawn, despawned);
    let middle = ticked_deliveries(flags, ticked);
    let last = broadcast_all(flags.len(), DeliveryKind::Spawn, spawned);
    Seq::filter_distributes_over_add(first + middle, last, p);
    Seq::filter_distributes_over_add(first, middle, p);
    lemma_broadcast_all_filter(flags.len(), DeliveryKind::Despawn, despawned, c);
    lemma_broadcast_all_filter(flags.len(), DeliveryKind::Spawn, spawned, c);
    lemma_ticked_filter(flags, ticked, c);
}

/// When a player leaves, no client of its pawn is left and the pawn is the
/// last entity queued for despawn; nothing else about the roster changes.
pub proof fn lemma_dropped_player_despawns<Tx, A>(before: RosterView<Tx, A>, id: EntityId)
    ensures
        ({
            let after = RosterView {
                clients: before.clients.filter(other_pawn(id)),
                despawns: before.despawns.push(id),
                ..before
            };
            &&& forall|i: int|
                0 <= i < after.clients.len() ==> (#[trigger] after.clients[i]).pawn_id != id
            &&& after.despawns.last() == id
            &&& after.spawns == before.spawns
            &&& after.next_id == before.next_id
        }),
{
    lemma_disconnected_player_is_gone(before.clients, id);
}

/// A player that left hears nothing more: once its pawn's players are
/// disconnected, no player controls that pawn, and the others stay in order.
pub proof fn lemma_disconnected_player_is_gone<Tx>(players: Seq<ConnectedPlayer<Tx>>, pawn_id: EntityId)
    ensures
        forall|i: int|
            0 <= i < players.filter(other_pawn(pawn_id)).len() ==> (#[trigger] players.filter(
                other_pawn(pawn_id),
            )[i]).pawn_id != pawn_id,
{
    let kept = players.filter(other_pawn(pawn_id));
    assert forall|i: int| 0 <= i < kept.len() implies (#[trigger] kept[i]).pawn_id != pawn_id by {
        players.lemma_filter_pred(other_pawn(pawn_id), i);
    }
}

/// A newly connected player first hears the full state of every entity, and
/// once its inits are sent it hears only new states.
pub proof fn lemma_new_player_gets_inits_first<Tx>(
    players: Seq<ConnectedPlayer<Tx>>,
    pawn_id: EntityId,
    tx: Tx,
    has_update: bool,
)
    ensures
        entity_report_for(
            players.push(ConnectedPlayer { pawn_id, tx, needs_inits: true }).last().needs_inits,
            has_update,
        ) == EntityReport::Init,
        entity_report_for(
            inits_received(ConnectedPlayer { pawn_id, tx, needs_inits: true }).needs_inits,
            has_update,
        ) == (if has_update {
            EntityReport::Update
        } else {
            EntityReport::Nothing
        }),
{
}

/// A sequence all of whose items the predicate holds of filters to itself.
proof fn lemma_filter_all<A>(s: Seq<A>, p: spec_fn(A) -> bool)
    requires
        forall|k: int| 0 <= k < s.len() ==> p(#[trigger] s[k]),
    ensures
        s.filter(p) == s,
    decreases s.len(),
{
    reveal(Seq::filter);
    if s.len() > 0 {
        let rest = s.drop_last();
        assert forall|k: int| 0 <= k < rest.len() implies p(#[trigger] rest[k]) by {
            assert(rest[k] == s[k]);
        }
        lemma_filter_all(rest, p);
        assert(p(s[s.len() - 1]));
        assert(rest.push(s.last()) =~= s);
    }
}

/// Disconnecting a pawn keeps exactly the players of the other pawns, in
/// order: no kept player controls the pawn; every player of another pawn is
/// kept, whatever else holds of it; a single player is kept exactly when its
/// pawn differs; and when no player controls the pawn, nobody is removed.
pub proof fn lemma_disconnect_keeps_other_pawns<Tx>(
    players: Seq<ConnectedPlayer<Tx>>,
    one: ConnectedPlayer<Tx>,
    pawn_id: EntityId,
)
    ensures
        forall|i: int|
            0 <= i < players.filter(other_pawn(pawn_id)).len() ==> (#[trigger] players.filter(
                other_pawn(pawn_id),
            )[i]).pawn_id != pawn_id,
        forall|i: int|
            0 <= i < players.len() && players[i].pawn_id != pawn_id ==> #[trigger] players.filter(
                other_pawn(pawn_id),
            ).contains(players[i]),
        seq![one].filter(other_pawn(pawn_id)) == (if one.pawn_id != pawn_id {
            seq![one]
        } else {
            Seq::<ConnectedPlayer<Tx>>::empty()
        }),
        (forall|i: int| 0 <= i < players.len() ==> (#[trigger] players[i]).pawn_id != pawn_id)
            ==> players.filter(other_pawn(pawn_id)) == players,
{
    let p = other_pawn::<Tx>(pawn_id);
    broadcast use vstd::seq_lib::group_filter_ensures;

    if one.pawn_id != pawn_id {
        assert forall|k: int| 0 <= k < seq![one].len() implies p(#[trigger] seq![one][k]) by {}
        lemma_filter_all(seq![one], p);
    } else {
        assert forall|k: int| 0 <= k < seq![one].len() implies !p(#[trigger] seq![one][k]) by {}
        lemma_filter_none(seq![one], p);
    }
    if forall|i: int| 0 <= i < players.len() ==> (#[trigger] players[i]).pawn_id != pawn_id {
        assert forall|k: int| 0 <= k < players.len() implies p(#[trigger] players[k]) by {}
        lemma_filter_all(players, p);
    }
}

/// Marking inits as sent leaves no player needing inits, whatever its flag
/// was, and changes nothing else about any player; marking again changes
/// nothing; and afterwards a player hears of an entity only its new state,
/// if it has one.
pub proof fn lemma_marking_clears_needs_inits<Tx>(players: Seq<ConnectedPlayer<Tx>>, has_update: bool)
    ensures
        players.map_values(|c: ConnectedPlayer<Tx>| inits_received(c)).len() == players.len(),
        forall|i: int|
            0 <= i < players.len() ==> {
                let m = players.map_values(|c: ConnectedPlayer<Tx>| inits_received(c))[i];
                &&& !m.needs_inits
                &&& m.pawn_id == (#[trigger] players[i]).pawn_id
                &&& m.tx == players[i].tx
                &&& entity_report_for(m.needs_inits, has_update) == (if has_update {
                    EntityReport::Update
                } else {
                    EntityReport::Nothing
                })
            },
        players.map_values(|c: ConnectedPlayer<Tx>| inits_received(c)).map_values(
            |c: ConnectedPlayer<Tx>| inits_received(c),
        ) == players.map_values(|c: ConnectedPlayer<Tx>| inits_received(c)),
{
    let marked = players.map_values(|c: ConnectedPlayer<Tx>| inits_received(c));
    assert(marked.map_values(|c: ConnectedPlayer<Tx>| inits_received(c)) =~= marked);
}

} // verus!
