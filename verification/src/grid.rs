//! The grid world: players on integer coordinates, the messages that change
//! the world, and the updates that report its changes.

use rand::Rng;
use vstd::prelude::*;

verus! {

/// A player's name: a single character.
pub type PlayerName = char;

/// A player's unique id.
pub type PlayerUid = u64;

/// A point (or an offset) on the grid: `(x, y)`.
#[derive(Debug, Clone, Copy, PartialEq, Eq, Structural)]
pub struct GridPoint(pub i32, pub i32);

impl GridPoint {
    /// Moving `self` by `d` keeps both coordinates within `i32`.
    pub open spec fn can_move_by(self, d: GridPoint) -> bool {
        &&& i32::MIN <= self.0 + d.0 <= i32::MAX
        &&& i32::MIN <= self.1 + d.1 <= i32::MAX
    }

    /// `self` moved by `d`, coordinate by coordinate.
    pub open spec fn moved_by(self, d: GridPoint) -> GridPoint {
        GridPoint((self.0 + d.0) as i32, (self.1 + d.1) as i32)
    }

    /// The point that two random words give: each coordinate is the word's
    /// remainder modulo 21, shifted down by 10, so it lies in `-10..=10`.
    pub fn from_random_words(a: u32, b: u32) -> (p: GridPoint)
        ensures
            p.0 == (a % 21) as int - 10,
            p.1 == (b % 21) as int - 10,
            -10 <= p.0 <= 10,
            -10 <= p.1 <= 10,
    {
        let x = (a % 21) as i32 - 10;
        let y = (b % 21) as i32 - 10;
        GridPoint(x, y)
    }

    /// A random point with both coordinates in `-10..=10`.
    pub fn random() -> (p: GridPoint)
        ensures
            -10 <= p.0 <= 10,
            -10 <= p.1 <= 10,
    {
        let a = random_word();
        let b = random_word();
        GridPoint::from_random_words(a, b)
    }

    /// Adds the offset `d_pos` to this point.
    pub fn move_by(&mut self, d_pos: &GridPoint)
        requires
            old(self).can_move_by(*d_pos),
        ensures
            *final(self) == old(self).moved_by(*d_pos),
    {
        self.0 = self.0 + d_pos.0;
        self.1 = self.1 + d_pos.1;
    }
}


/// Calls `rand::thread_rng().next_u32()`. The word is random: nothing is
/// stated of its value.
#[verifier::external_body]
fn random_word() -> u32 {
    rand::thread_rng().next_u32()
}

/// A player on the grid, with the flags that say which of its changes the
/// clients have not heard of yet.
#[derive(Debug, Clone, Copy)]
pub struct Player {
    id: PlayerUid,
    name: PlayerName,
    pos: GridPoint,
    is_newly_connected: bool,
    is_modified: bool,
}

/// The state of a `Player`.
pub struct PlayerView {
    pub id: PlayerUid,
    pub name: PlayerName,
    pub pos: GridPoint,
    /// The clients have not yet heard that this player connected.
    pub is_newly_connected: bool,
    /// The clients have not yet heard of this player's last move.
    pub is_modified: bool,
}

impl View for Player {
    type V = PlayerView;

    closed spec fn view(&self) -> PlayerView {
        PlayerView {
            id: self.id,
            name: self.name,
            pos: self.pos,
            is_newly_connected: self.is_newly_connected,
            is_modified: self.is_modified,
        }
    }
}

/// A change on the grid, as reported to the clients.
#[derive(Debug, Clone, Copy, PartialEq, Eq, Structural)]
pub enum GridUpdate {
    /// A player with this id, name and position is on the grid.
    Connected(PlayerUid, PlayerName, GridPoint),
    /// The player with this id is now at this position.
    MovedTo(PlayerUid, GridPoint),
    /// Players with this id left the grid.
    Disconnected(PlayerUid),
}

/// A request to change the grid, handled by the next iteration of the grid loop.
#[derive(Debug, Clone, Copy, PartialEq, Eq, Structural)]
pub enum GridMessage {
    /// Add a player with this id and name at this position.
    Connect(PlayerUid, PlayerName, GridPoint),
    /// Remove every player with this id.
    Disconnect(PlayerUid),
    /// Move every player with this id by this offset.
    MoveRel(PlayerUid, GridPoint),
}

/// A freshly connected player: the clients have heard nothing of it yet.
pub open spec fn new_player_view(id: PlayerUid, name: PlayerName, pos: GridPoint) -> PlayerView {
    PlayerView { id, name, pos, is_newly_connected: true, is_modified: false }
}

/// `p` after a move by `d`: the clients have not heard of the new position.
pub open spec fn moved_player(p: PlayerView, d: GridPoint) -> PlayerView {
    PlayerView { pos: p.pos.moved_by(d), is_modified: true, ..p }
}

/// `p` after its updates were handed out: nothing is left unreported.
pub open spec fn reported_player(p: PlayerView) -> PlayerView {
    PlayerView { is_newly_connected: false, is_modified: false, ..p }
}

/// The updates that report `p`: its connection if the clients have not heard of
/// it (or `replay_inits` asks for it), then its position if it moved since the
/// last report (or `replay_inits` asks for it).
pub open spec fn player_updates(p: PlayerView, replay_inits: bool) -> Seq<GridUpdate> {
    (if p.is_newly_connected || replay_inits {
        seq![GridUpdate::Connected(p.id, p.name, p.pos)]
    } else {
        Seq::empty()
    }) + (if p.is_modified || replay_inits {
        seq![GridUpdate::MovedTo(p.id, p.pos)]
    } else {
        Seq::empty()
    })
}

impl Player {
    /// A newly connected player at `pos`.
    pub fn new(id: PlayerUid, name: PlayerName, pos: GridPoint) -> (p: Player)
        ensures
            p@ == new_player_view(id, name, pos),
    {
        Player { id, name, pos, is_newly_connected: true, is_modified: false }
    }

    /// Moves the player by `d_pos` and marks the move as not yet reported.
    pub fn move_by(&mut self, d_pos: &GridPoint)
        requires
            old(self)@.pos.can_move_by(*d_pos),
        ensures
            final(self)@ == moved_player(old(self)@, *d_pos),
    {
        self.is_modified = true;
        self.pos.move_by(d_pos);
    }

    /// The updates that report this player to the clients (see
    /// `player_updates`); afterwards nothing about the player is unreported.
    pub fn state_updates(&mut self, replay_inits: bool) -> (updates: Vec<GridUpdate>)
        ensures
            updates@ == player_updates(old(self)@, replay_inits),
            final(self)@ == reported_player(old(self)@),
    {
        let mut updates: Vec<GridUpdate> = Vec::new();
        if self.is_newly_connected || replay_inits {
            updates.push(GridUpdate::Connected(self.id, self.name, self.pos));
        }
        if self.is_modified || replay_inits {
            updates.push(GridUpdate::MovedTo(self.id, self.pos));
        }
        self.is_newly_connected = false;
        self.is_modified = false;
        updates
    }

    /// The player's id.
    pub fn id(&self) -> (id: PlayerUid)
        ensures
            id == self@.id,
    {
        self.id
    }

    /// The player's name.
    pub fn name(&self) -> (name: PlayerName)
        ensures
            name == self@.name,
    {
        self.name
    }

    /// The player's position.
    pub fn pos(&self) -> (pos: GridPoint)
        ensures
            pos == self@.pos,
    {
        self.pos
    }
}


/// The players on the grid, in the order they connected.
pub struct Grid {
    players: Vec<Player>,
}

impl View for Grid {
    type V = Seq<PlayerView>;

    closed spec fn view(&self) -> Seq<PlayerView> {
        player_views(self.players@)
    }
}

/// The states of the players in `players`, in order.
pub open spec fn player_views(players: Seq<Player>) -> Seq<PlayerView> {
    players.map_values(|p: Player| p@)
}

/// Holds of the players whose id is not `id`.
pub open spec fn not_player(id: PlayerUid) -> spec_fn(PlayerView) -> bool {
    |p: PlayerView| p.id != id
}

/// The players once `msg` is handled: a connection adds a new player behind
/// the others, a disconnection removes every player with the id, a move moves
/// every player with the id.
pub open spec fn apply_message(players: Seq<PlayerView>, msg: GridMessage) -> Seq<PlayerView> {
    match msg {
        GridMessage::Connect(id, name, pos) => players.push(new_player_view(id, name, pos)),
        GridMessage::Disconnect(id) => players.filter(not_player(id)),
        GridMessage::MoveRel(id, d) => players.map_values(
            |p: PlayerView|
                if p.id == id {
                    moved_player(p, d)
                } else {
                    p
                },
        ),
    }
}

/// The updates sent at once while `msg` is handled: a disconnection is
/// reported straight away, everything else at the end of the iteration.
pub open spec fn message_updates(msg: GridMessage) -> Seq<GridUpdate> {
    match msg {
        GridMessage::Disconnect(id) => seq![GridUpdate::Disconnected(id)],
        _ => Seq::empty(),
    }
}

/// Handling `msg` keeps every coordinate within `i32`.
pub open spec fn message_fits(players: Seq<PlayerView>, msg: GridMessage) -> bool {
    match msg {
        GridMessage::MoveRel(id, d) => forall|i: int|
            0 <= i < players.len() && #[trigger] players[i].id == id ==> players[i].pos.can_move_by(d),
        _ => true,
    }
}

/// The players once every message of `msgs` is handled, in order.
pub open spec fn apply_messages(players: Seq<PlayerView>, msgs: Seq<GridMessage>) -> Seq<PlayerView>
    decreases msgs.len(),
{
    if msgs.len() == 0 {
        players
    } else {
        apply_message(apply_messages(players, msgs.drop_last()), msgs.last())
    }
}

/// The updates sent while the messages of `msgs` are handled, in order.
pub open spec fn messages_updates(msgs: Seq<GridMessage>) -> Seq<GridUpdate>
    decreases msgs.len(),
{
    if msgs.len() == 0 {
        Seq::empty()
    } else {
        messages_updates(msgs.drop_last()) + message_updates(msgs.last())
    }
}

/// Handling the messages of `msgs` in order keeps every coordinate within `i32`.
pub open spec fn messages_fit(players: Seq<PlayerView>, msgs: Seq<GridMessage>) -> bool
    decreases msgs.len(),
{
    msgs.len() == 0 || (messages_fit(players, msgs.drop_last()) && message_fits(
        apply_messages(players, msgs.drop_last()),
        msgs.last(),
    ))
}

/// The updates that report every player (see `player_updates`, without
/// replay), player after player.
pub open spec fn all_player_updates(players: Seq<PlayerView>) -> Seq<GridUpdate>
    decreases players.len(),
{
    if players.len() == 0 {
        Seq::empty()
    } else {
        all_player_updates(players.drop_last()) + player_updates(players.last(), false)
    }
}

/// Every player with nothing left unreported.
pub open spec fn all_reported(players: Seq<PlayerView>) -> Seq<PlayerView> {
    players.map_values(|p: PlayerView| reported_player(p))
}

/// One iteration of the grid loop on `players`: handle the messages, then
/// report every player. Gives the players afterwards and every update sent.
pub open spec fn grid_iteration(players: Seq<PlayerView>, msgs: Seq<GridMessage>) -> (
    Seq<PlayerView>,
    Seq<GridUpdate>,
) {
    let handled = apply_messages(players, msgs);
    (all_reported(handled), messages_updates(msgs) + all_player_updates(handled))
}

impl Grid {
    /// A grid without players.
    pub fn new() -> (g: Grid)
        ensures
            g@ == Seq::<PlayerView>::empty(),
    {
        let g = Grid { players: Vec::new() };
        assert(g@ =~= Seq::<PlayerView>::empty());
        g
    }

    /// The number of players on the grid.
    pub fn len(&self) -> (n: usize)
        ensures
            n == self@.len(),
    {
        self.players.len()
    }

    /// The player at `index`, in connection order.
    pub fn player(&self, index: usize) -> (p: Player)
        requires
            index < self@.len(),
        ensures
            p@ == self@[index as int],
    {
        self.players[index]
    }

    /// Handles one message (see `apply_message`) and gives the updates it
    /// sends at once (see `message_updates`).
    pub fn handle_message(&mut self, msg: &GridMessage) -> (out: Vec<GridUpdate>)
        requires
            message_fits(old(self)@, *msg),
        ensures
            final(self)@ == apply_message(old(self)@, *msg),
            out@ == message_updates(*msg),
    {
        let ghost before = self@;
        let mut out: Vec<GridUpdate> = Vec::new();
        match *msg {
            GridMessage::Connect(id, name, pos) => {
                let player = Player::new(id, name, pos);
                self.players.push(player);
                assert(self@ =~= apply_message(before, *msg));
            },
            GridMessage::Disconnect(id) => {
                self.remove_players(id);
                out.push(GridUpdate::Disconnected(id));
                assert(out@ =~= message_updates(*msg));
            },
            GridMessage::MoveRel(id, d_pos) => {
                self.move_players(id, &d_pos);
            },
        }
        out
    }

    /// Removes every player whose id is `id`, keeping the others in order.
    fn remove_players(&mut self, id: PlayerUid)
        ensures
            final(self)@ == old(self)@.filter(not_player(id)),
    {
        let ghost before = self@;
        let ghost pred = not_player(id);
        let mut kept: Vec<Player> = Vec::new();
        let n = self.players.len();
        let mut i: usize = 0;
        while i < n
            invariant
                n == self.players@.len(),
                i <= n,
                before == self@,
                pred == not_player(id),
                player_views(kept@) == before.take(i as int).filter(pred),
            decreases n - i,
        {
            let player = self.players[i];
            let ghost kept_before = kept@;
            assert(player@ == before[i as int]);
            if player.id != id {
                kept.push(player);
                assert(player_views(kept@) =~= player_views(kept_before).push(player@));
            }
            proof {
                assert(before.take(i + 1).drop_last() =~= before.take(i as int));
                assert(before.take(i + 1).last() == player@);
                assert(before.take(i + 1).filter(pred) == (if pred(player@) {
                    before.take(i as int).filter(pred).push(player@)
                } else {
                    before.take(i as int).filter(pred)
                })) by {
                    reveal_with_fuel(Seq::filter, 1);
                }
                if player.id == id {
                    assert(kept@ == kept_before);
                }
            }
            i = i + 1;
        }
        assert(before.take(n as int) =~= before);
        self.players = kept;
    }

    /// Moves every player whose id is `id` by `d_pos`.
    fn move_players(&mut self, id: PlayerUid, d_pos: &GridPoint)
        requires
            message_fits(old(self)@, GridMessage::MoveRel(id, *d_pos)),
        ensures
            final(self)@ == apply_message(old(self)@, GridMessage::MoveRel(id, *d_pos)),
    {
        let ghost before = self@;
        let n = self.players.len();
        let mut i: usize = 0;
        while i < n
            invariant
                n == self.players@.len(),
                n == before.len(),
                i <= n,
                message_fits(before, GridMessage::MoveRel(id, *d_pos)),
                forall|j: int|
                    0 <= j < n ==> #[trigger] self.players@[j]@ == (if j < i && before[j].id == id {
                        moved_player(before[j], *d_pos)
                    } else {
                        before[j]
                    }),
            decreases n - i,
        {
            let mut player = self.players[i];
            assert(self.players@[i as int]@ == before[i as int]);
            if player.id == id {
                assert(before[i as int].id == id);
                player.move_by(d_pos);
            }
            self.players.set(i, player);
            i = i + 1;
        }
        assert(self@ =~= apply_message(before, GridMessage::MoveRel(id, *d_pos)));
    }

    /// Hands out the updates that report every player (see
    /// `all_player_updates`); afterwards nothing is left unreported.
    pub fn report_players(&mut self) -> (out: Vec<GridUpdate>)
        ensures
            out@ == all_player_updates(old(self)@),
            final(self)@ == all_reported(old(self)@),
    {
        let ghost before = self@;
        let mut out: Vec<GridUpdate> = Vec::new();
        let n = self.players.len();
        let mut i: usize = 0;
        while i < n
            invariant
                n == self.players@.len(),
                n == before.len(),
                i <= n,
                out@ == all_player_updates(before.take(i as int)),
                forall|j: int|
                    0 <= j < n ==> #[trigger] self.players@[j]@ == (if j < i {
                        reported_player(before[j])
                    } else {
                        before[j]
                    }),
            decreases n - i,
        {
            let mut player = self.players[i];
            let updates = player.state_updates(false);
            self.players.set(i, player);
            proof {
                assert(before.take(i + 1).drop_last() =~= before.take(i as int));
                assert(before.take(i + 1).last() == before[i as int]);
            }
            let mut k: usize = 0;
            let ghost out_before = out@;
            while k < updates.len()
                invariant
                    k <= updates@.len(),
                    out@ == out_before + updates@.take(k as int),
                decreases updates@.len() - k,
            {
                out.push(updates[k]);
                assert(updates@.take(k + 1) =~= updates@.take(k as int).push(updates@[k as int]));
                k = k + 1;
            }
            assert(updates@.take(updates@.len() as int) =~= updates@);
            i = i + 1;
        }
        assert(before.take(n as int) =~= before);
        assert(self@ =~= all_reported(before));
        out
    }

    /// One iteration of the grid loop (see `grid_iteration`): handles `msgs`
    /// in order, then reports every player. Gives every update to send, in
    /// order.
    pub fn tick(&mut self, msgs: &Vec<GridMessage>) -> (out: Vec<GridUpdate>)
        requires
            messages_fit(old(self)@, msgs@),
        ensures
            final(self)@ == grid_iteration(old(self)@, msgs@).0,
            out@ == grid_iteration(old(self)@, msgs@).1,
    {
        let ghost before = self@;
        let mut out: Vec<GridUpdate> = Vec::new();
        let n = msgs.len();
        let mut i: usize = 0;
        while i < n
            invariant
                n == msgs@.len(),
                i <= n,
                messages_fit(before, msgs@),
                self@ == apply_messages(before, msgs@.take(i as int)),
                out@ == messages_updates(msgs@.take(i as int)),
            decreases n - i,
        {
            proof {
                lemma_messages_fit_prefix(before, msgs@, (i + 1) as int);
                assert(msgs@.take(i + 1).drop_last() =~= msgs@.take(i as int));
                assert(msgs@.take(i + 1).last() == msgs@[i as int]);
            }
            let sent = self.handle_message(&msgs[i]);
            let mut k: usize = 0;
            let ghost out_before = out@;
            while k < sent.len()
                invariant
                    k <= sent@.len(),
                    out@ == out_before + sent@.take(k as int),
                decreases sent@.len() - k,
            {
                out.push(sent[k]);
                assert(sent@.take(k + 1) =~= sent@.take(k as int).push(sent@[k as int]));
                k = k + 1;
            }
            assert(sent@.take(sent@.len() as int) =~= sent@);
            i = i + 1;
        }
        assert(msgs@.take(n as int) =~= msgs@);
        let reports = self.report_players();
        let mut k: usize = 0;
        let ghost out_before = out@;
        while k < reports.len()
            invariant
                k <= reports@.len(),
                out@ == out_before + reports@.take(k as int),
            decreases reports@.len() - k,
        {
            out.push(reports[k]);
            assert(reports@.take(k + 1) =~= reports@.take(k as int).push(reports@[k as int]));
            k = k + 1;
        }
        assert(reports@.take(reports@.len() as int) =~= reports@);
        out
    }
}

/// If the messages of `msgs` fit, so do those of any prefix of it.
proof fn lemma_messages_fit_prefix(players: Seq<PlayerView>, msgs: Seq<GridMessage>, k: int)
    requires
        messages_fit(players, msgs),
        0 <= k <= msgs.len(),
    ensures
        messages_fit(players, msgs.take(k)),
        k > 0 ==> message_fits(apply_messages(players, msgs.take(k - 1)), msgs[k - 1]),
    decreases msgs.len(),
{
    if k == msgs.len() {
        assert(msgs.take(k) =~= msgs);
        if k > 0 {
            assert(msgs.take(k - 1) =~= msgs.drop_last());
        }
    } else {
        assert(msgs.drop_last().take(k) =~= msgs.take(k));
        if k > 0 {
            assert(msgs.drop_last().take(k - 1) =~= msgs.take(k - 1));
        }
        lemma_messages_fit_prefix(players, msgs.drop_last(), k);
    }
}


/// A move can be undone: moving by `d` and then by the opposite offset gives
/// back the starting point.
pub proof fn lemma_move_undo(p: GridPoint, d: GridPoint)
    requires
        p.can_move_by(d),
        d.0 != i32::MIN,
        d.1 != i32::MIN,
    ensures
        p.moved_by(d).can_move_by(GridPoint(-d.0 as i32, -d.1 as i32)),
        p.moved_by(d).moved_by(GridPoint(-d.0 as i32, -d.1 as i32)) == p,
{
}

/// Once every player was reported, another report sends nothing: an
/// iteration without messages leaves the players as they are and is silent.
pub proof fn lemma_reported_grid_is_quiet(players: Seq<PlayerView>)
    ensures
        all_player_updates(all_reported(players)) == Seq::<GridUpdate>::empty(),
        all_reported(all_reported(players)) == all_reported(players),
        grid_iteration(all_reported(players), Seq::empty()) == (
            all_reported(players),
            Seq::<GridUpdate>::empty(),
        ),
    decreases players.len(),
{
    if players.len() > 0 {
        lemma_reported_grid_is_quiet(players.drop_last());
        assert(all_reported(players).drop_last() =~= all_reported(players.drop_last()));
        assert(all_reported(players).last() == reported_player(players.last()));
    }
    assert(all_reported(all_reported(players)) =~= all_reported(players));
    assert(messages_updates(Seq::<GridMessage>::empty()) =~= Seq::<GridUpdate>::empty());
    assert(all_player_updates(all_reported(players)) + Seq::<GridUpdate>::empty()
        =~= all_player_updates(all_reported(players)));
}

/// A newly connected player is reported as connected, at its starting
/// position, at the end of the iteration that connected it, after every other
/// player's report; a move in that same iteration is reported right after.
pub proof fn lemma_connect_is_reported(
    players: Seq<PlayerView>,
    id: PlayerUid,
    name: PlayerName,
    pos: GridPoint,
)
    ensures
        ({
            let (after, sent) = grid_iteration(players, seq![GridMessage::Connect(id, name, pos)]);
            &&& after == all_reported(players).push(reported_player(new_player_view(id, name, pos)))
            &&& sent == all_player_updates(players) + seq![GridUpdate::Connected(id, name, pos)]
        }),
{
    let msgs = seq![GridMessage::Connect(id, name, pos)];
    assert(msgs.drop_last() =~= Seq::<GridMessage>::empty());
    let handled = players.push(new_player_view(id, name, pos));
    assert(apply_messages(players, msgs.drop_last()) == players);
    assert(msgs.last() == GridMessage::Connect(id, name, pos));
    assert(messages_updates(msgs.drop_last()) == Seq::<GridUpdate>::empty());
    assert(apply_messages(players, msgs) == handled);
    assert(handled.drop_last() =~= players);
    assert(messages_updates(msgs) =~= Seq::<GridUpdate>::empty());
    assert(player_updates(new_player_view(id, name, pos), false) =~= seq![
        GridUpdate::Connected(id, name, pos),
    ]);
    assert(all_reported(handled) =~= all_reported(players).push(
        reported_player(new_player_view(id, name, pos)),
    ));
    let (after, sent) = grid_iteration(players, msgs);
    assert(sent =~= all_player_updates(players) + seq![GridUpdate::Connected(id, name, pos)]);
}

/// A disconnection removes every player with the id, keeps the other players
/// in order, and is reported at once.
pub proof fn lemma_disconnect_removes_player(players: Seq<PlayerView>, id: PlayerUid)
    ensures
        forall|i: int|
            0 <= i < apply_message(players, GridMessage::Disconnect(id)).len() ==> (#[trigger] apply_message(
                players,
                GridMessage::Disconnect(id),
            )[i]).id != id,
        apply_message(players, GridMessage::Disconnect(id)) == players.filter(not_player(id)),
        message_updates(GridMessage::Disconnect(id)) == seq![GridUpdate::Disconnected(id)],
{
    let kept = players.filter(not_player(id));
    assert forall|i: int| 0 <= i < kept.len() implies (#[trigger] kept[i]).id != id by {
        players.lemma_filter_pred(not_player(id), i);
    }
}

/// A replayed report always tells both the connection and the position, in
/// that order, whatever was reported before.
pub proof fn lemma_replay_reports_everything(p: PlayerView)
    ensures
        player_updates(p, true) == seq![
            GridUpdate::Connected(p.id, p.name, p.pos),
            GridUpdate::MovedTo(p.id, p.pos),
        ],
        player_updates(reported_player(p), false) == Seq::<GridUpdate>::empty(),
{
    assert(player_updates(p, true) =~= seq![
        GridUpdate::Connected(p.id, p.name, p.pos),
        GridUpdate::MovedTo(p.id, p.pos),
    ]);
    assert(player_updates(reported_player(p), false) =~= Seq::<GridUpdate>::empty());
}

/// A move that fits in `i32` shifts a point by exactly the offset, coordinate
/// by coordinate.
pub proof fn lemma_move_adds_offset(p: GridPoint, d: GridPoint)
    requires
        p.can_move_by(d),
    ensures
        p.moved_by(d).0 == p.0 + d.0,
        p.moved_by(d).1 == p.1 + d.1,
{
}

/// A moved player is at its old position plus the offset, with the same id
/// and name, and its move is marked as not yet reported.
pub proof fn lemma_moved_player_is_shifted(p: PlayerView, d: GridPoint)
    requires
        p.pos.can_move_by(d),
    ensures
        moved_player(p, d).pos.0 == p.pos.0 + d.0,
        moved_player(p, d).pos.1 == p.pos.1 + d.1,
        moved_player(p, d).id == p.id,
        moved_player(p, d).name == p.name,
        moved_player(p, d).is_newly_connected == p.is_newly_connected,
        moved_player(p, d).is_modified,
{
}

/// A `MoveRel(id, d)` that fits puts every player with that id at its old
/// position plus `d`, and leaves every other player as it was.
pub proof fn lemma_move_message_shifts_players(players: Seq<PlayerView>, id: PlayerUid, d: GridPoint)
    requires
        message_fits(players, GridMessage::MoveRel(id, d)),
    ensures
        apply_message(players, GridMessage::MoveRel(id, d)).len() == players.len(),
        forall|i: int|
            0 <= i < players.len() && players[i].id == id ==> {
                let q = #[trigger] apply_message(players, GridMessage::MoveRel(id, d))[i];
                &&& q.pos.0 == players[i].pos.0 + d.0
                &&& q.pos.1 == players[i].pos.1 + d.1
                &&& q.id == id
                &&& q.name == players[i].name
            },
        forall|i: int|
            0 <= i < players.len() && players[i].id != id ==> #[trigger] apply_message(
                players,
                GridMessage::MoveRel(id, d),
            )[i] == players[i],
{
    let after = apply_message(players, GridMessage::MoveRel(id, d));
    assert forall|i: int| 0 <= i < players.len() && players[i].id == id implies {
        let q = #[trigger] after[i];
        &&& q.pos.0 == players[i].pos.0 + d.0
        &&& q.pos.1 == players[i].pos.1 + d.1
        &&& q.id == id
        &&& q.name == players[i].name
    } by {
        assert(players[i].pos.can_move_by(d));
        lemma_moved_player_is_shifted(players[i], d);
    }
}

} // verus!
