use gridgame::grid::{Grid, GridMessage, GridPoint, GridUpdate, Player};

#[test]
fn point_move_by_adds_offsets() {
    let mut p = GridPoint(3, -4);
    p.move_by(&GridPoint(-5, 10));
    assert_eq!(p, GridPoint(-2, 6));
}

#[test]
fn point_move_undo() {
    let start = GridPoint(7, 7);
    let mut p = start;
    p.move_by(&GridPoint(12, -30));
    p.move_by(&GridPoint(-12, 30));
    assert_eq!(p, start);
}

#[test]
fn point_from_random_words() {
    assert_eq!(GridPoint::from_random_words(0, 20), GridPoint(-10, 10));
    assert_eq!(GridPoint::from_random_words(21, 31), GridPoint(-10, 0));
    assert_eq!(GridPoint::from_random_words(u32::MAX, 52), GridPoint(-7, 0));
}

#[test]
fn point_random_in_range() {
    for _ in 0..200 {
        let p = GridPoint::random();
        assert!(-10 <= p.0 && p.0 <= 10);
        assert!(-10 <= p.1 && p.1 <= 10);
    }
}

#[test]
fn new_player_reports_connection_once() {
    let mut p = Player::new(5, 'x', GridPoint(1, 2));
    assert_eq!(p.id(), 5);
    assert_eq!(p.name(), 'x');
    assert_eq!(p.pos(), GridPoint(1, 2));
    assert_eq!(p.state_updates(false), vec![GridUpdate::Connected(5, 'x', GridPoint(1, 2))]);
    assert_eq!(p.state_updates(false), vec![]);
}

#[test]
fn moved_player_reports_position() {
    let mut p = Player::new(9, 'q', GridPoint(0, 0));
    p.state_updates(false);
    p.move_by(&GridPoint(0, -1));
    p.move_by(&GridPoint(2, 0));
    assert_eq!(p.pos(), GridPoint(2, -1));
    assert_eq!(p.state_updates(false), vec![GridUpdate::MovedTo(9, GridPoint(2, -1))]);
    assert_eq!(p.state_updates(false), vec![]);
}

#[test]
fn replay_reports_everything() {
    let mut p = Player::new(1, 'a', GridPoint(4, 4));
    p.state_updates(false);
    assert_eq!(
        p.state_updates(true),
        vec![GridUpdate::Connected(1, 'a', GridPoint(4, 4)), GridUpdate::MovedTo(1, GridPoint(4, 4))]
    );
}

#[test]
fn grid_tick_connect_move_disconnect() {
    let mut grid = Grid::new();
    let out = grid.tick(&vec![
        GridMessage::Connect(1, 'a', GridPoint(0, 0)),
        GridMessage::Connect(2, 'b', GridPoint(5, 5)),
        GridMessage::MoveRel(1, GridPoint(1, 0)),
    ]);
    assert_eq!(
        out,
        vec![
            GridUpdate::Connected(1, 'a', GridPoint(1, 0)),
            GridUpdate::MovedTo(1, GridPoint(1, 0)),
            GridUpdate::Connected(2, 'b', GridPoint(5, 5)),
        ]
    );
    assert_eq!(grid.len(), 2);

    // nothing happened: nothing is reported
    assert_eq!(grid.tick(&vec![]), vec![]);

    let out = grid.tick(&vec![
        GridMessage::MoveRel(2, GridPoint(0, -1)),
        GridMessage::Disconnect(1),
        GridMessage::MoveRel(1, GridPoint(3, 3)),
    ]);
    assert_eq!(out, vec![GridUpdate::Disconnected(1), GridUpdate::MovedTo(2, GridPoint(5, 4))]);
    assert_eq!(grid.len(), 1);
    assert_eq!(grid.player(0).id(), 2);
}

#[test]
fn grid_disconnect_unknown_player_is_still_reported() {
    let mut grid = Grid::new();
    assert_eq!(grid.handle_message(&GridMessage::Disconnect(42)), vec![GridUpdate::Disconnected(42)]);
    assert_eq!(grid.len(), 0);
}

#[test]
fn grid_disconnect_removes_all_with_id() {
    let mut grid = Grid::new();
    grid.handle_message(&GridMessage::Connect(1, 'a', GridPoint(0, 0)));
    grid.handle_message(&GridMessage::Connect(2, 'b', GridPoint(0, 0)));
    grid.handle_message(&GridMessage::Connect(1, 'c', GridPoint(0, 0)));
    grid.handle_message(&GridMessage::Connect(3, 'd', GridPoint(0, 0)));
    grid.handle_message(&GridMessage::Disconnect(1));
    assert_eq!(grid.len(), 2);
    assert_eq!(grid.player(0).name(), 'b');
    assert_eq!(grid.player(1).name(), 'd');
}

#[test]
fn grid_move_moves_every_player_with_id() {
    let mut grid = Grid::new();
    grid.handle_message(&GridMessage::Connect(1, 'a', GridPoint(0, 0)));
    grid.handle_message(&GridMessage::Connect(1, 'b', GridPoint(10, 10)));
    grid.handle_message(&GridMessage::Connect(2, 'c', GridPoint(0, 0)));
    assert_eq!(grid.handle_message(&GridMessage::MoveRel(1, GridPoint(-1, -1))), vec![]);
    assert_eq!(grid.player(0).pos(), GridPoint(-1, -1));
    assert_eq!(grid.player(1).pos(), GridPoint(9, 9));
    assert_eq!(grid.player(2).pos(), GridPoint(0, 0));
}

#[test]
fn grid_report_players_clears_flags() {
    let mut grid = Grid::new();
    grid.handle_message(&GridMessage::Connect(4, 'z', GridPoint(2, 2)));
    assert_eq!(grid.report_players(), vec![GridUpdate::Connected(4, 'z', GridPoint(2, 2))]);
    assert_eq!(grid.report_players(), vec![]);
}
