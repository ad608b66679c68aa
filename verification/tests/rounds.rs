use hidden_moves::{Board, Entity, Figure, FigureType, Player, Position, Session, SessionResult};

fn pawn_pattern() -> [[u8; 9]; 9] {
    [
        [0, 0, 0, 0, 0, 0, 0, 0, 0],
        [0, 0, 0, 0, 0, 0, 0, 0, 0],
        [0, 0, 0, 0, 1, 0, 0, 0, 0],
        [0, 0, 0, 0, 1, 0, 0, 0, 0],
        [0, 0, 1, 1, 0, 1, 1, 0, 0],
        [0, 0, 0, 0, 1, 0, 0, 0, 0],
        [0, 0, 0, 0, 1, 0, 0, 0, 0],
        [0, 0, 0, 0, 0, 0, 0, 0, 0],
        [0, 0, 0, 0, 0, 0, 0, 0, 0],
    ]
}

fn pawn_named_at(name: &str, kind: FigureType, x: u8, y: u8) -> Figure {
    Figure::new(name.to_string(), pawn_pattern(), Position::new(x, y), kind)
}

fn pawn_at(x: u8, y: u8) -> Figure {
    pawn_named_at("Pawn", FigureType::Normal, x, y)
}

fn roster_a() -> [Figure; 8] {
    [
        pawn_at(0, 0),
        pawn_at(1, 0),
        pawn_at(2, 0),
        pawn_at(0, 1),
        pawn_at(1, 1),
        pawn_at(2, 1),
        pawn_at(0, 2),
        pawn_at(1, 2),
    ]
}

fn two_players() -> [Player; 2] {
    [
        Player::new("Ame".to_string(), 1, roster_a()),
        Player::new("Gura".to_string(), 2, roster_a()),
    ]
}

fn cell(board: &Board, x: u8, y: u8) -> &Option<Entity> {
    &board.cells[x as usize * 16 + y as usize]
}

/// A session whose baseline is exactly `board`.
fn session_over(board: Board) -> Session {
    Session { id: 1, players: two_players(), record: vec![board], result: SessionResult::Active }
}

/// Spawn a figure for an owner and set its point value by hand, for
/// scenarios stated in terms of specific values.
fn place(board: &mut Board, owner: &Player, name: &str, kind: FigureType, x: u8, y: u8, points: u8) {
    board.spawn(owner, pawn_named_at(name, kind, x, y), false);
    board.cells[x as usize * 16 + y as usize].as_mut().unwrap().points = points;
}

#[test]
fn session_new_spawns_both_rosters_mirrored() {
    let session = Session::new(two_players());
    assert_eq!(session.record.len(), 1);
    let board = &session.record[0];
    assert_eq!(board.live_count(1), 8);
    assert_eq!(board.live_count(2), 8);
    // Player one's first pawn sits on its own square, player two's on the
    // mirrored square.
    assert_eq!(cell(board, 0, 0).as_ref().unwrap().owner_id, 1);
    assert_eq!(cell(board, 15, 15).as_ref().unwrap().owner_id, 2);
    assert!(matches!(session.result, SessionResult::Active));
}

#[test]
fn merge_keeps_baseline_and_takes_unopposed_move() {
    // Baseline: P(64) at (2, 2), Q(32) at (3, 1), empty at (3, 3). Player
    // A submits no moves; player B moves Q into (3, 3). The merge keeps P
    // untouched and lets Q occupy (3, 3).
    let players = two_players();
    let mut baseline = Board::empty();
    place(&mut baseline, &players[0], "Pawn", FigureType::Normal, 2, 2, 64);
    place(&mut baseline, &players[1], "Queen", FigureType::Special, 3, 1, 32);
    let session = session_over(baseline);

    let m1 = session.get_last_map();
    let mut m2 = session.get_last_map();
    m2.move_entity(Position::new(3, 1), Position::new(3, 3));

    let merged = session.resolve_maps(&m1, &m2);
    let p = cell(&merged, 2, 2).as_ref().unwrap();
    assert_eq!(p.points, 64);
    let q = cell(&merged, 3, 3).as_ref().unwrap();
    assert_eq!(q.points, 32);
    assert_eq!(q.owner_id, 2);
    assert!(cell(&merged, 3, 1).is_none());
}

#[test]
fn merge_combat_stronger_piece_wins_with_reduced_points() {
    // Baseline empty at (5, 5); both candidates move a different piece
    // there. The stronger piece Y(64) survives with 64 - 48 = 16 points,
    // the weaker X(48) is removed.
    let players = two_players();
    let mut baseline = Board::empty();
    place(&mut baseline, &players[0], "Xenon", FigureType::Normal, 5, 4, 48);
    place(&mut baseline, &players[1], "Yak", FigureType::Normal, 5, 6, 64);
    let session = session_over(baseline);

    let mut m1 = session.get_last_map();
    m1.move_entity(Position::new(5, 4), Position::new(5, 5));
    let mut m2 = session.get_last_map();
    m2.move_entity(Position::new(5, 6), Position::new(5, 5));

    let merged = session.resolve_maps(&m1, &m2);
    let winner = cell(&merged, 5, 5).as_ref().unwrap();
    assert_eq!(winner.points, 16);
    assert_eq!(winner.owner_id, 2);
    assert!(cell(&merged, 5, 4).is_none());
    assert!(cell(&merged, 5, 6).is_none());
}

#[test]
fn merge_combat_tie_is_order_independent() {
    // Equal point values: neither candidate wins and the baseline occupant
    // (here: nobody) is retained, whichever candidate is labelled first.
    let players = two_players();
    let mut baseline = Board::empty();
    place(&mut baseline, &players[0], "Xenon", FigureType::Normal, 5, 4, 32);
    place(&mut baseline, &players[1], "Yak", FigureType::Normal, 5, 6, 32);
    let session = session_over(baseline);

    let mut m1 = session.get_last_map();
    m1.move_entity(Position::new(5, 4), Position::new(5, 5));
    let mut m2 = session.get_last_map();
    m2.move_entity(Position::new(5, 6), Position::new(5, 5));

    let merged_ab = session.resolve_maps(&m1, &m2);
    let merged_ba = session.resolve_maps(&m2, &m1);
    assert!(cell(&merged_ab, 5, 5).is_none());
    assert!(cell(&merged_ba, 5, 5).is_none());
}

#[test]
fn merge_combat_tie_retains_baseline_occupant() {
    // A tie over an occupied baseline square keeps the baseline occupant
    // unchanged.
    let players = two_players();
    let mut baseline = Board::empty();
    place(&mut baseline, &players[0], "Home", FigureType::Normal, 5, 5, 7);
    place(&mut baseline, &players[0], "Xenon", FigureType::Normal, 5, 4, 32);
    place(&mut baseline, &players[1], "Yak", FigureType::Normal, 5, 6, 32);
    let session = session_over(baseline);

    let mut m1 = session.get_last_map();
    // Clear the square on each private copy so the contenders can enter.
    m1.cells[5 * 16 + 5] = None;
    m1.move_entity(Position::new(5, 4), Position::new(5, 5));
    let mut m2 = session.get_last_map();
    m2.cells[5 * 16 + 5] = None;
    m2.move_entity(Position::new(5, 6), Position::new(5, 5));

    let merged = session.resolve_maps(&m1, &m2);
    let kept = cell(&merged, 5, 5).as_ref().unwrap();
    assert_eq!(kept.points, 7);
    let merged_swapped = session.resolve_maps(&m2, &m1);
    assert_eq!(cell(&merged_swapped, 5, 5).as_ref().unwrap().points, 7);
}

#[test]
fn merge_identical_candidates_stand() {
    let players = two_players();
    let mut baseline = Board::empty();
    place(&mut baseline, &players[0], "Pawn", FigureType::Normal, 2, 2, 16);
    let session = session_over(baseline);

    let mut m1 = session.get_last_map();
    m1.move_entity(Position::new(2, 2), Position::new(2, 3));
    let mut m2 = session.get_last_map();
    m2.move_entity(Position::new(2, 2), Position::new(2, 3));

    let merged = session.resolve_maps(&m1, &m2);
    // The identical moved-in occupant stands; the vacated baseline square,
    // empty on both candidates, keeps its baseline occupant.
    assert_eq!(cell(&merged, 2, 3).as_ref().unwrap().points, 16);
    assert!(cell(&merged, 2, 2).is_some());
}

#[test]
fn submit_moves_applies_only_legal_intents() {
    let mut session = Session::new(two_players());
    let mover = session.get_entity_by_pos(Position::new(2, 0)).unwrap();
    let blocked = session.get_entity_by_pos(Position::new(0, 0)).unwrap();
    let candidate = session.submit_moves([
        Some((mover, Position::new(4, 0))),
        Some((blocked, Position::new(1, 0))),
        None,
    ]);
    // The first intent is a legal two-square step; the second aims at an
    // occupied square and is forfeited.
    assert!(cell(&candidate, 2, 0).is_none());
    assert!(cell(&candidate, 4, 0).is_some());
    assert!(cell(&candidate, 0, 0).is_some());
    assert!(cell(&candidate, 1, 0).is_some());
    // The session itself is untouched by building a candidate.
    assert_eq!(session.record.len(), 1);
}

#[test]
fn calculate_round_appends_one_merged_snapshot() {
    let mut session = Session::new(two_players());
    let mover = session.get_entity_by_pos(Position::new(2, 0)).unwrap();
    session.calculate_round(
        [Some((mover, Position::new(4, 0))), None, None],
        [None, None, None],
    );
    assert_eq!(session.record.len(), 2);
    let latest = &session.record[1];
    assert!(cell(latest, 2, 0).is_none());
    assert_eq!(cell(latest, 4, 0).as_ref().unwrap().owner_id, 1);
    // The first snapshot still shows the piece where it started.
    assert!(cell(&session.record[0], 2, 0).is_some());
    assert!(matches!(session.result, SessionResult::Active));
}

#[test]
fn session_finishes_when_one_roster_is_wiped() {
    let players = two_players();
    let mut baseline = Board::empty();
    place(&mut baseline, &players[0], "Pawn", FigureType::Normal, 2, 2, 16);
    let mut session = session_over(baseline);
    // Player two has no live entity on the baseline: one no-move round
    // settles the outcome.
    session.calculate_round([None, None, None], [None, None, None]);
    assert!(matches!(session.result, SessionResult::Finished(1)));
}

#[test]
fn session_suspends_when_both_rosters_are_wiped() {
    let baseline = Board::empty();
    let mut session = session_over(baseline);
    session.calculate_round([None, None, None], [None, None, None]);
    assert!(matches!(session.result, SessionResult::Suspended));
}

#[test]
fn get_entity_by_pos_handles_misses() {
    let session = Session::new(two_players());
    assert!(session.get_entity_by_pos(Position::new(7, 7)).is_none());
    assert!(session.get_entity_by_pos(Position::new(200, 7)).is_none());
    let found = session.get_entity_by_pos(Position::new(1, 0)).unwrap();
    assert_eq!(found.position, Position::new(1, 0));
}

#[test]
fn get_entity_by_id_finds_the_last_match() {
    let session = Session::new(two_players());
    // Every spawned entity carries id 0; the scan keeps the last one in
    // storage order, which is player two's mirrored pawn on (15, 15).
    let found = session.get_entity_by_id(0).unwrap();
    assert_eq!(found.position, Position::new(15, 15));
    assert!(session.get_entity_by_id(3).is_none());
}

#[test]
fn get_last_map_copies_the_baseline() {
    let mut session = Session::new(two_players());
    let mut copy = session.get_last_map();
    copy.move_entity(Position::new(2, 0), Position::new(4, 0));
    // Changing the copy does not touch the history.
    assert!(cell(&session.record[0], 2, 0).is_some());
    let mover = session.get_entity_by_pos(Position::new(2, 0)).unwrap();
    session.calculate_round([Some((mover, Position::new(4, 0))), None, None], [None, None, None]);
    assert!(cell(&session.record[1], 4, 0).is_some());
}
