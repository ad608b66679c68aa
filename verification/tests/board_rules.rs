use hidden_moves::{Board, Entity, Figure, FigureType, Player, Position};

fn pawn_pattern() -> [[u8; 9]; 9] {
    [
        [0, 0, 0, 0, 0, 0, 0, 0, 0],
        [0, 0, 0, 0, 0, 0, 0, 0, 0],
        [0, 0, 0, 0, 1, 0, 0, 0, 0],
        [0, 0, 0, 0, 1, 0, 0, 0, 0],
        [0, 0, 1, 1, 0, 1, 1, 0, 0],
        [0, 0, 0, 0, 1, 0, 0, 0, 0],
        [0, 0, 0, 0, 1, 0, 0, 0, 0],
        [0, 0, 0, 0, 0, 0, 0, 0, 0],
        [0, 0, 0, 0, 0, 0, 0, 0, 0],
    ]
}

fn king_pattern() -> [[u8; 9]; 9] {
    [
        [0, 0, 0, 0, 0, 0, 0, 0, 0],
        [0, 0, 0, 0, 0, 0, 0, 0, 0],
        [0, 0, 0, 0, 0, 0, 0, 0, 0],
        [0, 0, 0, 1, 1, 1, 0, 0, 0],
        [0, 0, 0, 1, 0, 1, 0, 0, 0],
        [0, 0, 0, 1, 1, 1, 0, 0, 0],
        [0, 0, 0, 0, 0, 0, 0, 0, 0],
        [0, 0, 0, 0, 0, 0, 0, 0, 0],
        [0, 0, 0, 0, 0, 0, 0, 0, 0],
    ]
}

fn queen_pattern() -> [[u8; 9]; 9] {
    [
        [1, 1, 1, 1, 1, 1, 1, 1, 1],
        [1, 1, 1, 1, 1, 1, 1, 1, 1],
        [1, 1, 1, 1, 1, 1, 1, 1, 1],
        [1, 1, 1, 1, 0, 1, 1, 1, 1],
        [1, 1, 1, 0, 0, 0, 1, 1, 1],
        [1, 1, 1, 1, 0, 1, 1, 1, 1],
        [1, 1, 1, 1, 1, 1, 1, 1, 1],
        [1, 1, 1, 1, 1, 1, 1, 1, 1],
        [1, 1, 1, 1, 1, 1, 1, 1, 1],
    ]
}

fn bishop_pattern() -> [[u8; 9]; 9] {
    [
        [1, 0, 0, 0, 0, 0, 0, 0, 1],
        [0, 1, 0, 0, 0, 0, 0, 1, 0],
        [0, 0, 1, 0, 0, 0, 1, 0, 0],
        [0, 0, 0, 1, 0, 1, 0, 0, 0],
        [0, 0, 0, 0, 0, 0, 0, 0, 0],
        [0, 0, 0, 1, 0, 1, 0, 0, 0],
        [0, 0, 1, 0, 0, 0, 1, 0, 0],
        [0, 1, 0, 0, 0, 0, 0, 1, 0],
        [1, 0, 0, 0, 0, 0, 0, 0, 1],
    ]
}

fn pawn_at(x: u8, y: u8) -> Figure {
    Figure::new("Pawn".to_string(), pawn_pattern(), Position::new(x, y), FigureType::Normal)
}

fn sample_roster() -> [Figure; 8] {
    [
        pawn_at(0, 0),
        pawn_at(1, 0),
        pawn_at(2, 0),
        pawn_at(0, 1),
        pawn_at(1, 1),
        pawn_at(2, 1),
        pawn_at(0, 2),
        pawn_at(1, 2),
    ]
}

fn cell(board: &Board, x: u8, y: u8) -> &Option<Entity> {
    &board.cells[x as usize * 16 + y as usize]
}

#[test]
fn pawn_reaches_a_cross() {
    let e = Entity::new(0, 1, pawn_at(8, 8), Position::new(8, 8));
    for (dx, dy) in [(1i16, 0i16), (2, 0), (-1, 0), (-2, 0), (0, 1), (0, 2), (0, -1), (0, -2)] {
        let target = Position::new((8 + dx) as u8, (8 + dy) as u8);
        assert!(e.can_reach(target), "pawn should reach offset ({}, {})", dx, dy);
    }
    assert!(!e.can_reach(Position::new(9, 9)));
    assert!(!e.can_reach(Position::new(8, 8)));
    assert!(!e.can_reach(Position::new(8, 11)));
    assert!(!e.can_reach(Position::new(15, 8)));
}

#[test]
fn king_reaches_the_adjacent_ring() {
    let fig = Figure::new("King".to_string(), king_pattern(), Position::new(8, 8), FigureType::Special);
    let e = Entity::new(0, 1, fig, Position::new(8, 8));
    for dx in -1i16..=1 {
        for dy in -1i16..=1 {
            let target = Position::new((8 + dx) as u8, (8 + dy) as u8);
            let expected = !(dx == 0 && dy == 0);
            assert_eq!(e.can_reach(target), expected, "offset ({}, {})", dx, dy);
        }
    }
    assert!(!e.can_reach(Position::new(10, 8)));
}

#[test]
fn queen_reaches_everything_but_adjacent_orthogonals() {
    let fig = Figure::new("Queen".to_string(), queen_pattern(), Position::new(8, 8), FigureType::Special);
    let e = Entity::new(0, 1, fig, Position::new(8, 8));
    assert!(e.can_reach(Position::new(11, 11)));
    assert!(e.can_reach(Position::new(4, 8)));
    assert!(e.can_reach(Position::new(8, 12)));
    assert!(e.can_reach(Position::new(6, 10)));
    // The adjacent diagonal is marked, the adjacent orthogonals are not.
    assert!(e.can_reach(Position::new(7, 7)));
    assert!(!e.can_reach(Position::new(8, 8)));
    assert!(!e.can_reach(Position::new(9, 8)));
    assert!(!e.can_reach(Position::new(8, 7)));
    assert!(!e.can_reach(Position::new(13, 8)));
}

#[test]
fn bishop_reaches_diagonals_only() {
    let fig = Figure::new("Bishop".to_string(), bishop_pattern(), Position::new(8, 8), FigureType::Special);
    let e = Entity::new(0, 1, fig, Position::new(8, 8));
    for d in 1i16..=4 {
        assert!(e.can_reach(Position::new((8 + d) as u8, (8 + d) as u8)));
        assert!(e.can_reach(Position::new((8 - d) as u8, (8 - d) as u8)));
        assert!(e.can_reach(Position::new((8 + d) as u8, (8 - d) as u8)));
        assert!(e.can_reach(Position::new((8 - d) as u8, (8 + d) as u8)));
    }
    assert!(!e.can_reach(Position::new(9, 8)));
    assert!(!e.can_reach(Position::new(8, 10)));
    assert!(!e.can_reach(Position::new(10, 9)));
}

#[test]
fn new_entity_point_values() {
    let normal = Entity::new(0, 1, pawn_at(0, 0), Position::new(0, 0));
    assert_eq!(normal.points, 16);
    let fig = Figure::new("King".to_string(), king_pattern(), Position::new(0, 0), FigureType::Special);
    let special = Entity::new(0, 1, fig, Position::new(0, 0));
    assert_eq!(special.points, 32);
}

#[test]
fn deal_dmg_clamps_at_zero() {
    let strong = {
        let fig = Figure::new("Queen".to_string(), queen_pattern(), Position::new(0, 0), FigureType::Special);
        Entity::new(0, 1, fig, Position::new(0, 0))
    };
    let mut weak = Entity::new(0, 2, pawn_at(1, 1), Position::new(1, 1));
    // 16 - 32 clamps to 0, it never wraps.
    strong.deal_dmg(&mut weak);
    assert_eq!(weak.points, 0);

    let mut sturdy = {
        let fig = Figure::new("King".to_string(), king_pattern(), Position::new(2, 2), FigureType::Special);
        Entity::new(0, 2, fig, Position::new(2, 2))
    };
    let pawn = Entity::new(0, 1, pawn_at(3, 3), Position::new(3, 3));
    // 32 - 16 leaves 16.
    pawn.deal_dmg(&mut sturdy);
    assert_eq!(sturdy.points, 16);
    pawn.deal_dmg(&mut sturdy);
    assert_eq!(sturdy.points, 0);
}

#[test]
fn symbols_encode_kind_in_case() {
    let normal = Entity::new(0, 1, pawn_at(0, 0), Position::new(0, 0));
    assert_eq!(normal.get_symbol(), "p");
    let fig = Figure::new("King".to_string(), king_pattern(), Position::new(0, 0), FigureType::Special);
    let special = Entity::new(0, 1, fig, Position::new(0, 0));
    assert_eq!(special.get_symbol(), "K");
}

#[test]
fn move_entity_moves_a_legal_move() {
    let player = Player::new("Ame".to_string(), 1, sample_roster());
    let mut board = Board::empty();
    board.spawn(&player, pawn_at(2, 2), false);
    board.move_entity(Position::new(2, 2), Position::new(2, 4));
    assert!(cell(&board, 2, 2).is_none());
    let moved = cell(&board, 2, 4).as_ref().unwrap();
    assert_eq!(moved.position, Position::new(2, 4));
    assert_eq!(moved.points, 16);
}

#[test]
fn move_entity_ignores_occupied_target() {
    let player = Player::new("Ame".to_string(), 1, sample_roster());
    let mut board = Board::empty();
    board.spawn(&player, pawn_at(2, 2), false);
    board.spawn(&player, pawn_at(2, 4), false);
    board.move_entity(Position::new(2, 2), Position::new(2, 4));
    assert!(cell(&board, 2, 2).is_some());
    assert_eq!(cell(&board, 2, 4).as_ref().unwrap().position, Position::new(2, 4));
}

#[test]
fn move_entity_ignores_unreachable_target() {
    let player = Player::new("Ame".to_string(), 1, sample_roster());
    let mut board = Board::empty();
    board.spawn(&player, pawn_at(2, 2), false);
    // A pawn cannot step diagonally.
    board.move_entity(Position::new(2, 2), Position::new(3, 3));
    assert!(cell(&board, 2, 2).is_some());
    assert!(cell(&board, 3, 3).is_none());
}

#[test]
fn move_entity_ignores_out_of_bounds() {
    let player = Player::new("Ame".to_string(), 1, sample_roster());
    let mut board = Board::empty();
    board.spawn(&player, pawn_at(15, 15), false);
    board.move_entity(Position::new(15, 15), Position::new(15, 17));
    board.move_entity(Position::new(20, 20), Position::new(1, 1));
    assert!(cell(&board, 15, 15).is_some());
}

#[test]
fn move_entity_ignores_empty_source() {
    let mut board = Board::empty();
    board.move_entity(Position::new(2, 2), Position::new(2, 3));
    for k in 0..256 {
        assert!(board.cells[k].is_none());
    }
}

#[test]
fn spawn_reverses_for_the_second_player() {
    let player = Player::new("Gura".to_string(), 2, sample_roster());
    let mut board = Board::empty();
    board.spawn(&player, pawn_at(2, 3), true);
    let e = cell(&board, 13, 12).as_ref().unwrap();
    assert_eq!(e.owner_id, 2);
    assert_eq!(e.position, Position::new(13, 12));
}

#[test]
fn spawn_drops_a_colliding_figure() {
    let player = Player::new("Ame".to_string(), 1, sample_roster());
    let mut board = Board::empty();
    board.spawn(&player, pawn_at(0, 0), false);
    let mut second = pawn_at(0, 0);
    second = second.starting_at(Position::new(0, 0));
    board.spawn(&player, second, false);
    assert_eq!(board.live_count(1), 1);
}

#[test]
fn init_keeps_colliding_spawn_out_of_play() {
    // Two figures of one roster aimed at the same starting square: one
    // spawns, the other is dropped, leaving seven live entities.
    let mut figures = sample_roster();
    figures[1] = pawn_at(0, 0);
    let p1 = Player::new("Ame".to_string(), 1, figures);
    let p2 = Player::new("Gura".to_string(), 2, sample_roster());
    let board = Board::init(p1, p2);
    assert_eq!(board.live_count(1), 7);
    assert_eq!(board.live_count(2), 8);
}

#[test]
fn update_points_applies_pattern_damage_both_ways() {
    let ame = Player::new("Ame".to_string(), 1, sample_roster());
    let gura = Player::new("Gura".to_string(), 2, sample_roster());
    let mut board = Board::empty();
    board.spawn(&ame, pawn_at(0, 0), false);
    let king = Figure::new("King".to_string(), king_pattern(), Position::new(0, 1), FigureType::Special);
    board.spawn(&gura, king, false);
    board.update_points();
    // The pawn (16) and the king (32) each strike the other simultaneously.
    assert_eq!(cell(&board, 0, 0).as_ref().unwrap().points, 0);
    assert_eq!(cell(&board, 0, 1).as_ref().unwrap().points, 16);
}

#[test]
fn update_points_spares_out_of_pattern_pieces() {
    let ame = Player::new("Ame".to_string(), 1, sample_roster());
    let mut board = Board::empty();
    board.spawn(&ame, pawn_at(0, 0), false);
    board.spawn(&ame, pawn_at(5, 5), false);
    board.update_points();
    assert_eq!(cell(&board, 0, 0).as_ref().unwrap().points, 16);
    assert_eq!(cell(&board, 5, 5).as_ref().unwrap().points, 16);
}

#[test]
fn rotate90_moves_cells_for_rendering() {
    let player = Player::new("Ame".to_string(), 1, sample_roster());
    let mut board = Board::empty();
    board.spawn(&player, pawn_at(2, 5), false);
    board.rotate90();
    // After the quarter turn the occupant of (2, 5) stands where the
    // renderer reads (10, 2): new (x, y) holds old (y, 15 - x).
    assert!(cell(&board, 10, 2).is_some());
    let mut occupied = 0;
    for k in 0..256 {
        if board.cells[k].is_some() {
            occupied += 1;
        }
    }
    assert_eq!(occupied, 1);
}

#[test]
fn transpose_swaps_axes() {
    let player = Player::new("Ame".to_string(), 1, sample_roster());
    let mut board = Board::empty();
    board.spawn(&player, pawn_at(2, 5), false);
    board.transpose();
    assert!(cell(&board, 5, 2).is_some());
    assert!(cell(&board, 2, 5).is_none());
}

#[test]
fn is_taken_reports_occupancy() {
    let player = Player::new("Ame".to_string(), 1, sample_roster());
    let mut board = Board::empty();
    assert!(!board.is_taken(Position::new(1, 0)));
    board.spawn(&player, pawn_at(1, 0), false);
    assert!(board.is_taken(Position::new(1, 0)));
}

#[test]
fn figure_accessors() {
    let mut fig = pawn_at(1, 2);
    assert_eq!(fig.name(), "Pawn");
    assert_eq!(fig.start_position(), Position::new(1, 2));
    assert_eq!(*fig.fig_type(), FigureType::Normal);
    assert_eq!(fig.pattern(), pawn_pattern());
    let moved = fig.starting_at(Position::new(4, 4));
    assert_eq!(moved.start_position(), Position::new(4, 4));
    assert_eq!(fig.start_position(), Position::new(4, 4));
}

#[test]
fn player_accessors() {
    let mut player = Player::new("Ame".to_string(), 1, sample_roster());
    assert_eq!(player.name(), "Ame");
    assert_eq!(player.fig(2).start_position(), Position::new(2, 0));
    assert_eq!(player.set()[0].start_position(), Position::new(0, 0));
    let mut other = sample_roster();
    other[0] = pawn_at(9, 9);
    player.set_set(other);
    assert_eq!(player.set()[0].start_position(), Position::new(9, 9));
}
