use chess::game::{AlgebraicNotation, Check, Game};
use chess::grid::{CellId, Grid};
use chess::path::{Direction, Magnitude, Path};
use chess::pieces::{bishop, king, knight, pawn, queen, rook};
use chess::pieces::{common_moves, insert_ascending, is_before, remove_cells_in_check};
use chess::pieces::{Piece, PieceType, Side};
use chess::rays::{attacked_along, is_attacked, push_unique, walk_path, walk_paths};

fn fixed(n: u32, direction: Direction) -> Path {
    Path { magnitude: Magnitude::Fixed(n), direction }
}

fn any(direction: Direction) -> Path {
    Path { magnitude: Magnitude::Any, direction }
}

fn put(grid: &mut Grid, code: &str) {
    let alg = AlgebraicNotation::new(code);
    grid.get_cell_mut(&alg.cell).add_item(Piece::new(alg.piece, alg.side));
}

fn board(codes: &str) -> Grid {
    let mut grid = Grid::new64();
    for code in codes.split_whitespace() {
        put(&mut grid, code);
    }
    grid
}

fn at(square: &str) -> CellId {
    AlgebraicNotation::new(&format!("wp{}", square)).cell
}

fn sorted(squares: &[&str]) -> Vec<CellId> {
    let mut cells: Vec<CellId> = squares.iter().map(|s| at(s)).collect();
    cells.sort_by_key(|c| c.to_vec_idx());
    cells
}

fn game_for(turn: Side) -> Game {
    Game {
        white_stack: Vec::new(),
        black_stack: Vec::new(),
        turn,
        cell_cache: Vec::new(),
        white_king: at("e1"),
        black_king: at("e8"),
        checked: None,
        move_count: 10,
        en_passant: None,
        castles: Vec::new(),
        last_played: None,
    }
}

fn moves_of(grid: &Grid, game: &mut Game, square: &str) -> Vec<CellId> {
    let cell = grid.get_cell(&at(square));
    let piece = cell.item.as_ref().unwrap();
    let mut moves = piece.calc_valid_moves(cell, grid, game);
    let count = moves.len();
    moves.sort_by_key(|c| c.to_vec_idx());
    moves.dedup();
    assert_eq!(moves.len(), count);
    moves
}

fn touch(grid: &mut Grid, square: &str) {
    let piece = grid.get_cell_mut(&at(square)).item.as_mut().unwrap();
    piece.prev_cell = Some(CellId(0, 0));
    piece.last_played_move = Some(0);
}

#[test]
fn sides_switch() {
    assert_eq!(Side::White.switch(), Side::Black);
    assert_eq!(Side::Black.switch(), Side::White);
}

#[test]
fn fresh_pieces_have_no_history() {
    for side in [Side::White, Side::Black] {
        for (piece_type, name) in [
            (PieceType::Pawn, "Pawn"),
            (PieceType::King, "King"),
            (PieceType::Bishop, "Bishop"),
            (PieceType::Rook, "Rook"),
            (PieceType::Queen, "Queen"),
            (PieceType::Knight, "Knight"),
        ] {
            let piece = Piece::new(piece_type, side);
            assert_eq!(piece.piece_type, piece_type);
            assert_eq!(piece.side, side);
            assert_eq!(piece.name, name);
            assert_eq!(piece.prev_cell, None);
            assert_eq!(piece.last_played_move, None);
            assert_eq!(piece.same_line_of_sight_and_moveset, piece_type != PieceType::Pawn);
            assert_eq!(
                piece.same_line_of_sight_and_moveset,
                piece.moveset == piece.line_of_sight
            );
        }
    }
}

#[test]
fn pawns_travel_ahead_and_capture_aside() {
    let white = pawn::pawn(Side::White);
    assert_eq!(white.moveset, vec![fixed(1, Direction::Up)]);
    assert_eq!(
        white.line_of_sight,
        vec![fixed(1, Direction::UpLeft), fixed(1, Direction::UpRight)]
    );
    let black = pawn::pawn(Side::Black);
    assert_eq!(black.moveset, vec![fixed(1, Direction::Down)]);
    assert_eq!(
        black.line_of_sight,
        vec![fixed(1, Direction::DownRight), fixed(1, Direction::DownLeft)]
    );
    assert!(!white.same_line_of_sight_and_moveset);
    assert_eq!(white.piece_type, PieceType::Pawn);
}

#[test]
fn rays_of_the_pieces() {
    let k = king::king(Side::White);
    assert_eq!(
        k.line_of_sight,
        vec![
            fixed(1, Direction::Left),
            fixed(1, Direction::Right),
            fixed(1, Direction::UpLeft),
            fixed(1, Direction::UpRight),
            fixed(1, Direction::DownLeft),
            fixed(1, Direction::DownRight),
            fixed(1, Direction::Up),
            fixed(1, Direction::Down),
        ]
    );
    assert_eq!(k.moveset, k.line_of_sight);
    let b = bishop::bishop(Side::Black);
    assert_eq!(
        b.line_of_sight,
        vec![
            any(Direction::UpLeft),
            any(Direction::UpRight),
            any(Direction::DownLeft),
            any(Direction::DownRight),
        ]
    );
    assert_eq!(b.moveset, b.line_of_sight);
    let r = rook::rook(Side::White);
    assert_eq!(
        r.line_of_sight,
        vec![any(Direction::Up), any(Direction::Down), any(Direction::Left), any(Direction::Right)]
    );
    assert_eq!(r.moveset, r.line_of_sight);
    assert_eq!(r.piece_type, PieceType::Rook);
    let q = queen::queen(Side::Black);
    assert_eq!(
        q.line_of_sight,
        vec![
            any(Direction::UpLeft),
            any(Direction::UpRight),
            any(Direction::DownLeft),
            any(Direction::DownRight),
            any(Direction::Up),
            any(Direction::Down),
            any(Direction::Left),
            any(Direction::Right),
        ]
    );
    assert_eq!(q.moveset, q.line_of_sight);
    let n = knight::knight(Side::White);
    assert_eq!(
        n.line_of_sight,
        vec![
            fixed(1, Direction::LUpRight1),
            fixed(1, Direction::LUpLeft1),
            fixed(1, Direction::LDownRight1),
            fixed(1, Direction::LDownLeft1),
            fixed(1, Direction::LUpRight2),
            fixed(1, Direction::LUpLeft2),
            fixed(1, Direction::LDownRight2),
            fixed(1, Direction::LDownLeft2),
        ]
    );
    assert_eq!(n.moveset, n.line_of_sight);
    assert_eq!(n.piece_type, PieceType::Knight);
    assert_eq!(n.side, Side::White);
}

#[test]
fn line_of_sight_is_matched_by_compatibility() {
    let r = rook::rook(Side::White);
    assert!(r.has_line_of_sight(&fixed(5, Direction::Left)));
    assert!(r.has_line_of_sight(&any(Direction::Up)));
    assert!(!r.has_line_of_sight(&fixed(1, Direction::UpLeft)));
    let k = king::king(Side::White);
    assert!(k.has_line_of_sight(&fixed(1, Direction::UpLeft)));
    assert!(!k.has_line_of_sight(&fixed(2, Direction::UpLeft)));
    assert!(k.has_line_of_sight(&any(Direction::UpLeft)));
    assert!(!k.has_line_of_sight(&fixed(1, Direction::LUpLeft1)));
}

#[test]
fn common_moves_come_in_ascending_order() {
    let a = vec![CellId(3, 3), CellId(1, 1), CellId(5, 5), CellId(2, 2)];
    let b = vec![CellId(2, 2), CellId(3, 3), CellId(7, 7)];
    assert_eq!(common_moves(&a, &b), vec![CellId(2, 2), CellId(3, 3)]);
    assert_eq!(common_moves(&b, &a), vec![CellId(2, 2), CellId(3, 3)]);
    assert_eq!(common_moves(&a, &[]), Vec::<CellId>::new());
    assert_eq!(common_moves(&[], &a), Vec::<CellId>::new());
    assert_eq!(
        common_moves(&a, &a),
        vec![CellId(1, 1), CellId(2, 2), CellId(3, 3), CellId(5, 5)]
    );
    let down = [CellId(1, 0), CellId(0, 0)];
    assert_eq!(common_moves(&down, &down), vec![CellId(0, 0), CellId(1, 0)]);
    // a row comes before the next, whatever the file
    let cells = [CellId(0, 1), CellId(7, 0), CellId(0, 7), CellId(7, 6)];
    assert_eq!(
        common_moves(&cells, &cells),
        vec![CellId(7, 0), CellId(0, 1), CellId(7, 6), CellId(0, 7)]
    );
}

#[test]
fn common_moves_hold_each_cell_once() {
    assert_eq!(common_moves(&[CellId(1, 1), CellId(1, 1)], &[CellId(1, 1)]), vec![CellId(1, 1)]);
    assert_eq!(
        common_moves(&[CellId(1, 1)], &[CellId(1, 1), CellId(1, 1), CellId(1, 1)]),
        vec![CellId(1, 1)]
    );
    assert_eq!(common_moves(&[CellId(1, 1), CellId(1, 1)], &[CellId(2, 1)]), Vec::<CellId>::new());
    let twice = [CellId(4, 4), CellId(2, 2), CellId(4, 4), CellId(2, 2), CellId(0, 0)];
    assert_eq!(
        common_moves(&twice, &[CellId(0, 0), CellId(4, 4), CellId(2, 2)]),
        vec![CellId(0, 0), CellId(2, 2), CellId(4, 4)]
    );
}

#[test]
fn cells_are_ordered_by_index() {
    assert!(is_before(CellId(0, 0), CellId(1, 0)));
    assert!(!is_before(CellId(1, 0), CellId(0, 0)));
    assert!(is_before(CellId(7, 0), CellId(0, 1)));
    assert!(!is_before(CellId(0, 1), CellId(7, 0)));
    assert!(!is_before(CellId(3, 3), CellId(3, 3)));
    assert!(is_before(CellId(7, 6), CellId(0, 7)));
    // off the board two squares may share an index: the file decides
    assert!(is_before(CellId(0, 1), CellId(8, 0)));
    assert!(!is_before(CellId(8, 0), CellId(0, 1)));
    assert!(is_before(CellId(u32::MAX, 0), CellId(0, u32::MAX)));
    for i in 0..64usize {
        for j in 0..64usize {
            assert_eq!(is_before(CellId::from_vec_idx(i), CellId::from_vec_idx(j)), i < j);
        }
    }
}

#[test]
fn a_cell_is_put_in_its_place() {
    let mut cells = Vec::new();
    for id in [CellId(3, 3), CellId(0, 0), CellId(7, 7), CellId(3, 3), CellId(4, 3), CellId(0, 0)] {
        insert_ascending(&mut cells, id);
    }
    assert_eq!(cells, vec![CellId(0, 0), CellId(3, 3), CellId(4, 3), CellId(7, 7)]);
    insert_ascending(&mut cells, CellId(2, 3));
    insert_ascending(&mut cells, CellId(7, 7));
    assert_eq!(
        cells,
        vec![CellId(0, 0), CellId(2, 3), CellId(3, 3), CellId(4, 3), CellId(7, 7)]
    );
}

#[test]
fn push_unique_adds_once() {
    let mut cells = vec![CellId(1, 1)];
    push_unique(&mut cells, CellId(2, 2));
    push_unique(&mut cells, CellId(1, 1));
    push_unique(&mut cells, CellId(2, 2));
    assert_eq!(cells, vec![CellId(1, 1), CellId(2, 2)]);
}

#[test]
fn rook_attacks_along_an_open_file() {
    let grid = board("wke1 brd8");
    assert!(is_attacked(&grid, Side::White, at("d1")));
    assert!(is_attacked(&grid, Side::White, at("d2")));
    assert!(is_attacked(&grid, Side::White, at("a8")));
    assert!(!is_attacked(&grid, Side::White, at("e2")));
    assert!(!is_attacked(&grid, Side::Black, at("d5")));
    assert!(is_attacked(&grid, Side::Black, at("d1")));
    assert!(attacked_along(&grid, Side::White, at("d1"), Direction::Up));
    assert!(!attacked_along(&grid, Side::White, at("d1"), Direction::Right));
    assert!(!attacked_along(&grid, Side::White, at("d1"), Direction::UpLeft));
}

#[test]
fn attack_is_blocked_by_a_piece_in_between() {
    let grid = board("brd8 wpd4");
    assert!(is_attacked(&grid, Side::White, at("d5")));
    assert!(!is_attacked(&grid, Side::White, at("d3")));
    assert!(!is_attacked(&grid, Side::White, at("d1")));
    let grid = board("brd8 bpd4");
    assert!(!is_attacked(&grid, Side::White, at("d3")));
}

#[test]
fn the_own_king_does_not_shield_a_square() {
    let grid = board("wke2 bre8");
    assert!(is_attacked(&grid, Side::White, at("e1")));
    assert!(is_attacked(&grid, Side::White, at("e3")));
    let grid = board("wqe2 bre8");
    assert!(!is_attacked(&grid, Side::White, at("e1")));
    // the other side's king is no window: he attacks by himself
    let grid = board("bke4 bre8");
    assert!(attacked_along(&grid, Side::White, at("e3"), Direction::Up));
    assert!(!attacked_along(&grid, Side::White, at("e2"), Direction::Up));
    assert!(!is_attacked(&grid, Side::White, at("e2")));
}

#[test]
fn pawns_attack_diagonally_forward() {
    let grid = board("bpe5");
    assert!(is_attacked(&grid, Side::White, at("d4")));
    assert!(is_attacked(&grid, Side::White, at("f4")));
    assert!(!is_attacked(&grid, Side::White, at("e4")));
    assert!(!is_attacked(&grid, Side::White, at("d6")));
    assert!(!is_attacked(&grid, Side::White, at("f6")));
    assert!(!is_attacked(&grid, Side::White, at("c3")));
    let grid = board("wpe4");
    assert!(is_attacked(&grid, Side::Black, at("d5")));
    assert!(is_attacked(&grid, Side::Black, at("f5")));
    assert!(!is_attacked(&grid, Side::Black, at("e5")));
    assert!(!is_attacked(&grid, Side::Black, at("d3")));
}

#[test]
fn knights_attack_by_their_jump_only() {
    let grid = board("bnf3");
    for square in ["e1", "g1", "d2", "h2", "d4", "h4", "e5", "g5"] {
        assert!(is_attacked(&grid, Side::White, at(square)), "{}", square);
    }
    let others = ["f1", "f2", "e2", "g2", "e3", "g3", "f4", "d5", "h5", "b1", "d1", "h1", "f5", "c3"];
    for square in others {
        assert!(!is_attacked(&grid, Side::White, at(square)), "{}", square);
    }
    // a jump is not blocked by what stands around the knight
    let grid = board("bnf3 wpf2 wpe2 wpg2 wpe3 wpg3");
    assert!(is_attacked(&grid, Side::White, at("e1")));
}

#[test]
fn kings_attack_the_squares_around_them() {
    let grid = board("bke5");
    for square in ["d4", "e4", "f4", "d5", "f5", "d6", "e6", "f6"] {
        assert!(is_attacked(&grid, Side::White, at(square)), "{}", square);
    }
    for square in ["e3", "c5", "g5", "e7", "c3", "g7"] {
        assert!(!is_attacked(&grid, Side::White, at(square)), "{}", square);
    }
}

#[test]
fn attacked_cells_are_removed_in_order() {
    let grid = board("wke1 brd8");
    let mut cells = vec![at("d1"), at("e2"), at("d2"), at("f1"), at("f2")];
    remove_cells_in_check(&mut cells, &Side::White, &grid);
    assert_eq!(cells, vec![at("e2"), at("f1"), at("f2")]);
    let mut cells = vec![at("d1"), at("d5"), at("d2"), at("d4")];
    remove_cells_in_check(&mut cells, &Side::Black, &grid);
    assert_eq!(cells, vec![at("d5"), at("d4")]);
    let mut cells: Vec<CellId> = Vec::new();
    remove_cells_in_check(&mut cells, &Side::White, &grid);
    assert!(cells.is_empty());
}

#[test]
fn a_cell_attacked_twice_is_removed_once() {
    let grid = board("wke1 brd8 bba4");
    // d1 is attacked by the rook and by the bishop
    let mut cells = vec![at("e2"), at("d1"), at("f1"), at("f2")];
    remove_cells_in_check(&mut cells, &Side::White, &grid);
    assert_eq!(cells, vec![at("e2"), at("f1"), at("f2")]);
}

#[test]
fn walk_of_travel_stops_before_a_piece() {
    let grid = board("wra1 wpa4 bpd1");
    let mut found = Vec::new();
    walk_path(&grid, Side::White, at("a1"), &any(Direction::Up), true, false, &mut found);
    assert_eq!(found, vec![at("a2"), at("a3")]);
    let mut found = Vec::new();
    walk_path(&grid, Side::White, at("a1"), &any(Direction::Right), true, false, &mut found);
    assert_eq!(found, vec![at("b1"), at("c1")]);
    let mut found = Vec::new();
    walk_path(&grid, Side::White, at("a1"), &any(Direction::Right), true, true, &mut found);
    assert_eq!(found, vec![at("b1"), at("c1"), at("d1")]);
    let mut found = Vec::new();
    walk_path(&grid, Side::White, at("a1"), &any(Direction::Right), false, true, &mut found);
    assert_eq!(found, vec![at("d1")]);
    let mut found = Vec::new();
    walk_path(&grid, Side::White, at("a1"), &any(Direction::Up), false, true, &mut found);
    assert_eq!(found, Vec::<CellId>::new());
    let mut found = Vec::new();
    walk_path(&grid, Side::White, at("a1"), &fixed(1, Direction::Right), true, true, &mut found);
    assert_eq!(found, vec![at("b1")]);
    let mut found = Vec::new();
    walk_path(&grid, Side::White, at("a1"), &fixed(0, Direction::Right), true, true, &mut found);
    assert_eq!(found, Vec::<CellId>::new());
    let mut found = Vec::new();
    walk_path(&grid, Side::White, at("a1"), &any(Direction::Left), true, true, &mut found);
    assert_eq!(found, Vec::<CellId>::new());
}

#[test]
fn walks_add_each_cell_once() {
    let grid = board("wqd4");
    let mut found = vec![at("d5")];
    let paths = vec![any(Direction::Up), fixed(2, Direction::Up), fixed(1, Direction::Left)];
    walk_paths(&grid, Side::White, at("d4"), &paths, true, true, &mut found);
    assert_eq!(found, vec![at("d5"), at("d6"), at("d7"), at("d8"), at("c4")]);
}

#[test]
fn knight_moves() {
    let grid = board("wna1 wpb3 bpc2");
    let mut game = game_for(Side::White);
    assert_eq!(moves_of(&grid, &mut game, "a1"), sorted(&["c2"]));
    let grid = board("wnd4");
    assert_eq!(
        moves_of(&grid, &mut game, "d4"),
        sorted(&["b3", "b5", "c2", "c6", "e2", "e6", "f3", "f5"])
    );
}

#[test]
fn rook_moves() {
    let grid = board("wrd4 wpd6 bpg4 bpd1");
    let mut game = game_for(Side::White);
    assert_eq!(
        moves_of(&grid, &mut game, "d4"),
        sorted(&["d5", "d3", "d2", "d1", "c4", "b4", "a4", "e4", "f4", "g4"])
    );
}

#[test]
fn bishop_moves() {
    let grid = board("bbc1 bpe3 wpa3");
    let mut game = game_for(Side::Black);
    assert_eq!(moves_of(&grid, &mut game, "c1"), sorted(&["b2", "a3", "d2"]));
}

#[test]
fn queen_moves_on_an_empty_board() {
    let grid = board("wqa1");
    let mut game = game_for(Side::White);
    assert_eq!(moves_of(&grid, &mut game, "a1").len(), 21);
    let grid = board("wqd4");
    assert_eq!(moves_of(&grid, &mut game, "d4").len(), 27);
}

#[test]
fn pawn_moves() {
    let mut game = game_for(Side::White);
    // unmoved: one or two steps
    let grid = board("wpe2");
    assert_eq!(moves_of(&grid, &mut game, "e2"), sorted(&["e3", "e4"]));
    let grid = board("bpe7");
    assert_eq!(moves_of(&grid, &mut game, "e7"), sorted(&["e6", "e5"]));
    // blocked at the second step
    let grid = board("wpe2 bpe4");
    assert_eq!(moves_of(&grid, &mut game, "e2"), sorted(&["e3"]));
    // blocked at the first step
    let grid = board("wpe2 bpe3");
    assert_eq!(moves_of(&grid, &mut game, "e2"), sorted(&[]));
    // captures on the diagonals, not ahead, not of its own side
    let grid = board("wpe2 bpd3 wpf3 bpe3");
    assert_eq!(moves_of(&grid, &mut game, "e2"), sorted(&["d3"]));
    let grid = board("bpe7 wpd6 wnf6");
    assert_eq!(moves_of(&grid, &mut game, "e7"), sorted(&["e6", "e5", "d6", "f6"]));
    // moved: one step only
    let mut grid = board("wpe3");
    touch(&mut grid, "e3");
    assert_eq!(moves_of(&grid, &mut game, "e3"), sorted(&["e4"]));
    // at the far edge: nowhere
    let mut grid = board("wpe8");
    touch(&mut grid, "e8");
    assert_eq!(moves_of(&grid, &mut game, "e8"), sorted(&[]));
}

#[test]
fn king_moves() {
    let mut game = game_for(Side::White);
    let mut grid = board("wke4 wpe5 bpd4");
    touch(&mut grid, "e4");
    // d4 is taken; e5 is the king's own; d3 and f3 are free; the pawn on d4
    // attacks c3 and e3
    assert_eq!(moves_of(&grid, &mut game, "e4"), sorted(&["d5", "f5", "d4", "f4", "d3", "f3"]));
    let mut grid = board("wka1");
    touch(&mut grid, "a1");
    assert_eq!(moves_of(&grid, &mut game, "a1"), sorted(&["a2", "b2", "b1"]));
}

#[test]
fn king_keeps_off_attacked_squares() {
    let mut game = game_for(Side::White);
    let mut grid = board("wke1 brd8 bbh4");
    touch(&mut grid, "e1");
    // d1, d2 by the rook; f2 by the bishop (and e1 itself is in its ray)
    assert_eq!(moves_of(&grid, &mut game, "e1"), sorted(&["e2", "f1"]));
    // the king may not step back along the ray of a check
    let mut grid = board("wke2 bre8");
    touch(&mut grid, "e2");
    assert_eq!(moves_of(&grid, &mut game, "e2"), sorted(&["d1", "f1", "d2", "f2", "d3", "f3"]));
    // a protected piece may not be taken
    let mut grid = board("wke1 bqe2 bbg4");
    touch(&mut grid, "e1");
    assert_eq!(moves_of(&grid, &mut game, "e1"), sorted(&[]));
    // an unprotected one may
    let mut grid = board("wke1 bqe2");
    touch(&mut grid, "e1");
    assert_eq!(moves_of(&grid, &mut game, "e1"), sorted(&["e2"]));
}

#[test]
fn no_move_ends_on_an_own_piece() {
    let mut grid = Grid::new64();
    let mut game = Game::new(&mut grid);
    for i in 0..64usize {
        let id = CellId::from_vec_idx(i);
        let cell = grid.get_cell(&id);
        if let Some(piece) = &cell.item {
            for dest in piece.calc_valid_moves(cell, &grid, &mut game) {
                if let Some(other) = &grid.get_cell(&dest).item {
                    assert_ne!(other.side, piece.side);
                }
            }
        }
    }
}

#[test]
fn moves_at_the_start() {
    let mut grid = Grid::new64();
    let mut game = Game::new(&mut grid);
    assert_eq!(moves_of(&grid, &mut game, "b1"), sorted(&["a3", "c3"]));
    assert_eq!(moves_of(&grid, &mut game, "g8"), sorted(&["f6", "h6"]));
    assert_eq!(moves_of(&grid, &mut game, "a1"), sorted(&[]));
    assert_eq!(moves_of(&grid, &mut game, "c1"), sorted(&[]));
    assert_eq!(moves_of(&grid, &mut game, "d1"), sorted(&[]));
    assert_eq!(moves_of(&grid, &mut game, "e1"), sorted(&[]));
    assert_eq!(moves_of(&grid, &mut game, "e8"), sorted(&[]));
    for file in ["a", "b", "c", "d", "e", "f", "g", "h"] {
        assert_eq!(
            moves_of(&grid, &mut game, &format!("{}2", file)),
            sorted(&[&format!("{}3", file), &format!("{}4", file)])
        );
        assert_eq!(
            moves_of(&grid, &mut game, &format!("{}7", file)),
            sorted(&[&format!("{}6", file), &format!("{}5", file)])
        );
    }
    assert!(game.castles.is_empty());
    assert!(game.en_passant.is_none());
}

#[test]
fn pinned_piece_keeps_to_the_line_of_its_pin() {
    let mut game = game_for(Side::White);
    let mut grid = board("wke1 wre3 bre8");
    // toward the king, toward the rook that pins, and onto that rook
    grid.get_cell_mut(&at("e3")).pin = Some(fixed(5, Direction::Up));
    assert_eq!(moves_of(&grid, &mut game, "e3"), sorted(&["e2", "e4", "e5", "e6", "e7", "e8"]));
    // a pin without a bound runs to the edge of the board
    grid.get_cell_mut(&at("e3")).pin = Some(any(Direction::Up));
    assert_eq!(moves_of(&grid, &mut game, "e3"), sorted(&["e2", "e4", "e5", "e6", "e7", "e8"]));
    grid.get_cell_mut(&at("e3")).pin = Some(fixed(2, Direction::Up));
    assert_eq!(moves_of(&grid, &mut game, "e3"), sorted(&["e2", "e4", "e5"]));
    grid.get_cell_mut(&at("e3")).pin = Some(fixed(0, Direction::Up));
    assert_eq!(moves_of(&grid, &mut game, "e3"), sorted(&["e2"]));
    // a pin along a ray on which the piece does not stand from its king
    grid.get_cell_mut(&at("e3")).pin = Some(fixed(9, Direction::Right));
    assert_eq!(moves_of(&grid, &mut game, "e3"), sorted(&["f3", "g3", "h3"]));
    // the line starts at the king of the side to move
    game.white_king = at("e2");
    grid.get_cell_mut(&at("e3")).pin = Some(fixed(5, Direction::Up));
    assert_eq!(moves_of(&grid, &mut game, "e3"), sorted(&["e4", "e5", "e6", "e7", "e8"]));
    game.white_king = at("a3");
    grid.get_cell_mut(&at("e3")).pin = Some(fixed(2, Direction::Right));
    assert_eq!(moves_of(&grid, &mut game, "e3"), sorted(&["b3", "c3", "d3", "f3", "g3"]));
    game.white_king = at("e1");
    // the king is not held by a pin noted on his cell
    grid.get_cell_mut(&at("e1")).pin = Some(fixed(1, Direction::Left));
    touch(&mut grid, "e1");
    assert_eq!(moves_of(&grid, &mut game, "e1"), sorted(&["d1", "d2", "e2", "f2", "f1"]));
}

#[test]
fn in_check_a_piece_must_block_or_capture() {
    let mut game = game_for(Side::White);
    game.checked = Some(Check { absolute: false, path: fixed(7, Direction::Up) });
    let grid = board("wke1 bre8 wbc4 wna7 wph2");
    assert_eq!(moves_of(&grid, &mut game, "c4"), sorted(&["e6", "e2"]));
    assert_eq!(moves_of(&grid, &mut game, "a7"), sorted(&[]));
    assert_eq!(moves_of(&grid, &mut game, "h2"), sorted(&[]));
    let grid = board("wke1 bre8 wrh8 wnd6");
    assert_eq!(moves_of(&grid, &mut game, "h8"), sorted(&["e8"]));
    assert_eq!(moves_of(&grid, &mut game, "d6"), sorted(&["e8", "e4"]));
}

#[test]
fn in_check_by_two_pieces_only_the_king_moves() {
    let mut game = game_for(Side::White);
    game.checked = Some(Check { absolute: true, path: fixed(7, Direction::Up) });
    let mut grid = board("wke1 bre8 bnd3 wbc4 wrh8 wnd6");
    touch(&mut grid, "e1");
    assert_eq!(moves_of(&grid, &mut game, "c4"), sorted(&[]));
    assert_eq!(moves_of(&grid, &mut game, "h8"), sorted(&[]));
    assert_eq!(moves_of(&grid, &mut game, "d6"), sorted(&[]));
    assert_eq!(moves_of(&grid, &mut game, "e1"), sorted(&["d1", "d2", "f1"]));
}

#[test]
fn pawn_extra_moves() {
    let mut game = game_for(Side::White);
    let grid = board("wpe2");
    let pawn = grid.get_cell(&at("e2")).item.as_ref().unwrap();
    assert_eq!(pawn.extra_moves(at("e2"), &grid, &mut game), vec![fixed(2, Direction::Up)]);
    let grid = board("bpe7");
    let pawn = grid.get_cell(&at("e7")).item.as_ref().unwrap();
    assert_eq!(pawn.extra_moves(at("e7"), &grid, &mut game), vec![fixed(2, Direction::Down)]);
    let mut grid = board("wpe3");
    touch(&mut grid, "e3");
    let pawn = grid.get_cell(&at("e3")).item.as_ref().unwrap();
    assert_eq!(pawn.extra_moves(at("e3"), &grid, &mut game), vec![]);
    assert!(game.en_passant.is_none());
    assert!(game.castles.is_empty());
}

#[test]
fn pawn_extra_moves_with_captures_in_passing() {
    let mut game = game_for(Side::White);
    let mut grid = board("wpe5 bpd5 bpf5");
    touch(&mut grid, "e5");
    for square in ["d5", "f5"] {
        let pawn = grid.get_cell_mut(&at(square)).item.as_mut().unwrap();
        pawn.prev_cell = Some(CellId(at(square).0, 1));
        pawn.last_played_move = Some(9);
    }
    let pawn = grid.get_cell(&at("e5")).item.as_ref().unwrap();
    assert_eq!(
        pawn.extra_moves(at("e5"), &grid, &mut game),
        vec![fixed(1, Direction::UpLeft), fixed(1, Direction::UpRight)]
    );
    // the note is of the capture to the right, worked out last
    let note = game.en_passant.as_ref().unwrap();
    assert_eq!((note.dest, note.current, note.linked_pawn), (at("f6"), at("e5"), at("f5")));
    assert_eq!(moves_of(&grid, &mut game, "e5"), sorted(&["e6", "d6", "f6"]));
}

#[test]
fn no_capture_in_passing_of_a_pawn_that_did_not_just_come_two_rows() {
    let setups: [(Option<CellId>, Option<u32>); 6] = [
        (None, None),
        (Some(CellId(3, 2)), Some(9)),
        (Some(CellId(3, 1)), Some(8)),
        (Some(CellId(3, 1)), Some(10)),
        (Some(CellId(3, 1)), Some(11)),
        (Some(CellId(3, 1)), None),
    ];
    for (prev_cell, last_played_move) in setups {
        let mut game = game_for(Side::White);
        let mut grid = board("wpe5 bpd5");
        touch(&mut grid, "e5");
        let pawn = grid.get_cell_mut(&at("d5")).item.as_mut().unwrap();
        pawn.prev_cell = prev_cell;
        pawn.last_played_move = last_played_move;
        assert_eq!(moves_of(&grid, &mut game, "e5"), sorted(&["e6"]));
        assert!(game.en_passant.is_none());
    }
    // a piece that is no pawn, or a pawn of the own side
    for codes in ["wpe5 bnd5", "wpe5 wpd5"] {
        let mut game = game_for(Side::White);
        let mut grid = board(codes);
        touch(&mut grid, "e5");
        let other = grid.get_cell_mut(&at("d5")).item.as_mut().unwrap();
        other.prev_cell = Some(CellId(3, 1));
        other.last_played_move = Some(9);
        assert_eq!(moves_of(&grid, &mut game, "e5"), sorted(&["e6"]));
        assert!(game.en_passant.is_none());
    }
}

#[test]
fn king_extra_moves() {
    let mut game = game_for(Side::White);
    let grid = board("wke1 wra1 wrh1");
    let king = grid.get_cell(&at("e1")).item.as_ref().unwrap();
    assert_eq!(
        king.extra_moves(at("e1"), &grid, &mut game),
        vec![fixed(2, Direction::Right), fixed(2, Direction::Left)]
    );
    assert_eq!(game.castles.len(), 2);
    assert_eq!(game.castles[0].dest, at("g1"));
    assert_eq!(game.castles[0].linked_rook, at("h1"));
    assert_eq!(game.castles[0].rook_move_direction, Direction::Left);
    assert_eq!(game.castles[1].dest, at("c1"));
    assert_eq!(game.castles[1].current, at("e1"));
    assert_eq!(game.castles[1].linked_rook, at("a1"));
    assert_eq!(game.castles[1].rook_move_direction, Direction::Right);
    assert_eq!(
        moves_of(&grid, &mut game, "e1"),
        sorted(&["c1", "d1", "d2", "e2", "f2", "f1", "g1"])
    );
    assert_eq!(game.castles.len(), 4);
}

#[test]
fn no_castling_with_a_rook_too_near_or_another_piece() {
    let mut game = game_for(Side::White);
    for codes in ["wke1 wrg1", "wke1 wrf1", "wke1 wbh1", "wke1 wrh2", "wke1"] {
        let grid = board(codes);
        let king = grid.get_cell(&at("e1")).item.as_ref().unwrap();
        assert_eq!(king.extra_moves(at("e1"), &grid, &mut game), vec![], "{}", codes);
    }
    assert!(game.castles.is_empty());
    // other pieces have no extra moves
    let grid = board("wqe1 wra1 wrh1");
    let queen = grid.get_cell(&at("e1")).item.as_ref().unwrap();
    assert_eq!(queen.extra_moves(at("e1"), &grid, &mut game), vec![]);
    assert!(game.castles.is_empty());
}
