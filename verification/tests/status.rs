use chess::game::{AlgebraicNotation, Castle, EnPassant, Game};
use chess::status::scan_ray;
use chess::turn::on_grid;
use chess::grid::{CellId, Grid};
use chess::path::{Direction, Magnitude, Path};
use chess::pieces::{Piece, PieceType, Side};

fn fixed(n: u32, direction: Direction) -> Path {
    Path { magnitude: Magnitude::Fixed(n), direction }
}

fn put(grid: &mut Grid, code: &str) {
    let alg = AlgebraicNotation::new(code);
    grid.get_cell_mut(&alg.cell).add_item(Piece::new(alg.piece, alg.side));
}

fn board(codes: &str) -> Grid {
    let mut grid = Grid::new64();
    for code in codes.split_whitespace() {
        put(&mut grid, code);
    }
    grid
}

fn at(square: &str) -> CellId {
    AlgebraicNotation::new(&format!("wp{}", square)).cell
}

fn game_for(turn: Side, white_king: &str, black_king: &str) -> Game {
    Game {
        white_stack: Vec::new(),
        black_stack: Vec::new(),
        turn,
        cell_cache: Vec::new(),
        white_king: at(white_king),
        black_king: at(black_king),
        checked: None,
        move_count: 10,
        en_passant: None,
        castles: Vec::new(),
        last_played: None,
    }
}

#[test]
fn quiet_position_has_no_checks_and_no_pins() {
    let grid = board("wke1 bke8 wpe2 brd8 bbc8");
    let status = game_for(Side::White, "e1", "e8").get_board_status(&grid).unwrap();
    assert!(status.checks.is_empty());
    assert!(status.pinned_pieces.is_empty());
}

#[test]
fn missing_king_gives_no_status() {
    let grid = board("bke8 wqe1");
    assert!(game_for(Side::White, "e1", "e8").get_board_status(&grid).is_none());
    assert!(game_for(Side::White, "e2", "e8").get_board_status(&grid).is_none());
    assert!(game_for(Side::Black, "e1", "e8").get_board_status(&grid).is_some());
    // the other side's king on the cell is not the king looked for
    assert!(game_for(Side::White, "e8", "e8").get_board_status(&grid).is_none());
    let mut game = game_for(Side::White, "e1", "e8");
    game.white_king = CellId(8, 0);
    assert!(game.get_board_status(&grid).is_none());
    game.white_king = CellId(4, 8);
    assert!(game.get_board_status(&grid).is_none());
}

#[test]
fn check_by_each_kind_of_piece() {
    let cases = [
        ("wke1 bre8", fixed(7, Direction::Up)),
        ("wke1 bra1", fixed(4, Direction::Left)),
        ("wke1 bbh4", fixed(3, Direction::UpRight)),
        ("wke1 bqa5", fixed(4, Direction::UpLeft)),
        ("wke1 bpd2", fixed(1, Direction::UpLeft)),
        ("wke1 bpf2", fixed(1, Direction::UpRight)),
        ("wke1 bnf3", fixed(1, Direction::LDownRight1)),
        ("wke1 bnd3", fixed(1, Direction::LDownLeft1)),
        ("wke1 bng2", fixed(1, Direction::LUpLeft2)),
        ("wke1 bnc2", fixed(1, Direction::LDownLeft2)),
        ("wke1 bke2", fixed(1, Direction::Up)),
    ];
    for (codes, path) in cases {
        let grid = board(codes);
        let status = game_for(Side::White, "e1", "e8").get_board_status(&grid).unwrap();
        assert_eq!(status.checks, vec![path], "{}", codes);
        assert!(status.pinned_pieces.is_empty(), "{}", codes);
    }
    let grid = board("bke8 wpd7");
    let status = game_for(Side::Black, "e1", "e8").get_board_status(&grid).unwrap();
    assert_eq!(status.checks, vec![fixed(1, Direction::DownLeft)]);
    let grid = board("bke8 wnf6");
    let status = game_for(Side::Black, "e1", "e8").get_board_status(&grid).unwrap();
    assert_eq!(status.checks, vec![fixed(1, Direction::LUpRight1)]);
}

#[test]
fn no_check_from_a_piece_that_does_not_see_the_king() {
    for codes in [
        "wke1 bbe8",
        "wke1 bra5",
        "wke1 bpe2",
        "wke1 bpd1",
        "wke1 bpc3",
        "wke1 bne3",
        "wke1 bnc5",
        "wke1 bkc3",
        "wke1 wre8",
        "wke1 bre8 bpe5",
        "wke1 bre8 wpe5 wpe3",
        "wke1 bre8 wpe5 bpe3",
        "wke1 bng5",
    ] {
        let grid = board(codes);
        let status = game_for(Side::White, "e1", "e8").get_board_status(&grid).unwrap();
        assert!(status.checks.is_empty(), "{}", codes);
    }
}

#[test]
fn checks_come_in_the_order_of_the_directions() {
    // a rook to the left, a rook above, a knight: left, up, knight jump
    let grid = board("wke1 bnf3 bre8 bra1");
    let status = game_for(Side::White, "e1", "e8").get_board_status(&grid).unwrap();
    assert_eq!(
        status.checks,
        vec![
            fixed(4, Direction::Left),
            fixed(7, Direction::Up),
            fixed(1, Direction::LDownRight1),
        ]
    );
}

#[test]
fn a_shield_before_an_attacker_is_pinned() {
    let grid = board("wke1 wpd2 bba5");
    let status = game_for(Side::White, "e1", "e8").get_board_status(&grid).unwrap();
    assert!(status.checks.is_empty());
    assert_eq!(status.pinned_pieces, vec![(at("d2"), fixed(3, Direction::UpLeft))]);
    let grid = board("wke1 wre3 bre8");
    let status = game_for(Side::White, "e1", "e8").get_board_status(&grid).unwrap();
    assert_eq!(status.pinned_pieces, vec![(at("e3"), fixed(5, Direction::Up))]);
    let grid = board("bke8 bnd8 wqa8");
    let status = game_for(Side::Black, "e1", "e8").get_board_status(&grid).unwrap();
    assert_eq!(status.pinned_pieces, vec![(at("d8"), fixed(3, Direction::Left))]);
}

#[test]
fn no_pin_without_an_attacker_that_sees_through() {
    for codes in [
        "wke1 wpd2 bra5",
        "wke1 wpd2 wba5",
        "wke1 wpd2 wpc3 bba5",
        "wke1 wpd2 bpc3 bba5",
        "wke1 wpe2 bke4",
        "wke1 wpe2 bpe3",
        "wke1 wpf3 bng5",
        "wke1 wpd2",
    ] {
        let grid = board(codes);
        let status = game_for(Side::White, "e1", "e8").get_board_status(&grid).unwrap();
        assert!(status.pinned_pieces.is_empty(), "{}", codes);
        assert!(status.checks.is_empty(), "{}", codes);
    }
}

#[test]
fn pins_come_in_the_order_of_the_directions() {
    // right, left, up, up-right, up-left
    let grid = board("wke1 wpd2 bba5 wre3 bre8 wbf2 bqh4 wnb1 bra1 wng1 brh1");
    let status = game_for(Side::White, "e1", "e8").get_board_status(&grid).unwrap();
    assert!(status.checks.is_empty());
    assert_eq!(
        status.pinned_pieces,
        vec![
            (at("g1"), fixed(1, Direction::Right)),
            (at("b1"), fixed(1, Direction::Left)),
            (at("e3"), fixed(5, Direction::Up)),
            (at("f2"), fixed(2, Direction::UpRight)),
            (at("d2"), fixed(3, Direction::UpLeft)),
        ]
    );
}

#[test]
fn one_ray_holds_a_check_or_a_pin() {
    let grid = board("wke1 wre3 bre8 bbh4");
    let (check, pin) = scan_ray(&grid, Side::White, at("e1"), Direction::Up);
    assert_eq!(check, None);
    assert_eq!(pin, Some((at("e3"), fixed(5, Direction::Up))));
    let (check, pin) = scan_ray(&grid, Side::White, at("e1"), Direction::UpRight);
    assert_eq!(check, Some(fixed(3, Direction::UpRight)));
    assert_eq!(pin, None);
    let (check, pin) = scan_ray(&grid, Side::White, at("e1"), Direction::Left);
    assert_eq!((check, pin), (None, None));
    let (check, pin) = scan_ray(&grid, Side::White, at("e1"), Direction::Down);
    assert_eq!((check, pin), (None, None));
    // seen from the other side, the white rook gives check
    let (check, pin) = scan_ray(&grid, Side::Black, at("e8"), Direction::Down);
    assert_eq!(check, Some(fixed(5, Direction::Down)));
    assert_eq!(pin, None);
}

#[test]
fn knight_jumps_are_looked_at_for_one_step() {
    let mut grid = board("wke1");
    // a piece that looks along a knight jump without a bound, two jumps off
    let mut rider = Piece::new(PieceType::Knight, Side::Black);
    rider.line_of_sight = vec![Path { magnitude: Magnitude::Any, direction: Direction::LUpLeft1 }];
    grid.get_cell_mut(&CellId(6, 3)).add_item(rider);
    let (check, pin) = scan_ray(&grid, Side::White, at("e1"), Direction::LDownRight1);
    assert_eq!((check, pin), (None, None));
    // no pin along a knight jump either
    let grid = board("wke1 wpf3 bng5");
    let (check, pin) = scan_ray(&grid, Side::White, at("e1"), Direction::LDownRight1);
    assert_eq!((check, pin), (None, None));
}

#[test]
fn squares_on_the_grid() {
    assert!(on_grid(CellId(0, 0)));
    assert!(on_grid(CellId(7, 7)));
    assert!(on_grid(CellId(8, 0)));
    assert!(on_grid(CellId(63, 0)));
    assert!(!on_grid(CellId(64, 0)));
    assert!(!on_grid(CellId(0, 8)));
    assert!(!on_grid(CellId(u32::MAX, u32::MAX)));
}

#[test]
fn switch_notes_a_single_check() {
    let mut grid = board("wke1 bke8 bre7");
    let mut game = game_for(Side::Black, "e1", "e8");
    game.last_played = Some((at("a7"), at("e7")));
    assert!(game.turn_can_end(&grid));
    game.switch_turns(&mut grid);
    assert_eq!(game.turn, Side::White);
    assert_eq!(game.move_count, 11);
    let check = game.checked.as_ref().unwrap();
    assert!(!check.absolute);
    assert_eq!(check.path, fixed(6, Direction::Up));
    assert!(game.cell_cache.is_empty());
    assert_eq!(game.last_played, Some((at("a7"), at("e7"))));
}

#[test]
fn switch_notes_a_double_check_as_absolute() {
    let mut grid = board("wke1 bke8 bre7 bnd3 wqa1");
    let mut game = game_for(Side::Black, "e1", "e8");
    game.last_played = Some((at("e5"), at("d3")));
    game.switch_turns(&mut grid);
    let check = game.checked.as_ref().unwrap();
    assert!(check.absolute);
    // the first check found is the one along the first direction: up
    assert_eq!(check.path, fixed(6, Direction::Up));
    // only the king may move
    let queen_cell = grid.get_cell(&at("a1"));
    let queen = queen_cell.item.as_ref().unwrap();
    assert_eq!(queen.calc_valid_moves(queen_cell, &grid, &mut game), Vec::<CellId>::new());
    let king_cell = grid.get_cell(&at("e1"));
    let king = king_cell.item.as_ref().unwrap();
    let mut moves = king.calc_valid_moves(king_cell, &grid, &mut game);
    moves.sort_by_key(|c| c.to_vec_idx());
    assert_eq!(moves, vec![at("d2"), at("d1"), at("f1")]);
}

#[test]
fn switch_clears_the_check_when_it_is_over() {
    let mut grid = board("wke1 bke8 bre7 wbe3");
    let mut game = game_for(Side::Black, "e1", "e8");
    game.checked = Some(chess::game::Check { absolute: true, path: fixed(1, Direction::Up) });
    game.last_played = Some((at("a7"), at("e7")));
    game.switch_turns(&mut grid);
    assert!(game.checked.is_none());
    assert_eq!(game.cell_cache, vec![at("e3")]);
    assert_eq!(grid.get_cell(&at("e3")).pin, Some(fixed(4, Direction::Up)));
}

#[test]
fn switch_wipes_the_notes_of_the_turn() {
    let mut grid = board("wke1 bke8 wpa2 wph2 bpa7");
    let mut game = game_for(Side::White, "e1", "e8");
    grid.get_cell_mut(&at("a2")).add_valid_moves(vec![at("a3"), at("a4")], &mut game);
    grid.get_cell_mut(&at("h2")).add_valid_moves(vec![at("h3")], &mut game);
    grid.get_cell_mut(&at("h2")).pin = Some(fixed(2, Direction::Up));
    // a note on a cell that was not listed stays
    grid.get_cell_mut(&at("a7")).valid_moves = Some(vec![at("a6")]);
    game.castles.push(Castle {
        dest: at("g1"),
        current: at("e1"),
        linked_rook: at("h1"),
        rook_move_direction: Direction::Left,
    });
    game.en_passant = Some(EnPassant { dest: at("b3"), current: at("a2"), linked_pawn: at("b2") });
    game.last_played = Some((at("a2"), at("a3")));
    assert_eq!(game.cell_cache, vec![at("a2"), at("h2")]);
    assert!(game.turn_can_end(&grid));
    game.switch_turns(&mut grid);
    assert!(grid.get_cell(&at("a2")).valid_moves.is_none());
    assert!(grid.get_cell(&at("h2")).valid_moves.is_none());
    assert!(grid.get_cell(&at("h2")).pin.is_none());
    assert_eq!(grid.get_cell(&at("a7")).valid_moves, Some(vec![at("a6")]));
    assert!(grid.get_cell(&at("a2")).item.is_some());
    assert!(game.cell_cache.is_empty());
    assert!(game.castles.is_empty());
    assert!(game.en_passant.is_none());
    assert_eq!(game.turn, Side::Black);
    assert_eq!(game.move_count, 11);
    assert!(game.white_stack.is_empty());
    assert!(game.black_stack.is_empty());
}

#[test]
fn capture_in_passing_is_carried_out_only_for_its_move() {
    let mut grid = board("wke1 bke8 wpd6 bpd5 bpf5");
    let mut game = game_for(Side::White, "e1", "e8");
    game.en_passant = Some(EnPassant { dest: at("d6"), current: at("e5"), linked_pawn: at("d5") });
    game.last_played = Some((at("e5"), at("f6")));
    game.switch_turns(&mut grid);
    assert!(grid.get_cell(&at("d5")).item.is_some());
    assert!(game.white_stack.is_empty());
    assert!(game.black_stack.is_empty());

    let mut game = game_for(Side::White, "e1", "e8");
    let note = EnPassant { dest: at("d6"), current: at("e5"), linked_pawn: at("d5") };
    assert!(note.is(&at("e5"), &at("d6")));
    assert!(!note.is(&at("e5"), &at("f6")));
    assert!(!note.is(&at("d6"), &at("e5")));
    game.en_passant = Some(note);
    game.last_played = Some((at("e5"), at("d6")));
    game.switch_turns(&mut grid);
    assert!(grid.get_cell(&at("d5")).item.is_none());
    assert!(grid.get_cell(&at("f5")).item.is_some());
    assert!(grid.get_cell(&at("d6")).item.is_some());
    assert_eq!(game.black_stack.len(), 1);
    assert_eq!(game.black_stack[0].side, Side::Black);
    assert!(game.white_stack.is_empty());
}

#[test]
fn taking_a_pawn_in_passing() {
    let mut grid = board("wpd5 bpe5");
    let mut game = game_for(Side::Black, "e1", "e8");
    let note = EnPassant { dest: at("d4"), current: at("e5"), linked_pawn: at("d5") };
    note.execute(&mut grid, &mut game);
    assert!(grid.get_cell(&at("d5")).item.is_none());
    assert!(grid.get_cell(&at("e5")).item.is_some());
    assert_eq!(game.white_stack.len(), 1);
    assert_eq!(game.white_stack[0].side, Side::White);
    assert!(game.black_stack.is_empty());
}

#[test]
fn castling_moves_the_rook_beside_the_king() {
    let mut grid = board("wkg1 wrh1");
    let castle = Castle {
        dest: at("g1"),
        current: at("e1"),
        linked_rook: at("h1"),
        rook_move_direction: Direction::Left,
    };
    assert!(castle.is(&at("e1"), &at("g1")));
    assert!(!castle.is(&at("e1"), &at("c1")));
    assert!(!castle.is(&at("e2"), &at("g1")));
    castle.execute(&mut grid);
    assert!(grid.get_cell(&at("h1")).item.is_none());
    assert_eq!(grid.get_cell(&at("f1")).item.as_ref().unwrap().piece_type, PieceType::Rook);
    assert_eq!(grid.get_cell(&at("g1")).item.as_ref().unwrap().piece_type, PieceType::King);

    let mut grid = board("bkc8 bra8");
    let castle = Castle {
        dest: at("c8"),
        current: at("e8"),
        linked_rook: at("a8"),
        rook_move_direction: Direction::Right,
    };
    castle.execute(&mut grid);
    assert!(grid.get_cell(&at("a8")).item.is_none());
    assert_eq!(grid.get_cell(&at("d8")).item.as_ref().unwrap().piece_type, PieceType::Rook);
}

#[test]
fn the_first_castling_noted_for_the_move_is_carried_out() {
    let mut grid = board("wkg1 wrh1 wra1 bke8");
    let mut game = game_for(Side::White, "g1", "e8");
    game.castles.push(Castle {
        dest: at("c1"),
        current: at("e1"),
        linked_rook: at("a1"),
        rook_move_direction: Direction::Right,
    });
    game.castles.push(Castle {
        dest: at("g1"),
        current: at("e1"),
        linked_rook: at("h1"),
        rook_move_direction: Direction::Left,
    });
    game.castles.push(Castle {
        dest: at("g1"),
        current: at("e1"),
        linked_rook: at("a1"),
        rook_move_direction: Direction::Left,
    });
    game.last_played = Some((at("e1"), at("g1")));
    assert!(game.turn_can_end(&grid));
    game.switch_turns(&mut grid);
    assert!(grid.get_cell(&at("h1")).item.is_none());
    assert!(grid.get_cell(&at("a1")).item.is_some());
    assert_eq!(grid.get_cell(&at("f1")).item.as_ref().unwrap().piece_type, PieceType::Rook);
    assert!(game.castles.is_empty());
}

#[test]
fn the_turn_cannot_end_on_a_broken_state() {
    let grid = board("wke1 bke8 wrh1");
    let mut game = game_for(Side::White, "e1", "e8");
    // no move was played
    assert!(!game.turn_can_end(&grid));
    game.last_played = Some((at("e2"), at("e1")));
    assert!(game.turn_can_end(&grid));
    // the counter is at its end
    game.move_count = u32::MAX;
    assert!(!game.turn_can_end(&grid));
    game.move_count = 3;
    // the king of the side to move next is not where he is noted
    game.black_king = at("d8");
    assert!(!game.turn_can_end(&grid));
    game.black_king = CellId(4, 9);
    assert!(!game.turn_can_end(&grid));
    game.black_king = at("e1");
    assert!(!game.turn_can_end(&grid));
    game.black_king = at("e8");
    assert!(game.turn_can_end(&grid));
    // a cell to wipe is off the grid
    game.cell_cache.push(CellId(0, 8));
    assert!(!game.turn_can_end(&grid));
    game.cell_cache.clear();
    // the pawn to take in passing is not there
    game.en_passant = Some(EnPassant { dest: at("e1"), current: at("e2"), linked_pawn: at("d2") });
    assert!(!game.turn_can_end(&grid));
    game.en_passant =
        Some(EnPassant { dest: at("e1"), current: at("e2"), linked_pawn: CellId(9, 9) });
    assert!(!game.turn_can_end(&grid));
    // taking the king in passing leaves no king
    game.en_passant = Some(EnPassant { dest: at("e1"), current: at("e2"), linked_pawn: at("e8") });
    assert!(!game.turn_can_end(&grid));
    game.en_passant = Some(EnPassant { dest: at("e1"), current: at("e2"), linked_pawn: at("h1") });
    assert!(game.turn_can_end(&grid));
    game.en_passant = Some(EnPassant { dest: at("e3"), current: at("e2"), linked_pawn: at("d2") });
    assert!(game.turn_can_end(&grid));
    game.en_passant = None;
    // the rook to castle with is not there, or has nowhere to go
    let castle = |linked_rook: CellId, dest: CellId, rook_move_direction: Direction| Castle {
        dest,
        current: at("e2"),
        linked_rook,
        rook_move_direction,
    };
    game.castles = vec![castle(at("a1"), at("e1"), Direction::Left)];
    assert!(!game.turn_can_end(&grid));
    game.castles = vec![castle(at("h1"), at("e1"), Direction::Down)];
    assert!(!game.turn_can_end(&grid));
    game.castles = vec![castle(at("h1"), at("g1"), Direction::Right)];
    assert!(game.turn_can_end(&grid));
    game.castles = vec![castle(at("h1"), at("e1"), Direction::Left)];
    assert!(game.turn_can_end(&grid));
    game.castles = vec![castle(CellId(8, 8), at("e1"), Direction::Left)];
    assert!(!game.turn_can_end(&grid));
    // a castling noted for another move does not count
    game.castles = vec![castle(at("a1"), at("g1"), Direction::Left)];
    assert!(game.turn_can_end(&grid));
    // a rook that lands on the king's cell leaves no king
    game.castles = vec![castle(at("h1"), at("e7"), Direction::Up)];
    assert!(game.turn_can_end(&grid));
    game.last_played = Some((at("e2"), at("e7")));
    assert!(!game.turn_can_end(&grid));
    game.castles = vec![castle(at("h1"), at("e7"), Direction::Left)];
    assert!(game.turn_can_end(&grid));
}

#[test]
fn the_king_is_in_check_after_a_move_exactly_onto_an_attacked_square() {
    let codes = "wke1 bke8 brd8 bbh4 bna3 wpf1";
    let free_around = ["d1", "d2", "e2", "f2"];
    let mut safe = Vec::new();
    for square in free_around {
        let mut grid = board(codes);
        let attacked = chess::rays::is_attacked(&grid, Side::White, at(square));
        // put the king there, whatever the rules say
        let mut game = game_for(Side::White, "e1", "e8");
        grid.get_cell_mut(&at("e1")).valid_moves = Some(vec![at(square)]);
        {
            let (from, to) = grid.get_cell_mut_pair(&at("e1"), &at(square));
            assert!(from.move_item_to(to, &mut game));
        }
        assert_eq!(game.white_king, at(square));
        let status = game.get_board_status(&grid).unwrap();
        assert_eq!(!status.checks.is_empty(), attacked, "{}", square);
        if !attacked {
            safe.push(at(square));
        }
    }
    // the squares that were safe are the king's moves
    let grid = board(codes);
    let mut game = game_for(Side::White, "e1", "e8");
    let cell = grid.get_cell(&at("e1"));
    let mut moves = cell.item.as_ref().unwrap().calc_valid_moves(cell, &grid, &mut game);
    moves.sort_by_key(|c| c.to_vec_idx());
    safe.sort_by_key(|c| c.to_vec_idx());
    assert_eq!(moves, safe);
    assert_eq!(moves, vec![at("e2")]);
}

#[test]
fn a_pinned_piece_shields_its_king_from_check() {
    let codes = "wke1 bkh8 wpd2 bba5 wre3 bre8";
    let grid = board(codes);
    let game = game_for(Side::White, "e1", "h8");
    let status = game.get_board_status(&grid).unwrap();
    assert!(status.checks.is_empty());
    assert_eq!(status.pinned_pieces.len(), 2);
    for (cell, path) in status.pinned_pieces {
        // without the shield the attacker gives check along the same ray
        let mut bare = board(codes);
        bare.get_cell_mut(&cell).item = None;
        let status = game.get_board_status(&bare).unwrap();
        assert_eq!(status.checks.len(), 1);
        assert_eq!(status.checks[0].direction, path.direction);
        let shield_steps = match path.direction {
            Direction::Up => 2,
            _ => 1,
        };
        let reach = match path.magnitude {
            Magnitude::Fixed(n) => n,
            Magnitude::Any => 0,
        };
        assert_eq!(status.checks[0].magnitude, Magnitude::Fixed(reach + shield_steps));
    }
}
