//! The state of a game beside the board, and the end of a turn.
use crate::grid::{board_wf, item_at, Cell, CellId, Grid};
use crate::path::{Direction, Path};
use crate::pieces::{Piece, PieceType, Side};
use crate::setup::{
    is_set_up, place_black_pawns, place_black_pieces, place_white_pawns, place_white_pieces,
};
use crate::status::{checks_upto, king_in_place, lemma_pins_on_board, pins_upto, scan_ray};
use crate::turn::{
    clear_cells, cleared, first_castle, is_first_castle, lemma_cleared_bare, lemma_pinned_notes,
    lemma_pinned_wf, lifted, listed, note_pins, notes_listed, on_grid, pinned, pinned_cells,
};
use vstd::prelude::*;

verus! {

/// What an analysis of the board found for one king: the pieces pinned
/// against it and the rays along which it is in check.
pub struct BoardStatus {
    /// Each pinned piece's cell, with the ray from that cell to the piece
    /// that pins it.
    pub pinned_pieces: Vec<(CellId, Path)>,
    /// The rays from the king to each piece that gives check.
    pub checks: Vec<Path>,
}

/// The check that the side to move is in.
#[derive(Debug)]
pub struct Check {
    /// Set where more than one piece gives check, so that only the king can
    /// move.
    pub absolute: bool,
    /// The ray from the king to the piece that gives check (the first one
    /// found, where there are several).
    pub path: Path,
}

/// The state of a game beside the board itself.
#[derive(Debug)]
pub struct Game {
    /// The white pieces that were captured, in the order of their capture.
    pub white_stack: Vec<Piece>,
    /// The black pieces that were captured, in the order of their capture.
    pub black_stack: Vec<Piece>,
    pub turn: Side,
    /// The cells whose per-turn notes are cleared when the turn ends.
    pub cell_cache: Vec<CellId>,
    pub white_king: CellId,
    pub black_king: CellId,
    pub checked: Option<Check>,
    pub move_count: u32,
    pub en_passant: Option<EnPassant>,
    pub castles: Vec<Castle>,
    /// Source and destination of the last move made.
    pub last_played: Option<(CellId, CellId)>,
}

/// A capture in passing that a pawn may make this turn.
#[derive(Debug)]
pub struct EnPassant {
    /// Where the capturing pawn lands.
    pub dest: CellId,
    /// Where the capturing pawn stands.
    pub current: CellId,
    /// Where the pawn stands that is captured.
    pub linked_pawn: CellId,
}

/// A castling move that a king may make this turn.
#[derive(Debug)]
pub struct Castle {
    /// Where the king lands.
    pub dest: CellId,
    /// Where the king stands.
    pub current: CellId,
    /// Where the rook stands.
    pub linked_rook: CellId,
    /// The direction from the king's landing square to the rook's.
    pub rook_move_direction: Direction,
}

/// Completing a move keeps every cell in its place.
pub proof fn lemma_completed_wf(game: Game, board: Seq<Cell>)
    requires
        board_wf(board),
        game.can_switch_turns(board),
    ensures
        board_wf(game.board_completed(board)),
{
}

impl Game {
    /// The cell of the king of the side to move.
    pub open spec fn spec_king_now(&self) -> CellId {
        match self.turn {
            Side::White => self.white_king,
            Side::Black => self.black_king,
        }
    }

    /// Whether `after` differs from this game in nothing but the list of
    /// cells to clear.
    pub open spec fn same_but_cell_cache(&self, after: &Game) -> bool {
        &&& after.white_stack == self.white_stack
        &&& after.black_stack == self.black_stack
        &&& after.turn == self.turn
        &&& after.white_king == self.white_king
        &&& after.black_king == self.black_king
        &&& after.checked == self.checked
        &&& after.move_count == self.move_count
        &&& after.en_passant == self.en_passant
        &&& after.castles == self.castles
        &&& after.last_played == self.last_played
    }

    /// Whether `after` differs from this game in nothing but the two stacks
    /// of captured pieces.
    pub open spec fn same_but_stacks(&self, after: &Game) -> bool {
        &&& after.turn == self.turn
        &&& after.cell_cache == self.cell_cache
        &&& after.white_king == self.white_king
        &&& after.black_king == self.black_king
        &&& after.checked == self.checked
        &&& after.move_count == self.move_count
        &&& after.en_passant == self.en_passant
        &&& after.castles == self.castles
        &&& after.last_played == self.last_played
    }

    /// Whether the stacks of `after` are those of this game with `piece`
    /// added to the stack of the captured pieces of its own side: a black
    /// piece goes on the black stack, a white piece on the white one.
    pub open spec fn is_stacked(&self, after: &Game, piece: Piece) -> bool {
        match piece.side {
            Side::Black => {
                &&& after.black_stack@ == self.black_stack@.push(piece)
                &&& after.white_stack == self.white_stack
            },
            Side::White => {
                &&& after.white_stack@ == self.white_stack@.push(piece)
                &&& after.black_stack == self.black_stack
            },
        }
    }

    /// Whether `after` is this game with the captured `piece` added to the
    /// stack of its own side, and nothing else changed.
    pub open spec fn is_after_capture(&self, after: &Game, piece: Piece) -> bool {
        &&& self.same_but_stacks(after)
        &&& self.is_stacked(after, piece)
    }

    /// Whether `after` is this game once the piece on `src` has moved to
    /// `dest`: what stood on `dest` is on the stack of its own side, a
    /// king's new cell is noted, and the move is the last one played.
    pub open spec fn is_after_move(&self, after: &Game, src: &Cell, dest: &Cell) -> bool {
        let piece = src.item->Some_0;
        &&& after.turn == self.turn
        &&& after.cell_cache == self.cell_cache
        &&& after.checked == self.checked
        &&& after.move_count == self.move_count
        &&& after.en_passant == self.en_passant
        &&& after.castles == self.castles
        &&& after.last_played == Some((src.id, dest.id))
        &&& after.white_king == if piece.piece_type == PieceType::King && piece.side
            == Side::White {
            dest.id
        } else {
            self.white_king
        }
        &&& after.black_king == if piece.piece_type == PieceType::King && piece.side
            == Side::Black {
            dest.id
        } else {
            self.black_king
        }
        &&& match dest.item {
            Some(captured) => self.is_stacked(after, captured),
            None => {
                &&& after.white_stack == self.white_stack
                &&& after.black_stack == self.black_stack
            },
        }
    }

    /// The cell noted for the king of `side`.
    pub open spec fn king_of(&self, side: Side) -> CellId {
        match side {
            Side::White => self.white_king,
            Side::Black => self.black_king,
        }
    }

    /// Whether the move last played is the capture in passing that is noted.
    pub open spec fn en_passant_played(&self) -> bool {
        &&& self.last_played matches Some((from, to))
        &&& self.en_passant matches Some(note)
        &&& note.spec_is(&from, &to)
    }

    /// The castling, of those noted, that the move last played is. A move
    /// that is the capture in passing is no castling.
    pub open spec fn castle_played(&self) -> Option<Castle> {
        match self.last_played {
            Some((from, to)) if !self.en_passant_played() => first_castle(self.castles@, from, to),
            _ => None,
        }
    }

    /// The board once the move last played has been completed: the pawn
    /// captured in passing is off the board, the rook of a castling stands
    /// beside its king.
    pub open spec fn board_completed(&self, board: Seq<Cell>) -> Seq<Cell> {
        if self.en_passant_played() {
            lifted(board, self.en_passant->Some_0.linked_pawn)
        } else {
            match self.castle_played() {
                Some(castle) => castle.applied(board),
                None => board,
            }
        }
    }

    /// The board on which the next turn starts, before the pins of that turn
    /// are noted: the move last played is completed, and the notes of the
    /// turn that ends are wiped.
    pub open spec fn board_wiped(&self, board: Seq<Cell>) -> Seq<Cell> {
        cleared(self.board_completed(board), self.cell_cache@)
    }

    /// Whether the turn can end on `board`: a move was played, the move
    /// counter can go up, what the move needs to be completed is on the
    /// board, the cells to wipe are cells of the board, and the king of the
    /// side that moves next stands on the cell noted for him.
    pub open spec fn can_switch_turns(&self, board: Seq<Cell>) -> bool {
        &&& self.last_played is Some
        &&& self.move_count < u32::MAX
        &&& self.en_passant_played() ==> {
            &&& self.en_passant->Some_0.linked_pawn.index() < board.len()
            &&& item_at(board, self.en_passant->Some_0.linked_pawn) is Some
        }
        &&& self.castle_played() matches Some(castle) ==> castle.can_execute(board)
        &&& forall|j: int|
            0 <= j < self.cell_cache@.len() ==> (#[trigger] self.cell_cache@[j]).index()
                < board.len()
        &&& king_in_place(
            self.board_wiped(board),
            self.turn.spec_switch(),
            self.king_of(self.turn.spec_switch()),
        )
    }

    /// Whether `after` and `board_after` are this game and `board` once the
    /// turn has ended: the move last played is completed, the other side is
    /// to move, the move counter is one up, the notes of the old turn are
    /// gone, and the checks and pins of the new turn are noted.
    pub open spec fn switches_to(
        &self,
        board: Seq<Cell>,
        after: &Game,
        board_after: Seq<Cell>,
    ) -> bool {
        let wiped = self.board_wiped(board);
        let side = self.turn.spec_switch();
        let king = self.king_of(side);
        let checks = checks_upto(wiped, side, king, 16);
        let pins = pins_upto(wiped, side, king, 16);
        &&& board_after == pinned(wiped, pins)
        &&& after.turn == side
        &&& after.move_count == self.move_count + 1
        &&& after.white_king == self.white_king
        &&& after.black_king == self.black_king
        &&& after.last_played == self.last_played
        &&& after.en_passant is None
        &&& after.castles@ == Seq::<Castle>::empty()
        &&& after.cell_cache@ == pinned_cells(pins)
        &&& after.checked == if checks.len() > 0 {
            Some(Check { absolute: checks.len() > 1, path: checks[0] })
        } else {
            None
        }
        &&& if self.en_passant_played() {
            self.is_stacked(after, item_at(board, self.en_passant->Some_0.linked_pawn)->Some_0)
        } else {
            &&& after.white_stack == self.white_stack
            &&& after.black_stack == self.black_stack
        }
    }

    /// Adds a captured piece to the stack of the captured pieces of its
    /// side.
    pub fn move_to_stack(&mut self, piece: Piece)
        ensures
            old(self).is_after_capture(final(self), piece),
    {
        match piece.side {
            Side::Black => self.black_stack.push(piece),
            Side::White => self.white_stack.push(piece),
        }
    }

    /// Whether this is a game before its first move: White is to move, no
    /// piece is captured, nothing is noted, and the kings are noted on the
    /// e-file of their back ranks.
    pub open spec fn is_initial(&self) -> bool {
        &&& self.white_stack@ == Seq::<Piece>::empty()
        &&& self.black_stack@ == Seq::<Piece>::empty()
        &&& self.turn == Side::White
        &&& self.cell_cache@ == Seq::<CellId>::empty()
        &&& self.white_king == CellId(4, 7)
        &&& self.black_king == CellId(4, 0)
        &&& self.checked is None
        &&& self.move_count == 0
        &&& self.en_passant is None
        &&& self.castles@ == Seq::<Castle>::empty()
        &&& self.last_played is None
    }

    /// Sets the thirty-two pieces on the board where they start, and gives
    /// the game that begins there. What the cells held beside is left as it
    /// was.
    pub fn new(grid: &mut Grid) -> (game: Game)
        requires
            old(grid).wf(),
        ensures
            final(grid).wf(),
            is_set_up(old(grid)@, final(grid)@),
            game.is_initial(),
    {
        place_white_pieces(grid);
        place_white_pawns(grid);
        place_black_pieces(grid);
        place_black_pawns(grid);
        Game {
            white_stack: Vec::new(),
            black_stack: Vec::new(),
            turn: Side::White,
            cell_cache: Vec::new(),
            white_king: CellId(4, 7),
            black_king: CellId(4, 0),
            checked: None,
            move_count: 0,
            en_passant: None,
            last_played: None,
            castles: Vec::new(),
        }
    }

    /// Looks from the king of the side to move along every direction and
    /// lists the checks he is in and the pieces pinned against him, each in
    /// the order of the directions. There is no such list where the king
    /// does not stand on the cell noted for him.
    pub fn get_board_status(&self, grid: &Grid) -> (status: Option<BoardStatus>)
        requires
            grid.wf(),
        ensures
            status is Some <==> king_in_place(grid@, self.turn, self.spec_king_now()),
            status matches Some(found) ==> {
                &&& found.checks@ == checks_upto(grid@, self.turn, self.spec_king_now(), 16)
                &&& found.pinned_pieces@ == pins_upto(grid@, self.turn, self.spec_king_now(), 16)
            },
    {
        let king_cell: CellId = match self.turn {
            Side::White => self.white_king,
            Side::Black => self.black_king,
        };
        if !king_cell.is_valid() {
            return None;
        }
        let side = match &grid.get_cell(&king_cell).item {
            Some(king) => {
                if king.piece_type != PieceType::King || king.side != self.turn {
                    return None;
                }
                king.side
            },
            None => {
                return None;
            },
        };
        let mut pinned_pieces: Vec<(CellId, Path)> = Vec::new();
        let mut checks: Vec<Path> = Vec::new();
        let directions = Direction::iterator();
        let mut i: usize = 0;
        while i < 16
            invariant
                grid.wf(),
                i <= 16,
                directions@ == Direction::all(),
                checks@ == checks_upto(grid@, side, king_cell, i as int),
                pinned_pieces@ == pins_upto(grid@, side, king_cell, i as int),
            decreases 16 - i,
        {
            let (check, pin) = scan_ray(grid, side, king_cell, directions[i]);
            match check {
                Some(path) => checks.push(path),
                None => {},
            }
            match pin {
                Some(found) => pinned_pieces.push(found),
                None => {},
            }
            i += 1;
        }
        Some(BoardStatus { pinned_pieces, checks })
    }

    /// The place among the castlings noted of the first that is a move from
    /// `from` to `to`, if there is one.
    fn find_castle(&self, from: CellId, to: CellId) -> (place: Option<usize>)
        ensures
            place is Some <==> first_castle(self.castles@, from, to) is Some,
            place matches Some(i) ==> i < self.castles@.len() && first_castle(
                self.castles@,
                from,
                to,
            ) == Some(self.castles@[i as int]),
    {
        let mut i: usize = 0;
        while i < self.castles.len()
            invariant
                i <= self.castles@.len(),
                forall|j: int| 0 <= j < i ==> !(#[trigger] self.castles@[j]).spec_is(&from, &to),
            decreases self.castles@.len() - i,
        {
            if self.castles[i].is(&from, &to) {
                proof {
                    assert(is_first_castle(self.castles@, from, to, i as int));
                    let k = choose|k: int| #[trigger] is_first_castle(self.castles@, from, to, k);
                    assert(k == i) by {
                        if k < i {
                            assert(self.castles@[k].spec_is(&from, &to));
                        } else if k > i {
                            assert(self.castles@[i as int].spec_is(&from, &to));
                        }
                    }
                }
                return Some(i);
            }
            i += 1;
        }
        proof {
            assert forall|k: int| !#[trigger] is_first_castle(self.castles@, from, to, k) by {
                if is_first_castle(self.castles@, from, to, k) {
                    assert(self.castles@[k].spec_is(&from, &to));
                }
            }
        }
        None
    }

    /// Whether the turn can end on the board: whether [`Game::switch_turns`]
    /// may be called.
    pub fn turn_can_end(&self, grid: &Grid) -> (ok: bool)
        requires
            grid.wf(),
        ensures
            ok == self.can_switch_turns(grid@),
    {
        let (from, to) = match self.last_played {
            Some(last_played) => last_played,
            None => {
                return false;
            },
        };
        if self.move_count == u32::MAX {
            return false;
        }
        let mut i: usize = 0;
        while i < self.cell_cache.len()
            invariant
                i <= self.cell_cache@.len(),
                grid@.len() == 64,
                forall|j: int|
                    0 <= j < i ==> (#[trigger] self.cell_cache@[j]).index() < grid@.len(),
            decreases self.cell_cache@.len() - i,
        {
            if !on_grid(self.cell_cache[i]) {
                return false;
            }
            i += 1;
        }
        let side = self.turn.switch();
        let king = match side {
            Side::White => self.white_king,
            Side::Black => self.black_king,
        };
        if !king.is_valid() {
            return false;
        }
        let king_idx: usize = king.to_vec_idx();
        // The cell whose piece stands on the king's cell once the move is
        // completed; none where that cell is then empty.
        let mut source: Option<CellId> = Some(king);
        let taken: Option<CellId> = match &self.en_passant {
            Some(note) if note.is(&from, &to) => Some(note.linked_pawn),
            _ => None,
        };
        match taken {
            Some(linked_pawn) => {
                if !on_grid(linked_pawn) {
                    return false;
                }
                if grid.get_cell(&linked_pawn).item.is_none() {
                    return false;
                }
                if linked_pawn.to_vec_idx() == king_idx {
                    source = None;
                }
            },
            None => match self.find_castle(from, to) {
                Some(place) => {
                    let castle = &self.castles[place];
                    let target = match castle.dest.try_next_cellid(castle.rook_move_direction, 1) {
                        Some(target) => target,
                        None => {
                            return false;
                        },
                    };
                    if !on_grid(castle.linked_rook) {
                        return false;
                    }
                    let rook_idx: usize = castle.linked_rook.to_vec_idx();
                    let target_idx: usize = target.to_vec_idx();
                    if target_idx == rook_idx {
                        return false;
                    }
                    if grid.get_cell(&castle.linked_rook).item.is_none() {
                        return false;
                    }
                    if target_idx == king_idx {
                        source = Some(castle.linked_rook);
                    } else if rook_idx == king_idx {
                        source = None;
                    }
                },
                None => {},
            },
        }
        let ghost completed = self.board_completed(grid@);
        assert(source matches Some(cell) ==> cell.index() < 64 && item_at(grid@, cell) == item_at(
            completed,
            king,
        ));
        assert(source is None ==> item_at(completed, king) is None);
        assert(item_at(self.board_wiped(grid@), king) == item_at(completed, king));
        match source {
            Some(cell) => match &grid.get_cell(&cell).item {
                Some(piece) => piece.piece_type == PieceType::King && piece.side == side,
                None => false,
            },
            None => false,
        }
    }

    /// Ends the turn after a move: completes the move where it was a
    /// capture in passing or a castling, hands the move to the other side,
    /// wipes the notes of the turn, and notes the checks and pins that the
    /// side now to move is in.
    pub fn switch_turns(&mut self, grid: &mut Grid)
        requires
            old(grid).wf(),
            old(self).can_switch_turns(old(grid)@),
        ensures
            final(grid).wf(),
            old(self).switches_to(old(grid)@, final(self), final(grid)@),
    {
        let last_played = self.last_played.unwrap();
        let captured = match self.en_passant.take() {
            Some(en_passant) => {
                if en_passant.is(&last_played.0, &last_played.1) {
                    en_passant.execute(grid, self);
                    true
                } else {
                    false
                }
            },
            None => false,
        };
        if !captured {
            match self.find_castle(last_played.0, last_played.1) {
                Some(place) => self.castles[place].execute(grid),
                None => {},
            }
        }
        assert(grid@ == old(self).board_completed(old(grid)@));
        proof {
            lemma_completed_wf(*old(self), old(grid)@);
        }
        self.turn = self.turn.switch();
        self.move_count += 1;
        clear_cells(grid, &self.cell_cache);
        self.cell_cache.clear();
        self.castles.clear();
        let ghost wiped = grid@;
        let status = self.get_board_status(grid).unwrap();
        if status.checks.len() > 0 {
            self.checked = Some(
                Check { absolute: status.checks.len() > 1, path: status.checks[0] },
            );
        } else {
            self.checked = None;
        }
        proof {
            lemma_pins_on_board(wiped, self.turn, self.spec_king_now(), 16);
        }
        note_pins(grid, &status.pinned_pieces, &mut self.cell_cache);
        proof {
            assert(self.cell_cache@ =~= pinned_cells(status.pinned_pieces@));
            lemma_pinned_wf(wiped, status.pinned_pieces@);
        }
    }

    /// A turn starts with no notes but its own. Where every note of the old
    /// turn is on a cell listed for wiping, the board after the end of the
    /// turn holds no destinations at all, holds a pin on exactly the cells
    /// listed anew, and holds the pieces where the completed move left them.
    pub proof fn lemma_turn_starts_clean(
        game: Game,
        board: Seq<Cell>,
        after: Game,
        board_after: Seq<Cell>,
    )
        requires
            board_wf(board),
            game.can_switch_turns(board),
            notes_listed(board, game.cell_cache@),
            game.switches_to(board, &after, board_after),
        ensures
            board_wf(board_after),
            notes_listed(board_after, after.cell_cache@),
            forall|k: int|
                0 <= k < 64 ==> {
                    let cell = #[trigger] board_after[k];
                    &&& cell.valid_moves is None
                    &&& cell.pin is Some <==> listed(after.cell_cache@, k)
                    &&& cell.item == game.board_completed(board)[k].item
                },
    {
        let completed = game.board_completed(board);
        let wiped = game.board_wiped(board);
        let side = game.turn.spec_switch();
        let king = game.king_of(side);
        let pins = pins_upto(wiped, side, king, 16);
        lemma_completed_wf(game, board);
        assert(notes_listed(completed, game.cell_cache@)) by {
            assert forall|k: int|
                0 <= k < 64 implies (#[trigger] completed[k]).valid_moves == board[k].valid_moves
                && completed[k].pin == board[k].pin by {
            }
        }
        lemma_cleared_bare(completed, game.cell_cache@);
        lemma_pins_on_board(wiped, side, king, 16);
        lemma_pinned_wf(wiped, pins);
        lemma_pinned_notes(wiped, pins);
    }

    /// The cell of the king of the side to move.
    pub fn king_now(&self) -> (cell: &CellId)
        ensures
            *cell == self.spec_king_now(),
    {
        match self.turn {
            Side::White => &self.white_king,
            Side::Black => &self.black_king,
        }
    }
}

/// A piece and its square, as read from a four-letter code: the side (`w`
/// or `b`), the kind of piece (`k`, `q`, `r`, `b`, `n`, `p`), the file (`a`
/// to `h`) and the rank (`1` to `8`).
pub struct AlgebraicNotation {
    pub piece: PieceType,
    pub cell: CellId,
    pub side: Side,
}

/// The side that a code's first letter names: White for `w`, else Black.
pub open spec fn side_of_letter(letter: char) -> Side {
    if letter == 'w' {
        Side::White
    } else {
        Side::Black
    }
}

/// The kind of piece that a code's second letter names: a pawn where it
/// names none.
pub open spec fn piece_of_letter(letter: char) -> PieceType {
    if letter == 'k' {
        PieceType::King
    } else if letter == 'q' {
        PieceType::Queen
    } else if letter == 'n' {
        PieceType::Knight
    } else if letter == 'b' {
        PieceType::Bishop
    } else if letter == 'r' {
        PieceType::Rook
    } else {
        PieceType::Pawn
    }
}

/// The file that a code's third letter names, `a` being 0: the a-file
/// where it names none.
pub open spec fn file_of_letter(letter: char) -> u32 {
    if 'a' <= letter <= 'h' {
        (letter as u32 - 'a' as u32) as u32
    } else {
        0
    }
}

/// The value of a decimal digit.
pub open spec fn digit_value(digit: char) -> int {
    digit as u32 - '0' as u32
}

impl AlgebraicNotation {
    /// Whether a code can be read: it has four letters, and the last is a
    /// digit up to 8.
    pub open spec fn readable(code: Seq<char>) -> bool {
        code.len() >= 4 && '0' <= code[3] <= '8'
    }

    /// Reads a code. The rank digit counts from the bottom of the board, the
    /// row from the top: rank 8 is row 0 and rank 1 is row 7.
    pub fn new(code: &str) -> (read: Self)
        requires
            AlgebraicNotation::readable(code@),
        ensures
            read.side == side_of_letter(code@[0]),
            read.piece == piece_of_letter(code@[1]),
            read.cell == CellId(file_of_letter(code@[2]), (8 - digit_value(code@[3])) as u32),
    {
        let (side_, piece_, horiz, vert) = (
            code.get_char(0),
            code.get_char(1),
            code.get_char(2),
            code.get_char(3),
        );
        let side = match side_ {
            'b' => Side::Black,
            'w' => Side::White,
            _ => Side::Black,
        };
        let piece = match piece_ {
            'k' => PieceType::King,
            'q' => PieceType::Queen,
            'n' => PieceType::Knight,
            'b' => PieceType::Bishop,
            'r' => PieceType::Rook,
            'p' => PieceType::Pawn,
            _ => PieceType::Pawn,
        };
        let x: u32 = match horiz {
            'a' => 0,
            'b' => 1,
            'c' => 2,
            'd' => 3,
            'e' => 4,
            'f' => 5,
            'g' => 6,
            'h' => 7,
            _ => 0,
        };
        let y: u32 = 8 - (vert as u32 - '0' as u32);
        let cell = CellId(x, y);
        Self { side, piece, cell }
    }
}

impl EnPassant {
    /// Whether a move from `current_cell` to `dest_cell` is this capture.
    pub open spec fn spec_is(&self, current_cell: &CellId, dest_cell: &CellId) -> bool {
        *current_cell == self.current && self.dest == *dest_cell
    }

    /// Whether a move from `current_cell` to `dest_cell` is this capture.
    #[verifier::when_used_as_spec(spec_is)]
    pub fn is(&self, current_cell: &CellId, dest_cell: &CellId) -> (b: bool)
        ensures
            b == self.spec_is(current_cell, dest_cell),
    {
        (*current_cell == self.current) && (self.dest == *dest_cell)
    }
}

impl EnPassant {
    /// Takes the captured pawn off the board and puts it on the stack of the
    /// captured pieces of its side.
    pub fn execute(&self, grid: &mut Grid, game: &mut Game)
        requires
            self.linked_pawn.index() < old(grid)@.len(),
            old(grid).item_at(self.linked_pawn) is Some,
        ensures
            final(grid)@ == lifted(old(grid)@, self.linked_pawn),
            old(game).is_after_capture(final(game), old(grid).item_at(self.linked_pawn)->Some_0),
    {
        let linked_cell: &mut Cell = grid.get_cell_mut(&self.linked_pawn);
        game.move_to_stack(linked_cell.item.take().unwrap());
    }
}

impl Castle {
    /// The square beside the king's landing square to which the rook goes.
    pub open spec fn rook_target(&self) -> CellId {
        self.dest.shifted(self.rook_move_direction, 1)
    }

    /// Whether the rook's part of the castling can be carried out on
    /// `board`: the rook's target is on the board and is not the rook's own
    /// cell, and a piece stands on the rook's cell.
    pub open spec fn can_execute(&self, board: Seq<Cell>) -> bool {
        &&& self.dest.lands_on_board(self.rook_move_direction, 1)
        &&& self.linked_rook.index() < board.len()
        &&& self.rook_target().index() < board.len()
        &&& self.rook_target().index() != self.linked_rook.index()
        &&& item_at(board, self.linked_rook) is Some
    }

    /// The board once the rook has gone from its cell to its target.
    pub open spec fn applied(&self, board: Seq<Cell>) -> Seq<Cell> {
        let off = lifted(board, self.linked_rook);
        off.update(
            self.rook_target().index(),
            Cell { item: item_at(board, self.linked_rook), ..off[self.rook_target().index()] },
        )
    }

    /// Whether a move from `current_cell` to `dest_cell` is this castling.
    pub open spec fn spec_is(&self, current_cell: &CellId, dest_cell: &CellId) -> bool {
        *current_cell == self.current && self.dest == *dest_cell
    }

    /// Moves the rook from its cell to the square beside the king's
    /// landing square.
    pub fn execute(&self, grid: &mut Grid)
        requires
            self.can_execute(old(grid)@),
        ensures
            final(grid)@ == self.applied(old(grid)@),
    {
        let rook_new_id = self.dest.try_next_cellid(self.rook_move_direction, 1).unwrap();
        let (current_, dest_) = grid.get_cell_mut_pair(&self.linked_rook, &rook_new_id);
        let rook = current_.item.take().unwrap();
        dest_.add_item(rook);
    }

    /// Whether a move from `current_cell` to `dest_cell` is this castling.
    #[verifier::when_used_as_spec(spec_is)]
    pub fn is(&self, current_cell: &CellId, dest_cell: &CellId) -> (b: bool)
        ensures
            b == self.spec_is(current_cell, dest_cell),
    {
        (*current_cell == self.current) && (self.dest == *dest_cell)
    }
}

} // verus!
