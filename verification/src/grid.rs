//! The board: its squares, its cells and what they hold, and the moving of
//! a piece from one cell to another.
use crate::game::Game;
use crate::path::{Direction, Path};
use crate::pieces::{Piece, PieceType, Side};
use vstd::prelude::*;

verus! {

/// A square of the board by file (column, 0 is the a-file) and row (0 is the
/// eighth rank, 7 the first).
#[derive(PartialEq, Eq, Clone, Copy, Debug, Hash, Structural)]
pub struct CellId(pub u32, pub u32);

impl CellId {
    /// Whether the square lies on the eight-by-eight board.
    pub open spec fn spec_is_valid(&self) -> bool {
        self.0 < 8 && self.1 < 8
    }

    /// Position of the square in the row-major list of the board's cells.
    pub open spec fn index(self) -> int {
        self.0 + self.1 * 8
    }

    /// The square at a position of the row-major list.
    pub open spec fn at_index(i: int) -> CellId {
        CellId((i % 8) as u32, (i / 8) as u32)
    }

    /// Whether `k` steps in `direction` from this square end on the board.
    pub open spec fn lands_on_board(self, direction: Direction, k: int) -> bool {
        &&& 0 <= self.0 + direction.dx() * k < 8
        &&& 0 <= self.1 + direction.dy() * k < 8
    }

    /// Whether each of the first `k` steps in `direction` from this square
    /// lands on the board.
    pub open spec fn run_on_board(self, direction: Direction, k: int) -> bool {
        forall|j: int| 1 <= j <= k ==> #[trigger] self.lands_on_board(direction, j)
    }

    /// The square `k` steps in `direction` from this one; meaningful where
    /// the steps end on the board.
    pub open spec fn shifted(self, direction: Direction, k: int) -> CellId {
        CellId((self.0 + direction.dx() * k) as u32, (self.1 + direction.dy() * k) as u32)
    }

    /// Position of the square in the row-major list of the board's cells.
    pub fn to_vec_idx(self) -> (idx: usize)
        requires
            self.index() <= usize::MAX,
        ensures
            idx == self.index(),
    {
        (self.0 as u64 + self.1 as u64 * 8) as usize
    }

    /// Whether the square lies on the eight-by-eight board.
    #[verifier::when_used_as_spec(spec_is_valid)]
    pub fn is_valid(&self) -> (b: bool)
        ensures
            b == self.spec_is_valid(),
    {
        self.0 < 8 && self.1 < 8
    }

    /// The square `magnitude` steps away in `direction`, unless that leaves
    /// the board.
    pub fn try_next_cellid(&self, direction: Direction, magnitude: i32) -> (next: Option<CellId>)
        ensures
            next == if self.lands_on_board(direction, magnitude as int) {
                Some(self.shifted(direction, magnitude as int))
            } else {
                None
            },
    {
        let (p, q): (i32, i32) = direction.value();
        let m: i64 = magnitude as i64;
        assert(-0x1_0000_0000 <= p * m <= 0x1_0000_0000 && -0x1_0000_0000 <= q * m
            <= 0x1_0000_0000) by (nonlinear_arith)
            requires
                -2 <= p <= 2,
                -2 <= q <= 2,
                -0x8000_0000 <= m < 0x8000_0000,
        ;
        let x: i64 = self.0 as i64 + (p as i64) * m;
        let y: i64 = self.1 as i64 + (q as i64) * m;
        if 0 <= x && x < 8 && 0 <= y && y < 8 {
            Some(CellId(x as u32, y as u32))
        } else {
            None
        }
    }

    /// The square at a position of the row-major list.
    pub fn from_vec_idx(idx: usize) -> (id: CellId)
        requires
            idx / 8 <= u32::MAX,
        ensures
            id == CellId::at_index(idx as int),
    {
        CellId((idx % 8) as u32, (idx / 8) as u32)
    }

    /// A valid square and its index determine each other.
    pub proof fn lemma_index_round_trip(id: CellId, i: int)
        ensures
            id.spec_is_valid() ==> 0 <= id.index() < 64 && CellId::at_index(id.index()) == id,
            0 <= i < 64 ==> CellId::at_index(i).spec_is_valid() && CellId::at_index(i).index()
                == i,
    {
    }

    /// Two valid squares with the same index are the same square.
    pub proof fn lemma_index_injective(a: CellId, b: CellId)
        requires
            a.spec_is_valid(),
            b.spec_is_valid(),
            a.index() == b.index(),
        ensures
            a == b,
    {
    }

    /// One more step from the square reached after `k` steps is the square
    /// reached after `k + 1` steps.
    pub proof fn lemma_step(origin: CellId, direction: Direction, k: int)
        requires
            k == 0 || origin.lands_on_board(direction, k),
        ensures
            origin.shifted(direction, k).lands_on_board(direction, 1) == origin.lands_on_board(
                direction,
                k + 1,
            ),
            origin.lands_on_board(direction, k + 1) ==> origin.shifted(direction, k).shifted(
                direction,
                1,
            ) == origin.shifted(direction, k + 1),
            k == 0 ==> origin.shifted(direction, k) == origin,
    {
        let dx = direction.dx();
        let dy = direction.dy();
        assert(dx * (k + 1) == dx * k + dx * 1) by (nonlinear_arith);
        assert(dy * (k + 1) == dy * k + dy * 1) by (nonlinear_arith);
        assert(dx * 0 == 0 && dy * 0 == 0);
    }

    /// Steps along one direction add up: `k` steps from the square reached
    /// after `m` steps lead where `m + k` steps lead, and land on the board
    /// exactly if those do.
    pub proof fn lemma_shift_add(origin: CellId, direction: Direction, m: int, k: int)
        requires
            origin.lands_on_board(direction, m),
        ensures
            origin.shifted(direction, m).shifted(direction, k) == origin.shifted(direction, m + k),
            origin.shifted(direction, m).lands_on_board(direction, k) == origin.lands_on_board(
                direction,
                m + k,
            ),
    {
        let dx = direction.dx();
        let dy = direction.dy();
        assert(dx * (m + k) == dx * m + dx * k) by (nonlinear_arith);
        assert(dy * (m + k) == dy * m + dy * k) by (nonlinear_arith);
    }

    /// Different numbers of steps along a ray reach different squares.
    pub proof fn lemma_ray_injective(origin: CellId, direction: Direction, j: int, k: int)
        requires
            origin.lands_on_board(direction, j),
            origin.lands_on_board(direction, k),
            origin.shifted(direction, j) == origin.shifted(direction, k),
        ensures
            j == k,
    {
        let dx = direction.dx();
        let dy = direction.dy();
        Direction::lemma_step_nonzero(direction);
        assert(dx * j == dx * k);
        assert(dy * j == dy * k);
        assert(dx != 0 && dx * j == dx * k ==> j == k) by (nonlinear_arith);
        assert(dy != 0 && dy * j == dy * k ==> j == k) by (nonlinear_arith);
    }
}

/// One square of the board: what stands on it, and what the current turn has
/// worked out about it.
pub struct Cell {
    pub id: CellId,
    /// The piece on the square, if any.
    pub item: Option<Piece>,
    /// The destinations worked out this turn for the piece on the square.
    pub valid_moves: Option<Vec<CellId>>,
    /// The pin on the piece of the square: a path that points from its king
    /// through the square and is as long as the way from the square to the
    /// piece that pins. The pinned piece may move only on the line from its
    /// king to that piece.
    pub pin: Option<Path>,
}

/// The piece on the square `id` of a board given by its cells in row-major
/// order, if there is one.
pub open spec fn item_at(board: Seq<Cell>, id: CellId) -> Option<Piece> {
    board[id.index()].item
}

/// Whether a board given by its cells has its sixty-four cells, each in its
/// place.
pub open spec fn board_wf(board: Seq<Cell>) -> bool {
    &&& board.len() == 64
    &&& forall|i: int| 0 <= i < 64 ==> (#[trigger] board[i]).id == CellId::at_index(i)
}

/// Whether `id` occurs in `cells`.
pub fn contains_cell(cells: &[CellId], id: CellId) -> (found: bool)
    ensures
        found == cells@.contains(id),
{
    let mut i: usize = 0;
    while i < cells.len()
        invariant
            i <= cells@.len(),
            forall|j: int| 0 <= j < i ==> cells@[j] != id,
        decreases cells@.len() - i,
    {
        if cells[i] == id {
            return true;
        }
        i += 1;
    }
    false
}

impl Cell {
    /// Whether the piece on this square may be moved to `dest`: the
    /// destinations of this square have been worked out and hold `dest`, a
    /// piece stands here, and none of its own side stands there.
    pub open spec fn accepts_move(&self, dest: &Cell) -> bool {
        &&& self.valid_moves matches Some(moves) && moves@.contains(dest.id)
        &&& self.item matches Some(piece) && !(dest.item matches Some(other) && other.side
            == piece.side)
    }

    /// The piece of this square as it stands after a move from here, in a
    /// game whose move counter is `move_count`.
    pub open spec fn moved_piece(&self, move_count: u32) -> Piece {
        Piece {
            prev_cell: Some(self.id),
            last_played_move: Some(move_count),
            ..self.item->Some_0
        }
    }

    /// Puts `piece` on the square, in place of what stood there.
    pub fn add_item(&mut self, piece: Piece)
        ensures
            *final(self) == (Cell { item: Some(piece), ..*old(self) }),
    {
        self.item = Some(piece);
    }

    /// Stores the destinations worked out for the piece on the square, and
    /// notes the square in the game's list of cells to clear at the end of
    /// the turn.
    pub fn add_valid_moves(&mut self, valid_moves: Vec<CellId>, game: &mut Game)
        ensures
            *final(self) == (Cell { valid_moves: Some(valid_moves), ..*old(self) }),
            final(game).cell_cache@ == old(game).cell_cache@.push(old(self).id),
            old(game).same_but_cell_cache(final(game)),
    {
        self.valid_moves = Some(valid_moves);
        game.cell_cache.push(self.id);
    }

    /// Moves the piece of this square to `dest`, if that is one of the
    /// destinations worked out for it. A piece of the other side on `dest` is
    /// captured. Says whether the move was made; if not, nothing changes.
    pub fn move_item_to(&mut self, dest: &mut Cell, game: &mut Game) -> (moved: bool)
        ensures
            moved == old(self).accepts_move(old(dest)),
            !moved ==> *final(self) == *old(self) && *final(dest) == *old(dest) && *final(game)
                == *old(game),
            moved ==> *final(self) == (Cell { item: None, valid_moves: None, ..*old(self) }),
            moved ==> *final(dest) == (Cell {
                item: Some(old(self).moved_piece(old(game).move_count)),
                ..*old(dest)
            }),
            moved ==> old(game).is_after_move(final(game), old(self), old(dest)),
    {
        let found = match &self.valid_moves {
            Some(valid_moves) => contains_cell(valid_moves.as_slice(), dest.id),
            None => false,
        };
        if !found {
            return false;
        }
        let (side, is_king) = match &self.item {
            Some(piece) => (piece.side, piece.piece_type == PieceType::King),
            None => {
                return false;
            },
        };
        let blocked = match &dest.item {
            Some(dest_item) => dest_item.side == side,
            None => false,
        };
        if blocked {
            return false;
        }
        if dest.item.is_some() {
            game.move_to_stack(dest.item.take().unwrap());
        }
        self.valid_moves = None;
        if is_king {
            match side {
                Side::White => {
                    game.white_king = dest.id;
                },
                Side::Black => {
                    game.black_king = dest.id;
                },
            }
        }
        let mut piece = self.item.take().unwrap();
        piece.prev_cell = Some(self.id);
        piece.last_played_move = Some(game.move_count);
        dest.add_item(piece);
        game.last_played = Some((self.id, dest.id));
        true
    }
}

/// The eight-by-eight board: sixty-four cells in row-major order, the eighth rank first.
pub struct Grid {
    cells: Vec<Cell>,
}

impl View for Grid {
    type V = Seq<Cell>;

    closed spec fn view(&self) -> Seq<Cell> {
        self.cells@
    }
}

impl Grid {
    /// The board has its sixty-four cells, and each cell knows its place.
    pub open spec fn wf(&self) -> bool {
        board_wf(self@)
    }

    /// The cell of a square.
    pub open spec fn cell(&self, id: CellId) -> Cell {
        self@[id.index()]
    }

    /// The piece on a square, if any.
    pub open spec fn item_at(&self, id: CellId) -> Option<Piece> {
        item_at(self@, id)
    }

    /// An empty board.
    pub fn new64() -> (grid: Grid)
        ensures
            grid.wf(),
            forall|i: int|
                0 <= i < 64 ==> {
                    &&& (#[trigger] grid@[i]).item is None
                    &&& grid@[i].valid_moves is None
                    &&& grid@[i].pin is None
                },
    {
        let mut cells: Vec<Cell> = Vec::new();
        let mut i: u32 = 0;
        while i < 8
            invariant
                i <= 8,
                cells@.len() == i * 8,
                forall|k: int|
                    0 <= k < cells@.len() ==> {
                        &&& (#[trigger] cells@[k]).id == CellId::at_index(k)
                        &&& cells@[k].item is None
                        &&& cells@[k].valid_moves is None
                        &&& cells@[k].pin is None
                    },
            decreases 8 - i,
        {
            let mut j: u32 = 0;
            while j < 8
                invariant
                    i < 8,
                    j <= 8,
                    cells@.len() == i * 8 + j,
                    forall|k: int|
                        0 <= k < cells@.len() ==> {
                            &&& (#[trigger] cells@[k]).id == CellId::at_index(k)
                            &&& cells@[k].item is None
                            &&& cells@[k].valid_moves is None
                            &&& cells@[k].pin is None
                        },
                decreases 8 - j,
            {
                cells.push(Cell { id: CellId(j, i), item: None, valid_moves: None, pin: None });
                j += 1;
            }
            i += 1;
        }
        Grid { cells }
    }

    /// The cell of a square.
    pub fn get_cell(&self, id: &CellId) -> (cell: &Cell)
        requires
            id.index() < self@.len(),
        ensures
            *cell == self.cell(*id),
    {
        proof {
            vstd::std_specs::vec::axiom_spec_len(&self.cells);
        }
        &self.cells[id.to_vec_idx()]
    }

    /// The cell of a square, to change it. The rest of the board stays as it
    /// is.
    pub fn get_cell_mut(&mut self, coords: &CellId) -> (cell: &mut Cell)
        requires
            coords.index() < old(self)@.len(),
        ensures
            *cell == old(self).cell(*coords),
            final(self)@ == old(self)@.update(coords.index(), *final(cell)),
    {
        proof {
            vstd::std_specs::vec::axiom_spec_len(&self.cells);
        }
        let idx: usize = coords.to_vec_idx();
        &mut self.cells[idx]
    }

    /// The cells of two different squares, to change both at once. The rest
    /// of the board stays as it is.
    pub fn get_cell_mut_pair(&mut self, cell1: &CellId, cell2: &CellId) -> (pair: (
        &mut Cell,
        &mut Cell,
    ))
        requires
            cell1.index() < old(self)@.len(),
            cell2.index() < old(self)@.len(),
            cell1.index() != cell2.index(),
        ensures
            *pair.0 == old(self).cell(*cell1),
            *pair.1 == old(self).cell(*cell2),
            final(self)@ == old(self)@.update(cell1.index(), *final(pair.0)).update(
                cell2.index(),
                *final(pair.1),
            ),
    {
        proof {
            vstd::std_specs::vec::axiom_spec_len(&self.cells);
        }
        let cell1_idx: usize = cell1.to_vec_idx();
        let cell2_idx: usize = cell2.to_vec_idx();
        if cell1_idx < cell2_idx {
            let mid: usize = cell1_idx + 1;
            let (g1, g2) = self.cells.split_at_mut(mid);
            (&mut g1[mid - 1], &mut g2[cell2_idx - mid])
        } else {
            let mid: usize = cell2_idx + 1;
            let (g1, g2) = self.cells.split_at_mut(mid);
            (&mut g2[cell1_idx - mid], &mut g1[mid - 1])
        }
    }
}

} // verus!
