//! The pieces: their rays, their extra moves, and the cells to which a
//! piece may move in a position.
use crate::game::{Castle, EnPassant, Game};
use crate::grid::{contains_cell, item_at, Cell, CellId, Grid};
use crate::path::{Direction, Magnitude, Path};
use crate::rays::{attacked, is_attacked, lemma_run_short, reaches_by_any, vacant_at, walk_paths};
use vstd::prelude::*;

pub mod bishop;
pub mod king;
pub mod knight;
pub mod pawn;
pub mod queen;
pub mod rook;

verus! {

/// The two players.
#[derive(PartialEq, Eq, Clone, Copy, Debug, Structural)]
pub enum Side {
    Black,
    White,
}

impl Side {
    /// The other player.
    pub open spec fn spec_switch(&self) -> Side {
        match *self {
            Side::White => Side::Black,
            Side::Black => Side::White,
        }
    }

    /// The other player.
    #[verifier::when_used_as_spec(spec_switch)]
    pub fn switch(&self) -> (s: Side)
        ensures
            s == self.spec_switch(),
    {
        match self {
            Side::White => Side::Black,
            Side::Black => Side::White,
        }
    }
}

/// The six kinds of chess piece.
#[derive(PartialEq, Eq, Clone, Copy, Debug, Structural)]
pub enum PieceType {
    Pawn,
    King,
    Bishop,
    Rook,
    Queen,
    Knight,
}

/// A piece on the board or in a stack of captured pieces.
#[derive(Debug)]
pub struct Piece {
    pub name: String,
    pub side: Side,
    pub piece_type: PieceType,
    /// The cell the piece last moved from; `None` while it has never moved.
    pub prev_cell: Option<CellId>,
    /// The rays along which the piece captures and gives check.
    pub line_of_sight: Vec<Path>,
    /// The rays along which the piece travels without capturing.
    pub moveset: Vec<Path>,
    /// Set where the two lists above are the same list, so that one walk
    /// over the move set serves for both travel and capture.
    pub same_line_of_sight_and_moveset: bool,
    /// The value of the game's move counter when the piece last moved.
    pub last_played_move: Option<u32>,
}

/// A path of one step.
pub open spec fn one(direction: Direction) -> Path {
    Path { magnitude: Magnitude::Fixed(1), direction }
}

/// A path without a bound.
pub open spec fn far(direction: Direction) -> Path {
    Path { magnitude: Magnitude::Any, direction }
}

/// The rays along which a piece of the given kind and side captures.
pub open spec fn line_of_sight_of(piece_type: PieceType, side: Side) -> Seq<Path> {
    match piece_type {
        PieceType::Pawn => match side {
            Side::White => seq![one(Direction::UpLeft), one(Direction::UpRight)],
            Side::Black => seq![one(Direction::DownRight), one(Direction::DownLeft)],
        },
        PieceType::King => seq![
            one(Direction::Left),
            one(Direction::Right),
            one(Direction::UpLeft),
            one(Direction::UpRight),
            one(Direction::DownLeft),
            one(Direction::DownRight),
            one(Direction::Up),
            one(Direction::Down),
        ],
        PieceType::Bishop => seq![
            far(Direction::UpLeft),
            far(Direction::UpRight),
            far(Direction::DownLeft),
            far(Direction::DownRight),
        ],
        PieceType::Rook => seq![
            far(Direction::Up),
            far(Direction::Down),
            far(Direction::Left),
            far(Direction::Right),
        ],
        PieceType::Queen => seq![
            far(Direction::UpLeft),
            far(Direction::UpRight),
            far(Direction::DownLeft),
            far(Direction::DownRight),
            far(Direction::Up),
            far(Direction::Down),
            far(Direction::Left),
            far(Direction::Right),
        ],
        PieceType::Knight => seq![
            one(Direction::LUpRight1),
            one(Direction::LUpLeft1),
            one(Direction::LDownRight1),
            one(Direction::LDownLeft1),
            one(Direction::LUpRight2),
            one(Direction::LUpLeft2),
            one(Direction::LDownRight2),
            one(Direction::LDownLeft2),
        ],
    }
}

/// The rays along which a piece of the given kind and side travels without
/// capturing. Only the pawn travels otherwise than it captures.
pub open spec fn moveset_of(piece_type: PieceType, side: Side) -> Seq<Path> {
    match piece_type {
        PieceType::Pawn => match side {
            Side::White => seq![one(Direction::Up)],
            Side::Black => seq![one(Direction::Down)],
        },
        _ => line_of_sight_of(piece_type, side),
    }
}

/// The display name of a kind of piece.
pub open spec fn name_of(piece_type: PieceType) -> Seq<char> {
    match piece_type {
        PieceType::Pawn => "Pawn"@,
        PieceType::King => "King"@,
        PieceType::Bishop => "Bishop"@,
        PieceType::Rook => "Rook"@,
        PieceType::Queen => "Queen"@,
        PieceType::Knight => "Knight"@,
    }
}

impl Piece {
    /// Whether the piece is as the catalogue makes a piece of its kind and
    /// side: name, rays and flag. Its history is left open.
    pub open spec fn is_standard(&self) -> bool {
        &&& self.name@ == name_of(self.piece_type)
        &&& self.line_of_sight@ == line_of_sight_of(self.piece_type, self.side)
        &&& self.moveset@ == moveset_of(self.piece_type, self.side)
        &&& self.same_line_of_sight_and_moveset == (self.piece_type != PieceType::Pawn)
    }

    /// Whether the piece is a catalogue piece that has never moved.
    pub open spec fn is_fresh(&self, piece_type: PieceType, side: Side) -> bool {
        &&& self.piece_type == piece_type
        &&& self.side == side
        &&& self.is_standard()
        &&& self.prev_cell is None
        &&& self.last_played_move is None
    }

    /// Whether one of the piece's lines of sight is compatible with `path`.
    pub open spec fn sees(&self, path: Path) -> bool {
        exists|i: int|
            0 <= i < self.line_of_sight@.len()
                && (#[trigger] self.line_of_sight@[i]).spec_is_equal_to(&path)
    }

    /// A piece of the given kind and side that has never moved.
    pub fn new(piece_type: PieceType, side: Side) -> (piece: Piece)
        ensures
            piece.is_fresh(piece_type, side),
    {
        match piece_type {
            PieceType::Pawn => pawn::pawn(side),
            PieceType::King => king::king(side),
            PieceType::Bishop => bishop::bishop(side),
            PieceType::Rook => rook::rook(side),
            PieceType::Queen => queen::queen(side),
            PieceType::Knight => knight::knight(side),
        }
    }

    /// Whether one of the piece's lines of sight is compatible with `path`.
    pub fn has_line_of_sight(&self, path: &Path) -> (b: bool)
        ensures
            b == self.sees(*path),
    {
        let mut i: usize = 0;
        while i < self.line_of_sight.len()
            invariant
                i <= self.line_of_sight@.len(),
                forall|j: int|
                    0 <= j < i ==> !(#[trigger] self.line_of_sight@[j]).spec_is_equal_to(path),
            decreases self.line_of_sight@.len() - i,
        {
            if self.line_of_sight[i].is_equal_to(path) {
                return true;
            }
            i += 1;
        }
        false
    }

    /// For a catalogue piece the flag says exactly whether the two lists of
    /// rays are the same.
    pub proof fn lemma_flag_of_standard(piece: Piece)
        requires
            piece.is_standard(),
        ensures
            piece.same_line_of_sight_and_moveset <==> piece.moveset@ == piece.line_of_sight@,
    {
        if piece.piece_type == PieceType::Pawn {
            assert(piece.moveset@.len() == 1);
            assert(piece.line_of_sight@.len() == 2);
        }
    }
}

/// The direction in which the pawns of a side travel.
pub open spec fn push_direction(side: Side) -> Direction {
    match side {
        Side::White => Direction::Up,
        Side::Black => Direction::Down,
    }
}

/// The diagonal on which a pawn of `side` captures toward the file on the
/// given hand (`Left`, or else right).
pub open spec fn capture_direction(side: Side, toward: Direction) -> Direction {
    match (side, toward) {
        (Side::White, Direction::Left) => Direction::UpLeft,
        (Side::Black, Direction::Left) => Direction::DownLeft,
        (Side::White, _) => Direction::UpRight,
        (Side::Black, _) => Direction::DownRight,
    }
}

/// Whether the king's scan along `toward` from `cell` finds, as the first
/// piece on its way and `n` steps off, a rook that has never moved, with
/// more than one square between the two.
pub open spec fn castle_rook_at(board: Seq<Cell>, cell: CellId, toward: Direction, n: int) -> bool {
    &&& 3 <= n
    &&& cell.lands_on_board(toward, n)
    &&& forall|k: int| 1 <= k < n ==> #[trigger] vacant_at(board, cell, toward, k)
    &&& item_at(board, cell.shifted(toward, n)) matches Some(rook) && rook.piece_type
        == PieceType::Rook && rook.prev_cell is None
}

/// The elements of `s` that satisfy `pred` are those of `s.filter(pred)`, and
/// filtering brings in no duplicates.
pub proof fn lemma_filter_members<A>(s: Seq<A>, pred: spec_fn(A) -> bool)
    ensures
        forall|a: A| s.filter(pred).contains(a) <==> s.contains(a) && pred(a),
        s.no_duplicates() ==> s.filter(pred).no_duplicates(),
    decreases s.len(),
{
    reveal(Seq::filter);
    let out = s.filter(pred);
    if s.len() > 0 {
        let front = s.drop_last();
        let last = s.last();
        let kept = front.filter(pred);
        lemma_filter_members(front, pred);
        assert(out == if pred(last) {
            kept.push(last)
        } else {
            kept
        });
        assert forall|a: A| out.contains(a) <==> s.contains(a) && pred(a) by {
            assert(kept.contains(a) <==> front.contains(a) && pred(a));
            if front.contains(a) {
                let j = choose|j: int| 0 <= j < front.len() && front[j] == a;
                assert(s[j] == a);
            }
            if s.contains(a) {
                let j = choose|j: int| 0 <= j < s.len() && s[j] == a;
                if j < front.len() {
                    assert(front[j] == a);
                } else {
                    assert(a == last);
                }
            }
            assert(s.contains(a) <==> front.contains(a) || a == last) by {
                assert(s[s.len() - 1] == last);
            }
            if kept.contains(a) {
                let i = choose|i: int| 0 <= i < kept.len() && kept[i] == a;
                assert(out[i] == a);
            }
            if pred(last) {
                assert(out[kept.len() as int] == last);
            }
            if out.contains(a) {
                let i = choose|i: int| 0 <= i < out.len() && out[i] == a;
                if i < kept.len() {
                    assert(kept[i] == a);
                }
            }
        }
        if s.no_duplicates() {
            assert(front.no_duplicates());
            if pred(last) {
                assert(!front.contains(last)) by {
                    if front.contains(last) {
                        let j = choose|j: int| 0 <= j < front.len() && front[j] == last;
                        assert(s[j] == s[s.len() - 1]);
                    }
                }
                assert(!kept.contains(last));
                assert forall|i: int, j: int|
                    0 <= i < out.len() && 0 <= j < out.len() && i != j implies out[i] != out[j] by {
                    if i < kept.len() {
                        assert(kept[i] == out[i]);
                        assert(kept.contains(out[i]));
                    }
                    if j < kept.len() {
                        assert(kept[j] == out[j]);
                        assert(kept.contains(out[j]));
                    }
                }
            }
        }
    } else {
        assert(out =~= s);
    }
}

/// Filtering the first `i + 1` elements of a sequence keeps what filtering
/// the first `i` kept, and the next element if it satisfies the predicate.
pub proof fn lemma_filter_next<A>(s: Seq<A>, pred: spec_fn(A) -> bool, i: int)
    requires
        0 <= i < s.len(),
    ensures
        s.take(i + 1).filter(pred) == if pred(s[i]) {
            s.take(i).filter(pred).push(s[i])
        } else {
            s.take(i).filter(pred)
        },
{
    reveal(Seq::filter);
    assert(s.take(i + 1).drop_last() =~= s.take(i));
    assert(s.take(i + 1).last() == s[i]);
}

/// The test whether a king of `side` would stand unattacked on a cell.
pub open spec fn stands_safe(board: Seq<Cell>, side: Side) -> spec_fn(CellId) -> bool {
    |c: CellId| !attacked(board, side, c)
}

/// Whether `a` comes before `b` in the order of the cells of a board: by
/// index, the top row first and each row from the a-file on. Squares off the
/// board that share an index come in the order of their files.
pub open spec fn comes_before(a: CellId, b: CellId) -> bool {
    a.index() < b.index() || (a.index() == b.index() && a.0 < b.0)
}

/// Whether each of `cells` comes before those that follow it.
pub open spec fn ascending(cells: Seq<CellId>) -> bool {
    forall|i: int, j: int|
        0 <= i < j < cells.len() ==> comes_before(#[trigger] cells[i], #[trigger] cells[j])
}

/// Whether `a` comes before `b` in the order of the cells of a board.
pub fn is_before(a: CellId, b: CellId) -> (before: bool)
    ensures
        before == comes_before(a, b),
{
    let i: u64 = a.0 as u64 + a.1 as u64 * 8;
    let j: u64 = b.0 as u64 + b.1 as u64 * 8;
    i < j || (i == j && a.0 < b.0)
}

/// A list of cells in ascending order holds no cell twice.
pub proof fn lemma_ascending_distinct(cells: Seq<CellId>)
    requires
        ascending(cells),
    ensures
        cells.no_duplicates(),
{
    assert forall|i: int, j: int|
        0 <= i < cells.len() && 0 <= j < cells.len() && i != j implies cells[i] != cells[j] by {
        if i < j {
            assert(comes_before(cells[i], cells[j]));
        } else {
            assert(comes_before(cells[j], cells[i]));
        }
    }
}

/// Two lists of cells in ascending order that hold the same cells are the
/// same list: the order leaves one way to list a set of cells.
pub proof fn lemma_ascending_unique(a: Seq<CellId>, b: Seq<CellId>)
    requires
        ascending(a),
        ascending(b),
        forall|c: CellId| a.contains(c) <==> b.contains(c),
    ensures
        a == b,
    decreases a.len(),
{
    if a.len() == 0 {
        if b.len() > 0 {
            assert(b.contains(b[0]));
        }
        assert(a =~= b);
    } else {
        let top = a.last();
        assert(a.contains(top));
        assert(b.contains(top));
        let at = choose|at: int| 0 <= at < b.len() && b[at] == top;
        assert(at == b.len() - 1) by {
            if at < b.len() - 1 {
                let over = b[b.len() - 1];
                assert(comes_before(top, over));
                assert(b.contains(over));
                assert(a.contains(over));
                let k = choose|k: int| 0 <= k < a.len() && a[k] == over;
                if k < a.len() - 1 {
                    assert(comes_before(a[k], a[a.len() - 1]));
                }
            }
        }
        let front_a = a.drop_last();
        let front_b = b.drop_last();
        assert forall|c: CellId| front_a.contains(c) <==> front_b.contains(c) by {
            if front_a.contains(c) {
                let k = choose|k: int| 0 <= k < front_a.len() && front_a[k] == c;
                assert(a[k] == c);
                assert(comes_before(a[k], a[a.len() - 1]));
                assert(a.contains(c));
                let j = choose|j: int| 0 <= j < b.len() && b[j] == c;
                assert(front_b[j] == c);
            }
            if front_b.contains(c) {
                let k = choose|k: int| 0 <= k < front_b.len() && front_b[k] == c;
                assert(b[k] == c);
                assert(comes_before(b[k], b[b.len() - 1]));
                assert(b.contains(c));
                let j = choose|j: int| 0 <= j < a.len() && a[j] == c;
                assert(front_a[j] == c);
            }
        }
        assert(ascending(front_a)) by {
            assert forall|i: int, j: int| 0 <= i < j < front_a.len() implies comes_before(
                #[trigger] front_a[i],
                #[trigger] front_a[j],
            ) by {
                assert(comes_before(a[i], a[j]));
            }
        }
        assert(ascending(front_b)) by {
            assert forall|i: int, j: int| 0 <= i < j < front_b.len() implies comes_before(
                #[trigger] front_b[i],
                #[trigger] front_b[j],
            ) by {
                assert(comes_before(b[i], b[j]));
            }
        }
        lemma_ascending_unique(front_a, front_b);
        assert(a =~= front_a.push(top));
        assert(b =~= front_b.push(top));
    }
}

/// Puts `id` in its place in a list of cells in ascending order, unless it
/// is there already.
pub fn insert_ascending(cells: &mut Vec<CellId>, id: CellId)
    requires
        ascending(old(cells)@),
    ensures
        ascending(final(cells)@),
        forall|c: CellId| final(cells)@.contains(c) <==> old(cells)@.contains(c) || c == id,
{
    let mut place: usize = 0;
    let mut stop = false;
    while !stop && place < cells.len()
        invariant
            cells@ == old(cells)@,
            place <= cells@.len(),
            forall|k: int| 0 <= k < place ==> comes_before(#[trigger] cells@[k], id),
            stop ==> place < cells@.len() && !comes_before(cells@[place as int], id),
        decreases
                (if stop {
                    0
                } else {
                    cells@.len() - place
                }),
    {
        if is_before(cells[place], id) {
            place += 1;
        } else {
            stop = true;
        }
    }
    if stop && cells[place] == id {
        assert(cells@.contains(id));
        return ;
    }
    let ghost before = cells@;
    cells.insert(place, id);
    proof {
        let after = cells@;
        before.insert_ensures(place as int, id);
        assert(!before.contains(id)) by {
            if before.contains(id) {
                let k = choose|k: int| 0 <= k < before.len() && before[k] == id;
                if k < place {
                    assert(comes_before(before[k], id));
                } else if k > place {
                    assert(comes_before(before[place as int], before[k]));
                }
            }
        }
        assert forall|i: int, j: int| 0 <= i < j < after.len() implies comes_before(
            #[trigger] after[i],
            #[trigger] after[j],
        ) by {
            if j < place {
                assert(comes_before(before[i], before[j]));
            } else if j == place {
                assert(comes_before(before[i], id));
            } else if i == place {
                assert(after[j] == before[j - 1]);
                if j - 1 > place {
                    assert(comes_before(before[place as int], before[j - 1]));
                }
            } else if i < place {
                assert(after[j] == before[j - 1]);
                assert(comes_before(before[i], before[j - 1]));
            } else {
                assert(after[i] == before[i - 1]);
                assert(after[j] == before[j - 1]);
                assert(comes_before(before[i - 1], before[j - 1]));
            }
        }
        assert forall|c: CellId| after.contains(c) <==> before.contains(c) || c == id by {
            if before.contains(c) {
                let k = choose|k: int| 0 <= k < before.len() && before[k] == c;
                if k < place {
                    assert(after[k] == c);
                } else {
                    assert(after[k + 1] == c);
                }
            }
            if c == id {
                assert(after[place as int] == c);
            }
            if after.contains(c) {
                let k = choose|k: int| 0 <= k < after.len() && after[k] == c;
                if k < place {
                    assert(before[k] == c);
                } else if k > place {
                    assert(before[k - 1] == c);
                }
            }
        }
    }
}

/// The cells that stand in both lists, each once, in ascending order.
pub fn common_moves(vec1: &[CellId], vec2: &[CellId]) -> (common: Vec<CellId>)
    ensures
        forall|c: CellId| common@.contains(c) <==> vec1@.contains(c) && vec2@.contains(c),
        ascending(common@),
        common@.no_duplicates(),
{
    let mut common_cellids: Vec<CellId> = Vec::new();
    let mut i: usize = 0;
    while i < vec1.len()
        invariant
            i <= vec1@.len(),
            ascending(common_cellids@),
            forall|c: CellId|
                common_cellids@.contains(c) <==> vec1@.take(i as int).contains(c)
                    && vec2@.contains(c),
        decreases vec1@.len() - i,
    {
        let ghost found = common_cellids@;
        if contains_cell(vec2, vec1[i]) {
            insert_ascending(&mut common_cellids, vec1[i]);
        }
        proof {
            let done = vec1@.take(i as int);
            let more = vec1@.take(i + 1);
            let next = vec1@[i as int];
            assert forall|c: CellId| more.contains(c) <==> done.contains(c) || c == next by {
                if done.contains(c) {
                    let k = choose|k: int| 0 <= k < done.len() && done[k] == c;
                    assert(more[k] == c);
                }
                if c == next {
                    assert(more[i as int] == c);
                }
                if more.contains(c) {
                    let k = choose|k: int| 0 <= k < more.len() && more[k] == c;
                    if k < i {
                        assert(done[k] == c);
                    }
                }
            }
        }
        i += 1;
    }
    proof {
        assert(vec1@.take(i as int) =~= vec1@);
        lemma_ascending_distinct(common_cellids@);
    }
    common_cellids
}

/// Takes out of `main` every cell on which a king of `side` would stand
/// attacked. The order of the others is kept.
pub fn remove_cells_in_check(main: &mut Vec<CellId>, side: &Side, grid: &Grid)
    requires
        grid.wf(),
    ensures
        final(main)@ == old(main)@.filter(stands_safe(grid@, *side)),
{
    let ghost pred = stands_safe(grid@, *side);
    let mut kept: Vec<CellId> = Vec::new();
    let mut i: usize = 0;
    assert(main@.take(0).filter(pred) =~= Seq::<CellId>::empty()) by {
        reveal(Seq::filter);
    }
    while i < main.len()
        invariant
            grid.wf(),
            main@ == old(main)@,
            i <= main@.len(),
            pred == stands_safe(grid@, *side),
            kept@ == main@.take(i as int).filter(pred),
        decreases main@.len() - i,
    {
        proof {
            lemma_filter_next(main@, pred, i as int);
        }
        if !is_attacked(grid, *side, main[i]) {
            kept.push(main[i]);
        }
        i += 1;
    }
    assert(main@.take(i as int) =~= main@);
    *main = kept;
}

/// Whether `dest` is the square `j` steps from `king` along `direction`, and
/// `cell` the square `m` steps along it, further off and reached without
/// leaving the board.
pub open spec fn between_at(
    king: CellId,
    direction: Direction,
    cell: CellId,
    dest: CellId,
    j: int,
    m: int,
) -> bool {
    &&& 1 <= j < m
    &&& king.run_on_board(direction, m)
    &&& cell == king.shifted(direction, m)
    &&& dest == king.shifted(direction, j)
}

/// Whether `dest` stands between `king` and `cell` on the ray from `king`
/// along `direction`.
pub open spec fn stands_between(
    king: CellId,
    direction: Direction,
    cell: CellId,
    dest: CellId,
) -> bool {
    exists|j: int, m: int| #[trigger] between_at(king, direction, cell, dest, j, m)
}

/// Whether `dest` stands on the line of the pin `pin` that is noted on
/// `cell`: the line from `king` through `cell` to the piece that pins, which
/// stands where the ray `pin` from `cell` ends. The cell of the pinning piece
/// is on the line, those of the king and of the pinned piece are not.
pub open spec fn on_pin_line(pin: Path, king: CellId, cell: CellId, dest: CellId) -> bool {
    pin.passes(cell, dest) || stands_between(king, pin.direction, cell, dest)
}

/// The line of a pin as the analysis notes it. Where a piece stands `m` steps
/// from its king and the piece that pins it `n` steps, on a ray that stays on
/// the board, the line of the pin holds the squares of the ray from the first
/// to the `n`-th, the pinned piece's own square left out: the piece may go
/// toward its king, toward the piece that pins it, and onto that piece.
pub proof fn lemma_pin_line_of_noted_pin(
    king: CellId,
    direction: Direction,
    m: int,
    n: int,
    dest: CellId,
)
    requires
        1 <= m < n,
        king.run_on_board(direction, n),
    ensures
        on_pin_line(
            Path { magnitude: Magnitude::Fixed((n - m) as u32), direction },
            king,
            king.shifted(direction, m),
            dest,
        ) <==> exists|j: int|
            1 <= j <= n && j != m && dest == #[trigger] king.shifted(direction, j),
{
    let pin = Path { magnitude: Magnitude::Fixed((n - m) as u32), direction };
    let cell = king.shifted(direction, m);
    assert(king.lands_on_board(direction, 1));
    assert(king.lands_on_board(direction, m));
    assert(king.lands_on_board(direction, n));
    lemma_run_short(king, direction, n);
    if pin.passes(cell, dest) {
        let k = choose|k: int| #[trigger] pin.passes_at(cell, dest, k);
        CellId::lemma_shift_add(king, direction, m, k);
        assert(dest == king.shifted(direction, m + k));
    }
    if stands_between(king, direction, cell, dest) {
        let (j, far) = choose|j: int, far: int| #[trigger]
            between_at(king, direction, cell, dest, j, far);
        assert(king.lands_on_board(direction, far));
        CellId::lemma_ray_injective(king, direction, far, m);
        assert(dest == king.shifted(direction, j));
    }
    if exists|j: int| 1 <= j <= n && j != m && dest == #[trigger] king.shifted(direction, j) {
        let j = choose|j: int|
            1 <= j <= n && j != m && dest == #[trigger] king.shifted(direction, j);
        if j < m {
            assert(king.run_on_board(direction, m)) by {
                assert forall|i: int| 1 <= i <= m implies #[trigger] king.lands_on_board(
                    direction,
                    i,
                ) by {
                }
            }
            assert(between_at(king, direction, cell, dest, j, m));
        } else {
            let k = j - m;
            assert forall|i: int| 1 <= i <= k implies #[trigger] cell.lands_on_board(
                direction,
                i,
            ) by {
                CellId::lemma_shift_add(king, direction, m, i);
                assert(king.lands_on_board(direction, m + i));
            }
            CellId::lemma_shift_add(king, direction, m, k);
            assert(pin.passes_at(cell, dest, k));
        }
    }
}

/// The cells between `king` and `cell` on the ray from `king` along
/// `direction`, nearest to the king first; none where the ray does not come
/// to `cell`.
fn cells_between(king: CellId, direction: Direction, cell: CellId) -> (cells: Vec<CellId>)
    ensures
        forall|c: CellId| cells@.contains(c) <==> stands_between(king, direction, cell, c),
{
    let mut cells: Vec<CellId> = Vec::new();
    let mut current = king;
    let mut n: u32 = 0;
    let mut open = true;
    let mut found = false;
    while open
        invariant
            n <= 8,
            current == king.shifted(direction, n as int),
            king.run_on_board(direction, n as int),
            found ==> !open && n >= 1 && cell == king.shifted(direction, n as int),
            cells@.len() == (if found {
                n - 1
            } else {
                n as int
            }),
            forall|k: int|
                0 <= k < cells@.len() ==> #[trigger] cells@[k] == king.shifted(direction, k + 1),
            !found ==> forall|k: int|
                1 <= k <= n ==> #[trigger] king.shifted(direction, k) != cell,
            !open && !found ==> !king.lands_on_board(direction, n + 1),
        decreases
                (if open {
                    9 - n
                } else {
                    0
                }),
    {
        proof {
            CellId::lemma_step(king, direction, n as int);
        }
        match current.try_next_cellid(direction, 1) {
            None => {
                open = false;
            },
            Some(next) => {
                proof {
                    assert(king.run_on_board(direction, n + 1));
                    assert(king.lands_on_board(direction, 1));
                    lemma_run_short(king, direction, n + 1);
                }
                n += 1;
                current = next;
                if next == cell {
                    found = true;
                    open = false;
                } else {
                    cells.push(next);
                }
            },
        }
    }
    if !found {
        proof {
            assert forall|c: CellId| !stands_between(king, direction, cell, c) by {
                if stands_between(king, direction, cell, c) {
                    let (j, m) = choose|j: int, m: int| #[trigger]
                        between_at(king, direction, cell, c, j, m);
                    if m > n {
                        assert(king.lands_on_board(direction, n + 1));
                    }
                    assert(king.shifted(direction, m) != cell);
                }
            }
        }
        return Vec::new();
    }
    proof {
        assert forall|c: CellId|
            cells@.contains(c) <==> stands_between(king, direction, cell, c) by {
            if cells@.contains(c) {
                let k = choose|k: int| 0 <= k < cells@.len() && cells@[k] == c;
                assert(between_at(king, direction, cell, c, k + 1, n as int));
            }
            if stands_between(king, direction, cell, c) {
                let (j, m) = choose|j: int, m: int| #[trigger]
                    between_at(king, direction, cell, c, j, m);
                assert(king.lands_on_board(direction, m));
                assert(king.lands_on_board(direction, n as int));
                CellId::lemma_ray_injective(king, direction, m, n as int);
                assert(cells@[j - 1] == c);
            }
        }
    }
    cells
}

/// The cells on the line of the pin `pin` that is noted on `cell`, for a
/// piece whose king stands on `king`.
fn pin_line(pin: &Path, king: CellId, cell: CellId) -> (cells: Vec<CellId>)
    ensures
        forall|c: CellId| cells@.contains(c) <==> on_pin_line(*pin, king, cell, c),
{
    let mut cells = cells_between(king, pin.direction, cell);
    let ghost inner = cells@;
    let mut outer = ray_cells(pin, cell);
    let ghost beyond = outer@;
    cells.append(&mut outer);
    proof {
        assert(cells@ == inner + beyond);
        assert forall|c: CellId| cells@.contains(c) <==> on_pin_line(*pin, king, cell, c) by {
            if inner.contains(c) {
                let k = choose|k: int| 0 <= k < inner.len() && inner[k] == c;
                assert(cells@[k] == c);
            }
            if beyond.contains(c) {
                let k = choose|k: int| 0 <= k < beyond.len() && beyond[k] == c;
                assert(cells@[inner.len() + k] == c);
            }
            if cells@.contains(c) {
                let k = choose|k: int| 0 <= k < cells@.len() && cells@[k] == c;
                if k < inner.len() {
                    assert(inner[k] == c);
                } else {
                    assert(beyond[k - inner.len()] == c);
                }
            }
        }
    }
    cells
}

/// The cells that `path` passes from `origin` before it ends or leaves the
/// board, nearest first. An unbounded path ends with the board.
fn ray_cells(path: &Path, origin: CellId) -> (cells: Vec<CellId>)
    ensures
        forall|c: CellId| cells@.contains(c) <==> path.passes(origin, c),
{
    let reach: u32 = match path.magnitude {
        Magnitude::Any => 10,
        Magnitude::Fixed(f) => f,
    };
    let bounded = Path { magnitude: Magnitude::Fixed(reach), direction: path.direction };
    let cells = match bounded.get_cell_ids(origin) {
        Some(cells) => cells,
        None => Vec::new(),
    };
    proof {
        assert forall|c: CellId| cells@.contains(c) <==> path.passes(origin, c) by {
            Path::lemma_expansion_passes(bounded, origin, cells@, c);
            if bounded.passes(origin, c) {
                let k = choose|k: int| #[trigger] bounded.passes_at(origin, c, k);
                assert(path.passes_at(origin, c, k));
            }
            if path.passes(origin, c) {
                let k = choose|k: int| #[trigger] path.passes_at(origin, c, k);
                assert(origin.lands_on_board(path.direction, 1));
                assert(origin.lands_on_board(path.direction, k));
                lemma_run_short(origin, path.direction, k);
                assert(bounded.passes_at(origin, c, k));
            }
        }
    }
    cells
}

impl Piece {
    /// Whether a pawn on `cell` may capture in passing the pawn beside it on
    /// the given hand: that pawn is of the other side, made its last move on
    /// the turn before the one counted by `move_count`, came two rows with
    /// it, and the diagonal toward its file is on the board.
    pub open spec fn en_passant_open(
        &self,
        cell: CellId,
        board: Seq<Cell>,
        move_count: u32,
        toward: Direction,
    ) -> bool {
        let beside = cell.shifted(toward, 1);
        &&& cell.lands_on_board(toward, 1)
        &&& item_at(board, beside) matches Some(other)
        &&& other.piece_type == PieceType::Pawn
        &&& other.side != self.side
        &&& other.prev_cell matches Some(prev)
        &&& other.last_played_move matches Some(when)
        &&& when + 1 == move_count
        &&& (prev.1 == beside.1 + 2 || prev.1 + 2 == beside.1)
        &&& cell.lands_on_board(capture_direction(self.side, toward), 1)
    }

    /// The note of a capture in passing by a pawn on `cell` toward the given
    /// hand.
    pub open spec fn en_passant_note(&self, cell: CellId, toward: Direction) -> EnPassant {
        EnPassant {
            dest: cell.shifted(capture_direction(self.side, toward), 1),
            current: cell,
            linked_pawn: cell.shifted(toward, 1),
        }
    }

    /// The path of a capture in passing toward the given hand, if it is open.
    pub open spec fn en_passant_paths(
        &self,
        cell: CellId,
        board: Seq<Cell>,
        move_count: u32,
        toward: Direction,
    ) -> Seq<Path> {
        if self.en_passant_open(cell, board, move_count, toward) {
            seq![one(capture_direction(self.side, toward))]
        } else {
            Seq::empty()
        }
    }

    /// Whether a king on `cell` may castle toward the given hand: he has
    /// never moved, and his scan finds a rook to castle with.
    pub open spec fn castle_open(&self, cell: CellId, board: Seq<Cell>, toward: Direction) -> bool {
        &&& self.prev_cell is None
        &&& exists|n: int| #[trigger] castle_rook_at(board, cell, toward, n)
    }

    /// The note of a castling by a king on `cell` toward the given hand.
    pub open spec fn castle_note(
        &self,
        cell: CellId,
        board: Seq<Cell>,
        toward: Direction,
    ) -> Castle {
        let n = choose|n: int| #[trigger] castle_rook_at(board, cell, toward, n);
        Castle {
            dest: cell.shifted(toward, 2),
            current: cell,
            linked_rook: cell.shifted(toward, n),
            rook_move_direction: toward.spec_flip(),
        }
    }

    /// The path of a castling toward the given hand, if it is open.
    pub open spec fn castle_paths(&self, cell: CellId, board: Seq<Cell>, toward: Direction) -> Seq<
        Path,
    > {
        if self.castle_open(cell, board, toward) {
            seq![Path { magnitude: Magnitude::Fixed(2), direction: toward }]
        } else {
            Seq::empty()
        }
    }

    /// The notes of the castlings open to a king on `cell`, the one to the
    /// right first.
    pub open spec fn castle_notes(&self, cell: CellId, board: Seq<Cell>) -> Seq<Castle> {
        (if self.castle_open(cell, board, Direction::Right) {
            seq![self.castle_note(cell, board, Direction::Right)]
        } else {
            Seq::empty()
        }) + (if self.castle_open(cell, board, Direction::Left) {
            seq![self.castle_note(cell, board, Direction::Left)]
        } else {
            Seq::empty()
        })
    }

    /// The moves of the piece that depend on the position: a pawn's double
    /// step while it has never moved and its captures in passing (to the
    /// left first), a king's castlings (to the right first).
    pub open spec fn spec_extra_moves(
        &self,
        cell: CellId,
        board: Seq<Cell>,
        move_count: u32,
    ) -> Seq<Path> {
        match self.piece_type {
            PieceType::Pawn => (if self.prev_cell is None {
                seq![Path { magnitude: Magnitude::Fixed(2), direction: push_direction(self.side) }]
            } else {
                Seq::empty()
            }) + self.en_passant_paths(cell, board, move_count, Direction::Left)
                + self.en_passant_paths(cell, board, move_count, Direction::Right),
            PieceType::King => self.castle_paths(cell, board, Direction::Right) + self.castle_paths(
                cell,
                board,
                Direction::Left,
            ),
            _ => Seq::empty(),
        }
    }

    /// Whether `after` is the game `before` with the notes that working out
    /// the extra moves of this piece on `cell` leaves in it: for a pawn the
    /// capture in passing that is open to it (the one to the right, where
    /// both are), for a king his castlings, added to those noted before.
    pub open spec fn notes_extra_moves(
        &self,
        cell: CellId,
        board: Seq<Cell>,
        before: &Game,
        after: &Game,
    ) -> bool {
        &&& after.white_stack == before.white_stack
        &&& after.black_stack == before.black_stack
        &&& after.turn == before.turn
        &&& after.cell_cache == before.cell_cache
        &&& after.white_king == before.white_king
        &&& after.black_king == before.black_king
        &&& after.checked == before.checked
        &&& after.move_count == before.move_count
        &&& after.last_played == before.last_played
        &&& match self.piece_type {
            PieceType::Pawn => {
                &&& after.castles == before.castles
                &&& after.en_passant == if self.en_passant_open(
                    cell,
                    board,
                    before.move_count,
                    Direction::Right,
                ) {
                    Some(self.en_passant_note(cell, Direction::Right))
                } else if self.en_passant_open(cell, board, before.move_count, Direction::Left) {
                    Some(self.en_passant_note(cell, Direction::Left))
                } else {
                    before.en_passant
                }
            },
            PieceType::King => {
                &&& after.en_passant == before.en_passant
                &&& after.castles@ == before.castles@ + self.castle_notes(cell, board)
            },
            _ => {
                &&& after.en_passant == before.en_passant
                &&& after.castles == before.castles
            },
        }
    }

    /// Whether the piece, standing on `origin`, comes to `dest` by one of its
    /// moves, whatever pins and checks may forbid: along its move set onto an
    /// empty square (or, where move set and line of sight are one, onto a
    /// piece of the other side), along a line of sight of its own onto a
    /// piece of the other side, or by an extra move onto an empty square.
    pub open spec fn is_candidate(
        &self,
        origin: CellId,
        board: Seq<Cell>,
        move_count: u32,
        dest: CellId,
    ) -> bool {
        ||| reaches_by_any(
            board,
            self.side,
            origin,
            self.moveset@,
            true,
            self.same_line_of_sight_and_moveset,
            dest,
        )
        ||| !self.same_line_of_sight_and_moveset && reaches_by_any(
            board,
            self.side,
            origin,
            self.line_of_sight@,
            false,
            true,
            dest,
        )
        ||| reaches_by_any(
            board,
            self.side,
            origin,
            self.spec_extra_moves(origin, board, move_count),
            true,
            false,
            dest,
        )
    }

    /// Whether the piece, standing on `cell`, may move to `dest`. A king may
    /// go where he comes to and would not stand attacked. Another piece may
    /// go where it comes to, stays on the line of the pin noted on its cell,
    /// which runs from the king of the side to move to the piece that pins,
    /// and, where the side to move is in check, stays on the ray from the
    /// king to the piece that gives check; in a check by several pieces it
    /// may go nowhere.
    pub open spec fn is_valid_move(
        &self,
        cell: &Cell,
        board: Seq<Cell>,
        game: &Game,
        dest: CellId,
    ) -> bool {
        &&& self.is_candidate(cell.id, board, game.move_count, dest)
        &&& if self.piece_type == PieceType::King {
            !attacked(board, self.side, dest)
        } else {
            &&& cell.pin matches Some(pin) ==> on_pin_line(
                pin,
                game.spec_king_now(),
                cell.id,
                dest,
            )
            &&& game.checked matches Some(check) ==> !check.absolute && check.path.passes(
                game.spec_king_now(),
                dest,
            )
        }
    }

    /// The capture in passing that a pawn on `cell` may make toward the
    /// given hand, if one is open.
    fn en_passant_toward(
        &self,
        cell: CellId,
        grid: &Grid,
        move_count: u32,
        toward: Direction,
    ) -> (note: Option<(Path, EnPassant)>)
        requires
            grid.wf(),
            toward == Direction::Left || toward == Direction::Right,
        ensures
            note is Some <==> self.en_passant_open(cell, grid@, move_count, toward),
            note matches Some((path, record)) ==> path == one(capture_direction(self.side, toward))
                && record == self.en_passant_note(cell, toward),
    {
        let adj_cell = match cell.try_next_cellid(toward, 1) {
            Some(adj_cell) => adj_cell,
            None => {
                return None;
            },
        };
        let piece = match &grid.get_cell(&adj_cell).item {
            Some(piece) => piece,
            None => {
                return None;
            },
        };
        if piece.piece_type != PieceType::Pawn {
            return None;
        }
        if piece.side == self.side {
            return None;
        }
        let prev_cell = match piece.prev_cell {
            Some(prev_cell) => prev_cell,
            None => {
                return None;
            },
        };
        let when = match piece.last_played_move {
            Some(when) => when,
            None => {
                return None;
            },
        };
        if move_count == 0 || when != move_count - 1 {
            return None;
        }
        let diff: u32 = if prev_cell.1 >= adj_cell.1 {
            prev_cell.1 - adj_cell.1
        } else {
            adj_cell.1 - prev_cell.1
        };
        if diff != 2 {
            return None;
        }
        let move_dir = match toward {
            Direction::Left => {
                if self.side == Side::White {
                    Direction::UpLeft
                } else {
                    Direction::DownLeft
                }
            },
            _ => {
                if self.side == Side::White {
                    Direction::UpRight
                } else {
                    Direction::DownRight
                }
            },
        };
        match cell.try_next_cellid(move_dir, 1) {
            Some(dest) => Some(
                (
                    Path { magnitude: Magnitude::Fixed(1), direction: move_dir },
                    EnPassant { dest, current: cell, linked_pawn: adj_cell },
                ),
            ),
            None => None,
        }
    }

    /// The castling that a king on `cell` may make toward the given hand, if
    /// one is open.
    fn castle_toward(&self, cell: CellId, grid: &Grid, toward: Direction) -> (note: Option<
        (Path, Castle),
    >)
        requires
            grid.wf(),
        ensures
            note is Some <==> self.castle_open(cell, grid@, toward),
            note matches Some((path, record)) ==> path == (Path {
                magnitude: Magnitude::Fixed(2),
                direction: toward,
            }) && record == self.castle_note(cell, grid@, toward),
    {
        if self.prev_cell.is_some() {
            return None;
        }
        let mut n: u32 = 0;
        let mut current_cell = cell;
        let mut found: Option<CellId> = None;
        let mut open = true;
        while open
            invariant
                grid.wf(),
                n <= 8,
                n == 0 || cell.lands_on_board(toward, n as int),
                current_cell == cell.shifted(toward, n as int),
                open ==> found is None,
                open ==> forall|k: int|
                    1 <= k <= n ==> #[trigger] vacant_at(grid@, cell, toward, k),
                !open ==> (found is Some <==> exists|m: int| #[trigger]
                    castle_rook_at(grid@, cell, toward, m)),
                !open ==> (found matches Some(id) ==> castle_rook_at(grid@, cell, toward, n as int)
                    && id == cell.shifted(toward, n as int)),
            decreases
                    (if open {
                        9 - n
                    } else {
                        0
                    }),
        {
            proof {
                CellId::lemma_step(cell, toward, n as int);
            }
            match current_cell.try_next_cellid(toward, 1) {
                None => {
                    open = false;
                    proof {
                        assert(!vacant_at(grid@, cell, toward, n + 1));
                        assert forall|m: int| !#[trigger] castle_rook_at(
                            grid@,
                            cell,
                            toward,
                            m,
                        ) by {
                            if castle_rook_at(grid@, cell, toward, m) {
                                if m <= n {
                                    assert(vacant_at(grid@, cell, toward, m));
                                } else if m > n + 1 {
                                    assert(vacant_at(grid@, cell, toward, n + 1));
                                }
                            }
                        }
                    }
                },
                Some(next_cell) => {
                    proof {
                        assert(cell.lands_on_board(toward, 1)) by {
                            if n >= 1 {
                                assert(vacant_at(grid@, cell, toward, 1));
                            }
                        }
                        lemma_run_short(cell, toward, n + 1);
                    }
                    n += 1;
                    current_cell = next_cell;
                    let ghost step = n as int;
                    match &grid.get_cell(&current_cell).item {
                        None => {
                            assert(vacant_at(grid@, cell, toward, step));
                        },
                        Some(piece) => {
                            open = false;
                            if piece.piece_type == PieceType::Rook && n > 2
                                && piece.prev_cell.is_none() {
                                found = Some(current_cell);
                                assert(castle_rook_at(grid@, cell, toward, step));
                            }
                            proof {
                                assert(!vacant_at(grid@, cell, toward, step));
                                assert forall|m: int| #[trigger]
                                    castle_rook_at(grid@, cell, toward, m) implies m == step by {
                                    if m < step {
                                        assert(vacant_at(grid@, cell, toward, m));
                                    } else if m > step {
                                        assert(vacant_at(grid@, cell, toward, step));
                                    }
                                }
                            }
                        },
                    }
                },
            }
        }
        match found {
            None => None,
            Some(linked_rook) => {
                proof {
                    let m = choose|m: int| #[trigger] castle_rook_at(grid@, cell, toward, m);
                    assert(m == n) by {
                        if m < n {
                            assert(vacant_at(grid@, cell, toward, m));
                        } else if m > n {
                            assert(vacant_at(grid@, cell, toward, n as int));
                        }
                    }
                    assert(vacant_at(grid@, cell, toward, 2));
                }
                match cell.try_next_cellid(toward, 2) {
                    Some(dest) => Some(
                        (
                            Path { magnitude: Magnitude::Fixed(2), direction: toward },
                            Castle {
                                dest,
                                current: cell,
                                linked_rook,
                                rook_move_direction: toward.flip(),
                            },
                        ),
                    ),
                    None => None,
                }
            },
        }
    }

    /// The moves of the piece that depend on the position, as paths from
    /// `cell`: a pawn's double step and captures in passing, a king's
    /// castlings. The capture in passing and the castlings that are open are
    /// noted in `game`, which carries them out when such a move is played.
    pub fn extra_moves(&self, cell: CellId, grid: &Grid, game: &mut Game) -> (extra: Vec<Path>)
        requires
            grid.wf(),
        ensures
            extra@ == self.spec_extra_moves(cell, grid@, old(game).move_count),
            self.notes_extra_moves(cell, grid@, old(game), final(game)),
    {
        let mut extra_moves: Vec<Path> = Vec::new();
        match self.piece_type {
            PieceType::Pawn => {
                if self.prev_cell.is_none() {
                    match self.side {
                        Side::Black => extra_moves.push(
                            Path { magnitude: Magnitude::Fixed(2), direction: Direction::Down },
                        ),
                        Side::White => extra_moves.push(
                            Path { magnitude: Magnitude::Fixed(2), direction: Direction::Up },
                        ),
                    }
                }
                match self.en_passant_toward(cell, grid, game.move_count, Direction::Left) {
                    Some((path, record)) => {
                        extra_moves.push(path);
                        game.en_passant = Some(record);
                    },
                    None => {},
                }
                match self.en_passant_toward(cell, grid, game.move_count, Direction::Right) {
                    Some((path, record)) => {
                        extra_moves.push(path);
                        game.en_passant = Some(record);
                    },
                    None => {},
                }
                assert(extra_moves@ =~= self.spec_extra_moves(cell, grid@, old(game).move_count));
                extra_moves
            },
            PieceType::King => {
                match self.castle_toward(cell, grid, Direction::Right) {
                    Some((path, record)) => {
                        extra_moves.push(path);
                        game.castles.push(record);
                    },
                    None => {},
                }
                match self.castle_toward(cell, grid, Direction::Left) {
                    Some((path, record)) => {
                        extra_moves.push(path);
                        game.castles.push(record);
                    },
                    None => {},
                }
                assert(extra_moves@ =~= self.spec_extra_moves(cell, grid@, old(game).move_count));
                assert(game.castles@ =~= old(game).castles@ + self.castle_notes(cell, grid@));
                extra_moves
            },
            _ => extra_moves,
        }
    }

    /// The cells to which the piece, standing on `cell`, may move. Each
    /// stands once in the list. The capture in passing and the castlings
    /// found on the way are noted in `game`.
    pub fn calc_valid_moves(&self, cell: &Cell, grid: &Grid, game: &mut Game) -> (moves: Vec<
        CellId,
    >)
        requires
            grid.wf(),
        ensures
            moves@.no_duplicates(),
            forall|c: CellId| moves@.contains(c) <==> self.is_valid_move(cell, grid@, old(game), c),
            self.notes_extra_moves(cell.id, grid@, old(game), final(game)),
            forall|c: CellId|
                moves@.contains(c) ==> !(grid.item_at(c) matches Some(other) && other.side
                    == self.side),
            self.piece_type != PieceType::King ==> forall|c: CellId|
                moves@.contains(c) ==> (cell.pin matches Some(pin) ==> on_pin_line(
                    pin,
                    old(game).spec_king_now(),
                    cell.id,
                    c,
                )),
            self.piece_type != PieceType::King ==> forall|c: CellId|
                moves@.contains(c) ==> (old(game).checked matches Some(check) ==> !check.absolute
                    && check.path.passes(old(game).spec_king_now(), c)),
    {
        let mut valid_moves: Vec<CellId> = Vec::new();
        let extra_moves = self.extra_moves(cell.id, grid, game);
        walk_paths(
            grid,
            self.side,
            cell.id,
            &self.moveset,
            true,
            self.same_line_of_sight_and_moveset,
            &mut valid_moves,
        );
        if !self.same_line_of_sight_and_moveset {
            walk_paths(
                grid,
                self.side,
                cell.id,
                &self.line_of_sight,
                false,
                true,
                &mut valid_moves,
            );
        }
        walk_paths(grid, self.side, cell.id, &extra_moves, true, false, &mut valid_moves);
        let ghost candidates = valid_moves@;
        assert(forall|c: CellId|
            candidates.contains(c) <==> self.is_candidate(cell.id, grid@, old(game).move_count, c));
        proof {
            Piece::lemma_candidate_not_own(*self, cell.id, grid@, old(game).move_count);
        }
        if self.piece_type == PieceType::King {
            remove_cells_in_check(&mut valid_moves, &self.side, grid);
            proof {
                lemma_filter_members(candidates, stands_safe(grid@, self.side));
                assert(valid_moves@ == candidates.filter(stands_safe(grid@, self.side)));
                assert(valid_moves@.no_duplicates());
                assert forall|c: CellId|
                    valid_moves@.contains(c) <==> self.is_valid_move(cell, grid@, old(game), c) by {
                    assert(stands_safe(grid@, self.side)(c) == !attacked(grid@, self.side, c));
                    assert(candidates.contains(c) <==> self.is_candidate(
                        cell.id,
                        grid@,
                        old(game).move_count,
                        c,
                    ));
                }
            }
            return valid_moves;
        }
        let king: CellId = *game.king_now();
        match cell.pin {
            Some(pin) => {
                let cellids_in_pin = pin_line(&pin, king, cell.id);
                valid_moves = common_moves(valid_moves.as_slice(), cellids_in_pin.as_slice());
            },
            None => {},
        }
        let ghost unpinned = valid_moves@;
        assert(forall|c: CellId|
            unpinned.contains(c) <==> candidates.contains(c) && (cell.pin matches Some(pin)
                ==> on_pin_line(pin, king, cell.id, c)));
        match &game.checked {
            Some(check) => {
                if check.absolute {
                    valid_moves = Vec::new();
                } else {
                    let check_cellids = ray_cells(&check.path, king);
                    valid_moves = common_moves(valid_moves.as_slice(), check_cellids.as_slice());
                }
            },
            None => {},
        }
        proof {
            assert forall|c: CellId|
                valid_moves@.contains(c) <==> self.is_valid_move(cell, grid@, old(game), c) by {
                assert(candidates.contains(c) <==> self.is_candidate(
                    cell.id,
                    grid@,
                    old(game).move_count,
                    c,
                ));
                assert(unpinned.contains(c) <==> candidates.contains(c) && (cell.pin matches Some(
                    pin,
                ) ==> on_pin_line(pin, king, cell.id, c)));
            }
        }
        valid_moves
    }

    /// A king that has moved has no castling: no extra move, and nothing to
    /// note in the game.
    pub proof fn lemma_moved_king_has_no_castle(
        piece: Piece,
        cell: CellId,
        board: Seq<Cell>,
        move_count: u32,
    )
        requires
            piece.piece_type == PieceType::King,
            piece.prev_cell is Some,
        ensures
            piece.spec_extra_moves(cell, board, move_count) == Seq::<Path>::empty(),
            piece.castle_notes(cell, board) == Seq::<Castle>::empty(),
            forall|dest: CellId|
                piece.is_candidate(cell, board, move_count, dest) <==> reaches_by_any(
                    board,
                    piece.side,
                    cell,
                    piece.moveset@,
                    true,
                    piece.same_line_of_sight_and_moveset,
                    dest,
                ) || !piece.same_line_of_sight_and_moveset && reaches_by_any(
                    board,
                    piece.side,
                    cell,
                    piece.line_of_sight@,
                    false,
                    true,
                    dest,
                ),
    {
        assert(piece.spec_extra_moves(cell, board, move_count) =~= Seq::<Path>::empty());
        assert(piece.castle_notes(cell, board) =~= Seq::<Castle>::empty());
    }

    /// No move of a piece ends on a piece of its own side.
    pub proof fn lemma_candidate_not_own(
        piece: Piece,
        origin: CellId,
        board: Seq<Cell>,
        move_count: u32,
    )
        ensures
            forall|c: CellId|
                piece.is_candidate(origin, board, move_count, c) ==> !(item_at(board, c)
                    matches Some(other) && other.side == piece.side),
    {
    }
}

} // verus!
