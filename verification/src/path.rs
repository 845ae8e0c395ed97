//! Rays on the board: the sixteen directions, and paths of a fixed or an
//! unbounded reach along them.
use crate::grid::CellId;
use vstd::prelude::*;

verus! {

/// One of the sixteen unit steps a piece can take: the eight queen-like
/// directions and the eight knight jumps.
#[derive(PartialEq, Eq, Clone, Copy, Debug, Structural)]
pub enum Direction {
    Right,
    Left,
    Up,
    Down,
    UpRight,
    UpLeft,
    DownRight,
    DownLeft,
    LUpRight1,
    LUpLeft1,
    LDownRight1,
    LDownLeft1,
    LUpRight2,
    LUpLeft2,
    LDownRight2,
    LDownLeft2,
}

impl Direction {
    /// Horizontal component of the step (files grow to the right).
    pub open spec fn dx(self) -> int {
        match self {
            Direction::Right => 1,
            Direction::Left => -1,
            Direction::Up => 0,
            Direction::Down => 0,
            Direction::UpRight => 1,
            Direction::UpLeft => -1,
            Direction::DownRight => 1,
            Direction::DownLeft => -1,
            Direction::LDownRight1 => 1,
            Direction::LUpRight1 => 1,
            Direction::LUpLeft1 => -1,
            Direction::LDownLeft1 => -1,
            Direction::LDownRight2 => -2,
            Direction::LUpRight2 => 2,
            Direction::LUpLeft2 => 2,
            Direction::LDownLeft2 => -2,
        }
    }

    /// Vertical component of the step. Row 0 is the top of the board, so the
    /// queen-like "up" directions have a negative component.
    pub open spec fn dy(self) -> int {
        match self {
            Direction::Right => 0,
            Direction::Left => 0,
            Direction::Up => -1,
            Direction::Down => 1,
            Direction::UpRight => -1,
            Direction::UpLeft => -1,
            Direction::DownRight => 1,
            Direction::DownLeft => 1,
            Direction::LDownRight1 => -2,
            Direction::LUpRight1 => 2,
            Direction::LUpLeft1 => 2,
            Direction::LDownLeft1 => -2,
            Direction::LDownRight2 => 1,
            Direction::LUpRight2 => 1,
            Direction::LUpLeft2 => -1,
            Direction::LDownLeft2 => -1,
        }
    }

    /// Whether the step is one of the eight knight jumps.
    pub open spec fn spec_is_knight(&self) -> bool {
        !(self is Right || self is Left || self is Up || self is Down || self is UpRight
            || self is UpLeft || self is DownRight || self is DownLeft)
    }

    /// All sixteen directions, in the order in which rays are cast.
    pub open spec fn all() -> Seq<Direction> {
        seq![
            Direction::Right,
            Direction::Left,
            Direction::Up,
            Direction::Down,
            Direction::UpRight,
            Direction::UpLeft,
            Direction::DownRight,
            Direction::DownLeft,
            Direction::LUpRight1,
            Direction::LUpLeft1,
            Direction::LDownRight1,
            Direction::LDownLeft1,
            Direction::LUpRight2,
            Direction::LUpLeft2,
            Direction::LDownRight2,
            Direction::LDownLeft2,
        ]
    }

    /// Position of a direction in [`Direction::all`].
    pub open spec fn rank(self) -> int {
        match self {
            Direction::Right => 0,
            Direction::Left => 1,
            Direction::Up => 2,
            Direction::Down => 3,
            Direction::UpRight => 4,
            Direction::UpLeft => 5,
            Direction::DownRight => 6,
            Direction::DownLeft => 7,
            Direction::LUpRight1 => 8,
            Direction::LUpLeft1 => 9,
            Direction::LDownRight1 => 10,
            Direction::LDownLeft1 => 11,
            Direction::LUpRight2 => 12,
            Direction::LUpLeft2 => 13,
            Direction::LDownRight2 => 14,
            Direction::LDownLeft2 => 15,
        }
    }

    /// The direction pointing the opposite way.
    pub open spec fn spec_flip(&self) -> Direction {
        match *self {
            Direction::Right => Direction::Left,
            Direction::Left => Direction::Right,
            Direction::Up => Direction::Down,
            Direction::Down => Direction::Up,
            Direction::UpRight => Direction::DownLeft,
            Direction::UpLeft => Direction::DownRight,
            Direction::DownRight => Direction::UpLeft,
            Direction::DownLeft => Direction::UpRight,
            Direction::LUpRight1 => Direction::LDownLeft1,
            Direction::LUpLeft1 => Direction::LDownRight1,
            Direction::LDownRight1 => Direction::LUpLeft1,
            Direction::LDownLeft1 => Direction::LUpRight1,
            Direction::LUpRight2 => Direction::LDownLeft2,
            Direction::LUpLeft2 => Direction::LDownRight2,
            Direction::LDownRight2 => Direction::LUpLeft2,
            Direction::LDownLeft2 => Direction::LUpRight2,
        }
    }

    /// The step as a `(file, row)` vector.
    pub fn value(&self) -> (v: (i32, i32))
        ensures
            v.0 == self.dx(),
            v.1 == self.dy(),
    {
        match self {
            Direction::Right => (1, 0),
            Direction::Left => (-1, 0),
            Direction::Up => (0, -1),
            Direction::Down => (0, 1),
            Direction::UpRight => (1, -1),
            Direction::UpLeft => (-1, -1),
            Direction::DownRight => (1, 1),
            Direction::DownLeft => (-1, 1),
            Direction::LDownRight1 => (1, -2),
            Direction::LUpRight1 => (1, 2),
            Direction::LUpLeft1 => (-1, 2),
            Direction::LDownLeft1 => (-1, -2),
            Direction::LDownRight2 => (-2, 1),
            Direction::LUpRight2 => (2, 1),
            Direction::LUpLeft2 => (2, -1),
            Direction::LDownLeft2 => (-2, -1),
        }
    }

    /// Whether the step is one of the eight knight jumps.
    #[verifier::when_used_as_spec(spec_is_knight)]
    pub fn is_knight(&self) -> (b: bool)
        ensures
            b == self.spec_is_knight(),
    {
        match self {
            Direction::Right
            | Direction::Left
            | Direction::Up
            | Direction::Down
            | Direction::UpRight
            | Direction::UpLeft
            | Direction::DownRight
            | Direction::DownLeft => false,
            _ => true,
        }
    }

    /// All sixteen directions: the eight queen-like ones first, then the
    /// knight jumps.
    pub fn iterator() -> (dirs: [Direction; 16])
        ensures
            dirs@ == Direction::all(),
    {
        let dirs = [
            Direction::Right,
            Direction::Left,
            Direction::Up,
            Direction::Down,
            Direction::UpRight,
            Direction::UpLeft,
            Direction::DownRight,
            Direction::DownLeft,
            Direction::LUpRight1,
            Direction::LUpLeft1,
            Direction::LDownRight1,
            Direction::LDownLeft1,
            Direction::LUpRight2,
            Direction::LUpLeft2,
            Direction::LDownRight2,
            Direction::LDownLeft2,
        ];
        assert(dirs@ =~= Direction::all());
        dirs
    }

    /// The direction pointing the opposite way.
    #[verifier::when_used_as_spec(spec_flip)]
    pub fn flip(&self) -> (f: Direction)
        ensures
            f == self.spec_flip(),
    {
        match self {
            Direction::Right => Direction::Left,
            Direction::Left => Direction::Right,
            Direction::Up => Direction::Down,
            Direction::Down => Direction::Up,
            Direction::UpRight => Direction::DownLeft,
            Direction::UpLeft => Direction::DownRight,
            Direction::DownRight => Direction::UpLeft,
            Direction::DownLeft => Direction::UpRight,
            Direction::LUpRight1 => Direction::LDownLeft1,
            Direction::LUpLeft1 => Direction::LDownRight1,
            Direction::LDownRight1 => Direction::LUpLeft1,
            Direction::LDownLeft1 => Direction::LUpRight1,
            Direction::LUpRight2 => Direction::LDownLeft2,
            Direction::LUpLeft2 => Direction::LDownRight2,
            Direction::LDownRight2 => Direction::LUpLeft2,
            Direction::LDownLeft2 => Direction::LUpRight2,
        }
    }

    /// Flipping a direction twice gives the direction back.
    pub proof fn lemma_flip_involution(d: Direction)
        ensures
            d.spec_flip().spec_flip() == d,
    {
    }

    /// A flipped direction is the geometric opposite: both components of the
    /// step change sign, and a knight jump stays a knight jump.
    pub proof fn lemma_flip_negates(d: Direction)
        ensures
            d.spec_flip().dx() == -d.dx(),
            d.spec_flip().dy() == -d.dy(),
            d.spec_flip().spec_is_knight() == d.spec_is_knight(),
    {
    }

    /// Every direction stands in [`Direction::all`], at the position given by
    /// its rank, and nowhere else.
    pub proof fn lemma_all_complete(d: Direction)
        ensures
            Direction::all().len() == 16,
            0 <= d.rank() < 16,
            Direction::all()[d.rank()] == d,
            forall|i: int| 0 <= i < 16 && Direction::all()[i] == d ==> i == d.rank(),
            d.spec_is_knight() <==> d.rank() >= 8,
    {
    }

    /// No step is the zero vector, and no component exceeds two squares.
    pub proof fn lemma_step_nonzero(d: Direction)
        ensures
            d.dx() != 0 || d.dy() != 0,
            -2 <= d.dx() <= 2,
            -2 <= d.dy() <= 2,
    {
    }
}

/// How far a path reaches: an exact number of steps, or as far as the board
/// and the pieces on it allow.
#[derive(PartialEq, Eq, Clone, Copy, Debug, Structural)]
pub enum Magnitude {
    Fixed(u32),
    Any,
}

/// A ray on the board: a direction and a reach.
#[derive(PartialEq, Eq, Clone, Copy, Debug, Structural)]
pub struct Path {
    pub magnitude: Magnitude,
    pub direction: Direction,
}

impl Path {
    /// The same reach in the opposite direction.
    pub open spec fn spec_flip(&self) -> Path {
        Path { magnitude: self.magnitude, direction: self.direction.spec_flip() }
    }

    /// Compatibility of two paths: the directions are the same, and the
    /// reaches agree or one of them is unbounded.
    pub open spec fn spec_is_equal_to(&self, other: &Path) -> bool {
        &&& self.direction == other.direction
        &&& (self.magnitude is Any || other.magnitude is Any || self.magnitude == other.magnitude)
    }

    /// The path between the ends of two fixed paths in one direction, if the
    /// two are such: its reach is the absolute difference of theirs.
    pub open spec fn difference(&self, other: &Path) -> Option<Path> {
        match (self.magnitude, other.magnitude) {
            (Magnitude::Fixed(x), Magnitude::Fixed(y)) if self.direction == other.direction => {
                let reach = if x >= y {
                    x - y
                } else {
                    y - x
                };
                Some(Path { magnitude: Magnitude::Fixed(reach as u32), direction: self.direction })
            },
            _ => None,
        }
    }

    /// Whether `k` steps are within the reach of the path.
    pub open spec fn within_reach(self, k: int) -> bool {
        match self.magnitude {
            Magnitude::Fixed(n) => 1 <= k <= n,
            Magnitude::Any => 1 <= k,
        }
    }

    /// Whether the path comes to `cell` with its `k`-th step from `origin`:
    /// the step is within its reach, and this step and every step before it
    /// lands on the board.
    pub open spec fn passes_at(self, origin: CellId, cell: CellId, k: int) -> bool {
        &&& self.within_reach(k)
        &&& origin.run_on_board(self.direction, k)
        &&& cell == origin.shifted(self.direction, k)
    }

    /// Whether `cell` is one of the cells that the path traverses from
    /// `origin` before it ends or leaves the board (the origin itself is not
    /// one of them).
    pub open spec fn passes(self, origin: CellId, cell: CellId) -> bool {
        exists|k: int| #[trigger] self.passes_at(origin, cell, k)
    }

    /// Whether `cells` lists, nearest first, the cells that a path of fixed
    /// reach traverses from `origin`: one for each step, up to the reach of
    /// the path or to the last step before the path leaves the board.
    pub open spec fn is_expansion(self, origin: CellId, cells: Seq<CellId>) -> bool {
        &&& self.magnitude matches Magnitude::Fixed(n)
        &&& cells.len() <= n
        &&& origin.run_on_board(self.direction, cells.len() as int)
        &&& cells.len() < n ==> !origin.lands_on_board(self.direction, cells.len() as int + 1)
        &&& forall|i: int|
            0 <= i < cells.len() ==> #[trigger] cells[i] == origin.shifted(self.direction, i + 1)
    }

    /// The same reach in the opposite direction.
    #[verifier::when_used_as_spec(spec_flip)]
    pub fn flip(&self) -> (f: Path)
        ensures
            f == self.spec_flip(),
    {
        Path { magnitude: self.magnitude, direction: self.direction.flip() }
    }

    /// Compatibility of two paths: the directions are the same, and the
    /// reaches agree or one of them is unbounded.
    #[verifier::when_used_as_spec(spec_is_equal_to)]
    pub fn is_equal_to(&self, other: &Path) -> (b: bool)
        ensures
            b == self.spec_is_equal_to(other),
    {
        let direction: bool = self.direction == other.direction;
        let magnitude: bool = match self.magnitude {
            Magnitude::Any => true,
            Magnitude::Fixed(_) => {
                if other.magnitude == Magnitude::Any {
                    true
                } else {
                    self.magnitude == other.magnitude
                }
            },
        };
        direction && magnitude
    }

    /// The path between the ends of two fixed paths that run in the same
    /// direction: its reach is the absolute difference of theirs. There is
    /// none when the directions differ or a reach is unbounded.
    pub fn same_direction_subtract(&self, other: &Path) -> (r: Option<Path>)
        ensures
            r == self.difference(other),
    {
        if self.direction != other.direction {
            return None;
        }
        let x: u32 = match self.magnitude {
            Magnitude::Fixed(n) => n,
            Magnitude::Any => return None,
        };
        let y: u32 = match other.magnitude {
            Magnitude::Fixed(n) => n,
            Magnitude::Any => return None,
        };
        let diff: u32 = if x >= y {
            x - y
        } else {
            y - x
        };
        Some(Path { direction: self.direction, magnitude: Magnitude::Fixed(diff) })
    }

    /// The cells that the path traverses from `origin`, nearest first, as far
    /// as it stays on the board. An unbounded path has no such list.
    pub fn get_cell_ids(self: &Path, origin: CellId) -> (r: Option<Vec<CellId>>)
        ensures
            self.magnitude is Any <==> r is None,
            r matches Some(cells) ==> self.is_expansion(origin, cells@),
    {
        let n: u32 = match self.magnitude {
            Magnitude::Any => {
                return None;
            },
            Magnitude::Fixed(f) => f,
        };
        let mut i: u32 = 0;
        let mut cells: Vec<CellId> = Vec::new();
        let mut temp = origin;
        let mut open = true;
        while open && i < n
            invariant
                i <= n,
                self.magnitude == Magnitude::Fixed(n),
                cells@.len() == i,
                forall|k: int|
                    0 <= k < i ==> #[trigger] cells@[k] == origin.shifted(self.direction, k + 1),
                temp == origin.shifted(self.direction, i as int),
                origin.run_on_board(self.direction, i as int),
                !open ==> i < n && !origin.lands_on_board(self.direction, i + 1),
            decreases
                    (if open {
                        n - i
                    } else {
                        0
                    }),
        {
            proof {
                CellId::lemma_step(origin, self.direction, i as int);
            }
            match temp.try_next_cellid(self.direction, 1) {
                None => {
                    open = false;
                },
                Some(new) => {
                    i += 1;
                    cells.push(new);
                    temp = new;
                },
            }
        }
        Some(cells)
    }

    /// Every path is compatible with itself.
    pub proof fn lemma_is_equal_to_reflexive(p: Path)
        ensures
            p.spec_is_equal_to(&p),
    {
    }

    /// An unbounded path is compatible with every path in the same
    /// direction, whichever of the two is asked.
    pub proof fn lemma_any_matches_every_magnitude(p: Path, q: Path)
        requires
            p.magnitude is Any,
            p.direction == q.direction,
        ensures
            p.spec_is_equal_to(&q),
            q.spec_is_equal_to(&p),
    {
    }

    /// Compatibility does not depend on the order of the two paths.
    pub proof fn lemma_is_equal_to_symmetric(p: Path, q: Path)
        ensures
            p.spec_is_equal_to(&q) == q.spec_is_equal_to(&p),
    {
    }

    /// Flipping a path twice gives the path back, and flipping keeps the
    /// reach.
    pub proof fn lemma_flip_involution(p: Path)
        ensures
            p.spec_flip().spec_flip() == p,
            p.spec_flip().magnitude == p.magnitude,
    {
    }

    /// A cell stands in the expansion of a path exactly if the path passes
    /// it.
    pub proof fn lemma_expansion_passes(p: Path, origin: CellId, cells: Seq<CellId>, cell: CellId)
        requires
            p.is_expansion(origin, cells),
        ensures
            cells.contains(cell) <==> p.passes(origin, cell),
    {
        if cells.contains(cell) {
            let i = choose|i: int| 0 <= i < cells.len() && cells[i] == cell;
            assert(p.passes_at(origin, cell, i + 1));
        }
        if p.passes(origin, cell) {
            let k = choose|k: int| #[trigger] p.passes_at(origin, cell, k);
            if k > cells.len() {
                assert(origin.lands_on_board(p.direction, cells.len() as int + 1));
            }
            assert(cells[k - 1] == cell);
        }
    }

    /// A path has one expansion from an origin and no other.
    pub proof fn lemma_expansion_unique(p: Path, origin: CellId, a: Seq<CellId>, b: Seq<CellId>)
        requires
            p.is_expansion(origin, a),
            p.is_expansion(origin, b),
        ensures
            a == b,
    {
        if a.len() < b.len() {
            assert(origin.lands_on_board(p.direction, a.len() as int + 1));
        }
        if b.len() < a.len() {
            assert(origin.lands_on_board(p.direction, b.len() as int + 1));
        }
        assert(a =~= b);
    }

}

} // verus!
