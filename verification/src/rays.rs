//! Walks along the rays of the board: which squares a piece comes to along a
//! path, and whether a square is attacked.
use crate::grid::{contains_cell, item_at, Cell, CellId, Grid};
use crate::path::{Direction, Magnitude, Path};
use crate::pieces::{PieceType, Side};
use vstd::prelude::*;

verus! {

/// Whether `k` steps in `direction` from `origin` end on an empty square of
/// the board.
pub open spec fn vacant_at(board: Seq<Cell>, origin: CellId, direction: Direction, k: int) -> bool {
    origin.lands_on_board(direction, k) && item_at(board, origin.shifted(direction, k)) is None
}

/// Whether a piece of `side` that walks `path` from `origin` comes to `dest`
/// with its `n`-th step: the step is within the reach of the path and on the
/// board, every square before it is empty, and `dest` itself is empty, where
/// the walk is one of travel (`quiet`), or holds a piece of the other side,
/// where it is one of capture.
pub open spec fn reaches_in(
    board: Seq<Cell>,
    side: Side,
    origin: CellId,
    path: Path,
    quiet: bool,
    capture: bool,
    dest: CellId,
    n: int,
) -> bool {
    &&& path.within_reach(n)
    &&& origin.lands_on_board(path.direction, n)
    &&& dest == origin.shifted(path.direction, n)
    &&& forall|k: int| 1 <= k < n ==> #[trigger] vacant_at(board, origin, path.direction, k)
    &&& match item_at(board, dest) {
        None => quiet,
        Some(other) => capture && other.side != side,
    }
}

/// Whether a piece of `side` that walks `path` from `origin` comes to `dest`.
pub open spec fn reaches(
    board: Seq<Cell>,
    side: Side,
    origin: CellId,
    path: Path,
    quiet: bool,
    capture: bool,
    dest: CellId,
) -> bool {
    exists|n: int| #[trigger] reaches_in(board, side, origin, path, quiet, capture, dest, n)
}

/// Whether one of `paths` brings a piece of `side` from `origin` to `dest`.
pub open spec fn reaches_by_any(
    board: Seq<Cell>,
    side: Side,
    origin: CellId,
    paths: Seq<Path>,
    quiet: bool,
    capture: bool,
    dest: CellId,
) -> bool {
    exists|i: int|
        0 <= i < paths.len() && reaches(
            board,
            side,
            origin,
            #[trigger] paths[i],
            quiet,
            capture,
            dest,
        )
}

/// Whether an attack on `origin` can pass over the square `k` steps away:
/// the square is on the board, and empty but for the king of `side`, who is
/// looked through because he is the one who would move.
pub open spec fn see_through(
    board: Seq<Cell>,
    side: Side,
    origin: CellId,
    direction: Direction,
    k: int,
) -> bool {
    &&& origin.lands_on_board(direction, k)
    &&& match item_at(board, origin.shifted(direction, k)) {
        None => true,
        Some(piece) => piece.side == side && piece.piece_type == PieceType::King,
    }
}

/// Whether a piece of the other side than `side` attacks `origin` from `n`
/// steps away in `direction`: it stands there with a line of sight back
/// along the ray, and nothing but the king of `side` stands in between. Along
/// a knight jump only the first square counts.
pub open spec fn attacked_from(
    board: Seq<Cell>,
    side: Side,
    origin: CellId,
    direction: Direction,
    n: int,
) -> bool {
    &&& 1 <= n
    &&& direction.spec_is_knight() ==> n == 1
    &&& origin.lands_on_board(direction, n)
    &&& forall|k: int| 1 <= k < n ==> #[trigger] see_through(board, side, origin, direction, k)
    &&& item_at(board, origin.shifted(direction, n)) matches Some(enemy) && enemy.side != side
        && enemy.sees(
        (Path { magnitude: Magnitude::Fixed(n as u32), direction }).spec_flip(),
    )
}

/// Whether a piece of the other side than `side` attacks `origin` along
/// `direction`.
pub open spec fn attacked_along_ray(
    board: Seq<Cell>,
    side: Side,
    origin: CellId,
    direction: Direction,
) -> bool {
    exists|n: int| #[trigger] attacked_from(board, side, origin, direction, n)
}

/// Whether a piece of the other side than `side` attacks `origin`.
pub open spec fn attacked(board: Seq<Cell>, side: Side, origin: CellId) -> bool {
    exists|direction: Direction| #[trigger] attacked_along_ray(board, side, origin, direction)
}

/// A run of steps that is on the board at its first and at its `n`-th step
/// has at most eight steps.
pub proof fn lemma_run_short(origin: CellId, direction: Direction, n: int)
    requires
        1 <= n,
        origin.lands_on_board(direction, 1),
        origin.lands_on_board(direction, n),
    ensures
        n <= 8,
{
    let dx = direction.dx();
    let dy = direction.dy();
    Direction::lemma_step_nonzero(direction);
    assert((dx >= 1 ==> dx * n - dx * 1 >= n - 1) && (dx <= -1 ==> dx * n - dx * 1 <= 1 - n))
        by (nonlinear_arith)
        requires
            1 <= n,
    ;
    assert((dy >= 1 ==> dy * n - dy * 1 >= n - 1) && (dy <= -1 ==> dy * n - dy * 1 <= 1 - n))
        by (nonlinear_arith)
        requires
            1 <= n,
    ;
}

/// Adds `id` to `cells` unless it is there already.
pub fn push_unique(cells: &mut Vec<CellId>, id: CellId)
    requires
        old(cells)@.no_duplicates(),
    ensures
        final(cells)@.no_duplicates(),
        final(cells)@ == if old(cells)@.contains(id) {
            old(cells)@
        } else {
            old(cells)@.push(id)
        },
        forall|c: CellId| final(cells)@.contains(c) <==> old(cells)@.contains(c) || c == id,
{
    if !contains_cell(cells.as_slice(), id) {
        cells.push(id);
        proof {
            let before = old(cells)@;
            let after = cells@;
            assert forall|c: CellId| after.contains(c) <==> before.contains(c) || c == id by {
                if before.contains(c) {
                    let i = choose|i: int| 0 <= i < before.len() && before[i] == c;
                    assert(after[i] == c);
                }
                if c == id {
                    assert(after[before.len() as int] == c);
                }
            }
        }
    }
}

/// Whether a piece of the other side than `side` attacks `from` along
/// `direction`.
pub fn attacked_along(grid: &Grid, side: Side, from: CellId, direction: Direction) -> (hit: bool)
    requires
        grid.wf(),
    ensures
        hit == attacked_along_ray(grid@, side, from, direction),
{
    let knight = direction.is_knight();
    let mut current = from;
    let mut n: u32 = 0;
    let mut hit = false;
    let mut open = true;
    while open
        invariant
            grid.wf(),
            knight == direction.spec_is_knight(),
            n <= 8,
            n == 0 || from.lands_on_board(direction, n as int),
            current == from.shifted(direction, n as int),
            open ==> forall|k: int|
                1 <= k <= n ==> #[trigger] see_through(grid@, side, from, direction, k),
            open ==> !hit,
            open && knight ==> n == 0,
            !open ==> hit == attacked_along_ray(grid@, side, from, direction),
        decreases
                (if open {
                    9 - n
                } else {
                    0
                }),
    {
        proof {
            CellId::lemma_step(from, direction, n as int);
        }
        match current.try_next_cellid(direction, 1) {
            None => {
                open = false;
                proof {
                    assert(!see_through(grid@, side, from, direction, n + 1));
                    assert forall|m: int| !#[trigger] attacked_from(
                        grid@,
                        side,
                        from,
                        direction,
                        m,
                    ) by {
                        if attacked_from(grid@, side, from, direction, m) {
                            if m <= n {
                                assert(see_through(grid@, side, from, direction, m));
                            } else if m > n + 1 {
                                assert(see_through(grid@, side, from, direction, n + 1));
                            }
                        }
                    }
                }
            },
            Some(id) => {
                proof {
                    assert(from.lands_on_board(direction, 1)) by {
                        if n >= 1 {
                            assert(see_through(grid@, side, from, direction, 1));
                        }
                    }
                    lemma_run_short(from, direction, n + 1);
                }
                n += 1;
                current = id;
                let ghost step = n as int;
                let cell = grid.get_cell(&id);
                let passes = match &cell.item {
                    None => !knight,
                    Some(piece) => {
                        if piece.side == side {
                            piece.piece_type == PieceType::King && !knight
                        } else {
                            let back = Path { magnitude: Magnitude::Fixed(n), direction };
                            hit = piece.has_line_of_sight(&back.flip());
                            false
                        }
                    },
                };
                if !passes {
                    open = false;
                    proof {
                        assert forall|m: int| #[trigger]
                            attacked_from(grid@, side, from, direction, m) implies m == step by {
                            if m < step {
                                assert(see_through(grid@, side, from, direction, m));
                            } else if m > step {
                                if !knight {
                                    assert(see_through(grid@, side, from, direction, step));
                                }
                            }
                        }
                        if hit {
                            assert(attacked_from(grid@, side, from, direction, step));
                        }
                    }
                } else {
                    assert(see_through(grid@, side, from, direction, step));
                }
            },
        }
    }
    hit
}

/// Whether a piece of the other side than `side` attacks `from`.
pub fn is_attacked(grid: &Grid, side: Side, from: CellId) -> (hit: bool)
    requires
        grid.wf(),
    ensures
        hit == attacked(grid@, side, from),
{
    let directions = Direction::iterator();
    let mut i: usize = 0;
    while i < 16
        invariant
            grid.wf(),
            i <= 16,
            directions@ == Direction::all(),
            forall|j: int|
                0 <= j < i ==> !attacked_along_ray(grid@, side, from, #[trigger] directions@[j]),
        decreases 16 - i,
    {
        if attacked_along(grid, side, from, directions[i]) {
            return true;
        }
        i += 1;
    }
    proof {
        assert forall|direction: Direction| !#[trigger] attacked_along_ray(
            grid@,
            side,
            from,
            direction,
        ) by {
            Direction::lemma_all_complete(direction);
            assert(directions@[direction.rank()] == direction);
        }
    }
    false
}

/// Whether a piece of `side` that walks `path` from `origin` comes to `dest`
/// with one of its first `limit` steps.
pub open spec fn reaches_within(
    board: Seq<Cell>,
    side: Side,
    origin: CellId,
    path: Path,
    quiet: bool,
    capture: bool,
    dest: CellId,
    limit: int,
) -> bool {
    exists|n: int|
        1 <= n <= limit && #[trigger] reaches_in(board, side, origin, path, quiet, capture, dest, n)
}

/// Walks `path` from `origin` for a piece of `side` and adds to `found` every
/// square that the walk comes to: the empty squares of a walk of travel
/// (`quiet`), and the first occupied square of a walk of capture, if the
/// piece on it is of the other side. The walk ends at the reach of the path,
/// at the edge of the board, or at the first occupied square.
pub fn walk_path(
    grid: &Grid,
    side: Side,
    origin: CellId,
    path: &Path,
    quiet: bool,
    capture: bool,
    found: &mut Vec<CellId>,
)
    requires
        grid.wf(),
        old(found)@.no_duplicates(),
    ensures
        final(found)@.no_duplicates(),
        forall|c: CellId|
            final(found)@.contains(c) <==> old(found)@.contains(c) || reaches(
                grid@,
                side,
                origin,
                *path,
                quiet,
                capture,
                c,
            ),
{
    let direction = path.direction;
    let max: u32 = match path.magnitude {
        Magnitude::Any => 10,
        Magnitude::Fixed(f) => f,
    };
    let mut current = origin;
    let mut n: u32 = 0;
    let mut open = true;
    while open && n < max
        invariant
            grid.wf(),
            direction == path.direction,
            max == match path.magnitude {
                Magnitude::Any => 10u32,
                Magnitude::Fixed(f) => f,
            },
            n <= max,
            n <= 8,
            n == 0 || origin.lands_on_board(direction, n as int),
            current == origin.shifted(direction, n as int),
            open ==> forall|k: int|
                1 <= k <= n ==> #[trigger] vacant_at(grid@, origin, direction, k),
            found@.no_duplicates(),
            forall|c: CellId|
                found@.contains(c) <==> old(found)@.contains(c) || reaches_within(
                    grid@,
                    side,
                    origin,
                    *path,
                    quiet,
                    capture,
                    c,
                    n as int,
                ),
            !open ==> forall|c: CellId, m: int|
                m > n ==> !#[trigger] reaches_in(grid@, side, origin, *path, quiet, capture, c, m),
        decreases
                (if open {
                    max - n
                } else {
                    0
                }),
    {
        proof {
            CellId::lemma_step(origin, direction, n as int);
        }
        match current.try_next_cellid(direction, 1) {
            None => {
                open = false;
                proof {
                    assert(!vacant_at(grid@, origin, direction, n + 1));
                    assert forall|c: CellId, m: int| m > n implies !#[trigger] reaches_in(
                        grid@,
                        side,
                        origin,
                        *path,
                        quiet,
                        capture,
                        c,
                        m,
                    ) by {
                        if m > n + 1 && reaches_in(
                            grid@,
                            side,
                            origin,
                            *path,
                            quiet,
                            capture,
                            c,
                            m,
                        ) {
                            assert(vacant_at(grid@, origin, direction, n + 1));
                        }
                    }
                }
            },
            Some(id) => {
                proof {
                    assert(origin.lands_on_board(direction, 1)) by {
                        if n >= 1 {
                            assert(vacant_at(grid@, origin, direction, 1));
                        }
                    }
                    lemma_run_short(origin, direction, n + 1);
                }
                let ghost before = found@;
                let ghost walked = n as int;
                n += 1;
                current = id;
                let ghost step = n as int;
                let cell = grid.get_cell(&id);
                let mut add = false;
                match &cell.item {
                    None => {
                        add = quiet;
                    },
                    Some(piece) => {
                        add = capture && piece.side != side;
                        open = false;
                    },
                }
                if add {
                    push_unique(found, id);
                }
                proof {
                    assert(path.within_reach(step));
                    assert(add == reaches_in(grid@, side, origin, *path, quiet, capture, id, step));
                    assert forall|c: CellId|
                        found@.contains(c) <==> old(found)@.contains(c) || reaches_within(
                            grid@,
                            side,
                            origin,
                            *path,
                            quiet,
                            capture,
                            c,
                            step,
                        ) by {
                        let now = reaches_within(
                            grid@,
                            side,
                            origin,
                            *path,
                            quiet,
                            capture,
                            c,
                            step,
                        );
                        let then = reaches_within(
                            grid@,
                            side,
                            origin,
                            *path,
                            quiet,
                            capture,
                            c,
                            walked,
                        );
                        let last = reaches_in(grid@, side, origin, *path, quiet, capture, c, step);
                        assert(last ==> c == id);
                        assert(then ==> now);
                        assert(last ==> now);
                        if now && !then {
                            let m = choose|m: int|
                                1 <= m <= step && #[trigger] reaches_in(
                                    grid@,
                                    side,
                                    origin,
                                    *path,
                                    quiet,
                                    capture,
                                    c,
                                    m,
                                );
                            assert(m == step);
                        }
                        assert(found@.contains(c) <==> before.contains(c) || (add && c == id));
                    }
                    if !open {
                        assert(!vacant_at(grid@, origin, direction, step));
                        assert forall|c: CellId, m: int| m > step implies !#[trigger] reaches_in(
                            grid@,
                            side,
                            origin,
                            *path,
                            quiet,
                            capture,
                            c,
                            m,
                        ) by {
                            if reaches_in(grid@, side, origin, *path, quiet, capture, c, m) {
                                assert(vacant_at(grid@, origin, direction, step));
                            }
                        }
                    } else {
                        assert(vacant_at(grid@, origin, direction, step));
                    }
                }
            },
        }
    }
    proof {
        assert forall|c: CellId|
            reaches(grid@, side, origin, *path, quiet, capture, c) implies reaches_within(
            grid@,
            side,
            origin,
            *path,
            quiet,
            capture,
            c,
            n as int,
        ) by {
            let m = choose|m: int| #[trigger]
                reaches_in(grid@, side, origin, *path, quiet, capture, c, m);
            if m > n {
                assert(open);
                if n >= 1 {
                    assert(vacant_at(grid@, origin, direction, 1));
                } else {
                    assert(m >= 1);
                }
            }
            assert(m <= n);
        }
    }
}

/// Walks each of `paths` from `origin` for a piece of `side`, as
/// [`walk_path`] does one, and adds to `found` every square that one of the
/// walks comes to.
pub fn walk_paths(
    grid: &Grid,
    side: Side,
    origin: CellId,
    paths: &Vec<Path>,
    quiet: bool,
    capture: bool,
    found: &mut Vec<CellId>,
)
    requires
        grid.wf(),
        old(found)@.no_duplicates(),
    ensures
        final(found)@.no_duplicates(),
        forall|c: CellId|
            final(found)@.contains(c) <==> old(found)@.contains(c) || reaches_by_any(
                grid@,
                side,
                origin,
                paths@,
                quiet,
                capture,
                c,
            ),
{
    let mut i: usize = 0;
    while i < paths.len()
        invariant
            grid.wf(),
            i <= paths@.len(),
            found@.no_duplicates(),
            forall|c: CellId|
                found@.contains(c) <==> old(found)@.contains(c) || reaches_by_any(
                    grid@,
                    side,
                    origin,
                    paths@.take(i as int),
                    quiet,
                    capture,
                    c,
                ),
        decreases paths@.len() - i,
    {
        walk_path(grid, side, origin, &paths[i], quiet, capture, found);
        proof {
            let done = paths@.take(i as int);
            let more = paths@.take(i + 1);
            assert forall|c: CellId|
                found@.contains(c) <==> old(found)@.contains(c) || reaches_by_any(
                    grid@,
                    side,
                    origin,
                    more,
                    quiet,
                    capture,
                    c,
                ) by {
                if reaches_by_any(grid@, side, origin, done, quiet, capture, c) {
                    let j = choose|j: int|
                        0 <= j < done.len() && reaches(
                            grid@,
                            side,
                            origin,
                            #[trigger] done[j],
                            quiet,
                            capture,
                            c,
                        );
                    assert(more[j] == done[j]);
                }
                if reaches(grid@, side, origin, paths@[i as int], quiet, capture, c) {
                    assert(more[i as int] == paths@[i as int]);
                }
                if reaches_by_any(grid@, side, origin, more, quiet, capture, c) {
                    let j = choose|j: int|
                        0 <= j < more.len() && reaches(
                            grid@,
                            side,
                            origin,
                            #[trigger] more[j],
                            quiet,
                            capture,
                            c,
                        );
                    if j < i {
                        assert(done[j] == more[j]);
                    }
                }
            }
        }
        i += 1;
    }
    assert(paths@.take(i as int) =~= paths@);
}

} // verus!
