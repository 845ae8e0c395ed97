//! The analysis of a position for one king: the rays along which he is in
//! check, and the pieces of his side that are pinned against him.
use crate::grid::{board_wf, item_at, Cell, CellId, Grid};
use crate::path::{Direction, Magnitude, Path};
use crate::pieces::{PieceType, Side};
use crate::rays::{
    attacked, attacked_along_ray, attacked_from, lemma_run_short, see_through, vacant_at,
};
use crate::turn::{board_after_move, lifted};
use vstd::prelude::*;

verus! {

/// Whether the king of `side` on `king` is in check from `n` steps away in
/// `direction`: the first piece on the ray stands there, is of the other
/// side, and has a line of sight back along the ray. Along a knight jump
/// only the first square counts.
pub open spec fn check_at(
    board: Seq<Cell>,
    side: Side,
    king: CellId,
    direction: Direction,
    n: int,
) -> bool {
    &&& 1 <= n
    &&& direction.spec_is_knight() ==> n == 1
    &&& king.lands_on_board(direction, n)
    &&& forall|k: int| 1 <= k < n ==> #[trigger] vacant_at(board, king, direction, k)
    &&& item_at(board, king.shifted(direction, n)) matches Some(enemy) && enemy.side != side
        && enemy.sees(
        (Path { magnitude: Magnitude::Fixed(n as u32), direction }).spec_flip(),
    )
}

/// Whether a piece of `side`, `m` steps from its king on `king` in a
/// queen-like `direction`, is pinned by a piece `n` steps from the king: it
/// is the first piece on the ray, the next piece on the ray stands `n` steps
/// off, is of the other side, and has a line of sight back along the ray.
pub open spec fn pin_at(
    board: Seq<Cell>,
    side: Side,
    king: CellId,
    direction: Direction,
    m: int,
    n: int,
) -> bool {
    &&& !direction.spec_is_knight()
    &&& 1 <= m < n
    &&& king.lands_on_board(direction, n)
    &&& forall|k: int| 1 <= k < n && k != m ==> #[trigger] vacant_at(board, king, direction, k)
    &&& king.lands_on_board(direction, m)
    &&& item_at(board, king.shifted(direction, m)) matches Some(shield) && shield.side == side
    &&& item_at(board, king.shifted(direction, n)) matches Some(enemy) && enemy.side != side
        && enemy.sees(
        (Path { magnitude: Magnitude::Fixed(n as u32), direction }).spec_flip(),
    )
}

/// The ray from the king to the piece that gives check along `direction`, if
/// there is one.
pub open spec fn ray_check(
    board: Seq<Cell>,
    side: Side,
    king: CellId,
    direction: Direction,
) -> Option<Path> {
    if exists|n: int| #[trigger] check_at(board, side, king, direction, n) {
        let n = choose|n: int| #[trigger] check_at(board, side, king, direction, n);
        Some(Path { magnitude: Magnitude::Fixed(n as u32), direction })
    } else {
        None
    }
}

/// The piece pinned against the king along `direction`, if there is one:
/// its cell, and the ray from that cell to the piece that pins it.
pub open spec fn ray_pin(
    board: Seq<Cell>,
    side: Side,
    king: CellId,
    direction: Direction,
) -> Option<(CellId, Path)> {
    if exists|m: int, n: int| #[trigger] pin_at(board, side, king, direction, m, n) {
        let (m, n) = choose|m: int, n: int| #[trigger] pin_at(board, side, king, direction, m, n);
        Some(
            (
                king.shifted(direction, m),
                Path { magnitude: Magnitude::Fixed((n - m) as u32), direction },
            ),
        )
    } else {
        None
    }
}

/// The checks found along the first `i` directions, in the order of the
/// directions.
pub open spec fn checks_upto(board: Seq<Cell>, side: Side, king: CellId, i: int) -> Seq<Path>
    decreases i,
{
    if i <= 0 {
        Seq::empty()
    } else {
        let before = checks_upto(board, side, king, i - 1);
        match ray_check(board, side, king, Direction::all()[i - 1]) {
            Some(path) => before.push(path),
            None => before,
        }
    }
}

/// The pins found along the first `i` directions, in the order of the
/// directions.
pub open spec fn pins_upto(board: Seq<Cell>, side: Side, king: CellId, i: int) -> Seq<
    (CellId, Path),
>
    decreases i,
{
    if i <= 0 {
        Seq::empty()
    } else {
        let before = pins_upto(board, side, king, i - 1);
        match ray_pin(board, side, king, Direction::all()[i - 1]) {
            Some(pin) => before.push(pin),
            None => before,
        }
    }
}

/// Whether the king of `side` stands on the square `king` of the board.
pub open spec fn king_in_place(board: Seq<Cell>, side: Side, king: CellId) -> bool {
    &&& king.spec_is_valid()
    &&& item_at(board, king) matches Some(piece)
    &&& piece.piece_type == PieceType::King
    &&& piece.side == side
}

/// Looks from the king of `side` on `king_cell` along `direction` and says
/// what it finds: the ray of a check, or a pinned piece with the ray from it
/// to the piece that pins it. At most one of the two is found.
pub fn scan_ray(grid: &Grid, side: Side, king_cell: CellId, direction: Direction) -> (found: (
    Option<Path>,
    Option<(CellId, Path)>,
))
    requires
        grid.wf(),
    ensures
        found.0 == ray_check(grid@, side, king_cell, direction),
        found.1 == ray_pin(grid@, side, king_cell, direction),
{
    let knight = direction.is_knight();
    let mut check: Option<Path> = None;
    let mut pin: Option<(CellId, Path)> = None;
    let mut temp: Option<(CellId, Path)> = None;
    let ghost mut shield: int = 0;
    let mut current_cell = king_cell;
    let mut n: u32 = 0;
    let mut open = true;
    while open
        invariant
            grid.wf(),
            knight == direction.spec_is_knight(),
            n <= 8,
            n == 0 || king_cell.lands_on_board(direction, n as int),
            current_cell == king_cell.shifted(direction, n as int),
            open ==> check is None && pin is None,
            open && knight ==> n == 0,
            open && temp is None ==> forall|k: int|
                1 <= k <= n ==> #[trigger] vacant_at(grid@, king_cell, direction, k),
            open ==> (temp matches Some((cell, path)) ==> {
                &&& !knight
                &&& 1 <= shield <= n
                &&& cell == king_cell.shifted(direction, shield)
                &&& path == Path { magnitude: Magnitude::Fixed(shield as u32), direction }
                &&& king_cell.lands_on_board(direction, shield)
                &&& item_at(grid@, cell) matches Some(piece) && piece.side == side
                &&& forall|k: int|
                    1 <= k <= n && k != shield ==> #[trigger] vacant_at(
                        grid@,
                        king_cell,
                        direction,
                        k,
                    )
            }),
            !open ==> check == ray_check(grid@, side, king_cell, direction),
            !open ==> pin == ray_pin(grid@, side, king_cell, direction),
        decreases
                (if open {
                    9 - n
                } else {
                    0
                }),
    {
        proof {
            CellId::lemma_step(king_cell, direction, n as int);
        }
        match current_cell.try_next_cellid(direction, 1) {
            None => {
                open = false;
                proof {
                    assert(!vacant_at(grid@, king_cell, direction, n + 1));
                    lemma_nothing_beyond(
                        grid@,
                        side,
                        king_cell,
                        direction,
                        n as int,
                        shield,
                        temp is Some,
                    );
                }
            },
            Some(id) => {
                proof {
                    assert(king_cell.lands_on_board(direction, 1)) by {
                        if n >= 1 {
                            if temp is Some && shield == 1 {
                            } else {
                                assert(vacant_at(grid@, king_cell, direction, 1));
                            }
                        }
                    }
                    lemma_run_short(king_cell, direction, n + 1);
                }
                n += 1;
                current_cell = id;
                let ghost step = n as int;
                match &grid.get_cell(&id).item {
                    None => {
                        assert(vacant_at(grid@, king_cell, direction, step));
                        if knight {
                            open = false;
                            proof {
                                lemma_nothing_beyond(
                                    grid@,
                                    side,
                                    king_cell,
                                    direction,
                                    1,
                                    0,
                                    false,
                                );
                            }
                        }
                    },
                    Some(piece) => {
                        let path = Path { magnitude: Magnitude::Fixed(n), direction };
                        if piece.side == side {
                            match temp {
                                Some(_) => {
                                    open = false;
                                    proof {
                                        lemma_blocked_at(
                                            grid@,
                                            side,
                                            king_cell,
                                            direction,
                                            shield,
                                            step,
                                        );
                                    }
                                },
                                None => {
                                    if knight {
                                        open = false;
                                        proof {
                                            lemma_blocked_at(
                                                grid@,
                                                side,
                                                king_cell,
                                                direction,
                                                0,
                                                step,
                                            );
                                        }
                                    } else {
                                        temp = Some((current_cell, path));
                                        proof {
                                            shield = step;
                                        }
                                    }
                                },
                            }
                        } else {
                            let seen = piece.has_line_of_sight(&path.flip());
                            match temp {
                                Some(shielded) => {
                                    if seen {
                                        match path.same_direction_subtract(&shielded.1) {
                                            Some(path_from_pinned) => {
                                                pin = Some((shielded.0, path_from_pinned));
                                            },
                                            None => {},
                                        }
                                    }
                                    proof {
                                        lemma_second_piece(
                                            grid@,
                                            side,
                                            king_cell,
                                            direction,
                                            shield,
                                            step,
                                        );
                                    }
                                },
                                None => {
                                    if seen {
                                        check = Some(path);
                                    }
                                    proof {
                                        lemma_first_piece(grid@, side, king_cell, direction, step);
                                    }
                                },
                            }
                            open = false;
                        }
                    },
                }
            },
        }
    }
    (check, pin)
}

/// Where the ray leaves the board after `n` steps that met no piece, or none
/// but a shield `shield` steps off, or where a knight jump met nothing,
/// there is neither check nor pin along it.
proof fn lemma_nothing_beyond(
    board: Seq<Cell>,
    side: Side,
    king: CellId,
    direction: Direction,
    n: int,
    shield: int,
    shielded: bool,
)
    requires
        0 <= n,
        shielded ==> 1 <= shield <= n,
        shielded ==> (item_at(board, king.shifted(direction, shield)) matches Some(piece)
            && piece.side == side),
        forall|k: int|
            1 <= k <= n && !(shielded && k == shield) ==> #[trigger] vacant_at(
                board,
                king,
                direction,
                k,
            ),
        !vacant_at(board, king, direction, n + 1) && !king.lands_on_board(direction, n + 1)
            || direction.spec_is_knight() && n == 1 && !shielded,
    ensures
        ray_check(board, side, king, direction) is None,
        ray_pin(board, side, king, direction) is None,
{
    assert forall|c: int| !#[trigger] check_at(board, side, king, direction, c) by {
        if check_at(board, side, king, direction, c) {
            if c <= n {
                if shielded && c > shield {
                    assert(vacant_at(board, king, direction, shield));
                } else if !(shielded && c == shield) {
                    assert(vacant_at(board, king, direction, c));
                }
            } else if c > n + 1 {
                assert(vacant_at(board, king, direction, n + 1));
            }
        }
    }
    assert forall|a: int, b: int| !#[trigger] pin_at(board, side, king, direction, a, b) by {
        if pin_at(board, side, king, direction, a, b) {
            if b <= n {
                if !(shielded && b == shield) {
                    assert(vacant_at(board, king, direction, b));
                }
            } else if b > n + 1 {
                if a != n + 1 {
                    assert(vacant_at(board, king, direction, n + 1));
                }
            }
            if a <= n && !(shielded && a == shield) {
                assert(vacant_at(board, king, direction, a));
            }
        }
    }
}

/// Where the ray meets, `step` steps off, a piece of the king's own side
/// behind a shield (or, along a knight jump, at its first square), there is
/// neither check nor pin along it.
proof fn lemma_blocked_at(
    board: Seq<Cell>,
    side: Side,
    king: CellId,
    direction: Direction,
    shield: int,
    step: int,
)
    requires
        0 <= shield < step,
        shield == 0 ==> direction.spec_is_knight() && step == 1,
        shield > 0 ==> (item_at(board, king.shifted(direction, shield)) matches Some(piece)
            && piece.side == side),
        king.lands_on_board(direction, step),
        item_at(board, king.shifted(direction, step)) matches Some(piece) && piece.side == side,
        forall|k: int|
            1 <= k < step && k != shield ==> #[trigger] vacant_at(board, king, direction, k),
    ensures
        ray_check(board, side, king, direction) is None,
        ray_pin(board, side, king, direction) is None,
{
    assert forall|c: int| !#[trigger] check_at(board, side, king, direction, c) by {
        if check_at(board, side, king, direction, c) {
            if c < step && c != shield {
                assert(vacant_at(board, king, direction, c));
            } else if c > step {
                assert(vacant_at(board, king, direction, step));
            }
        }
    }
    assert forall|a: int, b: int| !#[trigger] pin_at(board, side, king, direction, a, b) by {
        if pin_at(board, side, king, direction, a, b) {
            if b < step && b != shield {
                assert(vacant_at(board, king, direction, b));
            } else if b > step {
                if a != step {
                    assert(vacant_at(board, king, direction, step));
                } else if shield > 0 {
                    assert(vacant_at(board, king, direction, shield));
                }
            }
        }
    }
}

/// Where the first piece on the ray stands `step` steps off and is of the
/// other side, the ray holds a check exactly if that piece sees the king,
/// and no pin.
proof fn lemma_first_piece(
    board: Seq<Cell>,
    side: Side,
    king: CellId,
    direction: Direction,
    step: int,
)
    requires
        1 <= step <= 8,
        direction.spec_is_knight() ==> step == 1,
        king.lands_on_board(direction, step),
        item_at(board, king.shifted(direction, step)) matches Some(piece) && piece.side != side,
        forall|k: int| 1 <= k < step ==> #[trigger] vacant_at(board, king, direction, k),
    ensures
        ray_check(board, side, king, direction) == if item_at(
            board,
            king.shifted(direction, step),
        )->Some_0.sees(
            (Path { magnitude: Magnitude::Fixed(step as u32), direction }).spec_flip(),
        ) {
            Some(Path { magnitude: Magnitude::Fixed(step as u32), direction })
        } else {
            None
        },
        ray_pin(board, side, king, direction) is None,
{
    assert forall|c: int| #[trigger] check_at(board, side, king, direction, c) implies c
        == step by {
        if c < step {
            assert(vacant_at(board, king, direction, c));
        } else if c > step {
            assert(vacant_at(board, king, direction, step));
        }
    }
    assert forall|a: int, b: int| !#[trigger] pin_at(board, side, king, direction, a, b) by {
        if pin_at(board, side, king, direction, a, b) {
            if a < step {
                assert(vacant_at(board, king, direction, a));
            } else if a > step {
                assert(vacant_at(board, king, direction, step));
            }
        }
    }
    if item_at(board, king.shifted(direction, step))->Some_0.sees(
        (Path { magnitude: Magnitude::Fixed(step as u32), direction }).spec_flip(),
    ) {
        assert(check_at(board, side, king, direction, step));
    }
}

/// Where the first piece on a queen-like ray is a shield of the king's own
/// side and the second, `step` steps off, is of the other side, the ray
/// holds a pin exactly if that piece sees the king, and no check.
proof fn lemma_second_piece(
    board: Seq<Cell>,
    side: Side,
    king: CellId,
    direction: Direction,
    shield: int,
    step: int,
)
    requires
        !direction.spec_is_knight(),
        1 <= shield < step <= 8,
        king.lands_on_board(direction, shield),
        king.lands_on_board(direction, step),
        item_at(board, king.shifted(direction, shield)) matches Some(piece) && piece.side == side,
        item_at(board, king.shifted(direction, step)) matches Some(piece) && piece.side != side,
        forall|k: int|
            1 <= k < step && k != shield ==> #[trigger] vacant_at(board, king, direction, k),
    ensures
        ray_check(board, side, king, direction) is None,
        ray_pin(board, side, king, direction) == if item_at(
            board,
            king.shifted(direction, step),
        )->Some_0.sees(
            (Path { magnitude: Magnitude::Fixed(step as u32), direction }).spec_flip(),
        ) {
            Some(
                (
                    king.shifted(direction, shield),
                    Path { magnitude: Magnitude::Fixed((step - shield) as u32), direction },
                ),
            )
        } else {
            None
        },
{
    assert forall|c: int| !#[trigger] check_at(board, side, king, direction, c) by {
        if check_at(board, side, king, direction, c) {
            if c < step && c != shield {
                assert(vacant_at(board, king, direction, c));
            } else if c > step {
                assert(vacant_at(board, king, direction, step));
            } else if c == step {
                assert(vacant_at(board, king, direction, shield));
            }
        }
    }
    assert forall|a: int, b: int| #[trigger] pin_at(board, side, king, direction, a, b) implies a
        == shield && b == step by {
        if a != shield {
            if a < step {
                assert(vacant_at(board, king, direction, a));
            } else {
                assert(vacant_at(board, king, direction, shield));
            }
        }
        if b < step {
            assert(vacant_at(board, king, direction, b));
        } else if b > step {
            assert(vacant_at(board, king, direction, step));
        }
    }
    if item_at(board, king.shifted(direction, step))->Some_0.sees(
        (Path { magnitude: Magnitude::Fixed(step as u32), direction }).spec_flip(),
    ) {
        assert(pin_at(board, side, king, direction, shield, step));
    }
}

/// Every pinned piece that the analysis lists stands on the board, on a ray
/// from its king, and the ray noted for it has a fixed reach and runs along
/// that ray.
pub proof fn lemma_pins_on_board(board: Seq<Cell>, side: Side, king: CellId, i: int)
    ensures
        forall|j: int|
            0 <= j < pins_upto(board, side, king, i).len() ==> {
                let (cell, path) = #[trigger] pins_upto(board, side, king, i)[j];
                &&& cell.spec_is_valid()
                &&& 0 <= cell.index() < 64
                &&& path.magnitude matches Magnitude::Fixed(reach) && reach >= 1
                &&& exists|m: int|
                    king.lands_on_board(path.direction, m) && cell == #[trigger] king.shifted(
                        path.direction,
                        m,
                    )
            },
    decreases i,
{
    if i > 0 {
        lemma_pins_on_board(board, side, king, i - 1);
        let direction = Direction::all()[i - 1];
        let before = pins_upto(board, side, king, i - 1);
        let now = pins_upto(board, side, king, i);
        if ray_pin(board, side, king, direction) is Some {
            let (m, n) = choose|m: int, n: int| #[trigger]
                pin_at(board, side, king, direction, m, n);
            assert(now == before.push(ray_pin(board, side, king, direction)->Some_0));
            assert(king.lands_on_board(direction, 1)) by {
                if m > 1 {
                    assert(vacant_at(board, king, direction, 1));
                }
            }
            lemma_run_short(king, direction, n);
            assert forall|j: int| 0 <= j < now.len() implies {
                let (cell, path) = #[trigger] now[j];
                &&& cell.spec_is_valid()
                &&& 0 <= cell.index() < 64
                &&& path.magnitude matches Magnitude::Fixed(reach) && reach >= 1
                &&& exists|m: int|
                    king.lands_on_board(path.direction, m) && cell == #[trigger] king.shifted(
                        path.direction,
                        m,
                    )
            } by {
                if j < before.len() {
                    assert(now[j] == before[j]);
                } else {
                    assert(now[j].0 == king.shifted(direction, m));
                }
            }
        }
    }
}

/// Along one direction at most one piece gives check.
pub proof fn lemma_check_unique(
    board: Seq<Cell>,
    side: Side,
    king: CellId,
    direction: Direction,
    a: int,
    b: int,
)
    requires
        check_at(board, side, king, direction, a),
        check_at(board, side, king, direction, b),
    ensures
        a == b,
{
    if a < b {
        assert(vacant_at(board, king, direction, a));
    } else if b < a {
        assert(vacant_at(board, king, direction, b));
    }
}

/// Along one direction at most one piece is pinned, by one piece, and where
/// one is pinned no piece gives check.
pub proof fn lemma_pin_unique(
    board: Seq<Cell>,
    side: Side,
    king: CellId,
    direction: Direction,
    m: int,
    n: int,
    a: int,
    b: int,
)
    requires
        pin_at(board, side, king, direction, m, n),
    ensures
        pin_at(board, side, king, direction, a, b) ==> a == m && b == n,
        !check_at(board, side, king, direction, a),
{
    if pin_at(board, side, king, direction, a, b) {
        if a != m {
            if a < n {
                assert(vacant_at(board, king, direction, a));
            } else {
                assert(vacant_at(board, king, direction, m));
            }
        }
        if b < n {
            assert(vacant_at(board, king, direction, b));
        } else if n < b {
            assert(vacant_at(board, king, direction, n));
        }
    }
    if check_at(board, side, king, direction, a) {
        if a < n && a != m {
            assert(vacant_at(board, king, direction, a));
        } else if a > m {
            assert(vacant_at(board, king, direction, m));
        }
    }
}

/// A ray stands in the list of checks exactly if a piece gives check along
/// it: the analysis reports every check, and nothing else. The list holds
/// no ray twice.
pub proof fn lemma_checks_listed(board: Seq<Cell>, side: Side, king: CellId, path: Path)
    ensures
        checks_upto(board, side, king, 16).contains(path) <==> exists|n: int| #[trigger]
            check_at(board, side, king, path.direction, n) && path.magnitude == Magnitude::Fixed(
                n as u32,
            ),
        checks_upto(board, side, king, 16).no_duplicates(),
{
    lemma_checks_listed_upto(board, side, king, 16);
    Direction::lemma_all_complete(path.direction);
    let direction = path.direction;
    if exists|n: int| #[trigger]
        check_at(board, side, king, direction, n) && path.magnitude == Magnitude::Fixed(n as u32) {
        let n = choose|n: int| #[trigger]
            check_at(board, side, king, direction, n) && path.magnitude == Magnitude::Fixed(
                n as u32,
            );
        let c = choose|c: int| #[trigger] check_at(board, side, king, direction, c);
        lemma_check_unique(board, side, king, direction, n, c);
        assert(ray_check(board, side, king, direction) == Some(path));
    }
    if ray_check(board, side, king, direction) == Some(path) {
        let c = choose|c: int| #[trigger] check_at(board, side, king, direction, c);
        assert(king.lands_on_board(direction, 1)) by {
            if c > 1 {
                assert(vacant_at(board, king, direction, 1));
            }
        }
        lemma_run_short(king, direction, c);
        assert(check_at(board, side, king, direction, c) && path.magnitude == Magnitude::Fixed(
            c as u32,
        ));
    }
}

/// The list of the checks found along the first `i` directions holds a ray
/// exactly if its direction is one of them and a check is found along it,
/// and holds no ray twice.
proof fn lemma_checks_listed_upto(board: Seq<Cell>, side: Side, king: CellId, i: int)
    requires
        0 <= i <= 16,
    ensures
        forall|path: Path|
            checks_upto(board, side, king, i).contains(path) <==> path.direction.rank() < i
                && ray_check(board, side, king, path.direction) == Some(path),
        checks_upto(board, side, king, i).no_duplicates(),
    decreases i,
{
    let now = checks_upto(board, side, king, i);
    if i > 0 {
        lemma_checks_listed_upto(board, side, king, i - 1);
        let before = checks_upto(board, side, king, i - 1);
        let direction = Direction::all()[i - 1];
        Direction::lemma_all_complete(direction);
        let found = ray_check(board, side, king, direction);
        assert(found matches Some(p) ==> p.direction == direction);
        assert forall|path: Path|
            now.contains(path) <==> path.direction.rank() < i && ray_check(
                board,
                side,
                king,
                path.direction,
            ) == Some(path) by {
            Direction::lemma_all_complete(path.direction);
            if before.contains(path) {
                let j = choose|j: int| 0 <= j < before.len() && before[j] == path;
                assert(now[j] == path);
            }
            if found == Some(path) {
                assert(now[before.len() as int] == path);
            }
            if now.contains(path) {
                let j = choose|j: int| 0 <= j < now.len() && now[j] == path;
                if j < before.len() {
                    assert(before[j] == path);
                }
            }
        }
        if found is Some {
            assert(!before.contains(found->Some_0));
        }
    }
}

/// A pinned piece stands in the list of pins exactly if it is pinned: the
/// analysis reports every pin, and nothing else. The ray noted for it runs
/// from its cell to the piece that pins it.
pub proof fn lemma_pins_listed(board: Seq<Cell>, side: Side, king: CellId, cell: CellId, path: Path)
    ensures
        pins_upto(board, side, king, 16).contains((cell, path)) <==> exists|m: int, n: int|
            #[trigger] pin_at(board, side, king, path.direction, m, n) && cell == king.shifted(
                path.direction,
                m,
            ) && path.magnitude == Magnitude::Fixed((n - m) as u32),
{
    lemma_pins_listed_upto(board, side, king, 16);
    Direction::lemma_all_complete(path.direction);
    let direction = path.direction;
    if exists|m: int, n: int| #[trigger]
        pin_at(board, side, king, direction, m, n) && cell == king.shifted(direction, m)
            && path.magnitude == Magnitude::Fixed((n - m) as u32) {
        let (m, n) = choose|m: int, n: int| #[trigger]
            pin_at(board, side, king, direction, m, n) && cell == king.shifted(direction, m)
                && path.magnitude == Magnitude::Fixed((n - m) as u32);
        let (a, b) = choose|a: int, b: int| #[trigger] pin_at(board, side, king, direction, a, b);
        lemma_pin_unique(board, side, king, direction, m, n, a, b);
        assert(ray_pin(board, side, king, direction) == Some((cell, path)));
    }
    if ray_pin(board, side, king, direction) == Some((cell, path)) {
        let (a, b) = choose|a: int, b: int| #[trigger] pin_at(board, side, king, direction, a, b);
        assert(king.lands_on_board(direction, 1)) by {
            if a > 1 {
                assert(vacant_at(board, king, direction, 1));
            }
        }
        lemma_run_short(king, direction, b);
        assert(pin_at(board, side, king, direction, a, b) && cell == king.shifted(direction, a)
            && path.magnitude == Magnitude::Fixed((b - a) as u32));
    }
}

/// The list of the pins found along the first `i` directions holds a pin
/// exactly if its direction is one of them and the pin is found along it.
proof fn lemma_pins_listed_upto(board: Seq<Cell>, side: Side, king: CellId, i: int)
    requires
        0 <= i <= 16,
    ensures
        forall|pin: (CellId, Path)|
            pins_upto(board, side, king, i).contains(pin) <==> pin.1.direction.rank() < i
                && ray_pin(board, side, king, pin.1.direction) == Some(pin),
    decreases i,
{
    let now = pins_upto(board, side, king, i);
    if i > 0 {
        lemma_pins_listed_upto(board, side, king, i - 1);
        let before = pins_upto(board, side, king, i - 1);
        let direction = Direction::all()[i - 1];
        Direction::lemma_all_complete(direction);
        let found = ray_pin(board, side, king, direction);
        assert(found matches Some(p) ==> p.1.direction == direction);
        assert forall|pin: (CellId, Path)|
            now.contains(pin) <==> pin.1.direction.rank() < i && ray_pin(
                board,
                side,
                king,
                pin.1.direction,
            ) == Some(pin) by {
            Direction::lemma_all_complete(pin.1.direction);
            if before.contains(pin) {
                let j = choose|j: int| 0 <= j < before.len() && before[j] == pin;
                assert(now[j] == pin);
            }
            if found == Some(pin) {
                assert(now[before.len() as int] == pin);
            }
            if now.contains(pin) {
                let j = choose|j: int| 0 <= j < now.len() && now[j] == pin;
                if j < before.len() {
                    assert(before[j] == pin);
                }
            }
        }
    }
}

/// Whether the king of `side` on `king` is the only king of his side on
/// the board.
pub open spec fn lone_king(board: Seq<Cell>, side: Side, king: CellId) -> bool {
    &&& king_in_place(board, side, king)
    &&& forall|k: int|
        0 <= k < board.len() && k != king.index() ==> !((#[trigger] board[k]).item matches Some(
            piece,
        ) && piece.piece_type == PieceType::King && piece.side == side)
}

/// A king does not move into check. Where the only king of a side goes from
/// `from` to `to`, he is in check on the board after the move exactly if
/// `to` was attacked before it: the test that keeps him off attacked squares
/// is the test for checks, made ahead of the move.
pub proof fn lemma_attacked_is_check_after_move(
    board: Seq<Cell>,
    side: Side,
    from: CellId,
    to: CellId,
    move_count: u32,
)
    requires
        board_wf(board),
        lone_king(board, side, from),
        to.spec_is_valid(),
        from != to,
    ensures
        attacked(board, side, to) <==> checks_upto(
            board_after_move(board, from, to, move_count),
            side,
            to,
            16,
        ).len() > 0,
{
    let after = board_after_move(board, from, to, move_count);
    let checks = checks_upto(after, side, to, 16);
    assert forall|direction: Direction, n: int|
        attacked_from(board, side, to, direction, n) <==> check_at(
            after,
            side,
            to,
            direction,
            n,
        ) by {
        lemma_same_ray_after_move(board, side, from, to, move_count, direction, n);
    }
    if attacked(board, side, to) {
        let direction = choose|direction: Direction| #[trigger]
            attacked_along_ray(board, side, to, direction);
        let n = choose|n: int| #[trigger] attacked_from(board, side, to, direction, n);
        assert(check_at(after, side, to, direction, n));
        let path = Path { magnitude: Magnitude::Fixed(n as u32), direction };
        lemma_checks_listed(after, side, to, path);
        assert(checks.contains(path));
    }
    if checks.len() > 0 {
        let path = checks[0];
        assert(checks.contains(path));
        lemma_checks_listed(after, side, to, path);
        let n = choose|n: int| #[trigger]
            check_at(after, side, to, path.direction, n) && path.magnitude == Magnitude::Fixed(
                n as u32,
            );
        assert(attacked_from(board, side, to, path.direction, n));
        assert(attacked_along_ray(board, side, to, path.direction));
    }
}

/// Along a ray from the square `to`, the board before the lone king's move
/// from `from` to `to`, with the king looked through, shows what the board
/// after the move shows.
proof fn lemma_same_ray_after_move(
    board: Seq<Cell>,
    side: Side,
    from: CellId,
    to: CellId,
    move_count: u32,
    direction: Direction,
    n: int,
)
    requires
        board_wf(board),
        lone_king(board, side, from),
        to.spec_is_valid(),
        from != to,
    ensures
        attacked_from(board, side, to, direction, n) <==> check_at(
            board_after_move(board, from, to, move_count),
            side,
            to,
            direction,
            n,
        ),
{
    let after = board_after_move(board, from, to, move_count);
    CellId::lemma_index_round_trip(from, 0);
    CellId::lemma_index_round_trip(to, 0);
    assert forall|k: int| 1 <= k && to.lands_on_board(direction, k) implies {
        let cell = to.shifted(direction, k);
        &&& see_through(board, side, to, direction, k) == vacant_at(after, to, direction, k)
        &&& (item_at(board, cell) matches Some(p) && p.side != side) ==> item_at(after, cell)
            == item_at(board, cell)
        &&& (item_at(after, cell) matches Some(p) && p.side != side) ==> item_at(after, cell)
            == item_at(board, cell)
    } by {
        let cell = to.shifted(direction, k);
        assert(cell != to) by {
            assert(to.lands_on_board(direction, 0) && to.shifted(direction, 0) == to);
            if cell == to {
                CellId::lemma_ray_injective(to, direction, k, 0);
            }
        }
        CellId::lemma_index_round_trip(cell, 0);
        if cell.index() == to.index() {
            CellId::lemma_index_injective(cell, to);
        }
        if cell.index() == from.index() {
            CellId::lemma_index_injective(cell, from);
        }
    }
    if attacked_from(board, side, to, direction, n) {
        assert forall|k: int| 1 <= k < n implies #[trigger] vacant_at(
            after,
            to,
            direction,
            k,
        ) by {
            assert(see_through(board, side, to, direction, k));
        }
    }
    if check_at(after, side, to, direction, n) {
        assert forall|k: int| 1 <= k < n implies #[trigger] see_through(
            board,
            side,
            to,
            direction,
            k,
        ) by {
            assert(vacant_at(after, to, direction, k));
        }
    }
}

/// A pin is a check held off by a shield. A piece of the king's side, `m`
/// steps from him along a queen-like direction, is pinned by the piece `n`
/// steps off exactly if that piece gives check once the shield is taken off
/// the board.
pub proof fn lemma_pin_is_shielded_check(
    board: Seq<Cell>,
    side: Side,
    king: CellId,
    direction: Direction,
    m: int,
    n: int,
)
    requires
        board_wf(board),
    ensures
        pin_at(board, side, king, direction, m, n) <==> {
            &&& !direction.spec_is_knight()
            &&& 1 <= m < n
            &&& king.lands_on_board(direction, m)
            &&& item_at(board, king.shifted(direction, m)) matches Some(shield) && shield.side
                == side
            &&& check_at(lifted(board, king.shifted(direction, m)), side, king, direction, n)
        },
{
    let shield = king.shifted(direction, m);
    let bare = lifted(board, shield);
    if 1 <= m < n && king.lands_on_board(direction, m) && king.lands_on_board(direction, n) {
        CellId::lemma_index_round_trip(shield, 0);
        assert forall|k: int| 1 <= k && k != m && king.lands_on_board(direction, k) implies item_at(
            bare,
            king.shifted(direction, k),
        ) == item_at(board, king.shifted(direction, k)) by {
            let cell = king.shifted(direction, k);
            CellId::lemma_index_round_trip(cell, 0);
            if cell.index() == shield.index() {
                CellId::lemma_index_injective(cell, shield);
                CellId::lemma_ray_injective(king, direction, k, m);
            }
        }
        assert(item_at(bare, shield) is None);
        if pin_at(board, side, king, direction, m, n) {
            assert forall|k: int| 1 <= k < n implies #[trigger] vacant_at(
                bare,
                king,
                direction,
                k,
            ) by {
                if k != m {
                    assert(vacant_at(board, king, direction, k));
                }
            }
        }
        if check_at(bare, side, king, direction, n) {
            assert forall|k: int| 1 <= k < n && k != m implies #[trigger] vacant_at(
                board,
                king,
                direction,
                k,
            ) by {
                assert(vacant_at(bare, king, direction, k));
            }
        }
    }
}

} // verus!
