//! The changes that a move and the end of a turn make to the board: pieces
//! taken off and set down, the notes of a turn wiped, the pins of the next
//! turn noted.
use crate::game::Castle;
use crate::grid::{Cell, CellId, Grid};
use crate::path::Path;
use vstd::prelude::*;

verus! {

/// The board with the piece taken off the square `id`.
pub open spec fn lifted(board: Seq<Cell>, id: CellId) -> Seq<Cell> {
    board.update(id.index(), Cell { item: None, ..board[id.index()] })
}

/// The board once the piece on `from` has moved to `to` in a game whose move
/// counter is `move_count`: the piece stands on `to`, with its history
/// brought up to date, and `from` is empty and holds no destinations.
pub open spec fn board_after_move(
    board: Seq<Cell>,
    from: CellId,
    to: CellId,
    move_count: u32,
) -> Seq<Cell> {
    let src = board[from.index()];
    let dest = board[to.index()];
    board.update(from.index(), Cell { item: None, valid_moves: None, ..src }).update(
        to.index(),
        Cell { item: Some(src.moved_piece(move_count)), ..dest },
    )
}

/// Whether some cell of `cache` has the index `k`.
pub open spec fn listed(cache: Seq<CellId>, k: int) -> bool {
    exists|j: int| 0 <= j < cache.len() && #[trigger] cache[j].index() == k
}

/// The board with the notes of a turn, destinations and pin, wiped from
/// every cell listed in `cache`.
pub open spec fn cleared(board: Seq<Cell>, cache: Seq<CellId>) -> Seq<Cell> {
    Seq::new(
        board.len(),
        |k: int|
            if listed(cache, k) {
                Cell { valid_moves: None, pin: None, ..board[k] }
            } else {
                board[k]
            },
    )
}

/// The board with each of `pins` noted on its cell, in their order.
pub open spec fn pinned(board: Seq<Cell>, pins: Seq<(CellId, Path)>) -> Seq<Cell>
    decreases pins.len(),
{
    if pins.len() == 0 {
        board
    } else {
        let before = pinned(board, pins.drop_last());
        let (id, path) = pins.last();
        before.update(id.index(), Cell { pin: Some(path), ..before[id.index()] })
    }
}

/// The cells of `pins`, in their order.
pub open spec fn pinned_cells(pins: Seq<(CellId, Path)>) -> Seq<CellId> {
    Seq::new(pins.len(), |i: int| pins[i].0)
}

/// Whether `castles[i]` is the first of `castles` that is a move from `from`
/// to `to`.
pub open spec fn is_first_castle(castles: Seq<Castle>, from: CellId, to: CellId, i: int) -> bool {
    &&& 0 <= i < castles.len()
    &&& castles[i].spec_is(&from, &to)
    &&& forall|j: int| 0 <= j < i ==> !(#[trigger] castles[j]).spec_is(&from, &to)
}

/// The first of `castles` that is a move from `from` to `to`, if there is
/// one.
pub open spec fn first_castle(castles: Seq<Castle>, from: CellId, to: CellId) -> Option<Castle> {
    if exists|i: int| #[trigger] is_first_castle(castles, from, to, i) {
        Some(castles[choose|i: int| #[trigger] is_first_castle(castles, from, to, i)])
    } else {
        None
    }
}

/// Whether the square has its place among the sixty-four cells of a board.
pub fn on_grid(id: CellId) -> (ok: bool)
    ensures
        ok == (id.index() < 64),
{
    (id.0 as u64) + (id.1 as u64) * 8 < 64
}

/// Wipes the notes of a turn, destinations and pin, from every cell listed
/// in `cache`.
pub fn clear_cells(grid: &mut Grid, cache: &Vec<CellId>)
    requires
        forall|j: int| 0 <= j < cache@.len() ==> (#[trigger] cache@[j]).index() < old(grid)@.len(),
    ensures
        final(grid)@ == cleared(old(grid)@, cache@),
{
    let mut i: usize = 0;
    while i < cache.len()
        invariant
            i <= cache@.len(),
            grid@.len() == old(grid)@.len(),
            forall|j: int| 0 <= j < cache@.len() ==> (#[trigger] cache@[j]).index() < grid@.len(),
            grid@ == cleared(old(grid)@, cache@.take(i as int)),
        decreases cache@.len() - i,
    {
        let cell = grid.get_cell_mut(&cache[i]);
        cell.valid_moves = None;
        cell.pin = None;
        proof {
            let done = cache@.take(i as int);
            let more = cache@.take(i + 1);
            let at = cache@[i as int].index();
            assert forall|k: int| listed(more, k) <==> listed(done, k) || k == at by {
                if listed(done, k) {
                    let j = choose|j: int| 0 <= j < done.len() && #[trigger] done[j].index() == k;
                    assert(more[j].index() == k);
                }
                if k == at {
                    assert(more[i as int].index() == k);
                }
                if listed(more, k) {
                    let j = choose|j: int| 0 <= j < more.len() && #[trigger] more[j].index() == k;
                    if j < i {
                        assert(done[j].index() == k);
                    }
                }
            }
            assert(grid@ =~= cleared(old(grid)@, more));
        }
        i += 1;
    }
    assert(cache@.take(i as int) =~= cache@);
}

/// Notes each of `pins` on its cell, and lists the cell in `cache`.
pub fn note_pins(grid: &mut Grid, pins: &Vec<(CellId, Path)>, cache: &mut Vec<CellId>)
    requires
        forall|j: int| 0 <= j < pins@.len() ==> (#[trigger] pins@[j]).0.index() < old(grid)@.len(),
    ensures
        final(grid)@ == pinned(old(grid)@, pins@),
        final(cache)@ == old(cache)@ + pinned_cells(pins@),
{
    let mut i: usize = 0;
    assert(pinned(grid@, pins@.take(0)) == grid@);
    while i < pins.len()
        invariant
            i <= pins@.len(),
            grid@.len() == old(grid)@.len(),
            forall|j: int| 0 <= j < pins@.len() ==> (#[trigger] pins@[j]).0.index() < grid@.len(),
            grid@ == pinned(old(grid)@, pins@.take(i as int)),
            cache@ == old(cache)@ + pinned_cells(pins@.take(i as int)),
        decreases pins@.len() - i,
    {
        let (id, path) = pins[i];
        proof {
            assert(pins@.take(i + 1).drop_last() =~= pins@.take(i as int));
            assert(pins@.take(i + 1).last() == pins@[i as int]);
            assert(pins@[i as int].0.index() < grid@.len());
        }
        let cell = grid.get_cell_mut(&id);
        cell.pin = Some(path);
        cache.push(id);
        proof {
            assert(cache@ =~= old(cache)@ + pinned_cells(pins@.take(i + 1)));
        }
        i += 1;
    }
    assert(pins@.take(i as int) =~= pins@);
}

/// Noting pins keeps every cell in its place and every piece on its cell.
pub proof fn lemma_pinned_wf(board: Seq<Cell>, pins: Seq<(CellId, Path)>)
    requires
        forall|j: int| 0 <= j < pins.len() ==> 0 <= (#[trigger] pins[j]).0.index() < board.len(),
    ensures
        pinned(board, pins).len() == board.len(),
        forall|k: int|
            0 <= k < board.len() ==> (#[trigger] pinned(board, pins)[k]).id == board[k].id
                && pinned(board, pins)[k].item == board[k].item && pinned(
                board,
                pins,
            )[k].valid_moves == board[k].valid_moves,
    decreases pins.len(),
{
    if pins.len() > 0 {
        lemma_pinned_wf(board, pins.drop_last());
    }
}

/// Whether every cell of the board that holds a note of the turn,
/// destinations or a pin, is listed in `cache`, so that the end of the turn
/// wipes it.
pub open spec fn notes_listed(board: Seq<Cell>, cache: Seq<CellId>) -> bool {
    forall|k: int|
        0 <= k < board.len() && ((#[trigger] board[k]).valid_moves is Some || board[k].pin is Some)
            ==> listed(cache, k)
}

/// Wiping the cells listed leaves no note on a board whose notes are all on
/// cells listed, and changes nothing else.
pub proof fn lemma_cleared_bare(board: Seq<Cell>, cache: Seq<CellId>)
    requires
        notes_listed(board, cache),
    ensures
        cleared(board, cache).len() == board.len(),
        forall|k: int|
            0 <= k < board.len() ==> {
                let cell = #[trigger] cleared(board, cache)[k];
                &&& cell.id == board[k].id
                &&& cell.item == board[k].item
                &&& cell.valid_moves is None
                &&& cell.pin is None
            },
{
}

/// After pins are noted, a cell holds a pin exactly if it held one before or
/// is the cell of one of the pins.
pub proof fn lemma_pinned_notes(board: Seq<Cell>, pins: Seq<(CellId, Path)>)
    requires
        forall|j: int| 0 <= j < pins.len() ==> 0 <= (#[trigger] pins[j]).0.index() < board.len(),
    ensures
        forall|k: int|
            0 <= k < board.len() ==> ((#[trigger] pinned(board, pins)[k]).pin is Some
                <==> board[k].pin is Some || listed(pinned_cells(pins), k)),
    decreases pins.len(),
{
    if pins.len() > 0 {
        let front = pins.drop_last();
        lemma_pinned_notes(board, front);
        lemma_pinned_wf(board, front);
        let at = pins.last().0.index();
        assert forall|k: int| 0 <= k < board.len() implies ((#[trigger] pinned(
            board,
            pins,
        )[k]).pin is Some <==> board[k].pin is Some || listed(pinned_cells(pins), k)) by {
            if listed(pinned_cells(front), k) {
                let j = choose|j: int|
                    0 <= j < pinned_cells(front).len() && #[trigger] pinned_cells(front)[j].index()
                        == k;
                assert(pinned_cells(pins)[j].index() == k);
            }
            if k == at {
                assert(pinned_cells(pins)[pins.len() - 1].index() == k);
            }
            if listed(pinned_cells(pins), k) {
                let j = choose|j: int|
                    0 <= j < pinned_cells(pins).len() && #[trigger] pinned_cells(pins)[j].index()
                        == k;
                if j < front.len() {
                    assert(pinned_cells(front)[j].index() == k);
                }
            }
        }
    } else {
        assert forall|k: int| !listed(pinned_cells(pins), k) by {
        }
    }
}

/// Where the notes of a board are all on cells listed, they still are once
/// one cell is changed and listed.
pub proof fn lemma_note_listed(
    board: Seq<Cell>,
    cache: Seq<CellId>,
    id: CellId,
    board_after: Seq<Cell>,
)
    requires
        notes_listed(board, cache),
        board_after.len() == board.len(),
        forall|k: int| 0 <= k < board.len() && k != id.index() ==> board_after[k] == board[k],
    ensures
        notes_listed(board_after, cache.push(id)),
{
    let more = cache.push(id);
    assert forall|k: int|
        0 <= k < board_after.len() && ((#[trigger] board_after[k]).valid_moves is Some
            || board_after[k].pin is Some) implies listed(more, k) by {
        if k == id.index() {
            assert(more[cache.len() as int].index() == k);
        } else {
            assert(listed(cache, k));
            let j = choose|j: int| 0 <= j < cache.len() && #[trigger] cache[j].index() == k;
            assert(more[j].index() == k);
        }
    }
}

/// A move leaves the notes of the board on cells listed, where they were
/// so before.
pub proof fn lemma_move_keeps_notes_listed(
    board: Seq<Cell>,
    cache: Seq<CellId>,
    from: CellId,
    to: CellId,
    move_count: u32,
)
    requires
        notes_listed(board, cache),
        0 <= from.index() < board.len(),
        0 <= to.index() < board.len(),
    ensures
        notes_listed(board_after_move(board, from, to, move_count), cache),
{
    let moved = board_after_move(board, from, to, move_count);
    assert forall|k: int|
        0 <= k < moved.len() && ((#[trigger] moved[k]).valid_moves is Some || moved[k].pin
            is Some) implies listed(cache, k) by {
        assert(board[k].valid_moves is Some || board[k].pin is Some);
    }
}

} // verus!
