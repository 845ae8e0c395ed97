//! What the clicks of a player do to the board and the game.
use crate::game::Game;
use crate::grid::{Cell, CellId, Grid};
use crate::turn::{
    board_after_move, lemma_move_keeps_notes_listed, lemma_note_listed, notes_listed,
};
use vstd::prelude::*;

verus! {

/// Whether `after` and `board_after` are `before` and `board` once the piece
/// on `from` has moved to `to`, and, where the turn could end, the turn has
/// ended. `ended` says whether it could.
pub open spec fn plays_to(
    before: &Game,
    board: Seq<Cell>,
    from: CellId,
    to: CellId,
    after: &Game,
    board_after: Seq<Cell>,
    ended: bool,
) -> bool {
    let moved = board_after_move(board, from, to, before.move_count);
    exists|mid: Game| #[trigger]
        before.is_after_move(&mid, &board[from.index()], &board[to.index()]) && ended
            == mid.can_switch_turns(moved) && if ended {
            mid.switches_to(moved, after, board_after)
        } else {
            *after == mid && board_after == moved
        }
}

/// Takes a click of the left mouse button on the cell `clicked` (`None`
/// where no click fell on the board). With no cell selected, the click
/// selects the cell if a piece of the side to move stands on it. With a cell
/// selected, a click on the same cell drops the selection; a click on
/// another cell drops it too, and moves the selected piece there if that is
/// one of its destinations, after which the turn ends.
///
/// The result is `false` only where a move was made after which the turn
/// could not end, as when the other side's king is gone: the move then
/// stands, and the game cannot go on.
pub fn left_click_handler(
    grid: &mut Grid,
    selected_cell: &mut Option<CellId>,
    game: &mut Game,
    clicked: Option<CellId>,
) -> (sound: bool)
    requires
        old(grid).wf(),
        *old(selected_cell) matches Some(selected) ==> selected.spec_is_valid(),
        clicked matches Some(cell) ==> cell.spec_is_valid(),
    ensures
        final(grid).wf(),
        notes_listed(old(grid)@, old(game).cell_cache@) ==> notes_listed(
            final(grid)@,
            final(game).cell_cache@,
        ),
        match (*old(selected_cell), clicked) {
            (_, None) => {
                &&& sound
                &&& *final(selected_cell) == *old(selected_cell)
                &&& *final(game) == *old(game)
                &&& final(grid)@ == old(grid)@
            },
            (None, Some(cell)) => {
                &&& sound
                &&& *final(selected_cell) == if old(grid).item_at(cell) matches Some(piece)
                    && piece.side == old(game).turn {
                    Some(cell)
                } else {
                    None
                }
                &&& *final(game) == *old(game)
                &&& final(grid)@ == old(grid)@
            },
            (Some(selected), Some(dest)) => {
                &&& *final(selected_cell) is None
                &&& if selected != dest && old(grid).cell(selected).accepts_move(
                    &old(grid).cell(dest),
                ) {
                    plays_to(
                        old(game),
                        old(grid)@,
                        selected,
                        dest,
                        final(game),
                        final(grid)@,
                        sound,
                    )
                } else {
                    &&& sound
                    &&& *final(game) == *old(game)
                    &&& final(grid)@ == old(grid)@
                }
            },
        },
{
    let cell = match clicked {
        Some(cell) => cell,
        None => {
            return true;
        },
    };
    match *selected_cell {
        Some(selected) => {
            *selected_cell = None;
            if cell == selected {
                return true;
            }
            proof {
                CellId::lemma_index_round_trip(selected, 0);
                CellId::lemma_index_round_trip(cell, 0);
                if selected.index() == cell.index() {
                    CellId::lemma_index_injective(selected, cell);
                }
            }
            let (selected_c, dest_c) = grid.get_cell_mut_pair(&selected, &cell);
            let moved = selected_c.move_item_to(dest_c, game);
            if !moved {
                assert(grid@ =~= old(grid)@);
                return true;
            }
            let ghost mid = *game;
            let ghost board = grid@;
            proof {
                assert(board == board_after_move(
                    old(grid)@,
                    selected,
                    cell,
                    old(game).move_count,
                ));
                if notes_listed(old(grid)@, old(game).cell_cache@) {
                    lemma_move_keeps_notes_listed(
                        old(grid)@,
                        old(game).cell_cache@,
                        selected,
                        cell,
                        old(game).move_count,
                    );
                }
            }
            if game.turn_can_end(grid) {
                game.switch_turns(grid);
                proof {
                    if notes_listed(board, mid.cell_cache@) {
                        Game::lemma_turn_starts_clean(mid, board, *game, grid@);
                    }
                }
                true
            } else {
                false
            }
        },
        None => {
            match &grid.get_cell(&cell).item {
                Some(piece) => {
                    if piece.side == game.turn {
                        *selected_cell = Some(cell);
                    }
                },
                None => {},
            }
            true
        },
    }
}

/// Looks after the selected cell `cell_id` for one frame. Where a piece
/// stands on it whose destinations have not been worked out this turn, they
/// are worked out and stored on the cell. The result says whether the
/// destinations were there already, to be shown.
pub fn on_selected(grid: &mut Grid, cell_id: &CellId, game: &mut Game) -> (ready: bool)
    requires
        old(grid).wf(),
        cell_id.spec_is_valid(),
    ensures
        final(grid).wf(),
        notes_listed(old(grid)@, old(game).cell_cache@) ==> notes_listed(
            final(grid)@,
            final(game).cell_cache@,
        ),
        ready == (old(grid).cell(*cell_id).item is Some && old(grid).cell(*cell_id).valid_moves
            is Some),
        match old(grid).cell(*cell_id).item {
            Some(piece) if old(grid).cell(*cell_id).valid_moves is None => {
                &&& final(grid)@.len() == 64
                &&& forall|k: int|
                    0 <= k < 64 && k != cell_id.index() ==> final(grid)@[k] == old(grid)@[k]
                &&& final(grid).cell(*cell_id).id == *cell_id
                &&& final(grid).cell(*cell_id).item == Some(piece)
                &&& final(grid).cell(*cell_id).pin == old(grid).cell(*cell_id).pin
                &&& final(grid).cell(*cell_id).valid_moves matches Some(moves)
                &&& moves@.no_duplicates()
                &&& forall|c: CellId|
                    moves@.contains(c) <==> piece.is_valid_move(
                        &old(grid).cell(*cell_id),
                        old(grid)@,
                        old(game),
                        c,
                    )
                &&& exists|mid: Game| #[trigger]
                    piece.notes_extra_moves(*cell_id, old(grid)@, old(game), &mid)
                        && mid.same_but_cell_cache(final(game)) && final(game).cell_cache@
                        == mid.cell_cache@.push(*cell_id)
            },
            _ => {
                &&& *final(game) == *old(game)
                &&& final(grid)@ == old(grid)@
            },
        },
{
    proof {
        CellId::lemma_index_round_trip(*cell_id, 0);
    }
    let cell = grid.get_cell(cell_id);
    let piece = match &cell.item {
        Some(piece) => piece,
        None => {
            return false;
        },
    };
    if cell.valid_moves.is_some() {
        return true;
    }
    let valid_moves_ = piece.calc_valid_moves(cell, grid, game);
    let ghost mid = *game;
    grid.get_cell_mut(cell_id).add_valid_moves(valid_moves_, game);
    proof {
        assert(piece.notes_extra_moves(*cell_id, old(grid)@, old(game), &mid));
        if notes_listed(old(grid)@, old(game).cell_cache@) {
            lemma_note_listed(old(grid)@, old(game).cell_cache@, *cell_id, grid@);
        }
    }
    false
}

} // verus!
