//! The starting position, set up from the codes of its thirty-two pieces.
use crate::game::{
    digit_value, file_of_letter, piece_of_letter, side_of_letter, AlgebraicNotation,
};
use crate::grid::{Cell, CellId, Grid};
use crate::pieces::{Piece, PieceType, Side};
use vstd::prelude::*;

verus! {

/// The kind of piece that starts on a file of a side's back rank.
pub open spec fn back_rank(file: u32) -> PieceType {
    if file == 0 || file == 7 {
        PieceType::Rook
    } else if file == 1 || file == 6 {
        PieceType::Knight
    } else if file == 2 || file == 5 {
        PieceType::Bishop
    } else if file == 3 {
        PieceType::Queen
    } else {
        PieceType::King
    }
}

/// The piece that starts a game on a square, if one does: Black's pieces on
/// the top row and pawns on the row below, White's pawns on the row next to
/// the bottom and pieces on the bottom row.
pub open spec fn starting_piece(id: CellId) -> Option<(Side, PieceType)> {
    if id.1 == 0 {
        Some((Side::Black, back_rank(id.0)))
    } else if id.1 == 1 {
        Some((Side::Black, PieceType::Pawn))
    } else if id.1 == 6 {
        Some((Side::White, PieceType::Pawn))
    } else if id.1 == 7 {
        Some((Side::White, back_rank(id.0)))
    } else {
        None
    }
}

/// Whether `after` is the board `before` with a fresh piece put on each
/// square of the row `row` on which one starts a game, and nothing else
/// changed.
pub open spec fn row_set_up(before: Seq<Cell>, after: Seq<Cell>, row: int) -> bool {
    &&& after.len() == before.len()
    &&& forall|k: int|
        0 <= k < before.len() ==> {
            let cell = #[trigger] after[k];
            &&& cell.id == before[k].id
            &&& cell.valid_moves == before[k].valid_moves
            &&& cell.pin == before[k].pin
            &&& if row * 8 <= k < row * 8 + 8 {
                match starting_piece(CellId::at_index(k)) {
                    Some((side, piece_type)) => cell.item matches Some(piece) && piece.is_fresh(
                        piece_type,
                        side,
                    ),
                    None => cell.item == before[k].item,
                }
            } else {
                cell.item == before[k].item
            }
        }
}

/// Whether `after` is the board `before` with a fresh piece put on each
/// square on which one starts a game, and nothing else changed.
pub open spec fn is_set_up(before: Seq<Cell>, after: Seq<Cell>) -> bool {
    &&& after.len() == before.len()
    &&& forall|k: int|
        0 <= k < before.len() ==> {
            let cell = #[trigger] after[k];
            &&& cell.id == before[k].id
            &&& cell.valid_moves == before[k].valid_moves
            &&& cell.pin == before[k].pin
            &&& match starting_piece(CellId::at_index(k)) {
                Some((side, piece_type)) => cell.item matches Some(piece) && piece.is_fresh(
                    piece_type,
                    side,
                ),
                None => cell.item == before[k].item,
            }
        }
}

/// Puts on the board the fresh piece that `code` names, on the square that
/// `code` names.
pub fn place(grid: &mut Grid, code: &str)
    requires
        old(grid)@.len() == 64,
        AlgebraicNotation::readable(code@),
        '1' <= code@[3],
    ensures
        final(grid)@.len() == 64,
        forall|k: int|
            0 <= k < 64 ==> {
                let cell = #[trigger] final(grid)@[k];
                &&& cell.id == old(grid)@[k].id
                &&& cell.valid_moves == old(grid)@[k].valid_moves
                &&& cell.pin == old(grid)@[k].pin
                &&& if k == file_of_letter(code@[2]) + (8 - digit_value(code@[3])) * 8 {
                    cell.item matches Some(piece) && piece.is_fresh(
                        piece_of_letter(code@[1]),
                        side_of_letter(code@[0]),
                    )
                } else {
                    cell.item == old(grid)@[k].item
                }
            },
{
    let alg = AlgebraicNotation::new(code);
    grid.get_cell_mut(&alg.cell).add_item(Piece::new(alg.piece, alg.side));
}

/// Puts White's pieces on the bottom row.
pub(crate) fn place_white_pieces(grid: &mut Grid)
    requires
        old(grid)@.len() == 64,
    ensures
        row_set_up(old(grid)@, final(grid)@, 7),
{
    proof {
        reveal_strlit("wra1");
        reveal_strlit("wnb1");
        reveal_strlit("wbc1");
        reveal_strlit("wqd1");
        reveal_strlit("wke1");
        reveal_strlit("wbf1");
        reveal_strlit("wng1");
        reveal_strlit("wrh1");
    }
    place(grid, "wra1");
    place(grid, "wnb1");
    place(grid, "wbc1");
    place(grid, "wqd1");
    place(grid, "wke1");
    place(grid, "wbf1");
    place(grid, "wng1");
    place(grid, "wrh1");
}

/// Puts White's pawns on the row next to the bottom.
pub(crate) fn place_white_pawns(grid: &mut Grid)
    requires
        old(grid)@.len() == 64,
    ensures
        row_set_up(old(grid)@, final(grid)@, 6),
{
    proof {
        reveal_strlit("wpa2");
        reveal_strlit("wpb2");
        reveal_strlit("wpc2");
        reveal_strlit("wpd2");
        reveal_strlit("wpe2");
        reveal_strlit("wpf2");
        reveal_strlit("wpg2");
        reveal_strlit("wph2");
    }
    place(grid, "wpa2");
    place(grid, "wpb2");
    place(grid, "wpc2");
    place(grid, "wpd2");
    place(grid, "wpe2");
    place(grid, "wpf2");
    place(grid, "wpg2");
    place(grid, "wph2");
}

/// Puts Black's pieces on the top row.
pub(crate) fn place_black_pieces(grid: &mut Grid)
    requires
        old(grid)@.len() == 64,
    ensures
        row_set_up(old(grid)@, final(grid)@, 0),
{
    proof {
        reveal_strlit("bra8");
        reveal_strlit("bnb8");
        reveal_strlit("bbc8");
        reveal_strlit("bqd8");
        reveal_strlit("bke8");
        reveal_strlit("bbf8");
        reveal_strlit("bng8");
        reveal_strlit("brh8");
    }
    place(grid, "bra8");
    place(grid, "bnb8");
    place(grid, "bbc8");
    place(grid, "bqd8");
    place(grid, "bke8");
    place(grid, "bbf8");
    place(grid, "bng8");
    place(grid, "brh8");
}

/// Puts Black's pawns on the row below the top.
pub(crate) fn place_black_pawns(grid: &mut Grid)
    requires
        old(grid)@.len() == 64,
    ensures
        row_set_up(old(grid)@, final(grid)@, 1),
{
    proof {
        reveal_strlit("bpa7");
        reveal_strlit("bpb7");
        reveal_strlit("bpc7");
        reveal_strlit("bpd7");
        reveal_strlit("bpe7");
        reveal_strlit("bpf7");
        reveal_strlit("bpg7");
        reveal_strlit("bph7");
    }
    place(grid, "bpa7");
    place(grid, "bpb7");
    place(grid, "bpc7");
    place(grid, "bpd7");
    place(grid, "bpe7");
    place(grid, "bpf7");
    place(grid, "bpg7");
    place(grid, "bph7");
}

} // verus!
