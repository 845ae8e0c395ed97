//! The bishop.
use super::{Piece, PieceType, Side};
use crate::path::{Direction, Magnitude, Path};
use vstd::prelude::*;

verus! {

/// A bishop of the given side that has never moved.
pub fn bishop(side: Side) -> (piece: Piece)
    ensures
        piece.is_fresh(PieceType::Bishop, side),
{
    let line_of_sight: Vec<Path> = vec![
        Path { direction: Direction::UpLeft, magnitude: Magnitude::Any },
        Path { direction: Direction::UpRight, magnitude: Magnitude::Any },
        Path { direction: Direction::DownLeft, magnitude: Magnitude::Any },
        Path { direction: Direction::DownRight, magnitude: Magnitude::Any },
    ];
    proof {
        assert(line_of_sight@ =~= super::line_of_sight_of(PieceType::Bishop, side));
    }
    Piece {
        name: "Bishop".to_string(),
        side,
        piece_type: PieceType::Bishop,
        moveset: line_of_sight.clone(),
        line_of_sight,
        same_line_of_sight_and_moveset: true,
        prev_cell: None,
        last_played_move: None,
    }
}

} // verus!
