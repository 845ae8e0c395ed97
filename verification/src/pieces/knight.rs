//! The knight.
use super::{Piece, PieceType, Side};
use crate::path::{Direction, Magnitude, Path};
use vstd::prelude::*;

verus! {

/// A knight of the given side that has never moved.
pub fn knight(side: Side) -> (piece: Piece)
    ensures
        piece.is_fresh(PieceType::Knight, side),
{
    let line_of_sight: Vec<Path> = vec![
        Path { direction: Direction::LUpRight1, magnitude: Magnitude::Fixed(1) },
        Path { direction: Direction::LUpLeft1, magnitude: Magnitude::Fixed(1) },
        Path { direction: Direction::LDownRight1, magnitude: Magnitude::Fixed(1) },
        Path { direction: Direction::LDownLeft1, magnitude: Magnitude::Fixed(1) },
        Path { direction: Direction::LUpRight2, magnitude: Magnitude::Fixed(1) },
        Path { direction: Direction::LUpLeft2, magnitude: Magnitude::Fixed(1) },
        Path { direction: Direction::LDownRight2, magnitude: Magnitude::Fixed(1) },
        Path { direction: Direction::LDownLeft2, magnitude: Magnitude::Fixed(1) },
    ];
    proof {
        assert(line_of_sight@ =~= super::line_of_sight_of(PieceType::Knight, side));
    }
    Piece {
        name: "Knight".to_string(),
        side,
        piece_type: PieceType::Knight,
        moveset: line_of_sight.clone(),
        line_of_sight,
        same_line_of_sight_and_moveset: true,
        prev_cell: None,
        last_played_move: None,
    }
}

} // verus!
