//! The king.
use super::{Piece, PieceType, Side};
use crate::path::{Direction, Magnitude, Path};
use vstd::prelude::*;

verus! {

/// A king of the given side that has never moved.
pub fn king(side: Side) -> (piece: Piece)
    ensures
        piece.is_fresh(PieceType::King, side),
{
    let line_of_sight: Vec<Path> = vec![
        Path { direction: Direction::Left, magnitude: Magnitude::Fixed(1) },
        Path { direction: Direction::Right, magnitude: Magnitude::Fixed(1) },
        Path { direction: Direction::UpLeft, magnitude: Magnitude::Fixed(1) },
        Path { direction: Direction::UpRight, magnitude: Magnitude::Fixed(1) },
        Path { direction: Direction::DownLeft, magnitude: Magnitude::Fixed(1) },
        Path { direction: Direction::DownRight, magnitude: Magnitude::Fixed(1) },
        Path { direction: Direction::Up, magnitude: Magnitude::Fixed(1) },
        Path { direction: Direction::Down, magnitude: Magnitude::Fixed(1) },
    ];
    proof {
        assert(line_of_sight@ =~= super::line_of_sight_of(PieceType::King, side));
    }
    Piece {
        name: "King".to_string(),
        side,
        piece_type: PieceType::King,
        moveset: line_of_sight.clone(),
        line_of_sight,
        same_line_of_sight_and_moveset: true,
        prev_cell: None,
        last_played_move: None,
    }
}

} // verus!
