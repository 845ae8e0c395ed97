//! The pawn.
use super::{Piece, PieceType, Side};
use crate::path::{Direction, Magnitude, Path};
use vstd::prelude::*;

verus! {

/// A pawn of the given side that has never moved. White pawns travel up the
/// board and capture on the two upward diagonals, black pawns the other way.
pub fn pawn(side: Side) -> (piece: Piece)
    ensures
        piece.is_fresh(PieceType::Pawn, side),
{
    let line_of_sight: Vec<Path>;
    let moveset: Vec<Path>;
    if side == Side::White {
        line_of_sight = vec![
            Path { direction: Direction::UpLeft, magnitude: Magnitude::Fixed(1) },
            Path { direction: Direction::UpRight, magnitude: Magnitude::Fixed(1) },
        ];
        moveset = vec![Path { direction: Direction::Up, magnitude: Magnitude::Fixed(1) }];
    } else {
        line_of_sight = vec![
            Path { direction: Direction::DownRight, magnitude: Magnitude::Fixed(1) },
            Path { direction: Direction::DownLeft, magnitude: Magnitude::Fixed(1) },
        ];
        moveset = vec![Path { direction: Direction::Down, magnitude: Magnitude::Fixed(1) }];
    }
    proof {
        assert(line_of_sight@ =~= super::line_of_sight_of(PieceType::Pawn, side));
        assert(moveset@ =~= super::moveset_of(PieceType::Pawn, side));
    }
    Piece {
        name: "Pawn".to_string(),
        side,
        piece_type: PieceType::Pawn,
        line_of_sight,
        moveset,
        same_line_of_sight_and_moveset: false,
        prev_cell: None,
        last_played_move: None,
    }
}

} // verus!
