//! The queen.
use super::{Piece, PieceType, Side};
use crate::path::{Direction, Magnitude, Path};
use vstd::prelude::*;

verus! {

/// A queen of the given side that has never moved.
pub fn queen(side: Side) -> (piece: Piece)
    ensures
        piece.is_fresh(PieceType::Queen, side),
{
    let line_of_sight: Vec<Path> = vec![
        Path { direction: Direction::UpLeft, magnitude: Magnitude::Any },
        Path { direction: Direction::UpRight, magnitude: Magnitude::Any },
        Path { direction: Direction::DownLeft, magnitude: Magnitude::Any },
        Path { direction: Direction::DownRight, magnitude: Magnitude::Any },
        Path { direction: Direction::Up, magnitude: Magnitude::Any },
        Path { direction: Direction::Down, magnitude: Magnitude::Any },
        Path { direction: Direction::Left, magnitude: Magnitude::Any },
        Path { direction: Direction::Right, magnitude: Magnitude::Any },
    ];
    proof {
        assert(line_of_sight@ =~= super::line_of_sight_of(PieceType::Queen, side));
    }
    Piece {
        name: "Queen".to_string(),
        side,
        piece_type: PieceType::Queen,
        moveset: line_of_sight.clone(),
        line_of_sight,
        same_line_of_sight_and_moveset: true,
        prev_cell: None,
        last_played_move: None,
    }
}

} // verus!
