//! Static evaluation: material balance from White's point of view.

use vstd::prelude::*;
use crate::chess_structs::{Board, Color, Index2D, Piece};

verus! {

/// What one square contributes: the piece's value, negated for Black.
pub open spec fn square_score(s: Option<Piece>) -> int {
    match s {
        None => 0,
        Some(p) => match p.color {
            Color::White => p.kind.spec_value() as int,
            Color::Black => -(p.kind.spec_value() as int),
        },
    }
}

/// Material of squares `i ..` (square `i` is file `i % 8`, rank `i / 8`).
pub open spec fn material_from(b: Board, i: int) -> int
    decreases 64 - i,
{
    if i < 0 || i >= 64 {
        0
    } else {
        square_score(b.at(i % 8, i / 8)) + material_from(b, i + 1)
    }
}

/// Sum of the values of White's pieces minus those of Black's.
pub open spec fn material(b: Board) -> int {
    material_from(b, 0)
}

pub proof fn lemma_material_bound(b: Board, i: int)
    requires
        0 <= i <= 64,
    ensures
        -9999 * (64 - i) <= material_from(b, i) <= 9999 * (64 - i),
    decreases 64 - i,
{
    if i < 64 {
        lemma_material_bound(b, i + 1);
    }
}

/// Score of a position from White's point of view: the material balance.
pub fn eval(board: &Board) -> (r: i32)
    ensures
        r == material(*board),
{
    let mut score: i32 = 0;
    let mut i: usize = 0;
    proof {
        lemma_material_bound(*board, 0);
    }
    while i < 64
        invariant
            0 <= i <= 64,
            score + material_from(*board, i as int) == material(*board),
            -9999 * i <= score <= 9999 * i,
        decreases 64 - i,
    {
        match board.get(Index2D { x: i % 8, y: i / 8 }) {
            Some(piece) => match piece.color {
                Color::White => {
                    score = score + piece.kind.value();
                },
                Color::Black => {
                    score = score - piece.kind.value();
                },
            },
            None => {},
        }
        i = i + 1;
    }
    score
}

} // verus!
