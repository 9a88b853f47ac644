//! The starting position, and the rules every position obeys.

use vstd::prelude::*;
use crate::chess_structs::{
    lemma_with_square_at, on_board, Board, Color, Index2D, Kind, Piece, CASTLING_FULL, NO_CHECKS,
};
use crate::threats::{check_bits, checks, in_check};

verus! {

broadcast use lemma_with_square_at;

/// The kind standing on file `x` of a back rank at the start.
pub open spec fn back_rank_kind(x: int) -> Kind {
    if x == 0 || x == 7 {
        Kind::Rook
    } else if x == 1 || x == 6 {
        Kind::Knight
    } else if x == 2 || x == 5 {
        Kind::Bishop
    } else if x == 3 {
        Kind::Queen
    } else {
        Kind::King
    }
}

/// What stands on file `x`, rank `y` in the starting position.
pub open spec fn starting_square(x: int, y: int) -> Option<Piece> {
    if y == 0 {
        Some(Piece { kind: back_rank_kind(x), color: Color::White })
    } else if y == 1 {
        Some(Piece { kind: Kind::Pawn, color: Color::White })
    } else if y == 6 {
        Some(Piece { kind: Kind::Pawn, color: Color::Black })
    } else if y == 7 {
        Some(Piece { kind: back_rank_kind(x), color: Color::Black })
    } else {
        None
    }
}

fn back_rank_piece(x: usize) -> (r: Kind)
    ensures
        r == back_rank_kind(x as int),
{
    if x == 0 || x == 7 {
        Kind::Rook
    } else if x == 1 || x == 6 {
        Kind::Knight
    } else if x == 2 || x == 5 {
        Kind::Bishop
    } else if x == 3 {
        Kind::Queen
    } else {
        Kind::King
    }
}

/// The standard starting position: White to move, all castling rights, no
/// en-passant target, nobody in check.
pub fn generate_starting_board() -> (r: Board)
    ensures
        forall|x: int, y: int| on_board(x, y) ==> #[trigger] r.at(x, y) == starting_square(x, y),
        r.turn == Color::White,
        r.en_passant.is_none(),
        r.castling_availability == CASTLING_FULL,
        r.checks == NO_CHECKS,
{
    let mut board = Board::new(Color::White, None, CASTLING_FULL, NO_CHECKS);
    let mut x: usize = 0;
    while x < 8
        invariant
            0 <= x <= 8,
            board.turn == Color::White,
            board.en_passant.is_none(),
            board.castling_availability == CASTLING_FULL,
            board.checks == NO_CHECKS,
            forall|x2: int, y2: int|
                on_board(x2, y2) ==> #[trigger] board.at(x2, y2) == if x2 < x {
                    starting_square(x2, y2)
                } else {
                    None
                },
        decreases 8 - x,
    {
        let kind = back_rank_piece(x);
        board.set(Index2D { x, y: 0 }, Some(Piece { kind, color: Color::White }));
        board.set(Index2D { x, y: 1 }, Some(Piece { kind: Kind::Pawn, color: Color::White }));
        board.set(Index2D { x, y: 6 }, Some(Piece { kind: Kind::Pawn, color: Color::Black }));
        board.set(Index2D { x, y: 7 }, Some(Piece { kind, color: Color::Black }));
        x = x + 1;
    }
    board
}

/// Kings of color `c` on squares `i ..` (square `i` is file `i % 8`, rank `i / 8`).
pub open spec fn kings_from(b: Board, c: Color, i: int) -> nat
    decreases 64 - i,
{
    if i < 0 || i >= 64 {
        0
    } else {
        (if b.at(i % 8, i / 8) == Some(Piece { kind: Kind::King, color: c }) {
            1nat
        } else {
            0nat
        }) + kings_from(b, c, i + 1)
    }
}

/// An en-passant target lies behind a pawn that just stepped twice: on rank 6 when
/// White is to move, on rank 3 when Black is, and it is empty.
pub open spec fn en_passant_ok(b: Board) -> bool {
    match b.en_passant {
        None => true,
        Some(t) => t.valid() && t.y == (if b.turn == Color::White { 5usize } else { 2usize })
            && b.at(t.x as int, t.y as int).is_none(),
    }
}

/// Each castling right has its king and rook on their starting squares.
pub open spec fn castling_ok(b: Board) -> bool {
    let wk = Some(Piece { kind: Kind::King, color: Color::White });
    let wr = Some(Piece { kind: Kind::Rook, color: Color::White });
    let bk = Some(Piece { kind: Kind::King, color: Color::Black });
    let br = Some(Piece { kind: Kind::Rook, color: Color::Black });
    let c = b.castling_availability;
    &&& c <= 15
    &&& c & 1 != 0 ==> b.at(4, 0) == wk && b.at(7, 0) == wr
    &&& c & 2 != 0 ==> b.at(4, 0) == wk && b.at(0, 0) == wr
    &&& c & 4 != 0 ==> b.at(4, 7) == bk && b.at(7, 7) == br
    &&& c & 8 != 0 ==> b.at(4, 7) == bk && b.at(0, 7) == br
}

/// A position the engine accepts: one king of each color, the side that just moved
/// not in check, a possible en-passant target, castling rights that match the
/// board, and check flags that match the squares.
pub open spec fn is_valid_position(b: Board) -> bool {
    &&& kings_from(b, Color::White, 0) == 1
    &&& kings_from(b, Color::Black, 0) == 1
    &&& !in_check(b, b.turn.spec_invert())
    &&& en_passant_ok(b)
    &&& castling_ok(b)
    &&& b.checks == check_bits(b)
}

proof fn lemma_kings_step(b: Board, c: Color, i: int)
    requires
        0 <= i < 64,
    ensures
        kings_from(b, c, i) == (if b.at(i % 8, i / 8) == Some(Piece { kind: Kind::King, color: c }) {
            1nat
        } else {
            0nat
        }) + kings_from(b, c, i + 1),
{
}

fn count_kings(board: &Board, c: Color) -> (r: usize)
    ensures
        r == kings_from(*board, c, 0),
{
    let king = Some(Piece { kind: Kind::King, color: c });
    let mut n: usize = 0;
    let mut i: usize = 64;
    while i > 0
        invariant
            0 <= i <= 64,
            n <= 64 - i,
            n == kings_from(*board, c, i as int),
            king == Some(Piece { kind: Kind::King, color: c }),
        decreases i,
    {
        i = i - 1;
        let here = board.get(Index2D { x: i % 8, y: i / 8 });
        assert(here == board.at((i as int) % 8, (i as int) / 8));
        proof {
            lemma_kings_step(*board, c, i as int);
        }
        if here == king {
            n = n + 1;
        }
    }
    n
}

/// Whether `board` obeys the rules every position obeys.
pub fn validate_position(board: &Board) -> (r: bool)
    ensures
        r == is_valid_position(*board),
{
    if count_kings(board, Color::White) != 1 || count_kings(board, Color::Black) != 1 {
        return false;
    }
    let (white, black) = checks(board);
    let w: u8 = if white { 1 } else { 0 };
    let k: u8 = if black { 2 } else { 0 };
    if board.checks != w + k {
        return false;
    }
    let moved_in_check = match board.turn {
        Color::White => black,
        Color::Black => white,
    };
    if moved_in_check {
        return false;
    }
    let ep_ok = match board.en_passant {
        None => true,
        Some(t) => {
            let rank: usize = match board.turn {
                Color::White => 5,
                Color::Black => 2,
            };
            t.x < 8 && t.y == rank && board.get(t).is_none()
        },
    };
    if !ep_ok {
        return false;
    }
    let wk = Some(Piece { kind: Kind::King, color: Color::White });
    let wr = Some(Piece { kind: Kind::Rook, color: Color::White });
    let bk = Some(Piece { kind: Kind::King, color: Color::Black });
    let br = Some(Piece { kind: Kind::Rook, color: Color::Black });
    let c = board.castling_availability;
    let sq = |x: usize, y: usize| -> (r: Option<Piece>)
        requires
            x < 8 && y < 8,
        ensures
            r == board.at(x as int, y as int),
        { board.get(Index2D { x, y }) };
    c <= 15 && (c & 1 == 0 || (sq(4, 0) == wk && sq(7, 0) == wr)) && (c & 2 == 0 || (sq(4, 0) == wk
        && sq(0, 0) == wr)) && (c & 4 == 0 || (sq(4, 7) == bk && sq(7, 7) == br)) && (c & 8 == 0 || (
    sq(4, 7) == bk && sq(0, 7) == br))
}

} // verus!
