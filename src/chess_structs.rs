//! Board, pieces and 2-D geometry on the 8x8 grid.

use vstd::prelude::*;

verus! {

/// Bit set over the four castling rights.
pub type CastlingBitField = u32;

/// Bit set over the two check flags.
pub type ChecksBitField = u8;

pub const WHITE_KINGSIDE: CastlingBitField = 1;
pub const WHITE_QUEENSIDE: CastlingBitField = 2;
pub const BLACK_KINGSIDE: CastlingBitField = 4;
pub const BLACK_QUEENSIDE: CastlingBitField = 8;
pub const CASTLING_WHITE: CastlingBitField = 3;
pub const CASTLING_BLACK: CastlingBitField = 12;
pub const CASTLING_UNAVAILABLE: CastlingBitField = 0;
pub const CASTLING_FULL: CastlingBitField = 15;

pub const WHITE_IS_CHECKED: ChecksBitField = 1;
pub const BLACK_IS_CHECKED: ChecksBitField = 2;
pub const NO_CHECKS: ChecksBitField = 0;

#[derive(Copy, Clone, PartialEq, Eq, Debug, Structural)]
pub enum Color {
    White,
    Black,
}

impl Color {
    pub open spec fn spec_invert(self) -> Color {
        match self {
            Color::White => Color::Black,
            Color::Black => Color::White,
        }
    }

    /// The other color.
    pub fn invert(self) -> (r: Color)
        ensures
            r == self.spec_invert(),
            r != self,
    {
        match self {
            Color::White => Color::Black,
            Color::Black => Color::White,
        }
    }
}

/// A square: `x` is the file (0 = a-file), `y` the rank (0 = rank 1).
#[derive(Copy, Clone, PartialEq, Eq, Debug, Structural)]
pub struct Index2D {
    pub x: usize,
    pub y: usize,
}

/// Whether `(x, y)` lies on the 8x8 board.
pub open spec fn on_board(x: int, y: int) -> bool {
    0 <= x < 8 && 0 <= y < 8
}

impl Index2D {
    pub open spec fn valid(self) -> bool {
        on_board(self.x as int, self.y as int)
    }

    pub fn new(x: usize, y: usize) -> (r: Index2D)
        ensures
            r.x == x,
            r.y == y,
    {
        Index2D { x, y }
    }

    /// True when the index lies outside the 8x8 board.
    pub fn is_out_of_board(self) -> (r: bool)
        ensures
            r == !self.valid(),
    {
        self.x > 7 || self.y > 7
    }

    /// The square reached from `self` by the offset `v`, if it is on the board.
    pub fn offset(self, v: Vector2D) -> (r: Option<Index2D>)
        requires
            self.valid(),
            v.valid(),
        ensures
            on_board(self.x + v.x, self.y + v.y) ==> r == Some(
                Index2D { x: (self.x + v.x) as usize, y: (self.y + v.y) as usize },
            ),
            !on_board(self.x + v.x, self.y + v.y) ==> r.is_none(),
    {
        let x: i64 = self.x as i64 + v.x;
        let y: i64 = self.y as i64 + v.y;
        if 0 <= x && x < 8 && 0 <= y && y < 8 {
            Some(Index2D { x: x as usize, y: y as usize })
        } else {
            None
        }
    }
}

/// A signed offset on the board, each component in `[-7, 7]`.
#[derive(Copy, Clone, PartialEq, Eq, Debug, Structural)]
pub struct Vector2D {
    pub x: i64,
    pub y: i64,
}

impl Vector2D {
    pub open spec fn valid(self) -> bool {
        -7 <= self.x <= 7 && -7 <= self.y <= 7
    }

    pub fn new(x: i64, y: i64) -> (r: Vector2D)
        ensures
            r.x == x,
            r.y == y,
    {
        Vector2D { x, y }
    }
}

#[derive(Copy, Clone, PartialEq, Eq, Debug, Structural)]
pub enum Kind {
    Pawn,
    Bishop,
    Knight,
    Rook,
    King,
    Queen,
}

impl Kind {
    pub open spec fn spec_value(self) -> i32 {
        match self {
            Kind::Pawn => 100,
            Kind::Bishop => 300,
            Kind::Knight => 300,
            Kind::Rook => 500,
            Kind::King => 9999,
            Kind::Queen => 900,
        }
    }

    /// Material value of the kind.
    pub fn value(&self) -> (r: i32)
        ensures
            r == self.spec_value(),
    {
        match self {
            Kind::Pawn => 100,
            Kind::Bishop => 300,
            Kind::Knight => 300,
            Kind::Rook => 500,
            Kind::King => 9999,
            Kind::Queen => 900,
        }
    }
}

#[derive(Copy, Clone, PartialEq, Eq, Debug, Structural)]
pub struct Piece {
    pub kind: Kind,
    pub color: Color,
}

/// Letter of a kind: upper case for White, lower case for Black.
pub open spec fn piece_char(p: Piece) -> char {
    let c = match p.kind {
        Kind::Pawn => 'P',
        Kind::Bishop => 'B',
        Kind::Knight => 'N',
        Kind::Rook => 'R',
        Kind::King => 'K',
        Kind::Queen => 'Q',
    };
    match p.color {
        Color::White => c,
        Color::Black => ((c as u8) + 32) as char,
    }
}

impl Piece {
    /// The letter of the piece: upper case for White, lower case for Black.
    pub fn to_char(&self) -> (r: char)
        ensures
            r == piece_char(*self),
    {
        match self.kind {
            Kind::Pawn => match self.color {
                Color::White => 'P',
                Color::Black => 'p',
            },
            Kind::Bishop => match self.color {
                Color::White => 'B',
                Color::Black => 'b',
            },
            Kind::King => match self.color {
                Color::White => 'K',
                Color::Black => 'k',
            },
            Kind::Knight => match self.color {
                Color::White => 'N',
                Color::Black => 'n',
            },
            Kind::Queen => match self.color {
                Color::White => 'Q',
                Color::Black => 'q',
            },
            Kind::Rook => match self.color {
                Color::White => 'R',
                Color::Black => 'r',
            },
        }
    }
}

/// The complete game state.
#[derive(Copy, Clone, Debug, PartialEq, Eq)]
pub struct Board {
    /// `squares[y][x]` is the square on file `x`, rank `y`.
    pub squares: [[Option<Piece>; 8]; 8],
    pub turn: Color,
    pub en_passant: Option<Index2D>,
    pub castling_availability: CastlingBitField,
    pub checks: ChecksBitField,
}

impl Board {
    /// What stands on file `x`, rank `y`.
    pub open spec fn at(self, x: int, y: int) -> Option<Piece> {
        self.squares[y][x]
    }

    /// The board with `p` placed on file `x`, rank `y`; everything else kept.
    pub open spec fn with_square(self, x: int, y: int, p: Option<Piece>) -> Board {
        Board {
            squares: vstd::array::spec_array_update(
                self.squares,
                y,
                vstd::array::spec_array_update(self.squares[y], x, p),
            ),
            ..self
        }
    }

    pub open spec fn is_empty_board(self) -> bool {
        forall|x: int, y: int| on_board(x, y) ==> #[trigger] self.at(x, y).is_none()
    }

    /// An empty board with the given state.
    pub fn new(
        turn: Color,
        en_passant: Option<Index2D>,
        castling_availability: CastlingBitField,
        checks: ChecksBitField,
    ) -> (r: Board)
        ensures
            r.is_empty_board(),
            r.turn == turn,
            r.en_passant == en_passant,
            r.castling_availability == castling_availability,
            r.checks == checks,
    {
        let row: [Option<Piece>; 8] = [None, None, None, None, None, None, None, None];
        Board {
            squares: [row, row, row, row, row, row, row, row],
            turn,
            en_passant,
            castling_availability,
            checks,
        }
    }

    /// What stands on the square `index`.
    pub fn get(&self, index: Index2D) -> (r: Option<Piece>)
        requires
            index.valid(),
        ensures
            r == self.at(index.x as int, index.y as int),
    {
        self.squares[index.y][index.x]
    }

    /// Places `p` on the square `index`.
    pub fn set(&mut self, index: Index2D, p: Option<Piece>)
        requires
            index.valid(),
        ensures
            *final(self) == old(self).with_square(index.x as int, index.y as int, p),
    {
        let mut row = self.squares[index.y];
        row[index.x] = p;
        self.squares[index.y] = row;
        proof {
            let ghost want = old(self).with_square(index.x as int, index.y as int, p);
            assert(self.squares[index.y as int] =~= want.squares[index.y as int]);
            assert(self.squares =~= want.squares);
        }
    }
}

/// Reading a square after placing a piece.
pub broadcast proof fn lemma_with_square_at(b: Board, x: int, y: int, p: Option<Piece>, x2: int, y2: int)
    requires
        on_board(x, y),
        on_board(x2, y2),
    ensures
        #[trigger] b.with_square(x, y, p).at(x2, y2) == if x == x2 && y == y2 {
            p
        } else {
            b.at(x2, y2)
        },
{
}

/// Two boards with the same squares and the same state are the same board.
pub proof fn lemma_board_ext(b1: Board, b2: Board)
    requires
        forall|x: int, y: int| on_board(x, y) ==> #[trigger] b1.at(x, y) == b2.at(x, y),
        b1.turn == b2.turn,
        b1.en_passant == b2.en_passant,
        b1.castling_availability == b2.castling_availability,
        b1.checks == b2.checks,
    ensures
        b1 == b2,
{
    assert forall|y: int| 0 <= y < 8 implies b1.squares[y] == b2.squares[y] by {
        assert forall|x: int| 0 <= x < 8 implies b1.squares[y][x] == b2.squares[y][x] by {
            assert(b1.at(x, y) == b2.at(x, y));
        }
        assert(b1.squares[y] =~= b2.squares[y]);
    }
    assert(b1.squares =~= b2.squares);
}

} // verus!
