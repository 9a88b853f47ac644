//! Positions from FEN records: fen-rs reads the record, this module maps what it
//! read onto a `Board`.

use vstd::prelude::*;
use vstd::string::StrSliceExecFns;
use fen_rs::to_fen::ToFen;
use crate::chess_structs::{lemma_board_ext, Board, Color, Index2D, Kind, Piece};
use crate::gameset::{is_valid_position, validate_position};
use crate::threats::{check_bits, checks, lemma_in_check_same_squares};

verus! {

broadcast use crate::chess_structs::lemma_with_square_at;

/// What a FEN record holds, as fen-rs reads it: the 64 squares from a8 to h1
/// (rank 8 first, each rank from the a-file), each a piece letter or empty;
/// whether White is to move; the four castling rights K, Q, k, q.
pub struct FenRecord {
    pub placement: Vec<Option<char>>,
    pub white_to_move: bool,
    pub white_kingside: bool,
    pub white_queenside: bool,
    pub black_kingside: bool,
    pub black_queenside: bool,
}

/// The record fen-rs reads from a FEN text, or none when it rejects the text.
pub uninterp spec fn fen_record_of(s: Seq<char>) -> Option<
    (Seq<Option<char>>, bool, bool, bool, bool, bool),
>;

impl FenRecord {
    pub open spec fn view_tuple(&self) -> (Seq<Option<char>>, bool, bool, bool, bool, bool) {
        (
            self.placement@,
            self.white_to_move,
            self.white_kingside,
            self.white_queenside,
            self.black_kingside,
            self.black_queenside,
        )
    }
}

/// Number of spaces in `s`.
pub open spec fn space_count(s: Seq<char>) -> nat
    decreases s.len(),
{
    if s.len() == 0 {
        0
    } else {
        (if s[0] == ' ' { 1nat } else { 0nat }) + space_count(s.drop_first())
    }
}

/// Relies on `fen_rs::board::BoardState::from_fen` (fen-rs 0.1.5), which indexes the
/// first six space-separated fields and so needs at least five spaces; its pieces
/// are read back through `ToFen::piece_to_fen`, one letter each.
#[verifier::external_body]
fn read_fen(fen: &str) -> (r: Option<FenRecord>)
    requires
        space_count(fen@) >= 5,
    ensures
        r.is_none() == fen_record_of(fen@).is_none(),
        r matches Some(rec) ==> rec.view_tuple() == fen_record_of(fen@).unwrap(),
{
    match fen_rs::board::BoardState::from_fen(fen) {
        Ok(s) => Some(FenRecord {
            placement: s.piece_placement.iter().map(|p| p.as_ref().and_then(|q| fen_rs::board::BoardState::piece_to_fen(q).chars().next())).collect(),
            white_to_move: matches!(s.active_color, fen_rs::pieces::Color::White),
            white_kingside: s.white_castle_kingside,
            white_queenside: s.white_castle_queenside,
            black_kingside: s.black_castle_kingside,
            black_queenside: s.black_castle_queenside,
        }),
        Err(_) => None,
    }
}

/// Why a FEN text gave no position.
#[derive(Copy, Clone, PartialEq, Eq, Debug, Structural)]
pub enum FenImportError {
    /// Fewer than six space-separated fields.
    NotEnoughFields,
    /// fen-rs rejected the record.
    Rejected,
    /// The en-passant field is neither `-` nor a square.
    BadEnPassant,
    /// The placement does not describe 64 squares of known pieces.
    BadPlacement,
    /// The position breaks a rule every position obeys (one king a side, the side
    /// that just moved not in check, a possible en-passant target, castling rights
    /// that match the board).
    InvalidPosition,
}

/// The piece a FEN letter stands for.
pub open spec fn piece_of_letter(c: char) -> Option<Piece> {
    let w = Color::White;
    let b = Color::Black;
    if c == 'P' { Some(Piece { kind: Kind::Pawn, color: w }) }
    else if c == 'N' { Some(Piece { kind: Kind::Knight, color: w }) }
    else if c == 'B' { Some(Piece { kind: Kind::Bishop, color: w }) }
    else if c == 'R' { Some(Piece { kind: Kind::Rook, color: w }) }
    else if c == 'Q' { Some(Piece { kind: Kind::Queen, color: w }) }
    else if c == 'K' { Some(Piece { kind: Kind::King, color: w }) }
    else if c == 'p' { Some(Piece { kind: Kind::Pawn, color: b }) }
    else if c == 'n' { Some(Piece { kind: Kind::Knight, color: b }) }
    else if c == 'b' { Some(Piece { kind: Kind::Bishop, color: b }) }
    else if c == 'r' { Some(Piece { kind: Kind::Rook, color: b }) }
    else if c == 'q' { Some(Piece { kind: Kind::Queen, color: b }) }
    else if c == 'k' { Some(Piece { kind: Kind::King, color: b }) }
    else { None }
}

/// The piece of a FEN letter, if it is one.
pub fn map_piece(c: char) -> (r: Option<Piece>)
    ensures
        r == piece_of_letter(c),
{
    let w = Color::White;
    let b = Color::Black;
    match c {
        'P' => Some(Piece { kind: Kind::Pawn, color: w }),
        'N' => Some(Piece { kind: Kind::Knight, color: w }),
        'B' => Some(Piece { kind: Kind::Bishop, color: w }),
        'R' => Some(Piece { kind: Kind::Rook, color: w }),
        'Q' => Some(Piece { kind: Kind::Queen, color: w }),
        'K' => Some(Piece { kind: Kind::King, color: w }),
        'p' => Some(Piece { kind: Kind::Pawn, color: b }),
        'n' => Some(Piece { kind: Kind::Knight, color: b }),
        'b' => Some(Piece { kind: Kind::Bishop, color: b }),
        'r' => Some(Piece { kind: Kind::Rook, color: b }),
        'q' => Some(Piece { kind: Kind::Queen, color: b }),
        'k' => Some(Piece { kind: Kind::King, color: b }),
        _ => None,
    }
}

pub open spec fn castling_bits(wk: bool, wq: bool, bk: bool, bq: bool) -> u32 {
    ((if wk { 1int } else { 0int }) + (if wq { 2int } else { 0int }) + (if bk { 4int } else { 0int })
        + (if bq { 8int } else { 0int })) as u32
}

/// The castling bit set of the four rights K, Q, k, q.
pub fn map_castling_availability(wk: bool, wq: bool, bk: bool, bq: bool) -> (r: u32)
    ensures
        r == castling_bits(wk, wq, bk, bq),
{
    let mut value: u32 = 0;
    if wk {
        value = value + 1;
    }
    if wq {
        value = value + 2;
    }
    if bk {
        value = value + 4;
    }
    if bq {
        value = value + 8;
    }
    value
}

/// Field `k` (from 0) of `s`, fields being separated by single spaces.
pub open spec fn field_of(s: Seq<char>, k: int) -> Seq<char>
    decreases s.len(),
{
    if s.len() == 0 || k < 0 {
        Seq::empty()
    } else if s[0] == ' ' {
        if k == 0 {
            Seq::empty()
        } else {
            field_of(s.drop_first(), k - 1)
        }
    } else if k == 0 {
        seq![s[0]] + field_of(s.drop_first(), 0)
    } else {
        field_of(s.drop_first(), k)
    }
}

/// The en-passant target a FEN field names: `-` for none, else a square such as
/// `d6`; none at all when the field is neither.
pub open spec fn en_passant_field(f: Seq<char>) -> Option<Option<Index2D>> {
    if f == seq!['-'] {
        Some(None)
    } else if f.len() == 2 && 'a' <= f[0] <= 'h' && '1' <= f[1] <= '8' {
        Some(Some(Index2D { x: (f[0] as int - 'a' as int) as usize, y: (f[1] as int - '1' as int) as usize }))
    } else {
        None
    }
}

/// The placement lists 64 squares, each empty or a piece letter.
pub open spec fn placement_ok(p: Seq<Option<char>>) -> bool {
    p.len() == 64 && forall|i: int|
        0 <= i < 64 ==> (#[trigger] p[i] matches Some(c) ==> piece_of_letter(c).is_some())
}

/// What the placement puts on file `x`, rank `y`.
pub open spec fn placed_piece(p: Seq<Option<char>>, x: int, y: int) -> Option<Piece> {
    match p[(7 - y) * 8 + x] {
        None => None,
        Some(c) => piece_of_letter(c),
    }
}

/// `b` is the position of the record with the given en-passant target: its squares,
/// side to move and castling rights, with check flags that match its squares.
pub open spec fn board_of_record(
    b: Board,
    rec: (Seq<Option<char>>, bool, bool, bool, bool, bool),
    ep: Option<Index2D>,
) -> bool {
    &&& forall|x: int, y: int|
        0 <= x < 8 && 0 <= y < 8 ==> #[trigger] b.at(x, y) == placed_piece(rec.0, x, y)
    &&& b.turn == if rec.1 { Color::White } else { Color::Black }
    &&& b.castling_availability == castling_bits(rec.2, rec.3, rec.4, rec.5)
    &&& b.en_passant == ep
    &&& b.checks == check_bits(b)
}

fn count_spaces(s: &str) -> (r: usize)
    ensures
        r == space_count(s@),
{
    let n = s.unicode_len();
    let mut i: usize = 0;
    let mut count: usize = 0;
    assert(s@.subrange(0, n as int) =~= s@);
    while i < n
        invariant
            n == s@.len(),
            0 <= i <= n,
            count <= i,
            count + space_count(s@.subrange(i as int, n as int)) == space_count(s@),
        decreases n - i,
    {
        assert(s@.subrange(i as int, n as int).drop_first() =~= s@.subrange(i + 1, n as int));
        if s.get_char(i) == ' ' {
            count = count + 1;
        }
        i = i + 1;
    }
    assert(s@.subrange(n as int, n as int) =~= Seq::<char>::empty());
    count
}

/// Field `k` of `s`.
fn field(s: &str, k: usize) -> (r: Vec<char>)
    requires
        k < 8,
    ensures
        r@ == field_of(s@, k as int),
{
    let n = s.unicode_len();
    let mut out: Vec<char> = Vec::new();
    let mut i: usize = 0;
    let mut left: i64 = k as i64;
    proof {
        assert(s@.subrange(0, n as int) =~= s@);
    }
    while i < n
        invariant
            n == s@.len(),
            0 <= i <= n,
            -1 <= left <= k,
            k < 8,
            out@ + field_of(s@.subrange(i as int, n as int), left as int) == field_of(s@, k as int),
        decreases n - i,
    {
        let ghost rest = s@.subrange(i as int, n as int);
        let ghost before = out@;
        assert(rest.drop_first() =~= s@.subrange(i + 1, n as int));
        let c = s.get_char(i);
        if c == ' ' {
            if left >= 0 {
                left = left - 1;
            }
        } else if left == 0 {
            out.push(c);
            assert(before + field_of(rest, 0) =~= out@ + field_of(s@.subrange(i + 1, n as int), 0));
        }
        i = i + 1;
    }
    assert(s@.subrange(n as int, n as int) =~= Seq::<char>::empty());
    assert(out@ + Seq::<char>::empty() =~= out@);
    out
}

fn parse_en_passant(f: &Vec<char>) -> (r: Option<Option<Index2D>>)
    ensures
        r == en_passant_field(f@),
{
    if f.len() == 1 && f[0] == '-' {
        assert(f@ =~= seq!['-']);
        Some(None)
    } else if f.len() == 2 && 'a' <= f[0] && f[0] <= 'h' && '1' <= f[1] && f[1] <= '8' {
        assert(f@ != seq!['-']);
        let x = (f[0] as u32 - 'a' as u32) as usize;
        let y = (f[1] as u32 - '1' as u32) as usize;
        Some(Some(Index2D { x, y }))
    } else {
        assert(f@.len() == 1 ==> f@ != seq!['-'] || f@[0] == '-');
        None
    }
}

proof fn lemma_square_index(i: int, x: int, y: int)
    requires
        0 <= x < 8,
        0 <= y < 8,
        (7 - y) * 8 + x == i,
    ensures
        x == i % 8,
        y == 7 - i / 8,
{
    assert(x == i % 8 && y == 7 - i / 8) by (nonlinear_arith)
        requires
            0 <= x < 8,
            0 <= y < 8,
            (7 - y) * 8 + x == i,
    ;
}

/// The position of a record read from FEN, with the given en-passant target.
pub fn board_from_record(rec: &FenRecord, en_passant: Option<Index2D>) -> (r: Result<
    Board,
    FenImportError,
>)
    ensures
        placement_ok(rec.placement@) ==> (r matches Ok(b) && board_of_record(
            b,
            rec.view_tuple(),
            en_passant,
        )),
        !placement_ok(rec.placement@) ==> r == Err::<Board, FenImportError>(
            FenImportError::BadPlacement,
        ),
{
    if rec.placement.len() != 64 {
        return Err(FenImportError::BadPlacement);
    }
    let turn = if rec.white_to_move {
        Color::White
    } else {
        Color::Black
    };
    let castling = map_castling_availability(
        rec.white_kingside,
        rec.white_queenside,
        rec.black_kingside,
        rec.black_queenside,
    );
    let mut board = Board::new(turn, en_passant, castling, 0);
    let ghost p = rec.placement@;
    let mut i: usize = 0;
    while i < 64
        invariant
            p == rec.placement@,
            p.len() == 64,
            0 <= i <= 64,
            board.turn == turn,
            board.en_passant == en_passant,
            board.castling_availability == castling,
            forall|j: int| 0 <= j < i ==> (#[trigger] p[j] matches Some(c) ==> piece_of_letter(c).is_some()),
            forall|x: int, y: int|
                0 <= x < 8 && 0 <= y < 8 ==> #[trigger] board.at(x, y) == if (7 - y) * 8 + x < i {
                    placed_piece(p, x, y)
                } else {
                    None
                },
        decreases 64 - i,
    {
        let x: usize = i % 8;
        let y: usize = 7 - i / 8;
        assert((7 - y) * 8 + x == i);
        match rec.placement[i] {
            None => {},
            Some(c) => match map_piece(c) {
                None => {
                    assert(!placement_ok(p));
                    return Err(FenImportError::BadPlacement);
                },
                Some(piece) => {
                    board.set(Index2D { x, y }, Some(piece));
                },
            },
        }
        assert forall|x2: int, y2: int|
            0 <= x2 < 8 && 0 <= y2 < 8 implies #[trigger] board.at(x2, y2) == if (7 - y2) * 8 + x2 < i
                + 1 {
                placed_piece(p, x2, y2)
            } else {
                None
            } by {
            if (7 - y2) * 8 + x2 == i {
                lemma_square_index(i as int, x2, y2);
            }
        }
        i = i + 1;
    }
    let (white, black) = checks(&board);
    let w: u8 = if white { 1 } else { 0 };
    let k: u8 = if black { 2 } else { 0 };
    let ghost before = board;
    board.checks = w + k;
    assert(check_bits(board) == check_bits(before)) by {
        lemma_in_check_same_squares(board, before);
    }
    assert forall|x: int, y: int| 0 <= x < 8 && 0 <= y < 8 implies #[trigger] board.at(x, y)
        == placed_piece(p, x, y) by {
        assert(before.at(x, y) == placed_piece(p, x, y));
    }
    Ok(board)
}

/// Reads a position from a FEN record. The placement, side to move and castling
/// rights come from fen-rs; the en-passant field (the fourth) is read here.
pub fn board_from_fen(fen: &str) -> (r: Result<Board, FenImportError>)
    ensures
        space_count(fen@) < 5 ==> r == Err::<Board, FenImportError>(
            FenImportError::NotEnoughFields,
        ),
        space_count(fen@) >= 5 && fen_record_of(fen@).is_none() ==> r == Err::<
            Board,
            FenImportError,
        >(FenImportError::Rejected),
        space_count(fen@) >= 5 && fen_record_of(fen@).is_some() && en_passant_field(
            field_of(fen@, 3),
        ).is_none() ==> r == Err::<Board, FenImportError>(FenImportError::BadEnPassant),
        space_count(fen@) >= 5 && fen_record_of(fen@).is_some() && en_passant_field(
            field_of(fen@, 3),
        ).is_some() ==> {
            let rec = fen_record_of(fen@).unwrap();
            let ep = en_passant_field(field_of(fen@, 3)).unwrap();
            &&& placement_ok(rec.0) ==> (r matches Ok(b) ==> board_of_record(b, rec, ep)
                && is_valid_position(b))
            &&& placement_ok(rec.0) ==> (r is Err ==> r == Err::<Board, FenImportError>(
                FenImportError::InvalidPosition,
            ) && forall|b: Board| #[trigger] board_of_record(b, rec, ep) ==> !is_valid_position(b))
            &&& !placement_ok(rec.0) ==> r == Err::<Board, FenImportError>(
                FenImportError::BadPlacement,
            )
        },
{
    if count_spaces(fen) < 5 {
        return Err(FenImportError::NotEnoughFields);
    }
    let rec = match read_fen(fen) {
        Some(rec) => rec,
        None => {
            return Err(FenImportError::Rejected);
        },
    };
    let f = field(fen, 3);
    let ep = match parse_en_passant(&f) {
        Some(ep) => ep,
        None => {
            return Err(FenImportError::BadEnPassant);
        },
    };
    let board = board_from_record(&rec, ep)?;
    if validate_position(&board) {
        Ok(board)
    } else {
        assert forall|b: Board| #[trigger] board_of_record(b, rec.view_tuple(), ep) implies !is_valid_position(b) by {
            lemma_record_unique(b, board, rec.view_tuple(), ep);
        }
        Err(FenImportError::InvalidPosition)
    }
}

/// A record and an en-passant target describe one board.
proof fn lemma_record_unique(
    b1: Board,
    b2: Board,
    rec: (Seq<Option<char>>, bool, bool, bool, bool, bool),
    ep: Option<Index2D>,
)
    requires
        board_of_record(b1, rec, ep),
        board_of_record(b2, rec, ep),
    ensures
        b1 == b2,
{
    assert forall|y: int| 0 <= y < 8 implies b1.squares[y] == b2.squares[y] by {
        assert forall|x: int| 0 <= x < 8 implies b1.squares[y][x] == b2.squares[y][x] by {
            assert(b1.at(x, y) == b2.at(x, y));
        }
        assert(b1.squares[y] =~= b2.squares[y]);
    }
    assert(b1.squares =~= b2.squares);
    lemma_in_check_same_squares(b1, b2);
    lemma_board_ext(b1, b2);
}

} // verus!
