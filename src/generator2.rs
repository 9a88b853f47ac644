//! Moves as deltas from a position: making, unmaking and generating them.

use vstd::prelude::*;
use crate::chess_structs::{
    lemma_board_ext, lemma_with_square_at, on_board, Board, CastlingBitField, ChecksBitField,
    Color, Index2D, Kind, Piece, CASTLING_BLACK, CASTLING_WHITE,
};
use crate::threats::{
    check_bits, checks, in_check, is_attacked, is_attacked_spec, knight_dx, knight_dy, knight_step,
    ray_dx, ray_dy, ray_step, ray_x, ray_y,
};

verus! {

broadcast use lemma_with_square_at;

#[derive(Copy, Clone, PartialEq, Eq, Debug, Structural)]
pub enum MoveType {
    /// A move onto an empty square.
    Regular,
    /// A capture; the captured piece is kept to undo the move.
    Capture(Piece),
    /// A pawn capturing en passant.
    EnPassant,
    /// A king castling; the side follows from the king's destination file.
    Castle,
}

/// One ply, with what is needed to take it back.
#[derive(Copy, Clone, PartialEq, Eq, Debug, Structural)]
pub struct Delta {
    pub move_type: MoveType,
    pub src: Index2D,
    pub dst: Index2D,
    /// En-passant target before the move.
    pub prev_en_passant: Option<Index2D>,
    /// Castling rights before the move.
    pub prev_castling: CastlingBitField,
    /// Check flags before the move.
    pub prev_checks: ChecksBitField,
    /// The kind a pawn reaching the last rank becomes.
    pub promotion: Option<Kind>,
}

/// Castling rights tied to a square: a king's or a rook's starting square.
pub open spec fn corner_mask(x: int, y: int) -> u32 {
    if y == 0 {
        if x == 0 { 2 } else if x == 7 { 1 } else if x == 4 { 3 } else { 0 }
    } else if y == 7 {
        if x == 0 { 8 } else if x == 7 { 4 } else if x == 4 { 12 } else { 0 }
    } else {
        0
    }
}

pub open spec fn color_rights(c: Color) -> u32 {
    match c {
        Color::White => 3,
        Color::Black => 12,
    }
}

/// The piece that moves.
pub open spec fn mover(b: Board, d: Delta) -> Piece {
    b.at(d.src.x as int, d.src.y as int).unwrap()
}

/// The rights cleared by a move: those of the squares it leaves and enters, and
/// all of the mover's when a king moves.
pub open spec fn cleared_rights(b: Board, d: Delta) -> u32 {
    corner_mask(d.src.x as int, d.src.y as int) | corner_mask(d.dst.x as int, d.dst.y as int) | (
    if mover(b, d).kind == Kind::King {
        color_rights(mover(b, d).color)
    } else {
        0
    })
}

/// The en-passant target after a move: the skipped square of a pawn's double step.
pub open spec fn en_passant_after(b: Board, d: Delta) -> Option<Index2D> {
    if mover(b, d).kind == Kind::Pawn && d.src.x == d.dst.x && (d.dst.y == d.src.y + 2
        || d.src.y == d.dst.y + 2) {
        Some(Index2D { x: d.src.x, y: ((d.src.y + d.dst.y) / 2) as usize })
    } else {
        None
    }
}

/// File the rook leaves when the king castles to file `kx`.
pub open spec fn rook_from(kx: int) -> int {
    if kx == 6 { 7 } else { 0 }
}

/// File the rook lands on when the king castles to file `kx`.
pub open spec fn rook_to(kx: int) -> int {
    if kx == 6 { 5 } else { 3 }
}

/// What the mover becomes on its destination: itself, or the promoted piece.
pub open spec fn arriving(p: Piece, d: Delta) -> Piece {
    match d.promotion {
        Some(k) => Piece { kind: k, color: p.color },
        None => p,
    }
}

/// The squares after the move.
pub open spec fn moved_squares(b: Board, d: Delta) -> Board {
    let p = mover(b, d);
    let b1 = b.with_square(d.src.x as int, d.src.y as int, None).with_square(
        d.dst.x as int,
        d.dst.y as int,
        Some(arriving(p, d)),
    );
    match d.move_type {
        MoveType::EnPassant => b1.with_square(d.dst.x as int, d.src.y as int, None),
        MoveType::Castle => b1.with_square(rook_from(d.dst.x as int), d.src.y as int, None).with_square(
            rook_to(d.dst.x as int),
            d.src.y as int,
            Some(Piece { kind: Kind::Rook, color: p.color }),
        ),
        _ => b1,
    }
}

/// The position after the move, before its check flags are recomputed.
pub open spec fn placed(b: Board, d: Delta) -> Board {
    Board {
        turn: b.turn.spec_invert(),
        en_passant: en_passant_after(b, d),
        castling_availability: b.castling_availability & !cleared_rights(b, d),
        ..moved_squares(b, d)
    }
}

/// The position after the move.
pub open spec fn made(b: Board, d: Delta) -> Board {
    Board { checks: check_bits(placed(b, d)), ..placed(b, d) }
}

/// The position before the move, as recorded in the delta.
pub open spec fn unmade(b: Board, d: Delta) -> Board {
    let p = b.at(d.dst.x as int, d.dst.y as int).unwrap();
    let back = match d.move_type {
        MoveType::Capture(c) => Some(c),
        _ => None,
    };
    let leaving = match d.promotion {
        Some(_) => Piece { kind: Kind::Pawn, color: p.color },
        None => p,
    };
    let b1 = b.with_square(d.dst.x as int, d.dst.y as int, back).with_square(
        d.src.x as int,
        d.src.y as int,
        Some(leaving),
    );
    let b2 = match d.move_type {
        MoveType::EnPassant => b1.with_square(
            d.dst.x as int,
            d.src.y as int,
            Some(Piece { kind: Kind::Pawn, color: p.color.spec_invert() }),
        ),
        MoveType::Castle => b1.with_square(rook_to(d.dst.x as int), d.src.y as int, None).with_square(
            rook_from(d.dst.x as int),
            d.src.y as int,
            Some(Piece { kind: Kind::Rook, color: p.color }),
        ),
        _ => b1,
    };
    Board {
        turn: b.turn.spec_invert(),
        en_passant: d.prev_en_passant,
        castling_availability: d.prev_castling,
        checks: d.prev_checks,
        ..b2
    }
}

/// The shape every delta has: squares on the board, distinct, and a castle that
/// moves a king two files along its rank.
pub open spec fn delta_shape(d: Delta) -> bool {
    &&& d.src.valid()
    &&& d.dst.valid()
    &&& d.src != d.dst
    &&& d.move_type == MoveType::Castle ==> d.src.y == d.dst.y && d.src.x == 4 && (d.dst.x == 6
        || d.dst.x == 2)
    &&& d.move_type == MoveType::EnPassant ==> d.src.y != d.dst.y && d.src.x != d.dst.x
}

/// The delta describes a move on `b`: it records `b`'s state, what stands where it
/// moves, and, for the special moves, the squares they touch.
pub open spec fn delta_fits(b: Board, d: Delta) -> bool {
    let sx = d.src.x as int;
    let sy = d.src.y as int;
    let dx = d.dst.x as int;
    let dy = d.dst.y as int;
    &&& delta_shape(d)
    &&& b.at(sx, sy).is_some()
    &&& d.prev_en_passant == b.en_passant
    &&& d.prev_castling == b.castling_availability
    &&& d.prev_checks == b.checks
    &&& d.promotion.is_some() == (mover(b, d).kind == Kind::Pawn && dy == promotion_rank(
        mover(b, d).color,
    ))
    &&& d.promotion matches Some(k) ==> (k == Kind::Queen || k == Kind::Rook || k == Kind::Bishop
        || k == Kind::Knight)
    &&& match d.move_type {
        MoveType::Capture(c) => b.at(dx, dy) == Some(c) && c.color != mover(b, d).color,
        MoveType::Regular => b.at(dx, dy).is_none(),
        MoveType::EnPassant => b.at(dx, dy).is_none() && b.at(dx, sy) == Some(
            Piece { kind: Kind::Pawn, color: mover(b, d).color.spec_invert() },
        ),
        MoveType::Castle => {
            &&& mover(b, d).kind == Kind::King
            &&& b.at(dx, dy).is_none()
            &&& b.at(rook_to(dx), sy).is_none()
            &&& b.at(rook_from(dx), sy) == Some(Piece { kind: Kind::Rook, color: mover(b, d).color })
        },
    }
}

fn rook_files(king_dst_x: usize) -> (r: (usize, usize))
    ensures
        r.0 == rook_from(king_dst_x as int),
        r.1 == rook_to(king_dst_x as int),
{
    if king_dst_x == 6 {
        (7, 5)
    } else {
        (0, 3)
    }
}

fn square_rights(sq: Index2D) -> (r: u32)
    ensures
        r == corner_mask(sq.x as int, sq.y as int),
{
    if sq.y == 0 {
        if sq.x == 0 {
            2
        } else if sq.x == 7 {
            1
        } else if sq.x == 4 {
            3
        } else {
            0
        }
    } else if sq.y == 7 {
        if sq.x == 0 {
            8
        } else if sq.x == 7 {
            4
        } else if sq.x == 4 {
            12
        } else {
            0
        }
    } else {
        0
    }
}

/// Plays the move on `board`: squares, castling rights, en-passant target,
/// side to move and check flags.
pub fn make_move(the_move: &Delta, board: &mut Board)
    requires
        delta_shape(*the_move),
        old(board).at(the_move.src.x as int, the_move.src.y as int).is_some(),
    ensures
        *final(board) == made(*old(board), *the_move),
{
    let ghost b0 = *board;
    let moving_piece = match board.get(the_move.src) {
        Some(p) => p,
        None => {
            return ;
        },
    };
    let king_bits: u32 = if moving_piece.kind == Kind::King {
        match moving_piece.color {
            Color::White => CASTLING_WHITE,
            Color::Black => CASTLING_BLACK,
        }
    } else {
        0
    };
    let cleared = square_rights(the_move.src) | square_rights(the_move.dst) | king_bits;
    let arriving_piece = match the_move.promotion {
        Some(k) => Piece { kind: k, color: moving_piece.color },
        None => moving_piece,
    };
    board.set(the_move.src, None);
    board.set(the_move.dst, Some(arriving_piece));
    match the_move.move_type {
        MoveType::EnPassant => {
            board.set(Index2D { x: the_move.dst.x, y: the_move.src.y }, None);
        },
        MoveType::Castle => {
            let (from_x, to_x) = rook_files(the_move.dst.x);
            board.set(Index2D { x: from_x, y: the_move.src.y }, None);
            board.set(
                Index2D { x: to_x, y: the_move.src.y },
                Some(Piece { kind: Kind::Rook, color: moving_piece.color }),
            );
        },
        _ => {},
    }
    assert(*board == moved_squares(b0, *the_move));
    board.castling_availability = board.castling_availability & !cleared;
    let is_double_step = moving_piece.kind == Kind::Pawn && the_move.src.x == the_move.dst.x && (
    the_move.dst.y == the_move.src.y + 2 || the_move.src.y == the_move.dst.y + 2);
    board.en_passant =
        if is_double_step {
            Some(Index2D { x: the_move.src.x, y: (the_move.src.y + the_move.dst.y) / 2 })
        } else {
            None
        };
    board.turn = board.turn.invert();
    assert(*board == placed(b0, *the_move));
    let (white, black) = checks(board);
    let w: u8 = if white { 1 } else { 0 };
    let k: u8 = if black { 2 } else { 0 };
    board.checks = w + k;
}

/// Takes the move back: `board` must be the position the move produced.
pub fn unmake_move(the_move: &Delta, board: &mut Board)
    requires
        delta_shape(*the_move),
        old(board).at(the_move.dst.x as int, the_move.dst.y as int).is_some(),
    ensures
        *final(board) == unmade(*old(board), *the_move),
{
    let reverting_piece = match board.get(the_move.dst) {
        Some(p) => p,
        None => {
            return ;
        },
    };
    let back = match the_move.move_type {
        MoveType::Capture(c) => Some(c),
        _ => None,
    };
    let leaving_piece = match the_move.promotion {
        Some(_) => Piece { kind: Kind::Pawn, color: reverting_piece.color },
        None => reverting_piece,
    };
    board.set(the_move.dst, back);
    board.set(the_move.src, Some(leaving_piece));
    match the_move.move_type {
        MoveType::EnPassant => {
            board.set(
                Index2D { x: the_move.dst.x, y: the_move.src.y },
                Some(Piece { kind: Kind::Pawn, color: reverting_piece.color.invert() }),
            );
        },
        MoveType::Castle => {
            let (from_x, to_x) = rook_files(the_move.dst.x);
            board.set(Index2D { x: to_x, y: the_move.src.y }, None);
            board.set(
                Index2D { x: from_x, y: the_move.src.y },
                Some(Piece { kind: Kind::Rook, color: reverting_piece.color }),
            );
        },
        _ => {},
    }
    board.turn = board.turn.invert();
    board.en_passant = the_move.prev_en_passant;
    board.castling_availability = the_move.prev_castling;
    board.checks = the_move.prev_checks;
}

/// A piece of the side to move stands on `src`.
pub open spec fn own_piece_at(b: Board, src: Index2D) -> bool {
    &&& src.valid()
    &&& b.at(src.x as int, src.y as int) matches Some(p)
    &&& p.color == b.turn
}

/// Every delta of `s` fits `b`, moves a piece of the side to move and is legal.
pub open spec fn all_fit(b: Board, s: Seq<Delta>) -> bool {
    forall|i: int|
        0 <= i < s.len() ==> delta_fits(b, #[trigger] s[i]) && mover(b, s[i]).color == b.turn
            && is_legal(b, s[i])
}

/// No two deltas of `s` move between the same two squares with the same promotion.
pub open spec fn keys_distinct(s: Seq<Delta>) -> bool {
    forall|i: int, j: int|
        0 <= i < j < s.len() ==> !(#[trigger] s[i].src == #[trigger] s[j].src && s[i].dst == s[j].dst
            && s[i].promotion == s[j].promotion)
}

/// No delta of `s` moves from `src`.
pub open spec fn none_from(s: Seq<Delta>, src: Index2D) -> bool {
    forall|i: int| 0 <= i < s.len() ==> (#[trigger] s[i]).src != src
}

/// The deltas of `s` from position `n` on all move from `src`.
pub open spec fn all_from(s: Seq<Delta>, n: int, src: Index2D) -> bool {
    forall|i: int| n <= i < s.len() ==> (#[trigger] s[i]).src == src
}

pub open spec fn off_x(d: Delta) -> int {
    d.dst.x - d.src.x
}

pub open spec fn off_y(d: Delta) -> int {
    d.dst.y - d.src.y
}

/// Position of the unit step `(dx, dy)` in the ray table; 8 when it is none of them.
pub open spec fn dir_index(dx: int, dy: int) -> int {
    if dx == 1 && dy == 1 { 0 }
    else if dx == 1 && dy == -1 { 1 }
    else if dx == -1 && dy == 1 { 2 }
    else if dx == -1 && dy == -1 { 3 }
    else if dx == 1 && dy == 0 { 4 }
    else if dx == -1 && dy == 0 { 5 }
    else if dx == 0 && dy == 1 { 6 }
    else if dx == 0 && dy == -1 { 7 }
    else { 8 }
}

/// Position of the jump `(dx, dy)` in the knight table; 8 when it is none of them.
pub open spec fn jump_index(dx: int, dy: int) -> int {
    if dx == 2 && dy == 1 { 0 }
    else if dx == 2 && dy == -1 { 1 }
    else if dx == 1 && dy == 2 { 2 }
    else if dx == 1 && dy == -2 { 3 }
    else if dx == -1 && dy == 2 { 4 }
    else if dx == -1 && dy == -2 { 5 }
    else if dx == -2 && dy == 1 { 6 }
    else if dx == -2 && dy == -1 { 7 }
    else { 8 }
}

/// Position in the ray table of the direction a delta moves in.
pub open spec fn ray_dir_of(d: Delta) -> int {
    dir_index(sgn(off_x(d)), sgn(off_y(d)))
}

pub open spec fn sgn(v: int) -> int {
    if v > 0 { 1 } else if v < 0 { -1 } else { 0 }
}

pub open spec fn dist(dx: int, dy: int) -> int {
    let ax = if dx < 0 { -dx } else { dx };
    let ay = if dy < 0 { -dy } else { dy };
    if ax > ay { ax } else { ay }
}

/// The delta of a move on `b`, recording `b`'s state.
pub open spec fn mk(b: Board, t: MoveType, src: Index2D, dst: Index2D) -> Delta {
    Delta {
        move_type: t,
        src,
        dst,
        prev_en_passant: b.en_passant,
        prev_castling: b.castling_availability,
        prev_checks: b.checks,
        promotion: None,
    }
}

/// The delta of a pawn move on `b` that promotes to `k`.
pub open spec fn mk_promo(b: Board, t: MoveType, src: Index2D, dst: Index2D, k: Kind) -> Delta {
    Delta { promotion: Some(k), ..mk(b, t, src, dst) }
}

/// The move does not leave the mover's king attacked.
pub open spec fn is_legal(b: Board, d: Delta) -> bool {
    !in_check(placed(b, d), b.turn)
}

/// The move if it is legal, else nothing.
pub open spec fn keep(b: Board, d: Delta) -> Seq<Delta> {
    if is_legal(b, d) {
        seq![d]
    } else {
        Seq::empty()
    }
}

pub open spec fn sq(x: int, y: int) -> Index2D {
    Index2D { x: x as usize, y: y as usize }
}

/// A one-step move (king or knight) from `src` onto `(x, y)`: to an empty square
/// or onto an enemy.
pub open spec fn step_moves(b: Board, src: Index2D, x: int, y: int) -> Seq<Delta> {
    if !on_board(x, y) {
        Seq::empty()
    } else {
        match b.at(x, y) {
            None => keep(b, mk(b, MoveType::Regular, src, sq(x, y))),
            Some(p) => if p.color != b.turn {
                keep(b, mk(b, MoveType::Capture(p), src, sq(x, y)))
            } else {
                Seq::empty()
            },
        }
    }
}

/// Slides from `src` along direction `d`, from step `k` on: empty squares, then
/// the first enemy; a friendly piece or the edge stops the ray.
pub open spec fn ray_moves(b: Board, src: Index2D, d: int, k: int) -> Seq<Delta>
    decreases 8 - k,
{
    if k < 1 || k > 7 {
        Seq::empty()
    } else {
        let x = ray_x(src.x as int, d, k);
        let y = ray_y(src.y as int, d, k);
        if !on_board(x, y) {
            Seq::empty()
        } else {
            match b.at(x, y) {
                None => keep(b, mk(b, MoveType::Regular, src, sq(x, y))) + ray_moves(b, src, d, k + 1),
                Some(p) => if p.color != b.turn {
                    keep(b, mk(b, MoveType::Capture(p), src, sq(x, y)))
                } else {
                    Seq::empty()
                },
            }
        }
    }
}

/// Sliding moves along the directions `d .. last`.
pub open spec fn slider_moves(b: Board, src: Index2D, d: int, last: int) -> Seq<Delta>
    decreases last - d,
{
    if d >= last {
        Seq::empty()
    } else {
        ray_moves(b, src, d, 1) + slider_moves(b, src, d + 1, last)
    }
}

/// Knight jumps `i ..` in table order.
pub open spec fn jump_moves(b: Board, src: Index2D, i: int) -> Seq<Delta>
    decreases 8 - i,
{
    if i < 0 || i >= 8 {
        Seq::empty()
    } else {
        step_moves(b, src, src.x + knight_dx(i), src.y + knight_dy(i)) + jump_moves(b, src, i + 1)
    }
}

/// King steps `i ..` in direction order.
pub open spec fn king_steps(b: Board, src: Index2D, i: int) -> Seq<Delta>
    decreases 8 - i,
{
    if i < 0 || i >= 8 {
        Seq::empty()
    } else {
        step_moves(b, src, src.x + ray_dx(i), src.y + ray_dy(i)) + king_steps(b, src, i + 1)
    }
}

pub open spec fn home_rank(c: Color) -> int {
    match c {
        Color::White => 0,
        Color::Black => 7,
    }
}

pub open spec fn castle_right(c: Color, kingside: bool) -> u32 {
    match c {
        Color::White => if kingside { 1 } else { 2 },
        Color::Black => if kingside { 4 } else { 8 },
    }
}

/// Castling of the side to move, king from `src`, on the given wing.
pub open spec fn castle_ok(b: Board, src: Index2D, kingside: bool) -> bool {
    let c = b.turn;
    let r = home_rank(c);
    let e = c.spec_invert();
    &&& src.x == 4 && src.y == r
    &&& b.at(4, r) == Some(Piece { kind: Kind::King, color: c })
    &&& b.castling_availability & castle_right(c, kingside) != 0
    &&& !is_attacked_spec(b, 4, r, e)
    &&& if kingside {
        &&& b.at(7, r) == Some(Piece { kind: Kind::Rook, color: c })
        &&& b.at(5, r).is_none() && b.at(6, r).is_none()
        &&& !is_attacked_spec(b, 5, r, e) && !is_attacked_spec(b, 6, r, e)
    } else {
        &&& b.at(0, r) == Some(Piece { kind: Kind::Rook, color: c })
        &&& b.at(1, r).is_none() && b.at(2, r).is_none() && b.at(3, r).is_none()
        &&& !is_attacked_spec(b, 3, r, e) && !is_attacked_spec(b, 2, r, e)
    }
}

pub open spec fn castle_moves(b: Board, src: Index2D, kingside: bool) -> Seq<Delta> {
    if castle_ok(b, src, kingside) {
        keep(b, mk(b, MoveType::Castle, src, sq(if kingside { 6 } else { 2 }, src.y as int)))
    } else {
        Seq::empty()
    }
}

pub open spec fn king_moves(b: Board, src: Index2D) -> Seq<Delta> {
    king_steps(b, src, 0) + castle_moves(b, src, true) + castle_moves(b, src, false)
}

pub open spec fn pawn_dir(c: Color) -> int {
    match c {
        Color::White => 1,
        Color::Black => -1,
    }
}

pub open spec fn pawn_start(c: Color) -> int {
    match c {
        Color::White => 1,
        Color::Black => 6,
    }
}

/// The rank on which a pawn of `c` promotes.
pub open spec fn promotion_rank(c: Color) -> int {
    match c {
        Color::White => 7,
        Color::Black => 0,
    }
}

/// Pawn pushes: one step onto an empty square (the four promotions on the last
/// rank), and from the start rank two steps over two empty squares.
pub open spec fn pawn_pushes(b: Board, src: Index2D) -> Seq<Delta> {
    let c = b.turn;
    let x = src.x as int;
    let y1 = src.y + pawn_dir(c);
    let y2 = y1 + pawn_dir(c);
    if on_board(x, y1) && b.at(x, y1).is_none() {
        if y1 == promotion_rank(c) {
            promotions(b, MoveType::Regular, src, sq(x, y1))
        } else {
            keep(b, mk(b, MoveType::Regular, src, sq(x, y1))) + if src.y == pawn_start(c) && b.at(
                x,
                y2,
            ).is_none() {
                keep(b, mk(b, MoveType::Regular, src, sq(x, y2)))
            } else {
                Seq::empty()
            }
        }
    } else {
        Seq::empty()
    }
}

/// Pawn capture towards file offset `side`: onto an enemy (the four promotions on
/// the last rank), or en passant onto the target.
pub open spec fn pawn_capture(b: Board, src: Index2D, side: int) -> Seq<Delta> {
    let c = b.turn;
    let x = src.x + side;
    let y = src.y + pawn_dir(c);
    if !on_board(x, y) {
        Seq::empty()
    } else {
        match b.at(x, y) {
            Some(p) => if p.color == c {
                Seq::empty()
            } else if y == promotion_rank(c) {
                promotions(b, MoveType::Capture(p), src, sq(x, y))
            } else {
                keep(b, mk(b, MoveType::Capture(p), src, sq(x, y)))
            },
            None => if y != promotion_rank(c) && b.en_passant == Some(sq(x, y)) && b.at(
                x,
                src.y as int,
            ) == Some(Piece { kind: Kind::Pawn, color: c.spec_invert() }) {
                keep(b, mk(b, MoveType::EnPassant, src, sq(x, y)))
            } else {
                Seq::empty()
            },
        }
    }
}

pub open spec fn pawn_moves(b: Board, src: Index2D) -> Seq<Delta> {
    pawn_pushes(b, src) + pawn_capture(b, src, 1) + pawn_capture(b, src, -1)
}

/// The legal moves from `src` of a piece of kind `kind`.
pub open spec fn kind_moves(b: Board, src: Index2D, kind: Kind) -> Seq<Delta> {
    match kind {
        Kind::Pawn => pawn_moves(b, src),
        Kind::Knight => jump_moves(b, src, 0),
        Kind::Bishop => slider_moves(b, src, 0, 4),
        Kind::Rook => slider_moves(b, src, 4, 8),
        Kind::Queen => slider_moves(b, src, 0, 8),
        Kind::King => king_moves(b, src),
    }
}

/// The legal moves of the piece on `src`, if it belongs to the side to move.
pub open spec fn piece_moves(b: Board, src: Index2D) -> Seq<Delta> {
    match b.at(src.x as int, src.y as int) {
        Some(p) => if p.color != b.turn {
            Seq::empty()
        } else {
            kind_moves(b, src, p.kind)
        },
        None => Seq::empty(),
    }
}

/// Legal moves of the pieces on squares `i ..` (square `i` is file `i % 8`, rank `i / 8`).
pub open spec fn moves_from(b: Board, i: int) -> Seq<Delta>
    decreases 64 - i,
{
    if i < 0 || i >= 64 {
        Seq::empty()
    } else {
        piece_moves(b, sq(i % 8, i / 8)) + moves_from(b, i + 1)
    }
}

/// Every legal move of the side to move, by source square, then in each piece's order.
pub open spec fn legal_moves(b: Board) -> Seq<Delta> {
    moves_from(b, 0)
}

/// Whether nothing stands on `to`.
pub fn is_square_empty(board: &Board, to: Index2D) -> (r: bool)
    requires
        to.valid(),
    ensures
        r == board.at(to.x as int, to.y as int).is_none(),
{
    match board.get(to) {
        Some(_) => false,
        None => true,
    }
}

/// Whether a piece of the side not to move stands on `to`.
pub fn is_square_enemy(board: &Board, to: Index2D) -> (r: bool)
    requires
        to.valid(),
    ensures
        r == (board.at(to.x as int, to.y as int) matches Some(p) && p.color != board.turn),
{
    match board.get(to) {
        Some(piece) => piece.color != board.turn,
        None => false,
    }
}

/// Whether `to` is the en-passant target.
pub fn is_square_en_passant(board: &Board, to: Index2D) -> (r: bool)
    ensures
        r == (board.en_passant == Some(to)),
{
    match board.en_passant {
        Some(en_passant_pos) => to == en_passant_pos,
        None => false,
    }
}

/// Whether `to` is empty or holds a piece of the side not to move.
pub fn is_square_empty_or_enemy(board: &Board, to: Index2D) -> (r: bool)
    requires
        to.valid(),
    ensures
        r == (board.at(to.x as int, to.y as int) matches Some(p) ==> p.color != board.turn),
{
    match board.get(to) {
        Some(piece) => piece.color != board.turn,
        None => true,
    }
}

/// Appends `delta` if it does not leave the mover in check.
fn push_delta(moves: &mut Vec<Delta>, board: &Board, delta: Delta)
    requires
        delta_fits(*board, delta),
        own_piece_at(*board, delta.src),
        all_fit(*board, old(moves)@),
        keys_distinct(old(moves)@),
        forall|i: int| 0 <= i < old(moves)@.len() ==> !((#[trigger] old(moves)@[i]).src == delta.src
            && old(moves)@[i].dst == delta.dst && old(moves)@[i].promotion == delta.promotion),
    ensures
        final(moves)@ == old(moves)@ + keep(*board, delta),
        all_fit(*board, final(moves)@),
        keys_distinct(final(moves)@),
{
    let mut next = *board;
    make_move(&delta, &mut next);
    let mover_in_check = match board.turn {
        Color::White => next.checks % 2 == 1,
        Color::Black => next.checks >= 2,
    };
    if !mover_in_check {
        moves.push(delta);
        assert(moves@ =~= old(moves)@ + keep(*board, delta));
    } else {
        assert(moves@ =~= old(moves)@ + keep(*board, delta));
    }
}

/// Appends the move from `from` to `to` if it does not leave the mover in check.
fn push_if_legal(
    moves: &mut Vec<Delta>,
    board: &Board,
    move_type: MoveType,
    from: Index2D,
    to: Index2D,
)
    requires
        delta_fits(*board, mk(*board, move_type, from, to)),
        own_piece_at(*board, from),
        all_fit(*board, old(moves)@),
        keys_distinct(old(moves)@),
        forall|i: int| 0 <= i < old(moves)@.len() ==> !((#[trigger] old(moves)@[i]).src == from
            && old(moves)@[i].dst == to),
    ensures
        final(moves)@ == old(moves)@ + keep(*board, mk(*board, move_type, from, to)),
        all_fit(*board, final(moves)@),
        keys_distinct(final(moves)@),
{
    let delta = Delta {
        move_type,
        src: from,
        dst: to,
        prev_en_passant: board.en_passant,
        prev_castling: board.castling_availability,
        prev_checks: board.checks,
        promotion: None,
    };
    push_delta(moves, board, delta);
}

/// The four promotions of a pawn move, queen first, each kept if legal.
pub open spec fn promotions(b: Board, t: MoveType, src: Index2D, dst: Index2D) -> Seq<Delta> {
    keep(b, mk_promo(b, t, src, dst, Kind::Queen)) + keep(b, mk_promo(b, t, src, dst, Kind::Rook))
        + keep(b, mk_promo(b, t, src, dst, Kind::Bishop)) + keep(
        b,
        mk_promo(b, t, src, dst, Kind::Knight),
    )
}

/// Appends the legal promotions of the pawn move from `from` to `to`.
fn push_promotions(
    moves: &mut Vec<Delta>,
    board: &Board,
    move_type: MoveType,
    from: Index2D,
    to: Index2D,
)
    requires
        forall|k: Kind|
            (k == Kind::Queen || k == Kind::Rook || k == Kind::Bishop || k == Kind::Knight)
                ==> delta_fits(*board, #[trigger] mk_promo(*board, move_type, from, to, k)),
        own_piece_at(*board, from),
        all_fit(*board, old(moves)@),
        keys_distinct(old(moves)@),
        forall|i: int| 0 <= i < old(moves)@.len() ==> !((#[trigger] old(moves)@[i]).src == from
            && old(moves)@[i].dst == to),
    ensures
        final(moves)@ == old(moves)@ + promotions(*board, move_type, from, to),
        all_fit(*board, final(moves)@),
        keys_distinct(final(moves)@),
        forall|i: int|
            old(moves)@.len() <= i < final(moves)@.len() ==> (#[trigger] final(moves)@[i]).src == from
                && final(moves)@[i].dst == to,
{
    let ghost start = moves@;
    let base = Delta {
        move_type,
        src: from,
        dst: to,
        prev_en_passant: board.en_passant,
        prev_castling: board.castling_availability,
        prev_checks: board.checks,
        promotion: Some(Kind::Queen),
    };
    assert(base == mk_promo(*board, move_type, from, to, Kind::Queen));
    push_delta(moves, board, base);
    let rook = Delta { promotion: Some(Kind::Rook), ..base };
    assert(rook == mk_promo(*board, move_type, from, to, Kind::Rook));
    push_delta(moves, board, rook);
    let bishop = Delta { promotion: Some(Kind::Bishop), ..base };
    assert(bishop == mk_promo(*board, move_type, from, to, Kind::Bishop));
    push_delta(moves, board, bishop);
    let knight = Delta { promotion: Some(Kind::Knight), ..base };
    assert(knight == mk_promo(*board, move_type, from, to, Kind::Knight));
    push_delta(moves, board, knight);
    assert(moves@ =~= start + promotions(*board, move_type, from, to));
}

/// Appends the one-step move from `src` onto `(x, y)`, when it is on the board and
/// not onto a friendly piece.
fn push_step(moves: &mut Vec<Delta>, board: &Board, src: Index2D, x: i64, y: i64)
    requires
        src.valid(),
        own_piece_at(*board, src),
        board.at(src.x as int, src.y as int).unwrap().kind != Kind::Pawn,
        all_fit(*board, old(moves)@),
        -2 <= x <= 9,
        -2 <= y <= 9,
        x != src.x || y != src.y,
        keys_distinct(old(moves)@),
        on_board(x as int, y as int) ==> forall|i: int|
            0 <= i < old(moves)@.len() ==> !((#[trigger] old(moves)@[i]).src == src
                && old(moves)@[i].dst == sq(x as int, y as int)),
    ensures
        final(moves)@ == old(moves)@ + step_moves(*board, src, x as int, y as int),
        all_fit(*board, final(moves)@),
        keys_distinct(final(moves)@),
        forall|i: int|
            old(moves)@.len() <= i < final(moves)@.len() ==> (#[trigger] final(moves)@[i]).src == src
                && final(moves)@[i].dst == sq(x as int, y as int),
{
    if x < 0 || x >= 8 || y < 0 || y >= 8 {
        assert(moves@ =~= old(moves)@ + step_moves(*board, src, x as int, y as int));
        return ;
    }
    let to = Index2D { x: x as usize, y: y as usize };
    match board.get(to) {
        None => push_if_legal(moves, board, MoveType::Regular, src, to),
        Some(p) => {
            if p.color != board.turn {
                push_if_legal(moves, board, MoveType::Capture(p), src, to);
            } else {
                assert(moves@ =~= old(moves)@ + step_moves(*board, src, x as int, y as int));
            }
        },
    }
}

/// Knight moves from `src`.
fn generate_knight(moves: &mut Vec<Delta>, board: &Board, src: Index2D)
    requires
        src.valid(),
        own_piece_at(*board, src),
        board.at(src.x as int, src.y as int).unwrap().kind != Kind::Pawn,
        all_fit(*board, old(moves)@),
        keys_distinct(old(moves)@),
        none_from(old(moves)@, src),
    ensures
        final(moves)@ == old(moves)@ + jump_moves(*board, src, 0),
        all_fit(*board, final(moves)@),
        keys_distinct(final(moves)@),
        all_from(final(moves)@, old(moves)@.len() as int, src),
        forall|j: int|
            old(moves)@.len() <= j < final(moves)@.len() ==> jump_index(
                off_x(#[trigger] final(moves)@[j]),
                off_y(final(moves)@[j]),
            ) < 8,
{
    let mut i: usize = 0;
    while i < 8
        invariant
            0 <= i <= 8,
            src.valid(),
            own_piece_at(*board, src),
            board.at(src.x as int, src.y as int).unwrap().kind != Kind::Pawn,
            all_fit(*board, moves@),
            keys_distinct(moves@),
            moves@.len() >= old(moves)@.len(),
            all_from(moves@, old(moves)@.len() as int, src),
            none_from(old(moves)@, src),
            forall|j: int|
                0 <= j < moves@.len() ==> (#[trigger] moves@[j]).src != src || (j >= old(moves)@.len()
                    && jump_index(off_x(moves@[j]), off_y(moves@[j])) < i),
            forall|j: int| 0 <= j < old(moves)@.len() ==> #[trigger] moves@[j] == old(moves)@[j],
            moves@ + jump_moves(*board, src, i as int) == old(moves)@ + jump_moves(*board, src, 0),
        decreases 8 - i,
    {
        let ghost before = moves@;
        let (dx, dy) = knight_step(i);
        push_step(moves, board, src, src.x as i64 + dx, src.y as i64 + dy);
        assert(before + jump_moves(*board, src, i as int) =~= moves@ + jump_moves(
            *board,
            src,
            i + 1,
        ));
        i = i + 1;
    }
}

/// Single king steps from `src`.
fn generate_king_steps(moves: &mut Vec<Delta>, board: &Board, src: Index2D)
    requires
        src.valid(),
        own_piece_at(*board, src),
        board.at(src.x as int, src.y as int).unwrap().kind != Kind::Pawn,
        all_fit(*board, old(moves)@),
        keys_distinct(old(moves)@),
        none_from(old(moves)@, src),
    ensures
        final(moves)@ == old(moves)@ + king_steps(*board, src, 0),
        all_fit(*board, final(moves)@),
        keys_distinct(final(moves)@),
        all_from(final(moves)@, old(moves)@.len() as int, src),
        forall|j: int|
            old(moves)@.len() <= j < final(moves)@.len() ==> dir_index(
                off_x(#[trigger] final(moves)@[j]),
                off_y(final(moves)@[j]),
            ) < 8,
{
    let mut i: usize = 0;
    while i < 8
        invariant
            0 <= i <= 8,
            src.valid(),
            own_piece_at(*board, src),
            board.at(src.x as int, src.y as int).unwrap().kind != Kind::Pawn,
            all_fit(*board, moves@),
            keys_distinct(moves@),
            moves@.len() >= old(moves)@.len(),
            all_from(moves@, old(moves)@.len() as int, src),
            none_from(old(moves)@, src),
            forall|j: int|
                0 <= j < moves@.len() ==> (#[trigger] moves@[j]).src != src || (j >= old(moves)@.len()
                    && dir_index(off_x(moves@[j]), off_y(moves@[j])) < i),
            forall|j: int| 0 <= j < old(moves)@.len() ==> #[trigger] moves@[j] == old(moves)@[j],
            moves@ + king_steps(*board, src, i as int) == old(moves)@ + king_steps(*board, src, 0),
        decreases 8 - i,
    {
        let ghost before = moves@;
        let (dx, dy) = ray_step(i);
        push_step(moves, board, src, src.x as i64 + dx, src.y as i64 + dy);
        assert(before + king_steps(*board, src, i as int) =~= moves@ + king_steps(
            *board,
            src,
            i + 1,
        ));
        i = i + 1;
    }
}

/// Sliding moves from `src` along direction `d`.
fn generate_ray(moves: &mut Vec<Delta>, board: &Board, src: Index2D, d: usize)
    requires
        src.valid(),
        d < 8,
        own_piece_at(*board, src),
        board.at(src.x as int, src.y as int).unwrap().kind != Kind::Pawn,
        all_fit(*board, old(moves)@),
        keys_distinct(old(moves)@),
        forall|j: int|
            0 <= j < old(moves)@.len() ==> (#[trigger] old(moves)@[j]).src != src || ray_dir_of(
                old(moves)@[j],
            ) < d,
    ensures
        final(moves)@ == old(moves)@ + ray_moves(*board, src, d as int, 1),
        all_fit(*board, final(moves)@),
        keys_distinct(final(moves)@),
        all_from(final(moves)@, old(moves)@.len() as int, src),
        forall|j: int|
            old(moves)@.len() <= j < final(moves)@.len() ==> ray_dir_of(#[trigger] final(moves)@[j])
                == d,
{
    let (dx, dy) = ray_step(d);
    let mut x: i64 = src.x as i64;
    let mut y: i64 = src.y as i64;
    let mut k: usize = 1;
    let mut stop = false;
    while k <= 7 && !stop
        invariant
            1 <= k <= 8,
            d < 8,
            src.valid(),
            own_piece_at(*board, src),
            board.at(src.x as int, src.y as int).unwrap().kind != Kind::Pawn,
            all_fit(*board, moves@),
            keys_distinct(moves@),
            moves@.len() >= old(moves)@.len(),
            all_from(moves@, old(moves)@.len() as int, src),
            forall|j: int|
                old(moves)@.len() <= j < moves@.len() ==> ray_dir_of(#[trigger] moves@[j]) == d,
            forall|j: int|
                0 <= j < moves@.len() ==> (#[trigger] moves@[j]).src != src || ray_dir_of(moves@[j])
                    < d || (ray_dir_of(moves@[j]) == d && dist(off_x(moves@[j]), off_y(moves@[j]))
                    < k),
            dx == ray_dx(d as int),
            dy == ray_dy(d as int),
            x == ray_x(src.x as int, d as int, k - 1),
            y == ray_y(src.y as int, d as int, k - 1),
            -1 <= x <= 8,
            -1 <= y <= 8,
            !stop ==> on_board(x as int, y as int),
            moves@ + (if stop {
                Seq::empty()
            } else {
                ray_moves(*board, src, d as int, k as int)
            }) == old(moves)@ + ray_moves(*board, src, d as int, 1),
        decreases 8 - k,
    {
        let ghost before = moves@;
        x = x + dx;
        y = y + dy;
        assert(x == ray_x(src.x as int, d as int, k as int));
        assert(y == ray_y(src.y as int, d as int, k as int));
        if x < 0 || x >= 8 || y < 0 || y >= 8 {
            stop = true;
            assert(before + ray_moves(*board, src, d as int, k as int) =~= moves@);
        } else {
            proof {
                lemma_ray_moves_away(src.x as int, src.y as int, d as int, k as int);
            }
            assert(x != src.x || y != src.y);
            assert(dir_index(ray_dx(d as int), ray_dy(d as int)) == d);
            let to = Index2D { x: x as usize, y: y as usize };
            match board.get(to) {
                None => {
                    push_if_legal(moves, board, MoveType::Regular, src, to);
                    assert(before + ray_moves(*board, src, d as int, k as int) =~= moves@
                        + ray_moves(*board, src, d as int, k + 1));
                },
                Some(p) => {
                    if p.color != board.turn {
                        push_if_legal(moves, board, MoveType::Capture(p), src, to);
                    }
                    stop = true;
                    assert(before + ray_moves(*board, src, d as int, k as int) =~= moves@);
                },
            }
        }
        k = k + 1;
    }
    assert(moves@ =~= moves@ + Seq::<Delta>::empty());
    if !stop {
        assert(ray_moves(*board, src, d as int, k as int) =~= Seq::<Delta>::empty());
    }
}

/// A ray step of at least one square leaves the starting square.
pub proof fn lemma_ray_moves_away(x: int, y: int, d: int, k: int)
    requires
        0 <= d < 8,
        k >= 1,
    ensures
        ray_x(x, d, k) != x || ray_y(y, d, k) != y,
        ray_dx(d) > 0 ==> ray_x(x, d, k) == x + k,
        ray_dx(d) < 0 ==> ray_x(x, d, k) == x - k,
        ray_dx(d) == 0 ==> ray_x(x, d, k) == x,
        ray_dy(d) > 0 ==> ray_y(y, d, k) == y + k,
        ray_dy(d) < 0 ==> ray_y(y, d, k) == y - k,
        ray_dy(d) == 0 ==> ray_y(y, d, k) == y,
    decreases k,
{
    assert(ray_x(x, d, 0) == x && ray_y(y, d, 0) == y);
    if k > 1 {
        lemma_ray_moves_away(x, y, d, k - 1);
    }
    assert(ray_dx(d) != 0 || ray_dy(d) != 0);
}

/// Sliding moves from `src` along directions `first .. last`.
fn generate_slider(moves: &mut Vec<Delta>, board: &Board, src: Index2D, first: usize, last: usize)
    requires
        src.valid(),
        first <= last <= 8,
        own_piece_at(*board, src),
        board.at(src.x as int, src.y as int).unwrap().kind != Kind::Pawn,
        all_fit(*board, old(moves)@),
        keys_distinct(old(moves)@),
        none_from(old(moves)@, src),
    ensures
        final(moves)@ == old(moves)@ + slider_moves(*board, src, first as int, last as int),
        all_fit(*board, final(moves)@),
        keys_distinct(final(moves)@),
        all_from(final(moves)@, old(moves)@.len() as int, src),
{
    let mut d: usize = first;
    while d < last
        invariant
            first <= d <= last <= 8,
            src.valid(),
            own_piece_at(*board, src),
            board.at(src.x as int, src.y as int).unwrap().kind != Kind::Pawn,
            all_fit(*board, moves@),
            keys_distinct(moves@),
            moves@.len() >= old(moves)@.len(),
            all_from(moves@, old(moves)@.len() as int, src),
            none_from(old(moves)@, src),
            forall|j: int| 0 <= j < old(moves)@.len() ==> #[trigger] moves@[j] == old(moves)@[j],
            forall|j: int|
                0 <= j < moves@.len() ==> (#[trigger] moves@[j]).src != src || ray_dir_of(moves@[j])
                    < d,
            moves@ + slider_moves(*board, src, d as int, last as int) == old(moves)@ + slider_moves(
                *board,
                src,
                first as int,
                last as int,
            ),
        decreases last - d,
    {
        let ghost before = moves@;
        generate_ray(moves, board, src, d);
        assert(before + slider_moves(*board, src, d as int, last as int) =~= moves@ + slider_moves(
            *board,
            src,
            d + 1,
            last as int,
        ));
        d = d + 1;
    }
    assert(moves@ =~= moves@ + slider_moves(*board, src, d as int, last as int));
}

/// Pawn pushes from `src` for the side to move.
fn generate_pawn_pushes(moves: &mut Vec<Delta>, board: &Board, src: Index2D)
    requires
        src.valid(),
        own_piece_at(*board, src),
        board.at(src.x as int, src.y as int).unwrap().kind == Kind::Pawn,
        all_fit(*board, old(moves)@),
        keys_distinct(old(moves)@),
        none_from(old(moves)@, src),
    ensures
        final(moves)@ == old(moves)@ + pawn_pushes(*board, src),
        all_fit(*board, final(moves)@),
        keys_distinct(final(moves)@),
        forall|j: int|
            old(moves)@.len() <= j < final(moves)@.len() ==> (#[trigger] final(moves)@[j]).src == src
                && off_x(final(moves)@[j]) == 0,
{
    let (dir, start_rank, last_rank): (i64, usize, i64) = match board.turn {
        Color::White => (1, 1, 7),
        Color::Black => (-1, 6, 0),
    };
    let y1: i64 = src.y as i64 + dir;
    if 0 <= y1 && y1 < 8 {
        let one = Index2D { x: src.x, y: y1 as usize };
        if is_square_empty(board, one) {
            if y1 == last_rank {
                push_promotions(moves, board, MoveType::Regular, src, one);
                return ;
            }
            push_if_legal(moves, board, MoveType::Regular, src, one);
            if src.y == start_rank {
                let two = Index2D { x: src.x, y: (y1 + dir) as usize };
                if is_square_empty(board, two) {
                    push_if_legal(moves, board, MoveType::Regular, src, two);
                }
            }
        }
    }
    assert(moves@ =~= old(moves)@ + pawn_pushes(*board, src));
}

/// Pawn moves from `src` for the side to move: pushes, then captures to the
/// right and to the left.
fn generate_pawn(moves: &mut Vec<Delta>, board: &Board, src: Index2D)
    requires
        src.valid(),
        own_piece_at(*board, src),
        board.at(src.x as int, src.y as int).unwrap().kind == Kind::Pawn,
        all_fit(*board, old(moves)@),
        keys_distinct(old(moves)@),
        none_from(old(moves)@, src),
    ensures
        final(moves)@ == old(moves)@ + pawn_moves(*board, src),
        all_fit(*board, final(moves)@),
        keys_distinct(final(moves)@),
        all_from(final(moves)@, old(moves)@.len() as int, src),
{
    let ghost start = moves@;
    generate_pawn_pushes(moves, board, src);
    assert(forall|j: int|
        0 <= j < moves@.len() ==> (#[trigger] moves@[j]).src != src || (j >= start.len() && off_x(
            moves@[j],
        ) == 0));
    pawn_capture_side(moves, board, src, 1);
    assert(forall|j: int|
        0 <= j < moves@.len() ==> (#[trigger] moves@[j]).src != src || (j >= start.len() && (off_x(
            moves@[j],
        ) == 0 || off_x(moves@[j]) == 1)));
    pawn_capture_side(moves, board, src, -1);
    assert(moves@ =~= start + pawn_moves(*board, src));
}

/// Pawn capture from `src` towards file offset `side`, en passant included.
fn pawn_capture_side(moves: &mut Vec<Delta>, board: &Board, src: Index2D, side: i64)
    requires
        src.valid(),
        side == 1 || side == -1,
        own_piece_at(*board, src),
        board.at(src.x as int, src.y as int).unwrap().kind == Kind::Pawn,
        all_fit(*board, old(moves)@),
        keys_distinct(old(moves)@),
        forall|j: int|
            0 <= j < old(moves)@.len() ==> (#[trigger] old(moves)@[j]).src != src || off_x(
                old(moves)@[j],
            ) != side,
    ensures
        final(moves)@ == old(moves)@ + pawn_capture(*board, src, side as int),
        all_fit(*board, final(moves)@),
        keys_distinct(final(moves)@),
        forall|j: int|
            old(moves)@.len() <= j < final(moves)@.len() ==> (#[trigger] final(moves)@[j]).src == src
                && off_x(final(moves)@[j]) == side,
{
    let (dir, last_rank): (i64, i64) = match board.turn {
        Color::White => (1, 7),
        Color::Black => (-1, 0),
    };
    let x: i64 = src.x as i64 + side;
    let y: i64 = src.y as i64 + dir;
    if x < 0 || x >= 8 || y < 0 || y >= 8 {
        assert(moves@ =~= old(moves)@ + pawn_capture(*board, src, side as int));
        return ;
    }
    let to = Index2D { x: x as usize, y: y as usize };
    match board.get(to) {
        Some(p) => {
            if p.color != board.turn && y == last_rank {
                push_promotions(moves, board, MoveType::Capture(p), src, to);
            } else if p.color != board.turn {
                push_if_legal(moves, board, MoveType::Capture(p), src, to);
            } else {
                assert(moves@ =~= old(moves)@ + pawn_capture(*board, src, side as int));
            }
        },
        None => {
            let victim = Index2D { x: x as usize, y: src.y };
            let enemy_pawn = Piece { kind: Kind::Pawn, color: board.turn.invert() };
            let is_victim = match board.get(victim) {
                Some(v) => v == enemy_pawn,
                None => false,
            };
            if y != last_rank && is_square_en_passant(board, to) && is_victim {
                push_if_legal(moves, board, MoveType::EnPassant, src, to);
            } else {
                assert(moves@ =~= old(moves)@ + pawn_capture(*board, src, side as int));
            }
        },
    }
}

/// Castling of the side to move on one wing, the king standing on `src`.
fn generate_castle(moves: &mut Vec<Delta>, board: &Board, src: Index2D, kingside: bool)
    requires
        src.valid(),
        own_piece_at(*board, src),
        board.at(src.x as int, src.y as int).unwrap().kind != Kind::Pawn,
        all_fit(*board, old(moves)@),
        keys_distinct(old(moves)@),
        src.x == 4 ==> forall|j: int|
            0 <= j < old(moves)@.len() ==> !((#[trigger] old(moves)@[j]).src == src
                && old(moves)@[j].dst == sq(if kingside { 6 } else { 2 }, src.y as int)),
    ensures
        final(moves)@ == old(moves)@ + castle_moves(*board, src, kingside),
        all_fit(*board, final(moves)@),
        keys_distinct(final(moves)@),
        forall|j: int|
            old(moves)@.len() <= j < final(moves)@.len() ==> (#[trigger] final(moves)@[j]).src == src
                && final(moves)@[j].dst == sq(if kingside { 6 } else { 2 }, src.y as int),
{
    let c = board.turn;
    let e = c.invert();
    let r: usize = match c {
        Color::White => 0,
        Color::Black => 7,
    };
    let right: u32 = match c {
        Color::White => if kingside { 1 } else { 2 },
        Color::Black => if kingside { 4 } else { 8 },
    };
    let rook = Some(Piece { kind: Kind::Rook, color: c });
    let king = Some(Piece { kind: Kind::King, color: c });
    let ok = if src.x != 4 || src.y != r || board.get(src) != king || board.castling_availability
        & right == 0 {
        false
    } else if is_attacked(board, src, e) {
        false
    } else if kingside {
        board.get(Index2D { x: 7, y: r }) == rook && is_square_empty(board, Index2D { x: 5, y: r })
            && is_square_empty(board, Index2D { x: 6, y: r }) && !is_attacked(
            board,
            Index2D { x: 5, y: r },
            e,
        ) && !is_attacked(board, Index2D { x: 6, y: r }, e)
    } else {
        board.get(Index2D { x: 0, y: r }) == rook && is_square_empty(board, Index2D { x: 1, y: r })
            && is_square_empty(board, Index2D { x: 2, y: r }) && is_square_empty(
            board,
            Index2D { x: 3, y: r },
        ) && !is_attacked(board, Index2D { x: 3, y: r }, e) && !is_attacked(
            board,
            Index2D { x: 2, y: r },
            e,
        )
    };
    if ok {
        let dst_x: usize = if kingside { 6 } else { 2 };
        push_if_legal(moves, board, MoveType::Castle, src, Index2D { x: dst_x, y: r });
    } else {
        assert(moves@ =~= old(moves)@ + castle_moves(*board, src, kingside));
    }
}

/// King moves from `src`: single steps, then castling on the king's and the queen's wing.
fn generate_king(moves: &mut Vec<Delta>, board: &Board, src: Index2D)
    requires
        src.valid(),
        own_piece_at(*board, src),
        board.at(src.x as int, src.y as int).unwrap().kind != Kind::Pawn,
        all_fit(*board, old(moves)@),
        keys_distinct(old(moves)@),
        none_from(old(moves)@, src),
    ensures
        final(moves)@ == old(moves)@ + king_moves(*board, src),
        all_fit(*board, final(moves)@),
        keys_distinct(final(moves)@),
        all_from(final(moves)@, old(moves)@.len() as int, src),
{
    let ghost start = moves@;
    generate_king_steps(moves, board, src);
    let ghost steps = moves@;
    generate_castle(moves, board, src, true);
    let ghost one = moves@;
    assert(forall|j: int|
        0 <= j < one.len() ==> (#[trigger] one[j]).src != src || (j >= start.len() && (dir_index(
            off_x(one[j]),
            off_y(one[j]),
        ) < 8 || one[j].dst == sq(6, src.y as int)))) by {
        assert(forall|j: int| 0 <= j < steps.len() ==> #[trigger] one[j] == steps[j]);
    }
    generate_castle(moves, board, src, false);
    assert(moves@ =~= start + king_moves(*board, src));
}

/// The legal moves from `src` of a piece of kind `kind`, appended to `moves`.
pub(crate) fn generate_kind(moves: &mut Vec<Delta>, board: &Board, src: Index2D, kind: Kind)
    requires
        own_piece_at(*board, src),
        board.at(src.x as int, src.y as int).unwrap().kind == kind,
        all_fit(*board, old(moves)@),
        keys_distinct(old(moves)@),
        none_from(old(moves)@, src),
    ensures
        final(moves)@ == old(moves)@ + kind_moves(*board, src, kind),
        all_fit(*board, final(moves)@),
        keys_distinct(final(moves)@),
        all_from(final(moves)@, old(moves)@.len() as int, src),
{
    match kind {
        Kind::Pawn => generate_pawn(moves, board, src),
        Kind::Knight => generate_knight(moves, board, src),
        Kind::Bishop => generate_slider(moves, board, src, 0, 4),
        Kind::Rook => generate_slider(moves, board, src, 4, 8),
        Kind::Queen => generate_slider(moves, board, src, 0, 8),
        Kind::King => generate_king(moves, board, src),
    }
}

/// The legal moves of the piece on `src`, appended to `moves`.
pub(crate) fn generate_at(moves: &mut Vec<Delta>, board: &Board, src: Index2D)
    requires
        src.valid(),
        all_fit(*board, old(moves)@),
        keys_distinct(old(moves)@),
        none_from(old(moves)@, src),
    ensures
        final(moves)@ == old(moves)@ + piece_moves(*board, src),
        all_fit(*board, final(moves)@),
        keys_distinct(final(moves)@),
        all_from(final(moves)@, old(moves)@.len() as int, src),
{
    match board.get(src) {
        Some(piece) => {
            if piece.color != board.turn {
                assert(moves@ =~= old(moves)@ + piece_moves(*board, src));
                return ;
            }
            generate_kind(moves, board, src, piece.kind);
        },
        None => {
            assert(moves@ =~= old(moves)@ + piece_moves(*board, src));
        },
    }
}

/// Every legal move of the side to move, in board order (a1, b1, ..., h8) and,
/// for each piece, in its own order.
pub fn generate(board: &Board) -> (r: Vec<Delta>)
    ensures
        r@ == legal_moves(*board),
        all_fit(*board, r@),
        keys_distinct(r@),
{
    let mut moves: Vec<Delta> = Vec::new();
    let mut i: usize = 0;
    while i < 64
        invariant
            0 <= i <= 64,
            moves@ + moves_from(*board, i as int) == legal_moves(*board),
            all_fit(*board, moves@),
            keys_distinct(moves@),
            forall|j: int|
                0 <= j < moves@.len() ==> (#[trigger] moves@[j]).src.y * 8 + moves@[j].src.x < i,
        decreases 64 - i,
    {
        let ghost before = moves@;
        let src = Index2D { x: i % 8, y: i / 8 };
        assert(src.y * 8 + src.x == i);
        generate_at(&mut moves, board, src);
        assert(before + moves_from(*board, i as int) =~= moves@ + moves_from(*board, i + 1));
        i = i + 1;
    }
    assert(moves@ =~= moves@ + moves_from(*board, i as int));
    moves
}

/// The legal move from `from` to `to`, if there is one.
pub fn find_move(board: &Board, from: Index2D, to: Index2D) -> (r: Option<Delta>)
    ensures
        r matches Some(d) ==> d.src == from && d.dst == to && legal_moves(*board).contains(d),
        r.is_none() ==> forall|i: int|
            0 <= i < legal_moves(*board).len() ==> !(#[trigger] legal_moves(*board)[i].src == from
                && legal_moves(*board)[i].dst == to),
{
    let moves = generate(board);
    let mut i: usize = 0;
    while i < moves.len()
        invariant
            moves@ == legal_moves(*board),
            0 <= i <= moves@.len(),
            forall|j: int| 0 <= j < i ==> !(#[trigger] moves@[j].src == from && moves@[j].dst == to),
        decreases moves@.len() - i,
    {
        if moves[i].src == from && moves[i].dst == to {
            assert(legal_moves(*board)[i as int] == moves@[i as int]);
            return Some(moves[i]);
        }
        i = i + 1;
    }
    None
}

/// The square named by a file letter `a`..`h` and a rank digit `1`..`8`.
pub fn square_from_name(file: char, rank: char) -> (r: Option<Index2D>)
    ensures
        ('a' <= file <= 'h' && '1' <= rank <= '8') ==> r == Some(
            sq(file as int - 'a' as int, rank as int - '1' as int),
        ),
        !('a' <= file <= 'h' && '1' <= rank <= '8') ==> r.is_none(),
{
    if 'a' <= file && file <= 'h' && '1' <= rank && rank <= '8' {
        Some(Index2D { x: (file as u32 - 'a' as u32) as usize, y: (rank as u32 - '1' as u32) as usize })
    } else {
        None
    }
}

/// Two moves of the side to move that fit `b` and lead to the same position move
/// between the same squares.
pub proof fn lemma_made_injective(b: Board, d1: Delta, d2: Delta)
    requires
        delta_fits(b, d1),
        delta_fits(b, d2),
        mover(b, d1).color == b.turn,
        mover(b, d2).color == b.turn,
        made(b, d1) == made(b, d2),
    ensures
        d1.src == d2.src,
        d1.dst == d2.dst,
        d1.promotion == d2.promotion,
{
    let n1 = made(b, d1);
    let n2 = made(b, d2);
    let s1x = d1.src.x as int;
    let s1y = d1.src.y as int;
    let s2x = d2.src.x as int;
    let s2y = d2.src.y as int;
    assert(n1.at(s1x, s1y).is_none());
    assert(n2.at(s2x, s2y).is_none());
    assert(n1.at(s2x, s2y).is_none());
    assert(n2.at(s1x, s1y).is_none());
    assert(d1.src == d2.src);
    let t1x = d1.dst.x as int;
    let t1y = d1.dst.y as int;
    let t2x = d2.dst.x as int;
    let t2y = d2.dst.y as int;
    assert(n1.at(t1x, t1y) == Some(arriving(mover(b, d1), d1)));
    assert(n2.at(t2x, t2y) == Some(arriving(mover(b, d2), d2)));
    assert(n2.at(t1x, t1y) == Some(arriving(mover(b, d1), d1)));
    assert(n1.at(t2x, t2y) == Some(arriving(mover(b, d2), d2)));
    assert(d1.dst == d2.dst);
    assert(arriving(mover(b, d1), d1) == arriving(mover(b, d2), d2));
}

/// Making a move and then unmaking it gives back the position it was made on.
pub proof fn lemma_make_unmake(b: Board, d: Delta)
    requires
        delta_fits(b, d),
    ensures
        unmade(made(b, d), d) == b,
{
    let r = unmade(made(b, d), d);
    assert forall|x: int, y: int| on_board(x, y) implies #[trigger] r.at(x, y) == b.at(x, y) by {}
    lemma_board_ext(r, b);
}

} // verus!
