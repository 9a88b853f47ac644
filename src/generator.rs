//! Successor positions: all of them, or those of one piece at a time.

use vstd::prelude::*;
use crate::chess_structs::{on_board, Board, Color, Index2D, Kind, Piece, WHITE_KINGSIDE};
use crate::generator2::{
    all_fit, generate, generate_kind, kind_moves, legal_moves, made, make_move, mk, own_piece_at,
    piece_moves, sq, Delta, MoveType, is_legal, placed, lemma_made_injective, castle_ok, castle_moves,
    keep, king_steps, king_moves, moves_from, lemma_ray_moves_away,
};
use crate::threats::{
    attacker_by_jump, attacker_on_ray, in_check, is_attacked_spec, lemma_in_check_same_squares,
    ray_clear, ray_dx, ray_dy, ray_x, ray_y,
};

verus! {

/// The positions the moves `ds` lead to from `b`, in order.
pub open spec fn boards_of(b: Board, ds: Seq<Delta>) -> Seq<Board> {
    ds.map_values(|d: Delta| made(b, d))
}

/// Every position reachable from `b` by one legal ply, in move-generation order.
pub open spec fn successors(b: Board) -> Seq<Board> {
    boards_of(b, legal_moves(b))
}

/// The positions reached from `board` by playing each of `moves`.
fn play_all(board: &Board, moves: &Vec<Delta>) -> (r: Vec<Board>)
    requires
        all_fit(*board, moves@),
    ensures
        r@ == boards_of(*board, moves@),
{
    let mut out: Vec<Board> = Vec::new();
    let mut i: usize = 0;
    while i < moves.len()
        invariant
            0 <= i <= moves@.len(),
            out@ == boards_of(*board, moves@.subrange(0, i as int)),
            all_fit(*board, moves@),
        decreases moves@.len() - i,
    {
        let mut next = *board;
        make_move(&moves[i], &mut next);
        out.push(next);
        assert(moves@.subrange(0, i + 1) =~= moves@.subrange(0, i as int).push(moves@[i as int]));
        assert(out@ =~= boards_of(*board, moves@.subrange(0, i + 1)));
        i = i + 1;
    }
    assert(moves@.subrange(0, i as int) =~= moves@);
    out
}

/// Every position reachable by one legal ply, in move-generation order. In each,
/// the other side is to move and the side that moved is not in check.
pub fn board_stream(board: &Board) -> (r: Vec<Board>)
    ensures
        r@ == successors(*board),
        forall|i: int| 0 <= i < r@.len() ==> (#[trigger] r@[i]).turn == board.turn.spec_invert(),
        forall|i: int| 0 <= i < r@.len() ==> !in_check(#[trigger] r@[i], board.turn),
        r@.no_duplicates(),
{
    let moves = generate(board);
    let r = play_all(board, &moves);
    assert forall|i: int, j: int| 0 <= i < r@.len() && 0 <= j < r@.len() && i != j implies r@[i]
        != r@[j] by {
        if r@[i] == r@[j] {
            lemma_made_injective(*board, moves@[i], moves@[j]);
            if i < j {
                assert(!(moves@[i].src == moves@[j].src && moves@[i].dst == moves@[j].dst
                    && moves@[i].promotion == moves@[j].promotion));
            } else {
                assert(!(moves@[j].src == moves@[i].src && moves@[j].dst == moves@[i].dst
                    && moves@[j].promotion == moves@[i].promotion));
            }
        }
    }
    assert forall|i: int| 0 <= i < r@.len() implies !in_check(#[trigger] r@[i], board.turn) by {
        let d = moves@[i];
        assert(is_legal(*board, d));
        lemma_in_check_same_squares(placed(*board, d), made(*board, d));
    }
    r
}

proof fn lemma_in_concat(a: Seq<Delta>, c: Seq<Delta>, x: Delta)
    requires
        a.contains(x) || c.contains(x),
    ensures
        (a + c).contains(x),
{
    if a.contains(x) {
        let i = choose|i: int| 0 <= i < a.len() && a[i] == x;
        assert((a + c)[i] == x);
    } else {
        let i = choose|i: int| 0 <= i < c.len() && c[i] == x;
        assert((a + c)[a.len() + i] == x);
    }
}

/// After castling on the king's wing from the position the law describes, the king
/// on g1 is not attacked: only the first rank changed, and there the rook on f1
/// shields it.
proof fn lemma_castled_king_safe(b: Board, d: Delta)
    requires
        b.turn == Color::White,
        b.at(4, 0) == Some(Piece { kind: Kind::King, color: Color::White }),
        b.at(7, 0) == Some(Piece { kind: Kind::Rook, color: Color::White }),
        b.at(5, 0).is_none(),
        b.at(6, 0).is_none(),
        !is_attacked_spec(b, 6, 0, Color::Black),
        d == mk(b, MoveType::Castle, sq(4, 0), sq(6, 0)),
    ensures
        !is_attacked_spec(placed(b, d), 6, 0, Color::Black),
{
    let p = placed(b, d);
    assert forall|x: int, y: int| on_board(x, y) && y >= 1 implies #[trigger] p.at(x, y) == b.at(x, y) by {}
    assert(p.at(5, 0) == Some(Piece { kind: Kind::Rook, color: Color::White }));
    assert(p.at(7, 0).is_none());
    assert forall|dd: int, k: int| 0 <= dd < 8 implies !#[trigger] attacker_on_ray(p, 6, 0, Color::Black, dd, k) by {
        if attacker_on_ray(p, 6, 0, Color::Black, dd, k) {
            lemma_ray_moves_away(6, 0, dd, k);
            lemma_ray_moves_away(6, 0, dd, 1);
            if ray_dy(dd) == 1 {
                assert forall|j: int| 1 <= j < k implies on_board(#[trigger] ray_x(6, dd, j), ray_y(0, dd, j))
                    && b.at(ray_x(6, dd, j), ray_y(0, dd, j)).is_none() by {
                    lemma_ray_moves_away(6, 0, dd, j);
                    assert(ray_clear(p, 6, 0, dd, k));
                }
                assert(attacker_on_ray(b, 6, 0, Color::Black, dd, k));
            } else if ray_dy(dd) == 0 && ray_dx(dd) == -1 && k >= 2 {
                assert(ray_clear(p, 6, 0, dd, k));
                assert(p.at(ray_x(6, dd, 1), ray_y(0, dd, 1)).is_none());
            }
        }
    }
    assert forall|i: int| !#[trigger] attacker_by_jump(p, 6, 0, Color::Black, i) by {
        if attacker_by_jump(p, 6, 0, Color::Black, i) {
            assert(attacker_by_jump(b, 6, 0, Color::Black, i));
        }
    }
}

/// With White to move, White's only king on e1 and its rook on h1, f1 and g1 empty,
/// none of e1, f1 and g1 attacked by Black, and White's king-side right set, one of
/// the successors has White's king on g1 and its rook on f1.
pub proof fn lemma_kingside_castle_available(b: Board)
    requires
        b.turn == Color::White,
        b.at(4, 0) == Some(Piece { kind: Kind::King, color: Color::White }),
        b.at(7, 0) == Some(Piece { kind: Kind::Rook, color: Color::White }),
        b.at(5, 0).is_none(),
        b.at(6, 0).is_none(),
        !is_attacked_spec(b, 4, 0, Color::Black),
        !is_attacked_spec(b, 5, 0, Color::Black),
        !is_attacked_spec(b, 6, 0, Color::Black),
        b.castling_availability & WHITE_KINGSIDE != 0,
        forall|x: int, y: int|
            on_board(x, y) && #[trigger] b.at(x, y) == Some(
                Piece { kind: Kind::King, color: Color::White },
            ) ==> x == 4 && y == 0,
    ensures
        exists|i: int|
            0 <= i < successors(b).len() && (#[trigger] successors(b)[i]).at(6, 0) == Some(
                Piece { kind: Kind::King, color: Color::White },
            ) && successors(b)[i].at(5, 0) == Some(Piece { kind: Kind::Rook, color: Color::White }),
{
    let e1 = sq(4, 0);
    let d = mk(b, MoveType::Castle, e1, sq(6, 0));
    let wk = Piece { kind: Kind::King, color: Color::White };
    assert(castle_ok(b, e1, true));
    lemma_castled_king_safe(b, d);
    let p = placed(b, d);
    assert(!in_check(p, Color::White)) by {
        if in_check(p, Color::White) {
            let (x, y) = choose|x: int, y: int|
                on_board(x, y) && p.at(x, y) == Some(wk) && #[trigger] is_attacked_spec(
                    p,
                    x,
                    y,
                    Color::White.spec_invert(),
                );
            if !(x == 6 && y == 0) {
                assert(b.at(x, y) == Some(wk));
            }
        }
    }
    assert(is_legal(b, d));
    assert(keep(b, d) =~= seq![d]);
    assert(castle_moves(b, e1, true).contains(d)) by {
        assert(castle_moves(b, e1, true)[0] == d);
    }
    lemma_in_concat(king_steps(b, e1, 0), castle_moves(b, e1, true), d);
    lemma_in_concat(king_steps(b, e1, 0) + castle_moves(b, e1, true), castle_moves(b, e1, false), d);
    assert(piece_moves(b, sq(4int % 8, 4int / 8)) == king_moves(b, e1));
    lemma_in_concat(piece_moves(b, sq(4int % 8, 4int / 8)), moves_from(b, 5), d);
    lemma_in_concat(piece_moves(b, sq(3int % 8, 3int / 8)), moves_from(b, 4), d);
    lemma_in_concat(piece_moves(b, sq(2int % 8, 2int / 8)), moves_from(b, 3), d);
    lemma_in_concat(piece_moves(b, sq(1int % 8, 1int / 8)), moves_from(b, 2), d);
    lemma_in_concat(piece_moves(b, sq(0int % 8, 0int / 8)), moves_from(b, 1), d);
    assert(legal_moves(b).contains(d));
    let i = choose|i: int| 0 <= i < legal_moves(b).len() && legal_moves(b)[i] == d;
    assert(successors(b)[i] == made(b, d));
    assert(made(b, d).at(6, 0) == Some(wk));
}

/// The kind of move that lands on `to`: a capture when a piece stands there.
pub open spec fn landing_type(b: Board, to: Index2D) -> MoveType {
    match b.at(to.x as int, to.y as int) {
        Some(p) => MoveType::Capture(p),
        None => MoveType::Regular,
    }
}

/// The position after moving the piece on `from` to `to` (capturing what stands
/// there): side to move flipped, castling rights, en-passant target and check flags
/// updated. Legality is not checked.
pub fn create_new_board(board: &Board, from: Index2D, to: Index2D) -> (r: Board)
    requires
        from.valid(),
        to.valid(),
        from != to,
        board.at(from.x as int, from.y as int).is_some(),
    ensures
        r == made(*board, mk(*board, landing_type(*board, to), from, to)),
{
    let move_type = match board.get(to) {
        Some(p) => MoveType::Capture(p),
        None => MoveType::Regular,
    };
    let delta = Delta {
        move_type,
        src: from,
        dst: to,
        prev_en_passant: board.en_passant,
        prev_castling: board.castling_availability,
        prev_checks: board.checks,
        promotion: None,
    };
    let mut next = *board;
    make_move(&delta, &mut next);
    next
}

/// The successors of one piece, handed out one at a time.
pub struct MoveItr {
    pub boards: Vec<Board>,
    pub next_index: usize,
}

impl MoveItr {
    /// The positions not handed out yet.
    pub open spec fn remaining(&self) -> Seq<Board> {
        self.boards@.subrange(self.next_index as int, self.boards@.len() as int)
    }

    pub open spec fn well_formed(&self) -> bool {
        self.next_index <= self.boards@.len()
    }

    /// The next successor, if any is left.
    pub fn next(&mut self) -> (r: Option<Board>)
        requires
            old(self).well_formed(),
        ensures
            final(self).well_formed(),
            old(self).remaining().len() == 0 ==> r.is_none() && final(self).remaining() == old(
                self,
            ).remaining(),
            old(self).remaining().len() > 0 ==> r == Some(old(self).remaining()[0])
                && final(self).remaining() == old(self).remaining().drop_first(),
    {
        if self.next_index < self.boards.len() {
            let b = self.boards[self.next_index];
            self.next_index = self.next_index + 1;
            assert(self.remaining() =~= old(self).remaining().drop_first());
            Some(b)
        } else {
            None
        }
    }
}

/// The successors of the piece on `pos`; none unless a piece of the side to move and
/// of kind `kind` stands there.
pub open spec fn kind_successors(b: Board, pos: Index2D, kind: Kind) -> Seq<Board> {
    if own_piece_at(b, pos) && b.at(pos.x as int, pos.y as int).unwrap().kind == kind {
        boards_of(b, kind_moves(b, pos, kind))
    } else {
        Seq::empty()
    }
}

fn kind_itr(board: &Board, pos: Index2D, kind: Kind) -> (r: MoveItr)
    ensures
        r.well_formed(),
        r.remaining() == kind_successors(*board, pos, kind),
{
    let mut moves: Vec<Delta> = Vec::new();
    if pos.x < 8 && pos.y < 8 {
        match board.get(pos) {
            Some(p) => {
                if p.color == board.turn && p.kind == kind {
                    generate_kind(&mut moves, board, pos, kind);
                }
            },
            None => {},
        }
    }
    let boards = play_all(board, &moves);
    let r = MoveItr { boards, next_index: 0 };
    assert(r.remaining() =~= kind_successors(*board, pos, kind));
    r
}

/// Successors of a king.
pub struct KingItr(pub MoveItr);

/// Successors of a knight.
pub struct KnightItr(pub MoveItr);

/// Successors of a rook.
pub struct RookItr(pub MoveItr);

/// Successors of a bishop.
pub struct BishopItr(pub MoveItr);

/// Successors of a queen.
pub struct QueenItr(pub MoveItr);

/// Successors of a pawn.
pub struct PawnItr(pub MoveItr);

impl KingItr {
    pub fn new(board: &Board, pos: Index2D) -> (r: KingItr)
        ensures
            r.0.well_formed(),
            r.0.remaining() == kind_successors(*board, pos, Kind::King),
    {
        KingItr(kind_itr(board, pos, Kind::King))
    }

    pub fn next(&mut self) -> (r: Option<Board>)
        requires
            old(self).0.well_formed(),
        ensures
            final(self).0.well_formed(),
            old(self).0.remaining().len() == 0 ==> r.is_none(),
            old(self).0.remaining().len() > 0 ==> r == Some(old(self).0.remaining()[0])
                && final(self).0.remaining() == old(self).0.remaining().drop_first(),
    {
        self.0.next()
    }
}

impl KnightItr {
    pub fn new(board: &Board, pos: Index2D) -> (r: KnightItr)
        ensures
            r.0.well_formed(),
            r.0.remaining() == kind_successors(*board, pos, Kind::Knight),
    {
        KnightItr(kind_itr(board, pos, Kind::Knight))
    }

    pub fn next(&mut self) -> (r: Option<Board>)
        requires
            old(self).0.well_formed(),
        ensures
            final(self).0.well_formed(),
            old(self).0.remaining().len() == 0 ==> r.is_none(),
            old(self).0.remaining().len() > 0 ==> r == Some(old(self).0.remaining()[0])
                && final(self).0.remaining() == old(self).0.remaining().drop_first(),
    {
        self.0.next()
    }
}

impl RookItr {
    pub fn new(board: &Board, pos: Index2D) -> (r: RookItr)
        ensures
            r.0.well_formed(),
            r.0.remaining() == kind_successors(*board, pos, Kind::Rook),
    {
        RookItr(kind_itr(board, pos, Kind::Rook))
    }

    pub fn next(&mut self) -> (r: Option<Board>)
        requires
            old(self).0.well_formed(),
        ensures
            final(self).0.well_formed(),
            old(self).0.remaining().len() == 0 ==> r.is_none(),
            old(self).0.remaining().len() > 0 ==> r == Some(old(self).0.remaining()[0])
                && final(self).0.remaining() == old(self).0.remaining().drop_first(),
    {
        self.0.next()
    }
}

impl BishopItr {
    pub fn new(board: &Board, pos: Index2D) -> (r: BishopItr)
        ensures
            r.0.well_formed(),
            r.0.remaining() == kind_successors(*board, pos, Kind::Bishop),
    {
        BishopItr(kind_itr(board, pos, Kind::Bishop))
    }

    pub fn next(&mut self) -> (r: Option<Board>)
        requires
            old(self).0.well_formed(),
        ensures
            final(self).0.well_formed(),
            old(self).0.remaining().len() == 0 ==> r.is_none(),
            old(self).0.remaining().len() > 0 ==> r == Some(old(self).0.remaining()[0])
                && final(self).0.remaining() == old(self).0.remaining().drop_first(),
    {
        self.0.next()
    }
}

impl QueenItr {
    pub fn new(board: &Board, pos: Index2D) -> (r: QueenItr)
        ensures
            r.0.well_formed(),
            r.0.remaining() == kind_successors(*board, pos, Kind::Queen),
    {
        QueenItr(kind_itr(board, pos, Kind::Queen))
    }

    pub fn next(&mut self) -> (r: Option<Board>)
        requires
            old(self).0.well_formed(),
        ensures
            final(self).0.well_formed(),
            old(self).0.remaining().len() == 0 ==> r.is_none(),
            old(self).0.remaining().len() > 0 ==> r == Some(old(self).0.remaining()[0])
                && final(self).0.remaining() == old(self).0.remaining().drop_first(),
    {
        self.0.next()
    }
}

impl PawnItr {
    pub fn new(board: &Board, pos: Index2D) -> (r: PawnItr)
        ensures
            r.0.well_formed(),
            r.0.remaining() == kind_successors(*board, pos, Kind::Pawn),
    {
        PawnItr(kind_itr(board, pos, Kind::Pawn))
    }

    pub fn next(&mut self) -> (r: Option<Board>)
        requires
            old(self).0.well_formed(),
        ensures
            final(self).0.well_formed(),
            old(self).0.remaining().len() == 0 ==> r.is_none(),
            old(self).0.remaining().len() > 0 ==> r == Some(old(self).0.remaining()[0])
                && final(self).0.remaining() == old(self).0.remaining().drop_first(),
    {
        self.0.next()
    }
}

/// Walks the board square by square (a1, b1, ..., h8) and hands out, for each
/// piece of the side to move, the iterator of its successors.
pub struct IteratorItr {
    pub board: Board,
    /// The next square to look at, `y * 8 + x`.
    pub square: usize,
}

impl IteratorItr {
    /// Moves on to the next square.
    fn inc_pos(&mut self)
        requires
            old(self).square < 64,
        ensures
            final(self).square == old(self).square + 1,
            final(self).board == old(self).board,
    {
        self.square = self.square + 1;
    }

    /// The successors of the next piece of the side to move, if one is left.
    pub fn next(&mut self) -> (r: Option<MoveItr>)
        requires
            old(self).square <= 64,
        ensures
            final(self).board == old(self).board,
            final(self).square <= 64,
            match r {
                None => final(self).square == 64 && forall|i: int|
                    old(self).square <= i < 64 ==> !own_piece_at(old(self).board, #[trigger] sq(i % 8, i / 8)),
                Some(itr) => {
                    let j = final(self).square - 1;
                    &&& old(self).square <= j < 64
                    &&& own_piece_at(old(self).board, sq(j % 8, j / 8))
                    &&& forall|i: int|
                        old(self).square <= i < j ==> !own_piece_at(old(self).board, #[trigger] sq(i % 8, i / 8))
                    &&& itr.well_formed()
                    &&& itr.remaining() == boards_of(old(self).board, piece_moves(old(self).board, sq(j % 8, j / 8)))
                },
            },
    {
        while self.square < 64
            invariant
                old(self).square <= self.square <= 64,
                self.board == old(self).board,
                forall|i: int|
                    old(self).square <= i < self.square ==> !own_piece_at(self.board, #[trigger] sq(i % 8, i / 8)),
            decreases 64 - self.square,
        {
            let pos = Index2D { x: self.square % 8, y: self.square / 8 };
            let board = self.board;
            self.inc_pos();
            if let Some(p) = board.get(pos) {
                if p.color == board.turn {
                    return Some(kind_itr(&board, pos, p.kind));
                }
            }
        }
        None
    }
}

impl Board {
    /// Walks this board's pieces of the side to move, first square first.
    pub fn iter(&self) -> (r: IteratorItr)
        ensures
            r.board == *self,
            r.square == 0,
    {
        IteratorItr { board: *self, square: 0 }
    }
}

} // verus!
