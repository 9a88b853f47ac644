//! Threat detection: whether a square is attacked by a color.

use vstd::prelude::*;
use crate::chess_structs::{on_board, Board, Color, Index2D, Kind, Piece};

verus! {

/// File step of ray direction `d`: the four diagonals, then the four orthogonals.
pub open spec fn ray_dx(d: int) -> int {
    if d == 0 || d == 1 || d == 4 { 1 } else if d == 2 || d == 3 || d == 5 { -1 } else { 0 }
}

/// Rank step of ray direction `d`.
pub open spec fn ray_dy(d: int) -> int {
    if d == 0 || d == 2 || d == 6 { 1 } else if d == 1 || d == 3 || d == 7 { -1 } else { 0 }
}

pub open spec fn is_diagonal(d: int) -> bool {
    0 <= d < 4
}

/// File of the square `k` steps from file `x` along direction `d`.
pub open spec fn ray_x(x: int, d: int, k: int) -> int
    decreases k,
{
    if k <= 0 { x } else { ray_x(x, d, k - 1) + ray_dx(d) }
}

/// Rank of the square `k` steps from rank `y` along direction `d`.
pub open spec fn ray_y(y: int, d: int, k: int) -> int
    decreases k,
{
    if k <= 0 { y } else { ray_y(y, d, k - 1) + ray_dy(d) }
}

pub open spec fn knight_dx(i: int) -> int {
    if i == 0 || i == 1 { 2 }
    else if i == 2 || i == 3 { 1 }
    else if i == 4 || i == 5 { -1 }
    else { -2 }
}

pub open spec fn knight_dy(i: int) -> int {
    if i == 2 || i == 4 { 2 }
    else if i == 0 || i == 6 { 1 }
    else if i == 1 || i == 7 { -1 }
    else { -2 }
}

/// Whether piece `p`, standing `k` steps from a target along direction `d`
/// (seen from the target), can capture on the target.
pub open spec fn attacks_along(p: Piece, d: int, k: int) -> bool {
    match p.kind {
        Kind::Queen => true,
        Kind::Rook => !is_diagonal(d),
        Kind::Bishop => is_diagonal(d),
        Kind::King => k == 1,
        Kind::Knight => false,
        Kind::Pawn => k == 1 && is_diagonal(d) && match p.color {
            // a White pawn captures upwards, so it stands one rank below
            Color::White => ray_dy(d) == -1,
            Color::Black => ray_dy(d) == 1,
        },
    }
}

/// The first `k - 1` squares along direction `d` from `(x, y)` are on the board and empty.
pub open spec fn ray_clear(b: Board, x: int, y: int, d: int, k: int) -> bool {
    forall|j: int|
        1 <= j < k ==> on_board(#[trigger] ray_x(x, d, j), ray_y(y, d, j)) && b.at(
            ray_x(x, d, j),
            ray_y(y, d, j),
        ).is_none()
}

/// A piece of `by` stands `k` steps along direction `d` from `(x, y)`, with nothing in between,
/// and can capture along that line.
pub open spec fn attacker_on_ray(b: Board, x: int, y: int, by: Color, d: int, k: int) -> bool {
    &&& 1 <= k <= 7
    &&& on_board(ray_x(x, d, k), ray_y(y, d, k))
    &&& ray_clear(b, x, y, d, k)
    &&& b.at(ray_x(x, d, k), ray_y(y, d, k)) matches Some(p)
    &&& p.color == by
    &&& attacks_along(p, d, k)
}

pub open spec fn attacker_by_jump(b: Board, x: int, y: int, by: Color, i: int) -> bool {
    &&& 0 <= i < 8
    &&& on_board(x + knight_dx(i), y + knight_dy(i))
    &&& b.at(x + knight_dx(i), y + knight_dy(i)) == Some(Piece { kind: Kind::Knight, color: by })
}

/// Some piece of `by` could capture on `(x, y)` on its next move (own check ignored).
pub open spec fn is_attacked_spec(b: Board, x: int, y: int, by: Color) -> bool {
    (exists|d: int, k: int| 0 <= d < 8 && #[trigger] attacker_on_ray(b, x, y, by, d, k))
        || (exists|i: int| #[trigger] attacker_by_jump(b, x, y, by, i))
}

/// The king of `c` stands on a square attacked by the other color.
pub open spec fn in_check(b: Board, c: Color) -> bool {
    exists|x: int, y: int|
        on_board(x, y) && b.at(x, y) == Some(Piece { kind: Kind::King, color: c })
            && #[trigger] is_attacked_spec(b, x, y, c.spec_invert())
}

pub(crate) fn ray_step(d: usize) -> (r: (i64, i64))
    requires
        d < 8,
    ensures
        r.0 == ray_dx(d as int),
        r.1 == ray_dy(d as int),
{
    match d {
        0 => (1, 1),
        1 => (1, -1),
        2 => (-1, 1),
        3 => (-1, -1),
        4 => (1, 0),
        5 => (-1, 0),
        6 => (0, 1),
        _ => (0, -1),
    }
}

pub(crate) fn knight_step(i: usize) -> (r: (i64, i64))
    requires
        i < 8,
    ensures
        r.0 == knight_dx(i as int),
        r.1 == knight_dy(i as int),
{
    match i {
        0 => (2, 1),
        1 => (2, -1),
        2 => (1, 2),
        3 => (1, -2),
        4 => (-1, 2),
        5 => (-1, -2),
        6 => (-2, 1),
        _ => (-2, -1),
    }
}

fn can_attack_along(p: Piece, d: usize, k: usize) -> (r: bool)
    requires
        d < 8,
    ensures
        r == attacks_along(p, d as int, k as int),
{
    match p.kind {
        Kind::Queen => true,
        Kind::Rook => d >= 4,
        Kind::Bishop => d < 4,
        Kind::King => k == 1,
        Kind::Knight => false,
        Kind::Pawn => k == 1 && d < 4 && match p.color {
            Color::White => d == 1 || d == 3,
            Color::Black => d == 0 || d == 2,
        },
    }
}

/// Whether some piece of `by_color` could capture on `target` on its next move,
/// ignoring whether that move would leave its own king in check.
pub fn is_attacked(board: &Board, target: Index2D, by_color: Color) -> (r: bool)
    requires
        target.valid(),
    ensures
        r == is_attacked_spec(*board, target.x as int, target.y as int, by_color),
{
    let ghost tx = target.x as int;
    let ghost ty = target.y as int;
    let mut d: usize = 0;
    while d < 8
        invariant
            0 <= d <= 8,
            target.valid(),
            tx == target.x,
            ty == target.y,
            forall|d2: int, k: int| 0 <= d2 < d ==> !#[trigger] attacker_on_ray(*board, tx, ty, by_color, d2, k),
        decreases 8 - d,
    {
        let (dx, dy) = ray_step(d);
        let mut x: i64 = target.x as i64;
        let mut y: i64 = target.y as i64;
        let mut k: usize = 1;
        let mut blocked = false;
        while k <= 7 && !blocked
            invariant
                1 <= k <= 8,
                d < 8,
                tx == target.x,
                ty == target.y,
                dx == ray_dx(d as int),
                dy == ray_dy(d as int),
                x == ray_x(tx, d as int, k - 1),
                y == ray_y(ty, d as int, k - 1),
                -1 <= x <= 8,
                -1 <= y <= 8,
                !blocked ==> on_board(x as int, y as int),
                !blocked ==> ray_clear(*board, tx, ty, d as int, k as int),
                blocked ==> forall|k2: int| #![auto] k2 >= k ==> !ray_clear(*board, tx, ty, d as int, k2),
                forall|k2: int| k2 < k ==> !#[trigger] attacker_on_ray(*board, tx, ty, by_color, d as int, k2),
            decreases 8 - k,
        {
            x = x + dx;
            y = y + dy;
            assert(x == ray_x(tx, d as int, k as int));
            assert(y == ray_y(ty, d as int, k as int));
            if x < 0 || x >= 8 || y < 0 || y >= 8 {
                assert forall|k2: int| k2 > k implies !ray_clear(*board, tx, ty, d as int, k2) by {
                    assert(!on_board(ray_x(tx, d as int, k as int), ray_y(ty, d as int, k as int)));
                }
                blocked = true;
            } else {
                match board.get(Index2D { x: x as usize, y: y as usize }) {
                    Some(piece) => {
                        if piece.color == by_color && can_attack_along(piece, d, k) {
                            assert(attacker_on_ray(*board, tx, ty, by_color, d as int, k as int));
                            return true;
                        }
                        assert forall|k2: int| k2 > k implies !ray_clear(*board, tx, ty, d as int, k2) by {
                            assert(board.at(x as int, y as int).is_some());
                        }
                        blocked = true;
                    },
                    None => {
                        assert forall|j: int| 1 <= j < k + 1 implies on_board(#[trigger] ray_x(tx, d as int, j), ray_y(ty, d as int, j)) && board.at(
                            ray_x(tx, d as int, j),
                            ray_y(ty, d as int, j),
                        ).is_none() by {
                            if j < k {
                                assert(ray_clear(*board, tx, ty, d as int, k as int));
                            }
                        }
                    },
                }
            }
            k = k + 1;
        }
        d = d + 1;
    }
    let mut i: usize = 0;
    while i < 8
        invariant
            0 <= i <= 8,
            target.valid(),
            tx == target.x,
            ty == target.y,
            forall|d2: int, k: int| 0 <= d2 < 8 ==> !#[trigger] attacker_on_ray(*board, tx, ty, by_color, d2, k),
            forall|i2: int| i2 < i ==> !#[trigger] attacker_by_jump(*board, tx, ty, by_color, i2),
        decreases 8 - i,
    {
        let (dx, dy) = knight_step(i);
        let x: i64 = target.x as i64 + dx;
        let y: i64 = target.y as i64 + dy;
        if 0 <= x && x < 8 && 0 <= y && y < 8 {
            match board.get(Index2D { x: x as usize, y: y as usize }) {
                Some(piece) => {
                    if piece.kind == Kind::Knight && piece.color == by_color {
                        assert(attacker_by_jump(*board, tx, ty, by_color, i as int));
                        return true;
                    }
                },
                None => {},
            }
        }
        i = i + 1;
    }
    false
}

/// The check flags of a board: bit 1 for White in check, bit 2 for Black in check.
pub open spec fn check_bits(b: Board) -> u8 {
    ((if in_check(b, Color::White) { 1int } else { 0int }) + (if in_check(b, Color::Black) {
        2int
    } else {
        0int
    })) as u8
}

/// Whether the king `king`, standing on `pos`, is attacked by the other color.
pub fn is_check(board: &Board, pos: Index2D, king: &Piece) -> (r: (Color, bool))
    requires
        pos.valid(),
    ensures
        r.0 == king.color,
        r.1 == is_attacked_spec(*board, pos.x as int, pos.y as int, king.color.spec_invert()),
{
    (king.color, is_attacked(board, pos, king.color.invert()))
}

/// Which kings are in check, White's first.
pub fn checks(board: &Board) -> (r: (bool, bool))
    ensures
        r.0 == in_check(*board, Color::White),
        r.1 == in_check(*board, Color::Black),
{
    let mut white = false;
    let mut black = false;
    let mut y: usize = 0;
    while y < 8
        invariant
            0 <= y <= 8,
            white == exists|x2: int, y2: int|
                0 <= y2 < y && 0 <= x2 < 8 && board.at(x2, y2) == Some(
                    Piece { kind: Kind::King, color: Color::White },
                ) && #[trigger] is_attacked_spec(*board, x2, y2, Color::Black),
            black == exists|x2: int, y2: int|
                0 <= y2 < y && 0 <= x2 < 8 && board.at(x2, y2) == Some(
                    Piece { kind: Kind::King, color: Color::Black },
                ) && #[trigger] is_attacked_spec(*board, x2, y2, Color::White),
        decreases 8 - y,
    {
        let mut x: usize = 0;
        while x < 8
            invariant
                0 <= y < 8,
                0 <= x <= 8,
                white == exists|x2: int, y2: int|
                    (0 <= y2 < y || (y2 == y && x2 < x)) && 0 <= x2 < 8 && board.at(x2, y2) == Some(
                        Piece { kind: Kind::King, color: Color::White },
                    ) && #[trigger] is_attacked_spec(*board, x2, y2, Color::Black),
                black == exists|x2: int, y2: int|
                    (0 <= y2 < y || (y2 == y && x2 < x)) && 0 <= x2 < 8 && board.at(x2, y2) == Some(
                        Piece { kind: Kind::King, color: Color::Black },
                    ) && #[trigger] is_attacked_spec(*board, x2, y2, Color::White),
            decreases 8 - x,
        {
            let pos = Index2D { x, y };
            match board.get(pos) {
                Some(piece) => {
                    if piece.kind == Kind::King {
                        let (color, attacked) = is_check(board, pos, &piece);
                        match color {
                            Color::White => {
                                white = white || attacked;
                            },
                            Color::Black => {
                                black = black || attacked;
                            },
                        }
                    }
                },
                None => {},
            }
            x = x + 1;
        }
        y = y + 1;
    }
    (white, black)
}

proof fn lemma_attacked_transfer(b1: Board, b2: Board, x: int, y: int, by: Color)
    requires
        b1.squares == b2.squares,
        is_attacked_spec(b1, x, y, by),
    ensures
        is_attacked_spec(b2, x, y, by),
{
    if exists|d: int, k: int| 0 <= d < 8 && #[trigger] attacker_on_ray(b1, x, y, by, d, k) {
        let (d, k) = choose|d: int, k: int| 0 <= d < 8 && #[trigger] attacker_on_ray(b1, x, y, by, d, k);
        assert(ray_clear(b2, x, y, d, k));
        assert(attacker_on_ray(b2, x, y, by, d, k));
    } else {
        let i = choose|i: int| #[trigger] attacker_by_jump(b1, x, y, by, i);
        assert(attacker_by_jump(b2, x, y, by, i));
    }
}

proof fn lemma_check_transfer(b1: Board, b2: Board, c: Color)
    requires
        b1.squares == b2.squares,
        in_check(b1, c),
    ensures
        in_check(b2, c),
{
    let (x, y) = choose|x: int, y: int|
        on_board(x, y) && b1.at(x, y) == Some(Piece { kind: Kind::King, color: c })
            && #[trigger] is_attacked_spec(b1, x, y, c.spec_invert());
    lemma_attacked_transfer(b1, b2, x, y, c.spec_invert());
}

/// Threats read only the squares of a board.
pub proof fn lemma_in_check_same_squares(b1: Board, b2: Board)
    requires
        b1.squares == b2.squares,
    ensures
        forall|c: Color| #[trigger] in_check(b1, c) == in_check(b2, c),
        check_bits(b1) == check_bits(b2),
{
    assert forall|c: Color| #[trigger] in_check(b1, c) == in_check(b2, c) by {
        if in_check(b1, c) {
            lemma_check_transfer(b1, b2, c);
        }
        if in_check(b2, c) {
            lemma_check_transfer(b2, b1, c);
        }
    }
    assert(in_check(b1, Color::White) == in_check(b2, Color::White));
    assert(in_check(b1, Color::Black) == in_check(b2, Color::Black));
}

} // verus!
