//! Depth-limited minimax search with alpha-beta pruning.

use vstd::prelude::*;
use crate::chess_structs::{Board, Color};
use crate::evaluator::{eval, lemma_material_bound, material};
use crate::generator::{board_stream, successors};

verus! {

/// Plies searched by `search`.
pub const INITIAL_DEPTH: i32 = 5;

/// No score leaves `[-SCORE_BOUND, SCORE_BOUND]`: 64 squares of at most 9999 each.
pub const SCORE_BOUND: i32 = 639936;

/// The minimax value of `b` searched `depth` plies deep, `white` telling whether the
/// side to move maximizes. A leaf, or a node without successors, scores its material.
pub open spec fn minimax_value(b: Board, depth: int, white: bool) -> int
    decreases depth, 0int, 0int,
{
    if depth <= 0 || successors(b).len() == 0 {
        material(b)
    } else {
        best_prefix(successors(b), depth - 1, white, successors(b).len() as int)
    }
}

/// The best value, for the maximizer when `white`, among the first `n` positions of
/// `s`, each searched `depth` plies deep by the other side.
pub open spec fn best_prefix(s: Seq<Board>, depth: int, white: bool, n: int) -> int
    decreases depth, 1int, n,
{
    if n <= 0 || depth < 0 {
        if white {
            i32::MIN as int
        } else {
            i32::MAX as int
        }
    } else {
        let v = minimax_value(s[n - 1], depth, !white);
        let rest = best_prefix(s, depth, white, n - 1);
        if white {
            if v > rest {
                v
            } else {
                rest
            }
        } else {
            if v < rest {
                v
            } else {
                rest
            }
        }
    }
}

/// Index of the first position among the first `n` of `s` with the best value.
pub open spec fn best_index(s: Seq<Board>, depth: int, white: bool, n: int) -> int
    decreases n,
{
    if n <= 1 {
        0
    } else {
        let j = best_index(s, depth, white, n - 1);
        let v = minimax_value(s[n - 1], depth, !white);
        let bv = minimax_value(s[j], depth, !white);
        if (white && v > bv) || (!white && v < bv) {
            n - 1
        } else {
            j
        }
    }
}

/// The successor chosen at the root of a `depth`-ply search: the first one whose
/// value is best for the side to move; none when there is no legal move.
pub open spec fn best_successor(b: Board, depth: int) -> Option<Board> {
    let s = successors(b);
    if s.len() == 0 {
        None
    } else {
        Some(s[best_index(s, depth - 1, b.turn == Color::White, s.len() as int)])
    }
}

/// The value of an inner node is the best value among its successors.
proof fn lemma_value_unfold(b: Board, depth: int, white: bool)
    requires
        depth > 0,
        successors(b).len() > 0,
    ensures
        minimax_value(b, depth, white) == best_prefix(
            successors(b),
            depth - 1,
            white,
            successors(b).len() as int,
        ),
{
}

/// One more position either improves the best value or leaves it.
proof fn lemma_best_prefix_unfold(s: Seq<Board>, depth: int, white: bool, n: int)
    requires
        depth >= 0,
        n > 0,
    ensures
        ({
            let v = minimax_value(s[n - 1], depth, !white);
            let rest = best_prefix(s, depth, white, n - 1);
            best_prefix(s, depth, white, n) == if (white && v > rest) || (!white && v < rest) {
                v
            } else {
                rest
            }
        }),
{
}

pub proof fn lemma_value_bound(b: Board, depth: int, white: bool)
    ensures
        -SCORE_BOUND <= minimax_value(b, depth, white) <= SCORE_BOUND,
    decreases depth, 0int, 0int,
{
    if depth <= 0 || successors(b).len() == 0 {
        lemma_material_bound(b, 0);
    } else {
        lemma_prefix_bound(successors(b), depth - 1, white, successors(b).len() as int);
    }
}

proof fn lemma_prefix_bound(s: Seq<Board>, depth: int, white: bool, n: int)
    requires
        1 <= n <= s.len(),
        depth >= 0,
    ensures
        -SCORE_BOUND <= best_prefix(s, depth, white, n) <= SCORE_BOUND,
    decreases depth, 1int, n,
{
    lemma_value_bound(s[n - 1], depth, !white);
    lemma_best_prefix_unfold(s, depth, white, n);
    if n > 1 {
        lemma_prefix_bound(s, depth, white, n - 1);
    } else {
        assert(best_prefix(s, depth, white, 0) == if white { i32::MIN as int } else { i32::MAX as int });
    }
}

/// The value at the best index is the best value.
proof fn lemma_best_index(s: Seq<Board>, depth: int, white: bool, n: int)
    requires
        1 <= n <= s.len(),
        depth >= 0,
    ensures
        0 <= best_index(s, depth, white, n) < n,
        minimax_value(s[best_index(s, depth, white, n)], depth, !white) == best_prefix(
            s,
            depth,
            white,
            n,
        ),
    decreases n,
{
    lemma_value_bound(s[n - 1], depth, !white);
    lemma_best_prefix_unfold(s, depth, white, n);
    if n > 1 {
        lemma_best_index(s, depth, white, n - 1);
    } else {
        assert(best_prefix(s, depth, white, 0) == if white { i32::MIN as int } else { i32::MAX as int });
    }
}

fn count_node(nodes: &mut u64)
    ensures
        *final(nodes) >= *old(nodes),
{
    if *nodes < u64::MAX {
        *nodes = *nodes + 1;
    }
}

/// Alpha-beta search of `board`, `depth` plies deep, in the window `(alpha, beta)`.
/// Within the window the result is the minimax value; at or below `alpha` it bounds
/// the value from above, at or above `beta` from below.
fn minimax(
    board: &Board,
    depth: i32,
    alpha: i32,
    beta: i32,
    is_whites_turn: bool,
    nodes: &mut u64,
) -> (r: i32)
    requires
        depth >= 0,
        alpha < beta,
    ensures
        -SCORE_BOUND <= r <= SCORE_BOUND,
        r <= alpha ==> minimax_value(*board, depth as int, is_whites_turn) <= r,
        r >= beta ==> minimax_value(*board, depth as int, is_whites_turn) >= r,
        alpha < r < beta ==> minimax_value(*board, depth as int, is_whites_turn) == r,
        *final(nodes) >= *old(nodes),
    decreases depth,
{
    if depth == 0 {
        count_node(nodes);
        proof {
            lemma_material_bound(*board, 0);
        }
        return eval(board);
    }
    let boards = board_stream(board);
    if boards.len() == 0 {
        count_node(nodes);
        proof {
            lemma_material_bound(*board, 0);
        }
        return eval(board);
    }
    let ghost s = successors(*board);
    let ghost d = depth - 1;
    if is_whites_turn {
        let mut max_eval: i32 = i32::MIN;
        let mut a: i32 = alpha;
        let mut j: usize = 0;
        while j < boards.len()
            invariant
                boards@ == s,
                s == successors(*board),
                s.len() > 0,
                d == depth - 1,
                depth > 0,
                0 <= j <= s.len(),
                a == (if alpha > max_eval { alpha } else { max_eval }),
                a < beta,
                is_whites_turn,
                j == 0 ==> max_eval == i32::MIN,
                j > 0 ==> -SCORE_BOUND <= max_eval <= SCORE_BOUND,
                best_prefix(s, d, true, j as int) <= max_eval,
                max_eval > alpha ==> best_prefix(s, d, true, j as int) == max_eval,
                *nodes >= *old(nodes),
            decreases s.len() - j,
        {
            let e = minimax(&boards[j], depth - 1, a, beta, false, nodes);
            proof {
                lemma_value_bound(s[j as int], d, false);
            }
            if e > max_eval {
                max_eval = e;
            }
            if e > a {
                a = e;
            }
            if beta <= a {
                proof {
                    lemma_prefix_grows(s, d, true, j + 1, s.len() as int);
                    assert(best_prefix(s, d, true, j + 1) >= minimax_value(s[j as int], d, false));
                    lemma_value_unfold(*board, depth as int, true);
                }
                return max_eval;
            }
            j = j + 1;
        }
        max_eval
    } else {
        let mut min_eval: i32 = i32::MAX;
        let mut b: i32 = beta;
        let mut j: usize = 0;
        while j < boards.len()
            invariant
                boards@ == s,
                s == successors(*board),
                s.len() > 0,
                d == depth - 1,
                depth > 0,
                0 <= j <= s.len(),
                b == (if beta < min_eval { beta } else { min_eval }),
                alpha < b,
                !is_whites_turn,
                j == 0 ==> min_eval == i32::MAX,
                j > 0 ==> -SCORE_BOUND <= min_eval <= SCORE_BOUND,
                best_prefix(s, d, false, j as int) >= min_eval,
                min_eval < beta ==> best_prefix(s, d, false, j as int) == min_eval,
                *nodes >= *old(nodes),
            decreases s.len() - j,
        {
            let e = minimax(&boards[j], depth - 1, alpha, b, true, nodes);
            proof {
                lemma_value_bound(s[j as int], d, true);
            }
            if e < min_eval {
                min_eval = e;
            }
            if e < b {
                b = e;
            }
            if b <= alpha {
                proof {
                    lemma_prefix_grows(s, d, false, j + 1, s.len() as int);
                    assert(best_prefix(s, d, false, j + 1) <= minimax_value(s[j as int], d, true));
                    lemma_value_unfold(*board, depth as int, false);
                }
                return min_eval;
            }
            j = j + 1;
        }
        min_eval
    }
}

/// A scored successor.
struct Evaluation {
    board: Board,
    eval: i32,
}

impl Evaluation {
    /// Whether `other` is strictly better than `self` for `who_played`.
    fn is_bested_by(&self, other: &Evaluation, who_played: Color) -> (r: bool)
        ensures
            r == match who_played {
                Color::White => other.eval > self.eval,
                Color::Black => other.eval < self.eval,
            },
    {
        match who_played {
            Color::White => other.eval > self.eval,
            Color::Black => other.eval < self.eval,
        }
    }
}

/// What a search found.
pub struct SearchResult {
    /// The chosen successor; none when the side to move has no legal move.
    pub best: Option<Board>,
    /// The minimax value of the root.
    pub score: i32,
    /// Leaves evaluated during the search.
    pub nodes_visited: u64,
}

/// Searches `depth` plies from `initial_board` and picks the first successor with the
/// best value for the side to move (highest for White, lowest for Black).
pub fn search_to_depth(initial_board: &Board, depth: i32) -> (r: SearchResult)
    requires
        depth >= 1,
    ensures
        r.best == best_successor(*initial_board, depth as int),
        r.score == minimax_value(
            *initial_board,
            depth as int,
            initial_board.turn == Color::White,
        ),
{
    let mut nodes: u64 = 0;
    let moves = board_stream(initial_board);
    let white = initial_board.turn == Color::White;
    let ghost s = successors(*initial_board);
    let ghost d = depth - 1;
    if moves.len() == 0 {
        count_node(&mut nodes);
        proof {
            lemma_material_bound(*initial_board, 0);
        }
        return SearchResult { best: None, score: eval(initial_board), nodes_visited: nodes };
    }
    let mut best = Evaluation {
        board: moves[0],
        eval: minimax(&moves[0], depth - 1, i32::MIN, i32::MAX, !white, &mut nodes),
    };
    let ghost mut best_at: int = 0;
    proof {
        lemma_best_index(s, d as int, white, 1);
    }
    let mut j: usize = 1;
    while j < moves.len()
        invariant
            moves@ == s,
            s == successors(*initial_board),
            white == (initial_board.turn == Color::White),
            d == depth - 1,
            depth >= 1,
            1 <= j <= s.len(),
            best_at == best_index(s, d as int, white, j as int),
            0 <= best_at < j,
            best.board == s[best_at],
            best.eval == best_prefix(s, d as int, white, j as int),
            best.eval == minimax_value(s[best_at], d as int, !white),
        decreases s.len() - j,
    {
        let e = minimax(&moves[j], depth - 1, i32::MIN, i32::MAX, !white, &mut nodes);
        let evaluation = Evaluation { board: moves[j], eval: e };
        proof {
            lemma_best_index(s, d as int, white, j + 1);
            lemma_best_prefix_unfold(s, d as int, white, j + 1);
        }
        if best.is_bested_by(&evaluation, initial_board.turn) {
            best = evaluation;
            proof {
                best_at = j as int;
            }
        }
        j = j + 1;
    }
    proof {
        lemma_value_unfold(*initial_board, depth as int, white);
    }
    SearchResult { best: Some(best.board), score: best.eval, nodes_visited: nodes }
}

/// Searches `INITIAL_DEPTH` plies and returns the chosen successor, if any.
pub fn search(initial_board: &Board) -> (r: Option<Board>)
    ensures
        r == best_successor(*initial_board, INITIAL_DEPTH as int),
{
    search_to_depth(initial_board, INITIAL_DEPTH).best
}

/// Looking at more positions only improves the best value.
proof fn lemma_prefix_grows(s: Seq<Board>, depth: int, white: bool, m: int, n: int)
    requires
        0 <= m <= n <= s.len(),
        depth >= 0,
    ensures
        white ==> best_prefix(s, depth, white, m) <= best_prefix(s, depth, white, n),
        !white ==> best_prefix(s, depth, white, m) >= best_prefix(s, depth, white, n),
    decreases n - m,
{
    if m < n {
        lemma_prefix_grows(s, depth, white, m, n - 1);
    }
}

} // verus!
