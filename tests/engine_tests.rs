use fry::args::{parse_color, ArgError};
use fry::threats::{checks, is_attacked};
use fry::chess_structs::{Board, Color, Index2D, Kind, Piece, Vector2D, BLACK_IS_CHECKED, WHITE_IS_CHECKED};
use fry::evaluator::eval;
use fry::fen::{board_from_fen, map_castling_availability, map_piece, FenImportError};
use fry::generator::{board_stream, create_new_board};
use fry::generator2::{generate, make_move, unmake_move, Delta, MoveType};
use fry::gameset::generate_starting_board;
use fry::minimax::{search, search_to_depth};

const START: &str = "rnbqkbnr/pppppppp/8/8/8/8/PPPPPPPP/RNBQKBNR w KQkq - 0 1";

fn fen(s: &str) -> Board {
    match board_from_fen(s) {
        Ok(b) => b,
        Err(e) => panic!("bad test position {}: {:?}", s, e),
    }
}

fn at(b: &Board, x: usize, y: usize) -> Option<Piece> {
    b.squares[y][x]
}

fn p(kind: Kind, color: Color) -> Option<Piece> {
    Some(Piece { kind, color })
}

/// Squares a move touched: (from, to) of the mover of `color`, found by comparing boards.
fn moved_piece(before: &Board, after: &Board, kind: Kind, color: Color) -> Option<(Index2D, Index2D)> {
    let mut from = None;
    let mut to = None;
    for y in 0..8 {
        for x in 0..8 {
            if before.squares[y][x] == p(kind, color) && after.squares[y][x] != p(kind, color) {
                from = Some(Index2D::new(x, y));
            }
            if after.squares[y][x] == p(kind, color) && before.squares[y][x] != p(kind, color) {
                to = Some(Index2D::new(x, y));
            }
        }
    }
    match (from, to) {
        (Some(f), Some(t)) => Some((f, t)),
        _ => None,
    }
}

fn has_no_duplicates(boards: &[Board]) -> bool {
    for i in 0..boards.len() {
        for j in (i + 1)..boards.len() {
            if boards[i] == boards[j] {
                return false;
            }
        }
    }
    true
}

/// Plain minimax, without pruning, over the same successor order.
fn plain_minimax(b: &Board, depth: i32, white: bool) -> i32 {
    let next = board_stream(b);
    if depth == 0 || next.is_empty() {
        return eval(b);
    }
    let values = next.iter().map(|n| plain_minimax(n, depth - 1, !white));
    if white {
        values.max().unwrap()
    } else {
        values.min().unwrap()
    }
}

#[test]
fn king_and_pawn_has_six_moves() {
    let b = fen("4k3/8/8/8/8/8/4P3/4K3 w - - 0 1");
    let next = board_stream(&b);
    assert_eq!(next.len(), 6);
    let mut king_to = Vec::new();
    let mut pawn_to = Vec::new();
    for n in &next {
        if let Some((from, to)) = moved_piece(&b, n, Kind::King, Color::White) {
            assert_eq!(from, Index2D::new(4, 0));
            king_to.push((to.x, to.y));
        }
        if let Some((from, to)) = moved_piece(&b, n, Kind::Pawn, Color::White) {
            assert_eq!(from, Index2D::new(4, 1));
            pawn_to.push((to.x, to.y));
        }
    }
    king_to.sort();
    pawn_to.sort();
    assert_eq!(king_to, vec![(3, 0), (3, 1), (5, 0), (5, 1)]);
    assert_eq!(pawn_to, vec![(4, 2), (4, 3)]);
}

#[test]
fn rook_check_is_escaped() {
    let b = fen("4k3/8/8/8/8/4r3/8/4K3 w - - 0 1");
    assert_eq!(b.checks & WHITE_IS_CHECKED, WHITE_IS_CHECKED);
    let next = board_stream(&b);
    assert!(!next.is_empty());
    for n in &next {
        assert_eq!(n.checks & WHITE_IS_CHECKED, 0);
        assert_eq!(checks(n).0, false);
        // the king never stays on the e-file's e2
        assert_ne!(at(n, 4, 1), p(Kind::King, Color::White));
    }
}

fn castles(b: &Board, color: Color) -> Vec<(usize, usize)> {
    let rank = if color == Color::White { 0 } else { 7 };
    let mut out = Vec::new();
    for n in board_stream(b) {
        for (king_x, rook_x) in [(6usize, 5usize), (2, 3)] {
            if at(&n, king_x, rank) == p(Kind::King, color) && at(&n, rook_x, rank) == p(Kind::Rook, color) && at(&n, 4, rank).is_none() {
                out.push((king_x, rook_x));
            }
        }
    }
    out
}

#[test]
fn four_castles_appear() {
    let b = fen("r3k2r/8/8/8/8/8/8/R3K2R w KQkq - 0 1");
    assert_eq!(castles(&b, Color::White), vec![(6, 5), (2, 3)]);
    let mut black = b;
    black.turn = Color::Black;
    assert_eq!(castles(&black, Color::Black), vec![(6, 5), (2, 3)]);
    // castling clears both rights of the side that castled
    for n in board_stream(&b) {
        if at(&n, 6, 0) == p(Kind::King, Color::White) {
            assert_eq!(n.castling_availability, 12);
        }
    }
}

#[test]
fn castling_kingside_law() {
    // king e1, rook h1, f1 and g1 empty and unattacked, right set
    let b = fen("4k3/8/8/8/8/8/8/4K2R w K - 0 1");
    assert_eq!(castles(&b, Color::White), vec![(6, 5)]);
    // an attack on f1 forbids it
    let attacked = fen("4kr2/8/8/8/8/8/8/4K2R w K - 0 1");
    assert_eq!(castles(&attacked, Color::White), vec![]);
    // without the right there is no castle
    let no_right = fen("4k3/8/8/8/8/8/8/4K2R w - - 0 1");
    assert_eq!(castles(&no_right, Color::White), vec![]);
}

#[test]
fn en_passant_capture_removes_pawn() {
    let b = fen("8/8/8/3pP3/8/8/8/4k2K w - d6 0 1");
    assert_eq!(b.en_passant, Some(Index2D::new(3, 5)));
    let next = board_stream(&b);
    let ep: Vec<&Board> = next.iter().filter(|n| at(n, 3, 5) == p(Kind::Pawn, Color::White)).collect();
    assert_eq!(ep.len(), 1);
    assert_eq!(at(ep[0], 3, 4), None);
    assert_eq!(at(ep[0], 4, 4), None);
}

#[test]
fn starting_position_has_twenty_moves() {
    let b = fen(START);
    assert_eq!(board_stream(&b).len(), 20);
    assert_eq!(generate(&b).len(), 20);
}

#[test]
fn fools_mate_is_checkmate() {
    let b = fen("rnb1kbnr/pppp1ppp/8/4p3/6Pq/5P2/PPPPP2P/RNBQKBNR w KQkq - 1 3");
    assert_eq!(b.turn, Color::White);
    assert_eq!(b.checks & WHITE_IS_CHECKED, WHITE_IS_CHECKED);
    assert_eq!(b.checks & BLACK_IS_CHECKED, 0);
    assert!(board_stream(&b).is_empty());
    assert_eq!(search(&b), None);
    let r = search_to_depth(&b, 2);
    assert_eq!(r.best, None);
    assert_eq!(r.score, eval(&b));
}

#[test]
fn successors_are_distinct_and_flip_turn() {
    for s in [START, "r3k2r/8/8/8/8/8/8/R3K2R w KQkq - 0 1", "8/8/8/3pP3/8/8/8/4k2K w - d6 0 1"] {
        let b = fen(s);
        let next = board_stream(&b);
        assert!(has_no_duplicates(&next));
        for n in &next {
            assert_eq!(n.turn, b.turn.invert());
            let mover_checked = match b.turn {
                Color::White => n.checks & WHITE_IS_CHECKED,
                Color::Black => n.checks & BLACK_IS_CHECKED,
            };
            assert_eq!(mover_checked, 0);
        }
    }
}

#[test]
fn make_then_unmake_is_identity() {
    for s in [START, "r3k2r/8/8/8/8/8/8/R3K2R w KQkq - 0 1", "8/8/8/3pP3/8/8/8/4k2K w - d6 0 1", "4k3/8/8/8/8/4r3/8/4K3 w - - 0 1", "1r2k3/P7/8/8/8/8/8/4K3 w - - 0 1"] {
        let b = fen(s);
        let moves = generate(&b);
        let boards = board_stream(&b);
        assert_eq!(moves.len(), boards.len());
        for (m, expected) in moves.iter().zip(boards.iter()) {
            let mut work = b;
            make_move(m, &mut work);
            assert_eq!(work, *expected);
            unmake_move(m, &mut work);
            assert_eq!(work, b);
        }
    }
}

#[test]
fn make_move_castles_and_clears_rights() {
    let mut b = fen("r3k2r/8/8/8/8/8/8/R3K2R w KQkq - 0 1");
    let before = b;
    let d = Delta {
        move_type: MoveType::Castle,
        src: Index2D::new(4, 0),
        dst: Index2D::new(2, 0),
        prev_en_passant: None,
        prev_castling: 15,
        prev_checks: 0,
        promotion: None,
    };
    make_move(&d, &mut b);
    assert_eq!(at(&b, 2, 0), p(Kind::King, Color::White));
    assert_eq!(at(&b, 3, 0), p(Kind::Rook, Color::White));
    assert_eq!(at(&b, 0, 0), None);
    assert_eq!(b.castling_availability, 12);
    assert_eq!(b.turn, Color::Black);
    unmake_move(&d, &mut b);
    assert_eq!(b, before);
}

#[test]
fn double_step_sets_en_passant_target() {
    let b = fen(START);
    let n = create_new_board(&b, Index2D::new(4, 1), Index2D::new(4, 3));
    assert_eq!(n.en_passant, Some(Index2D::new(4, 2)));
    assert_eq!(n.turn, Color::Black);
    let single = create_new_board(&b, Index2D::new(4, 1), Index2D::new(4, 2));
    assert_eq!(single.en_passant, None);
}

#[test]
fn alpha_beta_matches_minimax() {
    for s in [START, "4k3/8/8/8/8/8/4P3/4K3 w - - 0 1", "r3k2r/8/8/8/8/8/8/R3K2R b KQkq - 0 1", "4k3/8/8/3q4/8/2N5/8/4K3 w - - 0 1"] {
        let b = fen(s);
        for depth in 1..=3 {
            let r = search_to_depth(&b, depth);
            assert!(r.best.is_some());
            assert_eq!(r.score, plain_minimax(&b, depth, b.turn == Color::White), "{} at {}", s, depth);
        }
    }
}

#[test]
fn search_is_deterministic() {
    let b = fen("4k3/8/8/3q4/8/2N5/8/4K3 w - - 0 1");
    let first = search_to_depth(&b, 3);
    let second = search_to_depth(&b, 3);
    assert_eq!(first.best, second.best);
    assert_eq!(first.score, second.score);
    assert_eq!(search(&b), search(&b));
}

#[test]
fn search_takes_hanging_queen() {
    // the knight on c3 captures the queen on d5
    let b = fen("4k3/8/8/3q4/8/2N5/8/4K3 w - - 0 1");
    let r = search_to_depth(&b, 1);
    let best = r.best.unwrap();
    assert_eq!(at(&best, 3, 4), p(Kind::Knight, Color::White));
    assert_eq!(r.score, eval(&best));
    assert_eq!(r.score, 300);
}

#[test]
fn evaluation_of_material() {
    assert_eq!(eval(&fen(START)), 0);
    assert_eq!(eval(&fen("4k3/8/8/8/8/8/4P3/4K3 w - - 0 1")), 100);
    assert_eq!(eval(&fen("4k3/8/8/3q4/8/2N5/8/4K3 w - - 0 1")), -600);
    assert_eq!(Kind::King.value(), 9999);
    assert_eq!(Kind::Queen.value(), 900);
}

#[test]
fn threat_detector_on_squares() {
    let b = fen("4k3/8/8/8/8/4r3/8/4K3 w - - 0 1");
    assert!(is_attacked(&b, Index2D::new(4, 0), Color::Black));
    assert!(is_attacked(&b, Index2D::new(0, 2), Color::Black));
    assert!(!is_attacked(&b, Index2D::new(3, 0), Color::Black));
    assert!(is_attacked(&b, Index2D::new(3, 1), Color::White));
}

#[test]
fn geometry_and_pieces() {
    assert_eq!(Color::White.invert(), Color::Black);
    assert!(Index2D::new(8, 0).is_out_of_board());
    assert!(!Index2D::new(7, 7).is_out_of_board());
    assert_eq!(Index2D::new(3, 3).offset(Vector2D::new(-2, 1)), Some(Index2D::new(1, 4)));
    assert_eq!(Index2D::new(0, 3).offset(Vector2D::new(-1, 0)), None);
    assert_eq!(Piece { kind: Kind::Knight, color: Color::Black }.to_char(), 'n');
    assert_eq!(Piece { kind: Kind::Queen, color: Color::White }.to_char(), 'Q');
}

#[test]
fn fen_import_errors_and_mappings() {
    assert_eq!(board_from_fen("4k3/8/8 w - -").unwrap_err(), FenImportError::NotEnoughFields);
    assert_eq!(board_from_fen("4k3/8/8/8/8/8/8/4K3 x - - 0 1").unwrap_err(), FenImportError::Rejected);
    assert_eq!(board_from_fen("4k3/8/8/8/8/8/8/4K3 w - z9 0 1").unwrap_err(), FenImportError::BadEnPassant);
    assert_eq!(board_from_fen("4k3/8/8/8/8/8/4K3 w - - 0 1").unwrap_err(), FenImportError::BadPlacement);
    let b = fen(START);
    assert_eq!(at(&b, 4, 0), p(Kind::King, Color::White));
    assert_eq!(at(&b, 3, 7), p(Kind::Queen, Color::Black));
    assert_eq!(b.castling_availability, 15);
    assert_eq!(map_castling_availability(true, false, false, true), 9);
    assert_eq!(map_piece('r'), p(Kind::Rook, Color::Black));
    assert_eq!(map_piece('x'), None);
}

#[test]
fn color_option() {
    assert_eq!(parse_color("w").ok(), Some(Color::White));
    assert_eq!(parse_color("b").ok(), Some(Color::Black));
    match parse_color("white") {
        Err(ArgError::Invalid(_, values)) => assert_eq!(values.actual, "white"),
        _ => panic!("expected an invalid-value error"),
    }
}

#[test]
fn starting_board_matches_fen() {
    let b = generate_starting_board();
    assert_eq!(b, fen(START));
    assert_eq!(board_stream(&b).len(), 20);
    assert_eq!(at(&b, 3, 0), p(Kind::Queen, Color::White));
    assert_eq!(at(&b, 4, 7), p(Kind::King, Color::Black));
}

#[test]
fn fen_import_rejects_invalid_positions() {
    let invalid = FenImportError::InvalidPosition;
    // the side that just moved is in check
    assert_eq!(board_from_fen("4k3/4R3/8/8/8/8/8/4K3 w - - 0 1").unwrap_err(), invalid);
    // no black king
    assert_eq!(board_from_fen("8/8/8/8/8/8/8/4K3 w - - 0 1").unwrap_err(), invalid);
    // two white kings
    assert_eq!(board_from_fen("4k3/8/8/8/8/8/8/3KK3 w - - 0 1").unwrap_err(), invalid);
    // a castling right without its rook
    assert_eq!(board_from_fen("4k3/8/8/8/8/8/8/4K3 w K - 0 1").unwrap_err(), invalid);
    // an en-passant target on the wrong rank
    assert_eq!(board_from_fen("4k3/8/8/8/8/8/8/4K3 w - d3 0 1").unwrap_err(), invalid);
    assert!(board_from_fen("4k3/8/8/8/8/8/8/4K3 b - d3 0 1").is_ok());
}

#[test]
fn pawn_promotes_to_four_pieces() {
    let b = fen("4k3/P7/8/8/8/8/8/4K3 w - - 0 1");
    let next = board_stream(&b);
    assert_eq!(next.len(), 9);
    let promoted: Vec<Option<Piece>> = next.iter().filter(|n| at(n, 0, 6).is_none()).map(|n| at(n, 0, 7)).collect();
    assert_eq!(
        promoted,
        vec![p(Kind::Queen, Color::White), p(Kind::Rook, Color::White), p(Kind::Bishop, Color::White), p(Kind::Knight, Color::White)]
    );
    // capturing onto the last rank promotes too
    let c = fen("1r2k3/P7/8/8/8/8/8/4K3 w - - 0 1");
    let next = board_stream(&c);
    assert_eq!(next.len(), 13);
    assert!(has_no_duplicates(&next));
    assert_eq!(next.iter().filter(|n| at(n, 1, 7) == p(Kind::Knight, Color::White)).count(), 1);
    // a black pawn promotes on the first rank
    let d = fen("4k3/8/8/8/8/8/7p/K7 b - - 0 1");
    let next = board_stream(&d);
    assert_eq!(next.iter().filter(|n| at(n, 7, 0) == p(Kind::Queen, Color::Black)).count(), 1);
}
