use fry::threats::checks;
use fry::chess_structs::{Board, Color, Index2D, Kind, Piece};
use fry::generator::{BishopItr, KingItr, KnightItr, RookItr};

fn piece(kind: Kind, color: Color) -> Option<Piece> {
    Some(Piece { kind, color })
}

#[test]
fn king_test() {
    let mut board = Board::new(Color::White, None, 0, 0);
    board.squares[2][4] = piece(Kind::King, Color::White);
    board.squares[3][4] = piece(Kind::Pawn, Color::Black);
    let pos = Index2D { x: 4, y: 2 };
    let mut king_itr = KingItr::new(&board, pos);
    assert!(king_itr.next().is_some());
    assert!(king_itr.next().is_some());
    assert!(king_itr.next().is_some());
    assert!(king_itr.next().is_some());
    assert!(king_itr.next().is_some());
    assert!(king_itr.next().is_some());
    // two moves are blocked because they put the king in check, thus expect 6 positions
    assert!(king_itr.next().is_none());

    let mut new_board: Option<Board> = None;

    let mut move_itr = board.iter();
    if let Some(mut i) = move_itr.next() {
        let itr = &mut i;
        new_board = itr.next();
    }

    assert!(new_board.is_some());
}

#[test]
fn knight_test() {
    let mut board = Board::new(Color::White, None, 0, 0);
    board.squares[2][4] = piece(Kind::Knight, Color::White);
    board.squares[3][4] = piece(Kind::Pawn, Color::Black);
    let pos = Index2D { x: 4, y: 2 };
    let mut knight_iter = KnightItr::new(&board, pos);
    for _ in 0..8 {
        assert!(knight_iter.next().is_some());
    }
    assert!(knight_iter.next().is_none());

    let mut new_board: Option<Board> = None;

    let mut move_itr = board.iter();
    if let Some(mut i) = move_itr.next() {
        let itr = &mut i;
        new_board = itr.next();
        assert!(new_board.is_some());
        new_board = itr.next();
        assert!(new_board.is_some());
        new_board = itr.next();
        assert!(new_board.is_some());
        new_board = itr.next();
        assert!(new_board.is_some());
        new_board = itr.next();
        assert!(new_board.is_some());
        new_board = itr.next();
        assert!(new_board.is_some());
        new_board = itr.next();
        assert!(new_board.is_some());
        new_board = itr.next();
        assert!(new_board.is_some());
        new_board = itr.next();
    }

    assert!(new_board.is_none());
}

#[test]
fn rook_test() {
    let mut board = Board::new(Color::Black, None, 0, 0);
    board.squares[2][4] = piece(Kind::Rook, Color::Black);
    board.squares[3][4] = piece(Kind::Pawn, Color::Black);
    let pos = Index2D { x: 4, y: 2 };
    let mut rook_iter = RookItr::new(&board, pos);
    for _ in 0..9 {
        assert!(rook_iter.next().is_some());
    }
    assert!(rook_iter.next().is_none());
}

#[test]
fn bishop_test() {
    let mut board = Board::new(Color::Black, None, 0, 0);
    board.squares[1][2] = piece(Kind::Bishop, Color::Black);
    board.squares[3][4] = piece(Kind::Pawn, Color::Black);
    let pos = Index2D { x: 2, y: 1 };
    let mut bishop_iter = BishopItr::new(&board, pos);
    for _ in 0..5 {
        assert!(bishop_iter.next().is_some());
    }
    assert!(bishop_iter.next().is_none());
}

/// Places a White king on every square but the friendly one, with the attacker and
/// a friendly piece, and compares the check flags with the expected attacked squares.
fn sweep(turn: Color, king: Color, attacker: Piece, friendly: Piece, attacked: &dyn Fn(usize, usize) -> bool) {
    let attacker_sq = Index2D { x: 3, y: 3 };
    let friendly_sq = Index2D { x: 4, y: 3 };
    for y in 0..8 {
        for x in 0..8 {
            let new_sq = Index2D::new(x, y);
            if new_sq == friendly_sq {
                continue;
            }
            let mut board = Board::new(turn, None, 0, 0);
            board.squares[y][x] = piece(Kind::King, king);
            board.squares[attacker_sq.y][attacker_sq.x] = Some(attacker);
            board.squares[friendly_sq.y][friendly_sq.x] = Some(friendly);
            let (is_white_checked, is_black_checked) = checks(&board);
            let expected = attacked(x, y);
            match king {
                Color::White => {
                    assert_eq!(is_white_checked, expected, "king on {} {}", x, y);
                    assert!(!is_black_checked);
                }
                Color::Black => {
                    assert_eq!(is_black_checked, expected, "king on {} {}", x, y);
                    assert!(!is_white_checked);
                }
            }
        }
    }
}

#[test]
fn test_checks_black_pawn() {
    // a black pawn attacks downwards, one file to either side
    sweep(
        Color::White,
        Color::White,
        Piece { kind: Kind::Pawn, color: Color::Black },
        Piece { kind: Kind::Pawn, color: Color::White },
        &|x, y| y == 2 && (x == 2 || x == 4),
    );
}

#[test]
fn test_checks_white_pawn() {
    // a white pawn attacks upwards, one file to either side
    sweep(
        Color::Black,
        Color::Black,
        Piece { kind: Kind::Pawn, color: Color::White },
        Piece { kind: Kind::Pawn, color: Color::Black },
        &|x, y| y == 4 && (x == 2 || x == 4),
    );
}

#[test]
fn test_checks_bishop() {
    // the diagonals from d4; the friendly piece on e4 is not on any of them
    sweep(
        Color::White,
        Color::White,
        Piece { kind: Kind::Bishop, color: Color::Black },
        Piece { kind: Kind::Bishop, color: Color::White },
        &|x, y| (x as i64 - 3).abs() == (y as i64 - 3).abs() && x != 3,
    );
}

#[test]
fn test_checks_knight() {
    let attacked_sqs = [
        Index2D::new(4, 5),
        Index2D::new(5, 4),
        Index2D::new(5, 2),
        Index2D::new(4, 1),
        Index2D::new(2, 1),
        Index2D::new(1, 2),
        Index2D::new(1, 4),
        Index2D::new(2, 5),
    ];
    sweep(
        Color::White,
        Color::White,
        Piece { kind: Kind::Knight, color: Color::Black },
        Piece { kind: Kind::Knight, color: Color::White },
        &|x, y| attacked_sqs.iter().any(|sq| *sq == Index2D::new(x, y)),
    );
}

#[test]
fn test_checks_rook() {
    let attacked_sqs = [
        Index2D::new(3, 4), // up
        Index2D::new(3, 5),
        Index2D::new(3, 6),
        Index2D::new(3, 7),
        Index2D::new(4, 3), // right (a friendly piece blocks the rest of this line)
        Index2D::new(3, 2), // down
        Index2D::new(3, 1),
        Index2D::new(3, 0),
        Index2D::new(2, 3), // left
        Index2D::new(1, 3),
        Index2D::new(0, 3),
    ];
    sweep(
        Color::White,
        Color::White,
        Piece { kind: Kind::Rook, color: Color::Black },
        Piece { kind: Kind::Rook, color: Color::White },
        &|x, y| attacked_sqs.iter().any(|sq| *sq == Index2D::new(x, y)),
    );
}

#[test]
fn test_checks_queen() {
    // lines and diagonals from d4, the rank to the right stopped by the friendly piece
    sweep(
        Color::White,
        Color::White,
        Piece { kind: Kind::Queen, color: Color::Black },
        Piece { kind: Kind::Queen, color: Color::White },
        &|x, y| {
            let diagonal = (x as i64 - 3).abs() == (y as i64 - 3).abs() && x != 3;
            let file = x == 3 && y != 3;
            let rank = y == 3 && x < 3;
            diagonal || file || rank
        },
    );
}

#[test]
fn test_checks_king() {
    // a king attacks the eight squares around it; two kings side by side check each other
    for y in 0..8 {
        for x in 0..8 {
            if (x, y) == (3, 3) {
                continue;
            }
            let mut board = Board::new(Color::White, None, 0, 0);
            board.squares[y][x] = piece(Kind::King, Color::White);
            board.squares[3][3] = piece(Kind::King, Color::Black);
            let adjacent = (x as i64 - 3).abs() <= 1 && (y as i64 - 3).abs() <= 1;
            assert_eq!(checks(&board), (adjacent, adjacent));
        }
    }
}

#[test]
fn test_checks_block() {
    // friendly pieces block checks: a rook on a1 against a king on a8, a pawn between
    let mut board = Board::new(Color::White, None, 0, 0);
    board.squares[7][0] = piece(Kind::King, Color::White);
    board.squares[0][0] = piece(Kind::Rook, Color::Black);
    assert_eq!(checks(&board), (true, false));
    board.squares[4][0] = piece(Kind::Pawn, Color::White);
    assert_eq!(checks(&board), (false, false));
    // an enemy piece in between blocks too
    board.squares[4][0] = piece(Kind::Pawn, Color::Black);
    assert_eq!(checks(&board), (false, false));
}
