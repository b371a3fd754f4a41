use chess_core::pieces::{Piece, PieceColor, PieceType};

fn piece(color: PieceColor, piece_type: PieceType, x: u8, y: u8) -> Piece {
    Piece { color, piece_type, x, y, alive: true }
}

#[test]
fn legality_is_pure_across_repeated_calls() {
    let rook = piece(PieceColor::White, PieceType::Rook, 0, 0);
    let board = vec![rook, piece(PieceColor::Black, PieceType::Pawn, 0, 5)];
    let first = rook.is_move_valid((0, 5), &board);
    let second = rook.is_move_valid((0, 5), &board);
    let third = rook.is_move_valid((0, 5), &board);
    assert_eq!(first, second);
    assert_eq!(second, third);
    assert!(first);
}

#[test]
fn no_piece_type_may_capture_its_own_color() {
    let blocker = piece(PieceColor::White, PieceType::Pawn, 4, 5);
    let types = [
        PieceType::King,
        PieceType::Queen,
        PieceType::Rook,
        PieceType::Bishop,
        PieceType::Knight,
        PieceType::Pawn,
    ];
    // movers chosen so that the shape toward (4, 5) is right for each type
    let movers = [
        piece(PieceColor::White, types[0], 4, 4),
        piece(PieceColor::White, types[1], 4, 0),
        piece(PieceColor::White, types[2], 0, 5),
        piece(PieceColor::White, types[3], 2, 3),
        piece(PieceColor::White, types[4], 2, 4),
        piece(PieceColor::White, types[5], 3, 4),
    ];
    for mover in movers.iter() {
        let board = vec![*mover, blocker];
        assert!(
            !mover.is_move_valid((4, 5), &board),
            "a {:?} captured its own pawn",
            mover.piece_type
        );
        // the same destination is legal once the occupant is an enemy
        let enemy_board = vec![*mover, piece(PieceColor::Black, PieceType::Pawn, 4, 5)];
        assert!(mover.is_move_valid((4, 5), &enemy_board));
    }
}

#[test]
fn rook_on_open_file_captures_and_is_blocked() {
    // empty board except White Rook at (0,0) and Black Pawn at (0,5)
    let rook = piece(PieceColor::White, PieceType::Rook, 0, 0);
    let pawn = piece(PieceColor::Black, PieceType::Pawn, 0, 5);
    let board = vec![rook, pawn];
    // capturing the pawn is legal
    assert!(rook.is_move_valid((0, 5), &board));
    // overshooting to (0, 6) passes over the pawn and is illegal
    assert!(!rook.is_move_valid((0, 6), &board));
    // on an otherwise empty board the same move is legal: the path is clear
    let alone = vec![rook];
    assert!(rook.is_move_valid((0, 6), &alone));
    // a friendly blocker at (0, 3) makes the capture illegal as well
    let blocked = vec![rook, pawn, piece(PieceColor::White, PieceType::Pawn, 0, 3)];
    assert!(!rook.is_move_valid((0, 5), &blocked));
}

#[test]
fn rook_needs_a_straight_line() {
    let rook = piece(PieceColor::White, PieceType::Rook, 3, 3);
    let board = vec![rook];
    assert!(rook.is_move_valid((3, 7), &board));
    assert!(rook.is_move_valid((0, 3), &board));
    assert!(!rook.is_move_valid((4, 4), &board));
    assert!(!rook.is_move_valid((5, 6), &board));
    assert!(!rook.is_move_valid((3, 3), &board));
}

#[test]
fn bishop_moves_diagonally_and_is_blocked() {
    let bishop = piece(PieceColor::White, PieceType::Bishop, 2, 2);
    let board = vec![bishop];
    assert!(bishop.is_move_valid((5, 5), &board));
    assert!(bishop.is_move_valid((0, 4), &board));
    assert!(bishop.is_move_valid((4, 0), &board));
    assert!(!bishop.is_move_valid((2, 5), &board));
    assert!(!bishop.is_move_valid((2, 2), &board));
    // a blocker on (4, 4) closes the (2,2)-(5,5) diagonal, whatever its color
    let blocked = vec![bishop, piece(PieceColor::Black, PieceType::Pawn, 4, 4)];
    assert!(!bishop.is_move_valid((5, 5), &blocked));
    // the blocker itself can still be captured
    assert!(bishop.is_move_valid((4, 4), &blocked));
}

#[test]
fn queen_unites_rook_and_bishop_rules() {
    let queen = piece(PieceColor::Black, PieceType::Queen, 4, 4);
    let board = vec![queen];
    assert!(queen.is_move_valid((4, 0), &board));
    assert!(queen.is_move_valid((0, 4), &board));
    assert!(queen.is_move_valid((7, 7), &board));
    assert!(queen.is_move_valid((1, 7), &board));
    assert!(!queen.is_move_valid((6, 5), &board));
    assert!(!queen.is_move_valid((4, 4), &board));
    let blocked = vec![
        queen,
        piece(PieceColor::White, PieceType::Pawn, 4, 2),
        piece(PieceColor::White, PieceType::Pawn, 6, 6),
    ];
    assert!(!queen.is_move_valid((4, 0), &blocked));
    assert!(!queen.is_move_valid((7, 7), &blocked));
    assert!(queen.is_move_valid((4, 2), &blocked));
    assert!(queen.is_move_valid((6, 6), &blocked));
}

#[test]
fn knight_jumps_over_anything_between() {
    let knight = piece(PieceColor::White, PieceType::Knight, 0, 1);
    // surround the knight with pieces on every adjacent square, as in the
    // starting position: its jump must not care
    let crowded = vec![
        knight,
        piece(PieceColor::White, PieceType::Rook, 0, 0),
        piece(PieceColor::White, PieceType::Bishop, 0, 2),
        piece(PieceColor::White, PieceType::Pawn, 1, 0),
        piece(PieceColor::White, PieceType::Pawn, 1, 1),
        piece(PieceColor::White, PieceType::Pawn, 1, 2),
    ];
    assert!(knight.is_move_valid((2, 0), &crowded));
    assert!(knight.is_move_valid((2, 2), &crowded));
    let open = vec![knight];
    assert_eq!(
        knight.is_move_valid((2, 0), &open),
        knight.is_move_valid((2, 0), &crowded)
    );
    // not a knight shape
    assert!(!knight.is_move_valid((1, 1), &open));
    assert!(!knight.is_move_valid((3, 1), &open));
    assert!(!knight.is_move_valid((0, 1), &open));
}

#[test]
fn king_steps_one_square_any_direction() {
    let king = piece(PieceColor::White, PieceType::King, 4, 4);
    let board = vec![king];
    for (nx, ny) in [(3, 3), (3, 4), (3, 5), (4, 3), (4, 5), (5, 3), (5, 4), (5, 5)] {
        assert!(king.is_move_valid((nx, ny), &board));
    }
    assert!(!king.is_move_valid((4, 4), &board));
    assert!(!king.is_move_valid((6, 4), &board));
    assert!(!king.is_move_valid((2, 2), &board));
}

#[test]
fn pawn_forward_needs_empty_square() {
    let pawn = piece(PieceColor::White, PieceType::Pawn, 3, 3);
    let open = vec![pawn];
    assert!(pawn.is_move_valid((4, 3), &open));
    // a forward move onto an occupied square is illegal for either occupant color
    let enemy_ahead = vec![pawn, piece(PieceColor::Black, PieceType::Rook, 4, 3)];
    assert!(!pawn.is_move_valid((4, 3), &enemy_ahead));
    let friend_ahead = vec![pawn, piece(PieceColor::White, PieceType::Rook, 4, 3)];
    assert!(!pawn.is_move_valid((4, 3), &friend_ahead));
    // no two-square initial advance, no sideways or backward step
    assert!(!pawn.is_move_valid((5, 3), &open));
    assert!(!pawn.is_move_valid((3, 4), &open));
    assert!(!pawn.is_move_valid((2, 3), &open));
}

#[test]
fn pawn_diagonal_needs_a_capture() {
    let pawn = piece(PieceColor::White, PieceType::Pawn, 3, 3);
    let open = vec![pawn];
    // a diagonal move onto an empty square is always illegal
    assert!(!pawn.is_move_valid((4, 4), &open));
    assert!(!pawn.is_move_valid((4, 2), &open));
    // onto an opposing piece it is a legal capture, both left and right
    let enemies = vec![
        pawn,
        piece(PieceColor::Black, PieceType::Knight, 4, 4),
        piece(PieceColor::Black, PieceType::Knight, 4, 2),
    ];
    assert!(pawn.is_move_valid((4, 4), &enemies));
    assert!(pawn.is_move_valid((4, 2), &enemies));
}

#[test]
fn black_pawn_moves_toward_decreasing_rank() {
    let pawn = piece(PieceColor::Black, PieceType::Pawn, 6, 4);
    let open = vec![pawn];
    assert!(pawn.is_move_valid((5, 4), &open));
    assert!(!pawn.is_move_valid((7, 4), &open));
    let enemy = vec![pawn, piece(PieceColor::White, PieceType::Bishop, 5, 5)];
    assert!(pawn.is_move_valid((5, 5), &enemy));
    assert!(!pawn.is_move_valid((5, 3), &enemy));
}

#[test]
fn destinations_off_the_board_are_illegal() {
    let queen = piece(PieceColor::White, PieceType::Queen, 7, 7);
    let board = vec![queen];
    assert!(!queen.is_move_valid((8, 7), &board));
    assert!(!queen.is_move_valid((7, 8), &board));
    assert!(!queen.is_move_valid((255, 255), &board));
    let knight = piece(PieceColor::White, PieceType::Knight, 7, 6);
    assert!(!knight.is_move_valid((8, 4), &vec![knight]));
}
