use chess_moves::Color;
use chess_moves::EmptySquare;
use chess_moves::Game;
use chess_moves::Piece;
use chess_moves::PieceType;

fn piece(piece_type: PieceType, color: Color) -> Piece {
    Piece { piece_type, color }
}

fn moves_sorted(game: &Game, x: usize, y: usize) -> Vec<(usize, usize)> {
    let mut moves = game.get_possible_moves(x, y).expect("square should be occupied");
    moves.sort();
    moves
}

#[test]
fn empty_square_failure() {
    let game = Game::new();
    assert_eq!(game.get_possible_moves(3, 3), Err(EmptySquare));
}

#[test]
fn generation_is_deterministic() {
    let mut game = Game::new();
    game.reset_board();
    let first = moves_sorted(&game, 4, 4);
    let second = moves_sorted(&game, 4, 4);
    assert_eq!(first, second);
}

#[test]
fn knight_interior_hop_count() {
    let mut game = Game::new();
    game.set_piece(4, 4, Some(piece(PieceType::Knight, Color::White)));
    let moves = moves_sorted(&game, 4, 4);
    assert_eq!(
        moves,
        vec![(2, 3), (2, 5), (3, 2), (3, 6), (5, 2), (5, 6), (6, 3), (6, 5)]
    );
}

#[test]
fn knight_corner_is_truncated() {
    let mut game = Game::new();
    game.set_piece(0, 0, Some(piece(PieceType::Knight, Color::Black)));
    let moves = moves_sorted(&game, 0, 0);
    assert_eq!(moves, vec![(1, 2), (2, 1)]);
}

#[test]
fn king_interior_step_count() {
    let mut game = Game::new();
    game.set_piece(4, 4, Some(piece(PieceType::King, Color::White)));
    let moves = moves_sorted(&game, 4, 4);
    assert_eq!(moves.len(), 8);
    for &(x, y) in moves.iter() {
        let df = (x as isize - 4).abs();
        let dr = (y as isize - 4).abs();
        assert!(df <= 1 && dr <= 1 && df + dr > 0);
    }
    assert_eq!(
        moves,
        vec![(3, 3), (3, 4), (3, 5), (4, 3), (4, 5), (5, 3), (5, 4), (5, 5)]
    );
}

#[test]
fn king_corner_is_truncated() {
    let mut game = Game::new();
    game.set_piece(7, 7, Some(piece(PieceType::King, Color::White)));
    let moves = moves_sorted(&game, 7, 7);
    assert_eq!(moves, vec![(6, 6), (6, 7), (7, 6)]);
}

#[test]
fn white_pawn_double_step_from_home_rank() {
    let mut game = Game::new();
    game.set_piece(2, 6, Some(piece(PieceType::Pawn, Color::White)));
    let moves = moves_sorted(&game, 2, 6);
    assert_eq!(moves, vec![(2, 4), (2, 5)]);
}

#[test]
fn white_pawn_single_step_off_home_rank() {
    let mut game = Game::new();
    game.set_piece(2, 5, Some(piece(PieceType::Pawn, Color::White)));
    let moves = moves_sorted(&game, 2, 5);
    assert_eq!(moves, vec![(2, 4)]);
}

#[test]
fn black_pawn_advances_toward_higher_ranks() {
    let mut game = Game::new();
    game.set_piece(5, 1, Some(piece(PieceType::Pawn, Color::Black)));
    let moves = moves_sorted(&game, 5, 1);
    assert_eq!(moves, vec![(5, 2), (5, 3)]);
}

#[test]
fn pawn_diagonal_needs_an_enemy() {
    let mut game = Game::new();
    game.set_piece(3, 4, Some(piece(PieceType::Pawn, Color::White)));
    game.set_piece(2, 3, Some(piece(PieceType::Rook, Color::Black)));
    game.set_piece(4, 3, Some(piece(PieceType::Bishop, Color::White)));
    let moves = moves_sorted(&game, 3, 4);
    // Black rook captured diagonally; the white bishop's square is not offered.
    assert_eq!(moves, vec![(2, 3), (3, 3)]);
}

#[test]
fn pawn_forward_rule_follows_occupancy_not_color_of_empty() {
    // The engine's literal forward rule: a forward square held by the enemy
    // may be entered, while one held by the mover's own color may not.
    let mut game = Game::new();
    game.set_piece(3, 4, Some(piece(PieceType::Pawn, Color::White)));
    game.set_piece(3, 3, Some(piece(PieceType::Knight, Color::Black)));
    let moves = moves_sorted(&game, 3, 4);
    assert_eq!(moves, vec![(3, 3)]);

    let mut blocked = Game::new();
    blocked.set_piece(3, 4, Some(piece(PieceType::Pawn, Color::White)));
    blocked.set_piece(3, 3, Some(piece(PieceType::Knight, Color::White)));
    assert_eq!(blocked.get_possible_moves(3, 4), Ok(vec![]));
}

#[test]
fn rook_corner_truncation() {
    let mut game = Game::new();
    game.set_piece(0, 0, Some(piece(PieceType::Rook, Color::White)));
    let moves = moves_sorted(&game, 0, 0);
    assert_eq!(moves.len(), 14);
    let mut expected: Vec<(usize, usize)> = Vec::new();
    for i in 1..8 {
        expected.push((0, i));
        expected.push((i, 0));
    }
    expected.sort();
    assert_eq!(moves, expected);
}

#[test]
fn bishop_ray_stops_at_blockers() {
    let mut game = Game::new();
    game.set_piece(2, 2, Some(piece(PieceType::Bishop, Color::White)));
    game.set_piece(4, 4, Some(piece(PieceType::Pawn, Color::White)));
    game.set_piece(1, 1, Some(piece(PieceType::Pawn, Color::Black)));
    let moves = moves_sorted(&game, 2, 2);
    // Toward (7, 7): (3, 3) is open, the own pawn at (4, 4) blocks and is not
    // offered. Toward (0, 0): the enemy pawn at (1, 1) is captured and blocks.
    assert!(moves.contains(&(3, 3)));
    assert!(!moves.contains(&(4, 4)));
    assert!(!moves.contains(&(5, 5)));
    assert!(moves.contains(&(1, 1)));
    assert!(!moves.contains(&(0, 0)));
    assert_eq!(moves, vec![(0, 4), (1, 1), (1, 3), (3, 1), (3, 3), (4, 0)]);
}

#[test]
fn queen_open_board_ray_count() {
    let mut game = Game::new();
    game.set_piece(3, 3, Some(piece(PieceType::Queen, Color::Black)));
    let moves = moves_sorted(&game, 3, 3);
    // 14 rook-like squares plus 13 bishop-like squares from (3, 3).
    assert_eq!(moves.len(), 27);
    for &(x, y) in moves.iter() {
        assert!(x <= 7 && y <= 7);
    }
}

#[test]
fn queen_captures_enemy_and_stops() {
    let mut game = Game::new();
    game.set_piece(3, 3, Some(piece(PieceType::Queen, Color::White)));
    game.set_piece(3, 5, Some(piece(PieceType::Pawn, Color::Black)));
    let moves = moves_sorted(&game, 3, 3);
    assert!(moves.contains(&(3, 4)));
    assert!(moves.contains(&(3, 5)));
    assert!(!moves.contains(&(3, 6)));
    assert!(!moves.contains(&(3, 7)));
}

#[test]
fn no_destination_holds_own_color() {
    let mut game = Game::new();
    game.reset_board();
    for x in 0..8 {
        for y in 0..8 {
            let source = match game.get_piece(x, y) {
                Some(p) => p,
                None => continue,
            };
            let moves = game.get_possible_moves(x, y).expect("occupied square");
            for &(tx, ty) in moves.iter() {
                assert!(tx <= 7 && ty <= 7);
                if let Some(target) = game.get_piece(tx, ty) {
                    assert_ne!(target.color, source.color);
                }
            }
        }
    }
}

#[test]
fn reset_position_pawn_query() {
    let mut game = Game::new();
    game.reset_board();
    let moves = moves_sorted(&game, 1, 6);
    assert_eq!(moves, vec![(1, 4), (1, 5)]);
}
