use chess_moves::Color;
use chess_moves::Game;
use chess_moves::GameState;
use chess_moves::Piece;
use chess_moves::PieceType;

fn piece(piece_type: PieceType, color: Color) -> Piece {
    Piece { piece_type, color }
}

#[test]
fn it_works() {
    assert_eq!(2 + 2, 4);
}

#[test]
fn game_in_progress_after_init() {
    let game = Game::new();

    println!("{:?}", game);

    assert_eq!(game.get_game_state(), GameState::InProgress);
}

#[test]
fn new_board_is_empty() {
    let game = Game::new();
    for x in 0..8 {
        for y in 0..8 {
            assert_eq!(game.get_piece(x, y), None);
        }
    }
}

#[test]
fn reset_board_places_opening_position() {
    let mut game = Game::new();
    game.reset_board();

    assert_eq!(game.get_piece(0, 0), Some(piece(PieceType::Rook, Color::Black)));
    assert_eq!(game.get_piece(1, 0), Some(piece(PieceType::Knight, Color::Black)));
    assert_eq!(game.get_piece(2, 0), Some(piece(PieceType::Bishop, Color::Black)));
    assert_eq!(game.get_piece(3, 0), Some(piece(PieceType::King, Color::Black)));
    assert_eq!(game.get_piece(4, 0), Some(piece(PieceType::Queen, Color::Black)));
    assert_eq!(game.get_piece(7, 0), Some(piece(PieceType::Rook, Color::Black)));
    for x in 0..8 {
        assert_eq!(game.get_piece(x, 1), Some(piece(PieceType::Pawn, Color::Black)));
        assert_eq!(game.get_piece(x, 6), Some(piece(PieceType::Pawn, Color::White)));
    }
    assert_eq!(game.get_piece(0, 7), Some(piece(PieceType::Rook, Color::White)));
    assert_eq!(game.get_piece(3, 7), Some(piece(PieceType::King, Color::White)));
    assert_eq!(game.get_piece(4, 7), Some(piece(PieceType::Queen, Color::White)));

    assert_eq!(game.get_piece(4, 4), Some(piece(PieceType::Rook, Color::White)));
    assert_eq!(game.get_piece(3, 3), Some(piece(PieceType::Bishop, Color::Black)));
    assert_eq!(game.get_piece(4, 2), Some(piece(PieceType::Queen, Color::Black)));
    assert_eq!(game.get_piece(3, 4), Some(piece(PieceType::Knight, Color::White)));
    assert_eq!(game.get_piece(2, 4), Some(piece(PieceType::Pawn, Color::White)));

    assert_eq!(game.get_piece(5, 4), None);
    assert_eq!(game.get_piece(0, 5), None);
    assert_eq!(game.get_game_state(), GameState::InProgress);
}

#[test]
fn make_move_is_a_stub() {
    let mut game = Game::new();
    game.reset_board();
    let before = game.get_piece(4, 4);
    assert_eq!(game.make_move(4, 4, 4, 5), None);
    assert_eq!(game.get_piece(4, 4), before);
    assert_eq!(game.get_piece(4, 5), None);
}

#[test]
fn set_promotion_is_a_stub() {
    let mut game = Game::new();
    game.reset_board();
    game.set_promotion(2, 4);
    assert_eq!(game.get_piece(2, 4), Some(piece(PieceType::Pawn, Color::White)));
    assert_eq!(game.get_game_state(), GameState::InProgress);
}

#[test]
fn set_piece_overwrites_one_square() {
    let mut game = Game::new();
    game.set_piece(6, 2, Some(piece(PieceType::Queen, Color::Black)));
    assert_eq!(game.get_piece(6, 2), Some(piece(PieceType::Queen, Color::Black)));
    game.set_piece(6, 2, None);
    assert_eq!(game.get_piece(6, 2), None);
    for x in 0..8 {
        for y in 0..8 {
            assert_eq!(game.get_piece(x, y), None);
        }
    }
}
