//! FEN round trips over the reference positions.
use chess_engine::board::Board;
use chess_engine::fen::{
    CASTLE_KINGSIDE_POSITION, CASTLE_QUEENSIDE_POSITION, CHECK_POSITION, CMK_POSITION, EMPTY_BOARD,
    KILLER_POSITION, PROMOTION_POSITION, START_POSITION, TRICKY_POSITION,
};

#[test]
fn fen_conversion() {
    for pos in [
        EMPTY_BOARD,
        START_POSITION,
        CASTLE_KINGSIDE_POSITION,
        CASTLE_QUEENSIDE_POSITION,
        PROMOTION_POSITION,
        CHECK_POSITION,
        TRICKY_POSITION,
        KILLER_POSITION,
        CMK_POSITION,
    ] {
        let board = Board::from_fen(pos).unwrap();

        let first_iter_fen = board.into_fen();
        assert_eq!(first_iter_fen.trim(), pos.trim());

        let second_iter_fen = Board::from_fen(&first_iter_fen).unwrap().into_fen();
        assert_eq!(first_iter_fen, second_iter_fen);
    }
}

#[test]
fn fen_rejects_malformed() {
    assert!(Board::from_fen("").is_err());
    assert!(Board::from_fen("8/8/8/8/8/8/8 w - - 0 1").is_err());
    assert!(Board::from_fen("9/8/8/8/8/8/8/8 w - - 0 1").is_err());
    assert!(Board::from_fen("8/8/8/8/8/8/8/8 x - - 0 1").is_err());
    assert!(Board::from_fen("8/8/8/8/8/8/8/8 w - - x 1").is_err());
    assert!(Board::from_fen("8/8/8/8/8/8/8/8 w - z9 0 1").is_err());
    assert!(Board::from_fen("rnbqkbnr/pppppppp/8/8/8/8/PPPPPPPP/RNBQKBNR").is_err());
}

#[test]
fn fen_trailing_space_accepted() {
    let board = Board::from_fen("rnbqkbnr/pppppppp/8/8/8/8/PPPPPPPP/RNBQKBNR w KQkq - 0 1 ")
        .unwrap();
    assert_eq!(board.into_fen(), START_POSITION);
}
