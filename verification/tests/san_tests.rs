//! Standard algebraic notation over the reference positions.
use chess_engine::board::{Board, Colour, Piece};
use chess_engine::fen::START_POSITION;
use chess_engine::san::SanMove;

#[test]
fn basic_notation() {
    let mut board = Board::from_fen(START_POSITION).unwrap();

    let m = SanMove::new(
        Piece::Pawn(Colour::White),
        false,
        false,
        false,
        12,
        (false, false),
        28,
        None,
        None,
    );
    assert!(board.make_san_move(m).is_ok());

    println!("{}", board.into_fen());
    println!("{}", m.to_text());
    assert_eq!(m.to_text(), "e4");
}

fn sans_to(fen: &str, dest: i32) -> Vec<String> {
    let board = Board::from_fen(fen).unwrap();
    board
        .generate_legal_moves()
        .iter()
        .filter(|m| m.dest == dest)
        .map(|m| board.get_san(&m.board).to_text())
        .collect()
}

fn all_sans(fen: &str) -> Vec<String> {
    let board = Board::from_fen(fen).unwrap();
    board
        .generate_legal_moves()
        .iter()
        .map(|m| board.get_san(&m.board).to_text())
        .collect()
}

#[test]
fn file_disambiguation() {
    let fen = "1k6/ppp5/8/7R/8/8/PPP5/1K2R3 w - - 0 1";
    for san in sans_to(fen, 36) {
        println!("{san}");
        assert!(san == "Ree5" || san == "Rhe5");
    }
}

#[test]
fn rank_disambiguation() {
    let fen = "1k6/ppp5/8/7R/8/8/PPP5/1K5R w - - 0 1";
    for san in sans_to(fen, 15) {
        println!("{san}");
        assert!(san == "R5h2" || san == "R1h2");
    }
}

#[test]
fn double_disambiguation() {
    let fen = "1k6/ppp5/5N1N/8/8/8/PPP4N/1K6 w - - 0 1";
    for san in sans_to(fen, 30) {
        println!("{san}");
        assert!(san.starts_with('N') && san.contains("g4"));
    }
}

#[test]
fn kingside_castle() {
    let fen = "1k6/ppp5/8/8/8/8/8/4K2R w K - 0 1";
    let sans = all_sans(fen);
    for san in &sans {
        println!("{san}");
    }
    assert!(sans.iter().any(|s| s == "O-O"));
}

#[test]
fn queenside_castle() {
    let fen = "1k6/ppp5/8/8/8/8/P7/R3K3 w Q - 0 1";
    let sans = all_sans(fen);
    for san in &sans {
        println!("{san}");
    }
    assert!(sans.iter().any(|s| s == "O-O-O"));
}

#[test]
fn promotion_san() {
    let fen = "1k6/ppp3P1/8/8/8/8/8/4K3 w - - 0 1";
    let sans = all_sans(fen);
    for san in &sans {
        println!("{san}");
    }
    assert!(sans.iter().any(|s| s == "g8=Q#"));
}

#[test]
fn promotion_disambiguation() {
    let fen = "1k4rb/ppp2P2/8/8/8/8/8/5K2 w - - 0 1";
    for san in all_sans(fen) {
        println!("{san}");
    }
}

#[test]
fn pawn_captures() {
    let fen = "rn1q1rk1/pp2bpp1/2p1pn1p/3p1b2/2PPP3/2N3P1/PP1N1PBP/R1BQ1RK1 b - e3 17 9";
    for san in all_sans(fen) {
        println!("{san}");
    }
}

#[test]
fn check() {
    let fen = "r1b1kb1r/pppn1ppp/3q1n2/3Np1B1/4P3/5N2/PPP2PPP/R2QKB1R w KQkq - 14 8";
    for san in all_sans(fen) {
        println!("{san}");
    }
}

#[test]
fn test_parsing() {
    let mut original_board =
        Board::from_fen("rnbqkbnr/pppp1ppp/8/4p3/4P3/5N2/PPPP1PPP/RNBQKB1R w KQkq e6 0 3").unwrap();
    println!("{}", original_board.into_fen());
    let res_board =
        Board::from_fen("rnbqkbnr/pppp1ppp/8/4N3/4P3/8/PPPP1PPP/RNBQKB1R b KQkq - 1 3").unwrap();
    if let Ok(m) = SanMove::from_string("Nxe5", &original_board) {
        original_board.make_san_move(m).unwrap();
        assert_eq!(original_board, res_board);
    }
}

#[test]
fn test_en_passent() {
    let fen = "r1bqkb1r/3pnppp/ppn1p3/8/B1pPP3/2P2N2/PP3PPP/RNBQR1K1 b kq d3 0 8";
    let sans = all_sans(fen);
    for san in &sans {
        println!("{san}");
    }
    assert!(sans.iter().any(|s| s == "cxd3"));
}
