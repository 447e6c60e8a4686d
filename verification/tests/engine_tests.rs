//! End-to-end scenarios: the reference mates, the obvious capture, the
//! start position, and the evaluator's laws on concrete boards.
use chess_engine::board::{Board, Colour, Piece};
use chess_engine::fen::{CMK_POSITION, START_POSITION, TRICKY_POSITION};
use chess_engine::movegen::{FinishedState, GameState, ReasonWin};
use chess_engine::score::Eval;
use chess_engine::tree::Branch;

fn root_of(fen: &str) -> Branch {
    Branch::from_board(Board::from_fen(fen).unwrap())
}

#[test]
fn start_position_expansion() {
    let mut root = root_of(START_POSITION);
    root.run_base_node();
    assert_eq!(root.children.len(), 20);
    for child in &root.children {
        assert!(child.eval.is_some());
        assert!(child.priority.is_some());
        assert!(child.is_terminal);
    }
    let chosen = root.get_best(true, &Vec::new()).expect("a best move");
    let chosen_board = chosen.board;
    // the chosen move is legal: its position is one the generator produced
    let legal = Board::from_fen(START_POSITION)
        .unwrap()
        .generate_legal_moves();
    assert!(legal.iter().any(|m| m.board == chosen_board));
}

#[test]
fn mate_in_one_white() {
    let mut root = root_of("6k1/5ppp/8/8/8/8/8/R6K w - - 0 1");
    root.run_base_node();
    let chosen = root.get_best(true, &Vec::new()).expect("a best move");
    let chosen_board = chosen.board;
    let mv = chosen._res_move.expect("a move");
    // Ra8#: the rook lands on a8
    assert_eq!(mv.piece, Piece::Rook(Colour::White));
    assert_eq!(mv.dest, 56);
    assert_eq!(
        chosen_board.get_game_state(),
        GameState::Finished(FinishedState::Win(Colour::White, ReasonWin::Checkmate))
    );
    assert_eq!(root.eval, Some(Eval::Mate(1, Colour::White)));
}

#[test]
fn mate_in_one_black_cannot_avoid() {
    // Black is already mated: White just delivered Ra8#
    let board = Board::from_fen("R6k/5ppp/8/8/8/8/8/6K1 b - - 0 1").unwrap();
    assert_eq!(
        board.get_game_state(),
        GameState::Finished(FinishedState::Win(Colour::White, ReasonWin::Checkmate))
    );
    // scored one ply below the move that delivered it
    let branch = Branch::from_board(board);
    assert_eq!(branch.eval_position(0, 1), Eval::Mate(1, Colour::White));
}

#[test]
fn obvious_capture() {
    let mut root = root_of("4k3/8/8/3q4/4P3/8/8/4K3 w - - 0 1");
    root.run_base_node();
    let chosen_eval;
    let chosen_dest;
    {
        let chosen = root.get_best(true, &Vec::new()).expect("a best move");
        chosen_eval = chosen.eval.unwrap();
        chosen_dest = chosen._res_move.unwrap().dest;
    }
    // exd5: the pawn captures the queen on d5 (square 35)
    assert_eq!(chosen_dest, 35);
    // the capture outranks every other reply
    for child in &root.children {
        if child._res_move.unwrap().dest != 35 {
            assert!(Eval::lt_exec(child.eval.unwrap(), chosen_eval));
        }
    }
}

#[test]
fn legal_move_closure() {
    // one child per legal move, and no duplicate child positions
    let board = Board::from_fen(TRICKY_POSITION).unwrap();
    let legal = board.generate_legal_moves();
    let mut root = Branch::from_board(board);
    root.populate(0);
    assert_eq!(root.children.len(), legal.len());
    for (i, child) in root.children.iter().enumerate() {
        assert_eq!(child.board, legal[i].board);
    }
    for i in 0..legal.len() {
        for j in 0..i {
            assert!(
                !(legal[i].origin == legal[j].origin
                    && legal[i].dest == legal[j].dest
                    && legal[i].promotion == legal[j].promotion)
            );
        }
    }
}

#[test]
fn evaluator_deterministic() {
    for fen in [START_POSITION, TRICKY_POSITION, CMK_POSITION] {
        let b = Board::from_fen(fen).unwrap();
        let first = Branch::test_eval(b);
        let second = Branch::test_eval(b);
        assert_eq!(first, second);
    }
}

/// Swaps colours and flips ranks of a FEN text.
fn mirror_fen(fen: &str) -> String {
    let fields: Vec<&str> = fen.split(' ').collect();
    let ranks: Vec<String> = fields[0]
        .split('/')
        .rev()
        .map(|r| {
            r.chars()
                .map(|c| {
                    if c.is_ascii_uppercase() {
                        c.to_ascii_lowercase()
                    } else if c.is_ascii_lowercase() {
                        c.to_ascii_uppercase()
                    } else {
                        c
                    }
                })
                .collect()
        })
        .collect();
    let side = if fields[1] == "w" { "b" } else { "w" };
    let castling: String = if fields[2] == "-" {
        "-".to_string()
    } else {
        let mut out = String::new();
        for c in ['K', 'Q', 'k', 'q'] {
            let swapped = if c.is_ascii_uppercase() {
                c.to_ascii_lowercase()
            } else {
                c.to_ascii_uppercase()
            };
            if fields[2].contains(swapped) {
                out.push(c);
            }
        }
        out
    };
    let ep: String = if fields[3] == "-" {
        "-".to_string()
    } else {
        let file = &fields[3][0..1];
        let rank: u32 = fields[3][1..2].parse().unwrap();
        format!("{}{}", file, 9 - rank)
    };
    format!(
        "{} {} {} {} {} {}",
        ranks.join("/"),
        side,
        castling,
        ep,
        fields[4],
        fields[5]
    )
}

#[test]
fn evaluator_symmetry() {
    for fen in [START_POSITION, TRICKY_POSITION, CMK_POSITION] {
        let b = Board::from_fen(fen).unwrap();
        let m = Board::from_fen(&mirror_fen(fen)).unwrap();
        let (Eval::Numeric(e), Eval::Numeric(me)) = (Branch::test_eval(b), Branch::test_eval(m))
        else {
            panic!("numeric evaluations expected");
        };
        assert!((me + e).abs() <= 1, "eval {e} vs mirrored {me}");
    }
}

#[test]
fn eval_order_mate_beats_material() {
    let m1w = Eval::Mate(1, Colour::White);
    let m3w = Eval::Mate(3, Colour::White);
    let m1b = Eval::Mate(1, Colour::Black);
    let m3b = Eval::Mate(3, Colour::Black);
    let big = Eval::Numeric(1_000_000);
    let small = Eval::Numeric(-1_000_000);
    assert!(m1w > big);
    assert!(m3w > big);
    assert!(m1w > m3w);
    assert!(m1b < small);
    assert!(m1b < m3b);
    assert!(Eval::Infinity > m1w);
    assert!(Eval::NegInfinity < m1b);
    assert!(big > small);
    assert_eq!(m1w.max(big), m1w);
    assert_eq!(m1b.min(small), m1b);
}

#[test]
fn minimax_consistency_at_root() {
    let mut root = root_of(TRICKY_POSITION);
    root.run_base_node();
    let (rolled, _loc) = root.simple_minimax(true, &Vec::new());
    assert_eq!(root.eval, Some(rolled));
    let best = root
        .children
        .iter()
        .filter_map(|c| c.eval)
        .max_by(|a, b| a.partial_cmp(b).unwrap())
        .unwrap();
    assert_eq!(rolled, best);
}
