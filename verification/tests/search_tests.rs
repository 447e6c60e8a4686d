//! The scheduler's decisions and the tree operations they lean on.
use chess_engine::board::Board;
use chess_engine::book::{choose_book_move, manual_book_phase, BookMove, CONSENSUS_THRESHOLD};
use chess_engine::fen::{START_POSITION, TRICKY_POSITION};
use chess_engine::score::GamePhase;
use chess_engine::search::{check_location, divide_base, expand_unit, get_next_wide};
use chess_engine::tree::Branch;

#[test]
fn territories_round_robin() {
    let groups = divide_base(20, 4);
    assert_eq!(groups.len(), 4);
    assert_eq!(groups[0], vec![0, 4, 8, 12, 16]);
    assert_eq!(groups[1], vec![1, 5, 9, 13, 17]);
    assert_eq!(groups[2], vec![2, 6, 10, 14, 18]);
    assert_eq!(groups[3], vec![3, 7, 11, 15, 19]);
    let few = divide_base(2, 8);
    assert_eq!(few.len(), 2);
    assert_eq!(few[0], vec![0]);
    assert_eq!(few[1], vec![1]);
    assert_eq!(divide_base(0, 3).len(), 0);
}

#[test]
fn wide_phase_expands_and_merges() {
    let mut root = Branch::from_board(Board::from_fen(START_POSITION).unwrap());
    root.run_base_node();
    // one wide unit per territory, one round
    let groups = divide_base(root.children.len(), 4);
    for group in &groups {
        let base = vec![group[0]];
        assert!(check_location(&root, &base));
        if let Some(next) = get_next_wide(&root, &base) {
            assert!(expand_unit(&mut root, &next));
        }
    }
    // the expanded frontier nodes now have children of their own
    let deepened = root
        .children
        .iter()
        .filter(|c| !c.is_terminal && c.children.iter().any(|g| g.eval.is_some()))
        .count();
    assert!(deepened >= 1);
}

#[test]
fn merge_touches_only_its_subtree() {
    let mut root = Branch::from_board(Board::from_fen(START_POSITION).unwrap());
    root.run_base_node();
    let before: Vec<Option<chess_engine::score::Eval>> =
        root.children.iter().map(|c| c.eval).collect();
    let before_board_1 = root.children[1].board;
    assert!(expand_unit(&mut root, &[0]));
    // the sibling subtrees are untouched: their fresh grandchildren stay
    // unevaluated
    for i in 1..root.children.len() {
        assert_eq!(root.children[i].eval, before[i]);
        assert!(root.children[i].children.iter().all(|g| g.eval.is_none()));
    }
    assert_eq!(root.children[1].board, before_board_1);
    // the expanded child's grandchildren are now scored frontier leaves
    assert!(root.children[0].children.iter().all(|g| g.eval.is_some()));
    assert!(!root.children[0].is_terminal);
}

#[test]
fn lost_location_is_reported() {
    let mut root = Branch::from_board(Board::from_fen(TRICKY_POSITION).unwrap());
    root.run_base_node();
    assert!(!expand_unit(&mut root, &[200]));
    assert!(!check_location(&root, &[0, 500]));
}

#[test]
fn worker_counts_agree() {
    // the same position searched with one territory and with eight gives
    // the same choice: the partition only orders the work
    let mut one = Branch::from_board(Board::from_fen(TRICKY_POSITION).unwrap());
    let mut eight = Branch::from_board(Board::from_fen(TRICKY_POSITION).unwrap());
    for (root, workers) in [(&mut one, 1usize), (&mut eight, 8usize)] {
        root.run_base_node();
        let groups = divide_base(root.children.len(), workers);
        for round in 0..2 {
            for group in &groups {
                let base = vec![group[round % group.len()]];
                if let Some(next) = get_next_wide(root, &base) {
                    expand_unit(root, &next);
                }
            }
        }
    }
    let chosen_one = one.get_best(true, &Vec::new()).unwrap().board;
    let chosen_eight = eight.get_best(true, &Vec::new()).unwrap().board;
    assert_eq!(one.eval, eight.eval);
    assert_eq!(chosen_one, chosen_eight);
}

#[test]
fn frontier_scan_finds_terminals() {
    let mut root = Branch::from_board(Board::from_fen(START_POSITION).unwrap());
    // a fresh root is not yet a frontier leaf and has no descendants
    assert!(root.find_surface_terminal(&Vec::new()).is_none());
    root.run_base_node();
    let found = root.find_surface_terminal(&Vec::new()).expect("a frontier leaf");
    assert_eq!(found.len(), 1);
    assert!(root.children[found[0]].is_terminal);
}

fn row(id: i64, freq: i64, terminal: bool) -> BookMove {
    BookMove { id, parent_move: 1, san: String::new(), freq, terminal }
}

#[test]
fn book_chooses_most_frequent() {
    let rows = vec![row(2, 5, false), row(3, 9, false), row(4, 9, true), row(5, 2, false)];
    // the last row of greatest frequency at or above the threshold wins
    assert_eq!(choose_book_move(&rows, CONSENSUS_THRESHOLD), Some(2));
    let thin = vec![row(2, 1, false), row(3, 2, true)];
    assert_eq!(choose_book_move(&thin, CONSENSUS_THRESHOLD), None);
    assert_eq!(choose_book_move(&Vec::new(), CONSENSUS_THRESHOLD), None);
}

#[test]
fn manual_reply_tracks_book() {
    assert_eq!(manual_book_phase(Some((7, false))), Some(GamePhase::Opening(7)));
    assert_eq!(manual_book_phase(Some((7, true))), None);
    assert_eq!(manual_book_phase(None), None);
}
