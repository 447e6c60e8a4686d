//! The opening-book decisions. The book itself is a persistent store read
//! elsewhere; this module chooses among the rows it yields: the reply of
//! greatest frequency above the consensus threshold, and the phase the
//! game moves to.
use vstd::prelude::*;

use crate::score::GamePhase;

verus! {

/// The consensus threshold: a book move needs at least this many prior
/// games to be eligible.
pub const CONSENSUS_THRESHOLD: i64 = 3;

/// One stored book reply: a move made from the parent position in prior
/// games, with how often it occurred and whether the book ends there.
pub struct BookMove {
    pub id: i64,
    pub parent_move: i64,
    pub san: String,
    pub freq: i64,
    pub terminal: bool,
}

/// The chosen index: the last row of maximal frequency among rows at or
/// above the threshold.
pub open spec fn chosen_ok(rows: Seq<BookMove>, threshold: int, i: int) -> bool {
    &&& 0 <= i < rows.len()
    &&& rows[i].freq >= threshold
    &&& forall|j: int|
        0 <= j < rows.len() && (#[trigger] rows[j].freq) >= threshold ==> rows[j].freq
            <= rows[i].freq
    &&& forall|j: int|
        i < j < rows.len() && (#[trigger] rows[j].freq) >= threshold ==> rows[j].freq
            < rows[i].freq
}

/// Picks the book reply: the most frequent row at or above the threshold,
/// the last such row on ties, or `None` when no row qualifies.
pub fn choose_book_move(rows: &Vec<BookMove>, threshold: i64) -> (r: Option<usize>)
    ensures
        match r {
            Some(i) => chosen_ok(rows@, threshold as int, i as int),
            None => forall|j: int|
                0 <= j < rows@.len() ==> (#[trigger] rows@[j].freq) < threshold,
        },
{
    let mut best: Option<usize> = None;
    let mut i: usize = 0;
    while i < rows.len()
        invariant
            0 <= i <= rows@.len(),
            match best {
                Some(bi) => {
                    &&& 0 <= bi < i
                    &&& rows@[bi as int].freq >= threshold
                    &&& forall|j: int|
                        0 <= j < i && (#[trigger] rows@[j].freq) >= threshold ==> rows@[j].freq
                            <= rows@[bi as int].freq
                    &&& forall|j: int|
                        bi < j < i && (#[trigger] rows@[j].freq) >= threshold ==> rows@[j].freq
                            < rows@[bi as int].freq
                },
                None => forall|j: int| 0 <= j < i ==> (#[trigger] rows@[j].freq) < threshold,
            },
        decreases rows@.len() - i,
    {
        if rows[i].freq >= threshold {
            let take = match best {
                Some(bi) => rows[i].freq >= rows[bi].freq,
                None => true,
            };
            if take {
                best = Some(i);
            }
        }
        i += 1;
    }
    best
}

/// The phase after playing a book reply: deeper into the book, or the
/// middlegame when the book ends at the reply.
pub fn book_phase(m: &BookMove) -> (r: GamePhase)
    ensures
        m.terminal ==> r == GamePhase::MiddleGame,
        !m.terminal ==> r == GamePhase::Opening(m.id),
{
    if m.terminal {
        GamePhase::MiddleGame
    } else {
        GamePhase::Opening(m.id)
    }
}

/// The phase after a human reply was looked up in the book: the matching
/// child's book node, or nothing when the reply is unknown or closes the
/// book.
pub fn manual_book_phase(row: Option<(i64, bool)>) -> (r: Option<GamePhase>)
    ensures
        match row {
            Some((id, terminal)) => r == if terminal {
                Option::<GamePhase>::None
            } else {
                Some(GamePhase::Opening(id))
            },
            None => r is None,
        },
{
    match row {
        Some((id, terminal)) => {
            if terminal {
                None
            } else {
                Some(GamePhase::Opening(id))
            }
        },
        None => None,
    }
}

} // verus!
