//! The tagged evaluation value and its total order, and the game phase.
//!
//! `NegInfinity < Mate(d, Black) < Numeric(x) < Mate(d, White) < Infinity`.
//! Within White's mates a smaller distance is better (ranks higher); within
//! Black's mates a smaller distance ranks lower. Numeric scores are
//! centipawns from White's point of view.
use vstd::prelude::*;

use crate::board::Colour;
use core::cmp::Ordering;

verus! {

/// Which stage of the game the controller believes it is in; `Opening`
/// carries the identifier of the current opening-book node.
#[derive(Debug, Clone, Copy, PartialEq, Eq, Structural, Hash)]
pub enum GamePhase {
    Opening(i64),
    MiddleGame,
    EndGame,
}

#[derive(Debug, Clone, Copy, PartialEq, Eq, Structural, Hash)]
pub enum Eval {
    NegInfinity,
    /// A forced mate for the named side in the given number of plies.
    Mate(usize, Colour),
    /// A heuristic score in centipawns, from White's point of view.
    Numeric(i64),
    Infinity,
}

/// The band an evaluation falls in; bands are ordered bottom to top.
pub open spec fn eval_band(e: Eval) -> int {
    match e {
        Eval::NegInfinity => 0,
        Eval::Mate(_, Colour::Black) => 1,
        Eval::Numeric(_) => 2,
        Eval::Mate(_, Colour::White) => 3,
        Eval::Infinity => 4,
    }
}

/// The strict total order on evaluations.
pub open spec fn eval_lt(a: Eval, b: Eval) -> bool {
    if eval_band(a) != eval_band(b) {
        eval_band(a) < eval_band(b)
    } else {
        match (a, b) {
            (Eval::Mate(d1, Colour::White), Eval::Mate(d2, Colour::White)) => d2 < d1,
            (Eval::Mate(d1, Colour::Black), Eval::Mate(d2, Colour::Black)) => d1 < d2,
            (Eval::Numeric(x), Eval::Numeric(y)) => x < y,
            _ => false,
        }
    }
}

pub open spec fn eval_le(a: Eval, b: Eval) -> bool {
    eval_lt(a, b) || a == b
}

pub open spec fn eval_cmp(a: Eval, b: Eval) -> Ordering {
    if eval_lt(a, b) {
        Ordering::Less
    } else if eval_lt(b, a) {
        Ordering::Greater
    } else {
        Ordering::Equal
    }
}

impl PartialOrd for Eval {
    fn partial_cmp(&self, other: &Eval) -> (r: Option<Ordering>) {
        let lt = Eval::lt_exec(*self, *other);
        let gt = Eval::lt_exec(*other, *self);
        if lt {
            Some(Ordering::Less)
        } else if gt {
            Some(Ordering::Greater)
        } else {
            Some(Ordering::Equal)
        }
    }
}

impl vstd::std_specs::cmp::PartialOrdSpecImpl for Eval {
    open spec fn obeys_partial_cmp_spec() -> bool {
        true
    }

    open spec fn partial_cmp_spec(&self, other: &Eval) -> Option<Ordering> {
        Some(eval_cmp(*self, *other))
    }
}

impl Eval {
    /// Strict comparison in the evaluation order.
    pub fn lt_exec(a: Eval, b: Eval) -> (r: bool)
        ensures
            r == eval_lt(a, b),
    {
        match (a, b) {
            (Eval::NegInfinity, Eval::NegInfinity) => false,
            (Eval::NegInfinity, _) => true,
            (_, Eval::NegInfinity) => false,
            (Eval::Infinity, Eval::Infinity) => false,
            (_, Eval::Infinity) => true,
            (Eval::Infinity, _) => false,
            (Eval::Mate(d1, Colour::Black), Eval::Mate(d2, Colour::Black)) => d1 < d2,
            (Eval::Mate(_, Colour::Black), _) => true,
            (_, Eval::Mate(_, Colour::Black)) => false,
            (Eval::Mate(d1, Colour::White), Eval::Mate(d2, Colour::White)) => d2 < d1,
            (Eval::Mate(_, Colour::White), _) => false,
            (_, Eval::Mate(_, Colour::White)) => true,
            (Eval::Numeric(x), Eval::Numeric(y)) => x < y,
        }
    }

    /// The larger of two evaluations.
    pub fn max(self, other: Eval) -> (r: Eval)
        ensures
            r == if eval_lt(self, other) {
                other
            } else {
                self
            },
            eval_le(self, r) && eval_le(other, r),
    {
        proof {
            lemma_eval_order_total(self, other);
        }
        if Eval::lt_exec(self, other) {
            other
        } else {
            self
        }
    }

    /// The smaller of two evaluations.
    pub fn min(self, other: Eval) -> (r: Eval)
        ensures
            r == if eval_lt(other, self) {
                other
            } else {
                self
            },
            eval_le(r, self) && eval_le(r, other),
    {
        proof {
            lemma_eval_order_total(self, other);
        }
        if Eval::lt_exec(other, self) {
            other
        } else {
            self
        }
    }
}

/// The evaluation order is a strict total order: irreflexive, asymmetric,
/// and any two distinct values compare one way.
pub proof fn lemma_eval_order_total(a: Eval, b: Eval)
    ensures
        !eval_lt(a, a),
        eval_lt(a, b) ==> !eval_lt(b, a),
        a != b ==> eval_lt(a, b) || eval_lt(b, a),
        eval_cmp(a, b) == Ordering::Equal <==> a == b,
{
}

pub proof fn lemma_eval_lt_trans(a: Eval, b: Eval, c: Eval)
    requires
        eval_lt(a, b),
        eval_lt(b, c),
    ensures
        eval_lt(a, c),
{
}

/// Mate beats material: a forced mate for White outranks every numeric
/// score, and a forced mate for Black ranks below every numeric score,
/// whatever the mate distance. `Infinity` and `NegInfinity` bound them all.
pub proof fn lemma_mate_beats_material(d: usize, x: i64)
    ensures
        eval_lt(Eval::Numeric(x), Eval::Mate(d, Colour::White)),
        eval_lt(Eval::Mate(d, Colour::Black), Eval::Numeric(x)),
        eval_lt(Eval::Mate(d, Colour::White), Eval::Infinity),
        eval_lt(Eval::NegInfinity, Eval::Mate(d, Colour::Black)),
{
}

/// A sooner mate is better for the side that delivers it: for White a
/// smaller distance ranks higher, for Black it ranks lower.
pub proof fn lemma_sooner_mate(d1: usize, d2: usize)
    requires
        d1 < d2,
    ensures
        eval_lt(Eval::Mate(d2, Colour::White), Eval::Mate(d1, Colour::White)),
        eval_lt(Eval::Mate(d1, Colour::Black), Eval::Mate(d2, Colour::Black)),
{
}

} // verus!
