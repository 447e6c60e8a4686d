//! The search tree: a tagged tree of positions grown by the two search
//! phases. Nodes are addressed by locations — sequences of child indices
//! from the root. Inserting a worker's result replaces one subtree and
//! provably touches nothing else; the minimax roll-up provably writes the
//! extremum over evaluated children into every internal node it visits.
use vstd::prelude::*;

use crate::board::Board;
use crate::movegen::ChessMove;
use crate::score::{eval_lt, lemma_eval_order_total, Eval, GamePhase};

verus! {

/// One node of the search tree.
///
/// The frontier is carried by `is_terminal`, not by childlessness: a
/// frontier leaf is an *evaluated* node whose children — one per legal
/// move — are already generated but not yet scored, so that expanding it
/// is one bounded unit of work. A freshly created node is neither terminal
/// nor evaluated until its first evaluation marks it a frontier leaf, and
/// expansion then clears the flag again.
#[derive(Debug)]
pub struct Branch {
    pub board: Board,
    /// The move that led here from the parent; kept for reporting only.
    pub _res_move: Option<ChessMove>,
    /// The node's current score; `None` until it is first evaluated.
    pub eval: Option<Eval>,
    pub phase: Option<GamePhase>,
    pub children: Vec<Branch>,
    /// Ordering signal for unexpanded frontier nodes; root keeps `None`.
    pub priority: Option<Eval>,
    /// Whether this node is an evaluated frontier leaf awaiting expansion;
    /// its children are then generated but unevaluated.
    pub is_terminal: bool,
}

/// The mathematical shape of a tree node.
#[verifier::ext_equal]
pub ghost struct BranchView {
    pub board: Board,
    pub res_move: Option<ChessMove>,
    pub eval: Option<Eval>,
    pub phase: Option<GamePhase>,
    pub children: Seq<BranchView>,
    pub priority: Option<Eval>,
    pub is_terminal: bool,
}

pub open spec fn bview(b: Branch) -> BranchView
    decreases b,
{
    BranchView {
        board: b.board,
        res_move: b._res_move,
        eval: b.eval,
        phase: b.phase,
        children: bviews(b, 0),
        priority: b.priority,
        is_terminal: b.is_terminal,
    }
}

/// The views of the children from index `i` on.
pub open spec fn bviews(b: Branch, i: int) -> Seq<BranchView>
    decreases b, b.children@.len() - i,
    when 0 <= i <= b.children@.len()
{
    if i == b.children@.len() {
        Seq::<BranchView>::empty()
    } else {
        seq![bview(b.children@[i])] + bviews(b, i + 1)
    }
}

proof fn lemma_bviews_from(b: Branch, i: int)
    requires
        0 <= i <= b.children@.len(),
    ensures
        bviews(b, i).len() == b.children@.len() - i,
        forall|j: int|
            0 <= j < bviews(b, i).len() ==> #[trigger] bviews(b, i)[j] == bview(
                b.children@[i + j],
            ),
    decreases b.children@.len() - i,
{
    if i < b.children@.len() {
        lemma_bviews_from(b, i + 1);
    }
}

/// A node's view has one child view per child, in order.
pub broadcast proof fn lemma_bview_children(b: Branch)
    ensures
        (#[trigger] bview(b)).children.len() == b.children@.len(),
        forall|j: int|
            0 <= j < b.children@.len() ==> bview(b).children[j] == #[trigger] bview(
                b.children@[j],
            ),
{
    lemma_bviews_from(b, 0);
}

impl View for Branch {
    type V = BranchView;

    open spec fn view(&self) -> BranchView {
        bview(*self)
    }
}

/// The view of child `i` is child `i` of the view.
pub proof fn lemma_child_view(b: &Branch, i: int)
    requires
        0 <= i < b.children@.len(),
    ensures
        bview(*b).children.len() == b.children@.len(),
        bview(*b).children[i] == bview(b.children@[i]),
{
    lemma_bviews_from(*b, 0);
}

/// Nodes with the same children vector have the same child views.
pub proof fn lemma_same_children_view(a: Branch, b: Branch)
    requires
        a.children == b.children,
    ensures
        bview(a).children == bview(b).children,
{
    lemma_bviews_from(a, 0);
    lemma_bviews_from(b, 0);
    assert(bview(a).children =~= bview(b).children);
}

/// Every node of the view has at most `usize::MAX` children — true of
/// the view of any real tree, whose children live in vectors.
pub open spec fn sized(v: BranchView) -> bool
    decreases v,
{
    &&& v.children.len() <= usize::MAX
    &&& forall|i: int| 0 <= i < v.children.len() ==> sized(#[trigger] v.children[i])
}

/// The view of a real tree is sized.
pub broadcast proof fn lemma_bview_sized(b: Branch)
    ensures
        #[trigger] sized(bview(b)),
    decreases b,
{
    lemma_bviews_from(b, 0);
    assert(vstd::std_specs::vec::spec_vec_len(&b.children) == b.children@.len());
    assert forall|i: int| 0 <= i < bview(b).children.len() implies sized(
        #[trigger] bview(b).children[i],
    ) by {
        lemma_bview_sized(b.children@[i]);
    }
}

/// The location addresses a node: each step picks a child that exists.
pub open spec fn loc_valid(v: BranchView, loc: Seq<usize>) -> bool
    decreases loc.len(),
{
    loc.len() == 0 || (loc[0] < v.children.len() && loc_valid(
        v.children[loc[0] as int],
        loc.drop_first(),
    ))
}

/// The node a location addresses.
pub open spec fn node_at(v: BranchView, loc: Seq<usize>) -> BranchView
    decreases loc.len(),
{
    if loc.len() == 0 {
        v
    } else {
        node_at(v.children[loc[0] as int], loc.drop_first())
    }
}

pub open spec fn is_prefix(p: Seq<usize>, l: Seq<usize>) -> bool {
    p.len() <= l.len() && l.subrange(0, p.len() as int) == p
}

/// Neither location lies on the other's path.
pub open spec fn loc_disjoint(a: Seq<usize>, l: Seq<usize>) -> bool {
    !is_prefix(a, l) && !is_prefix(l, a)
}

/// Two nodes agree in everything but the contents of their children.
pub open spec fn same_except_children(a: BranchView, b: BranchView) -> bool {
    &&& a.board == b.board
    &&& a.res_move == b.res_move
    &&& a.eval == b.eval
    &&& a.phase == b.phase
    &&& a.priority == b.priority
    &&& a.is_terminal == b.is_terminal
    &&& a.children.len() == b.children.len()
}

/// Two nodes agree in everything but their score and their children's
/// contents.
pub open spec fn same_except_eval(a: BranchView, b: BranchView) -> bool {
    &&& a.board == b.board
    &&& a.res_move == b.res_move
    &&& a.phase == b.phase
    &&& a.priority == b.priority
    &&& a.is_terminal == b.is_terminal
    &&& a.children.len() == b.children.len()
}

impl Clone for Branch {
    /// A deep copy: the clone has the same view as the original.
    fn clone(&self) -> (r: Self)
        ensures
            r@ == self@,
        decreases *self,
    {
        broadcast use lemma_bview_children;

        let mut kids: Vec<Branch> = Vec::new();
        let mut i: usize = 0;
        while i < self.children.len()
            invariant
                0 <= i <= self.children@.len(),
                kids@.len() == i,
                forall|j: int| 0 <= j < i ==> #[trigger] bview(kids@[j]) == bview(self.children@[j]),
            decreases self.children@.len() - i,
        {
            kids.push(self.children[i].clone());
            i += 1;
        }
        let r = Branch {
            board: self.board,
            _res_move: self._res_move,
            eval: self.eval,
            phase: self.phase,
            children: kids,
            priority: self.priority,
            is_terminal: self.is_terminal,
        };
        proof {
            assert forall|j: int| 0 <= j < r@.children.len() implies r@.children[j]
                == self@.children[j] by {
                assert(r@.children[j] == bview(kids@[j]));
                assert(self@.children[j] == bview(self.children@[j]));
            }
            assert(r@.children =~= self@.children);
            assert(r@ =~= self@);
        }
        r
    }
}

impl Branch {
    /// A fresh, unexpanded node for a position.
    pub fn from_board(board: Board) -> (r: Branch)
        ensures
            r@.board == board,
            r@.res_move is None,
            r@.eval is None,
            r@.phase is None,
            r@.children.len() == 0,
            r@.priority is None,
            !r@.is_terminal,
    {
        Branch {
            board,
            _res_move: None,
            eval: None,
            phase: None,
            children: Vec::new(),
            priority: None,
            is_terminal: false,
        }
    }

    /// A child node for a move just generated; it inherits the parent's
    /// game phase and awaits evaluation.
    pub fn from_parent(&self, m: ChessMove, depth: usize) -> (r: Branch)
        ensures
            r@.board == m.board,
            r@.res_move == Some(m),
            r@.eval is None,
            r@.phase == self@.phase,
            r@.children.len() == 0,
            r@.priority is None,
            !r@.is_terminal,
    {
        Branch {
            board: m.board,
            _res_move: Some(m),
            eval: None,
            phase: self.phase,
            priority: None,
            children: Vec::new(),
            is_terminal: false,
        }
    }

    /// The node at `location`.
    pub fn find_branch(&self, location: &[usize]) -> (r: &Branch)
        requires
            loc_valid(self@, location@),
        ensures
            r@ == node_at(self@, location@),
    {
        proof {
            assert(location@.skip(0) == location@);
        }
        self.find_branch_from(location, 0)
    }

    fn find_branch_from(&self, location: &[usize], k: usize) -> (r: &Branch)
        requires
            k <= location@.len(),
            loc_valid(self@, location@.skip(k as int)),
        ensures
            r@ == node_at(self@, location@.skip(k as int)),
        decreases location@.len() - k,
    {
        broadcast use lemma_bview_children;

        if k == location.len() {
            proof {
                assert(location@.skip(k as int).len() == 0);
            }
            self
        } else {
            let i = location[k];
            proof {
                assert(location@.skip(k as int)[0] == location@[k as int]);
                assert(location@.skip(k as int).drop_first() =~= location@.skip(k as int + 1));
            }
            self.children[i].find_branch_from(location, k + 1)
        }
    }

    /// Replaces the subtree at `location` with `input_branch`.
    ///
    /// Nothing outside `location` is altered: every node whose location is
    /// disjoint from `location` keeps its whole subtree, and every node on
    /// the ancestry chain keeps all its fields, with only the one child on
    /// the path replaced.
    pub fn insert_branch(&mut self, input_branch: Branch, location: &[usize])
        requires
            loc_valid(old(self)@, location@),
        ensures
            loc_valid(final(self)@, location@),
            node_at(final(self)@, location@) == input_branch@,
            forall|l: Seq<usize>|
                loc_disjoint(location@, l) && loc_valid(old(self)@, l) ==> loc_valid(
                    final(self)@,
                    l,
                ) && #[trigger] node_at(final(self)@, l) == node_at(old(self)@, l),
            forall|l: Seq<usize>|
                is_prefix(l, location@) && l != location@ ==> loc_valid(final(self)@, l)
                    && same_except_children(
                    #[trigger] node_at(final(self)@, l),
                    node_at(old(self)@, l),
                ),
    {
        proof {
            assert(location@.skip(0) == location@);
        }
        self.insert_branch_from(input_branch, location, 0);
    }

    fn insert_branch_from(&mut self, input_branch: Branch, location: &[usize], k: usize)
        requires
            k <= location@.len(),
            loc_valid(old(self)@, location@.skip(k as int)),
        ensures
            loc_valid(final(self)@, location@.skip(k as int)),
            node_at(final(self)@, location@.skip(k as int)) == input_branch@,
            forall|l: Seq<usize>|
                loc_disjoint(location@.skip(k as int), l) && loc_valid(old(self)@, l)
                    ==> loc_valid(final(self)@, l) && #[trigger] node_at(final(self)@, l) == node_at(
                    old(self)@,
                    l,
                ),
            forall|l: Seq<usize>|
                is_prefix(l, location@.skip(k as int)) && l != location@.skip(k as int)
                    ==> loc_valid(final(self)@, l) && same_except_children(
                    #[trigger] node_at(final(self)@, l),
                    node_at(old(self)@, l),
                ),
        decreases location@.len() - k,
    {
        broadcast use lemma_bview_children;

        let ghost loc = location@.skip(k as int);
        if k == location.len() {
            proof {
                assert(loc.len() == 0);
            }
            *self = input_branch;
            proof {
                assert forall|l: Seq<usize>|
                    loc_disjoint(loc, l) && loc_valid(old(self)@, l) implies loc_valid(self@, l)
                    && node_at(self@, l) == node_at(old(self)@, l) by {
                    assert(l.subrange(0, 0) =~= loc);
                    assert(is_prefix(loc, l));
                }
                assert forall|l: Seq<usize>| is_prefix(l, loc) && l != loc implies false by {
                    assert(l.len() == 0);
                    assert(l =~= loc);
                }
            }
        } else {
            let i = location[k];
            let ghost pre = self@;
            proof {
                assert(loc[0] == location@[k as int]);
                assert(loc.drop_first() =~= location@.skip(k as int + 1));
            }
            self.children[i].insert_branch_from(input_branch, location, k + 1);
            proof {
                assert(self@.children =~= pre.children.update(
                    i as int,
                    bview(self.children@[i as int]),
                )) by {
                    assert forall|j: int|
                        0 <= j < pre.children.len() && j != i implies self@.children[j]
                        == pre.children[j] by {
                        assert(bview(self.children@[j]) == bview(old(self).children@[j]));
                    }
                }
                lemma_insert_step(pre, self@, loc, input_branch@);
            }
        }
    }
}

/// Lifts the insert contract one level up the tree.
proof fn lemma_insert_step(pre: BranchView, post: BranchView, loc: Seq<usize>, nb: BranchView)
    requires
        loc.len() > 0,
        loc[0] < pre.children.len(),
        loc_valid(pre, loc),
        post.board == pre.board,
        post.res_move == pre.res_move,
        post.eval == pre.eval,
        post.phase == pre.phase,
        post.priority == pre.priority,
        post.is_terminal == pre.is_terminal,
        post.children == pre.children.update(loc[0] as int, post.children[loc[0] as int]),
        loc_valid(post.children[loc[0] as int], loc.drop_first()),
        node_at(post.children[loc[0] as int], loc.drop_first()) == nb,
        forall|l: Seq<usize>|
            loc_disjoint(loc.drop_first(), l) && loc_valid(pre.children[loc[0] as int], l)
                ==> loc_valid(post.children[loc[0] as int], l) && #[trigger] node_at(
                post.children[loc[0] as int],
                l,
            ) == node_at(pre.children[loc[0] as int], l),
        forall|l: Seq<usize>|
            is_prefix(l, loc.drop_first()) && l != loc.drop_first() ==> loc_valid(
                post.children[loc[0] as int],
                l,
            ) && same_except_children(
                #[trigger] node_at(post.children[loc[0] as int], l),
                node_at(pre.children[loc[0] as int], l),
            ),
    ensures
        loc_valid(post, loc),
        node_at(post, loc) == nb,
        forall|l: Seq<usize>|
            loc_disjoint(loc, l) && loc_valid(pre, l) ==> loc_valid(post, l) && #[trigger] node_at(
                post,
                l,
            ) == node_at(pre, l),
        forall|l: Seq<usize>|
            is_prefix(l, loc) && l != loc ==> loc_valid(post, l) && same_except_children(
                #[trigger] node_at(post, l),
                node_at(pre, l),
            ),
{
    let i = loc[0] as int;
    assert forall|l: Seq<usize>|
        loc_disjoint(loc, l) && loc_valid(pre, l) implies loc_valid(post, l) && #[trigger] node_at(
        post,
        l,
    ) == node_at(pre, l) by {
        if l.len() == 0 {
            assert(loc.subrange(0, 0) =~= l);
            assert(is_prefix(l, loc));
        } else {
            if l[0] == loc[0] {
                assert(loc_disjoint(loc.drop_first(), l.drop_first())) by {
                    if is_prefix(loc.drop_first(), l.drop_first()) {
                        assert(l.subrange(0, loc.len() as int) =~= seq![l[0]]
                            + l.drop_first().subrange(0, loc.drop_first().len() as int));
                        assert(loc =~= seq![loc[0]] + loc.drop_first());
                        assert(is_prefix(loc, l));
                    }
                    if is_prefix(l.drop_first(), loc.drop_first()) {
                        assert(loc.subrange(0, l.len() as int) =~= seq![loc[0]]
                            + loc.drop_first().subrange(0, l.drop_first().len() as int));
                        assert(l =~= seq![l[0]] + l.drop_first());
                        assert(is_prefix(l, loc));
                    }
                }
                assert(loc_valid(pre.children[i], l.drop_first()));
                assert(node_at(post, l) == node_at(post.children[i], l.drop_first()));
            } else {
                assert(post.children[l[0] as int] == pre.children[l[0] as int]);
                assert(node_at(post, l) == node_at(post.children[l[0] as int], l.drop_first()));
            }
        }
    }
    assert forall|l: Seq<usize>|
        is_prefix(l, loc) && l != loc implies loc_valid(post, l) && same_except_children(
        #[trigger] node_at(post, l),
        node_at(pre, l),
    ) by {
        if l.len() == 0 {
            assert(node_at(post, l) == post);
            assert(node_at(pre, l) == pre);
        } else {
            assert(l[0] == loc[0]) by {
                assert(l.subrange(0, l.len() as int) == l);
                assert(loc.subrange(0, l.len() as int)[0] == loc[0]);
            }
            assert(is_prefix(l.drop_first(), loc.drop_first())) by {
                assert(loc.drop_first().subrange(0, l.drop_first().len() as int) =~= loc.subrange(
                    0,
                    l.len() as int,
                ).drop_first());
            }
            assert(l.drop_first() != loc.drop_first()) by {
                if l.drop_first() == loc.drop_first() {
                    assert(l =~= seq![l[0]] + l.drop_first());
                    assert(loc =~= seq![loc[0]] + loc.drop_first());
                }
            }
            assert(node_at(post, l) == node_at(post.children[i], l.drop_first()));
            assert(node_at(pre, l) == node_at(pre.children[i], l.drop_first()));
        }
    }
    assert(node_at(post, loc) == node_at(post.children[i], loc.drop_first()));
}

// --- frontier scan ---------------------------------------------------------
/// Breadth-style scan for a frontier leaf exactly `level` steps below the
/// children of `v`: the first terminal child-path in enumeration order.
pub open spec fn ftl(v: BranchView, level: int, loc: Seq<usize>) -> Option<Seq<usize>>
    decreases level, v.children.len() + 1,
    when level >= 0
{
    ftl_iter(v, level, loc, 0)
}

pub open spec fn ftl_iter(v: BranchView, level: int, loc: Seq<usize>, i: int) -> Option<
    Seq<usize>,
>
    decreases level, v.children.len() - i,
    when level >= 0 && 0 <= i <= v.children.len()
{
    if i == v.children.len() {
        None
    } else if level == 0 {
        if v.children[i].is_terminal {
            Some(loc.push(i as usize))
        } else {
            ftl_iter(v, level, loc, i + 1)
        }
    } else {
        match ftl(v.children[i], level - 1, loc.push(i as usize)) {
            Some(r) => Some(r),
            None => ftl_iter(v, level, loc, i + 1),
        }
    }
}

/// A hit decomposes as the seed plus a suffix that addresses a terminal
/// node at exactly `level + 1` steps.
pub open spec fn ftl_hit(v: BranchView, level: int, loc: Seq<usize>, l: Seq<usize>) -> bool {
    exists|suffix: Seq<usize>|
        {
            &&& l == loc + suffix
            &&& #[trigger] suffix.len() == level + 1
            &&& loc_valid(v, suffix)
            &&& node_at(v, suffix).is_terminal
        }
}

/// What the scan finds: a terminal descendant at exactly `level + 1`
/// steps, or a guarantee that none exists at that depth.
pub proof fn lemma_ftl_props(v: BranchView, level: int, loc: Seq<usize>)
    requires
        level >= 0,
        sized(v),
    ensures
        match ftl(v, level, loc) {
            Some(l) => ftl_hit(v, level, loc, l),
            None => forall|suffix: Seq<usize>|
                suffix.len() == level + 1 && loc_valid(v, suffix) ==> !node_at(
                    v,
                    suffix,
                ).is_terminal,
        },
{
    lemma_ftl_iter_some(v, level, loc, 0);
    if ftl(v, level, loc) is None {
        lemma_ftl_iter_none(v, level, loc, 0);
        assert forall|suffix: Seq<usize>|
            suffix.len() == level + 1 && loc_valid(v, suffix) implies !node_at(
            v,
            suffix,
        ).is_terminal by {
            assert(0 <= suffix[0]);
        }
    }
}

/// Soundness of the scan: a hit is a terminal descendant at the right depth.
proof fn lemma_ftl_iter_some(v: BranchView, level: int, loc: Seq<usize>, i: int)
    requires
        level >= 0,
        sized(v),
        0 <= i <= v.children.len(),
    ensures
        match ftl_iter(v, level, loc, i) {
            Some(l) => ftl_hit(v, level, loc, l),
            None => true,
        },
    decreases level, v.children.len() - i,
{
    if i == v.children.len() {
    } else if level == 0 {
        if v.children[i as int].is_terminal {
            let l = loc.push(i as usize);
            let suffix = seq![i as usize];
            assert(l =~= loc + suffix);
            assert(suffix.drop_first() =~= Seq::<usize>::empty());
            assert(node_at(v.children[i as int], suffix.drop_first()) == v.children[i as int]);
            assert(node_at(v, suffix) == v.children[i as int]);
            assert(loc_valid(v.children[i as int], suffix.drop_first()));
            assert(loc_valid(v, suffix));
            assert(ftl_hit(v, level, loc, l));
        } else {
            lemma_ftl_iter_some(v, level, loc, i + 1);
        }
    } else {
        match ftl(v.children[i as int], level - 1, loc.push(i as usize)) {
            Some(l) => {
                lemma_ftl_iter_some(v.children[i as int], level - 1, loc.push(i as usize), 0);
                let inner = choose|inner: Seq<usize>|
                    {
                        &&& l == loc.push(i as usize) + inner
                        &&& #[trigger] inner.len() == level
                        &&& loc_valid(v.children[i as int], inner)
                        &&& node_at(v.children[i as int], inner).is_terminal
                    };
                let suffix = seq![i as usize] + inner;
                assert(l =~= loc + suffix);
                assert(suffix.drop_first() =~= inner);
                assert(suffix[0] == i as usize);
                assert(node_at(v, suffix) == node_at(v.children[i as int], inner));
                assert(loc_valid(v, suffix));
                assert(suffix.len() == level + 1);
                assert(ftl_hit(v, level, loc, l));
            },
            None => {
                lemma_ftl_iter_some(v, level, loc, i + 1);
            },
        }
    }
}

/// Completeness of the scan: a miss means no terminal descendant sits at
/// that depth among the children from `i` on.
proof fn lemma_ftl_iter_none(v: BranchView, level: int, loc: Seq<usize>, i: int)
    requires
        level >= 0,
        sized(v),
        0 <= i <= v.children.len(),
        ftl_iter(v, level, loc, i) is None,
    ensures
        forall|suffix: Seq<usize>|
            suffix.len() == level + 1 && loc_valid(v, suffix) && i <= suffix[0] ==> !node_at(
                v,
                suffix,
            ).is_terminal,
    decreases level, v.children.len() - i,
{
    if i == v.children.len() {
    } else if level == 0 {
        assert(!v.children[i as int].is_terminal);
        lemma_ftl_iter_none(v, level, loc, i + 1);
        assert forall|suffix: Seq<usize>|
            suffix.len() == level + 1 && loc_valid(v, suffix) && i <= suffix[0] implies !node_at(
            v,
            suffix,
        ).is_terminal by {
            if suffix[0] == i {
                assert(suffix.drop_first().len() == 0);
                assert(node_at(v, suffix) == node_at(
                    v.children[i as int],
                    suffix.drop_first(),
                ));
                assert(node_at(v.children[i as int], suffix.drop_first()) == v.children[i as int]);
            }
        }
    } else {
        assert(ftl(v.children[i as int], level - 1, loc.push(i as usize)) is None);
        lemma_ftl_iter_none(v.children[i as int], level - 1, loc.push(i as usize), 0);
        lemma_ftl_iter_none(v, level, loc, i + 1);
        assert forall|suffix: Seq<usize>|
            suffix.len() == level + 1 && loc_valid(v, suffix) && i <= suffix[0] implies !node_at(
            v,
            suffix,
        ).is_terminal by {
            if suffix[0] == i {
                let inner = suffix.drop_first();
                assert(loc_valid(v.children[i as int], inner));
                assert(node_at(v, suffix) == node_at(v.children[i as int], inner));
                assert(inner.len() == (level - 1) + 1);
                assert(0 <= inner[0]);
            }
        }
    }
}

/// The scan's exact result below a non-terminal node: the first hit of the
/// level scans, shallower levels first, eleven levels at most.
pub open spec fn surface_scan(v: BranchView, rel: Seq<usize>, d: int) -> Option<Seq<usize>>
    decreases 11 - d,
    when 0 <= d <= 11
{
    if d >= 11 {
        None
    } else {
        match ftl(v, d, rel) {
            Some(l) => Some(l),
            None => surface_scan(v, rel, d + 1),
        }
    }
}

/// The scan's exact result: the node's own location when it is a frontier
/// leaf, else the first level-order hit.
pub open spec fn spec_surface(v: BranchView, rel: Seq<usize>) -> Option<Seq<usize>> {
    if v.is_terminal {
        Some(rel)
    } else {
        surface_scan(v, rel, 0)
    }
}

/// `l` extends the seed by at most eleven steps and addresses a frontier
/// leaf of the subtree.
pub open spec fn surface_hit(v: BranchView, rel: Seq<usize>, l: Seq<usize>) -> bool {
    exists|suffix: Seq<usize>|
        {
            &&& l == rel + suffix
            &&& #[trigger] suffix.len() <= 11
            &&& loc_valid(v, suffix)
            &&& node_at(v, suffix).is_terminal
        }
}

impl Branch {
    /// The first frontier leaf exactly `level` steps below this node's
    /// children, as a location extending `relative_location`.
    pub fn find_terminal_level(&self, level: usize, relative_location: &Vec<usize>) -> (r: Option<
        Vec<usize>,
    >)
        ensures
            r is Some ==> ftl(self@, level as int, relative_location@) == Some(r.unwrap()@),
            r is None ==> ftl(self@, level as int, relative_location@) is None,
        decreases *self, level,
    {
        broadcast use lemma_bview_children;

        let ghost v = self@;
        let mut i: usize = 0;
        while i < self.children.len()
            invariant
                0 <= i <= self.children@.len(),
                v == self@,
                ftl(v, level as int, relative_location@) == ftl_iter(
                    v,
                    level as int,
                    relative_location@,
                    i as int,
                ),
            decreases self.children@.len() - i,
        {
            if level == 0 {
                proof {
                    lemma_child_view(self, i as int);
                    assert(bview(self.children@[i as int]) == v.children[i as int]);
                }
                if self.children[i].is_terminal {
                    let mut l = relative_location.clone();
                    l.push(i);
                    proof {
                        assert(v.children[i as int].is_terminal);
                        assert(ftl_iter(v, level as int, relative_location@, i as int) == Some(
                            l@,
                        ));
                    }
                    return Some(l);
                }
                proof {
                    assert(!v.children[i as int].is_terminal);
                    assert(ftl_iter(v, level as int, relative_location@, i as int) == ftl_iter(
                        v,
                        level as int,
                        relative_location@,
                        i as int + 1,
                    ));
                }
            } else {
                let mut cl = relative_location.clone();
                cl.push(i);
                proof {
                    lemma_child_view(self, i as int);
                    assert(bview(self.children@[i as int]) == v.children[i as int]);
                }
                let sub = self.children[i].find_terminal_level(level - 1, &cl);
                if let Some(res) = sub {
                    proof {
                        assert(ftl(v.children[i as int], level as int - 1, cl@) == Some(res@));
                        assert(ftl_iter(v, level as int, relative_location@, i as int) == Some(
                            res@,
                        ));
                    }
                    return Some(res);
                }
                proof {
                    assert(ftl(v.children[i as int], level as int - 1, cl@) is None);
                    assert(ftl_iter(v, level as int, relative_location@, i as int) == ftl_iter(
                        v,
                        level as int,
                        relative_location@,
                        i as int + 1,
                    ));
                }
            }
            i += 1;
        }
        None
    }

    /// Scans outward for a frontier leaf: this node itself, else the first
    /// terminal descendant within eleven levels. `None` promises that no
    /// frontier leaf exists within that horizon.
    pub fn find_surface_terminal(&self, relative_location: &Vec<usize>) -> (r: Option<Vec<usize>>)
        ensures
            match r {
                Some(l) => Some(l@) == spec_surface(self@, relative_location@) && surface_hit(
                    self@,
                    relative_location@,
                    l@,
                ),
                None => {
                    &&& spec_surface(self@, relative_location@) is None
                    &&& !self@.is_terminal
                    &&& forall|suffix: Seq<usize>|
                        1 <= suffix.len() <= 11 && loc_valid(self@, suffix) ==> !node_at(
                            self@,
                            suffix,
                        ).is_terminal
                },
            },
    {
        if self.is_terminal {
            let l = relative_location.clone();
            proof {
                let suffix = Seq::<usize>::empty();
                assert(l@ =~= relative_location@ + suffix);
                assert(node_at(self@, suffix) == self@);
                assert(surface_hit(self@, relative_location@, l@));
            }
            return Some(l);
        }
        let mut depth: usize = 0;
        while depth < 11
            invariant
                0 <= depth <= 11,
                !self@.is_terminal,
                surface_scan(self@, relative_location@, 0) == surface_scan(
                    self@,
                    relative_location@,
                    depth as int,
                ),
                forall|suffix: Seq<usize>|
                    1 <= suffix.len() <= depth && loc_valid(self@, suffix) ==> !node_at(
                        self@,
                        suffix,
                    ).is_terminal,
            decreases 11 - depth,
        {
            let res = self.find_terminal_level(depth, relative_location);
            proof {
                lemma_bview_sized(*self);
                lemma_ftl_props(self@, depth as int, relative_location@);
            }
            if let Some(l) = res {
                proof {
                    assert(ftl_hit(self@, depth as int, relative_location@, l@));
                    assert(surface_hit(self@, relative_location@, l@));
                }
                return Some(l);
            }
            depth += 1;
        }
        None
    }
}

// --- absolute-priority argmax ----------------------------------------------
/// Every frontier leaf of the subtree carries a priority.
pub open spec fn prio_ok(v: BranchView) -> bool
    decreases v,
{
    if v.is_terminal {
        v.priority is Some
    } else {
        forall|i: int| 0 <= i < v.children.len() ==> prio_ok(#[trigger] v.children[i])
    }
}

/// The highest-priority frontier leaf of the first `n` children.
pub open spec fn sap_pre(v: BranchView, loc: Seq<usize>, n: int) -> (Eval, Seq<usize>)
    decreases v, n,
    when 0 <= n <= v.children.len()
{
    if n <= 0 {
        (Eval::NegInfinity, Seq::<usize>::empty())
    } else {
        let acc = sap_pre(v, loc, n - 1);
        let r = sap(v.children[n - 1], loc.push((n - 1) as usize));
        if eval_lt(acc.0, r.0) {
            r
        } else {
            acc
        }
    }
}

/// The highest-priority frontier leaf of the subtree, with its location.
pub open spec fn sap(v: BranchView, loc: Seq<usize>) -> (Eval, Seq<usize>)
    decreases v, v.children.len() + 1,
{
    if v.is_terminal {
        (v.priority->0, loc)
    } else {
        sap_pre(v, loc, v.children.len() as int)
    }
}

impl Branch {
    /// Whether every frontier leaf of the subtree carries a priority — the
    /// condition the deep phase's argmax relies on.
    pub fn check_priorities(&self) -> (r: bool)
        ensures
            r == prio_ok(self@),
        decreases *self,
    {
        broadcast use lemma_bview_children;

        if self.is_terminal {
            return self.priority.is_some();
        }
        let mut i: usize = 0;
        while i < self.children.len()
            invariant
                0 <= i <= self.children@.len(),
                !self.is_terminal,
                forall|j: int| 0 <= j < i ==> prio_ok(#[trigger] self@.children[j]),
            decreases self.children@.len() - i,
        {
            proof {
                lemma_child_view(self, i as int);
            }
            if !self.children[i].check_priorities() {
                proof {
                    assert(!prio_ok(self@.children[i as int]));
                }
                return false;
            }
            i += 1;
        }
        true
    }

    /// The most promising frontier leaf below this node: the terminal
    /// descendant with the greatest priority, earliest one on ties.
    pub fn search_absolute_priority(&self, relative_location: &[usize]) -> (r: (Eval, Vec<usize>))
        requires
            prio_ok(self@),
        ensures
            r.0 == sap(self@, relative_location@).0,
            r.1@ == sap(self@, relative_location@).1,
        decreases *self,
    {
        broadcast use lemma_bview_children;

        if self.is_terminal {
            let mut l: Vec<usize> = Vec::new();
            let mut k: usize = 0;
            while k < relative_location.len()
                invariant
                    0 <= k <= relative_location@.len(),
                    l@ =~= relative_location@.subrange(0, k as int),
                decreases relative_location@.len() - k,
            {
                l.push(relative_location[k]);
                k += 1;
            }
            proof {
                assert(l@ =~= relative_location@);
            }
            (match self.priority {
                Some(p) => p,
                None => Eval::NegInfinity,
            }, l)
        } else {
            let ghost v = self@;
            let mut highest_prio = Eval::NegInfinity;
            let mut highest_location: Vec<usize> = Vec::new();
            let mut i: usize = 0;
            while i < self.children.len()
                invariant
                    0 <= i <= self.children@.len(),
                    v == self@,
                    !v.is_terminal,
                    prio_ok(v),
                    (highest_prio, highest_location@) == sap_pre(v, relative_location@, i as int),
                decreases self.children@.len() - i,
            {
                let mut cl: Vec<usize> = Vec::new();
                let mut k: usize = 0;
                while k < relative_location.len()
                    invariant
                        0 <= k <= relative_location@.len(),
                        cl@ =~= relative_location@.subrange(0, k as int),
                    decreases relative_location@.len() - k,
                {
                    cl.push(relative_location[k]);
                    k += 1;
                }
                proof {
                    assert(cl@ =~= relative_location@);
                }
                cl.push(i);
                proof {
                    lemma_child_view(self, i as int);
                    assert(bview(self.children@[i as int]) == v.children[i as int]);
                    assert(prio_ok(v.children[i as int]));
                }
                let ghost acc_pre = (highest_prio, highest_location@);
                let (prio, location) = self.children[i].search_absolute_priority(
                    cl.as_slice(),
                );
                if Eval::lt_exec(highest_prio, prio) {
                    highest_prio = prio;
                    highest_location = location;
                }
                proof {
                    assert(cl@ == relative_location@.push(i));
                    assert((highest_prio, highest_location@) == sap_pre(
                        v,
                        relative_location@,
                        i as int + 1,
                    ));
                }
                i += 1;
            }
            (highest_prio, highest_location)
        }
    }
}

// --- minimax roll-up -------------------------------------------------------
/// The roll-up over the first `n` children: the extremum of the evaluated
/// children's rolled-up scores, with the location of the best leaf.
pub open spec fn mm_pre(v: BranchView, maximize: bool, loc: Seq<usize>, n: int) -> (
    Eval,
    Seq<usize>,
)
    decreases v, n,
    when 0 <= n <= v.children.len()
{
    if n <= 0 {
        (
            if maximize {
                Eval::NegInfinity
            } else {
                Eval::Infinity
            },
            Seq::<usize>::empty(),
        )
    } else {
        let acc = mm_pre(v, maximize, loc, n - 1);
        let c = v.children[n - 1];
        if c.eval is Some {
            let r = mm_pair(c, !maximize, loc.push((n - 1) as usize));
            if maximize {
                if eval_lt(acc.0, r.0) {
                    r
                } else {
                    acc
                }
            } else {
                if eval_lt(r.0, acc.0) {
                    r
                } else {
                    acc
                }
            }
        } else {
            acc
        }
    }
}

/// The rolled-up score of a subtree: a frontier leaf keeps its stored
/// score; an internal node takes the extremum over its evaluated children,
/// alternating sides by depth.
pub open spec fn mm_pair(v: BranchView, maximize: bool, loc: Seq<usize>) -> (Eval, Seq<usize>)
    decreases v, v.children.len() + 1,
{
    if v.is_terminal {
        (v.eval->0, loc)
    } else {
        mm_pre(v, maximize, loc, v.children.len() as int)
    }
}

/// The score the roll-up assigns to a subtree.
pub open spec fn mm_eval(v: BranchView, maximize: bool) -> Eval {
    mm_pair(v, maximize, Seq::<usize>::empty()).0
}

/// The score component of the roll-up does not depend on the location seed.
pub proof fn lemma_mm_loc_indep(v: BranchView, maximize: bool, l1: Seq<usize>, l2: Seq<usize>)
    ensures
        mm_pair(v, maximize, l1).0 == mm_pair(v, maximize, l2).0,
    decreases v, v.children.len() + 1,
{
    if !v.is_terminal {
        lemma_mm_pre_loc_indep(v, maximize, l1, l2, v.children.len() as int);
    }
}

proof fn lemma_mm_pre_loc_indep(
    v: BranchView,
    maximize: bool,
    l1: Seq<usize>,
    l2: Seq<usize>,
    n: int,
)
    requires
        0 <= n <= v.children.len(),
    ensures
        mm_pre(v, maximize, l1, n).0 == mm_pre(v, maximize, l2, n).0,
    decreases v, n,
{
    if n > 0 {
        lemma_mm_pre_loc_indep(v, maximize, l1, l2, n - 1);
        lemma_mm_loc_indep(
            v.children[n - 1],
            !maximize,
            l1.push((n - 1) as usize),
            l2.push((n - 1) as usize),
        );
    }
}

/// What the roll-up writes: every node reached through evaluated children
/// gets the extremum of its evaluated children's rolled-up scores; frontier
/// leaves and skipped children stay as they were.
pub open spec fn mm_written(pre: BranchView, post: BranchView, maximize: bool) -> bool
    decreases pre,
{
    if pre.is_terminal {
        post == pre
    } else {
        &&& same_except_eval(post, pre)
        &&& post.eval == Some(mm_eval(pre, maximize))
        &&& forall|i: int|
            0 <= i < pre.children.len() ==> if pre.children[i].eval is Some {
                mm_written(#[trigger] pre.children[i], post.children[i], !maximize)
            } else {
                post.children[i] == pre.children[i]
            }
    }
}

/// Child `i` is the first child carrying the rolled-up score.
pub open spec fn first_best_child(v: BranchView, best: Eval, i: int) -> bool {
    &&& 0 <= i < v.children.len()
    &&& v.children[i].eval == Some(best)
    &&& forall|j: int| 0 <= j < i ==> #[trigger] v.children[j].eval != Some(best)
}

impl Branch {
    /// Rolls minimax scores up the explored tree, writing each visited
    /// internal node's score back into the node, and returns the root's
    /// rolled-up score with the location of the leaf it came from.
    pub fn simple_minimax(&mut self, maximize: bool, relative_location: &Vec<usize>) -> (r: (
        Eval,
        Vec<usize>,
    ))
        requires
            old(self)@.is_terminal ==> old(self)@.eval is Some,
        ensures
            r.0 == mm_pair(old(self)@, maximize, relative_location@).0,
            r.1@ == mm_pair(old(self)@, maximize, relative_location@).1,
            mm_written(old(self)@, final(self)@, maximize),
        decreases *old(self),
    {
        broadcast use lemma_bview_children;

        let ghost pre = self@;
        if self.is_terminal {
            let e = match self.eval {
                Some(e) => e,
                None => Eval::NegInfinity,
            };
            return (e, relative_location.clone());
        }
        let mut max_eval = if maximize {
            Eval::NegInfinity
        } else {
            Eval::Infinity
        };
        let mut max_location: Vec<usize> = Vec::new();
        let mut i: usize = 0;
        while i < self.children.len()
            invariant
                0 <= i <= self.children@.len(),
                pre == old(self)@,
                self.children@.len() == pre.children.len(),
                self.children@.len() == old(self).children@.len(),
                !pre.is_terminal,
                self.board == pre.board,
                self._res_move == pre.res_move,
                self.eval == pre.eval,
                self.phase == pre.phase,
                self.priority == pre.priority,
                self.is_terminal == pre.is_terminal,
                forall|j: int|
                    i <= j < pre.children.len() ==> #[trigger] self.children@[j] == old(
                        self,
                    ).children@[j],
                forall|j: int|
                    0 <= j < i ==> if pre.children[j].eval is Some {
                        mm_written(#[trigger] pre.children[j], bview(self.children@[j]), !maximize)
                    } else {
                        bview(self.children@[j]) == pre.children[j]
                    },
                (max_eval, max_location@) == mm_pre(pre, maximize, relative_location@, i as int),
            decreases self.children@.len() - i,
        {
            proof {
                lemma_child_view(old(self), i as int);
                assert(self.children@[i as int] == old(self).children@[i as int]);
                assert(bview(self.children@[i as int]) == pre.children[i as int]);
            }
            let has_eval = self.children[i].eval.is_some();
            if has_eval {
                let mut cl = relative_location.clone();
                cl.push(i);
                proof {
                    assert(decreases_to!(*old(self) => old(self).children));
                    assert(decreases_to!(old(self).children => old(self).children@));
                    assert(decreases_to!(old(self).children@ => old(self).children@[i as int]));
                }
                let (e, l) = self.children[i].simple_minimax(!maximize, &cl);
                let better = if maximize {
                    Eval::lt_exec(max_eval, e)
                } else {
                    Eval::lt_exec(e, max_eval)
                };
                if better {
                    max_eval = e;
                    max_location = l;
                }
                proof {
                    assert(cl@ == relative_location@.push(i));
                    assert(mm_written(pre.children[i as int], bview(self.children@[i as int]), !maximize));
                    assert((max_eval, max_location@) == mm_pre(
                        pre,
                        maximize,
                        relative_location@,
                        i as int + 1,
                    ));
                }
            } else {
                proof {
                    assert((max_eval, max_location@) == mm_pre(
                        pre,
                        maximize,
                        relative_location@,
                        i as int + 1,
                    ));
                }
            }
            i += 1;
        }
        self.eval = Some(max_eval);
        proof {
            assert forall|j: int| 0 <= j < pre.children.len() implies self@.children[j] == bview(
                self.children@[j],
            ) by {
                lemma_child_view(self, j);
            }
            assert(same_except_eval(self@, pre));
            lemma_mm_pre_loc_indep(
                pre,
                maximize,
                relative_location@,
                Seq::<usize>::empty(),
                pre.children.len() as int,
            );
            assert(self@.eval == Some(mm_eval(pre, maximize)));
            assert(mm_written(pre, self@, maximize));
        }
        (max_eval, max_location)
    }

    /// Runs the roll-up and returns the first root child whose score equals
    /// the root's rolled-up score — the move the engine plays; ties go to
    /// the first child in enumeration order. `None` exactly when no child
    /// carries the rolled-up score, which after a base expansion cannot
    /// happen: every child is then a scored frontier leaf and the extremum
    /// is one of those scores (`lemma_selection_exists`). On a root whose
    /// children were never evaluated this reports `None` rather than
    /// picking an arbitrary child.
    pub fn get_best(&mut self, maximize: bool, relative_location: &Vec<usize>) -> (r: Option<
        &Branch,
    >)
        requires
            old(self)@.is_terminal ==> old(self)@.eval is Some,
        ensures
            mm_written(old(self)@, final(self)@, maximize),
            match r {
                Some(c) => exists|i: int|
                    #![trigger final(self)@.children[i]]
                    first_best_child(
                        final(self)@,
                        mm_pair(old(self)@, maximize, relative_location@).0,
                        i,
                    ) && c@ == final(self)@.children[i],
                None => forall|i: int|
                    0 <= i < final(self)@.children.len() ==> #[trigger] final(self)@.children[i].eval != Some(mm_pair(old(self)@, maximize, relative_location@).0),
            },
    {
        broadcast use lemma_bview_children;

        let (best, _loc) = self.simple_minimax(maximize, relative_location);
        let n = self.children.len();
        let mut i: usize = 0;
        while i < n
            invariant
                0 <= i <= n,
                n == self@.children.len(),
                n == self.children@.len(),
                mm_written(old(self)@, self@, maximize),
                best == mm_pair(old(self)@, maximize, relative_location@).0,
                forall|j: int|
                    0 <= j < i ==> #[trigger] self@.children[j].eval != Some(best),
            decreases n - i,
        {
            proof {
                lemma_child_view(self, i as int);
            }
            let hit = match self.children[i].eval {
                Some(e) => e == best,
                None => false,
            };
            if hit {
                proof {
                    assert(self@.children[i as int].eval == Some(best));
                    assert(first_best_child(self@, best, i as int));
                }
                return Some(&self.children[i]);
            }
            i += 1;
        }
        None
    }
}

// --- expansion ---------------------------------------------------------------
impl Branch {
    /// Fills the node's children with one fresh node per legal move of its
    /// position, in the generator's order: as many children as legal moves,
    /// each carrying the move's resulting board.
    pub fn populate(&mut self, depth: usize)
        requires
            old(self).board.playable(),
        ensures
            final(self)@.children.len() == crate::movegen::legal_moves(old(self).board).len(),
            forall|i: int|
                0 <= i < final(self)@.children.len() ==> {
                    let c = #[trigger] final(self)@.children[i];
                    let m = crate::movegen::legal_moves(old(self).board)[i];
                    &&& c.board == m.board
                    &&& c.board.playable()
                    &&& c.res_move == Some(m)
                    &&& c.eval is None
                    &&& c.priority is None
                    &&& c.phase == old(self)@.phase
                    &&& c.children.len() == 0
                    &&& !c.is_terminal
                },
            final(self).board == old(self).board,
            final(self)._res_move == old(self)._res_move,
            final(self).eval == old(self).eval,
            final(self).phase == old(self).phase,
            final(self).priority == old(self).priority,
            final(self).is_terminal == old(self).is_terminal,
    {
        broadcast use lemma_bview_children;

        let moves = self.board.generate_legal_moves();
        let ghost ms = crate::movegen::legal_moves(old(self).board);
        let mut kids: Vec<Branch> = Vec::new();
        let mut i: usize = 0;
        while i < moves.len()
            invariant
                0 <= i <= moves@.len(),
                moves@ == ms,
                self.board == old(self).board,
                self.phase == old(self).phase,
                forall|j: int|
                    0 <= j < ms.len() ==> (#[trigger] ms[j]).board.playable(),
                kids@.len() == i,
                forall|j: int|
                    0 <= j < i ==> {
                        let c = #[trigger] bview(kids@[j]);
                        &&& c.board == ms[j].board
                        &&& c.res_move == Some(ms[j])
                        &&& c.eval is None
                        &&& c.priority is None
                        &&& c.phase == old(self)@.phase
                        &&& c.children.len() == 0
                        &&& !c.is_terminal
                    },
            decreases moves@.len() - i,
        {
            let m = moves[i];
            kids.push(self.from_parent(m, depth));
            i += 1;
        }
        self.children = kids;
        proof {
            assert forall|i2: int| 0 <= i2 < self@.children.len() implies #[trigger] self@.children[i2]
                == bview(self.children@[i2]) by {
                lemma_child_view(self, i2);
            }
        }
    }
}

/// A node scored as a frontier leaf at ply `depth`: its legal children are
/// generated but unevaluated, its score is the position score at that ply,
/// and its priority is the ordering signal against the parent's board.
pub open spec fn scored_leaf(parent: Board, c: BranchView, depth: usize) -> bool {
    &&& c.is_terminal
    &&& c.children.len() == crate::movegen::legal_moves(c.board).len()
    &&& forall|k: int|
        0 <= k < c.children.len() ==> (#[trigger] c.children[k]).board
            == crate::movegen::legal_moves(c.board)[k].board && c.children[k].eval is None
    &&& c.eval == Some(
        crate::evaluation::spec_eval_position(
            c.board,
            crate::movegen::legal_moves(c.board).len() as int,
            depth,
        ),
    )
    &&& c.priority == Some(
        crate::priority::spec_calc_priority(
            parent,
            c.board,
            depth as int,
            crate::evaluation::spec_eval_position(
                c.board,
                crate::movegen::legal_moves(c.board).len() as int,
                depth,
            ),
        ),
    )
}

/// What one expansion unit does to a node: its position, score and
/// identity fields are kept, its frontier flag is cleared, and each child
/// keeps its position and is re-scored as a frontier leaf one ply down.
pub open spec fn expanded_one_ply(pre: BranchView, post: BranchView, depth: usize) -> bool {
    &&& post.board == pre.board
    &&& post.res_move == pre.res_move
    &&& post.eval == pre.eval
    &&& post.phase == pre.phase
    &&& post.priority == pre.priority
    &&& !post.is_terminal
    &&& post.children.len() == pre.children.len()
    &&& forall|i: int|
        0 <= i < post.children.len() ==> (#[trigger] post.children[i]).board
            == pre.children[i].board && scored_leaf(pre.board, post.children[i], (depth + 1) as usize)
}

impl Branch {
    /// Expands this node one ply and scores it: the children are the legal
    /// moves, the node is marked a frontier leaf, its score is the position
    /// score, and, below the root, its priority is the ordering signal
    /// computed against the parent's board.
    pub fn eval_node(&mut self, parent_board: Option<Board>, depth: usize)
        requires
            old(self).board.playable(),
            depth <= crate::priority::MAX_SEARCH_DEPTH,
        ensures
            final(self).board == old(self).board,
            final(self)._res_move == old(self)._res_move,
            final(self).phase == old(self).phase,
            final(self)@.children.len() == crate::movegen::legal_moves(old(self).board).len(),
            forall|i: int|
                0 <= i < final(self)@.children.len() ==> {
                    let c = #[trigger] final(self)@.children[i];
                    let m = crate::movegen::legal_moves(old(self).board)[i];
                    &&& c.board == m.board
                    &&& c.board.playable()
                    &&& c.res_move == Some(m)
                    &&& c.eval is None
                },
            final(self).is_terminal,
            final(self).eval == Some(
                crate::evaluation::spec_eval_position(
                    old(self).board,
                    crate::movegen::legal_moves(old(self).board).len() as int,
                    depth,
                ),
            ),
            final(self).priority == match parent_board {
                Some(pb) => Some(
                    crate::priority::spec_calc_priority(
                        pb,
                        old(self).board,
                        depth as int,
                        crate::evaluation::spec_eval_position(
                            old(self).board,
                            crate::movegen::legal_moves(old(self).board).len() as int,
                            depth,
                        ),
                    ),
                ),
                None => None,
            },
    {
        self.populate(depth);
        let ghost mid = *self;
        self.is_terminal = true;
        let n = self.children.len();
        let heuristic = self.eval_position(n, depth);
        self.eval = Some(heuristic);
        self.priority = if let Some(orig_board) = parent_board {
            Some(Branch::calc_priority(&orig_board, &self.board, depth, heuristic))
        } else {
            None
        };
        proof {
            lemma_same_children_view(mid, *self);
        }
    }

    /// Expands each child of an already-expanded node one ply and clears
    /// this node's frontier flag: afterwards each child keeps its position
    /// and is a frontier leaf scored one ply down, with its own legal
    /// children generated but unevaluated; the node's other fields are kept.
    pub fn run_node(&mut self, depth: usize)
        requires
            old(self).board.playable(),
            depth < crate::priority::MAX_SEARCH_DEPTH,
            forall|i: int|
                0 <= i < old(self)@.children.len() ==> (#[trigger] old(
                    self,
                )@.children[i]).board.playable(),
        ensures
            expanded_one_ply(old(self)@, final(self)@, depth),
    {
        broadcast use lemma_bview_children;

        self.is_terminal = false;
        let board = self.board;
        let mut i: usize = 0;
        while i < self.children.len()
            invariant
                0 <= i <= self.children@.len(),
                self.children@.len() == old(self)@.children.len(),
                self.children@.len() == old(self).children@.len(),
                self.board == old(self).board,
                self.is_terminal == false,
                depth < crate::priority::MAX_SEARCH_DEPTH,
                board == old(self).board,
                forall|j: int|
                    i <= j < self.children@.len() ==> #[trigger] self.children@[j] == old(
                        self,
                    ).children@[j],
                forall|j: int|
                    0 <= j < old(self)@.children.len() ==> (#[trigger] old(
                        self,
                    )@.children[j]).board.playable(),
                self._res_move == old(self)._res_move,
                self.eval == old(self).eval,
                self.phase == old(self).phase,
                self.priority == old(self).priority,
                forall|j: int|
                    0 <= j < i ==> {
                        let c = #[trigger] bview(self.children@[j]);
                        &&& c.board == old(self)@.children[j].board
                        &&& scored_leaf(old(self).board, c, (depth + 1) as usize)
                    },
            decreases self.children@.len() - i,
        {
            proof {
                lemma_child_view(old(self), i as int);
                assert(bview(old(self).children@[i as int]) == old(self)@.children[i as int]);
                assert(self.children@[i as int].board == old(self)@.children[i as int].board);
                assert(self.children@[i as int].board.playable());
            }
            self.children[i].eval_node(Some(board), depth + 1);
            proof {
                assert(scored_leaf(old(self).board, bview(self.children@[i as int]), (depth + 1) as usize));
            }
            i += 1;
        }
        proof {
            assert forall|i2: int| 0 <= i2 < self@.children.len() implies #[trigger] self@.children[i2]
                == bview(self.children@[i2]) by {
                lemma_child_view(self, i2);
            }
            assert(expanded_one_ply(old(self)@, self@, depth));
        }
    }

    /// Expands the root and its fresh children: after this the root keeps
    /// its position and phase, carries its own position score and no
    /// priority, and holds one child per legal move, in generator order,
    /// each scored as a frontier leaf of ply one.
    pub fn run_base_node(&mut self)
        requires
            old(self).board.playable(),
        ensures
            !final(self).is_terminal,
            final(self).board == old(self).board,
            final(self)._res_move == old(self)._res_move,
            final(self).phase == old(self).phase,
            final(self).priority is None,
            final(self).eval == Some(
                crate::evaluation::spec_eval_position(
                    old(self).board,
                    crate::movegen::legal_moves(old(self).board).len() as int,
                    0,
                ),
            ),
            final(self)@.children.len() == crate::movegen::legal_moves(old(self).board).len(),
            forall|i: int|
                0 <= i < final(self)@.children.len() ==> (#[trigger] final(self)@.children[i]).board
                    == crate::movegen::legal_moves(old(self).board)[i].board && scored_leaf(
                    old(self).board,
                    final(self)@.children[i],
                    1,
                ),
    {
        self.eval_node(None, 0);
        self.run_node(0);
    }
}


/// The extremum over the first `n` children's stored scores, evaluated
/// children only.
pub open spec fn level_ext(post: BranchView, maximize: bool, n: int) -> Eval
    decreases n,
{
    if n <= 0 {
        if maximize {
            Eval::NegInfinity
        } else {
            Eval::Infinity
        }
    } else {
        let acc = level_ext(post, maximize, n - 1);
        match post.children[n - 1].eval {
            Some(e) => if maximize {
                if eval_lt(acc, e) {
                    e
                } else {
                    acc
                }
            } else {
                if eval_lt(e, acc) {
                    e
                } else {
                    acc
                }
            },
            None => acc,
        }
    }
}

proof fn lemma_mm_pre_level(pre: BranchView, post: BranchView, maximize: bool, n: int)
    requires
        !pre.is_terminal,
        mm_written(pre, post, maximize),
        0 <= n <= pre.children.len(),
    ensures
        mm_pre(pre, maximize, Seq::<usize>::empty(), n).0 == level_ext(post, maximize, n),
    decreases n,
{
    if n > 0 {
        lemma_mm_pre_level(pre, post, maximize, n - 1);
        let c = pre.children[n - 1];
        if c.eval is Some {
            assert(mm_written(c, post.children[n - 1], !maximize));
            if c.is_terminal {
                assert(post.children[n - 1] == c);
            } else {
                lemma_mm_loc_indep(
                    c,
                    !maximize,
                    Seq::<usize>::empty().push((n - 1) as usize),
                    Seq::<usize>::empty(),
                );
                assert(post.children[n - 1].eval == Some(mm_eval(c, !maximize)));
            }
            assert(post.children[n - 1].eval is Some);
            assert(mm_pair(c, !maximize, Seq::<usize>::empty().push((n - 1) as usize)).0
                == post.children[n - 1].eval->0);
            assert(mm_pre(pre, maximize, Seq::<usize>::empty(), n).0 == level_ext(
                post,
                maximize,
                n,
            ));
        } else {
            assert(post.children[n - 1] == pre.children[n - 1]);
            assert(mm_pre(pre, maximize, Seq::<usize>::empty(), n).0 == level_ext(
                post,
                maximize,
                n,
            ));
        }
    }
}

/// Minimax consistency: every internal node the roll-up visited carries
/// the extremum — maximum for the side the flag favours, minimum for the
/// other — of its evaluated children's stored scores. The children the
/// roll-up visited in turn satisfy the same relation one level down, by
/// the recursion inside `mm_written`.
pub proof fn lemma_minimax_consistent(pre: BranchView, post: BranchView, maximize: bool)
    requires
        !pre.is_terminal,
        mm_written(pre, post, maximize),
    ensures
        post.eval == Some(level_ext(post, maximize, post.children.len() as int)),
{
    lemma_mm_pre_level(pre, post, maximize, pre.children.len() as int);
}


/// Mate beats material at selection: when the rolled-up score the chosen
/// child carries is a forced mate for White, it outranks every numeric
/// score; a forced mate for Black ranks below every numeric score.
pub proof fn lemma_mate_choice_beats_numeric(v: BranchView, best: Eval, i: int, d: usize, x: i64)
    requires
        first_best_child(v, best, i),
    ensures
        best == Eval::Mate(d, crate::board::Colour::White) ==> eval_lt(Eval::Numeric(x), best),
        best == Eval::Mate(d, crate::board::Colour::Black) ==> eval_lt(best, Eval::Numeric(x)),
        v.children[i].eval == Some(best),
{
    crate::score::lemma_mate_beats_material(d, x);
}


/// The roll-up over frontier children picks one of their stored scores:
/// over the first `n` children, the fold is still at its seed or equals
/// some evaluated child's score.
proof fn lemma_level_pick(pre: BranchView, maximize: bool, n: int)
    requires
        !pre.is_terminal,
        0 <= n <= pre.children.len(),
        forall|i: int|
            0 <= i < pre.children.len() && (#[trigger] pre.children[i]).eval is Some
                ==> pre.children[i].is_terminal,
    ensures
        mm_pre(pre, maximize, Seq::<usize>::empty(), n).0 == (if maximize {
            Eval::NegInfinity
        } else {
            Eval::Infinity
        }) || exists|j: int|
            0 <= j < n && (#[trigger] pre.children[j]).eval == Some(
                mm_pre(pre, maximize, Seq::<usize>::empty(), n).0,
            ),
    decreases n,
{
    if n > 0 {
        lemma_level_pick(pre, maximize, n - 1);
        let c = pre.children[n - 1];
        if c.eval is Some {
            assert(mm_pair(c, !maximize, Seq::<usize>::empty().push((n - 1) as usize)).0
                == c.eval->0);
        }
    }
}

/// After a base expansion the selection cannot come back empty: a root
/// with at least one evaluated frontier child, none of them carrying an
/// infinite score, has a child whose stored score equals the rolled-up
/// root score — the child `get_best` returns.
pub proof fn lemma_selection_exists(pre: BranchView, post: BranchView, maximize: bool)
    requires
        mm_written(pre, post, maximize),
        !pre.is_terminal,
        exists|i: int| 0 <= i < pre.children.len() && (#[trigger] pre.children[i]).eval is Some,
        forall|i: int|
            0 <= i < pre.children.len() && (#[trigger] pre.children[i]).eval is Some
                ==> pre.children[i].is_terminal && pre.children[i].eval != Some(Eval::NegInfinity)
                && pre.children[i].eval != Some(Eval::Infinity),
    ensures
        exists|j: int|
            0 <= j < post.children.len() && (#[trigger] post.children[j]).eval == Some(
                mm_eval(pre, maximize),
            ),
{
    let n = pre.children.len() as int;
    lemma_level_pick(pre, maximize, n);
    let seed = if maximize {
        Eval::NegInfinity
    } else {
        Eval::Infinity
    };
    if mm_pre(pre, maximize, Seq::<usize>::empty(), n).0 == seed {
        // impossible: the first evaluated child's finite score displaces
        // the seed and the fold never returns to it
        let i0 = choose|i: int|
            0 <= i < pre.children.len() && (#[trigger] pre.children[i]).eval is Some;
        lemma_seed_displaced(pre, maximize, i0, n);
        assert(false);
    }
    let j = choose|j: int|
        0 <= j < n && (#[trigger] pre.children[j]).eval == Some(
            mm_pre(pre, maximize, Seq::<usize>::empty(), n).0,
        );
    assert(pre.children[j].eval is Some);
    assert(pre.children[j].is_terminal);
    assert(mm_written(pre.children[j], post.children[j], !maximize));
    assert(post.children[j] == pre.children[j]);
    assert(post.children[j].eval == Some(mm_eval(pre, maximize)));
}

/// Once an evaluated frontier child with a finite score has been folded
/// in, the fold's value is no longer the seed.
proof fn lemma_seed_displaced(pre: BranchView, maximize: bool, i0: int, n: int)
    requires
        !pre.is_terminal,
        0 <= i0 < n <= pre.children.len(),
        pre.children[i0].eval is Some,
        forall|i: int|
            0 <= i < pre.children.len() && (#[trigger] pre.children[i]).eval is Some
                ==> pre.children[i].is_terminal && pre.children[i].eval != Some(Eval::NegInfinity)
                && pre.children[i].eval != Some(Eval::Infinity),
    ensures
        mm_pre(pre, maximize, Seq::<usize>::empty(), n).0 != (if maximize {
            Eval::NegInfinity
        } else {
            Eval::Infinity
        }),
    decreases n,
{
    let c = pre.children[n - 1];
    if c.eval is Some {
        assert(mm_pair(c, !maximize, Seq::<usize>::empty().push((n - 1) as usize)).0
            == c.eval->0);
        if i0 < n - 1 {
            lemma_seed_displaced(pre, maximize, i0, n - 1);
        }
        lemma_eval_order_total(mm_pre(pre, maximize, Seq::<usize>::empty(), n - 1).0, c.eval->0);
    } else {
        lemma_seed_displaced(pre, maximize, i0, n - 1);
    }
}

} // verus!
