//! Tree similarity as a Dice coefficient over matching nodes.
use vstd::prelude::*;

use crate::node::{
    count_nodes, lemma_size_of_all_prefix, lemma_size_of_all_take, lemma_trees_of, size_of_all,
    trees_of, tree_of, KindView, NormalizedNode, Payload, Tree,
};

verus! {

/// Whether two kinds can match at all: the same variant, and for a macro
/// call the same macro name. Kinds that cannot match share nothing below.
pub open spec fn comparable(a: KindView, b: KindView) -> bool {
    a.tag == b.tag && match (a.payload, b.payload) {
        (Payload::Name(x), Payload::Name(y)) => x == y,
        _ => true,
    }
}

/// The kinds whose children are a list rather than named slots: a block's
/// statements, a tuple's and an array's elements. Their children are
/// aligned, so that an inserted or removed element does not shift the
/// comparison of the ones after it.
pub open spec fn is_sequence(k: KindView) -> bool {
    k.tag == 2 || k.tag == 24 || k.tag == 25
}

/// Every node of a tree, absent sentinels included: a measure that falls
/// with each step into a tree.
pub open spec fn weight(t: Tree) -> nat
    decreases t,
{
    1 + weight_all(t.children)
}

/// The summed weight of a sequence of trees.
pub open spec fn weight_all(s: Seq<Tree>) -> nat
    decreases s,
{
    if s.len() == 0 {
        0
    } else {
        weight_all(s.drop_last()) + weight(s[s.len() - 1])
    }
}

/// The weight of a sequence, split after its first tree.
pub proof fn lemma_weight_all_first(s: Seq<Tree>)
    requires
        s.len() > 0,
    ensures
        weight_all(s) == weight(s[0]) + weight_all(s.drop_first()),
    decreases s.len(),
{
    if s.len() > 1 {
        lemma_weight_all_first(s.drop_last());
        assert(s.drop_last().drop_first() =~= s.drop_first().drop_last());
    } else {
        assert(s.drop_last() =~= Seq::<Tree>::empty());
        assert(s.drop_first() =~= Seq::<Tree>::empty());
    }
}

/// The number of matching nodes of two trees: a node matches when its kind
/// equals the other's (absent sentinels are not counted), and below two
/// comparable kinds the children are compared: aligned for lists (see
/// [`aligned`]), position by position over the common prefix for named
/// slots, so that a then-branch is never compared with an else-branch.
pub open spec fn matching(a: Tree, b: Tree) -> nat
    decreases weight(a) + weight(b),
{
    if !comparable(a.kind, b.kind) {
        0
    } else {
        (if a.kind == b.kind && !a.is_absent() {
            1nat
        } else {
            0nat
        }) + if is_sequence(a.kind) {
            aligned(a.children, b.children)
        } else {
            matching_all(a.children, b.children)
        }
    }
}

/// Matching nodes of two sequences of trees, zipped.
pub open spec fn matching_all(xs: Seq<Tree>, ys: Seq<Tree>) -> nat
    decreases weight_all(xs) + weight_all(ys) + 1,
{
    if xs.len() == 0 || ys.len() == 0 {
        0
    } else {
        proof {
            lemma_weight_all_first(xs);
            lemma_weight_all_first(ys);
        }
        matching(xs[0], ys[0]) + matching_all(xs.drop_first(), ys.drop_first())
    }
}

/// The most matching nodes of two lists of trees over all alignments: pairs
/// that keep their order, each tree in at most one pair.
pub open spec fn aligned(xs: Seq<Tree>, ys: Seq<Tree>) -> nat
    decreases weight_all(xs) + weight_all(ys) + 1,
{
    if xs.len() == 0 || ys.len() == 0 {
        0
    } else {
        proof {
            assert(weight(xs[xs.len() - 1]) >= 1);
            assert(weight(ys[ys.len() - 1]) >= 1);
        }
        let skip_x = aligned(xs.drop_last(), ys);
        let skip_y = aligned(xs, ys.drop_last());
        let pair = aligned(xs.drop_last(), ys.drop_last()) + matching(xs[xs.len() - 1], ys[ys.len() - 1]);
        max3(skip_x, skip_y, pair)
    }
}

/// The largest of three numbers.
pub open spec fn max3(a: nat, b: nat, c: nat) -> nat {
    if a >= b && a >= c {
        a
    } else if b >= c {
        b
    } else {
        c
    }
}

/// A non-negative fraction.
#[derive(Clone, Copy, Debug, PartialEq, Eq, Structural)]
pub struct Ratio {
    pub num: u64,
    pub den: u64,
}

impl Ratio {
    /// `self <= other` as fractions.
    pub open spec fn spec_le(self, other: Ratio) -> bool {
        self.num * other.den <= other.num * self.den
    }

    /// Decides [`Ratio::spec_le`] for fractions with positive denominators.
    pub fn le(&self, other: &Ratio) -> (r: bool)
        ensures
            r == self.spec_le(*other),
    {
        let a = self.num as u128;
        let b = other.den as u128;
        let c = other.num as u128;
        let d = self.den as u128;
        assert(a * b <= u64::MAX * u64::MAX) by (nonlinear_arith)
            requires
                a <= u64::MAX,
                b <= u64::MAX,
        ;
        assert(c * d <= u64::MAX * u64::MAX) by (nonlinear_arith)
            requires
                c <= u64::MAX,
                d <= u64::MAX,
        ;
        a * b <= c * d
    }
}

/// The size of a sequence of trees, split after its first tree.
pub proof fn lemma_size_of_all_first(s: Seq<Tree>)
    requires
        s.len() > 0,
    ensures
        size_of_all(s) == s[0].size() + size_of_all(s.drop_first()),
    decreases s.len(),
{
    if s.len() > 1 {
        lemma_size_of_all_first(s.drop_last());
        assert(s.drop_last().drop_first() =~= s.drop_first().drop_last());
    } else {
        assert(s.drop_last() =~= Seq::<Tree>::empty());
        assert(s.drop_first() =~= Seq::<Tree>::empty());
    }
}

/// Each tree of a sequence is no larger than the sequence.
pub proof fn lemma_size_of_all_element(s: Seq<Tree>, i: int)
    requires
        0 <= i < s.len(),
    ensures
        s[i].size() <= size_of_all(s),
{
    lemma_size_of_all_take(s, i);
    lemma_size_of_all_prefix(s, i + 1);
}

/// Matching nodes are bounded by the size of either tree.
pub proof fn lemma_matching_bounded(a: Tree, b: Tree)
    ensures
        matching(a, b) <= a.size(),
        matching(a, b) <= b.size(),
    decreases weight(a) + weight(b),
{
    if comparable(a.kind, b.kind) {
        if is_sequence(a.kind) {
            lemma_aligned_bounded(a.children, b.children);
        } else {
            lemma_matching_all_bounded(a.children, b.children);
        }
    }
}

/// Matching nodes of zipped sequences are bounded by either side's size.
pub proof fn lemma_matching_all_bounded(xs: Seq<Tree>, ys: Seq<Tree>)
    ensures
        matching_all(xs, ys) <= size_of_all(xs),
        matching_all(xs, ys) <= size_of_all(ys),
    decreases weight_all(xs) + weight_all(ys) + 1,
{
    if xs.len() > 0 && ys.len() > 0 {
        lemma_weight_all_first(xs);
        lemma_weight_all_first(ys);
        lemma_matching_bounded(xs[0], ys[0]);
        lemma_matching_all_bounded(xs.drop_first(), ys.drop_first());
        lemma_size_of_all_first(xs);
        lemma_size_of_all_first(ys);
    }
}

/// Aligned matching nodes are bounded by either side's size.
pub proof fn lemma_aligned_bounded(xs: Seq<Tree>, ys: Seq<Tree>)
    ensures
        aligned(xs, ys) <= size_of_all(xs),
        aligned(xs, ys) <= size_of_all(ys),
    decreases weight_all(xs) + weight_all(ys) + 1,
{
    if xs.len() > 0 && ys.len() > 0 {
        assert(weight(xs[xs.len() - 1]) >= 1);
        assert(weight(ys[ys.len() - 1]) >= 1);
        lemma_aligned_bounded(xs.drop_last(), ys);
        lemma_aligned_bounded(xs, ys.drop_last());
        lemma_aligned_bounded(xs.drop_last(), ys.drop_last());
        lemma_matching_bounded(xs[xs.len() - 1], ys[ys.len() - 1]);
    }
}

/// Matching is symmetric.
pub proof fn lemma_matching_symmetric(a: Tree, b: Tree)
    ensures
        matching(a, b) == matching(b, a),
    decreases weight(a) + weight(b),
{
    if comparable(a.kind, b.kind) {
        if is_sequence(a.kind) {
            lemma_aligned_symmetric(a.children, b.children);
        } else {
            lemma_matching_all_symmetric(a.children, b.children);
        }
    }
}

/// Zipped matching is symmetric.
pub proof fn lemma_matching_all_symmetric(xs: Seq<Tree>, ys: Seq<Tree>)
    ensures
        matching_all(xs, ys) == matching_all(ys, xs),
    decreases weight_all(xs) + weight_all(ys) + 1,
{
    if xs.len() > 0 && ys.len() > 0 {
        lemma_weight_all_first(xs);
        lemma_weight_all_first(ys);
        lemma_matching_symmetric(xs[0], ys[0]);
        lemma_matching_all_symmetric(xs.drop_first(), ys.drop_first());
    }
}

/// Aligned matching is symmetric.
pub proof fn lemma_aligned_symmetric(xs: Seq<Tree>, ys: Seq<Tree>)
    ensures
        aligned(xs, ys) == aligned(ys, xs),
    decreases weight_all(xs) + weight_all(ys) + 1,
{
    if xs.len() > 0 && ys.len() > 0 {
        assert(weight(xs[xs.len() - 1]) >= 1);
        assert(weight(ys[ys.len() - 1]) >= 1);
        lemma_aligned_symmetric(xs.drop_last(), ys);
        lemma_aligned_symmetric(xs, ys.drop_last());
        lemma_aligned_symmetric(xs.drop_last(), ys.drop_last());
        lemma_matching_symmetric(xs[xs.len() - 1], ys[ys.len() - 1]);
    }
}

/// A tree matches itself in every node.
pub proof fn lemma_matching_self(a: Tree)
    ensures
        matching(a, a) == a.size(),
    decreases weight(a) + weight(a),
{
    if is_sequence(a.kind) {
        lemma_aligned_self(a.children);
    } else {
        lemma_matching_all_self(a.children);
    }
}

/// A sequence of trees matches itself in every node.
pub proof fn lemma_matching_all_self(xs: Seq<Tree>)
    ensures
        matching_all(xs, xs) == size_of_all(xs),
    decreases weight_all(xs) + weight_all(xs) + 1,
{
    if xs.len() > 0 {
        lemma_weight_all_first(xs);
        lemma_matching_self(xs[0]);
        lemma_matching_all_self(xs.drop_first());
        lemma_size_of_all_first(xs);
    }
}

/// A list of trees aligned with itself matches in every node.
pub proof fn lemma_aligned_self(xs: Seq<Tree>)
    ensures
        aligned(xs, xs) == size_of_all(xs),
    decreases weight_all(xs) + weight_all(xs) + 1,
{
    if xs.len() > 0 {
        assert(weight(xs[xs.len() - 1]) >= 1);
        lemma_aligned_self(xs.drop_last());
        lemma_matching_self(xs[xs.len() - 1]);
        lemma_aligned_bounded(xs.drop_last(), xs);
        lemma_aligned_bounded(xs, xs.drop_last());
    }
}

proof fn lemma_matching_all_step(xs: Seq<Tree>, ys: Seq<Tree>, i: int)
    requires
        0 <= i < xs.len(),
        i < ys.len(),
    ensures
        matching_all(xs.skip(i), ys.skip(i)) == matching(xs[i], ys[i]) + matching_all(
            xs.skip(i + 1),
            ys.skip(i + 1),
        ),
{
    assert(xs.skip(i).drop_first() =~= xs.skip(i + 1));
    assert(ys.skip(i).drop_first() =~= ys.skip(i + 1));
}

/// The largest of three numbers.
fn max_of_three(a: u64, b: u64, c: u64) -> (r: u64)
    ensures
        r == max3(a as nat, b as nat, c as nat),
{
    if a >= b && a >= c {
        a
    } else if b >= c {
        b
    } else {
        c
    }
}

/// Counts the matching nodes of two lists of trees under their best
/// alignment, row by row.
fn aligned_nodes(xs: &Vec<NormalizedNode>, ys: &Vec<NormalizedNode>) -> (r: u64)
    requires
        size_of_all(trees_of(xs@)) <= u64::MAX,
    ensures
        r == aligned(trees_of(xs@), trees_of(ys@)),
    decreases xs,
{
    let ghost tx = trees_of(xs@);
    let ghost ty = trees_of(ys@);
    proof {
        lemma_trees_of(xs@);
        lemma_trees_of(ys@);
    }
    let n = xs.len();
    let m = ys.len();
    let mut prev: Vec<u64> = Vec::new();
    prev.push(0);
    for j in 0..m
        invariant
            prev@.len() == j + 1,
            forall|k: int| 0 <= k <= j ==> prev@[k] == 0,
    {
        prev.push(0);
    }
    proof {
        assert forall|k: int| 0 <= k <= m implies prev@[k] == aligned(tx.take(0), #[trigger] ty.take(k)) by {
            assert(tx.take(0).len() == 0);
        }
    }
    for i in 0..n
        invariant
            n == xs@.len(),
            m == ys@.len(),
            tx == trees_of(xs@),
            ty == trees_of(ys@),
            tx.len() == n,
            ty.len() == m,
            forall|k: int| 0 <= k < n ==> #[trigger] tx[k] == tree_of(xs@[k]),
            forall|k: int| 0 <= k < m ==> #[trigger] ty[k] == tree_of(ys@[k]),
            size_of_all(tx) <= u64::MAX,
            prev@.len() == m + 1,
            forall|k: int| 0 <= k <= m ==> prev@[k] == aligned(tx.take(i as int), #[trigger] ty.take(k)),
    {
        proof {
            lemma_size_of_all_take(tx, i as int);
            lemma_size_of_all_prefix(tx, i + 1);
            lemma_size_of_all_element(tx, i as int);
            assert(decreases_to!(xs => xs@[i as int]));
            assert(tx.take(i + 1).drop_last() =~= tx.take(i as int));
            assert(tx.take(i + 1)[i as int] == tx[i as int]);
        }
        let mut cur: Vec<u64> = Vec::new();
        cur.push(0);
        proof {
            assert(ty.take(0).len() == 0);
        }
        for j in 0..m
            invariant
                n == xs@.len(),
                m == ys@.len(),
                i < n,
                tx == trees_of(xs@),
                ty == trees_of(ys@),
                tx.len() == n,
                ty.len() == m,
                forall|k: int| 0 <= k < n ==> #[trigger] tx[k] == tree_of(xs@[k]),
                forall|k: int| 0 <= k < m ==> #[trigger] ty[k] == tree_of(ys@[k]),
                tx[i as int].size() <= u64::MAX,
                size_of_all(tx.take(i as int)) + tx[i as int].size() <= u64::MAX,
                tx.take(i + 1).drop_last() == tx.take(i as int),
                tx.take(i + 1)[i as int] == tx[i as int],
                prev@.len() == m + 1,
                forall|k: int| 0 <= k <= m ==> prev@[k] == aligned(tx.take(i as int), #[trigger] ty.take(k)),
                cur@.len() == j + 1,
                forall|k: int| 0 <= k <= j ==> cur@[k] == aligned(tx.take(i + 1), #[trigger] ty.take(k)),
        {
            proof {
                assert(ty.take(j + 1).drop_last() =~= ty.take(j as int));
                assert(ty.take(j + 1)[j as int] == ty[j as int]);
                lemma_aligned_bounded(tx.take(i as int), ty.take(j as int));
                lemma_matching_bounded(tx[i as int], ty[j as int]);
            }
            let mm = matching_nodes(&xs[i], &ys[j]);
            let pair = prev[j] + mm;
            let best = max_of_three(prev[j + 1], cur[j], pair);
            cur.push(best);
            proof {
                assert(cur@[j + 1] == aligned(tx.take(i + 1), ty.take(j + 1)));
            }
        }
        prev = cur;
    }
    proof {
        assert(tx.take(n as int) =~= tx);
        assert(ty.take(m as int) =~= ty);
    }
    prev[m]
}

/// Counts the matching nodes of two trees.
pub fn matching_nodes(a: &NormalizedNode, b: &NormalizedNode) -> (r: u64)
    requires
        a@.size() <= u64::MAX,
    ensures
        r == matching(a@, b@),
    decreases a,
{
    proof {
        lemma_matching_bounded(a@, b@);
    }
    let ta = a.kind.variant_tag();
    let tb = b.kind.variant_tag();
    if ta != tb {
        return 0;
    }
    let same = a.kind.is_same_as(&b.kind);
    if a.kind.has_payload() && ta == 12 && !same {
        // macro calls with different names
        return 0;
    }
    let ghost xs = trees_of(a.children@);
    let ghost ys = trees_of(b.children@);
    proof {
        lemma_trees_of(a.children@);
        lemma_trees_of(b.children@);
        lemma_matching_all_bounded(xs, ys);
        assert(xs.skip(0) =~= xs);
        assert(ys.skip(0) =~= ys);
    }
    if ta == 2 || ta == 24 || ta == 25 {
        proof {
            assert(a@.children == xs);
            assert(b@.children == ys);
        }
        let total = aligned_nodes(&a.children, &b.children);
        proof {
            lemma_aligned_bounded(xs, ys);
        }
        return if same && !a.is_none() {
            total + 1
        } else {
            total
        };
    }
    let na = a.children.len();
    let nb = b.children.len();
    let n = if na < nb {
        na
    } else {
        nb
    };
    let mut total: u64 = 0;
    for i in 0..n
        invariant
            n <= na,
            n <= nb,
            na == a.children@.len(),
            nb == b.children@.len(),
            xs == trees_of(a.children@),
            ys == trees_of(b.children@),
            xs.len() == na,
            ys.len() == nb,
            forall|j: int| 0 <= j < na ==> #[trigger] xs[j] == tree_of(a.children@[j]),
            forall|j: int| 0 <= j < nb ==> #[trigger] ys[j] == tree_of(b.children@[j]),
            total + matching_all(xs.skip(i as int), ys.skip(i as int)) == matching_all(xs, ys),
            matching_all(xs, ys) <= size_of_all(xs),
            a@.size() <= u64::MAX,
            a@.children == xs,
    {
        proof {
            lemma_matching_all_step(xs, ys, i as int);
            lemma_size_of_all_element(xs, i as int);
            assert(decreases_to!(a.children => a.children@[i as int]));
        }
        let m = matching_nodes(&a.children[i], &b.children[i]);
        total = total + m;
    }
    proof {
        assert(xs.skip(n as int).len() == 0 || ys.skip(n as int).len() == 0);
    }
    if same && !a.is_none() {
        total + 1
    } else {
        total
    }
}

/// The Dice coefficient `2 * matching / (size(a) + size(b))` of two trees;
/// two empty trees are fully similar.
pub open spec fn score_of(a: Tree, b: Tree) -> Ratio {
    if a.size() + b.size() == 0 {
        Ratio { num: 1, den: 1 }
    } else {
        Ratio { num: (2 * matching(a, b)) as u64, den: (a.size() + b.size()) as u64 }
    }
}

/// The similarity of two trees as the Dice coefficient
/// `2 * matching / (size(a) + size(b))`; two empty trees are fully similar.
pub fn similarity_score(a: &NormalizedNode, b: &NormalizedNode) -> (r: Ratio)
    requires
        a@.size() + b@.size() <= usize::MAX,
    ensures
        r == score_of(a@, b@),
        r.den > 0,
        a@.size() + b@.size() == 0 ==> r.num == 1 && r.den == 1,
        a@.size() + b@.size() > 0 ==> r.num == 2 * matching(a@, b@),
        a@.size() + b@.size() > 0 ==> r.den == a@.size() + b@.size(),
{
    let na = count_nodes(a) as u64;
    let nb = count_nodes(b) as u64;
    let total = na + nb;
    if total == 0 {
        return Ratio { num: 1, den: 1 };
    }
    let m = matching_nodes(a, b);
    proof {
        lemma_matching_bounded(a@, b@);
    }
    Ratio { num: 2 * m, den: total }
}

/// Similarity is symmetric: comparing `b` with `a` scores what comparing
/// `a` with `b` does.
pub proof fn law_similarity_symmetric(a: Tree, b: Tree)
    ensures
        score_of(a, b) == score_of(b, a),
{
    lemma_matching_symmetric(a, b);
}

/// A tree is fully similar to itself: its score is one.
pub proof fn law_similarity_of_identical(a: Tree)
    ensures
        score_of(a, a).num == score_of(a, a).den,
        score_of(a, a).den > 0 || a.size() + a.size() > u64::MAX,
{
    lemma_matching_self(a);
}

/// No score exceeds one.
pub proof fn law_similarity_at_most_one(a: Tree, b: Tree)
    requires
        a.size() + b.size() <= u64::MAX,
    ensures
        score_of(a, b).num <= score_of(a, b).den,
{
    lemma_matching_bounded(a, b);
}

/// Inserting a tree anywhere into one of two lists never lowers their
/// aligned matching: the elements after the insertion still pair up.
pub proof fn lemma_aligned_insert(xs: Seq<Tree>, ys: Seq<Tree>, k: int, t: Tree)
    requires
        0 <= k <= ys.len(),
    ensures
        aligned(xs, ys) <= aligned(xs, ys.insert(k, t)),
    decreases xs.len() + ys.len(),
{
    let ys2 = ys.insert(k, t);
    if xs.len() == 0 || ys.len() == 0 {
    } else if k == ys.len() {
        assert(ys2.drop_last() =~= ys);
    } else {
        assert(ys2.drop_last() =~= ys.drop_last().insert(k, t));
        assert(ys2[ys2.len() - 1] == ys[ys.len() - 1]);
        lemma_aligned_insert(xs.drop_last(), ys, k, t);
        lemma_aligned_insert(xs, ys.drop_last(), k, t);
        lemma_aligned_insert(xs.drop_last(), ys.drop_last(), k, t);
    }
}

/// A statement inserted into a block, or an element into a tuple or an
/// array, never lowers how many nodes the two match: what came after the
/// insertion still lines up with what it lined up with before.
pub proof fn law_insertion_keeps_matches(a: Tree, b: Tree, k: int, t: Tree)
    requires
        is_sequence(b.kind),
        0 <= k <= b.children.len(),
    ensures
        matching(a, b) <= matching(a, Tree { kind: b.kind, children: b.children.insert(k, t) }),
{
    if comparable(a.kind, b.kind) {
        lemma_aligned_insert(a.children, b.children, k, t);
    }
}

} // verus!
