//! Extraction of sub-function units: if branches, match arm bodies, loop
//! bodies and closure bodies.
use vstd::prelude::*;

use crate::code_unit::CodeUnitKind;
use crate::node::{count_nodes, lemma_trees_of, size_of_all, trees_of, tree_of, NormalizedNode, Tree};
use crate::reindex::{canonical, law_canonical_is_idempotent, lemma_canonical_size, reindex_placeholders};
use crate::similarity::lemma_size_of_all_element;
use crate::text::{decimal, decimal_string};

verus! {

/// A sub-unit extracted from a normalized function body.
pub struct SubUnit {
    pub kind: CodeUnitKind,
    pub node: NormalizedNode,
    pub node_count: usize,
    pub description: String,
}

/// The mathematical value of a [`SubUnit`].
pub struct SubUnitView {
    pub kind: CodeUnitKind,
    pub tree: Tree,
    pub node_count: nat,
    pub description: Seq<char>,
}

impl SubUnit {
    pub open spec fn view(&self) -> SubUnitView {
        SubUnitView {
            kind: self.kind,
            tree: self.node@,
            node_count: self.node_count as nat,
            description: self.description@,
        }
    }
}

/// The values of a sequence of sub-units.
pub open spec fn sub_views(s: Seq<SubUnit>) -> Seq<SubUnitView> {
    s.map_values(|u: SubUnit| u.view())
}

/// The sub-unit of a subtree, in canonical form, when it is large enough.
pub open spec fn candidate(t: Tree, kind: CodeUnitKind, description: Seq<char>, min: nat) -> Seq<
    SubUnitView,
> {
    let c = canonical(t);
    if c.size() >= min {
        seq![SubUnitView { kind, tree: c, node_count: c.size(), description }]
    } else {
        Seq::empty()
    }
}

/// The description of the arm at position `p` of a match's children.
pub open spec fn arm_description(p: nat) -> Seq<char> {
    "match arm "@ + decimal(p)
}

/// The body of the match arm at position `p`, if it has one.
pub open spec fn arm_candidate(cs: Seq<Tree>, p: int, min: nat) -> Seq<SubUnitView> {
    if cs[p].children.len() > 2 {
        candidate(cs[p].children[2], CodeUnitKind::MatchArm, arm_description(p as nat), min)
    } else {
        Seq::empty()
    }
}

/// The arm bodies at positions `1..k` of a match's children.
pub open spec fn arm_candidates(cs: Seq<Tree>, k: int, min: nat) -> Seq<SubUnitView>
    decreases k,
{
    if k <= 1 {
        Seq::empty()
    } else {
        arm_candidates(cs, k - 1, min) + arm_candidate(cs, k - 1, min)
    }
}

/// The sub-units that a node itself offers, before those of its children.
pub open spec fn own_candidates(t: Tree, min: nat) -> Seq<SubUnitView> {
    let cs = t.children;
    if t.kind.tag == 34 {
        // If: [condition, then_branch, else_or_None]
        (if cs.len() > 1 {
            candidate(cs[1], CodeUnitKind::IfBranch, "if-then branch"@, min)
        } else {
            Seq::empty()
        }) + (if cs.len() > 2 && !cs[2].is_absent() {
            candidate(cs[2], CodeUnitKind::IfBranch, "if-else branch"@, min)
        } else {
            Seq::empty()
        })
    } else if t.kind.tag == 35 {
        // Match: [expr, arm0, arm1, ...]
        arm_candidates(cs, cs.len() as int, min)
    } else if t.kind.tag == 37 && cs.len() > 0 {
        // Loop: [body]
        candidate(cs[0], CodeUnitKind::LoopBody, "loop body"@, min)
    } else if t.kind.tag == 38 && cs.len() > 1 {
        // While: [condition, body]
        candidate(cs[1], CodeUnitKind::LoopBody, "while body"@, min)
    } else if t.kind.tag == 39 && cs.len() > 2 {
        // ForLoop: [pat, iter, body]
        candidate(cs[2], CodeUnitKind::LoopBody, "for body"@, min)
    } else if t.kind.tag == 18 && cs.len() > 0 {
        // Closure: [body, param0, ...]
        candidate(cs[0], CodeUnitKind::Block, "closure body"@, min)
    } else {
        Seq::empty()
    }
}

/// All sub-units of a tree in pre-order: a node's own, then its children's.
pub open spec fn extract(t: Tree, min: nat) -> Seq<SubUnitView>
    decreases t,
{
    own_candidates(t, min) + extract_all(t.children, min)
}

/// The sub-units of a sequence of trees, left to right.
pub open spec fn extract_all(ts: Seq<Tree>, min: nat) -> Seq<SubUnitView>
    decreases ts,
{
    if ts.len() == 0 {
        Seq::empty()
    } else {
        extract_all(ts.drop_last(), min) + extract(ts[ts.len() - 1], min)
    }
}

/// Every child of a node is no larger than the node.
proof fn lemma_child_size(node: NormalizedNode, i: int)
    requires
        0 <= i < node.children@.len(),
    ensures
        tree_of(node.children@[i]).size() <= node@.size(),
        node@.children[i] == tree_of(node.children@[i]),
        node@.children.len() == node.children@.len(),
{
    lemma_trees_of(node.children@);
    lemma_size_of_all_element(node@.children, i);
}

fn try_add(
    node: &NormalizedNode,
    kind: CodeUnitKind,
    description: String,
    min_node_count: usize,
    results: &mut Vec<SubUnit>,
)
    requires
        node@.size() <= usize::MAX,
    ensures
        sub_views(final(results)@) == sub_views(old(results)@) + candidate(
            node@,
            kind,
            description@,
            min_node_count as nat,
        ),
{
    let reindexed = reindex_placeholders(node);
    proof {
        lemma_canonical_size(node@);
    }
    let node_count = count_nodes(&reindexed);
    let ghost before = results@;
    if node_count >= min_node_count {
        results.push(SubUnit { kind, node: reindexed, node_count, description });
        assert(sub_views(results@) =~= sub_views(before) + candidate(
            node@,
            kind,
            description@,
            min_node_count as nat,
        ));
    } else {
        assert(sub_views(results@) =~= sub_views(before) + candidate(
            node@,
            kind,
            description@,
            min_node_count as nat,
        ));
    }
}

fn add_match_arms(node: &NormalizedNode, min_node_count: usize, results: &mut Vec<SubUnit>)
    requires
        node@.size() <= usize::MAX,
    ensures
        sub_views(final(results)@) == sub_views(old(results)@) + arm_candidates(
            node@.children,
            node@.children.len() as int,
            min_node_count as nat,
        ),
{
    let ghost cs = node@.children;
    let n = node.children.len();
    proof {
        lemma_trees_of(node.children@);
    }
    let ghost start = sub_views(results@);
    let mut p: usize = 1;
    while p < n
        invariant
            n == node.children@.len(),
            cs == node@.children,
            cs.len() == n,
            1 <= p,
            p <= n || p == 1,
            node@.size() <= usize::MAX,
            sub_views(results@) == start + arm_candidates(cs, p as int, min_node_count as nat),
        decreases n - p,
    {
        let arm = &node.children[p];
        let ghost before = sub_views(results@);
        proof {
            lemma_child_size(*node, p as int);
            lemma_trees_of(arm.children@);
            assert(cs[p as int] == arm@);
        }
        if arm.children.len() > 2 {
            proof {
                lemma_child_size(*arm, 2);
            }
            let mut desc = "match arm ".to_owned();
            let num = decimal_string(p as u64);
            desc.append(num.as_str());
            assert(desc@ == arm_description(p as nat));
            try_add(&arm.children[2], CodeUnitKind::MatchArm, desc, min_node_count, results);
        }
        assert(sub_views(results@) == before + arm_candidate(cs, p as int, min_node_count as nat));
        p = p + 1;
        proof {
            assert(sub_views(results@) =~= start + arm_candidates(
                cs,
                p as int,
                min_node_count as nat,
            ));
        }
    }
    proof {
        if n == 0 {
            assert(arm_candidates(cs, 0, min_node_count as nat) =~= Seq::<SubUnitView>::empty());
            assert(arm_candidates(cs, 1, min_node_count as nat) =~= Seq::<SubUnitView>::empty());
            assert(sub_views(results@) =~= start + arm_candidates(
                cs,
                n as int,
                min_node_count as nat,
            ));
        } else {
            assert(p == n);
        }
    }
}

fn add_own(node: &NormalizedNode, min_node_count: usize, results: &mut Vec<SubUnit>)
    requires
        node@.size() <= usize::MAX,
    ensures
        sub_views(final(results)@) == sub_views(old(results)@) + own_candidates(
            node@,
            min_node_count as nat,
        ),
{
    let ghost start = sub_views(results@);
    let ghost cs = node@.children;
    let n = node.children.len();
    proof {
        lemma_trees_of(node.children@);
    }
    let tag = node.kind.variant_tag();
    if tag == 34 {
        if n > 1 {
            proof {
                lemma_child_size(*node, 1);
            }
            try_add(
                &node.children[1],
                CodeUnitKind::IfBranch,
                "if-then branch".to_owned(),
                min_node_count,
                results,
            );
        }
        let ghost mid = sub_views(results@);
        if n > 2 && !node.children[2].is_none() {
            proof {
                lemma_child_size(*node, 2);
            }
            try_add(
                &node.children[2],
                CodeUnitKind::IfBranch,
                "if-else branch".to_owned(),
                min_node_count,
                results,
            );
        }
        assert(sub_views(results@) =~= start + own_candidates(node@, min_node_count as nat));
    } else if tag == 35 {
        add_match_arms(node, min_node_count, results);
    } else if tag == 37 && n > 0 {
        proof {
            lemma_child_size(*node, 0);
        }
        try_add(
            &node.children[0],
            CodeUnitKind::LoopBody,
            "loop body".to_owned(),
            min_node_count,
            results,
        );
    } else if tag == 38 && n > 1 {
        proof {
            lemma_child_size(*node, 1);
        }
        try_add(
            &node.children[1],
            CodeUnitKind::LoopBody,
            "while body".to_owned(),
            min_node_count,
            results,
        );
    } else if tag == 39 && n > 2 {
        proof {
            lemma_child_size(*node, 2);
        }
        try_add(
            &node.children[2],
            CodeUnitKind::LoopBody,
            "for body".to_owned(),
            min_node_count,
            results,
        );
    } else if tag == 18 && n > 0 {
        proof {
            lemma_child_size(*node, 0);
        }
        try_add(
            &node.children[0],
            CodeUnitKind::Block,
            "closure body".to_owned(),
            min_node_count,
            results,
        );
    } else {
        assert(sub_views(results@) =~= start + own_candidates(node@, min_node_count as nat));
    }
}

fn extract_recursive(node: &NormalizedNode, min_node_count: usize, results: &mut Vec<SubUnit>)
    requires
        node@.size() <= usize::MAX,
    ensures
        sub_views(final(results)@) == sub_views(old(results)@) + extract(
            node@,
            min_node_count as nat,
        ),
    decreases node,
{
    let ghost start = sub_views(results@);
    add_own(node, min_node_count, results);
    let ghost mid = sub_views(results@);
    let ghost kids = node@.children;
    let n = node.children.len();
    proof {
        lemma_trees_of(node.children@);
    }
    for i in 0..n
        invariant
            n == node.children@.len(),
            kids == node@.children,
            kids.len() == n,
            forall|j: int| 0 <= j < n ==> #[trigger] kids[j] == tree_of(node.children@[j]),
            node@.size() <= usize::MAX,
            sub_views(results@) == mid + extract_all(kids.take(i as int), min_node_count as nat),
    {
        proof {
            assert(kids.take(i + 1).drop_last() =~= kids.take(i as int));
            lemma_child_size(*node, i as int);
            assert(decreases_to!(node.children => node.children@[i as int]));
        }
        extract_recursive(&node.children[i], min_node_count, results);
        proof {
            assert(sub_views(results@) =~= mid + extract_all(
                kids.take(i + 1),
                min_node_count as nat,
            ));
        }
    }
    proof {
        assert(kids.take(n as int) =~= kids);
        assert(sub_views(results@) =~= start + extract(node@, min_node_count as nat));
    }
}

/// Extracts candidate sub-units of a normalized tree: if branches, match
/// arm bodies, loop bodies and closure bodies, found in pre-order. Each is
/// renumbered into canonical placeholder form, and only those with at
/// least `min_node_count` nodes are kept.
pub fn extract_sub_units(node: &NormalizedNode, min_node_count: usize) -> (r: Vec<SubUnit>)
    requires
        node@.size() <= usize::MAX,
    ensures
        sub_views(r@) == extract(node@, min_node_count as nat),
{
    let mut results: Vec<SubUnit> = Vec::new();
    extract_recursive(node, min_node_count, &mut results);
    assert(sub_views(results@) =~= extract(node@, min_node_count as nat));
    results
}

/// Every sub-unit's tree has at most `bound` nodes.
pub open spec fn all_within(s: Seq<SubUnitView>, bound: nat) -> bool {
    forall|k: int| 0 <= k < s.len() ==> (#[trigger] s[k]).tree.size() <= bound
}

proof fn lemma_concat_within(a: Seq<SubUnitView>, b: Seq<SubUnitView>, bound: nat)
    requires
        all_within(a, bound),
        all_within(b, bound),
    ensures
        all_within(a + b, bound),
{
    assert forall|k: int| 0 <= k < (a + b).len() implies (#[trigger] (a + b)[k]).tree.size()
        <= bound by {
        if k < a.len() {
            assert((a + b)[k] == a[k]);
        } else {
            assert((a + b)[k] == b[k - a.len()]);
        }
    }
}

proof fn lemma_candidate_within(t: Tree, kind: CodeUnitKind, description: Seq<char>, min: nat, bound: nat)
    requires
        t.size() <= bound,
    ensures
        all_within(candidate(t, kind, description, min), bound),
{
    lemma_canonical_size(t);
}

proof fn lemma_arm_candidates_within(cs: Seq<Tree>, k: int, min: nat, bound: nat)
    requires
        k <= cs.len(),
        forall|j: int| 0 <= j < cs.len() ==> (#[trigger] cs[j]).size() <= bound,
    ensures
        all_within(arm_candidates(cs, k, min), bound),
    decreases k,
{
    if k > 1 {
        lemma_arm_candidates_within(cs, k - 1, min, bound);
        let arm = cs[k - 1];
        if arm.children.len() > 2 {
            lemma_size_of_all_element(arm.children, 2);
            lemma_candidate_within(arm.children[2], CodeUnitKind::MatchArm, arm_description((k - 1) as nat), min, bound);
        }
        lemma_concat_within(arm_candidates(cs, k - 1, min), arm_candidate(cs, k - 1, min), bound);
    }
}

proof fn lemma_own_within(t: Tree, min: nat)
    ensures
        all_within(own_candidates(t, min), t.size()),
{
    let cs = t.children;
    assert forall|j: int| 0 <= j < cs.len() implies (#[trigger] cs[j]).size() <= t.size() by {
        lemma_size_of_all_element(cs, j);
    }
    if t.kind.tag == 34 {
        let then_part = if cs.len() > 1 {
            candidate(cs[1], CodeUnitKind::IfBranch, "if-then branch"@, min)
        } else {
            Seq::empty()
        };
        let else_part = if cs.len() > 2 && !cs[2].is_absent() {
            candidate(cs[2], CodeUnitKind::IfBranch, "if-else branch"@, min)
        } else {
            Seq::empty()
        };
        if cs.len() > 1 {
            lemma_candidate_within(cs[1], CodeUnitKind::IfBranch, "if-then branch"@, min, t.size());
        }
        if cs.len() > 2 && !cs[2].is_absent() {
            lemma_candidate_within(cs[2], CodeUnitKind::IfBranch, "if-else branch"@, min, t.size());
        }
        lemma_concat_within(then_part, else_part, t.size());
    } else if t.kind.tag == 35 {
        lemma_arm_candidates_within(cs, cs.len() as int, min, t.size());
    } else if t.kind.tag == 37 && cs.len() > 0 {
        lemma_candidate_within(cs[0], CodeUnitKind::LoopBody, "loop body"@, min, t.size());
    } else if t.kind.tag == 38 && cs.len() > 1 {
        lemma_candidate_within(cs[1], CodeUnitKind::LoopBody, "while body"@, min, t.size());
    } else if t.kind.tag == 39 && cs.len() > 2 {
        lemma_candidate_within(cs[2], CodeUnitKind::LoopBody, "for body"@, min, t.size());
    } else if t.kind.tag == 18 && cs.len() > 0 {
        lemma_candidate_within(cs[0], CodeUnitKind::Block, "closure body"@, min, t.size());
    }
}

/// No extracted sub-unit is larger than the tree it was taken from.
pub proof fn lemma_extract_within(t: Tree, min: nat)
    ensures
        all_within(extract(t, min), t.size()),
    decreases t,
{
    lemma_own_within(t, min);
    lemma_extract_all_within(t.children, min);
    lemma_concat_within(own_candidates(t, min), extract_all(t.children, min), t.size());
}

/// No sub-unit extracted from a sequence of trees is larger than the
/// sequence.
pub proof fn lemma_extract_all_within(ts: Seq<Tree>, min: nat)
    ensures
        all_within(extract_all(ts, min), size_of_all(ts)),
    decreases ts,
{
    if ts.len() > 0 {
        let front = ts.drop_last();
        let last = ts[ts.len() - 1];
        lemma_extract_all_within(front, min);
        lemma_extract_within(last, min);
        lemma_concat_within(extract_all(front, min), extract(last, min), size_of_all(ts));
    }
}

/// Every sub-unit is in canonical form, counts its own nodes, and has at
/// least `min` of them.
pub open spec fn all_sound(s: Seq<SubUnitView>, min: nat) -> bool {
    forall|k: int| 0 <= k < s.len() ==> {
        let u = #[trigger] s[k];
        &&& canonical(u.tree) == u.tree
        &&& u.node_count == u.tree.size()
        &&& u.tree.size() >= min
    }
}

proof fn lemma_concat_sound(a: Seq<SubUnitView>, b: Seq<SubUnitView>, min: nat)
    requires
        all_sound(a, min),
        all_sound(b, min),
    ensures
        all_sound(a + b, min),
{
    assert forall|k: int| 0 <= k < (a + b).len() implies {
        let u = #[trigger] (a + b)[k];
        &&& canonical(u.tree) == u.tree
        &&& u.node_count == u.tree.size()
        &&& u.tree.size() >= min
    } by {
        if k < a.len() {
            assert((a + b)[k] == a[k]);
        } else {
            assert((a + b)[k] == b[k - a.len()]);
        }
    }
}

proof fn lemma_candidate_sound(t: Tree, kind: CodeUnitKind, description: Seq<char>, min: nat)
    ensures
        all_sound(candidate(t, kind, description, min), min),
{
    law_canonical_is_idempotent(t);
}

proof fn lemma_arm_candidates_sound(cs: Seq<Tree>, k: int, min: nat)
    ensures
        all_sound(arm_candidates(cs, k, min), min),
    decreases k,
{
    if k > 1 {
        lemma_arm_candidates_sound(cs, k - 1, min);
        if cs[k - 1].children.len() > 2 {
            lemma_candidate_sound(cs[k - 1].children[2], CodeUnitKind::MatchArm, arm_description((k - 1) as nat), min);
        }
        lemma_concat_sound(arm_candidates(cs, k - 1, min), arm_candidate(cs, k - 1, min), min);
    }
}

proof fn lemma_own_sound(t: Tree, min: nat)
    ensures
        all_sound(own_candidates(t, min), min),
{
    let cs = t.children;
    if t.kind.tag == 34 {
        let then_part = if cs.len() > 1 {
            candidate(cs[1], CodeUnitKind::IfBranch, "if-then branch"@, min)
        } else {
            Seq::empty()
        };
        let else_part = if cs.len() > 2 && !cs[2].is_absent() {
            candidate(cs[2], CodeUnitKind::IfBranch, "if-else branch"@, min)
        } else {
            Seq::empty()
        };
        if cs.len() > 1 {
            lemma_candidate_sound(cs[1], CodeUnitKind::IfBranch, "if-then branch"@, min);
        }
        if cs.len() > 2 && !cs[2].is_absent() {
            lemma_candidate_sound(cs[2], CodeUnitKind::IfBranch, "if-else branch"@, min);
        }
        lemma_concat_sound(then_part, else_part, min);
    } else if t.kind.tag == 35 {
        lemma_arm_candidates_sound(cs, cs.len() as int, min);
    } else if t.kind.tag == 37 && cs.len() > 0 {
        lemma_candidate_sound(cs[0], CodeUnitKind::LoopBody, "loop body"@, min);
    } else if t.kind.tag == 38 && cs.len() > 1 {
        lemma_candidate_sound(cs[1], CodeUnitKind::LoopBody, "while body"@, min);
    } else if t.kind.tag == 39 && cs.len() > 2 {
        lemma_candidate_sound(cs[2], CodeUnitKind::LoopBody, "for body"@, min);
    } else if t.kind.tag == 18 && cs.len() > 0 {
        lemma_candidate_sound(cs[0], CodeUnitKind::Block, "closure body"@, min);
    }
}

/// Every extracted sub-unit is already in canonical placeholder form, so
/// that equal branches of different functions are equal trees; it counts
/// its own nodes, and it has at least the minimum of them.
pub proof fn law_sub_units_are_canonical_and_large(t: Tree, min: nat)
    ensures
        all_sound(extract(t, min), min),
    decreases t,
{
    lemma_own_sound(t, min);
    lemma_extract_all_sound(t.children, min);
    lemma_concat_sound(own_candidates(t, min), extract_all(t.children, min), min);
}

/// [`law_sub_units_are_canonical_and_large`] for a sequence of trees.
proof fn lemma_extract_all_sound(ts: Seq<Tree>, min: nat)
    ensures
        all_sound(extract_all(ts, min), min),
    decreases ts,
{
    if ts.len() > 0 {
        let front = ts.drop_last();
        lemma_extract_all_sound(front, min);
        law_sub_units_are_canonical_and_large(ts[ts.len() - 1], min);
        lemma_concat_sound(extract_all(front, min), extract(ts[ts.len() - 1], min), min);
    }
}

} // verus!
