//! Renumbering of placeholders into canonical, first-seen order.
use vstd::prelude::*;

use crate::node::{
    lemma_trees_of, lemma_trees_of_pointwise, trees_of, tree_of, KindView, NodeKind,
    NormalizedNode, Payload, PlaceholderKind, Tree, size_of_all,
};

verus! {

/// What has been seen so far, per placeholder kind, in first-seen order.
pub struct Seen<A> {
    pub vars: Seq<A>,
    pub fns: Seq<A>,
    pub types: Seq<A>,
}

impl<A> Seen<A> {
    pub open spec fn empty() -> Seen<A> {
        Seen { vars: Seq::empty(), fns: Seq::empty(), types: Seq::empty() }
    }

    pub open spec fn of(self, k: PlaceholderKind) -> Seq<A> {
        match k {
            PlaceholderKind::Variable => self.vars,
            PlaceholderKind::Function => self.fns,
            PlaceholderKind::Type => self.types,
        }
    }

    pub open spec fn with(self, k: PlaceholderKind, s: Seq<A>) -> Seen<A> {
        match k {
            PlaceholderKind::Variable => Seen { vars: s, ..self },
            PlaceholderKind::Function => Seen { fns: s, ..self },
            PlaceholderKind::Type => Seen { types: s, ..self },
        }
    }
}

/// The canonical index of a value: its first position among those seen,
/// or the next free position when it is new.
pub open spec fn canonical_index<A>(seen: Seq<A>, i: A) -> nat
    decreases seen.len(),
{
    if seen.len() == 0 {
        0
    } else if seen[0] == i {
        0
    } else {
        1 + canonical_index(seen.drop_first(), i)
    }
}

/// The canonical index is the first position holding the index.
pub proof fn lemma_canonical_index<A>(seen: Seq<A>, i: A, j: int)
    requires
        0 <= j <= seen.len(),
        forall|m: int| 0 <= m < j ==> seen[m] != i,
        j == seen.len() || seen[j] == i,
    ensures
        canonical_index(seen, i) == j,
    decreases j,
{
    if j > 0 {
        lemma_canonical_index(seen.drop_first(), i, j - 1);
    }
}

/// The seen list once `i` has been met.
pub open spec fn record<A>(seen: Seq<A>, i: A) -> Seq<A> {
    if seen.contains(i) {
        seen
    } else {
        seen.push(i)
    }
}

/// A kind with its placeholder renumbered, and the seen lists after it.
pub open spec fn reindex_kind(k: KindView, s: Seen<nat>) -> (KindView, Seen<nat>) {
    match k.payload {
        Payload::Slot(pk, i) => (
            KindView { tag: k.tag, payload: Payload::Slot(pk, canonical_index(s.of(pk), i)) },
            s.with(pk, record(s.of(pk), i)),
        ),
        _ => (k, s),
    }
}

/// A tree renumbered in pre-order, and the seen lists after it.
pub open spec fn reindex_tree(t: Tree, s: Seen<nat>) -> (Tree, Seen<nat>)
    decreases t,
{
    let (k, s1) = reindex_kind(t.kind, s);
    let (kids, s2) = reindex_all(t.children, s1);
    (Tree { kind: k, children: kids }, s2)
}

/// Trees renumbered left to right, and the seen lists after them.
pub open spec fn reindex_all(ts: Seq<Tree>, s: Seen<nat>) -> (Seq<Tree>, Seen<nat>)
    decreases ts,
{
    if ts.len() == 0 {
        (Seq::empty(), s)
    } else {
        let (front, s1) = reindex_all(ts.drop_last(), s);
        let (last, s2) = reindex_tree(ts[ts.len() - 1], s1);
        (front.push(last), s2)
    }
}

/// The canonical form of a tree: every placeholder renumbered, per kind,
/// by the order in which its old index is first met in pre-order.
pub open spec fn canonical(t: Tree) -> Tree {
    reindex_tree(t, Seen::<nat>::empty()).0
}

/// Renumbering keeps every kind's variant, so it keeps the size.
pub proof fn lemma_reindex_size(t: Tree, s: Seen<nat>)
    ensures
        reindex_tree(t, s).0.size() == t.size(),
        reindex_tree(t, s).0.kind.tag == t.kind.tag,
        reindex_tree(t, s).0.children.len() == t.children.len(),
    decreases t,
{
    lemma_reindex_all_size(t.children, reindex_kind(t.kind, s).1);
}

/// Renumbering a sequence keeps its summed size.
pub proof fn lemma_reindex_all_size(ts: Seq<Tree>, s: Seen<nat>)
    ensures
        size_of_all(reindex_all(ts, s).0) == size_of_all(ts),
        reindex_all(ts, s).0.len() == ts.len(),
    decreases ts,
{
    if ts.len() > 0 {
        let (front, s1) = reindex_all(ts.drop_last(), s);
        lemma_reindex_all_size(ts.drop_last(), s);
        lemma_reindex_size(ts[ts.len() - 1], s1);
        let r = reindex_all(ts, s).0;
        assert(r.drop_last() =~= front);
    }
}

/// The canonical form has the size of the tree.
pub proof fn lemma_canonical_size(t: Tree)
    ensures
        canonical(t).size() == t.size(),
{
    lemma_reindex_size(t, Seen::<nat>::empty());
}

proof fn lemma_reindex_all_take(ts: Seq<Tree>, s: Seen<nat>, i: int)
    requires
        0 <= i < ts.len(),
    ensures
        reindex_all(ts.take(i + 1), s) == ({
            let (front, s1) = reindex_all(ts.take(i), s);
            let (last, s2) = reindex_tree(ts[i], s1);
            (front.push(last), s2)
        }),
{
    assert(ts.take(i + 1).drop_last() =~= ts.take(i));
}

/// The indices `0..n`, in order.
pub open spec fn first_indices(n: nat) -> Seq<nat> {
    Seq::new(n, |j: int| j as nat)
}

/// The seen lists that a second renumbering meets: each list's positions.
pub open spec fn positions(s: Seen<nat>) -> Seen<nat> {
    Seen {
        vars: first_indices(s.vars.len()),
        fns: first_indices(s.fns.len()),
        types: first_indices(s.types.len()),
    }
}

/// No seen list holds a value twice.
pub open spec fn distinct_seen(s: Seen<nat>) -> bool {
    &&& s.vars.no_duplicates()
    &&& s.fns.no_duplicates()
    &&& s.types.no_duplicates()
}

/// Renumbering a renumbered kind against the positions changes nothing.
proof fn lemma_reindex_kind_again(k: KindView, s: Seen<nat>)
    requires
        distinct_seen(s),
    ensures
        reindex_kind(reindex_kind(k, s).0, positions(s)) == (
            reindex_kind(k, s).0,
            positions(reindex_kind(k, s).1),
        ),
        distinct_seen(reindex_kind(k, s).1),
{
    match k.payload {
        Payload::Slot(pk, i) => {
            let seen = s.of(pk);
            let n = seen.len();
            let ids = first_indices(n);
            if seen.contains(i) {
                let j = choose|j: int| 0 <= j < n && seen[j] == i;
                lemma_canonical_index(seen, i, j);
                lemma_canonical_index(ids, j as nat, j);
                assert(ids.contains(j as nat)) by {
                    assert(ids[j] == j as nat);
                }
                assert(s.with(pk, seen) == s) by {
                    assert(s.with(pk, seen).vars =~= s.vars);
                    assert(s.with(pk, seen).fns =~= s.fns);
                    assert(s.with(pk, seen).types =~= s.types);
                }
            } else {
                lemma_canonical_index(seen, i, n as int);
                lemma_canonical_index(ids, n, n as int);
                assert(ids.push(n) =~= first_indices(n + 1));
                let s1 = s.with(pk, seen.push(i));
                assert(positions(s1) == positions(s).with(pk, ids.push(n))) by {
                    assert(positions(s1).vars =~= positions(s).with(pk, ids.push(n)).vars);
                    assert(positions(s1).fns =~= positions(s).with(pk, ids.push(n)).fns);
                    assert(positions(s1).types =~= positions(s).with(pk, ids.push(n)).types);
                }
                assert(seen.push(i).no_duplicates()) by {
                    assert forall|a: int, b: int| 0 <= a < b < n + 1 implies seen.push(i)[a] != seen.push(i)[b] by {
                        if b == n {
                            assert(seen[a] == seen.push(i)[a]);
                        } else {
                            assert(seen[a] == seen.push(i)[a]);
                            assert(seen[b] == seen.push(i)[b]);
                        }
                    }
                }
            }
        },
        _ => {},
    }
}

/// Renumbering a renumbered tree against the positions of the seen lists
/// changes nothing, and leaves the positions of the lists after it.
proof fn lemma_reindex_tree_again(t: Tree, s: Seen<nat>)
    requires
        distinct_seen(s),
    ensures
        reindex_tree(reindex_tree(t, s).0, positions(s)) == (
            reindex_tree(t, s).0,
            positions(reindex_tree(t, s).1),
        ),
        distinct_seen(reindex_tree(t, s).1),
    decreases t,
{
    let (k, s1) = reindex_kind(t.kind, s);
    lemma_reindex_kind_again(t.kind, s);
    lemma_reindex_all_again(t.children, s1);
}

/// [`lemma_reindex_tree_again`] for a sequence of trees.
proof fn lemma_reindex_all_again(ts: Seq<Tree>, s: Seen<nat>)
    requires
        distinct_seen(s),
    ensures
        reindex_all(reindex_all(ts, s).0, positions(s)) == (
            reindex_all(ts, s).0,
            positions(reindex_all(ts, s).1),
        ),
        distinct_seen(reindex_all(ts, s).1),
    decreases ts,
{
    if ts.len() > 0 {
        let (front, s1) = reindex_all(ts.drop_last(), s);
        lemma_reindex_all_again(ts.drop_last(), s);
        lemma_reindex_tree_again(ts[ts.len() - 1], s1);
        lemma_reindex_all_size(ts.drop_last(), s);
        let r = reindex_all(ts, s).0;
        assert(r.drop_last() =~= front);
        assert(r.len() > 0);
    }
}

/// Renumbering is idempotent: the canonical form of a canonical form is
/// itself.
pub proof fn law_canonical_is_idempotent(t: Tree)
    ensures
        canonical(canonical(t)) == canonical(t),
{
    let e = Seen::<nat>::empty();
    assert(positions(e) == e) by {
        assert(positions(e).vars =~= e.vars);
        assert(positions(e).fns =~= e.fns);
        assert(positions(e).types =~= e.types);
    }
    lemma_reindex_tree_again(t, e);
}

/// The seen lists of the renumbering under way.
struct Renumbering {
    vars: Vec<usize>,
    fns: Vec<usize>,
    types: Vec<usize>,
}

impl Renumbering {
    spec fn view(&self) -> Seen<nat> {
        Seen {
            vars: self.vars@.map_values(|x: usize| x as nat),
            fns: self.fns@.map_values(|x: usize| x as nat),
            types: self.types@.map_values(|x: usize| x as nat),
        }
    }

    fn list(&mut self, k: PlaceholderKind) -> (r: &mut Vec<usize>)
        ensures
            r@.map_values(|x: usize| x as nat) == old(self).view().of(k),
            final(self).view() == old(self).view().with(
                k,
                final(r)@.map_values(|x: usize| x as nat),
            ),
    {
        match k {
            PlaceholderKind::Variable => &mut self.vars,
            PlaceholderKind::Function => &mut self.fns,
            PlaceholderKind::Type => &mut self.types,
        }
    }

    fn list_of(&self, k: PlaceholderKind) -> (r: &Vec<usize>)
        ensures
            r@.map_values(|x: usize| x as nat) == self.view().of(k),
    {
        match k {
            PlaceholderKind::Variable => &self.vars,
            PlaceholderKind::Function => &self.fns,
            PlaceholderKind::Type => &self.types,
        }
    }

    /// The canonical index of `i`, which is recorded as seen.
    fn renumber(&mut self, k: PlaceholderKind, i: usize) -> (r: usize)
        ensures
            r == canonical_index(old(self).view().of(k), i as nat),
            final(self).view() == old(self).view().with(k, record(old(self).view().of(k), i as nat)),
    {
        let ghost s = self.view().of(k);
        match position(self.list_of(k), i) {
            Some(j) => {
                proof {
                    assert(self.view().with(k, s) == self.view());
                }
                j
            },
            None => {
                let n = self.list_of(k).len();
                let list = self.list(k);
                list.push(i);
                proof {
                    assert(list@.map_values(|x: usize| x as nat) =~= s.push(i as nat));
                }
                n
            },
        }
    }
}

/// The first position of `i` in `list`, if any.
fn position(list: &Vec<usize>, i: usize) -> (r: Option<usize>)
    ensures
        ({
            let s = list@.map_values(|x: usize| x as nat);
            match r {
                Some(j) => s.contains(i as nat) && j == canonical_index(s, i as nat),
                None => !s.contains(i as nat) && list@.len() == canonical_index(s, i as nat),
            }
        }),
{
    let ghost s = list@.map_values(|x: usize| x as nat);
    let n = list.len();
    let mut j: usize = 0;
    while j < n
        invariant
            n == list@.len(),
            s == list@.map_values(|x: usize| x as nat),
            j <= n,
            forall|m: int| 0 <= m < j ==> s[m] != i as nat,
        decreases n - j,
    {
        if list[j] == i {
            proof {
                assert(s[j as int] == i as nat);
                lemma_canonical_index(s, i as nat, j as int);
            }
            return Some(j);
        }
        j = j + 1;
    }
    proof {
        lemma_canonical_index(s, i as nat, n as int);
    }
    None
}

/// The node with its kind's placeholder renumbered.
fn reindex_rec(node: &NormalizedNode, seen: &mut Renumbering) -> (r: NormalizedNode)
    ensures
        (r@, final(seen).view()) == reindex_tree(node@, old(seen).view()),
    decreases node,
{
    let kind = match &node.kind {
        NodeKind::Placeholder(k, i) => NodeKind::Placeholder(*k, seen.renumber(*k, *i)),
        NodeKind::TypePlaceholder(k, i) => NodeKind::TypePlaceholder(*k, seen.renumber(*k, *i)),
        NodeKind::PatPlaceholder(k, i) => NodeKind::PatPlaceholder(*k, seen.renumber(*k, *i)),
        other => other.clone(),
    };
    let ghost s1 = seen.view();
    assert((kind@, s1) == reindex_kind(node.kind@, old(seen).view()));
    let ghost kids = trees_of(node.children@);
    proof {
        lemma_trees_of(node.children@);
    }
    let n = node.children.len();
    let mut children: Vec<NormalizedNode> = Vec::new();
    for i in 0..n
        invariant
            n == node.children@.len(),
            kids == trees_of(node.children@),
            kids.len() == n,
            forall|j: int| 0 <= j < n ==> #[trigger] kids[j] == tree_of(node.children@[j]),
            children@.len() == i,
            (trees_of(children@), seen.view()) == reindex_all(kids.take(i as int), s1),
    {
        proof {
            lemma_reindex_all_take(kids, s1, i as int);
            lemma_trees_of(children@);
            assert(decreases_to!(node.children => node.children@[i as int]));
        }
        let c = reindex_rec(&node.children[i], seen);
        let ghost before = children@;
        children.push(c);
        proof {
            assert(children@.drop_last() =~= before);
        }
    }
    proof {
        assert(kids.take(n as int) =~= kids);
    }
    NormalizedNode { kind, children }
}

/// Renumbers every placeholder into canonical, first-seen order, so that
/// two trees that differ only in the numbering of their placeholders
/// become equal.
pub fn reindex_placeholders(node: &NormalizedNode) -> (r: NormalizedNode)
    ensures
        r@ == canonical(node@),
{
    let mut seen = Renumbering { vars: Vec::new(), fns: Vec::new(), types: Vec::new() };
    assert(seen.view() == Seen::<nat>::empty()) by {
        assert(seen.view().vars =~= Seq::<nat>::empty());
        assert(seen.view().fns =~= Seq::<nat>::empty());
        assert(seen.view().types =~= Seq::<nat>::empty());
    }
    reindex_rec(node, &mut seen)
}

} // verus!
