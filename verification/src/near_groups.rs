//! Near-duplicate grouping: code units of one kind and of about the same
//! size are compared pairwise, and the pairs at or above a similarity
//! threshold are joined into classes.
use vstd::prelude::*;
use vstd::relations::sorted_by;

use crate::code_unit::{CodeUnit, UnitView};
use crate::fingerprint::{composite_writes, hash_of_writes, Fingerprint};
use crate::grouper::{group_views, insert_in_order, report_order, unit_views, DuplicateGroup, GroupView};
use crate::similarity::{score_of, similarity_score, Ratio};
use crate::union_find::{joined, UnionFind};

verus! {

/// A joined pair of candidates: their positions, the first before the
/// second, and their similarity.
pub type Edge = (usize, usize, Ratio);

/// The units whose fingerprint is not among the exact duplicates, in order.
pub open spec fn near_candidates(us: Seq<UnitView>, exact: Seq<Fingerprint>) -> Seq<UnitView>
    decreases us.len(),
{
    if us.len() == 0 {
        Seq::empty()
    } else {
        let front = near_candidates(us.drop_last(), exact);
        if exact.contains(us[us.len() - 1].fingerprint) {
            front
        } else {
            front.push(us[us.len() - 1])
        }
    }
}

/// The size class of a unit with `n` nodes: `floor(log2(n))`, and zero for
/// an empty unit. Units within a factor of two of each other mostly share it.
pub open spec fn size_bucket(n: nat) -> nat
    decreases n,
{
    if n <= 1 {
        0
    } else {
        1 + size_bucket(n / 2)
    }
}

/// Whether candidates `i` and `j` are compared and found alike: the same
/// kind, the same size class, and a similarity at or above the threshold.
pub open spec fn joins(c: Seq<UnitView>, threshold: Ratio, i: int, j: int) -> bool {
    &&& c[i].kind == c[j].kind
    &&& size_bucket(c[i].node_count) == size_bucket(c[j].node_count)
    &&& threshold.spec_le(score_of(c[i].body, c[j].body))
}

/// The pairs `(i, j)` with `i < j < k` that join, in order of `j`.
pub open spec fn edges_from(c: Seq<UnitView>, threshold: Ratio, i: int, k: int) -> Seq<Edge>
    decreases k - i,
{
    if k <= i + 1 {
        Seq::empty()
    } else {
        let front = edges_from(c, threshold, i, k - 1);
        if joins(c, threshold, i, k - 1) {
            front.push((i as usize, (k - 1) as usize, score_of(c[i].body, c[k - 1].body)))
        } else {
            front
        }
    }
}

/// The pairs that join whose first member is below `m`, in lexicographic
/// order.
pub open spec fn edges_below(c: Seq<UnitView>, threshold: Ratio, m: int) -> Seq<Edge>
    decreases m,
{
    if m <= 0 {
        Seq::empty()
    } else {
        edges_below(c, threshold, m - 1) + edges_from(c, threshold, m - 1, c.len() as int)
    }
}

/// All pairs of candidates that join, in lexicographic order.
pub open spec fn near_edges(c: Seq<UnitView>, threshold: Ratio) -> Seq<Edge> {
    edges_below(c, threshold, c.len() as int)
}

/// The classes of `0..n` after joining the pairs in order, as the
/// representative of each element.
pub open spec fn classes_after(n: nat, es: Seq<Edge>) -> Seq<nat>
    decreases es.len(),
{
    if es.len() == 0 {
        Seq::new(n, |i: int| i as nat)
    } else {
        let e = es[es.len() - 1];
        joined(classes_after(n, es.drop_last()), e.0 as nat, e.1 as nat)
    }
}

/// The elements below `k` whose representative is `r`, ascending.
pub open spec fn class_of(rep: Seq<nat>, r: nat, k: int) -> Seq<usize>
    decreases k,
{
    if k <= 0 {
        Seq::empty()
    } else {
        let front = class_of(rep, r, k - 1);
        if rep[k - 1] == r {
            front.push((k - 1) as usize)
        } else {
            front
        }
    }
}

/// The lowest score among the pairs in the class of `r`, the first such
/// pair winning ties; `None` when the class has no pair.
pub open spec fn lowest_score(es: Seq<Edge>, rep: Seq<nat>, r: nat) -> Option<Ratio>
    decreases es.len(),
{
    if es.len() == 0 {
        None
    } else {
        let low = lowest_score(es.drop_last(), rep, r);
        let e = es[es.len() - 1];
        if rep[e.0 as int] == r {
            match low {
                Some(m) => if m.spec_le(e.2) {
                    Some(m)
                } else {
                    Some(e.2)
                },
                None => Some(e.2),
            }
        } else {
            low
        }
    }
}

/// The fingerprints of a sequence of units.
pub open spec fn fingerprints(us: Seq<UnitView>) -> Seq<Fingerprint> {
    us.map_values(|u: UnitView| u.fingerprint)
}

/// The candidates at the given positions.
pub open spec fn at_positions(c: Seq<UnitView>, ps: Seq<usize>) -> Seq<UnitView> {
    ps.map_values(|p: usize| c[p as int])
}

/// The group of the class represented by `r`: its members in order, a
/// fingerprint composed of theirs, and the lowest score of its pairs (the
/// threshold when it has none).
pub open spec fn near_group(
    c: Seq<UnitView>,
    threshold: Ratio,
    es: Seq<Edge>,
    rep: Seq<nat>,
    r: nat,
) -> GroupView {
    let members = at_positions(c, class_of(rep, r, c.len() as int));
    GroupView {
        fingerprint: Fingerprint(hash_of_writes(composite_writes(fingerprints(members)))),
        members,
        similarity: match lowest_score(es, rep, r) {
            Some(s) => s,
            None => threshold,
        },
    }
}

/// The groups of the classes represented below `k` that have more than one
/// member, by representative.
pub open spec fn groups_below(
    c: Seq<UnitView>,
    threshold: Ratio,
    es: Seq<Edge>,
    rep: Seq<nat>,
    k: int,
) -> Seq<GroupView>
    decreases k,
{
    if k <= 0 {
        Seq::empty()
    } else {
        let front = groups_below(c, threshold, es, rep, k - 1);
        if class_of(rep, (k - 1) as nat, c.len() as int).len() > 1 {
            front.push(near_group(c, threshold, es, rep, (k - 1) as nat))
        } else {
            front
        }
    }
}

/// The near-duplicate groups of a set of units, before ordering.
pub open spec fn near_groups(
    us: Seq<UnitView>,
    exact: Seq<Fingerprint>,
    threshold: Ratio,
) -> Seq<GroupView> {
    let c = near_candidates(us, exact);
    let es = near_edges(c, threshold);
    let rep = classes_after(c.len(), es);
    groups_below(c, threshold, es, rep, c.len() as int)
}

/// Whether the fingerprint is in the list.
fn listed(exact: &[Fingerprint], f: Fingerprint) -> (r: bool)
    ensures
        r == exact@.contains(f),
{
    let n = exact.len();
    for i in 0..n
        invariant
            n == exact@.len(),
            forall|k: int| 0 <= k < i ==> exact@[k] != f,
    {
        if exact[i].0 == f.0 {
            return true;
        }
    }
    false
}

/// The units whose fingerprint is not listed as an exact duplicate.
fn select_candidates(units: &[CodeUnit], exact: &[Fingerprint]) -> (r: Vec<CodeUnit>)
    ensures
        unit_views(r@) == near_candidates(unit_views(units@), exact@),
{
    let ghost us = unit_views(units@);
    let mut out: Vec<CodeUnit> = Vec::new();
    let n = units.len();
    for i in 0..n
        invariant
            n == units@.len(),
            us == unit_views(units@),
            unit_views(out@) == near_candidates(us.take(i as int), exact@),
    {
        proof {
            assert(us.take(i + 1).drop_last() =~= us.take(i as int));
            assert(us[i as int] == units@[i as int]@);
        }
        if !listed(exact, units[i].fingerprint) {
            let ghost before = out@;
            out.push(units[i].clone());
            proof {
                assert(unit_views(out@) =~= unit_views(before).push(units@[i as int]@));
            }
        }
    }
    proof {
        assert(us.take(n as int) =~= us);
    }
    out
}

/// The size class of a unit with `n` nodes.
pub fn size_bucket_of(n: usize) -> (r: usize)
    ensures
        r == size_bucket(n as nat),
{
    let mut x = n;
    let mut b: usize = 0;
    while x > 1
        invariant
            b + size_bucket(x as nat) == size_bucket(n as nat),
            b + x <= n,
        decreases x,
    {
        x = x / 2;
        b = b + 1;
    }
    b
}

proof fn lemma_edges_below_step(c: Seq<UnitView>, threshold: Ratio, i: int)
    requires
        0 <= i,
    ensures
        edges_below(c, threshold, i + 1) == edges_below(c, threshold, i) + edges_from(
            c,
            threshold,
            i,
            c.len() as int,
        ),
{
}

/// The pairs of candidates that join, in lexicographic order.
fn collect_edges(cands: &Vec<CodeUnit>, threshold: &Ratio) -> (r: Vec<Edge>)
    requires
        forall|k: int| 0 <= k < cands@.len() ==> 2 * (#[trigger] cands@[k]@).body.size() <= usize::MAX,
    ensures
        r@ == near_edges(unit_views(cands@), *threshold),
        forall|q: int|
            0 <= q < r@.len() ==> (#[trigger] r@[q]).0 < r@[q].1 && r@[q].1 < cands@.len()
                && r@[q].2.den > 0,
{
    let ghost c = unit_views(cands@);
    let n = cands.len();
    let mut edges: Vec<Edge> = Vec::new();
    for i in 0..n
        invariant
            n == cands@.len(),
            c == unit_views(cands@),
            forall|k: int| 0 <= k < n ==> 2 * (#[trigger] cands@[k]@).body.size() <= usize::MAX,
            edges@ == edges_below(c, *threshold, i as int),
            forall|q: int|
                0 <= q < edges@.len() ==> (#[trigger] edges@[q]).0 < edges@[q].1 && edges@[q].1
                    < n && edges@[q].2.den > 0,
    {
        let bi = size_bucket_of(cands[i].node_count);
        let ghost base = edges@;
        proof {
            lemma_edges_below_step(c, *threshold, i as int);
            assert(edges@ =~= base + edges_from(c, *threshold, i as int, i + 1));
        }
        for j in (i + 1)..n
            invariant
                n == cands@.len(),
                i < n,
                c == unit_views(cands@),
                forall|k: int| 0 <= k < n ==> 2 * (#[trigger] cands@[k]@).body.size() <= usize::MAX,
                bi == size_bucket(c[i as int].node_count),
                base == edges_below(c, *threshold, i as int),
                edges@ == base + edges_from(c, *threshold, i as int, j as int),
                forall|q: int|
                    0 <= q < edges@.len() ==> (#[trigger] edges@[q]).0 < edges@[q].1 && edges@[q].1
                        < n && edges@[q].2.den > 0,
        {
            proof {
                assert(c[i as int] == cands@[i as int]@);
                assert(c[j as int] == cands@[j as int]@);
            }
            if cands[i].kind == cands[j].kind && bi == size_bucket_of(cands[j].node_count) {
                proof {
                    assert(2 * cands@[i as int]@.body.size() <= usize::MAX);
                    assert(2 * cands@[j as int]@.body.size() <= usize::MAX);
                }
                let s = similarity_score(&cands[i].body, &cands[j].body);
                if threshold.le(&s) {
                    edges.push((i, j, s));
                    proof {
                        assert(edges@ =~= base + edges_from(c, *threshold, i as int, j + 1));
                    }
                } else {
                    proof {
                        assert(edges@ =~= base + edges_from(c, *threshold, i as int, j + 1));
                    }
                }
            } else {
                proof {
                    assert(edges@ =~= base + edges_from(c, *threshold, i as int, j + 1));
                }
            }
        }
    }
    edges
}

/// The classes that joining the pairs in order makes, as each element's
/// representative.
fn join_classes(n: usize, edges: &Vec<Edge>) -> (r: Vec<usize>)
    requires
        forall|q: int| 0 <= q < edges@.len() ==> (#[trigger] edges@[q]).0 < n && edges@[q].1 < n,
    ensures
        r@.len() == n,
        forall|x: int| 0 <= x < n ==> #[trigger] r@[x] == classes_after(n as nat, edges@)[x],
        forall|x: int| 0 <= x < n ==> #[trigger] r@[x] < n,
{
    let mut uf = UnionFind::new(n);
    let m = edges.len();
    proof {
        assert(edges@.take(0) =~= Seq::<Edge>::empty());
    }
    for k in 0..m
        invariant
            m == edges@.len(),
            forall|q: int| 0 <= q < m ==> (#[trigger] edges@[q]).0 < n && edges@[q].1 < n,
            uf.wf(),
            uf@ == classes_after(n as nat, edges@.take(k as int)),
            uf@.len() == n,
    {
        let (a, b, _s) = edges[k];
        uf.union(a, b);
        proof {
            assert(edges@.take(k + 1).drop_last() =~= edges@.take(k as int));
        }
    }
    proof {
        assert(edges@.take(m as int) =~= edges@);
    }
    let ghost rep = uf@;
    let mut reps: Vec<usize> = Vec::new();
    for x in 0..n
        invariant
            uf.wf(),
            uf@ == rep,
            rep.len() == n,
            reps@.len() == x,
            forall|y: int| 0 <= y < x ==> #[trigger] reps@[y] == rep[y],
            forall|y: int| 0 <= y < x ==> #[trigger] reps@[y] < n,
    {
        let r = uf.find(x);
        proof {
            uf.lemma_rep_in_range(x as int);
        }
        reps.push(r);
    }
    reps
}

/// The members of each class, ascending, indexed by representative.
fn class_lists(reps: &Vec<usize>) -> (r: Vec<Vec<usize>>)
    requires
        forall|x: int| 0 <= x < reps@.len() ==> #[trigger] reps@[x] < reps@.len(),
    ensures
        r@.len() == reps@.len(),
        forall|k: int|
            0 <= k < r@.len() ==> (#[trigger] r@[k])@ == class_of(
                reps@.map_values(|v: usize| v as nat),
                k as nat,
                reps@.len() as int,
            ),
{
    let ghost rep = reps@.map_values(|v: usize| v as nat);
    let n = reps.len();
    let mut lists: Vec<Vec<usize>> = Vec::new();
    for k in 0..n
        invariant
            lists@.len() == k,
            forall|q: int| 0 <= q < k ==> (#[trigger] lists@[q])@ == Seq::<usize>::empty(),
    {
        lists.push(Vec::new());
    }
    for x in 0..n
        invariant
            n == reps@.len(),
            rep == reps@.map_values(|v: usize| v as nat),
            forall|y: int| 0 <= y < n ==> #[trigger] reps@[y] < n,
            lists@.len() == n,
            forall|k: int| 0 <= k < n ==> (#[trigger] lists@[k])@ == class_of(rep, k as nat, x as int),
    {
        let r = reps[x];
        let ghost before = lists@;
        lists[r].push(x);
        proof {
            assert forall|k: int| 0 <= k < n implies (#[trigger] lists@[k])@ == class_of(
                rep,
                k as nat,
                x + 1,
            ) by {
                assert(rep[x as int] == r as nat);
                if k != r as int {
                    assert(lists@[k] == before[k]);
                }
            }
        }
    }
    lists
}

proof fn lemma_lowest_score_den(es: Seq<Edge>, rep: Seq<nat>, r: nat)
    requires
        forall|q: int| 0 <= q < es.len() ==> (#[trigger] es[q]).2.den > 0,
    ensures
        lowest_score(es, rep, r) matches Some(s) ==> s.den > 0,
    decreases es.len(),
{
    if es.len() > 0 {
        lemma_lowest_score_den(es.drop_last(), rep, r);
    }
}

/// The group of the class with the given members and representative.
fn make_group(
    cands: &Vec<CodeUnit>,
    members: &Vec<usize>,
    edges: &Vec<Edge>,
    reps: &Vec<usize>,
    r: usize,
    threshold: &Ratio,
) -> (g: DuplicateGroup)
    requires
        forall|t: int| 0 <= t < members@.len() ==> #[trigger] members@[t] < cands@.len(),
        forall|q: int| 0 <= q < edges@.len() ==> (#[trigger] edges@[q]).0 < reps@.len(),
        forall|q: int| 0 <= q < edges@.len() ==> (#[trigger] edges@[q]).2.den > 0,
        threshold.den > 0,
    ensures
        g@.members == at_positions(unit_views(cands@), members@),
        g@.fingerprint == Fingerprint(
            hash_of_writes(composite_writes(fingerprints(at_positions(unit_views(cands@), members@)))),
        ),
        g@.similarity == match lowest_score(edges@, reps@.map_values(|v: usize| v as nat), r as nat) {
            Some(s) => s,
            None => *threshold,
        },
        g.similarity.den > 0,
{
    let ghost c = unit_views(cands@);
    let ghost rep = reps@.map_values(|v: usize| v as nat);
    let mut units: Vec<CodeUnit> = Vec::new();
    let mut fps: Vec<Fingerprint> = Vec::new();
    let k = members.len();
    for t in 0..k
        invariant
            k == members@.len(),
            c == unit_views(cands@),
            forall|u: int| 0 <= u < k ==> #[trigger] members@[u] < cands@.len(),
            unit_views(units@) == at_positions(c, members@.take(t as int)),
            fps@ == fingerprints(at_positions(c, members@.take(t as int))),
    {
        let p = members[t];
        let unit = cands[p].clone();
        let ghost before_units = units@;
        let ghost before_fps = fps@;
        fps.push(unit.fingerprint);
        units.push(unit);
        proof {
            assert(c[p as int] == cands@[p as int]@);
            assert(members@.take(t + 1) =~= members@.take(t as int).push(p));
            assert(unit_views(units@) =~= unit_views(before_units).push(c[p as int]));
            assert(at_positions(c, members@.take(t + 1)) =~= at_positions(
                c,
                members@.take(t as int),
            ).push(c[p as int]));
            assert(fps@ =~= fingerprints(at_positions(c, members@.take(t + 1))));
        }
    }
    proof {
        assert(members@.take(k as int) =~= members@);
    }
    let fingerprint = Fingerprint::from_fingerprints(fps.as_slice());
    let mut low: Option<Ratio> = None;
    let m = edges.len();
    proof {
        assert(edges@.take(0) =~= Seq::<Edge>::empty());
    }
    for q in 0..m
        invariant
            m == edges@.len(),
            rep == reps@.map_values(|v: usize| v as nat),
            forall|q2: int| 0 <= q2 < m ==> (#[trigger] edges@[q2]).0 < reps@.len(),
            low == lowest_score(edges@.take(q as int), rep, r as nat),
    {
        let (a, _b, s) = edges[q];
        proof {
            assert(edges@.take(q + 1).drop_last() =~= edges@.take(q as int));
        }
        if reps[a] == r {
            low = match low {
                Some(cur) => if cur.le(&s) {
                    Some(cur)
                } else {
                    Some(s)
                },
                None => Some(s),
            };
        }
    }
    proof {
        assert(edges@.take(m as int) =~= edges@);
        lemma_lowest_score_den(edges@, rep, r as nat);
    }
    let similarity = match low {
        Some(s) => s,
        None => *threshold,
    };
    DuplicateGroup { fingerprint, members: units, similarity }
}

/// Finds groups of near duplicates among the units whose fingerprint is not
/// an exact duplicate. Candidates of the same kind and size class whose
/// similarity reaches the threshold are joined, transitively; each class
/// of more than one unit becomes a group of its members in order, with a
/// fingerprint composed of theirs and the lowest score among its joined
/// pairs. Larger groups come first, then the more similar, then lower
/// fingerprints.
pub fn find_near_duplicates(
    units: &[CodeUnit],
    threshold: Ratio,
    exact_fingerprints: &[Fingerprint],
) -> (r: Vec<DuplicateGroup>)
    requires
        threshold.den > 0,
        forall|k: int| 0 <= k < units@.len() ==> 2 * (#[trigger] units@[k]@).body.size() <= usize::MAX,
    ensures
        group_views(r@).to_multiset() == near_groups(
            unit_views(units@),
            exact_fingerprints@,
            threshold,
        ).to_multiset(),
        sorted_by(group_views(r@), report_order()),
{
    let cands = select_candidates(units, exact_fingerprints);
    let ghost c = unit_views(cands@);
    proof {
        let us = unit_views(units@);
        lemma_candidates_bounded(us, exact_fingerprints@);
        assert forall|k: int| 0 <= k < cands@.len() implies 2 * (#[trigger] cands@[k]@).body.size()
            <= usize::MAX by {
            assert(c[k] == cands@[k]@);
            let t = choose|t: int|
                0 <= t < us.len() && us[t] == near_candidates(us, exact_fingerprints@)[k];
            assert(us[t] == units@[t]@);
        }
    }
    let edges = collect_edges(&cands, &threshold);
    let n = cands.len();
    let reps = join_classes(n, &edges);
    let ghost rep = reps@.map_values(|v: usize| v as nat);
    proof {
        lemma_classes_after_len(n as nat, edges@);
        assert(rep =~= classes_after(n as nat, edges@));
    }
    let mut lists = class_lists(&reps);
    let mut result: Vec<DuplicateGroup> = Vec::new();
    proof {
        assert(group_views(result@) =~= Seq::<GroupView>::empty());
    }
    for k in 0..n
        invariant
            n == cands@.len(),
            c == unit_views(cands@),
            reps@.len() == n,
            lists@.len() == n,
            rep == reps@.map_values(|v: usize| v as nat),
            rep == classes_after(n as nat, edges@),
            edges@ == near_edges(c, threshold),
            threshold.den > 0,
            forall|q: int|
                0 <= q < edges@.len() ==> (#[trigger] edges@[q]).0 < edges@[q].1 && edges@[q].1
                    < n && edges@[q].2.den > 0,
            forall|q: int| k <= q < n ==> (#[trigger] lists@[q])@ == class_of(rep, q as nat, n as int),
            sorted_by(group_views(result@), report_order()),
            forall|q: int| 0 <= q < result@.len() ==> #[trigger] result@[q].similarity.den > 0,
            group_views(result@).to_multiset() == groups_below(c, threshold, edges@, rep, k as int).to_multiset(),
    {
        let ghost prev = lists@;
        let mut members: Vec<usize> = Vec::new();
        std::mem::swap(&mut members, &mut lists[k]);
        proof {
            assert(members@ == class_of(rep, k as nat, n as int));
            assert forall|q: int| k + 1 <= q < n implies (#[trigger] lists@[q])@ == class_of(
                rep,
                q as nat,
                n as int,
            ) by {
                assert(lists@[q] == prev[q]);
            }
            lemma_class_of_bounded(rep, k as nat, n as int);
        }
        if members.len() > 1 {
            let g = make_group(&cands, &members, &edges, &reps, k, &threshold);
            let ghost gv = g@;
            proof {
                assert(gv == near_group(c, threshold, edges@, rep, k as nat));
            }
            let ghost old_result = result@;
            let _pos = insert_in_order(&mut result, g);
            proof {
                vstd::seq_lib::to_multiset_build(
                    groups_below(c, threshold, edges@, rep, k as int),
                    gv,
                );
            }
        }
    }
    proof {
        assert(near_groups(unit_views(units@), exact_fingerprints@, threshold) == groups_below(
            c,
            threshold,
            edges@,
            rep,
            n as int,
        ));
    }
    result
}

/// Joining keeps the number of elements.
proof fn lemma_classes_after_len(n: nat, es: Seq<Edge>)
    ensures
        classes_after(n, es).len() == n,
    decreases es.len(),
{
    if es.len() > 0 {
        lemma_classes_after_len(n, es.drop_last());
    }
}

/// The members of a class are below the bound they were gathered under.
proof fn lemma_class_of_bounded(rep: Seq<nat>, r: nat, k: int)
    ensures
        forall|t: int| 0 <= t < class_of(rep, r, k).len() ==> (#[trigger] class_of(rep, r, k)[t]) < k,
    decreases k,
{
    if k > 0 {
        lemma_class_of_bounded(rep, r, k - 1);
        let front = class_of(rep, r, k - 1);
        if rep[k - 1] == r {
            assert forall|t: int| 0 <= t < front.len() + 1 implies (#[trigger] front.push(
                (k - 1) as usize,
            )[t]) < k by {
                if t < front.len() {
                    assert(front.push((k - 1) as usize)[t] == front[t]);
                }
            }
        }
    }
}

/// Every candidate is one of the units.
proof fn lemma_candidates_bounded(us: Seq<UnitView>, exact: Seq<Fingerprint>)
    ensures
        forall|k: int|
            0 <= k < near_candidates(us, exact).len() ==> exists|t: int|
                0 <= t < us.len() && us[t] == #[trigger] near_candidates(us, exact)[k],
    decreases us.len(),
{
    if us.len() > 0 {
        lemma_candidates_bounded(us.drop_last(), exact);
        let front = near_candidates(us.drop_last(), exact);
        assert forall|k: int| 0 <= k < near_candidates(us, exact).len() implies exists|t: int|
            0 <= t < us.len() && us[t] == #[trigger] near_candidates(us, exact)[k] by {
            if k < front.len() {
                let t = choose|t: int| 0 <= t < us.drop_last().len() && us.drop_last()[t] == front[k];
                assert(us[t] == near_candidates(us, exact)[k]);
            } else {
                assert(us[us.len() - 1] == near_candidates(us, exact)[k]);
            }
        }
    }
}

/// The candidates are units of the run whose fingerprint is not an exact
/// duplicate's.
proof fn lemma_near_candidates(us: Seq<UnitView>, exact: Seq<Fingerprint>)
    ensures
        forall|k: int| 0 <= k < near_candidates(us, exact).len() ==> !exact.contains(
            (#[trigger] near_candidates(us, exact)[k]).fingerprint,
        ) && us.contains(near_candidates(us, exact)[k]),
    decreases us.len(),
{
    if us.len() > 0 {
        let front = us.drop_last();
        lemma_near_candidates(front, exact);
        let r = near_candidates(us, exact);
        let rf = near_candidates(front, exact);
        assert forall|k: int| 0 <= k < r.len() implies !exact.contains((#[trigger] r[k]).fingerprint)
            && us.contains(r[k]) by {
            if k < rf.len() {
                assert(r[k] == rf[k]);
                let j = choose|j: int| 0 <= j < front.len() && front[j] == rf[k];
                assert(us[j] == r[k]);
            } else {
                assert(r[k] == us[us.len() - 1]);
            }
        }
    }
}

/// The members of a class are positions below the bound.
proof fn lemma_class_of_range(rep: Seq<nat>, r: nat, k: int)
    ensures
        forall|i: int| 0 <= i < class_of(rep, r, k).len() ==> (#[trigger] class_of(rep, r, k)[i]) < k,
        class_of(rep, r, k).len() <= if k < 0 { 0 } else { k },
    decreases k,
{
    if k > 0 {
        lemma_class_of_range(rep, r, k - 1);
    }
}

/// Every joined pair's score reaches the threshold.
proof fn lemma_edges_from_reach(c: Seq<UnitView>, t: Ratio, i: int, k: int)
    ensures
        forall|m: int| 0 <= m < edges_from(c, t, i, k).len() ==> t.spec_le((#[trigger] edges_from(c, t, i, k)[m]).2),
    decreases k - i,
{
    if k > i + 1 {
        lemma_edges_from_reach(c, t, i, k - 1);
        let e = edges_from(c, t, i, k);
        let f = edges_from(c, t, i, k - 1);
        assert forall|m: int| 0 <= m < e.len() implies t.spec_le((#[trigger] e[m]).2) by {
            if m < f.len() {
                assert(e[m] == f[m]);
            }
        }
    }
}

/// [`lemma_edges_from_reach`] for the pairs below a bound.
proof fn lemma_edges_below_reach(c: Seq<UnitView>, t: Ratio, m: int)
    ensures
        forall|q: int| 0 <= q < edges_below(c, t, m).len() ==> t.spec_le((#[trigger] edges_below(c, t, m)[q]).2),
    decreases m,
{
    if m > 0 {
        lemma_edges_below_reach(c, t, m - 1);
        lemma_edges_from_reach(c, t, m - 1, c.len() as int);
        let a = edges_below(c, t, m - 1);
        let b = edges_from(c, t, m - 1, c.len() as int);
        assert forall|q: int| 0 <= q < (a + b).len() implies t.spec_le((#[trigger] (a + b)[q]).2) by {
            if q < a.len() {
                assert((a + b)[q] == a[q]);
            } else {
                assert((a + b)[q] == b[q - a.len()]);
            }
        }
    }
}

/// The lowest score of a class is the score of one of the pairs.
proof fn lemma_lowest_score_reaches(es: Seq<Edge>, rep: Seq<nat>, r: nat, t: Ratio)
    requires
        forall|q: int| 0 <= q < es.len() ==> t.spec_le((#[trigger] es[q]).2),
    ensures
        lowest_score(es, rep, r) matches Some(s) ==> t.spec_le(s),
    decreases es.len(),
{
    if es.len() > 0 {
        let front = es.drop_last();
        assert forall|q: int| 0 <= q < front.len() implies t.spec_le((#[trigger] front[q]).2) by {
            assert(front[q] == es[q]);
        }
        lemma_lowest_score_reaches(front, rep, r, t);
        assert(t.spec_le(es[es.len() - 1].2));
    }
}

/// Each group below the bound is the group of a class with more than one
/// member.
proof fn lemma_groups_below(c: Seq<UnitView>, t: Ratio, es: Seq<Edge>, rep: Seq<nat>, k: int)
    ensures
        forall|q: int| 0 <= q < groups_below(c, t, es, rep, k).len() ==> exists|r: nat|
            #[trigger] groups_below(c, t, es, rep, k)[q] == near_group(c, t, es, rep, r)
                && class_of(rep, r, c.len() as int).len() > 1,
    decreases k,
{
    if k > 0 {
        lemma_groups_below(c, t, es, rep, k - 1);
        let g = groups_below(c, t, es, rep, k);
        let gf = groups_below(c, t, es, rep, k - 1);
        assert forall|q: int| 0 <= q < g.len() implies exists|r: nat|
            #[trigger] g[q] == near_group(c, t, es, rep, r) && class_of(rep, r, c.len() as int).len() > 1 by {
            if q < gf.len() {
                assert(g[q] == gf[q]);
            } else {
                let r = (k - 1) as nat;
                assert(g[q] == near_group(c, t, es, rep, r));
            }
        }
    }
}

/// Every near-duplicate group has at least two members, all of them units
/// of the run that are not exact duplicates, and a similarity that reaches
/// the threshold.
pub proof fn law_near_groups_are_alike(us: Seq<UnitView>, exact: Seq<Fingerprint>, t: Ratio)
    ensures
        forall|k: int| 0 <= k < near_groups(us, exact, t).len() ==> {
            let g = #[trigger] near_groups(us, exact, t)[k];
            &&& g.members.len() >= 2
            &&& t.spec_le(g.similarity)
            &&& forall|m: int| 0 <= m < g.members.len() ==> !exact.contains(
                (#[trigger] g.members[m]).fingerprint,
            ) && us.contains(g.members[m])
        },
{
    let c = near_candidates(us, exact);
    let es = near_edges(c, t);
    let rep = classes_after(c.len(), es);
    lemma_near_candidates(us, exact);
    lemma_edges_below_reach(c, t, c.len() as int);
    lemma_groups_below(c, t, es, rep, c.len() as int);
    assert forall|k: int| 0 <= k < near_groups(us, exact, t).len() implies {
        let g = #[trigger] near_groups(us, exact, t)[k];
        &&& g.members.len() >= 2
        &&& t.spec_le(g.similarity)
        &&& forall|m: int| 0 <= m < g.members.len() ==> !exact.contains(
            (#[trigger] g.members[m]).fingerprint,
        ) && us.contains(g.members[m])
    } by {
        let g = near_groups(us, exact, t)[k];
        let r = choose|r: nat| g == near_group(c, t, es, rep, r) && class_of(rep, r, c.len() as int).len() > 1;
        let ps = class_of(rep, r, c.len() as int);
        lemma_class_of_range(rep, r, c.len() as int);
        lemma_lowest_score_reaches(es, rep, r, t);
        assert forall|m: int| 0 <= m < g.members.len() implies !exact.contains(
            (#[trigger] g.members[m]).fingerprint,
        ) && us.contains(g.members[m]) by {
            assert(g.members[m] == c[ps[m] as int]);
            assert(0 <= ps[m] < c.len());
            assert(c.contains(c[ps[m] as int]));
        }
    }
}

/// Every joined pair ends up in one class.
pub proof fn law_joined_pairs_share_class(n: nat, es: Seq<Edge>)
    requires
        forall|q: int| 0 <= q < es.len() ==> (#[trigger] es[q]).0 < n && es[q].1 < n,
    ensures
        forall|q: int|
            0 <= q < es.len() ==> classes_after(n, es)[(#[trigger] es[q]).0 as int] == classes_after(
                n,
                es,
            )[es[q].1 as int],
    decreases es.len(),
{
    if es.len() > 0 {
        let front = es.drop_last();
        law_joined_pairs_share_class(n, front);
        lemma_classes_after_len(n, front);
        let prev = classes_after(n, front);
        let e = es[es.len() - 1];
        assert forall|q: int| 0 <= q < es.len() implies classes_after(n, es)[(#[trigger] es[q]).0 as int]
            == classes_after(n, es)[es[q].1 as int] by {
            if q < front.len() {
                assert(front[q] == es[q]);
                assert(prev[es[q].0 as int] == prev[es[q].1 as int]);
            }
        }
    }
}

/// Any labelling that gives both members of every joined pair the same
/// label gives each element the label of its representative.
proof fn lemma_labels_follow_representatives<L>(n: nat, es: Seq<Edge>, f: spec_fn(nat) -> L)
    requires
        forall|q: int| 0 <= q < es.len() ==> (#[trigger] es[q]).0 < n && es[q].1 < n,
        forall|q: int| 0 <= q < es.len() ==> f((#[trigger] es[q]).0 as nat) == f(es[q].1 as nat),
    ensures
        forall|x: int| 0 <= x < n ==> f(x as nat) == f(#[trigger] classes_after(n, es)[x]),
    decreases es.len(),
{
    if es.len() > 0 {
        let front = es.drop_last();
        assert forall|q: int| 0 <= q < front.len() implies (#[trigger] front[q]).0 < n && front[q].1 < n
            && f(front[q].0 as nat) == f(front[q].1 as nat) by {
            assert(front[q] == es[q]);
        }
        lemma_labels_follow_representatives(n, front, f);
        lemma_classes_after_len(n, front);
        let e = es[es.len() - 1];
        assert(f(e.0 as nat) == f(e.1 as nat));
    }
}

/// The classes are the smallest that hold every joined pair together: a
/// labelling that agrees on the members of every joined pair agrees on any
/// two elements of one class.
pub proof fn law_classes_are_smallest<L>(n: nat, es: Seq<Edge>, f: spec_fn(nat) -> L)
    requires
        forall|q: int| 0 <= q < es.len() ==> (#[trigger] es[q]).0 < n && es[q].1 < n,
        forall|q: int| 0 <= q < es.len() ==> f((#[trigger] es[q]).0 as nat) == f(es[q].1 as nat),
    ensures
        forall|x: int, y: int|
            0 <= x < n && 0 <= y < n && #[trigger] classes_after(n, es)[x] == #[trigger] classes_after(
                n,
                es,
            )[y] ==> f(x as nat) == f(y as nat),
{
    lemma_labels_follow_representatives(n, es, f);
}


/// `<=` between fractions with positive denominators is transitive.
proof fn lemma_ratio_le_trans(a: Ratio, b: Ratio, c: Ratio)
    requires
        a.den > 0,
        b.den > 0,
        c.den > 0,
        a.spec_le(b),
        b.spec_le(c),
    ensures
        a.spec_le(c),
{
    let an = a.num as int;
    let ad = a.den as int;
    let bn = b.num as int;
    let bd = b.den as int;
    let cn = c.num as int;
    let cd = c.den as int;
    assert(an * cd * bd <= cn * ad * bd) by (nonlinear_arith)
        requires
            an * bd <= bn * ad,
            bn * cd <= cn * bd,
            ad > 0,
            cd > 0,
    ;
    assert(an * cd <= cn * ad) by (nonlinear_arith)
        requires
            an * cd * bd <= cn * ad * bd,
            bd > 0,
    ;
}

/// The score of two trees small enough to be compared has a positive
/// denominator.
proof fn lemma_score_den(a: crate::node::Tree, b: crate::node::Tree)
    requires
        2 * a.size() <= usize::MAX,
        2 * b.size() <= usize::MAX,
    ensures
        score_of(a, b).den > 0,
{
}

/// The lowest score of a class is at most the score of each pair whose
/// first member is in the class.
proof fn lemma_lowest_at_most(es: Seq<Edge>, rep: Seq<nat>, r: nat, q: int)
    requires
        0 <= q < es.len(),
        rep[es[q].0 as int] == r,
        forall|p: int| 0 <= p < es.len() ==> (#[trigger] es[p]).2.den > 0,
    ensures
        lowest_score(es, rep, r) matches Some(s) && s.spec_le(es[q].2),
    decreases es.len(),
{
    let n = es.len() - 1;
    let e = es[n];
    let front = es.drop_last();
    assert forall|p: int| 0 <= p < front.len() implies (#[trigger] front[p]).2.den > 0 by {
        assert(front[p] == es[p]);
    }
    lemma_lowest_score_den(front, rep, r);
    if q == n {
        match lowest_score(front, rep, r) {
            Some(m) => {
                if !m.spec_le(e.2) {
                    assert(e.2.num * e.2.den <= e.2.num * e.2.den);
                }
            },
            None => {
                assert(e.2.num * e.2.den <= e.2.num * e.2.den);
            },
        }
    } else {
        assert(front[q] == es[q]);
        lemma_lowest_at_most(front, rep, r, q);
        let m = lowest_score(front, rep, r)->0;
        if rep[e.0 as int] == r && !m.spec_le(e.2) {
            assert(e.2.spec_le(m));
            lemma_ratio_le_trans(e.2, m, es[q].2);
        }
    }
}

/// Every pair that joins, below the bound, is one of the pairs listed from
/// its first member.
proof fn lemma_edges_from_has(c: Seq<UnitView>, t: Ratio, i: int, j: int, k: int)
    requires
        0 <= i < j < k,
        joins(c, t, i, j),
    ensures
        exists|q: int|
            0 <= q < edges_from(c, t, i, k).len() && #[trigger] edges_from(c, t, i, k)[q] == (
                i as usize,
                j as usize,
                score_of(c[i].body, c[j].body),
            ),
    decreases k - i,
{
    let front = edges_from(c, t, i, k - 1);
    if j == k - 1 {
        assert(edges_from(c, t, i, k) == front.push(
            (i as usize, (k - 1) as usize, score_of(c[i].body, c[k - 1].body)),
        ));
        assert(edges_from(c, t, i, k)[front.len() as int] == (
            i as usize,
            j as usize,
            score_of(c[i].body, c[j].body),
        ));
    } else {
        lemma_edges_from_has(c, t, i, j, k - 1);
        let q = choose|q: int|
            0 <= q < front.len() && #[trigger] front[q] == (
                i as usize,
                j as usize,
                score_of(c[i].body, c[j].body),
            );
        if joins(c, t, i, k - 1) {
            assert(edges_from(c, t, i, k) == front.push(
                (i as usize, (k - 1) as usize, score_of(c[i].body, c[k - 1].body)),
            ));
            assert(edges_from(c, t, i, k)[q] == front[q]);
        } else {
            assert(edges_from(c, t, i, k) == front);
        }
    }
}

/// Every pair that joins and whose first member is below `m` is listed.
proof fn lemma_edges_below_has(c: Seq<UnitView>, t: Ratio, i: int, j: int, m: int)
    requires
        0 <= i < m,
        i < j < c.len(),
        joins(c, t, i, j),
    ensures
        exists|q: int|
            0 <= q < edges_below(c, t, m).len() && #[trigger] edges_below(c, t, m)[q] == (
                i as usize,
                j as usize,
                score_of(c[i].body, c[j].body),
            ),
    decreases m,
{
    let a = edges_below(c, t, m - 1);
    let b = edges_from(c, t, m - 1, c.len() as int);
    assert(edges_below(c, t, m) == a + b);
    if i == m - 1 {
        lemma_edges_from_has(c, t, i, j, c.len() as int);
        let q = choose|q: int|
            0 <= q < b.len() && #[trigger] b[q] == (i as usize, j as usize, score_of(c[i].body, c[j].body));
        assert((a + b)[a.len() + q] == b[q]);
    } else {
        lemma_edges_below_has(c, t, i, j, m - 1);
        let q = choose|q: int|
            0 <= q < a.len() && #[trigger] a[q] == (i as usize, j as usize, score_of(c[i].body, c[j].body));
        assert((a + b)[q] == a[q]);
    }
}

/// The pairs listed from a candidate have scores with positive
/// denominators when the candidates are small enough to be compared.
proof fn lemma_edges_from_den(c: Seq<UnitView>, t: Ratio, i: int, k: int)
    requires
        0 <= i,
        k <= c.len(),
        forall|p: int| 0 <= p < c.len() ==> 2 * (#[trigger] c[p]).body.size() <= usize::MAX,
    ensures
        forall|q: int| 0 <= q < edges_from(c, t, i, k).len() ==> (#[trigger] edges_from(c, t, i, k)[q]).2.den > 0,
    decreases k - i,
{
    if k > i + 1 {
        lemma_edges_from_den(c, t, i, k - 1);
        lemma_score_den(c[i].body, c[k - 1].body);
        let e = edges_from(c, t, i, k);
        let f = edges_from(c, t, i, k - 1);
        assert forall|q: int| 0 <= q < e.len() implies (#[trigger] e[q]).2.den > 0 by {
            if q < f.len() {
                assert(e[q] == f[q]);
            }
        }
    }
}

/// [`lemma_edges_from_den`] for the pairs below a bound.
proof fn lemma_edges_below_den(c: Seq<UnitView>, t: Ratio, m: int)
    requires
        m <= c.len(),
        forall|p: int| 0 <= p < c.len() ==> 2 * (#[trigger] c[p]).body.size() <= usize::MAX,
    ensures
        forall|q: int| 0 <= q < edges_below(c, t, m).len() ==> (#[trigger] edges_below(c, t, m)[q]).2.den > 0,
    decreases m,
{
    if m > 0 {
        lemma_edges_below_den(c, t, m - 1);
        lemma_edges_from_den(c, t, m - 1, c.len() as int);
        let a = edges_below(c, t, m - 1);
        let b = edges_from(c, t, m - 1, c.len() as int);
        assert forall|q: int| 0 <= q < (a + b).len() implies (#[trigger] (a + b)[q]).2.den > 0 by {
            if q < a.len() {
                assert((a + b)[q] == a[q]);
            } else {
                assert((a + b)[q] == b[q - a.len()]);
            }
        }
    }
}

/// The members of a class are in it, ascending, and below the bound.
proof fn lemma_class_of_members(rep: Seq<nat>, r: nat, k: int)
    requires
        k <= usize::MAX,
    ensures
        forall|i: int| 0 <= i < class_of(rep, r, k).len() ==> rep[(#[trigger] class_of(rep, r, k)[i]) as int] == r
            && class_of(rep, r, k)[i] < k,
        forall|i: int, j: int| 0 <= i < j < class_of(rep, r, k).len() ==> #[trigger] class_of(rep, r, k)[i]
            < #[trigger] class_of(rep, r, k)[j],
    decreases k,
{
    if k > 0 {
        lemma_class_of_members(rep, r, k - 1);
        let f = class_of(rep, r, k - 1);
        let g = class_of(rep, r, k);
        if rep[k - 1] == r {
            assert(g == f.push((k - 1) as usize));
            assert forall|i: int| 0 <= i < g.len() implies rep[(#[trigger] g[i]) as int] == r && g[i] < k by {
                if i < f.len() {
                    assert(g[i] == f[i]);
                }
            }
            assert forall|i: int, j: int| 0 <= i < j < g.len() implies #[trigger] g[i] < #[trigger] g[j] by {
                assert(g[i] == f[i]);
                if j < f.len() {
                    assert(g[j] == f[j]);
                }
            }
        }
    }
}

/// There are no more candidates than units.
proof fn lemma_candidates_len(us: Seq<UnitView>, exact: Seq<Fingerprint>)
    ensures
        near_candidates(us, exact).len() <= us.len(),
    decreases us.len(),
{
    if us.len() > 0 {
        lemma_candidates_len(us.drop_last(), exact);
    }
}

/// Each pair listed from a candidate joins it with a later candidate and
/// carries their score.
proof fn lemma_edges_from_shape(c: Seq<UnitView>, t: Ratio, i: int, k: int)
    requires
        0 <= i,
        k <= c.len() <= usize::MAX,
    ensures
        forall|q: int| 0 <= q < edges_from(c, t, i, k).len() ==> {
            let e = #[trigger] edges_from(c, t, i, k)[q];
            &&& e.0 == i
            &&& i < e.1 < c.len()
            &&& joins(c, t, e.0 as int, e.1 as int)
            &&& e.2 == score_of(c[e.0 as int].body, c[e.1 as int].body)
        },
    decreases k - i,
{
    if k > i + 1 {
        lemma_edges_from_shape(c, t, i, k - 1);
        let f = edges_from(c, t, i, k - 1);
        if joins(c, t, i, k - 1) {
            assert(edges_from(c, t, i, k) == f.push(
                (i as usize, (k - 1) as usize, score_of(c[i].body, c[k - 1].body)),
            ));
        } else {
            assert(edges_from(c, t, i, k) == f);
        }
        let e = edges_from(c, t, i, k);
        assert forall|q: int| 0 <= q < e.len() implies {
            let x = #[trigger] e[q];
            &&& x.0 == i
            &&& i < x.1 < c.len()
            &&& joins(c, t, x.0 as int, x.1 as int)
            &&& x.2 == score_of(c[x.0 as int].body, c[x.1 as int].body)
        } by {
            if q < f.len() {
                assert(e[q] == f[q]);
            }
        }
    }
}

/// Every listed pair joins two candidates, the first before the second,
/// and carries their score.
proof fn lemma_edges_below_shape(c: Seq<UnitView>, t: Ratio, m: int)
    requires
        m <= c.len() <= usize::MAX,
    ensures
        forall|q: int| 0 <= q < edges_below(c, t, m).len() ==> {
            let e = #[trigger] edges_below(c, t, m)[q];
            &&& e.0 < e.1 < c.len()
            &&& joins(c, t, e.0 as int, e.1 as int)
            &&& e.2 == score_of(c[e.0 as int].body, c[e.1 as int].body)
        },
    decreases m,
{
    if m > 0 {
        lemma_edges_below_shape(c, t, m - 1);
        lemma_edges_from_shape(c, t, m - 1, c.len() as int);
        let a = edges_below(c, t, m - 1);
        let b = edges_from(c, t, m - 1, c.len() as int);
        assert forall|q: int| 0 <= q < (a + b).len() implies {
            let e = #[trigger] (a + b)[q];
            &&& e.0 < e.1 < c.len()
            &&& joins(c, t, e.0 as int, e.1 as int)
            &&& e.2 == score_of(c[e.0 as int].body, c[e.1 as int].body)
        } by {
            if q < a.len() {
                assert((a + b)[q] == a[q]);
            } else {
                assert((a + b)[q] == b[q - a.len()]);
            }
        }
    }
}

/// The lowest score of a class is the score of one of its pairs.
proof fn lemma_lowest_is_an_edge(es: Seq<Edge>, rep: Seq<nat>, r: nat)
    ensures
        lowest_score(es, rep, r) matches Some(s) ==> exists|q: int|
            0 <= q < es.len() && rep[(#[trigger] es[q]).0 as int] == r && es[q].2 == s,
    decreases es.len(),
{
    if es.len() > 0 {
        let front = es.drop_last();
        lemma_lowest_is_an_edge(front, rep, r);
        if lowest_score(es, rep, r) != lowest_score(front, rep, r) {
            assert(es[es.len() - 1].2 == lowest_score(es, rep, r)->0);
        } else if let Some(s) = lowest_score(front, rep, r) {
            let q = choose|q: int| 0 <= q < front.len() && rep[(#[trigger] front[q]).0 as int] == r && front[q].2 == s;
            assert(es[q] == front[q]);
        }
    }
}

/// Every element below the bound whose representative is `r` is listed.
proof fn lemma_class_of_complete(rep: Seq<nat>, r: nat, k: int, p: int)
    requires
        0 <= p < k <= usize::MAX,
        rep[p] == r,
    ensures
        exists|a: int| 0 <= a < class_of(rep, r, k).len() && #[trigger] class_of(rep, r, k)[a] == p,
    decreases k,
{
    let f = class_of(rep, r, k - 1);
    if p == k - 1 {
        assert(class_of(rep, r, k)[f.len() as int] == p);
    } else {
        lemma_class_of_complete(rep, r, k - 1, p);
        let a = choose|a: int| 0 <= a < f.len() && #[trigger] f[a] == p;
        if rep[k - 1] == r {
            assert(class_of(rep, r, k)[a] == f[a]);
        } else {
            assert(class_of(rep, r, k) == f);
        }
    }
}

/// The similarity of a group is the score of one pair of its members that
/// was joined.
pub open spec fn is_a_joined_score(g: GroupView, t: Ratio) -> bool {
    exists|a: int, b: int|
        0 <= a < b < g.members.len() && joins(g.members, t, a, b) && g.similarity == #[trigger] score_of(
            g.members[a].body,
            g.members[b].body,
        )
}

/// Whether some pair of the group's members was joined.
pub open spec fn has_joined_pair(g: GroupView, t: Ratio) -> bool {
    exists|a: int, b: int| 0 <= a < b < g.members.len() && #[trigger] joins(g.members, t, a, b)
}

/// The similarity of a group is at most the score of each pair of its
/// members that was joined.
pub open spec fn at_most_each_joined_score(g: GroupView, t: Ratio) -> bool {
    forall|a: int, b: int|
        0 <= a < b < g.members.len() && joins(g.members, t, a, b) ==> g.similarity.spec_le(
            #[trigger] score_of(g.members[a].body, g.members[b].body),
        )
}

/// The similarity reported for a near-duplicate group is its weakest link:
/// at most the score of every pair of its members of one kind and size
/// class whose score reaches the threshold, and the score of one such pair.
/// Units are small enough to be compared and fit in memory.
pub proof fn law_group_similarity_is_at_most_each_joined_score(
    us: Seq<UnitView>,
    exact: Seq<Fingerprint>,
    t: Ratio,
)
    requires
        us.len() <= usize::MAX,
        forall|k: int| 0 <= k < us.len() ==> 2 * (#[trigger] us[k]).body.size() <= usize::MAX,
    ensures
        forall|k: int|
            0 <= k < near_groups(us, exact, t).len() ==> at_most_each_joined_score(
                #[trigger] near_groups(us, exact, t)[k],
                t,
            ),
        forall|k: int|
            0 <= k < near_groups(us, exact, t).len() && has_joined_pair(
                #[trigger] near_groups(us, exact, t)[k],
                t,
            ) ==> is_a_joined_score(near_groups(us, exact, t)[k], t),
{
    let c = near_candidates(us, exact);
    let es = near_edges(c, t);
    let rep = classes_after(c.len(), es);
    lemma_candidates_len(us, exact);
    lemma_candidates_bounded(us, exact);
    assert forall|p: int| 0 <= p < c.len() implies 2 * (#[trigger] c[p]).body.size() <= usize::MAX by {
        let q = choose|q: int| 0 <= q < us.len() && us[q] == c[p];
    }
    lemma_edges_below_den(c, t, c.len() as int);
    lemma_groups_below(c, t, es, rep, c.len() as int);
    assert forall|k: int| 0 <= k < near_groups(us, exact, t).len() implies at_most_each_joined_score(
        #[trigger] near_groups(us, exact, t)[k],
        t,
    ) by {
        let g = near_groups(us, exact, t)[k];
        let r = choose|r: nat| g == near_group(c, t, es, rep, r) && class_of(rep, r, c.len() as int).len() > 1;
        let ps = class_of(rep, r, c.len() as int);
        lemma_class_of_members(rep, r, c.len() as int);
        assert forall|a: int, b: int|
            0 <= a < b < g.members.len() && joins(g.members, t, a, b) implies g.similarity.spec_le(
            #[trigger] score_of(g.members[a].body, g.members[b].body),
        ) by {
            let i = ps[a] as int;
            let j = ps[b] as int;
            assert(g.members[a] == c[i]);
            assert(g.members[b] == c[j]);
            assert(i < j);
            lemma_edges_below_has(c, t, i, j, c.len() as int);
            let q = choose|q: int|
                0 <= q < es.len() && #[trigger] es[q] == (i as usize, j as usize, score_of(c[i].body, c[j].body));
            lemma_lowest_at_most(es, rep, r, q);
        }
    }
    lemma_edges_below_shape(c, t, c.len() as int);
    lemma_classes_after_len(c.len(), es);
    law_joined_pairs_share_class(c.len(), es);
    assert forall|k: int|
        0 <= k < near_groups(us, exact, t).len() && has_joined_pair(
            #[trigger] near_groups(us, exact, t)[k],
            t,
        ) implies is_a_joined_score(near_groups(us, exact, t)[k], t) by {
        let g = near_groups(us, exact, t)[k];
        let r = choose|r: nat| g == near_group(c, t, es, rep, r) && class_of(rep, r, c.len() as int).len() > 1;
        let ps = class_of(rep, r, c.len() as int);
        lemma_class_of_members(rep, r, c.len() as int);
        let (a0, b0) = choose|a: int, b: int| 0 <= a < b < g.members.len() && #[trigger] joins(g.members, t, a, b);
        let i0 = ps[a0] as int;
        let j0 = ps[b0] as int;
        assert(g.members[a0] == c[i0]);
        assert(g.members[b0] == c[j0]);
        lemma_edges_below_has(c, t, i0, j0, c.len() as int);
        let q0 = choose|q: int|
            0 <= q < es.len() && #[trigger] es[q] == (i0 as usize, j0 as usize, score_of(c[i0].body, c[j0].body));
        lemma_lowest_at_most(es, rep, r, q0);
        lemma_lowest_is_an_edge(es, rep, r);
        let s = lowest_score(es, rep, r)->0;
        let q = choose|q: int| 0 <= q < es.len() && rep[(#[trigger] es[q]).0 as int] == r && es[q].2 == s;
        let e = es[q];
        let i = e.0 as int;
        let j = e.1 as int;
        assert(rep[j] == r);
        lemma_class_of_complete(rep, r, c.len() as int, i);
        lemma_class_of_complete(rep, r, c.len() as int, j);
        let a = choose|a: int| 0 <= a < ps.len() && #[trigger] ps[a] == i;
        let b = choose|b: int| 0 <= b < ps.len() && #[trigger] ps[b] == j;
        if b <= a {
            if b < a {
                assert(ps[b] < ps[a]);
            }
        }
        assert(a < b);
        assert(g.members[a] == c[i]);
        assert(g.members[b] == c[j]);
        assert(g.similarity == score_of(g.members[a].body, g.members[b].body));
    }
}

/// Whether all members of a group are of one kind and one size class.
pub open spec fn members_alike(g: GroupView) -> bool {
    forall|a: int, b: int|
        0 <= a < g.members.len() && 0 <= b < g.members.len() ==> (#[trigger] g.members[a]).kind == (
        #[trigger] g.members[b]).kind && size_bucket(g.members[a].node_count) == size_bucket(
            g.members[b].node_count,
        )
}

/// Units are compared only within one kind and one size class, and joining
/// is transitive, so all members of a near-duplicate group are of one kind
/// and one size class.
pub proof fn law_group_members_share_kind_and_size(us: Seq<UnitView>, exact: Seq<Fingerprint>, t: Ratio)
    requires
        us.len() <= usize::MAX,
    ensures
        forall|k: int|
            0 <= k < near_groups(us, exact, t).len() ==> members_alike(#[trigger] near_groups(us, exact, t)[k]),
{
    let c = near_candidates(us, exact);
    let es = near_edges(c, t);
    let rep = classes_after(c.len(), es);
    lemma_candidates_len(us, exact);
    lemma_edges_below_shape(c, t, c.len() as int);
    lemma_classes_after_len(c.len(), es);
    lemma_groups_below(c, t, es, rep, c.len() as int);
    let f = |x: nat| (c[x as int].kind, size_bucket(c[x as int].node_count));
    assert forall|q: int| 0 <= q < es.len() implies f((#[trigger] es[q]).0 as nat) == f(es[q].1 as nat) by {
        assert(joins(c, t, es[q].0 as int, es[q].1 as int));
    }
    law_classes_are_smallest(c.len(), es, f);
    assert forall|k: int| 0 <= k < near_groups(us, exact, t).len() implies members_alike(
        #[trigger] near_groups(us, exact, t)[k],
    ) by {
        let g = near_groups(us, exact, t)[k];
        let r = choose|r: nat| g == near_group(c, t, es, rep, r) && class_of(rep, r, c.len() as int).len() > 1;
        let ps = class_of(rep, r, c.len() as int);
        lemma_class_of_members(rep, r, c.len() as int);
        assert forall|a: int, b: int| 0 <= a < g.members.len() && 0 <= b < g.members.len() implies (
        #[trigger] g.members[a]).kind == (#[trigger] g.members[b]).kind && size_bucket(
            g.members[a].node_count,
        ) == size_bucket(g.members[b].node_count) by {
            let i = ps[a] as int;
            let j = ps[b] as int;
            assert(g.members[a] == c[i]);
            assert(g.members[b] == c[j]);
            assert(rep[i] == rep[j]);
            assert(f(i as nat) == f(j as nat));
        }
    }
}

/// Representatives are elements.
proof fn lemma_classes_after_range(n: nat, es: Seq<Edge>)
    requires
        forall|q: int| 0 <= q < es.len() ==> (#[trigger] es[q]).0 < n && es[q].1 < n,
    ensures
        classes_after(n, es).len() == n,
        forall|x: int| 0 <= x < n ==> #[trigger] classes_after(n, es)[x] < n,
    decreases es.len(),
{
    if es.len() > 0 {
        let front = es.drop_last();
        assert forall|q: int| 0 <= q < front.len() implies (#[trigger] front[q]).0 < n && front[q].1 < n by {
            assert(front[q] == es[q]);
        }
        lemma_classes_after_range(n, front);
    }
}

/// Every class of more than one member below the bound has its group.
proof fn lemma_groups_below_has(c: Seq<UnitView>, t: Ratio, es: Seq<Edge>, rep: Seq<nat>, k: int, r: nat)
    requires
        r < k,
        class_of(rep, r, c.len() as int).len() > 1,
    ensures
        exists|q: int|
            0 <= q < groups_below(c, t, es, rep, k).len() && #[trigger] groups_below(c, t, es, rep, k)[q]
                == near_group(c, t, es, rep, r),
    decreases k,
{
    let f = groups_below(c, t, es, rep, k - 1);
    if r == k - 1 {
        assert(groups_below(c, t, es, rep, k)[f.len() as int] == near_group(c, t, es, rep, r));
    } else {
        lemma_groups_below_has(c, t, es, rep, k - 1, r);
        let q = choose|q: int| 0 <= q < f.len() && #[trigger] f[q] == near_group(c, t, es, rep, r);
        if class_of(rep, (k - 1) as nat, c.len() as int).len() > 1 {
            assert(groups_below(c, t, es, rep, k)[q] == f[q]);
        } else {
            assert(groups_below(c, t, es, rep, k) == f);
        }
    }
}

/// Any two candidates (units that are not exact duplicates) of one kind and
/// size class whose score reaches the threshold end up in one near-duplicate
/// group.
pub proof fn law_joined_candidates_are_grouped(us: Seq<UnitView>, exact: Seq<Fingerprint>, t: Ratio, i: int, j: int)
    requires
        us.len() <= usize::MAX,
        0 <= i < j < near_candidates(us, exact).len(),
        near_candidates(us, exact)[i].kind == near_candidates(us, exact)[j].kind,
        size_bucket(near_candidates(us, exact)[i].node_count) == size_bucket(near_candidates(us, exact)[j].node_count),
        t.spec_le(score_of(near_candidates(us, exact)[i].body, near_candidates(us, exact)[j].body)),
    ensures
        exists|k: int|
            0 <= k < near_groups(us, exact, t).len() && (#[trigger] near_groups(us, exact, t)[k]).members.contains(
                near_candidates(us, exact)[i],
            ) && near_groups(us, exact, t)[k].members.contains(near_candidates(us, exact)[j]),
{
    let c = near_candidates(us, exact);
    let es = near_edges(c, t);
    let rep = classes_after(c.len(), es);
    lemma_candidates_len(us, exact);
    lemma_edges_below_shape(c, t, c.len() as int);
    lemma_edges_below_has(c, t, i, j, c.len() as int);
    lemma_classes_after_range(c.len(), es);
    law_joined_pairs_share_class(c.len(), es);
    let q = choose|q: int|
        0 <= q < es.len() && #[trigger] es[q] == (i as usize, j as usize, score_of(c[i].body, c[j].body));
    assert(rep[i] == rep[j]);
    let r = rep[i];
    lemma_class_of_complete(rep, r, c.len() as int, i);
    lemma_class_of_complete(rep, r, c.len() as int, j);
    let ps = class_of(rep, r, c.len() as int);
    let a = choose|a: int| 0 <= a < ps.len() && #[trigger] ps[a] == i;
    let b = choose|b: int| 0 <= b < ps.len() && #[trigger] ps[b] == j;
    assert(a != b);
    assert(ps.len() > 1);
    lemma_groups_below_has(c, t, es, rep, c.len() as int, r);
    let k = choose|k: int|
        0 <= k < groups_below(c, t, es, rep, c.len() as int).len() && #[trigger] groups_below(
            c,
            t,
            es,
            rep,
            c.len() as int,
        )[k] == near_group(c, t, es, rep, r);
    let g = near_group(c, t, es, rep, r);
    assert(g.members[a] == c[i]);
    assert(g.members[b] == c[j]);
    assert(near_groups(us, exact, t)[k] == g);
}

} // verus!
