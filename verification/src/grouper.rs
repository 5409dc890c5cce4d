//! Grouping of code units into exact and near duplicates, and the
//! statistics of a run.
use vstd::prelude::*;
use vstd::relations::sorted_by;

use crate::code_unit::{CodeUnit, UnitView};
use crate::fingerprint::Fingerprint;
use crate::similarity::Ratio;

pub use crate::near_groups::find_near_duplicates;

verus! {

/// A group of duplicate code units.
#[derive(Debug)]
pub struct DuplicateGroup {
    /// The shared fingerprint of exact duplicates, or for near duplicates a
    /// composite of the members' fingerprints.
    pub fingerprint: Fingerprint,
    /// The code units in this group.
    pub members: Vec<CodeUnit>,
    /// The similarity of the group: one for exact duplicates, for near
    /// duplicates the lowest score of the pairs that joined it.
    pub similarity: Ratio,
}

/// The mathematical value of a [`DuplicateGroup`].
pub struct GroupView {
    pub fingerprint: Fingerprint,
    pub members: Seq<UnitView>,
    pub similarity: Ratio,
}

/// The values of a sequence of code units.
pub open spec fn unit_views(us: Seq<CodeUnit>) -> Seq<UnitView> {
    us.map_values(|u: CodeUnit| u@)
}

impl View for DuplicateGroup {
    type V = GroupView;

    open spec fn view(&self) -> GroupView {
        GroupView {
            fingerprint: self.fingerprint,
            members: unit_views(self.members@),
            similarity: self.similarity,
        }
    }
}

/// The values of a sequence of groups.
pub open spec fn group_views(gs: Seq<DuplicateGroup>) -> Seq<GroupView> {
    gs.map_values(|g: DuplicateGroup| g@)
}

/// The similarity of an exact group.
pub open spec fn one() -> Ratio {
    Ratio { num: 1, den: 1 }
}

/// The units with the given fingerprint, in their order.
pub open spec fn units_with(us: Seq<UnitView>, f: Fingerprint) -> Seq<UnitView>
    decreases us.len(),
{
    if us.len() == 0 {
        Seq::empty()
    } else {
        let front = units_with(us.drop_last(), f);
        if us[us.len() - 1].fingerprint == f {
            front.push(us[us.len() - 1])
        } else {
            front
        }
    }
}

/// The distinct fingerprints of the units, in order of first occurrence.
pub open spec fn fingerprints_of(us: Seq<UnitView>) -> Seq<Fingerprint>
    decreases us.len(),
{
    if us.len() == 0 {
        Seq::empty()
    } else {
        let front = fingerprints_of(us.drop_last());
        if front.contains(us[us.len() - 1].fingerprint) {
            front
        } else {
            front.push(us[us.len() - 1].fingerprint)
        }
    }
}

/// The exact-duplicate groups before ordering: for each fingerprint shared
/// by more than one unit, those units, in order of first occurrence.
pub open spec fn exact_candidates(us: Seq<UnitView>) -> Seq<GroupView>
    decreases us.len(),
{
    groups_for(us, fingerprints_of(us))
}

/// The groups of the given fingerprints that have more than one member.
pub open spec fn groups_for(us: Seq<UnitView>, fs: Seq<Fingerprint>) -> Seq<GroupView>
    decreases fs.len(),
{
    if fs.len() == 0 {
        Seq::empty()
    } else {
        let front = groups_for(us, fs.drop_last());
        let f = fs[fs.len() - 1];
        if units_with(us, f).len() > 1 {
            front.push(GroupView { fingerprint: f, members: units_with(us, f), similarity: one() })
        } else {
            front
        }
    }
}

/// The units with a fingerprint all have it, come from the units, and
/// take in every unit that has it.
proof fn lemma_units_with(us: Seq<UnitView>, f: Fingerprint)
    ensures
        forall|k: int| 0 <= k < units_with(us, f).len() ==> (#[trigger] units_with(us, f)[k]).fingerprint == f,
        forall|k: int| 0 <= k < units_with(us, f).len() ==> us.contains(#[trigger] units_with(us, f)[k]),
        forall|i: int| 0 <= i < us.len() && us[i].fingerprint == f ==> #[trigger] units_with(us, f).contains(us[i]),
    decreases us.len(),
{
    if us.len() > 0 {
        let front = us.drop_last();
        lemma_units_with(front, f);
        let r = units_with(us, f);
        let rf = units_with(front, f);
        assert forall|k: int| 0 <= k < r.len() implies us.contains(#[trigger] r[k]) by {
            if k < rf.len() {
                assert(r[k] == rf[k]);
                assert(front.contains(rf[k]));
                let j = choose|j: int| 0 <= j < front.len() && front[j] == rf[k];
                assert(us[j] == r[k]);
            } else {
                assert(r[k] == us[us.len() - 1]);
            }
        }
        assert forall|i: int| 0 <= i < us.len() && us[i].fingerprint == f implies #[trigger] r.contains(us[i]) by {
            if i < us.len() - 1 {
                assert(front[i] == us[i]);
                assert(rf.contains(front[i]));
                let k = choose|k: int| 0 <= k < rf.len() && rf[k] == front[i];
                assert(r[k] == us[i]);
            } else {
                assert(r[r.len() - 1] == us[i]);
            }
        }
    }
}

/// Two units with one fingerprint give it at least two members.
proof fn lemma_units_with_two(us: Seq<UnitView>, f: Fingerprint, i: int, j: int)
    requires
        0 <= i < j < us.len(),
        us[i].fingerprint == f,
        us[j].fingerprint == f,
    ensures
        units_with(us, f).len() >= 2,
    decreases us.len(),
{
    let front = us.drop_last();
    if j < us.len() - 1 {
        lemma_units_with_two(front, f, i, j);
    } else {
        lemma_units_with(front, f);
        assert(front[i] == us[i]);
        assert(units_with(front, f).contains(front[i]));
    }
}

/// Every unit's fingerprint is among the distinct fingerprints.
proof fn lemma_fingerprints_of(us: Seq<UnitView>)
    ensures
        forall|i: int| 0 <= i < us.len() ==> #[trigger] fingerprints_of(us).contains(us[i].fingerprint),
    decreases us.len(),
{
    if us.len() > 0 {
        let front = us.drop_last();
        lemma_fingerprints_of(front);
        let r = fingerprints_of(us);
        let rf = fingerprints_of(front);
        assert forall|i: int| 0 <= i < us.len() implies #[trigger] r.contains(us[i].fingerprint) by {
            if i < us.len() - 1 {
                assert(front[i] == us[i]);
                assert(rf.contains(front[i].fingerprint));
                let k = choose|k: int| 0 <= k < rf.len() && rf[k] == front[i].fingerprint;
                assert(r[k] == rf[k]);
            } else if !rf.contains(us[i].fingerprint) {
                assert(r[r.len() - 1] == us[i].fingerprint);
            }
        }
    }
}

/// Each group of the given fingerprints holds the units with its
/// fingerprint, more than one; and each listed fingerprint with more than
/// one unit has a group.
proof fn lemma_groups_for(us: Seq<UnitView>, fs: Seq<Fingerprint>)
    ensures
        forall|k: int| 0 <= k < groups_for(us, fs).len() ==> {
            let g = #[trigger] groups_for(us, fs)[k];
            &&& g.members == units_with(us, g.fingerprint)
            &&& g.members.len() > 1
            &&& g.similarity == one()
        },
        forall|f: Fingerprint| fs.contains(f) && units_with(us, f).len() > 1 ==> exists|k: int|
            0 <= k < groups_for(us, fs).len() && (#[trigger] groups_for(us, fs)[k]).fingerprint == f,
    decreases fs.len(),
{
    if fs.len() > 0 {
        let front = fs.drop_last();
        lemma_groups_for(us, front);
        let r = groups_for(us, fs);
        let rf = groups_for(us, front);
        let last = fs[fs.len() - 1];
        assert forall|f: Fingerprint| fs.contains(f) && units_with(us, f).len() > 1 implies exists|k: int|
            0 <= k < r.len() && (#[trigger] r[k]).fingerprint == f by {
            let i = choose|i: int| 0 <= i < fs.len() && fs[i] == f;
            if i < fs.len() - 1 {
                assert(front[i] == f);
                assert(front.contains(f));
                let k = choose|k: int| 0 <= k < rf.len() && (#[trigger] rf[k]).fingerprint == f;
                assert(r[k] == rf[k]);
            } else {
                assert(r[r.len() - 1].fingerprint == f);
            }
        }
    }
}

/// Every exact-duplicate group has at least two members, all of them units
/// of the run with the group's fingerprint.
pub proof fn law_exact_groups_are_duplicates(us: Seq<UnitView>)
    ensures
        forall|k: int| 0 <= k < exact_candidates(us).len() ==> {
            let g = #[trigger] exact_candidates(us)[k];
            &&& g.members.len() >= 2
            &&& forall|m: int| 0 <= m < g.members.len() ==> (#[trigger] g.members[m]).fingerprint == g.fingerprint
                && us.contains(g.members[m])
        },
{
    lemma_groups_for(us, fingerprints_of(us));
    assert forall|k: int| 0 <= k < exact_candidates(us).len() implies {
        let g = #[trigger] exact_candidates(us)[k];
        &&& g.members.len() >= 2
        &&& forall|m: int| 0 <= m < g.members.len() ==> (#[trigger] g.members[m]).fingerprint == g.fingerprint
            && us.contains(g.members[m])
    } by {
        let g = exact_candidates(us)[k];
        lemma_units_with(us, g.fingerprint);
    }
}

/// Two units with one fingerprint are reported together: some exact group
/// has that fingerprint and holds both.
pub proof fn law_duplicates_are_grouped(us: Seq<UnitView>, i: int, j: int)
    requires
        0 <= i < j < us.len(),
        us[i].fingerprint == us[j].fingerprint,
    ensures
        exists|k: int| 0 <= k < exact_candidates(us).len() && {
            let g = #[trigger] exact_candidates(us)[k];
            &&& g.fingerprint == us[i].fingerprint
            &&& g.members.contains(us[i])
            &&& g.members.contains(us[j])
        },
{
    let f = us[i].fingerprint;
    lemma_fingerprints_of(us);
    assert(fingerprints_of(us).contains(us[i].fingerprint));
    lemma_units_with_two(us, f, i, j);
    lemma_groups_for(us, fingerprints_of(us));
    lemma_units_with(us, f);
    let k = choose|k: int| 0 <= k < exact_candidates(us).len() && (#[trigger] exact_candidates(us)[k]).fingerprint == f;
    assert(units_with(us, f).contains(us[i]));
    assert(units_with(us, f).contains(us[j]));
    assert(exact_candidates(us)[k].members == units_with(us, f));
}

/// Whether `a` may come before `b` in a report: larger groups first, then
/// the more similar, then ascending fingerprint.
pub open spec fn precedes(a: GroupView, b: GroupView) -> bool {
    ||| a.members.len() > b.members.len()
    ||| a.members.len() == b.members.len() && !a.similarity.spec_le(b.similarity)
    ||| a.members.len() == b.members.len() && a.similarity.spec_le(b.similarity)
        && b.similarity.spec_le(a.similarity) && a.fingerprint.0 <= b.fingerprint.0
}

/// [`precedes`] as a relation.
pub open spec fn report_order() -> spec_fn(GroupView, GroupView) -> bool {
    |a: GroupView, b: GroupView| precedes(a, b)
}

/// Comparing fractions with positive denominators is transitive.
proof fn lemma_ratio_le_transitive(a: Ratio, b: Ratio, c: Ratio)
    requires
        a.den > 0,
        b.den > 0,
        c.den > 0,
        a.spec_le(b),
        b.spec_le(c),
    ensures
        a.spec_le(c),
{
    let (an, ad, bn, bd, cn, cd) = (
        a.num as int,
        a.den as int,
        b.num as int,
        b.den as int,
        c.num as int,
        c.den as int,
    );
    assert(an * cd <= cn * ad) by (nonlinear_arith)
        requires
            an * bd <= bn * ad,
            bn * cd <= cn * bd,
            ad > 0,
            bd > 0,
            cd > 0,
            an >= 0,
            bn >= 0,
            cn >= 0,
    {
        assert(an * bd * cd <= bn * ad * cd);
        assert(bn * cd * ad <= cn * bd * ad);
        assert(an * cd * bd <= cn * ad * bd);
    }
}

/// Comparing fractions is total.
proof fn lemma_ratio_le_total(a: Ratio, b: Ratio)
    ensures
        a.spec_le(b) || b.spec_le(a),
{
}

/// The report order is transitive on groups with positive denominators.
proof fn lemma_precedes_transitive(a: GroupView, b: GroupView, c: GroupView)
    requires
        a.similarity.den > 0,
        b.similarity.den > 0,
        c.similarity.den > 0,
        precedes(a, b),
        precedes(b, c),
    ensures
        precedes(a, c),
{
    lemma_ratio_le_all_orders(a.similarity, b.similarity, c.similarity);
}

/// Every chain of two comparisons among three fractions composes.
proof fn lemma_ratio_le_all_orders(x: Ratio, y: Ratio, z: Ratio)
    requires
        x.den > 0,
        y.den > 0,
        z.den > 0,
    ensures
        x.spec_le(y) && y.spec_le(z) ==> x.spec_le(z),
        x.spec_le(z) && z.spec_le(y) ==> x.spec_le(y),
        y.spec_le(x) && x.spec_le(z) ==> y.spec_le(z),
        y.spec_le(z) && z.spec_le(x) ==> y.spec_le(x),
        z.spec_le(x) && x.spec_le(y) ==> z.spec_le(y),
        z.spec_le(y) && y.spec_le(x) ==> z.spec_le(x),
        x.spec_le(y) || y.spec_le(x),
        y.spec_le(z) || z.spec_le(y),
        x.spec_le(z) || z.spec_le(x),
{
    if x.spec_le(y) && y.spec_le(z) {
        lemma_ratio_le_transitive(x, y, z);
    }
    if x.spec_le(z) && z.spec_le(y) {
        lemma_ratio_le_transitive(x, z, y);
    }
    if y.spec_le(x) && x.spec_le(z) {
        lemma_ratio_le_transitive(y, x, z);
    }
    if y.spec_le(z) && z.spec_le(x) {
        lemma_ratio_le_transitive(y, z, x);
    }
    if z.spec_le(x) && x.spec_le(y) {
        lemma_ratio_le_transitive(z, x, y);
    }
    if z.spec_le(y) && y.spec_le(x) {
        lemma_ratio_le_transitive(z, y, x);
    }
}

/// Decides [`precedes`].
fn group_precedes(a: &DuplicateGroup, b: &DuplicateGroup) -> (r: bool)
    ensures
        r == precedes(a@, b@),
{
    let la = a.members.len();
    let lb = b.members.len();
    if la != lb {
        return la > lb;
    }
    let ab = a.similarity.le(&b.similarity);
    let ba = b.similarity.le(&a.similarity);
    !ab || (ba && a.fingerprint.0 <= b.fingerprint.0)
}

/// Inserts a group after every group that precedes it, and says where.
pub(crate) fn insert_in_order(out: &mut Vec<DuplicateGroup>, g: DuplicateGroup) -> (pos: usize)
    requires
        sorted_by(group_views(old(out)@), report_order()),
        forall|k: int| 0 <= k < old(out)@.len() ==> #[trigger] old(out)@[k].similarity.den > 0,
        g.similarity.den > 0,
    ensures
        sorted_by(group_views(final(out)@), report_order()),
        forall|k: int| 0 <= k < final(out)@.len() ==> #[trigger] final(out)@[k].similarity.den > 0,
        group_views(final(out)@).to_multiset() == group_views(old(out)@).to_multiset().insert(
            g@,
        ),
        pos <= old(out)@.len(),
        final(out)@ == old(out)@.insert(pos as int, g),
{
    let ghost before = group_views(out@);
    let m = out.len();
    let mut pos: usize = 0;
    while pos < m && group_precedes(&out[pos], &g)
        invariant
            m == out@.len(),
            pos <= m,
            before == group_views(out@),
            forall|k: int| 0 <= k < pos ==> precedes(#[trigger] before[k], g@),
        decreases m - pos,
    {
        pos = pos + 1;
    }
    let ghost gv = g@;
    out.insert(pos, g);
    proof {
        let after = group_views(out@);
        assert(after =~= before.insert(pos as int, gv));
        vstd::seq_lib::to_multiset_insert(before, pos as int, gv);
        if pos < m {
            lemma_ratio_le_total(before[pos as int].similarity, gv.similarity);
            assert(precedes(gv, before[pos as int]));
        }
        assert forall|a: int, b: int| 0 <= a < b < after.len() implies #[trigger] (report_order())(
            after[a],
            after[b],
        ) by {
            assert(after[a].similarity.den > 0) by {
                if a != pos as int {
                    let k = if a < pos {
                        a
                    } else {
                        a - 1
                    };
                    assert(out@[a] == old(out)@[k]);
                }
            }
            if b < pos {
                assert((report_order())(before[a], before[b]));
            } else if b == pos {
            } else if a < pos {
                assert(precedes(gv, before[b - 1]) || b - 1 == pos) by {
                    if b - 1 > pos {
                        assert((report_order())(before[pos as int], before[b - 1]));
                        lemma_precedes_transitive(gv, before[pos as int], before[b - 1]);
                    }
                }
                lemma_precedes_transitive(before[a], gv, before[b - 1]);
            } else if a == pos {
                if b - 1 > pos {
                    assert((report_order())(before[pos as int], before[b - 1]));
                    lemma_precedes_transitive(gv, before[pos as int], before[b - 1]);
                }
            } else {
                assert((report_order())(before[a - 1], before[b - 1]));
            }
        }
    }
    pos
}

proof fn lemma_units_with_take(us: Seq<UnitView>, f: Fingerprint, i: int)
    requires
        0 <= i < us.len(),
    ensures
        units_with(us.take(i + 1), f) == if us[i].fingerprint == f {
            units_with(us.take(i), f).push(us[i])
        } else {
            units_with(us.take(i), f)
        },
{
    assert(us.take(i + 1).drop_last() =~= us.take(i));
}

proof fn lemma_fingerprints_of_take(us: Seq<UnitView>, i: int)
    requires
        0 <= i < us.len(),
    ensures
        fingerprints_of(us.take(i + 1)) == if fingerprints_of(us.take(i)).contains(
            us[i].fingerprint,
        ) {
            fingerprints_of(us.take(i))
        } else {
            fingerprints_of(us.take(i)).push(us[i].fingerprint)
        },
{
    assert(us.take(i + 1).drop_last() =~= us.take(i));
}

/// The fingerprints met only grow, and hold the last unit's.
proof fn lemma_fingerprints_of_grows(us: Seq<UnitView>)
    requires
        us.len() > 0,
    ensures
        fingerprints_of(us).contains(us[us.len() - 1].fingerprint),
        forall|f: Fingerprint|
            fingerprints_of(us.drop_last()).contains(f) ==> #[trigger] fingerprints_of(
                us,
            ).contains(f),
{
    let front = fingerprints_of(us.drop_last());
    let last = us[us.len() - 1].fingerprint;
    if !front.contains(last) {
        assert(fingerprints_of(us) == front.push(last));
        assert(front.push(last)[front.len() as int] == last);
        assert forall|f: Fingerprint| front.contains(f) implies #[trigger] fingerprints_of(
            us,
        ).contains(f) by {
            let k = choose|k: int| 0 <= k < front.len() && front[k] == f;
            assert(front.push(last)[k] == f);
        }
    }
}

/// A fingerprint that has not been met has no units with it.
proof fn lemma_fingerprints_of_complete(us: Seq<UnitView>, f: Fingerprint)
    requires
        !fingerprints_of(us).contains(f),
    ensures
        units_with(us, f).len() == 0,
    decreases us.len(),
{
    if us.len() > 0 {
        lemma_fingerprints_of_grows(us);
        lemma_fingerprints_of_complete(us.drop_last(), f);
    }
}

/// The fingerprints of first occurrence are distinct.
proof fn lemma_fingerprints_of_distinct(us: Seq<UnitView>)
    ensures
        fingerprints_of(us).no_duplicates(),
    decreases us.len(),
{
    if us.len() > 0 {
        lemma_fingerprints_of_distinct(us.drop_last());
    }
}

/// The units of the given sequence, grouped by fingerprint in order of
/// first occurrence.
fn bucket_by_fingerprint(units: &[CodeUnit]) -> (r: (Vec<Fingerprint>, Vec<Vec<CodeUnit>>))
    ensures
        r.0@ == fingerprints_of(unit_views(units@)),
        r.1@.len() == r.0@.len(),
        forall|p: int|
            0 <= p < r.1@.len() ==> unit_views(#[trigger] r.1@[p]@) == units_with(
                unit_views(units@),
                r.0@[p],
            ),
{
    let ghost us = unit_views(units@);
    let mut keys: Vec<Fingerprint> = Vec::new();
    let mut buckets: Vec<Vec<CodeUnit>> = Vec::new();
    let n = units.len();
    for i in 0..n
        invariant
            n == units@.len(),
            us == unit_views(units@),
            keys@ == fingerprints_of(us.take(i as int)),
            buckets@.len() == keys@.len(),
            forall|p: int|
                0 <= p < buckets@.len() ==> unit_views(#[trigger] buckets@[p]@) == units_with(
                    us.take(i as int),
                    keys@[p],
                ),
    {
        let f = units[i].fingerprint;
        proof {
            lemma_fingerprints_of_take(us, i as int);
            assert(us[i as int] == units@[i as int]@);
        }
        let m = keys.len();
        let mut p: usize = 0;
        while p < m && keys[p] != f
            invariant
                m == keys@.len(),
                p <= m,
                forall|q: int| 0 <= q < p ==> keys@[q] != f,
            decreases m - p,
        {
            p = p + 1;
        }
        let unit = units[i].clone();
        let ghost old_buckets = buckets@;
        proof {
            lemma_fingerprints_of_distinct(us.take(i as int));
        }
        if p < m {
            buckets[p].push(unit);
            proof {
                assert(keys@.contains(f));
                assert forall|q: int| 0 <= q < buckets@.len() implies unit_views(
                    #[trigger] buckets@[q]@,
                ) == units_with(us.take(i + 1), keys@[q]) by {
                    lemma_units_with_take(us, keys@[q], i as int);
                    if q == p as int {
                        assert(unit_views(buckets@[q]@) =~= unit_views(old_buckets[q]@).push(
                            units@[i as int]@,
                        ));
                    } else {
                        assert(buckets@[q] == old_buckets[q]);
                        assert(keys@[q] != keys@[p as int]);
                    }
                }
            }
        } else {
            keys.push(f);
            let mut bucket: Vec<CodeUnit> = Vec::new();
            bucket.push(unit);
            buckets.push(bucket);
            proof {
                assert(!fingerprints_of(us.take(i as int)).contains(f));
                lemma_fingerprints_of_complete(us.take(i as int), f);
                assert forall|q: int| 0 <= q < buckets@.len() implies unit_views(
                    #[trigger] buckets@[q]@,
                ) == units_with(us.take(i + 1), keys@[q]) by {
                    lemma_units_with_take(us, keys@[q], i as int);
                    if q == m as int {
                        assert(units_with(us.take(i as int), f).len() == 0);
                        assert(unit_views(buckets@[q]@) =~= units_with(us.take(i as int), f).push(
                            units@[i as int]@,
                        ));
                    } else {
                        assert(buckets@[q] == old_buckets[q]);
                    }
                }
            }
        }
    }
    proof {
        assert(us.take(n as int) =~= us);
    }
    (keys, buckets)
}

/// Groups code units by exact fingerprint: every fingerprint shared by
/// more than one unit gives a group of those units, in their order, with
/// similarity one. Larger groups come first, then lower fingerprints.
pub fn group_exact_duplicates(units: &[CodeUnit]) -> (r: Vec<DuplicateGroup>)
    ensures
        group_views(r@).to_multiset() == exact_candidates(unit_views(units@)).to_multiset(),
        sorted_by(group_views(r@), report_order()),
        forall|k: int| 0 <= k < r@.len() ==> #[trigger] r@[k].similarity == one(),
{
    let ghost us = unit_views(units@);
    let (keys, mut buckets) = bucket_by_fingerprint(units);
    let mut result: Vec<DuplicateGroup> = Vec::new();
    let m = keys.len();
    assert(keys@.take(0) =~= Seq::<Fingerprint>::empty());
    assert(group_views(result@) =~= Seq::<GroupView>::empty());
    for p in 0..m
        invariant
            m == keys@.len(),
            buckets@.len() == m,
            us == unit_views(units@),
            keys@ == fingerprints_of(us),
            forall|q: int|
                p <= q < m ==> unit_views(#[trigger] buckets@[q]@) == units_with(us, keys@[q]),
            sorted_by(group_views(result@), report_order()),
            forall|k: int| 0 <= k < result@.len() ==> #[trigger] result@[k].similarity == one(),
            group_views(result@).to_multiset() == groups_for(us, keys@.take(p as int)).to_multiset(),
    {
        let ghost prev = buckets@;
        let mut members: Vec<CodeUnit> = Vec::new();
        std::mem::swap(&mut members, &mut buckets[p]);
        proof {
            assert(keys@.take(p + 1).drop_last() =~= keys@.take(p as int));
            assert(unit_views(members@) == units_with(us, keys@[p as int]));
            assert forall|q: int| p + 1 <= q < m implies unit_views(#[trigger] buckets@[q]@)
                == units_with(us, keys@[q]) by {
                assert(buckets@[q] == prev[q]);
            }
        }
        if members.len() > 1 {
            let g = DuplicateGroup {
                fingerprint: keys[p],
                members,
                similarity: Ratio { num: 1, den: 1 },
            };
            let ghost old_result = result@;
            let ghost gv = g@;
            let pos = insert_in_order(&mut result, g);
            proof {
                assert forall|k: int| 0 <= k < result@.len() implies #[trigger] result@[k].similarity
                    == one() by {
                    if k < pos {
                        assert(result@[k] == old_result[k]);
                    } else if k > pos {
                        assert(result@[k] == old_result[k - 1]);
                    }
                }
                assert(groups_for(us, keys@.take(p + 1)) == groups_for(us, keys@.take(p as int)).push(
                    gv,
                ));
                vstd::seq_lib::to_multiset_build(groups_for(us, keys@.take(p as int)), gv);
            }
        }
    }
    proof {
        assert(keys@.take(m as int) =~= keys@);
    }
    result
}

/// Statistics about duplication in the analysed code.
#[derive(Clone, Copy, Debug, PartialEq, Eq, Structural)]
pub struct DuplicationStats {
    pub total_code_units: usize,
    pub total_lines: usize,
    pub exact_duplicate_groups: usize,
    pub exact_duplicate_units: usize,
    pub near_duplicate_groups: usize,
    pub near_duplicate_units: usize,
    pub exact_duplicate_lines: usize,
    pub near_duplicate_lines: usize,
    pub sub_exact_groups: usize,
    pub sub_exact_units: usize,
    pub sub_near_groups: usize,
    pub sub_near_units: usize,
}

/// The lines that a sequence of units spans, summed.
pub open spec fn lines_of(us: Seq<UnitView>) -> nat
    decreases us.len(),
{
    if us.len() == 0 {
        0
    } else {
        lines_of(us.drop_last()) + us[us.len() - 1].line_count()
    }
}

/// The members of a sequence of groups, counted.
pub open spec fn members_of(gs: Seq<GroupView>) -> nat
    decreases gs.len(),
{
    if gs.len() == 0 {
        0
    } else {
        members_of(gs.drop_last()) + gs[gs.len() - 1].members.len()
    }
}

/// The lines that the members of a sequence of groups span, summed.
pub open spec fn group_lines_of(gs: Seq<GroupView>) -> nat
    decreases gs.len(),
{
    if gs.len() == 0 {
        0
    } else {
        group_lines_of(gs.drop_last()) + lines_of(gs[gs.len() - 1].members)
    }
}

/// A count as a machine word holds it: modulo `usize::MAX + 1`, the way
/// sums of `usize` wrap in a release build.
pub open spec fn wrapped(n: nat) -> nat {
    n % (usize::MAX as nat + 1)
}

/// Adds two counts, wrapping around past `usize::MAX`.
fn add_wrapping(a: usize, b: usize) -> (r: usize)
    ensures
        r == wrapped((a + b) as nat),
{
    let ghost m = usize::MAX as int + 1;
    if a > usize::MAX - b {
        proof {
            vstd::arithmetic::div_mod::lemma_fundamental_div_mod_converse(a + b, m, 1, a + b - m);
        }
        b - (usize::MAX - a) - 1
    } else {
        proof {
            vstd::arithmetic::div_mod::lemma_fundamental_div_mod_converse(a + b, m, 0, a + b);
        }
        a + b
    }
}

/// Adding to a wrapped count wraps the sum.
proof fn lemma_wrapped_add(total: nat, x: nat)
    requires
        x <= usize::MAX,
    ensures
        wrapped(wrapped(total) + x) == wrapped(total + x),
{
    let m = usize::MAX as int + 1;
    vstd::arithmetic::div_mod::lemma_add_mod_noop(total as int, x as int, m);
    vstd::arithmetic::div_mod::lemma_fundamental_div_mod_converse(x as int, m, 0, x as int);
}

/// The lines a unit spans: `line_end - line_start + 1`, and one when the
/// end comes before the start.
pub fn line_count(unit: &CodeUnit) -> (r: usize)
    requires
        unit@.line_count() <= usize::MAX,
    ensures
        r == unit@.line_count(),
{
    if unit.line_end >= unit.line_start {
        unit.line_end - unit.line_start + 1
    } else {
        1
    }
}

/// The lines a unit spans, wrapped.
fn wrapped_line_count(unit: &CodeUnit) -> (r: usize)
    ensures
        r == wrapped(unit@.line_count()),
{
    let ghost lc = unit@.line_count() as int;
    let ghost m = usize::MAX as int + 1;
    if unit.line_end >= unit.line_start {
        if unit.line_end - unit.line_start == usize::MAX {
            proof {
                vstd::arithmetic::div_mod::lemma_fundamental_div_mod_converse(lc, m, 1, 0);
            }
            0
        } else {
            proof {
                vstd::arithmetic::div_mod::lemma_fundamental_div_mod_converse(lc, m, 0, lc);
            }
            unit.line_end - unit.line_start + 1
        }
    } else {
        proof {
            vstd::arithmetic::div_mod::lemma_fundamental_div_mod_converse(lc, m, 0, lc);
        }
        1
    }
}

/// The lines that the units span, summed.
fn total_lines(units: &[CodeUnit]) -> (r: usize)
    ensures
        r == wrapped(lines_of(unit_views(units@))),
{
    let ghost us = unit_views(units@);
    let mut total: usize = 0;
    let n = units.len();
    for i in 0..n
        invariant
            n == units@.len(),
            us == unit_views(units@),
            total == wrapped(lines_of(us.take(i as int))),
    {
        proof {
            assert(us.take(i + 1).drop_last() =~= us.take(i as int));
            vstd::arithmetic::div_mod::lemma_fundamental_div_mod_converse(
                us[i as int].line_count() as int,
                usize::MAX as int + 1,
                us[i as int].line_count() as int / (usize::MAX as int + 1),
                wrapped(us[i as int].line_count()) as int,
            );
            vstd::arithmetic::div_mod::lemma_add_mod_noop(
                lines_of(us.take(i as int)) as int,
                us[i as int].line_count() as int,
                usize::MAX as int + 1,
            );
            lemma_wrapped_add(lines_of(us.take(i as int)), wrapped(us[i as int].line_count()));
            vstd::arithmetic::div_mod::lemma_add_mod_noop(
                lines_of(us.take(i as int)) as int,
                wrapped(us[i as int].line_count()) as int,
                usize::MAX as int + 1,
            );
            vstd::arithmetic::div_mod::lemma_mod_twice(
                us[i as int].line_count() as int,
                usize::MAX as int + 1,
            );
        }
        let c = wrapped_line_count(&units[i]);
        total = add_wrapping(total, c);
    }
    proof {
        assert(us.take(n as int) =~= us);
    }
    total
}

/// The lines that the members of a group span, summed.
fn group_line_count(group: &DuplicateGroup) -> (r: usize)
    ensures
        r == wrapped(lines_of(group@.members)),
{
    total_lines(group.members.as_slice())
}

/// The members of the groups, counted.
fn total_members(groups: &[DuplicateGroup]) -> (r: usize)
    ensures
        r == wrapped(members_of(group_views(groups@))),
{
    let ghost gs = group_views(groups@);
    let mut total: usize = 0;
    let n = groups.len();
    for i in 0..n
        invariant
            n == groups@.len(),
            gs == group_views(groups@),
            total == wrapped(members_of(gs.take(i as int))),
    {
        let count = groups[i].members.len();
        proof {
            assert(gs.take(i + 1).drop_last() =~= gs.take(i as int));
            assert(gs[i as int].members.len() == count);
            lemma_wrapped_add(members_of(gs.take(i as int)), count as nat);
        }
        total = add_wrapping(total, count);
    }
    proof {
        assert(gs.take(n as int) =~= gs);
    }
    total
}

/// The lines that the members of the groups span, summed.
fn total_group_lines(groups: &[DuplicateGroup]) -> (r: usize)
    ensures
        r == wrapped(group_lines_of(group_views(groups@))),
{
    let ghost gs = group_views(groups@);
    let mut total: usize = 0;
    let n = groups.len();
    for i in 0..n
        invariant
            n == groups@.len(),
            gs == group_views(groups@),
            total == wrapped(group_lines_of(gs.take(i as int))),
    {
        proof {
            assert(gs.take(i + 1).drop_last() =~= gs.take(i as int));
            let x = lines_of(gs[i as int].members);
            vstd::arithmetic::div_mod::lemma_add_mod_noop(
                group_lines_of(gs.take(i as int)) as int,
                x as int,
                usize::MAX as int + 1,
            );
            vstd::arithmetic::div_mod::lemma_add_mod_noop(
                group_lines_of(gs.take(i as int)) as int,
                wrapped(x) as int,
                usize::MAX as int + 1,
            );
            vstd::arithmetic::div_mod::lemma_mod_twice(x as int, usize::MAX as int + 1);
            lemma_wrapped_add(group_lines_of(gs.take(i as int)), wrapped(x));
        }
        total = add_wrapping(total, group_line_count(&groups[i]));
    }
    proof {
        assert(gs.take(n as int) =~= gs);
    }
    total
}

/// Duplication statistics over the units and their exact and near groups;
/// the sub-function counts are zero. Sums wrap around past `usize::MAX`.
pub fn compute_stats(
    units: &[CodeUnit],
    exact_groups: &[DuplicateGroup],
    near_groups: &[DuplicateGroup],
) -> (r: DuplicationStats)
    ensures
        r.total_code_units == units@.len(),
        r.total_lines == wrapped(lines_of(unit_views(units@))),
        r.exact_duplicate_groups == exact_groups@.len(),
        r.exact_duplicate_units == wrapped(members_of(group_views(exact_groups@))),
        r.near_duplicate_groups == near_groups@.len(),
        r.near_duplicate_units == wrapped(members_of(group_views(near_groups@))),
        r.exact_duplicate_lines == wrapped(group_lines_of(group_views(exact_groups@))),
        r.near_duplicate_lines == wrapped(group_lines_of(group_views(near_groups@))),
        r.sub_exact_groups == 0,
        r.sub_exact_units == 0,
        r.sub_near_groups == 0,
        r.sub_near_units == 0,
{
    DuplicationStats {
        total_code_units: units.len(),
        total_lines: total_lines(units),
        exact_duplicate_groups: exact_groups.len(),
        exact_duplicate_units: total_members(exact_groups),
        near_duplicate_groups: near_groups.len(),
        near_duplicate_units: total_members(near_groups),
        exact_duplicate_lines: total_group_lines(exact_groups),
        near_duplicate_lines: total_group_lines(near_groups),
        sub_exact_groups: 0,
        sub_exact_units: 0,
        sub_near_groups: 0,
        sub_near_units: 0,
    }
}

/// Duplication statistics including the sub-function groups.
pub fn compute_stats_with_sub(
    units: &[CodeUnit],
    exact_groups: &[DuplicateGroup],
    near_groups: &[DuplicateGroup],
    sub_exact_groups: &[DuplicateGroup],
    sub_near_groups: &[DuplicateGroup],
) -> (r: DuplicationStats)
    ensures
        r.total_code_units == units@.len(),
        r.total_lines == wrapped(lines_of(unit_views(units@))),
        r.exact_duplicate_groups == exact_groups@.len(),
        r.exact_duplicate_units == wrapped(members_of(group_views(exact_groups@))),
        r.near_duplicate_groups == near_groups@.len(),
        r.near_duplicate_units == wrapped(members_of(group_views(near_groups@))),
        r.exact_duplicate_lines == wrapped(group_lines_of(group_views(exact_groups@))),
        r.near_duplicate_lines == wrapped(group_lines_of(group_views(near_groups@))),
        r.sub_exact_groups == sub_exact_groups@.len(),
        r.sub_exact_units == wrapped(members_of(group_views(sub_exact_groups@))),
        r.sub_near_groups == sub_near_groups@.len(),
        r.sub_near_units == wrapped(members_of(group_views(sub_near_groups@))),
{
    let mut stats = compute_stats(units, exact_groups, near_groups);
    stats.sub_exact_groups = sub_exact_groups.len();
    stats.sub_exact_units = total_members(sub_exact_groups);
    stats.sub_near_groups = sub_near_groups.len();
    stats.sub_near_units = total_members(sub_near_groups);
    stats
}

} // verus!
