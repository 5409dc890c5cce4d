//! A union-find forest over `0..n`, with path compression.
use vstd::prelude::*;

use crate::near_groups::class_of;

verus! {

/// Disjoint classes of `0..n`. Its view gives each element the root that
/// represents its class.
pub struct UnionFind {
    parent: Vec<usize>,
    /// The representative of each element.
    rep: Ghost<Seq<nat>>,
    /// A rank that grows strictly from an element to its parent.
    level: Ghost<Seq<nat>>,
    /// A bound on every rank.
    top: Ghost<nat>,
}

/// The classes after joining the class of `a` with the class of `b`: the
/// members of `a`'s class take `b`'s representative.
pub open spec fn joined(rep: Seq<nat>, a: nat, b: nat) -> Seq<nat> {
    if rep[a as int] == rep[b as int] {
        rep
    } else {
        rep.map_values(|x: nat| if x == rep[a as int] { rep[b as int] } else { x })
    }
}

/// A forest of parent links that leads each element to its representative,
/// the ranks growing strictly along every link.
pub open spec fn forest_wf(parent: Seq<usize>, rep: Seq<nat>, level: Seq<nat>, top: nat) -> bool {
    let n = parent.len();
    &&& rep.len() == n
    &&& level.len() == n
    &&& forall|i: int| 0 <= i < n ==> #[trigger] parent[i] < n
    &&& forall|i: int| 0 <= i < n ==> #[trigger] rep[i] < n
    &&& forall|i: int| 0 <= i < n ==> parent[rep[i] as int] == #[trigger] rep[i]
    &&& forall|i: int| 0 <= i < n && parent[i] == i ==> #[trigger] rep[i] == i
    &&& forall|i: int|
        0 <= i < n && #[trigger] parent[i] != i ==> {
            &&& rep[parent[i] as int] == rep[i]
            &&& level[parent[i] as int] > level[i]
            &&& level[rep[i] as int] > level[i]
        }
    &&& forall|i: int| 0 <= i < n ==> #[trigger] level[i] <= top
}

/// Linking root `ri` under root `rj` keeps the forest consistent.
proof fn lemma_link(parent: Seq<usize>, rep: Seq<nat>, level: Seq<nat>, top: nat, ri: int, rj: int)
    requires
        forest_wf(parent, rep, level, top),
        0 <= ri < parent.len(),
        0 <= rj < parent.len(),
        ri != rj,
        parent[ri] == ri,
        parent[rj] == rj,
    ensures
        ({
            let new_level: nat = if level[rj] > level[ri] + 1 {
                level[rj]
            } else {
                level[ri] + 1
            };
            let new_top: nat = if new_level > top {
                new_level
            } else {
                top
            };
            forest_wf(
                parent.update(ri, rj as usize),
                rep.map_values(|x: nat| if x == ri as nat { rj as nat } else { x }),
                level.update(rj, new_level),
                new_top,
            )
        }),
{
    let new_level: nat = if level[rj] > level[ri] + 1 {
        level[rj]
    } else {
        level[ri] + 1
    };
    let new_top: nat = if new_level > top {
        new_level
    } else {
        top
    };
    let p2 = parent.update(ri, rj as usize);
    let r2 = rep.map_values(|x: nat| if x == ri as nat { rj as nat } else { x });
    let l2 = level.update(rj, new_level);
    let n = parent.len();
    assert(rep[ri] == ri);
    assert(rep[rj] == rj);
    assert forall|k: int| 0 <= k < n implies p2[r2[k] as int] == #[trigger] r2[k] by {
        let rk = rep[k] as int;
        assert(parent[rk] == rk);
    }
    assert forall|k: int| 0 <= k < n && p2[k] == k implies #[trigger] r2[k] == k by {
        assert(parent[k] == k);
    }
    assert forall|k: int| 0 <= k < n && #[trigger] p2[k] != k implies {
        &&& r2[p2[k] as int] == r2[k]
        &&& l2[p2[k] as int] > l2[k]
        &&& l2[r2[k] as int] > l2[k]
    } by {
        if k != ri {
            assert(parent[k] != k);
            assert(rep[parent[k] as int] == rep[k]);
        }
    }
    assert forall|k: int| 0 <= k < n implies #[trigger] l2[k] <= new_top by {}
}

/// The representatives among the first `k` elements, in the order in which
/// they are first met.
pub open spec fn first_reps(rep: Seq<nat>, k: int) -> Seq<nat>
    decreases k,
{
    if k <= 0 {
        Seq::empty()
    } else {
        let front = first_reps(rep, k - 1);
        if front.contains(rep[k - 1]) {
            front
        } else {
            front.push(rep[k - 1])
        }
    }
}

/// The classes of `0..n`, each in ascending order, the classes in order of
/// their lowest member.
pub open spec fn classes(rep: Seq<nat>) -> Seq<Seq<usize>> {
    first_reps(rep, rep.len() as int).map_values(|r: nat| class_of(rep, r, rep.len() as int))
}

/// The representatives met are distinct, and each element's is among them.
proof fn lemma_first_reps(rep: Seq<nat>, k: int)
    requires
        0 <= k <= rep.len(),
    ensures
        first_reps(rep, k).no_duplicates(),
        forall|j: int| 0 <= j < k ==> #[trigger] first_reps(rep, k).contains(rep[j]),
        forall|x: nat| #[trigger] first_reps(rep, k).contains(x) ==> exists|j: int| 0 <= j < k && rep[j] == x,
    decreases k,
{
    if k > 0 {
        lemma_first_reps(rep, k - 1);
        let front = first_reps(rep, k - 1);
        let f = first_reps(rep, k);
        assert forall|j: int| 0 <= j < k implies #[trigger] f.contains(rep[j]) by {
            if j < k - 1 {
                assert(front.contains(rep[j]));
                let q = choose|q: int| 0 <= q < front.len() && front[q] == rep[j];
                assert(f[q] == rep[j]);
            } else if !front.contains(rep[k - 1]) {
                assert(f[f.len() - 1] == rep[k - 1]);
            }
        }
        assert forall|x: nat| #[trigger] f.contains(x) implies exists|j: int| 0 <= j < k && rep[j] == x by {
            let q = choose|q: int| 0 <= q < f.len() && f[q] == x;
            if q < front.len() {
                assert(front[q] == x);
                assert(front.contains(x));
            }
        }
    }
}

/// An element that no element below `k` has as representative has no
/// members below `k`.
proof fn lemma_class_of_empty(rep: Seq<nat>, r: nat, k: int)
    requires
        forall|j: int| 0 <= j < k ==> rep[j] != r,
    ensures
        class_of(rep, r, k) == Seq::<usize>::empty(),
    decreases k,
{
    if k > 0 {
        lemma_class_of_empty(rep, r, k - 1);
    }
}

/// One more element whose representative was met before joins that class.
proof fn lemma_groups_step_found(rep: Seq<nat>, rs: Seq<nat>, gs: Seq<Seq<usize>>, i: int, p: int)
    requires
        0 <= i < rep.len(),
        rs == first_reps(rep, i),
        gs.len() == rs.len(),
        0 <= p < rs.len(),
        rs[p] == rep[i],
        forall|q: int| 0 <= q < gs.len() ==> #[trigger] gs[q] == class_of(rep, rs[q], i),
    ensures
        first_reps(rep, i + 1) == rs,
        forall|q: int| 0 <= q < gs.len() ==> #[trigger] gs.update(p, gs[p].push(i as usize))[q]
            == class_of(rep, rs[q], i + 1),
{
    lemma_first_reps(rep, i);
    assert(rs.contains(rep[i]));
    assert forall|q: int| 0 <= q < gs.len() implies #[trigger] gs.update(p, gs[p].push(i as usize))[q]
        == class_of(rep, rs[q], i + 1) by {
        if q != p {
            assert(rs[q] != rs[p]);
        }
    }
}

/// One more element whose representative is new starts a class of its own.
proof fn lemma_groups_step_new(rep: Seq<nat>, rs: Seq<nat>, gs: Seq<Seq<usize>>, i: int)
    requires
        0 <= i < rep.len(),
        rs == first_reps(rep, i),
        gs.len() == rs.len(),
        forall|q: int| 0 <= q < rs.len() ==> rs[q] != rep[i],
        forall|q: int| 0 <= q < gs.len() ==> #[trigger] gs[q] == class_of(rep, rs[q], i),
    ensures
        first_reps(rep, i + 1) == rs.push(rep[i]),
        forall|q: int| 0 <= q < gs.len() + 1 ==> #[trigger] gs.push(seq![i as usize])[q]
            == class_of(rep, rs.push(rep[i])[q], i + 1),
{
    lemma_first_reps(rep, i);
    assert(!rs.contains(rep[i]));
    assert forall|j: int| 0 <= j < i implies rep[j] != rep[i] by {
        assert(rs.contains(rep[j]));
    }
    lemma_class_of_empty(rep, rep[i], i);
    assert(class_of(rep, rep[i], i + 1) =~= seq![i as usize]);
}

/// Once every element is placed, the classes built are the classes.
proof fn lemma_groups_done(rep: Seq<nat>, rs: Seq<nat>, gs: Seq<Seq<usize>>)
    requires
        rs == first_reps(rep, rep.len() as int),
        gs.len() == rs.len(),
        forall|q: int| 0 <= q < gs.len() ==> #[trigger] gs[q] == class_of(rep, rs[q], rep.len() as int),
    ensures
        gs == classes(rep),
{
    assert(gs =~= classes(rep));
}

impl UnionFind {
    /// The representative of each element.
    pub closed spec fn view(&self) -> Seq<nat> {
        self.rep@
    }

    /// The forest is consistent with the representatives it tracks.
    pub closed spec fn wf(&self) -> bool {
        forest_wf(self.parent@, self.rep@, self.level@, self.top@)
    }

    /// How far an element's rank is below the bound on ranks.
    pub closed spec fn height(&self, i: int) -> nat {
        (self.top@ - self.level@[i]) as nat
    }

    /// The representative lies in the range.
    pub proof fn lemma_rep_in_range(&self, i: int)
        requires
            self.wf(),
            0 <= i < self@.len(),
        ensures
            self@[i] < self@.len(),
            self@[self@[i] as int] == self@[i],
    {
        let r = self.rep@[i] as int;
        assert(self.parent@[r] == r);
    }

    /// A forest in which every element is alone in its class.
    pub fn new(n: usize) -> (r: UnionFind)
        ensures
            r.wf(),
            r@ == Seq::new(n as nat, |i: int| i as nat),
    {
        let mut parent: Vec<usize> = Vec::new();
        for i in 0..n
            invariant
                parent@.len() == i,
                forall|j: int| 0 <= j < i ==> parent@[j] == j,
        {
            parent.push(i);
        }
        UnionFind {
            parent,
            rep: Ghost(Seq::new(n as nat, |i: int| i as nat)),
            level: Ghost(Seq::new(n as nat, |i: int| 0nat)),
            top: Ghost(0),
        }
    }

    /// The number of elements.
    pub fn len(&self) -> (r: usize)
        requires
            self.wf(),
        ensures
            r == self@.len(),
    {
        self.parent.len()
    }

    /// Whether there are no elements.
    pub fn is_empty(&self) -> (r: bool)
        requires
            self.wf(),
        ensures
            r == (self@.len() == 0),
    {
        self.parent.len() == 0
    }

    /// The representative of the class of `i`. Compresses the path it walks,
    /// which leaves the classes unchanged.
    pub fn find(&mut self, i: usize) -> (r: usize)
        requires
            old(self).wf(),
            i < old(self)@.len(),
        ensures
            final(self).wf(),
            final(self)@ == old(self)@,
            r == old(self)@[i as int],
        decreases old(self).height(i as int),
    {
        let p = self.parent[i];
        if p == i {
            return i;
        }
        proof {
            assert(self.parent@[i as int] != i);
        }
        let r = self.find(p);
        let ghost mid = self.parent@;
        self.parent.set(i, r);
        proof {
            let n = self.parent@.len();
            assert forall|k: int| 0 <= k < n && #[trigger] self.parent@[k] != k implies {
                &&& self.rep@[self.parent@[k] as int] == self.rep@[k]
                &&& self.level@[self.parent@[k] as int] > self.level@[k]
                &&& self.level@[self.rep@[k] as int] > self.level@[k]
            } by {
                if k != i {
                    assert(mid[k] == self.parent@[k]);
                }
            }
            assert forall|k: int| 0 <= k < n implies self.parent@[self.rep@[k] as int]
                == #[trigger] self.rep@[k] by {
                let rk = self.rep@[k] as int;
                assert(mid[rk] == rk);
                if rk == i {
                    assert(false);
                }
            }
            assert forall|k: int| 0 <= k < n && self.parent@[k] == k implies #[trigger] self.rep@[k]
                == k by {
                if k == i {
                    assert(self.rep@[r as int] == r);
                } else {
                    assert(mid[k] == k);
                }
            }
        }
        r
    }

    /// Joins the classes of `i` and `j`; the joined class is represented
    /// by the representative of `j`.
    pub fn union(&mut self, i: usize, j: usize)
        requires
            old(self).wf(),
            i < old(self)@.len(),
            j < old(self)@.len(),
        ensures
            final(self).wf(),
            final(self)@ == joined(old(self)@, i as nat, j as nat),
    {
        let ghost old_rep = self@;
        let ri = self.find(i);
        let rj = self.find(j);
        if ri != rj {
            let ghost rep0 = self.rep@;
            let ghost level0 = self.level@;
            let ghost parent0 = self.parent@;
            let ghost top0 = self.top@;
            proof {
                lemma_link(parent0, rep0, level0, top0, ri as int, rj as int);
            }
            self.parent.set(ri, rj);
            proof {
                let new_level: nat = if level0[rj as int] > level0[ri as int] + 1 {
                    level0[rj as int]
                } else {
                    level0[ri as int] + 1
                };
                self.rep@ = rep0.map_values(
                    |x: nat|
                        if x == ri as nat {
                            rj as nat
                        } else {
                            x
                        },
                );
                self.level@ = level0.update(rj as int, new_level);
                if new_level > top0 {
                    self.top@ = new_level;
                }
                assert(self.rep@ =~= joined(old_rep, i as nat, j as nat));
            }
        }
    }

    /// The classes, each as its members in ascending order, the classes in
    /// order of their lowest member.
    pub fn groups(&mut self) -> (r: Vec<Vec<usize>>)
        requires
            old(self).wf(),
        ensures
            final(self).wf(),
            final(self)@ == old(self)@,
            r@.map_values(|g: Vec<usize>| g@) == classes(old(self)@),
    {
        let ghost rep = self@;
        let n = self.parent.len();
        let mut roots: Vec<usize> = Vec::new();
        for i in 0..n
            invariant
                self.wf(),
                self@ == rep,
                n == rep.len(),
                roots@.len() == i,
                forall|q: int| 0 <= q < i ==> #[trigger] roots@[q] as nat == rep[q],
        {
            let r = self.find(i);
            roots.push(r);
        }
        let mut reps: Vec<usize> = Vec::new();
        let mut out: Vec<Vec<usize>> = Vec::new();
        let ghost mut rs: Seq<nat> = Seq::empty();
        let ghost mut gs: Seq<Seq<usize>> = Seq::empty();
        for i in 0..n
            invariant
                n == rep.len(),
                roots@.len() == n,
                forall|q: int| 0 <= q < n ==> #[trigger] roots@[q] as nat == rep[q],
                rs == first_reps(rep, i as int),
                reps@.len() == rs.len(),
                forall|q: int| 0 <= q < rs.len() ==> #[trigger] rs[q] == reps@[q] as nat,
                out@.len() == gs.len(),
                gs.len() == rs.len(),
                forall|q: int| 0 <= q < gs.len() ==> #[trigger] gs[q] == out@[q]@,
                forall|q: int| 0 <= q < gs.len() ==> #[trigger] gs[q] == class_of(rep, rs[q], i as int),
        {
            let r = roots[i];
            proof {
                assert(roots@[i as int] as nat == rep[i as int]);
            }
            let m = reps.len();
            let mut p: usize = 0;
            while p < m && reps[p] != r
                invariant
                    m == reps@.len(),
                    p <= m,
                    forall|q: int| 0 <= q < p ==> reps@[q] != r,
                decreases m - p,
            {
                p = p + 1;
            }
            if p < m {
                proof {
                    assert(rs[p as int] == rep[i as int]);
                    lemma_groups_step_found(rep, rs, gs, i as int, p as int);
                    gs = gs.update(p as int, gs[p as int].push(i));
                }
                let mut g = out.remove(p);
                g.push(i);
                out.insert(p, g);
            } else {
                proof {
                    assert forall|q: int| 0 <= q < rs.len() implies rs[q] != rep[i as int] by {
                        assert(rs[q] == reps@[q] as nat);
                    }
                    lemma_groups_step_new(rep, rs, gs, i as int);
                    rs = rs.push(rep[i as int]);
                    gs = gs.push(seq![i]);
                }
                let mut g: Vec<usize> = Vec::new();
                g.push(i);
                proof {
                    assert(g@ =~= seq![i]);
                }
                reps.push(r);
                out.push(g);
            }
        }
        proof {
            lemma_groups_done(rep, rs, gs);
            assert(out@.map_values(|g: Vec<usize>| g@) =~= gs);
        }
        out
    }
}

} // verus!
