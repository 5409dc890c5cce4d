//! The list of fingerprints whose duplicates are not to be reported.
use vstd::prelude::*;

use crate::fingerprint::{hex_digits, parse_hex, Fingerprint};
use crate::grouper::{group_views, DuplicateGroup, GroupView};
use crate::text::str_eq;

verus! {

/// An ignored fingerprint, with why it is ignored and the names of the
/// group's members when it was.
#[derive(Debug)]
pub struct IgnoreEntry {
    /// The fingerprint in its hex form.
    pub fingerprint: String,
    pub reason: Option<String>,
    pub members: Vec<String>,
}

/// The mathematical value of an [`IgnoreEntry`].
pub struct EntryView {
    pub fingerprint: Seq<char>,
    pub reason: Option<Seq<char>>,
    pub members: Seq<Seq<char>>,
}

/// The characters of a sequence of strings.
pub open spec fn strings(s: Seq<String>) -> Seq<Seq<char>> {
    s.map_values(|x: String| x@)
}

impl View for IgnoreEntry {
    type V = EntryView;

    open spec fn view(&self) -> EntryView {
        EntryView {
            fingerprint: self.fingerprint@,
            reason: match self.reason {
                Some(r) => Some(r@),
                None => None,
            },
            members: strings(self.members@),
        }
    }
}

/// The values of a sequence of entries.
pub open spec fn entry_views(s: Seq<IgnoreEntry>) -> Seq<EntryView> {
    s.map_values(|e: IgnoreEntry| e@)
}

/// A copy of a list of strings.
fn copy_strings(v: &Vec<String>) -> (r: Vec<String>)
    ensures
        strings(r@) == strings(v@),
{
    let mut out: Vec<String> = Vec::new();
    let n = v.len();
    for i in 0..n
        invariant
            n == v@.len(),
            strings(out@) == strings(v@.take(i as int)),
    {
        let c = v[i].clone();
        let ghost before = out@;
        proof {
            assert(c@ == v@[i as int]@);
            assert(v@.take(i + 1) =~= v@.take(i as int).push(v@[i as int]));
        }
        out.push(c);
        proof {
            assert(strings(out@) =~= strings(before).push(c@));
            assert(strings(v@.take(i + 1)) =~= strings(v@.take(i as int)).push(v@[i as int]@));
        }
    }
    proof {
        assert(v@.take(n as int) =~= v@);
    }
    out
}

impl IgnoreEntry {
    /// A copy of the entry.
    pub fn copy(&self) -> (r: IgnoreEntry)
        ensures
            r@ == self@,
    {
        IgnoreEntry {
            fingerprint: self.fingerprint.clone(),
            reason: match &self.reason {
                Some(r) => Some(r.clone()),
                None => None,
            },
            members: copy_strings(&self.members),
        }
    }
}

/// The ignore list of a project.
#[derive(Debug)]
pub struct IgnoreFile {
    pub ignore: Vec<IgnoreEntry>,
}

/// Whether the list names the fingerprint.
pub open spec fn lists(entries: Seq<EntryView>, fp: Fingerprint) -> bool {
    exists|i: int| 0 <= i < entries.len() && (#[trigger] entries[i]).fingerprint == hex_digits(fp.0 as nat, 16)
}

/// Whether an entry no longer matches any of the fingerprints: its text
/// is not a fingerprint, or no group has it.
pub open spec fn stale(e: EntryView, all: Seq<Fingerprint>) -> bool {
    match parse_hex(e.fingerprint) {
        Some(v) => !all.contains(Fingerprint(v)),
        None => true,
    }
}

/// The entries that are stale, in order.
pub open spec fn stale_entries(entries: Seq<EntryView>, all: Seq<Fingerprint>) -> Seq<EntryView>
    decreases entries.len(),
{
    if entries.len() == 0 {
        Seq::empty()
    } else {
        let front = stale_entries(entries.drop_last(), all);
        let e = entries[entries.len() - 1];
        if stale(e, all) {
            front.push(e)
        } else {
            front
        }
    }
}

/// The entries that are not stale, in order.
pub open spec fn live_entries(entries: Seq<EntryView>, all: Seq<Fingerprint>) -> Seq<EntryView>
    decreases entries.len(),
{
    if entries.len() == 0 {
        Seq::empty()
    } else {
        let front = live_entries(entries.drop_last(), all);
        let e = entries[entries.len() - 1];
        if stale(e, all) {
            front
        } else {
            front.push(e)
        }
    }
}

/// The groups whose fingerprint is not listed, in order.
pub open spec fn unsuppressed(gs: Seq<GroupView>, entries: Seq<EntryView>) -> Seq<GroupView>
    decreases gs.len(),
{
    if gs.len() == 0 {
        Seq::empty()
    } else {
        let front = unsuppressed(gs.drop_last(), entries);
        let g = gs[gs.len() - 1];
        if lists(entries, g.fingerprint) {
            front
        } else {
            front.push(g)
        }
    }
}

impl IgnoreFile {
    /// An empty ignore list.
    pub fn new() -> (r: IgnoreFile)
        ensures
            r.ignore@.len() == 0,
    {
        IgnoreFile { ignore: Vec::new() }
    }

    /// Whether the list names the fingerprint.
    pub fn contains(&self, fp: &Fingerprint) -> (r: bool)
        ensures
            r == lists(entry_views(self.ignore@), *fp),
    {
        let hex = fp.to_hex();
        let n = self.ignore.len();
        for i in 0..n
            invariant
                n == self.ignore@.len(),
                hex@ == hex_digits(fp.0 as nat, 16),
                forall|k: int| 0 <= k < i ==> (#[trigger] self.ignore@[k]).fingerprint@ != hex@,
        {
            if str_eq(self.ignore[i].fingerprint.as_str(), hex.as_str()) {
                proof {
                    assert(entry_views(self.ignore@)[i as int].fingerprint == hex@);
                }
                return true;
            }
        }
        proof {
            if lists(entry_views(self.ignore@), *fp) {
                let k = choose|k: int|
                    0 <= k < n && (#[trigger] entry_views(self.ignore@)[k]).fingerprint
                        == hex_digits(fp.0 as nat, 16);
                assert(self.ignore@[k].fingerprint@ == hex@);
            }
        }
        false
    }
}

/// Adds a fingerprint to the list, unless it is already there.
pub fn add_ignore(file: &mut IgnoreFile, fp: &Fingerprint, reason: Option<String>, members: Vec<String>)
    ensures
        lists(entry_views(old(file).ignore@), *fp) ==> final(file).ignore@ == old(file).ignore@,
        !lists(entry_views(old(file).ignore@), *fp) ==> entry_views(final(file).ignore@)
            == entry_views(old(file).ignore@).push(
            EntryView {
                fingerprint: hex_digits(fp.0 as nat, 16),
                reason: match reason {
                    Some(r) => Some(r@),
                    None => None,
                },
                members: strings(members@),
            },
        ),
{
    if file.contains(fp) {
        return ;
    }
    let entry = IgnoreEntry { fingerprint: fp.to_hex(), reason, members };
    let ghost before = entry_views(file.ignore@);
    file.ignore.push(entry);
    proof {
        assert(entry_views(file.ignore@) =~= before.push(entry@));
    }
}

/// The groups whose fingerprint the list does not name, in order.
pub fn filter_ignored(groups: Vec<DuplicateGroup>, file: &IgnoreFile) -> (r: Vec<DuplicateGroup>)
    ensures
        group_views(r@) == unsuppressed(group_views(groups@), entry_views(file.ignore@)),
        forall|k: int| 0 <= k < r@.len() ==> exists|j: int|
            0 <= j < groups@.len() && #[trigger] r@[k] == #[trigger] groups@[j],
{
    let ghost all = groups@;
    let ghost gs = group_views(groups@);
    let ghost es = entry_views(file.ignore@);
    let mut kept: Vec<DuplicateGroup> = Vec::new();
    let mut rest = groups;
    let ghost n = all.len();
    proof {
        assert(rest@ =~= all.subrange(0, n as int));
        assert(group_views(kept@) =~= Seq::<GroupView>::empty());
    }
    while rest.len() > 0
        invariant
            n == all.len(),
            gs == group_views(all),
            es == entry_views(file.ignore@),
            rest@.len() <= n,
            rest@ == all.subrange(n - rest@.len(), n as int),
            group_views(kept@) == unsuppressed(gs.take(n - rest@.len()), es),
            forall|k: int| 0 <= k < kept@.len() ==> exists|j: int|
                0 <= j < n && #[trigger] kept@[k] == #[trigger] all[j],
        decreases rest@.len(),
    {
        let ghost k = n - rest@.len();
        let g = rest.remove(0);
        proof {
            assert(g == all[k]);
            assert(rest@ =~= all.subrange(k + 1, n as int));
            assert(gs.take(k + 1).drop_last() =~= gs.take(k));
            assert(gs.take(k + 1)[k] == g@);
        }
        if !file.contains(&g.fingerprint) {
            let ghost before = kept@;
            kept.push(g);
            proof {
                assert(group_views(kept@) =~= group_views(before).push(g@));
                assert forall|q: int| 0 <= q < kept@.len() implies exists|j: int|
                    0 <= j < n && #[trigger] kept@[q] == #[trigger] all[j] by {
                    if q == before.len() {
                        assert(kept@[q] == all[k]);
                    } else {
                        assert(kept@[q] == before[q]);
                    }
                }
            }
        }
    }
    proof {
        assert(gs.take(n as int) =~= gs);
    }
    kept
}

/// Whether an entry no longer matches any of the fingerprints.
fn is_stale(entry: &IgnoreEntry, all: &[Fingerprint]) -> (r: bool)
    ensures
        r == stale(entry@, all@),
{
    match Fingerprint::from_hex(entry.fingerprint.as_str()) {
        Some(fp) => {
            let n = all.len();
            for i in 0..n
                invariant
                    n == all@.len(),
                    parse_hex(entry@.fingerprint) == Some(fp.0),
                    forall|k: int| 0 <= k < i ==> all@[k] != fp,
            {
                if all[i].0 == fp.0 {
                    proof {
                        assert(all@[i as int] == fp);
                        assert(all@.contains(fp));
                    }
                    return false;
                }
            }
            true
        },
        None => true,
    }
}

/// Copies of the entries that no longer match any of the fingerprints.
pub fn find_stale_entries(file: &IgnoreFile, all: &[Fingerprint]) -> (r: Vec<IgnoreEntry>)
    ensures
        entry_views(r@) == stale_entries(entry_views(file.ignore@), all@),
{
    let ghost es = entry_views(file.ignore@);
    let mut out: Vec<IgnoreEntry> = Vec::new();
    let n = file.ignore.len();
    for i in 0..n
        invariant
            n == file.ignore@.len(),
            es == entry_views(file.ignore@),
            entry_views(out@) == stale_entries(es.take(i as int), all@),
    {
        proof {
            assert(es.take(i + 1).drop_last() =~= es.take(i as int));
            assert(es.take(i + 1)[i as int] == file.ignore@[i as int]@);
        }
        if is_stale(&file.ignore[i], all) {
            let ghost before = entry_views(out@);
            let e = file.ignore[i].copy();
            out.push(e);
            proof {
                assert(entry_views(out@) =~= before.push(e@));
            }
        }
    }
    proof {
        assert(es.take(n as int) =~= es);
    }
    out
}

/// Removes the entries that no longer match any of the fingerprints, and
/// returns them; the others stay, in their order.
pub fn remove_stale_entries(file: &mut IgnoreFile, all: &[Fingerprint]) -> (r: Vec<IgnoreEntry>)
    ensures
        entry_views(r@) == stale_entries(entry_views(old(file).ignore@), all@),
        entry_views(final(file).ignore@) == live_entries(entry_views(old(file).ignore@), all@),
{
    let ghost es = entry_views(file.ignore@);
    let ghost n = es.len();
    let mut rest: Vec<IgnoreEntry> = Vec::new();
    std::mem::swap(&mut rest, &mut file.ignore);
    let ghost all_entries = rest@;
    let mut removed: Vec<IgnoreEntry> = Vec::new();
    let mut kept: Vec<IgnoreEntry> = Vec::new();
    proof {
        assert(rest@ =~= all_entries.subrange(0, n as int));
        assert(entry_views(removed@) =~= Seq::<EntryView>::empty());
        assert(entry_views(kept@) =~= Seq::<EntryView>::empty());
    }
    while rest.len() > 0
        invariant
            n == all_entries.len(),
            es == entry_views(all_entries),
            rest@.len() <= n,
            rest@ == all_entries.subrange(n - rest@.len(), n as int),
            entry_views(removed@) == stale_entries(es.take(n - rest@.len()), all@),
            entry_views(kept@) == live_entries(es.take(n - rest@.len()), all@),
        decreases rest@.len(),
    {
        let ghost k = n - rest@.len();
        let e = rest.remove(0);
        proof {
            assert(e == all_entries[k]);
            assert(rest@ =~= all_entries.subrange(k + 1, n as int));
            assert(es.take(k + 1).drop_last() =~= es.take(k));
            assert(es.take(k + 1)[k] == e@);
        }
        if is_stale(&e, all) {
            let ghost before = entry_views(removed@);
            removed.push(e);
            proof {
                assert(entry_views(removed@) =~= before.push(e@));
            }
        } else {
            let ghost before = entry_views(kept@);
            kept.push(e);
            proof {
                assert(entry_views(kept@) =~= before.push(e@));
            }
        }
    }
    proof {
        assert(es.take(n as int) =~= es);
    }
    file.ignore = kept;
    removed
}

/// A group is left out of a report exactly when the list names its
/// fingerprint: no group that stays is named, and every group that is not
/// named stays.
pub proof fn law_listed_groups_are_suppressed(gs: Seq<GroupView>, es: Seq<EntryView>)
    ensures
        forall|k: int|
            0 <= k < unsuppressed(gs, es).len() ==> !lists(es, #[trigger] unsuppressed(gs, es)[k].fingerprint),
        forall|i: int|
            0 <= i < gs.len() && !lists(es, gs[i].fingerprint) ==> #[trigger] unsuppressed(gs, es).contains(gs[i]),
        forall|k: int|
            0 <= k < unsuppressed(gs, es).len() ==> #[trigger] gs.contains(unsuppressed(gs, es)[k]),
    decreases gs.len(),
{
    if gs.len() > 0 {
        let front = gs.drop_last();
        law_listed_groups_are_suppressed(front, es);
        let r = unsuppressed(gs, es);
        let rf = unsuppressed(front, es);
        let g = gs[gs.len() - 1];
        assert forall|i: int| 0 <= i < gs.len() && !lists(es, gs[i].fingerprint) implies #[trigger] r.contains(gs[i]) by {
            if i < gs.len() - 1 {
                assert(front[i] == gs[i]);
                assert(rf.contains(front[i]));
                let k = choose|k: int| 0 <= k < rf.len() && rf[k] == front[i];
                assert(r[k] == gs[i]);
            } else {
                assert(r[r.len() - 1] == g);
            }
        }
        assert forall|k: int| 0 <= k < r.len() implies #[trigger] gs.contains(r[k]) by {
            if k < rf.len() {
                assert(r[k] == rf[k]);
                assert(front.contains(rf[k]));
                let j = choose|j: int| 0 <= j < front.len() && front[j] == rf[k];
                assert(gs[j] == r[k]);
            } else {
                assert(r[k] == gs[gs.len() - 1]);
            }
        }
    }
}

/// Once a fingerprint has been added to the list, no group with that
/// fingerprint is reported.
pub proof fn law_added_fingerprint_is_suppressed(gs: Seq<GroupView>, es: Seq<EntryView>, e: EntryView, fp: Fingerprint)
    requires
        e.fingerprint == hex_digits(fp.0 as nat, 16),
    ensures
        forall|k: int|
            0 <= k < unsuppressed(gs, es.push(e)).len() ==> (#[trigger] unsuppressed(gs, es.push(e))[k]).fingerprint != fp,
{
    let es2 = es.push(e);
    assert(es2[es.len() as int] == e);
    assert(lists(es2, fp));
    law_listed_groups_are_suppressed(gs, es2);
}

/// An entry is either stale or live, never both: the two lists split the
/// entries between them.
pub proof fn law_entries_split_into_stale_and_live(es: Seq<EntryView>, all: Seq<Fingerprint>)
    ensures
        stale_entries(es, all).len() + live_entries(es, all).len() == es.len(),
        forall|k: int| 0 <= k < stale_entries(es, all).len() ==> stale(#[trigger] stale_entries(es, all)[k], all),
        forall|k: int| 0 <= k < live_entries(es, all).len() ==> !stale(#[trigger] live_entries(es, all)[k], all),
    decreases es.len(),
{
    if es.len() > 0 {
        law_entries_split_into_stale_and_live(es.drop_last(), all);
    }
}

/// After a cleanup nothing is stale, and a second cleanup changes nothing.
pub proof fn law_cleanup_leaves_nothing_stale(es: Seq<EntryView>, all: Seq<Fingerprint>)
    ensures
        stale_entries(live_entries(es, all), all) == Seq::<EntryView>::empty(),
        live_entries(live_entries(es, all), all) == live_entries(es, all),
    decreases es.len(),
{
    if es.len() > 0 {
        let front = es.drop_last();
        law_cleanup_leaves_nothing_stale(front, all);
        let e = es[es.len() - 1];
        let l = live_entries(es, all);
        if !stale(e, all) {
            assert(l.drop_last() =~= live_entries(front, all));
        }
    }
}

} // verus!
