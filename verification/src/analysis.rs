//! The analysis pipeline: exact groups, near groups, optionally the same
//! for sub-function units, the ignore list applied, and the statistics.
use vstd::prelude::*;
use vstd::relations::sorted_by;

use crate::code_unit::{CodeUnit, UnitView};
use crate::config::Config;
use crate::extractor::{all_within, extract, extract_sub_units, lemma_extract_within, sub_views, SubUnitView};
use crate::fingerprint::{encode, hash_of_writes, Fingerprint};
use crate::grouper::{
    compute_stats_with_sub, exact_candidates, group_exact_duplicates, group_lines_of, group_views,
    lines_of, members_of, report_order, unit_views, wrapped, DuplicateGroup, DuplicationStats,
    GroupView,
};
use crate::ignore::{entry_views, filter_ignored, unsuppressed, EntryView, IgnoreFile};
use crate::near_groups::{find_near_duplicates, near_groups};
use crate::node::{NodeKind, NormalizedNode};
use crate::rust_normal_form::leaf_of;
use crate::similarity::Ratio;

verus! {

/// The result of an analysis run.
#[derive(Debug)]
pub struct AnalysisResult {
    pub stats: DuplicationStats,
    pub exact_groups: Vec<DuplicateGroup>,
    pub near_groups: Vec<DuplicateGroup>,
    pub sub_exact_groups: Vec<DuplicateGroup>,
    pub sub_near_groups: Vec<DuplicateGroup>,
    pub warnings: Vec<String>,
    /// The fingerprints of every group found, before the ignore list was
    /// applied: exact, near, sub-function exact and sub-function near.
    pub all_fingerprints: Vec<Fingerprint>,
}

/// The fingerprints of a sequence of groups.
pub open spec fn group_fps(gs: Seq<GroupView>) -> Seq<Fingerprint> {
    gs.map_values(|g: GroupView| g.fingerprint)
}

/// The unit that a sub-unit of `parent` becomes: named by its description,
/// placed at its parent's lines, with an opaque signature, and a
/// fingerprint of its tree alone.
pub open spec fn sub_unit_of(parent: UnitView, su: SubUnitView) -> UnitView {
    UnitView {
        kind: su.kind,
        name: su.description,
        file: parent.file,
        line_start: parent.line_start,
        line_end: parent.line_end,
        signature: leaf_of(NodeKind::Opaque),
        body: su.tree,
        fingerprint: Fingerprint(hash_of_writes(seq![encode(su.tree)])),
        node_count: su.node_count,
        parent_name: Some(parent.name),
        is_test: parent.is_test,
    }
}

/// The sub-function units of the units, unit by unit, in the order of
/// extraction.
pub open spec fn sub_units_of(us: Seq<UnitView>, min: nat) -> Seq<UnitView>
    decreases us.len(),
{
    if us.len() == 0 {
        Seq::empty()
    } else {
        let parent = us[us.len() - 1];
        sub_units_of(us.drop_last(), min) + extract(parent.body, min).map_values(
            |su: SubUnitView| sub_unit_of(parent, su),
        )
    }
}

/// The groups an analysis finds before the ignore list is applied, up to
/// the order of groups that tie in the report order: `e` exact, `n` near,
/// `se` and `sn` the same for sub-function units when they are analysed.
pub open spec fn groupings(
    us: Seq<UnitView>,
    threshold: Ratio,
    sub_function: bool,
    min_sub_nodes: nat,
    e: Seq<GroupView>,
    n: Seq<GroupView>,
    se: Seq<GroupView>,
    sn: Seq<GroupView>,
) -> bool {
    &&& e.to_multiset() == exact_candidates(us).to_multiset()
    &&& sorted_by(e, report_order())
    &&& n.to_multiset() == near_groups(us, group_fps(e), threshold).to_multiset()
    &&& sorted_by(n, report_order())
    &&& if sub_function {
        let subs = sub_units_of(us, min_sub_nodes);
        &&& se.to_multiset() == exact_candidates(subs).to_multiset()
        &&& sorted_by(se, report_order())
        &&& sn.to_multiset() == near_groups(subs, group_fps(se), threshold).to_multiset()
        &&& sorted_by(sn, report_order())
    } else {
        se.len() == 0 && sn.len() == 0
    }
}

/// What an analysis of the units gives: the groups found, up to the order
/// of ties, with those the ignore entries name removed; the fingerprints
/// of all groups found; and the statistics of what remains.
pub open spec fn analysis_of(
    us: Seq<UnitView>,
    threshold: Ratio,
    sub_function: bool,
    min_sub_nodes: nat,
    entries: Seq<EntryView>,
    r: AnalysisResult,
) -> bool {
    &&& exists|e: Seq<GroupView>, n: Seq<GroupView>, se: Seq<GroupView>, sn: Seq<GroupView>|
        #[trigger] groupings(us, threshold, sub_function, min_sub_nodes, e, n, se, sn)
            && group_views(r.exact_groups@) == unsuppressed(e, entries)
            && group_views(r.near_groups@) == unsuppressed(n, entries)
            && group_views(r.sub_exact_groups@) == unsuppressed(se, entries)
            && group_views(r.sub_near_groups@) == unsuppressed(sn, entries)
            && r.all_fingerprints@ == group_fps(e) + group_fps(n) + group_fps(se) + group_fps(sn)
    &&& r.stats.total_code_units == us.len()
    &&& r.stats.total_lines == wrapped(lines_of(us))
    &&& r.stats.exact_duplicate_groups == r.exact_groups@.len()
    &&& r.stats.exact_duplicate_units == wrapped(members_of(group_views(r.exact_groups@)))
    &&& r.stats.near_duplicate_groups == r.near_groups@.len()
    &&& r.stats.near_duplicate_units == wrapped(members_of(group_views(r.near_groups@)))
    &&& r.stats.exact_duplicate_lines == wrapped(group_lines_of(group_views(r.exact_groups@)))
    &&& r.stats.near_duplicate_lines == wrapped(group_lines_of(group_views(r.near_groups@)))
    &&& r.stats.sub_exact_groups == r.sub_exact_groups@.len()
    &&& r.stats.sub_exact_units == wrapped(members_of(group_views(r.sub_exact_groups@)))
    &&& r.stats.sub_near_groups == r.sub_near_groups@.len()
    &&& r.stats.sub_near_units == wrapped(members_of(group_views(r.sub_near_groups@)))
}

/// The fingerprints of the groups.
fn fingerprints_of_groups(groups: &Vec<DuplicateGroup>) -> (r: Vec<Fingerprint>)
    ensures
        r@ == group_fps(group_views(groups@)),
{
    let mut out: Vec<Fingerprint> = Vec::new();
    let n = groups.len();
    for i in 0..n
        invariant
            n == groups@.len(),
            out@ == group_fps(group_views(groups@.take(i as int))),
    {
        out.push(groups[i].fingerprint);
        proof {
            assert(group_fps(group_views(groups@.take(i + 1))) =~= group_fps(
                group_views(groups@.take(i as int)),
            ).push(groups@[i as int].fingerprint));
        }
    }
    proof {
        assert(groups@.take(n as int) =~= groups@);
    }
    out
}

/// The sub-function units of one unit.
fn add_sub_units(unit: &CodeUnit, min_sub_nodes: usize, out: &mut Vec<CodeUnit>)
    requires
        2 * unit@.body.size() <= usize::MAX,
        forall|k: int| 0 <= k < old(out)@.len() ==> 2 * (#[trigger] old(out)@[k]@).body.size() <= usize::MAX,
    ensures
        unit_views(final(out)@) == unit_views(old(out)@) + extract(unit@.body, min_sub_nodes as nat).map_values(
            |su: SubUnitView| sub_unit_of(unit@, su),
        ),
        forall|k: int| 0 <= k < final(out)@.len() ==> 2 * (#[trigger] final(out)@[k]@).body.size() <= usize::MAX,
{
    let ghost parent = unit@;
    let ghost start = unit_views(out@);
    let mut subs = extract_sub_units(&unit.body, min_sub_nodes);
    let ghost all = sub_views(subs@);
    let ghost mapped = all.map_values(|su: SubUnitView| sub_unit_of(parent, su));
    proof {
        lemma_extract_within(unit@.body, min_sub_nodes as nat);
    }
    let m = subs.len();
    let mut rest = subs;
    proof {
        assert(rest@ =~= subs@.subrange(0, m as int));
        assert(mapped.take(0) =~= Seq::<UnitView>::empty());
        assert(start + mapped.take(0) =~= start);
    }
    while rest.len() > 0
        invariant
            m == subs@.len(),
            all == sub_views(subs@),
            all_within(all, parent.body.size()),
            2 * parent.body.size() <= usize::MAX,
            parent == unit@,
            mapped == all.map_values(|su: SubUnitView| sub_unit_of(parent, su)),
            rest@.len() <= m,
            rest@ == subs@.subrange(m - rest@.len(), m as int),
            unit_views(out@) == start + mapped.take(m - rest@.len()),
            forall|k: int| 0 <= k < out@.len() ==> 2 * (#[trigger] out@[k]@).body.size() <= usize::MAX,
        decreases rest@.len(),
    {
        let ghost k = m - rest@.len();
        let su = rest.remove(0);
        proof {
            assert(su == subs@[k]);
            assert(rest@ =~= subs@.subrange(k + 1, m as int));
            assert(all[k] == su.view());
            assert(all[k].tree.size() <= parent.body.size());
        }
        let fingerprint = Fingerprint::from_node(&su.node);
        let sub = CodeUnit {
            kind: su.kind,
            name: su.description,
            file: unit.file.clone(),
            line_start: unit.line_start,
            line_end: unit.line_end,
            signature: NormalizedNode::leaf(NodeKind::Opaque),
            body: su.node,
            fingerprint,
            node_count: su.node_count,
            parent_name: Some(unit.name.clone()),
            is_test: unit.is_test,
        };
        let ghost before = out@;
        out.push(sub);
        proof {
            assert(sub@ == sub_unit_of(parent, all[k]));
            assert(mapped.take(k + 1) =~= mapped.take(k).push(mapped[k]));
            assert(unit_views(out@) =~= unit_views(before).push(sub@));
            assert forall|q: int| 0 <= q < out@.len() implies 2 * (#[trigger] out@[q]@).body.size()
                <= usize::MAX by {
                if q < before.len() {
                    assert(out@[q] == before[q]);
                }
            }
        }
    }
    proof {
        assert(mapped.take(m as int) =~= mapped);
    }
}

/// The sub-function units of all the units.
fn collect_sub_units(units: &[CodeUnit], min_sub_nodes: usize) -> (r: Vec<CodeUnit>)
    requires
        forall|k: int| 0 <= k < units@.len() ==> 2 * (#[trigger] units@[k]@).body.size() <= usize::MAX,
    ensures
        unit_views(r@) == sub_units_of(unit_views(units@), min_sub_nodes as nat),
        forall|k: int| 0 <= k < r@.len() ==> 2 * (#[trigger] r@[k]@).body.size() <= usize::MAX,
{
    let ghost us = unit_views(units@);
    let mut out: Vec<CodeUnit> = Vec::new();
    let n = units.len();
    proof {
        assert(unit_views(out@) =~= Seq::<UnitView>::empty());
    }
    for i in 0..n
        invariant
            n == units@.len(),
            us == unit_views(units@),
            forall|k: int| 0 <= k < n ==> 2 * (#[trigger] units@[k]@).body.size() <= usize::MAX,
            unit_views(out@) == sub_units_of(us.take(i as int), min_sub_nodes as nat),
            forall|k: int| 0 <= k < out@.len() ==> 2 * (#[trigger] out@[k]@).body.size() <= usize::MAX,
    {
        proof {
            assert(us.take(i + 1).drop_last() =~= us.take(i as int));
            assert(us.take(i + 1)[i as int] == units@[i as int]@);
            assert(2 * units@[i as int]@.body.size() <= usize::MAX);
        }
        add_sub_units(&units[i], min_sub_nodes, &mut out);
    }
    proof {
        assert(us.take(n as int) =~= us);
    }
    out
}

/// Runs the analysis on parsed units: exact groups; near groups among the
/// units that are not exact duplicates; when sub-function analysis is on,
/// the same for the units' branches, arms and loop and closure bodies;
/// every group's fingerprint is recorded, the ignore list removes the
/// groups it names, and the statistics are taken over what remains.
pub fn analyze_units(
    units: &[CodeUnit],
    warnings: Vec<String>,
    config: &Config,
    ignore_file: &IgnoreFile,
) -> (r: AnalysisResult)
    requires
        config.similarity_threshold.den > 0,
        forall|k: int| 0 <= k < units@.len() ==> 2 * (#[trigger] units@[k]@).body.size() <= usize::MAX,
    ensures
        r.warnings@ == warnings@,
        analysis_of(
            unit_views(units@),
            config.similarity_threshold,
            config.sub_function,
            config.min_sub_nodes as nat,
            entry_views(ignore_file.ignore@),
            r,
        ),
{
    let threshold = config.similarity_threshold;
    let exact_groups = group_exact_duplicates(units);
    let exact_fps = fingerprints_of_groups(&exact_groups);
    let near = find_near_duplicates(units, threshold, exact_fps.as_slice());
    let (sub_exact, sub_near) = if config.sub_function {
        let subs = collect_sub_units(units, config.min_sub_nodes);
        let se = group_exact_duplicates(subs.as_slice());
        let se_fps = fingerprints_of_groups(&se);
        let sn = find_near_duplicates(subs.as_slice(), threshold, se_fps.as_slice());
        (se, sn)
    } else {
        (Vec::new(), Vec::new())
    };
    let ghost e = group_views(exact_groups@);
    let ghost n = group_views(near@);
    let ghost se = group_views(sub_exact@);
    let ghost sn = group_views(sub_near@);
    let mut all_fingerprints = fingerprints_of_groups(&exact_groups);
    let mut near_fps = fingerprints_of_groups(&near);
    let mut sub_exact_fps = fingerprints_of_groups(&sub_exact);
    let mut sub_near_fps = fingerprints_of_groups(&sub_near);
    all_fingerprints.append(&mut near_fps);
    all_fingerprints.append(&mut sub_exact_fps);
    all_fingerprints.append(&mut sub_near_fps);
    proof {
        assert(groupings(
            unit_views(units@),
            threshold,
            config.sub_function,
            config.min_sub_nodes as nat,
            e,
            n,
            se,
            sn,
        ));
    }
    let exact_groups = filter_ignored(exact_groups, ignore_file);
    let near_groups = filter_ignored(near, ignore_file);
    let sub_exact_groups = filter_ignored(sub_exact, ignore_file);
    let sub_near_groups = filter_ignored(sub_near, ignore_file);
    let stats = compute_stats_with_sub(
        units,
        exact_groups.as_slice(),
        near_groups.as_slice(),
        sub_exact_groups.as_slice(),
        sub_near_groups.as_slice(),
    );
    let r = AnalysisResult {
        stats,
        exact_groups,
        near_groups,
        sub_exact_groups,
        sub_near_groups,
        warnings,
        all_fingerprints,
    };
    proof {
        assert(groupings(
            unit_views(units@),
            threshold,
            config.sub_function,
            config.min_sub_nodes as nat,
            e,
            n,
            se,
            sn,
        ));
    }
    r
}

/// What became of one file given to the analysis: its text could not be
/// read, or what parsing it gave.
#[derive(Debug)]
pub enum FileOutcome {
    Unreadable { path: String, message: String },
    Parsed(Result<Vec<CodeUnit>, String>),
}

/// The units that an analysis of the files takes: those of every file that
/// parsed, without the test code when it is excluded.
pub open spec fn outcome_units(files: Seq<FileOutcome>, exclude_tests: bool) -> Seq<UnitView>
    decreases files.len(),
{
    if files.len() == 0 {
        Seq::empty()
    } else {
        let front = outcome_units(files.drop_last(), exclude_tests);
        match files[files.len() - 1] {
            FileOutcome::Parsed(Ok(units)) => front + unit_views(units@).filter(
                |u: UnitView| !(exclude_tests && u.is_test),
            ),
            _ => front,
        }
    }
}

/// The message for a file whose text could not be read.
pub open spec fn read_failure(path: Seq<char>, message: Seq<char>) -> Seq<char> {
    "Failed to read "@ + path + ": "@ + message
}

/// The warnings of an analysis of the files: one for each file that could
/// not be read or parsed, in order.
pub open spec fn outcome_warnings(files: Seq<FileOutcome>) -> Seq<Seq<char>>
    decreases files.len(),
{
    if files.len() == 0 {
        Seq::empty()
    } else {
        let front = outcome_warnings(files.drop_last());
        match files[files.len() - 1] {
            FileOutcome::Unreadable { path, message } => front.push(read_failure(path@, message@)),
            FileOutcome::Parsed(Err(m)) => front.push(m@),
            FileOutcome::Parsed(Ok(_)) => front,
        }
    }
}

/// The units of one parsed file that the analysis takes.
fn keep_units(units: Vec<CodeUnit>, exclude_tests: bool, out: &mut Vec<CodeUnit>)
    ensures
        unit_views(final(out)@) == unit_views(old(out)@) + unit_views(units@).filter(
            |u: UnitView| !(exclude_tests && u.is_test),
        ),
{
    let ghost start = unit_views(out@);
    let ghost all = units@;
    let ghost pred = |u: UnitView| !(exclude_tests && u.is_test);
    let n = units.len();
    let mut rest = units;
    proof {
        assert(rest@ =~= all.subrange(0, n as int));
        assert(unit_views(all.take(0)).filter(pred) =~= Seq::<UnitView>::empty());
        assert(start + Seq::<UnitView>::empty() =~= start);
    }
    while rest.len() > 0
        invariant
            n == all.len(),
            pred == (|u: UnitView| !(exclude_tests && u.is_test)),
            rest@.len() <= n,
            rest@ == all.subrange(n - rest@.len(), n as int),
            unit_views(out@) == start + unit_views(all.take(n - rest@.len())).filter(pred),
        decreases rest@.len(),
    {
        let ghost k = n - rest@.len();
        let u = rest.remove(0);
        proof {
            assert(u == all[k]);
            assert(rest@ =~= all.subrange(k + 1, n as int));
            assert(unit_views(all.take(k + 1)) =~= unit_views(all.take(k)).push(u@));
            unit_views(all.take(k)).lemma_filter_push(u@, pred);
        }
        if !(exclude_tests && u.is_test) {
            let ghost before = unit_views(out@);
            out.push(u);
            proof {
                assert(unit_views(out@) =~= before.push(u@));
            }
        }
    }
    proof {
        assert(all.take(n as int) =~= all);
    }
}

/// Runs the analysis on the files that were found: each file that parsed
/// gives its units, without the test code when it is excluded; each file
/// that could not be read or parsed gives a warning, and the others go on.
pub fn analyze(files: Vec<FileOutcome>, config: &Config, ignore_file: &IgnoreFile) -> (r:
    AnalysisResult)
    requires
        config.similarity_threshold.den > 0,
        forall|k: int|
            0 <= k < outcome_units(files@, config.exclude_tests).len() ==> 2 * (
            #[trigger] outcome_units(files@, config.exclude_tests)[k]).body.size() <= usize::MAX,
    ensures
        r.warnings@.map_values(|w: String| w@) == outcome_warnings(files@),
        analysis_of(
            outcome_units(files@, config.exclude_tests),
            config.similarity_threshold,
            config.sub_function,
            config.min_sub_nodes as nat,
            entry_views(ignore_file.ignore@),
            r,
        ),
{
    let ghost all = files@;
    let ghost n = all.len();
    let mut units: Vec<CodeUnit> = Vec::new();
    let mut warnings: Vec<String> = Vec::new();
    let mut rest = files;
    proof {
        assert(rest@ =~= all.subrange(0, n as int));
        assert(unit_views(units@) =~= Seq::<UnitView>::empty());
        assert(warnings@.map_values(|w: String| w@) =~= Seq::<Seq<char>>::empty());
    }
    while rest.len() > 0
        invariant
            n == all.len(),
            rest@.len() <= n,
            rest@ == all.subrange(n - rest@.len(), n as int),
            unit_views(units@) == outcome_units(all.take(n - rest@.len()), config.exclude_tests),
            warnings@.map_values(|w: String| w@) == outcome_warnings(all.take(n - rest@.len())),
        decreases rest@.len(),
    {
        let ghost k = n - rest@.len();
        let outcome = rest.remove(0);
        proof {
            assert(outcome == all[k]);
            assert(rest@ =~= all.subrange(k + 1, n as int));
            assert(all.take(k + 1).drop_last() =~= all.take(k));
        }
        let ghost w0 = warnings@.map_values(|w: String| w@);
        match outcome {
            FileOutcome::Unreadable { path, message } => {
                let mut m = "Failed to read ".to_string();
                m.append(path.as_str());
                m.append(": ");
                m.append(message.as_str());
                warnings.push(m);
                proof {
                    assert(warnings@.map_values(|w: String| w@) =~= w0.push(m@));
                }
            },
            FileOutcome::Parsed(Ok(file_units)) => {
                keep_units(file_units, config.exclude_tests, &mut units);
            },
            FileOutcome::Parsed(Err(m)) => {
                warnings.push(m);
                proof {
                    assert(warnings@.map_values(|w: String| w@) =~= w0.push(m@));
                }
            },
        }
    }
    proof {
        assert(all.take(n as int) =~= all);
        assert forall|k: int| 0 <= k < units@.len() implies 2 * (#[trigger] units@[k]@).body.size()
            <= usize::MAX by {
            assert(unit_views(units@)[k] == units@[k]@);
        }
    }
    let ghost ws = warnings@;
    let r = analyze_units(units.as_slice(), warnings, config, ignore_file);
    proof {
        assert(r.warnings@.map_values(|w: String| w@) == ws.map_values(|w: String| w@));
    }
    r
}

} // verus!
