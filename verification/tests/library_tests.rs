//! Tests of the analysis, the ignore list, the commands' decisions and the
//! helpers around them, on hand-built values.

use dupes::analysis::{analyze, analyze_units, FileOutcome};
use dupes::cli::{
    apply_overrides, breached_sections, cmd_check, cmd_cleanup, cmd_ignore, cmd_ignored, create_reporter,
    write_ignore_entry, Breach, CheckThresholds, CliError, CliOverrides, OutputFormat,
};
use dupes::code_unit::{CodeUnit, CodeUnitKind};
use dupes::config::{Config, Percentage};
use dupes::extractor::extract_sub_units;
use dupes::fingerprint::Fingerprint;
use dupes::grouper::{
    compute_stats, compute_stats_with_sub, find_near_duplicates, group_exact_duplicates,
    line_count, DuplicateGroup, DuplicationStats,
};
use dupes::ignore::{add_ignore, filter_ignored, find_stale_entries, remove_stale_entries, IgnoreEntry, IgnoreFile};
use dupes::node::{count_nodes, BinOpKind, LiteralKind, NodeKind, NormalizedNode, PlaceholderKind};
use dupes::normalization_context::NormalizationContext;
use dupes::reindex::reindex_placeholders;
use dupes::scanner::{enters_directory, is_excluded, keeps_file, ScanConfig};
use dupes::similarity::{similarity_score, Ratio};
use dupes::text::{decimal_string, join_strings, str_contains};
use dupes::union_find::UnionFind;

// ── Builders ──────────────────────────────────────────────────────────────

fn var(i: usize) -> NormalizedNode {
    NormalizedNode::leaf(NodeKind::Placeholder(PlaceholderKind::Variable, i))
}

fn int_lit() -> NormalizedNode {
    NormalizedNode::leaf(NodeKind::Literal(LiteralKind::Int))
}

fn add(a: NormalizedNode, b: NormalizedNode) -> NormalizedNode {
    NormalizedNode::node2(NodeKind::BinaryOp(BinOpKind::Add), a, b)
}

fn mul(a: NormalizedNode, b: NormalizedNode) -> NormalizedNode {
    NormalizedNode::node2(NodeKind::BinaryOp(BinOpKind::Mul), a, b)
}

fn block(stmts: Vec<NormalizedNode>) -> NormalizedNode {
    NormalizedNode::with_children(NodeKind::Block, stmts)
}

fn unit(name: &str, body: NormalizedNode, line_start: usize, line_end: usize) -> CodeUnit {
    let signature = NormalizedNode::leaf(NodeKind::Opaque);
    let fingerprint = Fingerprint::from_sig_and_body(&signature, &body);
    let node_count = count_nodes(&signature) + count_nodes(&body);
    CodeUnit {
        kind: CodeUnitKind::Function,
        name: name.to_string(),
        file: "src/lib.rs".to_string(),
        line_start,
        line_end,
        signature,
        body,
        fingerprint,
        node_count,
        parent_name: None,
        is_test: false,
    }
}

fn group(fp: u64, members: Vec<CodeUnit>) -> DuplicateGroup {
    DuplicateGroup { fingerprint: Fingerprint(fp), members, similarity: Ratio { num: 1, den: 1 } }
}

fn stats(total_lines: usize, exact_groups: usize, near_groups: usize, exact_lines: usize, near_lines: usize) -> DuplicationStats {
    DuplicationStats {
        total_code_units: 0,
        total_lines,
        exact_duplicate_groups: exact_groups,
        exact_duplicate_units: 0,
        near_duplicate_groups: near_groups,
        near_duplicate_units: 0,
        exact_duplicate_lines: exact_lines,
        near_duplicate_lines: near_lines,
        sub_exact_groups: 0,
        sub_exact_units: 0,
        sub_near_groups: 0,
        sub_near_units: 0,
    }
}

fn no_thresholds() -> CheckThresholds {
    CheckThresholds { max_exact: None, max_near: None, max_exact_percent: None, max_near_percent: None }
}

// ── Scanner ───────────────────────────────────────────────────────────────

#[test]
fn is_excluded_works() {
    let path = "/foo/bar/tests/test.rs";
    assert!(is_excluded(path, &["tests".to_string()]));
    assert!(!is_excluded(path, &["benches".to_string()]));
}

#[test]
fn scan_skips_target_and_hidden_directories_but_not_a_hidden_root() {
    assert!(!enters_directory("target", false));
    assert!(!enters_directory(".git", false));
    assert!(enters_directory(".", true));
    assert!(enters_directory("src", false));
}

#[test]
fn scan_keeps_wanted_extensions_that_are_not_excluded() {
    let config = ScanConfig::new("/p".to_string()).with_excludes(vec!["utils".to_string()]);
    assert!(keeps_file("/p/src/main.rs", Some("rs"), &config));
    assert!(keeps_file("/p/src/MAIN.RS", Some("RS"), &config));
    assert!(!keeps_file("/p/src/utils.rs", Some("rs"), &config));
    assert!(!keeps_file("/p/README", None, &config));
    assert!(!keeps_file("/p/a.py", Some("py"), &config));
}

// ── Similarity and union-find ─────────────────────────────────────────────

#[test]
fn similarity_of_identical_trees_is_one_and_symmetric() {
    let a = block(vec![add(var(0), int_lit())]);
    let b = block(vec![mul(var(0), int_lit())]);
    let same = similarity_score(&a, &a);
    assert_eq!(same.num, same.den);
    let ab = similarity_score(&a, &b);
    let ba = similarity_score(&b, &a);
    assert_eq!((ab.num, ab.den), (ba.num, ba.den));
    // Block and the two leaves match, the operator does not: 2 * 3 / (4 + 4).
    assert_eq!((ab.num, ab.den), (6, 8));
}

#[test]
fn similarity_of_unlike_roots_is_zero() {
    let a = add(var(0), int_lit());
    let b = NormalizedNode::node2(NodeKind::Index, var(0), int_lit());
    let r = similarity_score(&a, &b);
    assert_eq!((r.num, r.den), (0, 6));
    let c = mul(var(0), int_lit());
    let r2 = similarity_score(&a, &c);
    assert_eq!((r2.num, r2.den), (4, 6));
}

#[test]
fn ratio_comparison() {
    assert!(Ratio { num: 1, den: 2 }.le(&Ratio { num: 2, den: 4 }));
    assert!(Ratio { num: 1, den: 3 }.le(&Ratio { num: 1, den: 2 }));
    assert!(!Ratio { num: 2, den: 3 }.le(&Ratio { num: 1, den: 2 }));
}

#[test]
fn union_find_joins_transitively() {
    let mut uf = UnionFind::new(5);
    uf.union(0, 1);
    uf.union(1, 2);
    uf.union(2, 3);
    let r0 = uf.find(0);
    assert_eq!(uf.find(3), r0);
    assert_ne!(uf.find(4), r0);
    assert_eq!(uf.len(), 5);
    assert!(!uf.is_empty());
    let mut fresh = UnionFind::new(3);
    assert_eq!(fresh.find(2), 2);
    assert!(UnionFind::new(0).is_empty());
}

// ── Grouping ──────────────────────────────────────────────────────────────

#[test]
fn empty_input_no_groups() {
    let groups = group_exact_duplicates(&[]);
    assert!(groups.is_empty());
}

#[test]
fn exact_groups_hold_units_with_one_fingerprint() {
    let units = vec![
        unit("a", block(vec![add(var(0), int_lit())]), 1, 3),
        unit("b", block(vec![mul(var(0), int_lit())]), 4, 6),
        unit("c", block(vec![add(var(0), int_lit())]), 7, 9),
    ];
    let groups = group_exact_duplicates(&units);
    assert_eq!(groups.len(), 1);
    let names: Vec<&str> = groups[0].members.iter().map(|u| u.name.as_str()).collect();
    assert_eq!(names, vec!["a", "c"]);
    assert_eq!(groups[0].fingerprint, units[0].fingerprint);
}

#[test]
fn near_groups_join_similar_units_above_the_threshold() {
    let long = |op: NodeKind| {
        block(vec![
            add(var(0), int_lit()),
            add(var(1), var(0)),
            add(var(2), var(1)),
            NormalizedNode::node2(op, var(2), int_lit()),
        ])
    };
    let units = vec![
        unit("a", long(NodeKind::BinaryOp(BinOpKind::Add)), 1, 5),
        unit("b", long(NodeKind::BinaryOp(BinOpKind::Sub)), 6, 10),
        unit("c", block(vec![int_lit()]), 11, 12),
    ];
    let exact = group_exact_duplicates(&units);
    assert!(exact.is_empty());
    let near = find_near_duplicates(&units, Ratio { num: 8, den: 10 }, &[]);
    assert_eq!(near.len(), 1);
    assert_eq!(near[0].members.len(), 2);
    let expected = Fingerprint::from_fingerprints(&[units[0].fingerprint, units[1].fingerprint]);
    assert_eq!(near[0].fingerprint, expected);
    assert!(Ratio { num: 8, den: 10 }.le(&near[0].similarity));
    let strict = find_near_duplicates(&units, Ratio { num: 1, den: 1 }, &[]);
    assert!(strict.is_empty());
}

#[test]
fn stats_count_units_groups_and_lines() {
    let a = unit("a", block(vec![int_lit()]), 1, 3);
    let b = unit("b", block(vec![int_lit()]), 5, 9);
    assert_eq!(line_count(&a), 3);
    assert_eq!(line_count(&unit("z", block(vec![]), 5, 2)), 1);
    let units = vec![a, b];
    let exact = group_exact_duplicates(&units);
    let s = compute_stats(&units, &exact, &[]);
    assert_eq!(s.total_code_units, 2);
    assert_eq!(s.total_lines, 8);
    assert_eq!(s.exact_duplicate_groups, 1);
    assert_eq!(s.exact_duplicate_units, 2);
    assert_eq!(s.exact_duplicate_lines, 8);
    let sub = vec![group(9, vec![unit("s", block(vec![]), 1, 1)])];
    let s2 = compute_stats_with_sub(&units, &exact, &[], &sub, &[]);
    assert_eq!(s2.sub_exact_groups, 1);
    assert_eq!(s2.sub_exact_units, 1);
    assert_eq!(s2.sub_near_groups, 0);
}

#[test]
fn reindexing_renumbers_in_first_seen_order() {
    let n = add(var(7), add(var(3), var(7)));
    let r = reindex_placeholders(&n);
    assert_eq!(r, add(var(0), add(var(1), var(0))));
}

#[test]
fn placeholders_are_numbered_per_kind() {
    let mut ctx = NormalizationContext::new();
    assert_eq!(ctx.placeholder("x", PlaceholderKind::Variable), 0);
    assert_eq!(ctx.placeholder("f", PlaceholderKind::Function), 0);
    assert_eq!(ctx.placeholder("y", PlaceholderKind::Variable), 1);
    assert_eq!(ctx.placeholder("x", PlaceholderKind::Variable), 0);
}

#[test]
fn sub_units_of_an_if() {
    let then_b = block(vec![add(var(1), int_lit()), mul(var(1), int_lit())]);
    let else_b = block(vec![var(1)]);
    let body = block(vec![NormalizedNode::node3(NodeKind::If, var(0), then_b, else_b)]);
    let subs = extract_sub_units(&body, 3);
    let descriptions: Vec<&str> = subs.iter().map(|s| s.description.as_str()).collect();
    assert_eq!(descriptions, vec!["if-then branch"]);
    assert_eq!(subs[0].kind, CodeUnitKind::IfBranch);
    assert_eq!(subs[0].node, block(vec![add(var(0), int_lit()), mul(var(0), int_lit())]));
}

// ── Ignore list ───────────────────────────────────────────────────────────

#[test]
fn ignored_groups_are_filtered_out() {
    let mut file = IgnoreFile::new();
    add_ignore(&mut file, &Fingerprint(1), Some("known".to_string()), vec!["a".to_string()]);
    add_ignore(&mut file, &Fingerprint(1), None, vec![]);
    assert_eq!(file.ignore.len(), 1);
    assert!(file.contains(&Fingerprint(1)));
    assert!(!file.contains(&Fingerprint(2)));
    let kept = filter_ignored(vec![group(1, vec![]), group(2, vec![]), group(3, vec![])], &file);
    let fps: Vec<u64> = kept.iter().map(|g| g.fingerprint.0).collect();
    assert_eq!(fps, vec![2, 3]);
}

#[test]
fn stale_entries_are_found_and_removed() {
    let mut file = IgnoreFile::new();
    add_ignore(&mut file, &Fingerprint(1), None, vec![]);
    add_ignore(&mut file, &Fingerprint(2), None, vec![]);
    file.ignore.push(IgnoreEntry { fingerprint: "zz".to_string(), reason: None, members: vec![] });
    let all = [Fingerprint(2)];
    let stale: Vec<String> = find_stale_entries(&file, &all).into_iter().map(|e| e.fingerprint).collect();
    assert_eq!(stale, vec!["0000000000000001".to_string(), "zz".to_string()]);
    let removed = remove_stale_entries(&mut file, &all);
    assert_eq!(removed.len(), 2);
    assert_eq!(file.ignore.len(), 1);
    assert_eq!(file.ignore[0].fingerprint, "0000000000000002");
    assert!(find_stale_entries(&file, &all).is_empty());
}

// ── Commands ──────────────────────────────────────────────────────────────

#[test]
fn error_texts_and_exit_codes() {
    assert_eq!(CliError::CheckFailed.exit_code(), 1);
    assert_eq!(CliError::CheckFailed.to_string(), "Check failed");
    assert_eq!(CliError::Io("disk full".to_string()).exit_code(), 2);
    assert_eq!(CliError::Io("disk full".to_string()).to_string(), "disk full");
    assert_eq!(CliError::NoSourceFiles("src".to_string()).to_string(), "No source files found in src");
    assert_eq!(
        CliError::NoRecognizedFiles.to_string(),
        "No recognized source files found. Use --language to specify the language."
    );
    assert_eq!(
        CliError::AmbiguousLanguage(vec!["python".to_string(), "rust".to_string()]).to_string(),
        "Multiple languages detected: python, rust. Use --language to specify which to analyze."
    );
    assert_eq!(CliError::Analysis("bad".to_string()).to_string(), "bad");
    assert_eq!(CliError::InvalidFingerprint("xyz".to_string()).to_string(), "Invalid fingerprint: xyz");
    assert_eq!(CliError::InvalidFingerprint("xyz".to_string()).exit_code(), 2);
}

#[test]
fn check_passes_without_ceilings() {
    let config = Config::new(".".to_string());
    let (breaches, result) = cmd_check(&config, &stats(100, 5, 5, 50, 50), &no_thresholds());
    assert!(breaches.is_empty());
    assert!(result.is_ok());
}

#[test]
fn check_reports_every_ceiling_exceeded() {
    let mut config = Config::new(".".to_string());
    config.max_near_duplicates = Some(10);
    config.max_exact_percent = Some(Percentage { num: 25, den: 1 });
    let thresholds = CheckThresholds {
        max_exact: Some(1),
        max_near: None,
        max_exact_percent: None,
        max_near_percent: Some(Percentage { num: 10, den: 1 }),
    };
    let (breaches, result) = cmd_check(&config, &stats(200, 2, 3, 50, 30), &thresholds);
    assert_eq!(
        breaches,
        vec![
            Breach::ExactGroups { count: 2, max: 1 },
            Breach::NearPercent { max_percent: Percentage { num: 10, den: 1 } },
        ]
    );
    assert!(matches!(result, Err(CliError::CheckFailed)));
    let (exact_at_limit, _) = cmd_check(&config, &stats(200, 0, 0, 50, 0), &no_thresholds());
    assert!(exact_at_limit.is_empty());
    let (exact_over, _) = cmd_check(&config, &stats(200, 0, 0, 51, 0), &no_thresholds());
    assert_eq!(exact_over, vec![Breach::ExactPercent { max_percent: Percentage { num: 25, den: 1 } }]);
}

#[test]
fn ignore_command_adds_valid_fingerprints_only() {
    let mut file = IgnoreFile::new();
    let ok = cmd_ignore(&mut file, "00000000000000ff", Some("generated".to_string()));
    assert_eq!(ok.unwrap(), "Added 00000000000000ff to ignore list.");
    assert!(file.contains(&Fingerprint(255)));
    let err = cmd_ignore(&mut file, "nope", None);
    assert!(matches!(err, Err(CliError::InvalidFingerprint(ref f)) if f == "nope"));
    assert_eq!(file.ignore.len(), 1);
    assert_eq!(
        cmd_ignored(&file),
        vec!["Ignored fingerprints:".to_string(), "  00000000000000ff (reason: generated)".to_string()]
    );
    assert_eq!(cmd_ignored(&IgnoreFile::new()), vec!["No ignored fingerprints.".to_string()]);
}

#[test]
fn entry_line_shows_reason_and_members() {
    let e = IgnoreEntry {
        fingerprint: "0000000000000001".to_string(),
        reason: None,
        members: vec!["a".to_string(), "b".to_string()],
    };
    assert_eq!(write_ignore_entry(&e), "  0000000000000001 [a, b]");
}

#[test]
fn cleanup_dry_run_keeps_the_list() {
    let mut file = IgnoreFile::new();
    add_ignore(&mut file, &Fingerprint(1), None, vec![]);
    let (lines, save) = cmd_cleanup(&mut file, &[], true);
    assert_eq!(
        lines,
        vec![
            "Stale entries (dry run):".to_string(),
            "  0000000000000001".to_string(),
            String::new(),
            "1 stale entries would be removed.".to_string(),
        ]
    );
    assert!(!save);
    assert_eq!(file.ignore.len(), 1);
    let (lines, save) = cmd_cleanup(&mut file, &[], false);
    assert_eq!(lines.last().unwrap(), "Removed 1 stale entries.");
    assert!(save);
    assert!(file.ignore.is_empty());
    let (lines, save) = cmd_cleanup(&mut file, &[], false);
    assert_eq!(lines, vec!["No stale entries found.".to_string()]);
    assert!(!save);
}

#[test]
fn overrides_replace_settings_and_add_exclusions() {
    let mut config = Config::new("root".to_string());
    config.exclude.push("target".to_string());
    let overrides = CliOverrides {
        min_nodes: Some(3),
        min_lines: None,
        threshold: Some(Ratio { num: 3, den: 4 }),
        exclude: vec!["vendor".to_string()],
        exclude_tests: Some(true),
        sub_function: None,
        min_sub_nodes: Some(8),
    };
    apply_overrides(&mut config, &overrides);
    assert_eq!(config.min_nodes, 3);
    assert_eq!(config.min_lines, 0);
    assert_eq!((config.similarity_threshold.num, config.similarity_threshold.den), (3, 4));
    assert_eq!(config.exclude, vec!["target".to_string(), "vendor".to_string()]);
    assert!(config.exclude_tests);
    assert!(!config.sub_function);
    assert_eq!(config.min_sub_nodes, 8);
}

#[test]
fn default_settings() {
    let config = Config::new("r".to_string());
    assert_eq!(config.min_nodes, 10);
    assert_eq!((config.similarity_threshold.num, config.similarity_threshold.den), (9, 10));
    assert_eq!(config.min_sub_nodes, 5);
    let a = config.analysis_config();
    assert_eq!((a.min_nodes, a.min_lines), (10, 0));
    assert_eq!(OutputFormat::default(), OutputFormat::Text);
    let r = create_reporter(OutputFormat::Json, Some("r".to_string()));
    assert_eq!(r.format, OutputFormat::Json);
}

// ── Analysis ──────────────────────────────────────────────────────────────

#[test]
fn analysis_groups_records_and_suppresses() {
    let units = vec![
        unit("a", block(vec![add(var(0), int_lit())]), 1, 3),
        unit("b", block(vec![add(var(0), int_lit())]), 4, 6),
    ];
    let config = Config::new(".".to_string());
    let r = analyze_units(&units, vec!["w".to_string()], &config, &IgnoreFile::new());
    assert_eq!(r.exact_groups.len(), 1);
    assert_eq!(r.all_fingerprints, vec![units[0].fingerprint]);
    assert_eq!(r.warnings, vec!["w".to_string()]);
    assert_eq!(r.stats.exact_duplicate_groups, 1);

    let mut ignore = IgnoreFile::new();
    add_ignore(&mut ignore, &units[0].fingerprint, None, vec![]);
    let r2 = analyze_units(&units, vec![], &config, &ignore);
    assert!(r2.exact_groups.is_empty());
    assert_eq!(r2.all_fingerprints, vec![units[0].fingerprint]);
    assert_eq!(r2.stats.exact_duplicate_groups, 0);
}

#[test]
fn analysis_of_files_warns_and_drops_test_code() {
    let mut test_unit = unit("t", block(vec![add(var(0), int_lit())]), 1, 2);
    test_unit.is_test = true;
    let files = vec![
        FileOutcome::Unreadable { path: "a.rs".to_string(), message: "denied".to_string() },
        FileOutcome::Parsed(Err("Failed to parse b.rs: x".to_string())),
        FileOutcome::Parsed(Ok(vec![unit("p", block(vec![add(var(0), int_lit())]), 1, 2), test_unit])),
    ];
    let mut config = Config::new(".".to_string());
    config.exclude_tests = true;
    let r = analyze(files, &config, &IgnoreFile::new());
    assert_eq!(r.warnings, vec!["Failed to read a.rs: denied".to_string(), "Failed to parse b.rs: x".to_string()]);
    assert_eq!(r.stats.total_code_units, 1);
    assert!(r.exact_groups.is_empty());
}

// ── Text ──────────────────────────────────────────────────────────────────

#[test]
fn text_helpers() {
    assert_eq!(decimal_string(0), "0");
    assert_eq!(decimal_string(1234), "1234");
    assert_eq!(join_strings(&vec!["a".to_string(), "b".to_string()], "::"), "a::b");
    assert_eq!(join_strings(&vec![], ", "), "");
    assert!(str_contains("abcdef", "cde"));
    assert!(!str_contains("abc", "abcd"));
}

#[test]
fn settings_out_of_range_are_refused_by_name() {
    let mut config = Config::new(".".to_string());
    assert!(config.validate().is_ok());
    config.similarity_threshold = Ratio { num: 11, den: 10 };
    assert_eq!(config.validate(), Err("similarity_threshold must be a fraction between 0.0 and 1.0, got 1.1".to_string()));
    config.similarity_threshold = Ratio { num: 1, den: 1 };
    config.max_exact_percent = Some(Percentage { num: 1001, den: 10 });
    assert_eq!(config.validate(), Err("max_exact_percent must be a percentage between 0.0 and 100.0, got 100.1".to_string()));
    config.max_exact_percent = Some(Percentage { num: 100, den: 1 });
    config.max_near_percent = Some(Percentage { num: -1, den: 1 });
    assert_eq!(config.validate(), Err("max_near_percent must be a percentage between 0.0 and 100.0, got -1".to_string()));
    config.max_near_percent = Some(Percentage { num: 0, den: 1 });
    assert!(config.validate().is_ok());
}

#[test]
fn fraction_of_a_value_above_one_is_rejected() {
    let mut config = Config::new(".".to_string());
    config.similarity_threshold = Ratio { num: 5, den: 1 };
    assert_eq!(
        config.validate().unwrap_err(),
        "similarity_threshold must be a fraction between 0.0 and 1.0, got 5"
    );
}

#[test]
fn percent_of_a_value_above_a_hundred_is_rejected() {
    let mut config = Config::new(".".to_string());
    config.max_exact_percent = Some(Percentage { num: 150, den: 1 });
    assert_eq!(
        config.validate().unwrap_err(),
        "max_exact_percent must be a percentage between 0.0 and 100.0, got 150"
    );
}

#[test]
fn apply_to_rejects_a_percentage_outside_a_hundred() {
    let mut config = Config::new(".".to_string());
    config.max_near_percent = Some(Percentage { num: 1500, den: 10 });
    assert_eq!(
        config.validate().unwrap_err(),
        "max_near_percent must be a percentage between 0.0 and 100.0, got 150"
    );
}

#[test]
fn percent_at_either_end_of_its_range_is_accepted() {
    let mut config = Config::new(".".to_string());
    config.max_exact_percent = Some(Percentage { num: 0, den: 1 });
    config.max_near_percent = Some(Percentage { num: 100, den: 1 });
    assert!(config.validate().is_ok());
}

#[test]
fn fractions_print_as_decimals() {
    let mut config = Config::new(".".to_string());
    config.similarity_threshold = Ratio { num: 4, den: 3 };
    assert_eq!(
        config.validate().unwrap_err(),
        "similarity_threshold must be a fraction between 0.0 and 1.0, got 1.333333333333333333"
    );
}

#[test]
fn apply_to_rejects_a_similarity_threshold_outside_one() {
    let mut config = Config::new(".".to_string());
    config.similarity_threshold = Ratio { num: 50, den: 10 };
    assert_eq!(
        config.validate().unwrap_err(),
        "similarity_threshold must be a fraction between 0.0 and 1.0, got 5"
    );
}

#[test]
fn fraction_at_either_end_of_its_range_is_accepted() {
    let mut config = Config::new(".".to_string());
    config.similarity_threshold = Ratio { num: 0, den: 1 };
    assert!(config.validate().is_ok());
    config.similarity_threshold = Ratio { num: 1, den: 1 };
    assert!(config.validate().is_ok());
}

#[test]
fn breached_sections_lists_each_set_once() {
    let p = Percentage { num: 5, den: 1 };
    assert_eq!(breached_sections(&[]), (false, false));
    assert_eq!(
        breached_sections(&[Breach::ExactGroups { count: 2, max: 1 }, Breach::ExactPercent { max_percent: p }]),
        (true, false)
    );
    assert_eq!(breached_sections(&[Breach::NearPercent { max_percent: p }]), (false, true));
}

#[test]
fn default_sets_no_ceiling_at_all() {
    let thresholds = CheckThresholds::default();
    assert_eq!(thresholds.max_exact, None);
    assert_eq!(thresholds.max_near, None);
    assert_eq!(thresholds.max_exact_percent, None);
    assert_eq!(thresholds.max_near_percent, None);
}

#[test]
fn is_unbounded_is_false_once_a_count_ceiling_is_set() {
    let thresholds = CheckThresholds { max_exact: Some(0), ..CheckThresholds::default() };
    assert!(!thresholds.is_unbounded());
}

#[test]
fn is_unbounded_is_false_once_a_percentage_ceiling_is_set() {
    let thresholds = CheckThresholds {
        max_near_percent: Some(Percentage { num: 0, den: 1 }),
        ..CheckThresholds::default()
    };
    assert!(!thresholds.is_unbounded());
}

#[test]
fn is_unbounded_of_a_default_reports_a_check_that_cannot_fail() {
    let thresholds = CheckThresholds::default();
    assert!(thresholds.is_unbounded());
    let config = Config::new(".".to_string());
    let (breaches, result) = cmd_check(&config, &stats(10, 99, 99, 10, 10), &thresholds);
    assert!(breaches.is_empty());
    assert!(result.is_ok());
}

#[test]
fn default_overrides_change_nothing() {
    let mut config = Config::new(".".to_string());
    apply_overrides(&mut config, &CliOverrides::default());
    assert_eq!(config.min_nodes, 10);
    assert!(config.exclude.is_empty());
}

// ── Ignore list, by fingerprint of a tree ─────────────────────────────────

fn test_fingerprint() -> Fingerprint {
    Fingerprint::from_node(&NormalizedNode::leaf(NodeKind::Literal(LiteralKind::Int)))
}

fn other_fingerprint() -> Fingerprint {
    Fingerprint::from_node(&NormalizedNode::with_children(NodeKind::Block, vec![]))
}

fn suppressing(fingerprints: &[(Fingerprint, Option<&str>)]) -> IgnoreFile {
    let mut file = IgnoreFile::new();
    for (fp, reason) in fingerprints {
        add_ignore(&mut file, fp, reason.map(|r| r.to_string()), vec![]);
    }
    file
}

fn group_of(fingerprint: Fingerprint, similarity: Ratio) -> DuplicateGroup {
    DuplicateGroup { fingerprint, members: vec![], similarity }
}

#[test]
fn contains_reports_whether_the_fingerprint_is_suppressed() {
    let fp = test_fingerprint();
    assert!(!IgnoreFile::new().contains(&fp));
    assert!(suppressing(&[(fp, None)]).contains(&fp));
}

#[test]
fn retain_unsuppressed_keeps_a_near_group_with_no_matching_entry() {
    let ignore = suppressing(&[(other_fingerprint(), None)]);
    let kept = filter_ignored(vec![group_of(test_fingerprint(), Ratio { num: 85, den: 100 })], &ignore);
    assert_eq!(kept.len(), 1);
}

#[test]
fn retain_unsuppressed_removes_a_near_group_whose_fingerprint_matches() {
    let fp = test_fingerprint();
    let ignore = suppressing(&[(fp, None)]);
    let kept = filter_ignored(vec![group_of(fp, Ratio { num: 85, den: 100 })], &ignore);
    assert!(kept.is_empty());
}

#[test]
fn retain_unsuppressed_removes_the_group_whose_fingerprint_matches() {
    let fp = test_fingerprint();
    let ignore = suppressing(&[(fp, None)]);
    let one = Ratio { num: 1, den: 1 };
    let groups = vec![
        group_of(fp, one),
        group_of(Fingerprint::from_node(&NormalizedNode::leaf(NodeKind::Opaque)), one),
    ];
    assert_eq!(filter_ignored(groups, &ignore).len(), 1);
}

#[test]
fn stale_separates_the_entries_that_no_longer_match_anything() {
    let live_fp = test_fingerprint();
    let ignore = suppressing(&[(live_fp, Some("live")), (other_fingerprint(), Some("stale"))]);
    let stale = find_stale_entries(&ignore, &[live_fp]);
    assert_eq!(stale.len(), 1);
    assert_eq!(stale[0].reason, Some("stale".to_string()));
}

#[test]
fn with_ignored_over_the_same_fingerprint_twice_records_it_once() {
    let fp = test_fingerprint();
    assert_eq!(suppressing(&[(fp, None), (fp, None)]).ignore.len(), 1);
}

#[test]
fn without_stale_keeps_the_live_entries_and_hands_back_the_rest() {
    let live_fp = test_fingerprint();
    let mut ignore = suppressing(&[(live_fp, Some("live")), (other_fingerprint(), Some("stale"))]);
    let taken = remove_stale_entries(&mut ignore, &[live_fp]);
    assert_eq!(taken.len(), 1);
    assert_eq!(taken[0].reason, Some("stale".to_string()));
    assert_eq!(ignore.ignore.len(), 1);
    assert_eq!(ignore.ignore[0].reason, Some("live".to_string()));
}

#[test]
fn apply_to_appends_excludes_rather_than_replacing_the_configured_ones() {
    let mut config = Config::new(".".to_string());
    config.exclude = vec![String::from("vendor")];
    let overrides = CliOverrides { exclude: vec![String::from("benches")], ..CliOverrides::default() };
    apply_overrides(&mut config, &overrides);
    assert_eq!(config.exclude, vec![String::from("vendor"), String::from("benches")]);
}

#[test]
fn apply_to_replaces_only_the_values_that_were_given() {
    let mut config = Config::new(".".to_string());
    let untouched_threshold = config.similarity_threshold;
    let overrides = CliOverrides { min_nodes: Some(42), ..CliOverrides::default() };
    apply_overrides(&mut config, &overrides);
    assert_eq!(config.min_nodes, 42);
    assert_eq!(config.similarity_threshold, untouched_threshold);
}

#[test]
fn apply_to_with_nothing_set_leaves_every_field_as_it_was() {
    let mut config = Config::new(".".to_string());
    config.min_nodes = 7;
    config.min_lines = 3;
    config.sub_function = true;
    config.min_sub_nodes = 11;
    config.exclude_tests = true;
    apply_overrides(&mut config, &CliOverrides::default());
    assert_eq!(config.min_nodes, 7);
    assert_eq!(config.min_lines, 3);
    assert_eq!(config.min_sub_nodes, 11);
    assert!(config.sub_function);
    assert!(config.exclude_tests);
}

#[test]
fn code_unit_kind_distinguishes_functions_from_closures() {
    assert_ne!(CodeUnitKind::Function, CodeUnitKind::Closure);
    assert_eq!(CodeUnitKind::Function, CodeUnitKind::Function);
}

#[test]
fn default_returns_the_documented_thresholds() {
    let config = Config::new(".".to_string());
    assert_eq!(config.min_nodes, 10);
    assert_eq!(config.similarity_threshold, Ratio { num: 9, den: 10 });
    assert!(config.exclude.is_empty());
}
