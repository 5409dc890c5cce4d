//! Tests of the stable hasher, fingerprints, similarity, union-find, trees,
//! placeholders and ignore-entry lines, on hand-built values.

use dupes::cli::write_ignore_entry;
use dupes::fingerprint::Fingerprint;
use dupes::ignore::IgnoreEntry;
use dupes::mapping::NodeMapping;
use dupes::node::{count_nodes, BinOpKind, LiteralKind, NodeKind, NormalizedNode, PlaceholderKind};
use dupes::normalization_context::NormalizationContext;
use dupes::reindex::reindex_placeholders;
use dupes::similarity::{similarity_score, Ratio};
use dupes::stable_hash::{fnv1a_of, StableHasher};
use dupes::union_find::UnionFind;

fn hash_of(bytes: &[u8]) -> u64 {
    let mut hasher = StableHasher::new();
    hasher.write_bytes(bytes);
    hasher.finish()
}

fn score(a: &NormalizedNode, b: &NormalizedNode) -> f64 {
    let r: Ratio = similarity_score(a, b);
    r.num as f64 / r.den as f64
}

fn block_of(kinds: Vec<NodeKind>) -> NormalizedNode {
    NormalizedNode::with_children(NodeKind::Block, kinds.into_iter().map(NormalizedNode::leaf).collect())
}

fn int_lit() -> NormalizedNode {
    NormalizedNode::leaf(NodeKind::Literal(LiteralKind::Int))
}

fn var(idx: usize) -> NormalizedNode {
    NormalizedNode::leaf(NodeKind::Placeholder(PlaceholderKind::Variable, idx))
}

fn entry(reason: Option<&str>, members: &[&str]) -> IgnoreEntry {
    IgnoreEntry {
        fingerprint: String::from("deadbeef12345678"),
        reason: reason.map(|r| r.to_string()),
        members: members.iter().map(|m| m.to_string()).collect(),
    }
}

// ── Stable hasher ─────────────────────────────────────────────────────────

#[test]
fn finish_on_an_untouched_hasher_returns_the_fnv_offset_basis() {
    assert_eq!(StableHasher::new().finish(), 0xcbf2_9ce4_8422_2325);
}

#[test]
fn new_and_default_start_from_the_same_state() {
    assert_eq!(StableHasher::new().finish(), StableHasher::default().finish());
}

#[test]
fn write_bytes_matches_the_published_fnv_1a_vector_for_a() {
    assert_eq!(hash_of(b"a"), 0xaf63_dc4c_8601_ec8c);
}

#[test]
fn write_bytes_matches_the_published_fnv_1a_vector_for_foobar() {
    assert_eq!(hash_of(b"foobar"), 0x8594_4171_f739_67e8);
    assert_eq!(fnv1a_of(b"foobar"), 0x8594_4171_f739_67e8);
}

#[test]
fn write_bytes_over_two_calls_matches_one_call_with_the_whole_input() {
    let mut hasher = StableHasher::new();
    hasher.write_bytes(b"foo");
    hasher.write_bytes(b"bar");
    assert_eq!(hasher.finish(), hash_of(b"foobar"));
}

#[test]
fn write_u64_is_eight_bytes_big_endian_regardless_of_the_platform() {
    let mut hasher = StableHasher::new();
    hasher.write_u64(1);
    assert_eq!(hasher.finish(), hash_of(&[0, 0, 0, 0, 0, 0, 0, 1]));
}

#[test]
fn write_u8_absorbs_exactly_one_byte() {
    let mut hasher = StableHasher::new();
    hasher.write_u8(0x41);
    assert_eq!(hasher.finish(), hash_of(b"A"));
}

// ── Fingerprints ──────────────────────────────────────────────────────────

#[test]
fn fingerprint_tests_composite_fingerprint_deterministic() {
    let a = Fingerprint::from_fingerprints(&[Fingerprint(42), Fingerprint(99)]);
    let b = Fingerprint::from_fingerprints(&[Fingerprint(42), Fingerprint(99)]);
    assert_eq!(a, b);
}

#[test]
fn fingerprint_tests_composite_fingerprint_different_sets_differ() {
    assert_ne!(
        Fingerprint::from_fingerprints(&[Fingerprint(1), Fingerprint(2)]),
        Fingerprint::from_fingerprints(&[Fingerprint(2), Fingerprint(3)])
    );
}

#[test]
fn fingerprint_tests_composite_fingerprint_order_independent() {
    assert_eq!(
        Fingerprint::from_fingerprints(&[Fingerprint(1), Fingerprint(2), Fingerprint(3)]),
        Fingerprint::from_fingerprints(&[Fingerprint(3), Fingerprint(1), Fingerprint(2)])
    );
}

#[test]
fn fmt_pads_the_hash_to_sixteen_hex_digits() {
    assert_eq!(Fingerprint(0x42).to_string(), "0000000000000042");
}

#[test]
fn fingerprint_tests_from_hex_invalid() {
    assert!(Fingerprint::from_hex("not_hex").is_none());
}

#[test]
fn to_hex_round_trips_back_through_from_hex() {
    let fp = Fingerprint(0xdeadbeef12345678);
    let hex = fp.to_hex();
    assert_eq!(hex, "deadbeef12345678");
    assert_eq!(Fingerprint::from_hex(&hex), Some(fp));
}

#[test]
fn node_fingerprint_is_fnv_1a_of_the_encoding() {
    // A leaf of the opaque kind encodes as its tag byte and eight
    // little-endian bytes of its child count: nine bytes in all.
    let fp = Fingerprint::from_node(&NormalizedNode::leaf(NodeKind::Opaque));
    assert_eq!(fp.value(), fnv1a_of(&[0, 0, 0, 0, 0, 0, 0, 0, 0]));
}

// ── Similarity ────────────────────────────────────────────────────────────

#[test]
fn both_none_sentinels_score_one() {
    assert!((score(&NormalizedNode::none(), &NormalizedNode::none()) - 1.0).abs() < f64::EPSILON);
}

#[test]
fn completely_different_kinds_score_zero() {
    assert!(score(&int_lit(), &NormalizedNode::leaf(NodeKind::PatWild)) < f64::EPSILON);
}

#[test]
fn different_child_counts_uses_shared_prefix() {
    let a = NormalizedNode::with_children(NodeKind::Block, vec![int_lit(), int_lit(), int_lit()]);
    let b = NormalizedNode::with_children(
        NodeKind::Block,
        vec![int_lit(), int_lit(), int_lit(), var(0), var(1)],
    );
    assert!((score(&a, &b) - 0.8).abs() < f64::EPSILON);
    let a = NormalizedNode::with_children(NodeKind::Block, vec![int_lit(), var(0)]);
    let b = NormalizedNode::with_children(NodeKind::Block, vec![int_lit(), var(0), var(1)]);
    assert!((score(&a, &b) - score(&b, &a)).abs() < f64::EPSILON);
}

#[test]
fn identical_leaves_score_one() {
    assert!((score(&int_lit(), &int_lit()) - 1.0).abs() < f64::EPSILON);
}

#[test]
fn if_with_else_vs_if_without_else() {
    let with_else = NormalizedNode::with_children(
        NodeKind::If,
        vec![
            var(0),
            NormalizedNode::with_children(NodeKind::Block, vec![int_lit()]),
            NormalizedNode::with_children(NodeKind::Block, vec![int_lit()]),
        ],
    );
    let without_else = NormalizedNode::with_children(
        NodeKind::If,
        vec![var(0), NormalizedNode::with_children(NodeKind::Block, vec![int_lit()]), NormalizedNode::none()],
    );
    assert!((score(&with_else, &without_else) - 0.8).abs() < f64::EPSILON);
}

#[test]
fn macro_call_different_names_score_zero() {
    let a = NormalizedNode::with_children(NodeKind::MacroCall { name: "println".to_string() }, vec![int_lit()]);
    let b = NormalizedNode::with_children(NodeKind::MacroCall { name: "eprintln".to_string() }, vec![int_lit()]);
    assert!(score(&a, &b) < f64::EPSILON);
}

#[test]
fn macro_call_same_name_different_args_partial() {
    let a = NormalizedNode::with_children(NodeKind::MacroCall { name: "println".to_string() }, vec![int_lit()]);
    let b = NormalizedNode::with_children(
        NodeKind::MacroCall { name: "println".to_string() },
        vec![int_lit(), var(0)],
    );
    assert!((score(&a, &b) - 0.8).abs() < f64::EPSILON);
}

#[test]
fn none_vs_real_node_score_zero() {
    assert!(score(&NormalizedNode::none(), &int_lit()) < f64::EPSILON);
}

#[test]
fn return_with_vs_without_value() {
    let with_val = NormalizedNode::with_children(NodeKind::Return, vec![int_lit()]);
    let without_val = NormalizedNode::with_children(NodeKind::Return, vec![]);
    assert!((score(&with_val, &without_val) - 2.0 / 3.0).abs() < f64::EPSILON);
}

#[test]
fn same_discriminant_different_data_no_self_match() {
    let a = NormalizedNode::with_children(NodeKind::BinaryOp(BinOpKind::Add), vec![var(0), int_lit()]);
    let b = NormalizedNode::with_children(NodeKind::BinaryOp(BinOpKind::Sub), vec![var(0), int_lit()]);
    assert!((score(&a, &b) - 2.0 / 3.0).abs() < f64::EPSILON);
}

#[test]
fn similarity_tests_similarity_is_symmetric() {
    let a = NormalizedNode::with_children(NodeKind::Block, vec![int_lit(), var(0)]);
    let b = NormalizedNode::with_children(NodeKind::Block, vec![var(0), int_lit(), var(1)]);
    assert!((score(&a, &b) - score(&b, &a)).abs() < f64::EPSILON);
}

#[test]
fn similarity_score_between_blocks_differing_by_one_inserted_statement_stays_high() {
    let original = block_of(vec![NodeKind::Return, NodeKind::Break, NodeKind::Continue, NodeKind::Await]);
    let with_insertion =
        block_of(vec![NodeKind::Try, NodeKind::Return, NodeKind::Break, NodeKind::Continue, NodeKind::Await]);
    assert!((score(&original, &with_insertion) - 10.0 / 11.0).abs() < 1e-9);
}

#[test]
fn similarity_score_between_blocks_with_a_statement_removed_stays_high() {
    let original = block_of(vec![NodeKind::Return, NodeKind::Break, NodeKind::Continue]);
    let shortened = block_of(vec![NodeKind::Return, NodeKind::Continue]);
    assert!((score(&original, &shortened) - 6.0 / 7.0).abs() < 1e-9);
}

#[test]
fn similarity_score_between_tuples_differing_by_one_inserted_element_stays_high() {
    let pair = NormalizedNode::with_children(
        NodeKind::Tuple,
        vec![NormalizedNode::leaf(NodeKind::Return), NormalizedNode::leaf(NodeKind::Await)],
    );
    let triple = NormalizedNode::with_children(
        NodeKind::Tuple,
        vec![
            NormalizedNode::leaf(NodeKind::Try),
            NormalizedNode::leaf(NodeKind::Return),
            NormalizedNode::leaf(NodeKind::Await),
        ],
    );
    assert!((score(&pair, &triple) - 6.0 / 7.0).abs() < 1e-9);
}

#[test]
fn similarity_score_never_matches_a_then_branch_against_an_else_branch() {
    let then_only = NormalizedNode::with_children(
        NodeKind::If,
        vec![NormalizedNode::leaf(NodeKind::Return), NormalizedNode::leaf(NodeKind::Await), NormalizedNode::none()],
    );
    let else_only = NormalizedNode::with_children(
        NodeKind::If,
        vec![NormalizedNode::leaf(NodeKind::Return), NormalizedNode::none(), NormalizedNode::leaf(NodeKind::Await)],
    );
    assert!((score(&then_only, &else_only) - 2.0 / 3.0).abs() < 1e-9);
}

// ── Union-find ────────────────────────────────────────────────────────────

#[test]
fn find_after_a_chain_of_unions_reports_one_root_for_the_whole_chain() {
    let mut forest = UnionFind::new(5);
    forest.union(0, 1);
    forest.union(1, 2);
    forest.union(2, 3);
    let roots: Vec<usize> = (0..4).map(|i| forest.find(i)).collect();
    assert!(roots.windows(2).all(|w| w[0] == w[1]));
    assert_ne!(forest.find(4), forest.find(0));
}

#[test]
fn find_on_a_fresh_forest_returns_the_element_itself() {
    let mut forest = UnionFind::new(3);
    let roots: Vec<usize> = (0..3).map(|i| forest.find(i)).collect();
    assert_eq!(roots, vec![0, 1, 2]);
}

#[test]
fn is_empty_distinguishes_a_zero_sized_forest_from_a_populated_one() {
    assert!(UnionFind::new(0).is_empty());
    assert!(!UnionFind::new(1).is_empty());
}

#[test]
fn len_reports_the_size_the_forest_was_built_with() {
    assert_eq!(UnionFind::new(7).len(), 7);
}

// ── Trees and placeholders ────────────────────────────────────────────────

#[test]
fn context_assigns_sequential_indices() {
    let mut ctx = NormalizationContext::new();
    assert_eq!(ctx.placeholder("x", PlaceholderKind::Variable), 0);
    assert_eq!(ctx.placeholder("y", PlaceholderKind::Variable), 1);
    assert_eq!(ctx.placeholder("z", PlaceholderKind::Variable), 2);
}

#[test]
fn context_per_kind_counters_are_independent() {
    let mut ctx = NormalizationContext::new();
    assert_eq!(ctx.placeholder("foo", PlaceholderKind::Variable), 0);
    assert_eq!(ctx.placeholder("foo", PlaceholderKind::Function), 0);
    assert_eq!(ctx.placeholder("foo", PlaceholderKind::Type), 0);
}

#[test]
fn context_returns_same_index_for_same_name() {
    let mut ctx = NormalizationContext::new();
    let first = ctx.placeholder("x", PlaceholderKind::Variable);
    let second = ctx.placeholder("x", PlaceholderKind::Variable);
    assert_eq!(first, second);
    assert_eq!(first, 0);
}

#[test]
fn context_same_name_different_kind_are_distinct() {
    let mut ctx = NormalizationContext::new();
    ctx.placeholder("x", PlaceholderKind::Variable);
    ctx.placeholder("x", PlaceholderKind::Function);
    assert_eq!(ctx.placeholder("y", PlaceholderKind::Variable), 1);
    assert_eq!(ctx.placeholder("y", PlaceholderKind::Function), 1);
}

#[test]
fn placeholder_counts_each_kind_from_zero_independently() {
    let mut ctx = NormalizationContext::new();
    assert_eq!(ctx.placeholder("a", PlaceholderKind::Variable), 0);
    assert_eq!(ctx.placeholder("a", PlaceholderKind::Type), 0);
}

#[test]
fn placeholder_for_distinct_identifiers_returns_rising_indices() {
    let mut ctx = NormalizationContext::new();
    assert_eq!(ctx.placeholder("a", PlaceholderKind::Variable), 0);
    assert_eq!(ctx.placeholder("b", PlaceholderKind::Variable), 1);
}

#[test]
fn placeholder_for_the_same_identifier_twice_returns_the_same_index() {
    let mut ctx = NormalizationContext::new();
    let first = ctx.placeholder("value", PlaceholderKind::Variable);
    let again = ctx.placeholder("value", PlaceholderKind::Variable);
    assert_eq!(first, again);
}

#[test]
fn count_nodes_basic() {
    let node = NormalizedNode::with_children(NodeKind::BinaryOp(BinOpKind::Add), vec![var(0), int_lit()]);
    assert_eq!(count_nodes(&node), 3);
}

#[test]
fn count_nodes_skips_none_sentinels() {
    let node = NormalizedNode::with_children(
        NodeKind::If,
        vec![var(0), NormalizedNode::with_children(NodeKind::Block, vec![]), NormalizedNode::none()],
    );
    assert_eq!(count_nodes(&node), 3);
}

#[test]
fn opt_with_a_value_returns_that_value() {
    let inner = NormalizedNode::leaf(NodeKind::Absent);
    let node = NormalizedNode::opt(Some(inner.clone()));
    assert_eq!(node, inner);
}

#[test]
fn opt_without_a_value_returns_the_none_sentinel() {
    assert!(NormalizedNode::opt(None).is_none());
}

#[test]
fn reindex_handles_multiple_placeholder_kinds() {
    let node = NormalizedNode::with_children(
        NodeKind::Call,
        vec![
            NormalizedNode::leaf(NodeKind::Placeholder(PlaceholderKind::Function, 3)),
            var(5),
            NormalizedNode::with_children(
                NodeKind::Cast,
                vec![var(5), NormalizedNode::leaf(NodeKind::TypePlaceholder(PlaceholderKind::Type, 2))],
            ),
        ],
    );
    let expected = NormalizedNode::with_children(
        NodeKind::Call,
        vec![
            NormalizedNode::leaf(NodeKind::Placeholder(PlaceholderKind::Function, 0)),
            var(0),
            NormalizedNode::with_children(
                NodeKind::Cast,
                vec![var(0), NormalizedNode::leaf(NodeKind::TypePlaceholder(PlaceholderKind::Type, 0))],
            ),
        ],
    );
    assert_eq!(reindex_placeholders(&node), expected);
}

#[test]
fn reindex_makes_equivalent_subtrees_equal() {
    let subtree = |p: usize, v: usize| {
        NormalizedNode::with_children(
            NodeKind::Block,
            vec![
                NormalizedNode::with_children(
                    NodeKind::LetBinding,
                    vec![
                        NormalizedNode::leaf(NodeKind::PatPlaceholder(PlaceholderKind::Variable, p)),
                        NormalizedNode::none(),
                        NormalizedNode::with_children(NodeKind::BinaryOp(BinOpKind::Add), vec![var(v), int_lit()]),
                        NormalizedNode::none(),
                    ],
                ),
                var(p),
            ],
        )
    };
    let subtree1 = subtree(2, 0);
    let subtree2 = subtree(7, 5);
    assert_ne!(subtree1, subtree2);
    assert_eq!(reindex_placeholders(&subtree1), reindex_placeholders(&subtree2));
}

#[test]
fn reindex_preserves_same_placeholder_identity() {
    let node = NormalizedNode::with_children(NodeKind::BinaryOp(BinOpKind::Add), vec![var(3), var(3)]);
    let expected = NormalizedNode::with_children(NodeKind::BinaryOp(BinOpKind::Add), vec![var(0), var(0)]);
    assert_eq!(reindex_placeholders(&node), expected);
}

#[test]
fn reindex_remaps_from_zero() {
    let node = NormalizedNode::with_children(NodeKind::BinaryOp(BinOpKind::Add), vec![var(5), var(8)]);
    let expected = NormalizedNode::with_children(NodeKind::BinaryOp(BinOpKind::Add), vec![var(0), var(1)]);
    assert_eq!(reindex_placeholders(&node), expected);
}

#[test]
fn default_mapping_is_empty() {
    let m = NodeMapping::default();
    assert!(m.identifier_kinds.is_empty());
    assert!(m.literal_kinds.is_empty());
}

// ── Ignore-entry lines ────────────────────────────────────────────────────

#[test]
fn fmt_never_ends_the_line_itself_so_the_caller_decides_the_newline() {
    assert!(!write_ignore_entry(&entry(Some("deliberate"), &["a"])).ends_with('\n'));
}

#[test]
fn fmt_of_a_bare_entry_is_the_indented_fingerprint_alone() {
    assert_eq!(write_ignore_entry(&entry(None, &[])), "  deadbeef12345678");
}

#[test]
fn fmt_of_an_entry_with_a_reason_names_the_reason() {
    assert_eq!(
        write_ignore_entry(&entry(Some("trait impls are meant to look alike"), &[])),
        "  deadbeef12345678 (reason: trait impls are meant to look alike)"
    );
}

#[test]
fn fmt_of_an_entry_with_both_puts_the_reason_before_the_members() {
    assert_eq!(
        write_ignore_entry(&entry(Some("deliberate"), &["a", "b"])),
        "  deadbeef12345678 (reason: deliberate) [a, b]"
    );
}

#[test]
fn fmt_of_an_entry_with_members_lists_them_comma_separated() {
    assert_eq!(
        write_ignore_entry(&entry(None, &["sum_positive", "count_positive"])),
        "  deadbeef12345678 [sum_positive, count_positive]"
    );
}

#[test]
fn groups_on_a_fresh_forest_returns_one_singleton_each() {
    let mut forest = UnionFind::new(3);
    assert_eq!(forest.groups(), vec![vec![0], vec![1], vec![2]]);
}

#[test]
fn groups_orders_members_ascending_and_groups_by_lowest_member() {
    let mut forest = UnionFind::new(6);
    forest.union(4, 1);
    forest.union(5, 2);
    forest.union(3, 0);
    assert_eq!(forest.groups(), vec![vec![0, 3], vec![1, 4], vec![2, 5]]);
}

#[test]
fn groups_over_an_empty_forest_returns_nothing() {
    let mut forest = UnionFind::new(0);
    assert!(forest.groups().is_empty());
}

#[test]
fn new_creates_a_forest_in_which_nothing_is_joined() {
    let mut forest = UnionFind::new(4);
    assert_eq!(forest.groups().len(), 4);
}

#[test]
fn union_of_an_element_with_itself_leaves_the_groups_unchanged() {
    let mut forest = UnionFind::new(3);
    forest.union(1, 1);
    assert_eq!(forest.groups(), vec![vec![0], vec![1], vec![2]]);
}

#[test]
fn union_repeated_over_the_same_pair_is_idempotent() {
    let mut forest = UnionFind::new(3);
    forest.union(0, 1);
    forest.union(0, 1);
    forest.union(1, 0);
    assert_eq!(forest.groups(), vec![vec![0, 1], vec![2]]);
}
