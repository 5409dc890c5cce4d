//! Tests of the grammar-driven normalizer, on Python parsed by tree-sitter
//! and turned into the library's syntax nodes.

use dupes::code_unit::CodeUnitKind;
use dupes::mapping::NodeMapping;
use dupes::node::{count_nodes, BinOpKind, LiteralKind, NodeKind, NormalizedNode, PlaceholderKind, UnOpKind};
use dupes::normalization_context::NormalizationContext;
use dupes::python::{python_is_test, python_mapping, python_unit_kind};
use dupes::similarity::similarity_score;
use dupes::ts_normal_form::{SyntaxChild, SyntaxNode};
use dupes::ts_normalizer::{normalize_named_children, normalize_ts_node};

// ── From tree-sitter's tree to the library's ──────────────────────────────

fn syntax(node: tree_sitter::Node, source: &[u8]) -> SyntaxNode {
    let kind = if node.is_missing() { "MISSING" } else { node.kind() };
    let children = (0..node.child_count())
        .map(|i| SyntaxChild {
            field: node.field_name_for_child(i as u32).map(|f| f.to_string()),
            node: syntax(node.child(i).unwrap(), source),
        })
        .collect();
    SyntaxNode {
        kind: kind.to_string(),
        is_named: node.is_named(),
        text: node.utf8_text(source).unwrap_or("").to_string(),
        children,
    }
}

fn parse(source: &str) -> tree_sitter::Tree {
    let mut parser = tree_sitter::Parser::new();
    let lang = tree_sitter_python::LANGUAGE;
    parser.set_language(&lang.into()).unwrap();
    parser.parse(source, None).unwrap()
}

fn first_stmt<'a>(tree: &'a tree_sitter::Tree) -> tree_sitter::Node<'a> {
    tree.root_node().named_child(0).unwrap()
}

fn normalize(node: tree_sitter::Node, source: &str, mapping: &NodeMapping, ctx: &mut NormalizationContext) -> NormalizedNode {
    normalize_ts_node(&syntax(node, source.as_bytes()), mapping, ctx)
}

fn has_opaque(n: &NormalizedNode) -> bool {
    n.kind == NodeKind::Opaque || n.children.iter().any(has_opaque)
}

/// A Python-flavored mapping for the normalizer's tests.
fn test_mapping() -> NodeMapping {
    NodeMapping::new()
        .identifiers(&["identifier"])
        .literals(&[
            ("integer", LiteralKind::Int),
            ("float", LiteralKind::Float),
            ("string", LiteralKind::Str),
            ("true", LiteralKind::Bool),
            ("false", LiteralKind::Bool),
        ])
        .binary_ops(&[
            ("+", BinOpKind::Add),
            ("-", BinOpKind::Sub),
            ("*", BinOpKind::Mul),
            ("==", BinOpKind::Eq),
            ("and", BinOpKind::And),
            ("or", BinOpKind::Or),
        ])
        .unary_ops(&[("not", UnOpKind::Not), ("-", UnOpKind::Neg)])
        .skip(&["comment", "decorator"])
        .opaque(&["type"])
        .blocks(&["block"])
        .calls(&["call"])
        .return_statements(&["return_statement"])
        .ifs(&["if_statement"])
        .for_loops(&["for_statement"])
        .while_loops(&["while_statement"])
        .matches(&["match_statement"])
        .assignments(&["assignment"])
        .function_defs(&["function_definition"])
        .binary_op_kinds(&["binary_operator", "boolean_operator", "comparison_operator"])
        .unary_op_kinds(&["not_operator", "unary_operator"])
        .match_arms(&["case_clause"])
}

/// A smaller Python mapping, as the integration tests use it.
fn integration_mapping() -> NodeMapping {
    NodeMapping::new()
        .identifiers(&["identifier"])
        .literals(&[
            ("integer", LiteralKind::Int),
            ("float", LiteralKind::Float),
            ("string", LiteralKind::Str),
            ("true", LiteralKind::Bool),
            ("false", LiteralKind::Bool),
        ])
        .binary_ops(&[
            ("+", BinOpKind::Add),
            ("-", BinOpKind::Sub),
            ("*", BinOpKind::Mul),
            ("/", BinOpKind::Div),
            ("%", BinOpKind::Rem),
            ("==", BinOpKind::Eq),
            ("!=", BinOpKind::Ne),
            ("<", BinOpKind::Lt),
            (">", BinOpKind::Gt),
            ("<=", BinOpKind::Le),
            (">=", BinOpKind::Ge),
            ("and", BinOpKind::And),
            ("or", BinOpKind::Or),
            ("&", BinOpKind::BitAnd),
            ("|", BinOpKind::BitOr),
            ("^", BinOpKind::BitXor),
            ("<<", BinOpKind::Shl),
            (">>", BinOpKind::Shr),
        ])
        .unary_ops(&[("not", UnOpKind::Not), ("-", UnOpKind::Neg), ("~", UnOpKind::Other)])
        .skip(&["comment", "decorator"])
        .blocks(&["block"])
        .calls(&["call"])
        .return_statements(&["return_statement"])
        .ifs(&["if_statement"])
        .for_loops(&["for_statement"])
        .while_loops(&["while_statement"])
        .matches(&["match_statement"])
        .assignments(&["assignment"])
        .function_defs(&["function_definition"])
        .binary_op_kinds(&["binary_operator", "boolean_operator", "comparison_operator"])
        .unary_op_kinds(&["not_operator", "unary_operator"])
        .match_arms(&["case_clause"])
        .node_kinds(&[
            ("break_statement", NodeKind::Break),
            ("continue_statement", NodeKind::Continue),
            ("tuple", NodeKind::Tuple),
            ("list", NodeKind::Array),
        ])
}

fn find_body(node: tree_sitter::Node) -> Option<tree_sitter::Node> {
    if node.kind() == "function_definition" {
        return node.child_by_field_name("body");
    }
    let cursor = &mut node.walk();
    let found = node.named_children(cursor).find_map(find_body);
    found
}

fn normalize_python_body(source: &str) -> NormalizedNode {
    let tree = parse(source);
    let mapping = integration_mapping();
    let mut ctx = NormalizationContext::new();
    let body = find_body(tree.root_node()).expect("No function body found");
    normalize(body, source, &mapping, &mut ctx)
}

// ── Mapping ───────────────────────────────────────────────────────────────

#[test]
fn empty_mapping() {
    let m = NodeMapping::new();
    assert!(m.identifier_kinds.is_empty());
    assert!(m.literal_kinds.is_empty());
    assert!(m.binary_op_map.is_empty());
}

#[test]
fn builder_api() {
    let m = NodeMapping::new()
        .identifiers(&["identifier", "name"])
        .literals(&[("integer", LiteralKind::Int), ("string", LiteralKind::Str)])
        .binary_ops(&[("+", BinOpKind::Add), ("-", BinOpKind::Sub)])
        .skip(&["comment"])
        .blocks(&["block"])
        .calls(&["call"])
        .return_statements(&["return_statement"])
        .ifs(&["if_statement"])
        .for_loops(&["for_statement"])
        .while_loops(&["while_statement"])
        .assignments(&["assignment"])
        .function_defs(&["function_definition"]);

    assert!(m.identifier_kinds.contains("identifier"));
    assert!(m.identifier_kinds.contains("name"));
    assert_eq!(m.literal_kinds.get("integer"), Some(&LiteralKind::Int));
    assert_eq!(m.binary_op_map.get("+"), Some(&BinOpKind::Add));
    assert!(m.skip_kinds.contains("comment"));
    assert!(m.block_kinds.contains("block"));
    assert!(m.call_kinds.contains("call"));
    assert!(m.return_kinds.contains("return_statement"));
    assert!(m.if_kinds.contains("if_statement"));
    assert!(m.for_kinds.contains("for_statement"));
    assert!(m.while_kinds.contains("while_statement"));
    assert!(m.assignment_kinds.contains("assignment"));
    assert!(m.function_def_kinds.contains("function_definition"));
}

#[test]
fn node_kind_classification() {
    let mapping = NodeMapping::new()
        .identifiers(&["identifier"])
        .literals(&[("integer", LiteralKind::Int)]);
    assert!(mapping.identifier_kinds.contains("identifier"));
    assert!(mapping.literal_kinds.contains_key("integer"));
}

#[test]
fn later_literal_mapping_replaces_earlier() {
    let m = NodeMapping::new()
        .literals(&[("integer", LiteralKind::Int)])
        .literals(&[("integer", LiteralKind::Float)]);
    assert_eq!(m.literal_kinds.get("integer"), Some(&LiteralKind::Float));
    assert_eq!(m.literal_kinds.get("string"), None);
}

// ── Normalizer ────────────────────────────────────────────────────────────

#[test]
fn identifier_becomes_placeholder() {
    let src = "x\n";
    let tree = parse(src);
    let mapping = test_mapping();
    let mut ctx = NormalizationContext::new();
    let ident = first_stmt(&tree).named_child(0).unwrap();
    let node = normalize(ident, src, &mapping, &mut ctx);
    assert_eq!(node.kind, NodeKind::Placeholder(PlaceholderKind::Variable, 0));
}

#[test]
fn two_identifiers_get_different_indices() {
    let src = "x\ny\n";
    let tree = parse(src);
    let mapping = test_mapping();
    let mut ctx = NormalizationContext::new();
    let root = tree.root_node();
    let x = root.named_child(0).unwrap().named_child(0).unwrap();
    let y = root.named_child(1).unwrap().named_child(0).unwrap();
    let nx = normalize(x, src, &mapping, &mut ctx);
    let ny = normalize(y, src, &mapping, &mut ctx);
    assert_eq!(nx.kind, NodeKind::Placeholder(PlaceholderKind::Variable, 0));
    assert_eq!(ny.kind, NodeKind::Placeholder(PlaceholderKind::Variable, 1));
}

#[test]
fn same_identifier_reuses_index() {
    let src = "x\nx\n";
    let tree = parse(src);
    let mapping = test_mapping();
    let mut ctx = NormalizationContext::new();
    let root = tree.root_node();
    let x1 = root.named_child(0).unwrap().named_child(0).unwrap();
    let x2 = root.named_child(1).unwrap().named_child(0).unwrap();
    let n1 = normalize(x1, src, &mapping, &mut ctx);
    let n2 = normalize(x2, src, &mapping, &mut ctx);
    assert_eq!(n1.kind, n2.kind);
}

#[test]
fn integer_literal() {
    let src = "42\n";
    let tree = parse(src);
    let mapping = test_mapping();
    let mut ctx = NormalizationContext::new();
    let lit = first_stmt(&tree).named_child(0).unwrap();
    let node = normalize(lit, src, &mapping, &mut ctx);
    assert_eq!(node.kind, NodeKind::Literal(LiteralKind::Int));
}

#[test]
fn string_literal() {
    let src = "\"hello\"\n";
    let tree = parse(src);
    let mapping = test_mapping();
    let mut ctx = NormalizationContext::new();
    let lit = first_stmt(&tree).named_child(0).unwrap();
    let node = normalize(lit, src, &mapping, &mut ctx);
    assert_eq!(node.kind, NodeKind::Literal(LiteralKind::Str));
}

#[test]
fn literal_values_erased() {
    let mapping = test_mapping();
    let tree_a = parse("42\n");
    let tree_b = parse("99\n");
    let mut ctx_a = NormalizationContext::new();
    let mut ctx_b = NormalizationContext::new();
    let a = first_stmt(&tree_a).named_child(0).unwrap();
    let b = first_stmt(&tree_b).named_child(0).unwrap();
    let na = normalize(a, "42\n", &mapping, &mut ctx_a);
    let nb = normalize(b, "99\n", &mapping, &mut ctx_b);
    assert_eq!(na, nb);
}

#[test]
fn binary_add() {
    let src = "a + b\n";
    let tree = parse(src);
    let mapping = test_mapping();
    let mut ctx = NormalizationContext::new();
    let bin = first_stmt(&tree).named_child(0).unwrap();
    let node = normalize(bin, src, &mapping, &mut ctx);
    assert_eq!(node.kind, NodeKind::BinaryOp(BinOpKind::Add));
    assert_eq!(node.children.len(), 2);
}

#[test]
fn binary_eq() {
    let src = "a == b\n";
    let tree = parse(src);
    let mapping = test_mapping();
    let mut ctx = NormalizationContext::new();
    let bin = first_stmt(&tree).named_child(0).unwrap();
    let node = normalize(bin, src, &mapping, &mut ctx);
    assert_eq!(node.kind, NodeKind::BinaryOp(BinOpKind::Eq));
}

#[test]
fn boolean_and() {
    let src = "a and b\n";
    let tree = parse(src);
    let mapping = test_mapping();
    let mut ctx = NormalizationContext::new();
    let bin = first_stmt(&tree).named_child(0).unwrap();
    let node = normalize(bin, src, &mapping, &mut ctx);
    assert_eq!(node.kind, NodeKind::BinaryOp(BinOpKind::And));
}

#[test]
fn unknown_binary_op_falls_back_to_other() {
    let src = "a ** b\n";
    let tree = parse(src);
    let mapping = test_mapping();
    let mut ctx = NormalizationContext::new();
    let bin = first_stmt(&tree).named_child(0).unwrap();
    let node = normalize(bin, src, &mapping, &mut ctx);
    assert_eq!(node.kind, NodeKind::BinaryOp(BinOpKind::Other));
}

#[test]
fn unary_not() {
    let src = "not x\n";
    let tree = parse(src);
    let mapping = test_mapping();
    let mut ctx = NormalizationContext::new();
    let un = first_stmt(&tree).named_child(0).unwrap();
    let node = normalize(un, src, &mapping, &mut ctx);
    assert_eq!(node.kind, NodeKind::UnaryOp(UnOpKind::Not));
    assert_eq!(node.children.len(), 1);
}

#[test]
fn unary_neg() {
    let src = "-x\n";
    let tree = parse(src);
    let mapping = test_mapping();
    let mut ctx = NormalizationContext::new();
    let un = first_stmt(&tree).named_child(0).unwrap();
    let node = normalize(un, src, &mapping, &mut ctx);
    assert_eq!(node.kind, NodeKind::UnaryOp(UnOpKind::Neg));
}

#[test]
fn assignment_normalization() {
    let src = "x = 1\n";
    let tree = parse(src);
    let mapping = test_mapping();
    let mut ctx = NormalizationContext::new();
    let node = normalize(first_stmt(&tree), src, &mapping, &mut ctx);
    assert_eq!(node.kind, NodeKind::Assign);
    assert_eq!(node.children.len(), 2);
    assert_eq!(node.children[0].kind, NodeKind::Placeholder(PlaceholderKind::Variable, 0));
    assert_eq!(node.children[1].kind, NodeKind::Literal(LiteralKind::Int));
}

#[test]
fn return_with_value() {
    let src = "def f():\n    return 42\n";
    let tree = parse(src);
    let mapping = test_mapping();
    let mut ctx = NormalizationContext::new();
    let body = first_stmt(&tree).child_by_field_name("body").unwrap();
    let ret = body.named_child(0).unwrap();
    let node = normalize(ret, src, &mapping, &mut ctx);
    assert_eq!(node.kind, NodeKind::Return);
    assert_eq!(node.children.len(), 1);
    assert_eq!(node.children[0].kind, NodeKind::Literal(LiteralKind::Int));
}

#[test]
fn return_without_value() {
    let src = "def f():\n    return\n";
    let tree = parse(src);
    let mapping = test_mapping();
    let mut ctx = NormalizationContext::new();
    let body = first_stmt(&tree).child_by_field_name("body").unwrap();
    let ret = body.named_child(0).unwrap();
    let node = normalize(ret, src, &mapping, &mut ctx);
    assert_eq!(node.kind, NodeKind::Return);
    assert!(node.children.is_empty());
}

#[test]
fn if_with_else() {
    let src = "if x:\n    y = 1\nelse:\n    y = 2\n";
    let tree = parse(src);
    let mapping = test_mapping();
    let mut ctx = NormalizationContext::new();
    let node = normalize(first_stmt(&tree), src, &mapping, &mut ctx);
    assert_eq!(node.kind, NodeKind::If);
    assert_eq!(node.children.len(), 3);
    assert!(!node.children[2].is_none());
}

#[test]
fn if_without_else() {
    let src = "if x:\n    y = 1\n";
    let tree = parse(src);
    let mapping = test_mapping();
    let mut ctx = NormalizationContext::new();
    let node = normalize(first_stmt(&tree), src, &mapping, &mut ctx);
    assert_eq!(node.kind, NodeKind::If);
    assert_eq!(node.children.len(), 3);
    assert!(node.children[2].is_none());
}

#[test]
fn while_loop() {
    let src = "while x:\n    y = 1\n";
    let tree = parse(src);
    let mapping = test_mapping();
    let mut ctx = NormalizationContext::new();
    let node = normalize(first_stmt(&tree), src, &mapping, &mut ctx);
    assert_eq!(node.kind, NodeKind::While);
    assert_eq!(node.children.len(), 2);
}

#[test]
fn for_loop() {
    let src = "for x in items:\n    pass\n";
    let tree = parse(src);
    let mapping = test_mapping();
    let mut ctx = NormalizationContext::new();
    let node = normalize(first_stmt(&tree), src, &mapping, &mut ctx);
    assert_eq!(node.kind, NodeKind::ForLoop);
    assert_eq!(node.children.len(), 3);
}

#[test]
fn call_with_args() {
    let src = "f(a, b)\n";
    let tree = parse(src);
    let mapping = test_mapping();
    let mut ctx = NormalizationContext::new();
    let call = first_stmt(&tree).named_child(0).unwrap();
    let node = normalize(call, src, &mapping, &mut ctx);
    assert_eq!(node.kind, NodeKind::Call);
    assert_eq!(node.children.len(), 3);
}

#[test]
fn call_no_args() {
    let src = "f()\n";
    let tree = parse(src);
    let mapping = test_mapping();
    let mut ctx = NormalizationContext::new();
    let call = first_stmt(&tree).named_child(0).unwrap();
    let node = normalize(call, src, &mapping, &mut ctx);
    assert_eq!(node.kind, NodeKind::Call);
    assert_eq!(node.children.len(), 1);
}

#[test]
fn skip_kinds_are_filtered() {
    let src = "# comment\nx = 1\n";
    let tree = parse(src);
    let mapping = test_mapping();
    let mut ctx = NormalizationContext::new();
    let root = syntax(tree.root_node(), src.as_bytes());
    let children = normalize_named_children(&root.children, &mapping, &mut ctx);
    assert_eq!(children.len(), 1);
    assert_eq!(children[0].kind, NodeKind::Assign);
}

#[test]
fn normalizer_error_node_becomes_opaque() {
    let src = "((( @@@ )))\n";
    let tree = parse(src);
    let mapping = test_mapping();
    let mut ctx = NormalizationContext::new();
    let root = tree.root_node();
    assert!(root.has_error());
    let node = normalize(root, src, &mapping, &mut ctx);
    assert!(has_opaque(&node));
}

#[test]
fn block_normalization() {
    let src = "def f():\n    x = 1\n    y = 2\n";
    let tree = parse(src);
    let mapping = test_mapping();
    let mut ctx = NormalizationContext::new();
    let body = first_stmt(&tree).child_by_field_name("body").unwrap();
    let node = normalize(body, src, &mapping, &mut ctx);
    assert_eq!(node.kind, NodeKind::Block);
    assert_eq!(node.children.len(), 2);
}

#[test]
fn single_child_unwrap() {
    let src = "42\n";
    let tree = parse(src);
    let mapping = test_mapping();
    let mut ctx = NormalizationContext::new();
    let node = normalize(first_stmt(&tree), src, &mapping, &mut ctx);
    assert_eq!(node.kind, NodeKind::Literal(LiteralKind::Int));
}

// ── Python integration ────────────────────────────────────────────────────

#[test]
fn identifier_normalization() {
    let src = "x = 1\n";
    let tree = parse(src);
    let mapping = integration_mapping();
    let mut ctx = NormalizationContext::new();
    let node = normalize(first_stmt(&tree), src, &mapping, &mut ctx);
    assert_eq!(node.kind, NodeKind::Assign);
    assert_eq!(node.children.len(), 2);
    assert_eq!(node.children[0].kind, NodeKind::Placeholder(PlaceholderKind::Variable, 0));
    assert_eq!(node.children[1].kind, NodeKind::Literal(LiteralKind::Int));
}

#[test]
fn renamed_variables_produce_identical_bodies() {
    let a = normalize_python_body("def foo(a, b):\n    return a + b\n");
    let b = normalize_python_body("def bar(x, y):\n    return x + y\n");
    assert_eq!(a, b);
}

#[test]
fn different_structure_produces_different_trees() {
    let a = normalize_python_body("def foo(a, b):\n    return a + b\n");
    let b = normalize_python_body("def foo(a, b):\n    if a:\n        return b\n    return a\n");
    assert_ne!(a, b);
}

#[test]
fn binary_operator_detection() {
    let src = "a + b\n";
    let tree = parse(src);
    let mapping = integration_mapping();
    let mut ctx = NormalizationContext::new();
    let bin_op = first_stmt(&tree).named_child(0).unwrap();
    let node = normalize(bin_op, src, &mapping, &mut ctx);
    assert_eq!(node.kind, NodeKind::BinaryOp(BinOpKind::Add));
    assert_eq!(node.children.len(), 2);
    assert_eq!(node.children[0].kind, NodeKind::Placeholder(PlaceholderKind::Variable, 0));
    assert_eq!(node.children[1].kind, NodeKind::Placeholder(PlaceholderKind::Variable, 1));
}

#[test]
fn if_else_normalization() {
    let src = "if x:\n    y = 1\nelse:\n    y = 2\n";
    let tree = parse(src);
    let mapping = integration_mapping();
    let mut ctx = NormalizationContext::new();
    let if_node = first_stmt(&tree);
    assert_eq!(if_node.kind(), "if_statement");
    let node = normalize(if_node, src, &mapping, &mut ctx);
    assert_eq!(node.kind, NodeKind::If);
    assert_eq!(node.children.len(), 3);
    assert!(!node.children[2].is_none());
}

#[test]
fn python_integration_error_node_becomes_opaque() {
    let src = "((( @@@ )))  def\n";
    let tree = parse(src);
    let mapping = integration_mapping();
    let mut ctx = NormalizationContext::new();
    let root = tree.root_node();
    assert!(root.has_error(), "Test source should trigger parse errors");
    let node = normalize(root, src, &mapping, &mut ctx);
    assert!(has_opaque(&node), "Malformed source should produce at least one Opaque node");
}

#[test]
fn nested_calls() {
    let src = "f(g(x))\n";
    let tree = parse(src);
    let mapping = integration_mapping();
    let mut ctx = NormalizationContext::new();
    let call = first_stmt(&tree).named_child(0).unwrap();
    let node = normalize(call, src, &mapping, &mut ctx);
    assert_eq!(node.kind, NodeKind::Call);
    assert_eq!(node.children[0].kind, NodeKind::Placeholder(PlaceholderKind::Variable, 0));
    assert_eq!(node.children[1].kind, NodeKind::Call);
}

#[test]
fn empty_function_body() {
    let body = normalize_python_body("def nothing():\n    pass\n");
    let count = count_nodes(&body);
    assert!(count >= 1, "Even 'pass' should produce at least 1 node");
}

#[test]
fn while_loop_normalization() {
    let src = "while x:\n    y = 1\n";
    let tree = parse(src);
    let mapping = integration_mapping();
    let mut ctx = NormalizationContext::new();
    let node = normalize(first_stmt(&tree), src, &mapping, &mut ctx);
    assert_eq!(node.kind, NodeKind::While);
    assert_eq!(node.children.len(), 2);
}

#[test]
fn for_loop_normalization() {
    let src = "for x in items:\n    print(x)\n";
    let tree = parse(src);
    let mapping = integration_mapping();
    let mut ctx = NormalizationContext::new();
    let node = normalize(first_stmt(&tree), src, &mapping, &mut ctx);
    assert_eq!(node.kind, NodeKind::ForLoop);
    assert_eq!(node.children.len(), 3);
}

#[test]
fn node_kinds_mapping_produces_correct_kind() {
    let src = "for x in items:\n    break\n";
    let tree = parse(src);
    let mapping = integration_mapping();
    let mut ctx = NormalizationContext::new();
    let node = normalize(first_stmt(&tree), src, &mapping, &mut ctx);
    assert_eq!(node.kind, NodeKind::ForLoop);
    fn find_break(node: &NormalizedNode) -> bool {
        node.kind == NodeKind::Break || node.children.iter().any(find_break)
    }
    assert!(find_break(&node.children[2]));
}

// ── The production Python mapping ─────────────────────────────────────────

#[test]
fn python_mapping_renamed_functions_score_one() {
    let mapping = python_mapping();
    let a_src = "def foo(a, b):\n    c = a * b\n    return c + a\n";
    let b_src = "def bar(x, y):\n    z = x * y\n    return z + x\n";
    let ta = parse(a_src);
    let tb = parse(b_src);
    let mut ca = NormalizationContext::new();
    let mut cb = NormalizationContext::new();
    let na = normalize(find_body(ta.root_node()).unwrap(), a_src, &mapping, &mut ca);
    let nb = normalize(find_body(tb.root_node()).unwrap(), b_src, &mapping, &mut cb);
    let score = similarity_score(&na, &nb);
    assert_eq!(score.num, score.den);
}

#[test]
fn python_mapping_maps_containers_and_augmented_assignment() {
    let mapping = python_mapping();
    let src = "x += [1, 2]\n";
    let tree = parse(src);
    let mut ctx = NormalizationContext::new();
    let node = normalize(first_stmt(&tree), src, &mapping, &mut ctx);
    assert_eq!(node.kind, NodeKind::BinaryOp(BinOpKind::AddAssign));
    assert_eq!(node.children[1].kind, NodeKind::Array);
}

#[test]
fn python_unit_kinds_and_test_names() {
    assert_eq!(python_unit_kind("function_definition"), CodeUnitKind::Function);
    assert_eq!(python_unit_kind("lambda"), CodeUnitKind::Closure);
    assert!(python_is_test("test_parse", "function_definition"));
    assert!(!python_is_test("parse", "function_definition"));
    assert!(python_is_test("TestParser", "class_definition"));
}

#[test]
fn literal_kind_preserved_value_erased() {
    let tree42 = parse("42\n");
    let tree99 = parse("99\n");
    let mapping = integration_mapping();
    let mut ctx42 = NormalizationContext::new();
    let mut ctx99 = NormalizationContext::new();
    let int42 = first_stmt(&tree42).named_child(0).unwrap();
    let int99 = first_stmt(&tree99).named_child(0).unwrap();
    let norm42 = normalize(int42, "42\n", &mapping, &mut ctx42);
    let norm99 = normalize(int99, "99\n", &mapping, &mut ctx99);
    assert_eq!(norm42.kind, NodeKind::Literal(LiteralKind::Int));
    assert_eq!(norm99.kind, NodeKind::Literal(LiteralKind::Int));
    assert_eq!(norm42, norm99);
}
