//! Tests that build their inputs by parsing Rust source with syn and
//! turning syn's syntax tree into the library's own.

use syn::punctuated::Punctuated;
use syn::spanned::Spanned;

use dupes::code_unit::{CodeUnit, CodeUnitKind};
use dupes::config::AnalysisConfig;
use dupes::extractor::extract_sub_units;
use dupes::fingerprint::Fingerprint;
use dupes::grouper::{compute_stats, find_near_duplicates, group_exact_duplicates, DuplicateGroup};
use dupes::node::{NodeKind, NormalizedNode};
use dupes::normalization_context::NormalizationContext;
use dupes::reindex::reindex_placeholders;
use dupes::rust_normalizer::{normalize_expr, normalize_item_fn};
use dupes::rust_syntax as rs;
use dupes::rust_units::{has_cfg_test_attr, has_test_attr, parse_source, RustAnalyzer};
use dupes::similarity::{similarity_score, Ratio};

// ── From syn's syntax tree to the library's ───────────────────────────────

fn idents(path: &syn::Path) -> Vec<String> {
    path.segments.iter().map(|s| s.ident.to_string()).collect()
}

fn lit(l: &syn::Lit) -> rs::Lit {
    match l {
        syn::Lit::Str(_) => rs::Lit::Str,
        syn::Lit::ByteStr(_) => rs::Lit::ByteStr,
        syn::Lit::CStr(_) => rs::Lit::CStr,
        syn::Lit::Byte(_) => rs::Lit::Byte,
        syn::Lit::Char(_) => rs::Lit::Char,
        syn::Lit::Int(_) => rs::Lit::Int,
        syn::Lit::Float(_) => rs::Lit::Float,
        syn::Lit::Bool(_) => rs::Lit::Bool,
        _ => rs::Lit::Verbatim,
    }
}

fn bin_op(op: &syn::BinOp) -> rs::BinOp {
    match op {
        syn::BinOp::Add(_) => rs::BinOp::Add,
        syn::BinOp::Sub(_) => rs::BinOp::Sub,
        syn::BinOp::Mul(_) => rs::BinOp::Mul,
        syn::BinOp::Div(_) => rs::BinOp::Div,
        syn::BinOp::Rem(_) => rs::BinOp::Rem,
        syn::BinOp::And(_) => rs::BinOp::And,
        syn::BinOp::Or(_) => rs::BinOp::Or,
        syn::BinOp::BitXor(_) => rs::BinOp::BitXor,
        syn::BinOp::BitAnd(_) => rs::BinOp::BitAnd,
        syn::BinOp::BitOr(_) => rs::BinOp::BitOr,
        syn::BinOp::Shl(_) => rs::BinOp::Shl,
        syn::BinOp::Shr(_) => rs::BinOp::Shr,
        syn::BinOp::Eq(_) => rs::BinOp::Eq,
        syn::BinOp::Lt(_) => rs::BinOp::Lt,
        syn::BinOp::Le(_) => rs::BinOp::Le,
        syn::BinOp::Ne(_) => rs::BinOp::Ne,
        syn::BinOp::Ge(_) => rs::BinOp::Ge,
        syn::BinOp::Gt(_) => rs::BinOp::Gt,
        syn::BinOp::AddAssign(_) => rs::BinOp::AddAssign,
        syn::BinOp::SubAssign(_) => rs::BinOp::SubAssign,
        syn::BinOp::MulAssign(_) => rs::BinOp::MulAssign,
        syn::BinOp::DivAssign(_) => rs::BinOp::DivAssign,
        syn::BinOp::RemAssign(_) => rs::BinOp::RemAssign,
        syn::BinOp::BitXorAssign(_) => rs::BinOp::BitXorAssign,
        syn::BinOp::BitAndAssign(_) => rs::BinOp::BitAndAssign,
        syn::BinOp::BitOrAssign(_) => rs::BinOp::BitOrAssign,
        syn::BinOp::ShlAssign(_) => rs::BinOp::ShlAssign,
        syn::BinOp::ShrAssign(_) => rs::BinOp::ShrAssign,
        _ => rs::BinOp::Other,
    }
}

fn un_op(op: &syn::UnOp) -> rs::UnOp {
    match op {
        syn::UnOp::Deref(_) => rs::UnOp::Deref,
        syn::UnOp::Not(_) => rs::UnOp::Not,
        syn::UnOp::Neg(_) => rs::UnOp::Neg,
        _ => rs::UnOp::Other,
    }
}

fn member(m: &syn::Member) -> rs::Member {
    match m {
        syn::Member::Named(i) => rs::Member::Named(i.to_string()),
        syn::Member::Unnamed(i) => rs::Member::Unnamed(i.index),
    }
}

fn mac(m: &syn::Macro) -> rs::Macro {
    let tokens_empty = m.tokens.is_empty();
    let body = if tokens_empty {
        Some(Vec::new())
    } else {
        m.parse_body_with(Punctuated::<syn::Expr, syn::token::Comma>::parse_terminated)
            .ok()
            .map(|p| p.iter().map(expr).collect())
    };
    rs::Macro { path: idents(&m.path), tokens_empty, body }
}

fn boxed(e: &syn::Expr) -> Box<rs::Expr> {
    Box::new(expr(e))
}

fn opt(e: &Option<Box<syn::Expr>>) -> Option<Box<rs::Expr>> {
    e.as_ref().map(|x| boxed(x))
}

fn block(b: &syn::Block) -> rs::Block {
    rs::Block { stmts: b.stmts.iter().map(stmt).collect() }
}

fn closure(c: &syn::ExprClosure) -> rs::ExprClosure {
    let line_start = c.or1_token.span.start().line;
    let body_end_line = match &*c.body {
        syn::Expr::Block(eb) => eb.block.brace_token.span.close().end().line,
        other => other.span().end().line,
    };
    rs::ExprClosure {
        inputs: c.inputs.iter().map(pat).collect(),
        body: boxed(&c.body),
        line_start,
        body_end_line,
    }
}

fn expr(e: &syn::Expr) -> rs::Expr {
    match e {
        syn::Expr::Lit(x) => rs::Expr::Lit(lit(&x.lit)),
        syn::Expr::Path(x) => rs::Expr::Path(idents(&x.path)),
        syn::Expr::Binary(x) => rs::Expr::Binary(bin_op(&x.op), boxed(&x.left), boxed(&x.right)),
        syn::Expr::Unary(x) => rs::Expr::Unary(un_op(&x.op), boxed(&x.expr)),
        syn::Expr::Call(x) => rs::Expr::Call(boxed(&x.func), x.args.iter().map(expr).collect()),
        syn::Expr::MethodCall(x) => rs::Expr::MethodCall {
            receiver: boxed(&x.receiver),
            method: x.method.to_string(),
            args: x.args.iter().map(expr).collect(),
        },
        syn::Expr::Field(x) => rs::Expr::Field(boxed(&x.base), member(&x.member)),
        syn::Expr::Index(x) => rs::Expr::Index(boxed(&x.expr), boxed(&x.index)),
        syn::Expr::Closure(x) => rs::Expr::Closure(closure(x)),
        syn::Expr::Return(x) => rs::Expr::Return(opt(&x.expr)),
        syn::Expr::Break(x) => rs::Expr::Break(opt(&x.expr)),
        syn::Expr::Continue(_) => rs::Expr::Continue,
        syn::Expr::Assign(x) => rs::Expr::Assign(boxed(&x.left), boxed(&x.right)),
        syn::Expr::Reference(x) => {
            rs::Expr::Reference { mutable: x.mutability.is_some(), expr: boxed(&x.expr) }
        }
        syn::Expr::Tuple(x) => rs::Expr::Tuple(x.elems.iter().map(expr).collect()),
        syn::Expr::Array(x) => rs::Expr::Array(x.elems.iter().map(expr).collect()),
        syn::Expr::Repeat(x) => rs::Expr::Repeat(boxed(&x.expr), boxed(&x.len)),
        syn::Expr::Cast(x) => rs::Expr::Cast(boxed(&x.expr), Box::new(ty(&x.ty))),
        syn::Expr::Struct(x) => rs::Expr::Struct {
            fields: x
                .fields
                .iter()
                .map(|f| rs::FieldValue { member: member(&f.member), expr: expr(&f.expr) })
                .collect(),
            rest: opt(&x.rest),
        },
        syn::Expr::Await(x) => rs::Expr::Await(boxed(&x.base)),
        syn::Expr::Try(x) => rs::Expr::Try(boxed(&x.expr)),
        syn::Expr::If(x) => rs::Expr::If {
            cond: boxed(&x.cond),
            then_branch: block(&x.then_branch),
            else_branch: x.else_branch.as_ref().map(|(_, e)| boxed(e)),
        },
        syn::Expr::Match(x) => rs::Expr::Match {
            expr: boxed(&x.expr),
            arms: x
                .arms
                .iter()
                .map(|a| rs::Arm {
                    pat: pat(&a.pat),
                    guard: a.guard.as_ref().map(|(_, g)| boxed(g)),
                    body: boxed(&a.body),
                })
                .collect(),
        },
        syn::Expr::Loop(x) => rs::Expr::Loop(block(&x.body)),
        syn::Expr::While(x) => rs::Expr::While { cond: boxed(&x.cond), body: block(&x.body) },
        syn::Expr::ForLoop(x) => rs::Expr::ForLoop {
            pat: Box::new(pat(&x.pat)),
            expr: boxed(&x.expr),
            body: block(&x.body),
        },
        syn::Expr::Block(x) => rs::Expr::Block(block(&x.block)),
        syn::Expr::Paren(x) => rs::Expr::Paren(boxed(&x.expr)),
        syn::Expr::Range(x) => rs::Expr::Range { start: opt(&x.start), end: opt(&x.end) },
        syn::Expr::Let(x) => rs::Expr::Let { pat: Box::new(pat(&x.pat)), expr: boxed(&x.expr) },
        syn::Expr::Macro(x) => rs::Expr::Macro(mac(&x.mac)),
        syn::Expr::Group(x) => rs::Expr::Group(boxed(&x.expr)),
        syn::Expr::Unsafe(x) => rs::Expr::Unsafe(block(&x.block)),
        syn::Expr::Const(x) => rs::Expr::Const(block(&x.block)),
        _ => rs::Expr::Other,
    }
}

fn stmt(s: &syn::Stmt) -> rs::Stmt {
    match s {
        syn::Stmt::Local(l) => rs::Stmt::Local {
            pat: pat(&l.pat),
            init: l.init.as_ref().map(|i| rs::LocalInit {
                expr: boxed(&i.expr),
                diverge: i.diverge.as_ref().map(|(_, d)| boxed(d)),
            }),
        },
        syn::Stmt::Expr(e, semi) => rs::Stmt::Expr(expr(e), semi.is_some()),
        syn::Stmt::Item(i) => rs::Stmt::Item(item(i)),
        syn::Stmt::Macro(m) => rs::Stmt::Macro(mac(&m.mac), m.semi_token.is_some()),
    }
}

fn ty(t: &syn::Type) -> rs::Type {
    match t {
        syn::Type::Path(x) => {
            rs::Type::Path { qself: x.qself.is_some(), segments: idents(&x.path) }
        }
        syn::Type::Reference(x) => {
            rs::Type::Reference { mutable: x.mutability.is_some(), elem: Box::new(ty(&x.elem)) }
        }
        syn::Type::Tuple(x) => rs::Type::Tuple(x.elems.iter().map(ty).collect()),
        syn::Type::Slice(x) => rs::Type::Slice(Box::new(ty(&x.elem))),
        syn::Type::Array(x) => rs::Type::Array(Box::new(ty(&x.elem)), boxed(&x.len)),
        syn::Type::ImplTrait(x) => rs::Type::ImplTrait(
            x.bounds
                .iter()
                .map(|b| match b {
                    syn::TypeParamBound::Trait(t) => rs::Bound::Trait(idents(&t.path)),
                    _ => rs::Bound::Other,
                })
                .collect(),
        ),
        syn::Type::Infer(_) => rs::Type::Infer,
        syn::Type::Never(_) => rs::Type::Never,
        syn::Type::Paren(x) => rs::Type::Paren(Box::new(ty(&x.elem))),
        syn::Type::Macro(x) => rs::Type::Macro(mac(&x.mac)),
        _ => rs::Type::Other,
    }
}

fn pat(p: &syn::Pat) -> rs::Pat {
    match p {
        syn::Pat::Ident(x) => rs::Pat::Ident(x.ident.to_string()),
        syn::Pat::Wild(_) => rs::Pat::Wild,
        syn::Pat::Tuple(x) => rs::Pat::Tuple(x.elems.iter().map(pat).collect()),
        syn::Pat::TupleStruct(x) => rs::Pat::TupleStruct(x.elems.iter().map(pat).collect()),
        syn::Pat::Struct(x) => rs::Pat::Struct(
            x.fields
                .iter()
                .map(|f| rs::FieldPat { member: member(&f.member), pat: pat(&f.pat) })
                .collect(),
        ),
        syn::Pat::Or(x) => rs::Pat::Or(x.cases.iter().map(pat).collect()),
        syn::Pat::Lit(x) => rs::Pat::Lit(lit(&x.lit)),
        syn::Pat::Reference(x) => {
            rs::Pat::Reference { mutable: x.mutability.is_some(), pat: Box::new(pat(&x.pat)) }
        }
        syn::Pat::Slice(x) => rs::Pat::Slice(x.elems.iter().map(pat).collect()),
        syn::Pat::Rest(_) => rs::Pat::Rest,
        syn::Pat::Range(x) => rs::Pat::Range { start: opt(&x.start), end: opt(&x.end) },
        syn::Pat::Path(x) => rs::Pat::Path(idents(&x.path)),
        syn::Pat::Type(x) => rs::Pat::Type(Box::new(pat(&x.pat))),
        syn::Pat::Macro(x) => rs::Pat::Macro(mac(&x.mac)),
        _ => rs::Pat::Other,
    }
}

fn attr(a: &syn::Attribute) -> rs::Attribute {
    rs::Attribute {
        ident: a.path().get_ident().map(|i| i.to_string()),
        arg_ident: a.parse_args::<syn::Ident>().ok().map(|i| i.to_string()),
    }
}

fn signature(s: &syn::Signature) -> rs::Signature {
    rs::Signature {
        ident: s.ident.to_string(),
        inputs: s
            .inputs
            .iter()
            .map(|a| match a {
                syn::FnArg::Receiver(r) => rs::FnArg::Receiver {
                    reference: r.reference.is_some(),
                    mutable: r.mutability.is_some(),
                },
                syn::FnArg::Typed(t) => rs::FnArg::Typed { pat: pat(&t.pat), ty: ty(&t.ty) },
            })
            .collect(),
        output: match &s.output {
            syn::ReturnType::Default => None,
            syn::ReturnType::Type(_, t) => Some(Box::new(ty(t))),
        },
    }
}

fn function(attrs: &[syn::Attribute], sig: &syn::Signature, body: &syn::Block) -> rs::ItemFn {
    rs::ItemFn {
        attrs: attrs.iter().map(attr).collect(),
        sig: signature(sig),
        block: block(body),
        line_start: sig.ident.span().start().line,
        line_end: body.brace_token.span.close().end().line,
    }
}

fn item_fn(f: &syn::ItemFn) -> rs::ItemFn {
    function(&f.attrs, &f.sig, &f.block)
}

fn item(i: &syn::Item) -> rs::Item {
    match i {
        syn::Item::Fn(f) => rs::Item::Fn(item_fn(f)),
        syn::Item::Mod(m) => rs::Item::Mod(rs::ItemMod {
            attrs: m.attrs.iter().map(attr).collect(),
            content: m.content.as_ref().map(|(_, items)| items.iter().map(item).collect()),
        }),
        syn::Item::Impl(imp) => rs::Item::Impl(rs::ItemImpl {
            attrs: imp.attrs.iter().map(attr).collect(),
            self_ty: ty(&imp.self_ty),
            trait_path: imp.trait_.as_ref().map(|(_, p, _)| idents(p)),
            items: imp
                .items
                .iter()
                .map(|it| match it {
                    syn::ImplItem::Fn(m) => rs::ImplItem::Fn(function(&m.attrs, &m.sig, &m.block)),
                    _ => rs::ImplItem::Other,
                })
                .collect(),
        }),
        syn::Item::Const(c) => rs::Item::Other(vec![expr(&c.expr)]),
        syn::Item::Static(s) => rs::Item::Other(vec![expr(&s.expr)]),
        syn::Item::Trait(t) => rs::Item::Trait(
            t.items
                .iter()
                .map(|ti| match ti {
                    syn::TraitItem::Fn(f) => rs::TraitItem::Fn(f.default.as_ref().map(block)),
                    syn::TraitItem::Const(c) => {
                        rs::TraitItem::Const(c.default.as_ref().map(|(_, e)| expr(e)))
                    }
                    _ => rs::TraitItem::Other,
                })
                .collect(),
        ),
        _ => rs::Item::Other(Vec::new()),
    }
}

fn tree(f: &syn::File) -> rs::SourceFile {
    rs::SourceFile { items: f.items.iter().map(item).collect() }
}

// ── Helpers ───────────────────────────────────────────────────────────────

fn parse_fn(code: &str) -> rs::ItemFn {
    item_fn(&syn::parse_str::<syn::ItemFn>(code).unwrap())
}

fn parse_expr(code: &str) -> rs::Expr {
    expr(&syn::parse_str::<syn::Expr>(code).unwrap())
}

fn as_f64(r: Ratio) -> f64 {
    r.num as f64 / r.den as f64
}

fn fn_body_similarity(code1: &str, code2: &str) -> f64 {
    let f1 = parse_fn(code1);
    let f2 = parse_fn(code2);
    let (_, b1) = normalize_item_fn(&f1);
    let (_, b2) = normalize_item_fn(&f2);
    as_f64(similarity_score(&b1, &b2))
}

fn expr_similarity(code1: &str, code2: &str) -> f64 {
    let e1 = parse_expr(code1);
    let e2 = parse_expr(code2);
    let mut ctx1 = NormalizationContext::new();
    let mut ctx2 = NormalizationContext::new();
    let n1 = normalize_expr(&e1, &mut ctx1);
    let n2 = normalize_expr(&e2, &mut ctx2);
    as_f64(similarity_score(&n1, &n2))
}

fn parse_units(code: &str, min_nodes: usize, min_lines: usize) -> Vec<CodeUnit> {
    let path = "test.rs".to_string();
    parse_source(&path, code, tree, min_nodes, min_lines).unwrap()
}

fn make_units(code: &str) -> Vec<CodeUnit> {
    parse_units(code, 1, 0)
}

fn parse_and_extract_body(code: &str) -> NormalizedNode {
    let f = parse_fn(code);
    let (_, body) = normalize_item_fn(&f);
    body
}

fn fps(groups: &[DuplicateGroup]) -> Vec<Fingerprint> {
    groups.iter().map(|g| g.fingerprint).collect()
}

// ── Fingerprint tests ─────────────────────────────────────────────────────

#[test]
fn identical_functions_same_fingerprint() {
    let code1 = "fn foo(x: i32) -> i32 { x + 1 }";
    let code2 = "fn bar(a: i32) -> i32 { a + 1 }";
    let f1 = parse_fn(code1);
    let f2 = parse_fn(code2);
    let (sig1, body1) = normalize_item_fn(&f1);
    let (sig2, body2) = normalize_item_fn(&f2);
    let fp1 = Fingerprint::from_sig_and_body(&sig1, &body1);
    let fp2 = Fingerprint::from_sig_and_body(&sig2, &body2);
    assert_eq!(fp1, fp2);
}

#[test]
fn core_with_syn_tests_different_functions_different_fingerprint() {
    let code1 = "fn foo(x: i32) -> i32 { x + 1 }";
    let code2 = "fn foo(x: i32) -> i32 { x * 2 }";
    let f1 = parse_fn(code1);
    let f2 = parse_fn(code2);
    let (sig1, body1) = normalize_item_fn(&f1);
    let (sig2, body2) = normalize_item_fn(&f2);
    let fp1 = Fingerprint::from_sig_and_body(&sig1, &body1);
    let fp2 = Fingerprint::from_sig_and_body(&sig2, &body2);
    assert_ne!(fp1, fp2);
}

#[test]
fn fingerprint_from_node() {
    let e = parse_expr("x + 1");
    let mut ctx = NormalizationContext::new();
    let node = normalize_expr(&e, &mut ctx);
    let fp = Fingerprint::from_node(&node);
    assert_ne!(fp.value(), 0);
}

#[test]
fn fingerprint_stability() {
    let code = "fn foo(x: i32) -> i32 { x + 1 }";
    let f = parse_fn(code);
    let (sig1, body1) = normalize_item_fn(&f);
    let (sig2, body2) = normalize_item_fn(&f);
    let fp1 = Fingerprint::from_sig_and_body(&sig1, &body1);
    let fp2 = Fingerprint::from_sig_and_body(&sig2, &body2);
    assert_eq!(fp1, fp2);
}

#[test]
fn fingerprint_discriminates_operators() {
    let f1 = parse_fn("fn f(x: i32) -> i32 { x + 1 }");
    let f2 = parse_fn("fn f(x: i32) -> i32 { x - 1 }");
    let (s1, b1) = normalize_item_fn(&f1);
    let (s2, b2) = normalize_item_fn(&f2);
    assert_ne!(
        Fingerprint::from_sig_and_body(&s1, &b1),
        Fingerprint::from_sig_and_body(&s2, &b2)
    );
}

#[test]
fn fingerprint_ignores_variable_names() {
    let f1 = parse_fn("fn compute(value: i32) -> i32 { value * value + value }");
    let f2 = parse_fn("fn calculate(num: i32) -> i32 { num * num + num }");
    let (s1, b1) = normalize_item_fn(&f1);
    let (s2, b2) = normalize_item_fn(&f2);
    assert_eq!(
        Fingerprint::from_sig_and_body(&s1, &b1),
        Fingerprint::from_sig_and_body(&s2, &b2)
    );
}

// ── Similarity tests ──────────────────────────────────────────────────────

#[test]
fn identical_trees_score_one() {
    let score = fn_body_similarity(
        "fn foo(x: i32) -> i32 { x + 1 }",
        "fn bar(a: i32) -> i32 { a + 1 }",
    );
    assert!((score - 1.0).abs() < f64::EPSILON);
}

#[test]
fn completely_different_trees_score_low() {
    let score = fn_body_similarity(
        "fn foo(x: i32) -> i32 { x + 1 }",
        "fn bar(x: bool) { if x { loop { break; } } }",
    );
    assert!(score < 0.3);
}

#[test]
fn single_expression_difference_high_score() {
    let score = fn_body_similarity(
        "fn foo(x: i32) -> i32 { let a = x + 1; let b = a * 2; a + b }",
        "fn bar(x: i32) -> i32 { let a = x + 1; let b = a * 3; a + b }",
    );
    assert!(score > 0.8);
}

#[test]
fn structural_difference_low_score() {
    let score = fn_body_similarity(
        "fn foo(x: i32) -> i32 { x + 1 }",
        "fn bar(x: i32) -> i32 { if x > 0 { x + 1 } else { x - 1 } }",
    );
    assert!(score < 0.7);
}

#[test]
fn empty_trees_score_one() {
    let score = fn_body_similarity("fn foo() {}", "fn bar() {}");
    assert!((score - 1.0).abs() < f64::EPSILON);
}

#[test]
fn simple_expr_identical() {
    let score = expr_similarity("x + 1", "y + 1");
    assert!((score - 1.0).abs() < f64::EPSILON);
}

#[test]
fn simple_expr_different_op() {
    let score = expr_similarity("x + 1", "x - 1");
    assert!(score > 0.5);
    assert!(score < 1.0);
}

#[test]
fn near_duplicate_complex_fn() {
    let score = fn_body_similarity(
        r#"
        fn process(data: Vec<i32>) -> i32 {
            let mut sum = 0;
            for item in data.iter() {
                if *item > 0 {
                    sum += *item;
                }
            }
            sum
        }
        "#,
        r#"
        fn compute(values: Vec<i32>) -> i32 {
            let mut total = 0;
            for val in values.iter() {
                if *val > 0 {
                    total += *val;
                }
            }
            total
        }
        "#,
    );
    assert!((score - 1.0).abs() < f64::EPSILON);
}

#[test]
fn core_with_syn_tests_similarity_is_symmetric() {
    let score1 = fn_body_similarity(
        "fn foo(x: i32) -> i32 { x + 1 }",
        "fn bar(x: i32) -> i32 { x * 2 + 1 }",
    );
    let score2 = fn_body_similarity(
        "fn bar(x: i32) -> i32 { x * 2 + 1 }",
        "fn foo(x: i32) -> i32 { x + 1 }",
    );
    assert!((score1 - score2).abs() < f64::EPSILON);
}

#[test]
fn if_vs_match_low_similarity() {
    let score = expr_similarity(
        "if x > 0 { x } else { -x }",
        "match x > 0 { true => x, false => -x }",
    );
    assert!(score < 0.5);
}

#[test]
fn method_call_similarity() {
    let score = expr_similarity("x.foo(y, z)", "a.foo(b, c)");
    assert!((score - 1.0).abs() < f64::EPSILON);
}

#[test]
fn closure_similarity() {
    let score = expr_similarity("|x| x + 1", "|y| y + 1");
    assert!((score - 1.0).abs() < f64::EPSILON);
}

#[test]
fn same_macro_same_args_score_one() {
    let score = expr_similarity("println!(\"hello\")", "println!(\"world\")");
    assert!((score - 1.0).abs() < f64::EPSILON);
}

#[test]
fn different_macro_names_score_zero() {
    let score = expr_similarity("println!(\"hello\")", "eprintln!(\"hello\")");
    assert!(score < f64::EPSILON);
}

#[test]
fn same_macro_different_arg_count_partial_similarity() {
    let score = expr_similarity("println!(\"a\")", "println!(\"a\", \"b\")");
    assert!(score > 0.0);
    assert!(score < 1.0);
}

// ── Grouper tests ─────────────────────────────────────────────────────────

#[test]
fn core_with_syn_tests_exact_duplicates_grouped() {
    let units = make_units(
        r#"
        fn foo(x: i32) -> i32 {
            let y = x + 1;
            y * 2
        }
        fn bar(a: i32) -> i32 {
            let b = a + 1;
            b * 2
        }
        fn unique(x: i32) -> i32 {
            x * x * x
        }
        "#,
    );
    let groups = group_exact_duplicates(&units);
    assert_eq!(groups.len(), 1);
    assert_eq!(groups[0].members.len(), 2);
    assert!((as_f64(groups[0].similarity) - 1.0).abs() < f64::EPSILON);
}

#[test]
fn no_duplicates_no_groups() {
    let units = make_units(
        r#"
        fn add(x: i32) -> i32 { x + 1 }
        fn mul(x: i32) -> i32 { x * 2 }
        fn sub(x: i32) -> i32 { x - 3 }
        "#,
    );
    let groups = group_exact_duplicates(&units);
    assert!(groups.is_empty());
}

#[test]
fn multiple_exact_groups() {
    let units = make_units(
        r#"
        fn a1(x: i32) -> i32 { x + 1 }
        fn a2(y: i32) -> i32 { y + 1 }
        fn b1(x: i32) -> i32 { x * 2 }
        fn b2(y: i32) -> i32 { y * 2 }
        "#,
    );
    let groups = group_exact_duplicates(&units);
    assert_eq!(groups.len(), 2);
}

#[test]
fn core_with_syn_tests_near_duplicates_found() {
    let units = make_units(
        r#"
        fn process(data: i32) -> i32 {
            let a = data + 1;
            let b = a * 2;
            let c = b - 3;
            a + b + c
        }
        fn compute(value: i32) -> i32 {
            let a = value + 1;
            let b = a * 2;
            let c = b - 4;
            a + b + c
        }
        "#,
    );
    let exact = group_exact_duplicates(&units);
    let exact_fps = fps(&exact);
    let near = find_near_duplicates(&units, Ratio { num: 7, den: 10 }, &exact_fps);
    assert!(exact.len() + near.len() >= 1);
}

#[test]
fn stats_computation() {
    let units = make_units(
        r#"
        fn a(x: i32) -> i32 { x + 1 }
        fn b(y: i32) -> i32 { y + 1 }
        fn c(x: i32) -> i32 { x * 2 }
        "#,
    );
    let exact = group_exact_duplicates(&units);
    let stats = compute_stats(&units, &exact, &[]);
    assert_eq!(stats.total_code_units, 3);
    assert_eq!(stats.exact_duplicate_groups, 1);
    assert_eq!(stats.exact_duplicate_units, 2);
    assert!(stats.total_lines > 0);
}

#[test]
fn single_unit_no_groups() {
    let units = make_units("fn solo(x: i32) -> i32 { x + 1 }");
    let groups = group_exact_duplicates(&units);
    assert!(groups.is_empty());
}

#[test]
fn exact_groups_sorted_by_size() {
    let units = make_units(
        r#"
        fn a1(x: i32) -> i32 { x + 1 }
        fn a2(y: i32) -> i32 { y + 1 }
        fn a3(z: i32) -> i32 { z + 1 }
        fn b1(x: i32) -> i32 { x * 2 }
        fn b2(y: i32) -> i32 { y * 2 }
        "#,
    );
    let groups = group_exact_duplicates(&units);
    assert_eq!(groups.len(), 2);
    assert!(groups[0].members.len() >= groups[1].members.len());
}

#[test]
fn near_duplicates_exclude_exact() {
    let units = make_units(
        r#"
        fn a(x: i32) -> i32 { x + 1 }
        fn b(y: i32) -> i32 { y + 1 }
        "#,
    );
    let exact = group_exact_duplicates(&units);
    let exact_fps = fps(&exact);
    let near = find_near_duplicates(&units, Ratio { num: 7, den: 10 }, &exact_fps);
    assert!(near.is_empty());
}

#[test]
fn duplicate_group_has_fingerprint() {
    let units = make_units(
        r#"
        fn a(x: i32) -> i32 { x + 1 }
        fn b(y: i32) -> i32 { y + 1 }
        "#,
    );
    let groups = group_exact_duplicates(&units);
    assert_eq!(groups.len(), 1);
    assert_ne!(groups[0].fingerprint.value(), 0);
}

#[test]
fn stats_with_near_duplicates() {
    let units = make_units(
        r#"
        fn a(x: i32) -> i32 { x + 1 }
        fn b(y: i32) -> i32 { y * 2 }
        "#,
    );
    let composite_fp = Fingerprint::from_fingerprints(&[Fingerprint::from_node(
        &NormalizedNode::leaf(NodeKind::Opaque),
    )]);
    let near_group = DuplicateGroup {
        fingerprint: composite_fp,
        members: vec![],
        similarity: Ratio { num: 85, den: 100 },
    };
    let stats = compute_stats(&units, &[], &[near_group]);
    assert_eq!(stats.total_code_units, units.len());
    assert_eq!(stats.near_duplicate_groups, 1);
}

#[test]
fn stats_includes_line_counts() {
    let units = make_units(
        r#"
        fn foo(x: i32) -> i32 {
            let y = x + 1;
            y * 2
        }
        fn bar(a: i32) -> i32 {
            let b = a + 1;
            b * 2
        }
        "#,
    );
    let exact = group_exact_duplicates(&units);
    let stats = compute_stats(&units, &exact, &[]);
    assert!(stats.exact_duplicate_lines > 0);
    assert_eq!(stats.near_duplicate_lines, 0);
}

#[test]
fn stats_total_lines_computed() {
    let units = make_units(
        r#"
        fn foo(x: i32) -> i32 {
            let y = x + 1;
            y * 2
        }
        fn bar(a: i32) -> i32 {
            let b = a + 1;
            b * 2
        }
        "#,
    );
    let stats = compute_stats(&units, &[], &[]);
    assert!(stats.total_lines > 0);
}

// ── Extractor tests ───────────────────────────────────────────────────────

#[test]
fn extracts_if_branches() {
    let body = parse_and_extract_body(
        "fn foo(x: i32) -> i32 { if x > 0 { let y = x + 1; y * 2 } else { let z = x - 1; z * 3 } }",
    );
    let subs = extract_sub_units(&body, 1);
    let if_branches: Vec<_> = subs.iter().filter(|s| s.kind == CodeUnitKind::IfBranch).collect();
    assert_eq!(if_branches.len(), 2);
}

#[test]
fn extracts_match_arms() {
    let body = parse_and_extract_body(
        r#"fn foo(x: i32) -> i32 {
            match x {
                0 => { let a = 1; a + 1 },
                1 => { let b = 2; b + 2 },
                _ => { let c = 3; c + 3 },
            }
        }"#,
    );
    let subs = extract_sub_units(&body, 1);
    let match_arms: Vec<_> = subs.iter().filter(|s| s.kind == CodeUnitKind::MatchArm).collect();
    assert_eq!(match_arms.len(), 3);
}

#[test]
fn extracts_loop_bodies() {
    let body =
        parse_and_extract_body("fn foo(x: i32) { for i in 0..10 { let y = i + x; let _ = y; } }");
    let subs = extract_sub_units(&body, 1);
    let loops: Vec<_> = subs.iter().filter(|s| s.kind == CodeUnitKind::LoopBody).collect();
    assert_eq!(loops.len(), 1);
}

#[test]
fn core_with_syn_tests_respects_min_node_count() {
    let body =
        parse_and_extract_body("fn foo(x: i32) -> i32 { if x > 0 { x + 1 } else { x - 1 } }");
    let subs_low = extract_sub_units(&body, 1);
    let subs_high = extract_sub_units(&body, 100);
    assert!(!subs_low.is_empty());
    assert!(subs_high.is_empty());
}

#[test]
fn identical_branches_from_different_functions_match() {
    let body1 = parse_and_extract_body(
        "fn foo(unused: i32, x: i32) -> i32 { if x > 0 { let y = x + 1; y * 2 } else { x } }",
    );
    let body2 = parse_and_extract_body(
        "fn bar(a: i32) -> i32 { if a > 0 { let b = a + 1; b * 2 } else { a } }",
    );
    let subs1 = extract_sub_units(&body1, 1);
    let subs2 = extract_sub_units(&body2, 1);
    let then1 = subs1.iter().find(|s| s.description == "if-then branch").unwrap();
    let then2 = subs2.iter().find(|s| s.description == "if-then branch").unwrap();
    assert_eq!(then1.node, then2.node);
}

#[test]
fn sub_units_are_reindexed() {
    let body = parse_and_extract_body(
        "fn foo(a: i32, b: i32, c: i32) -> i32 { if c > 0 { let d = c + 1; d } else { c } }",
    );
    let subs = extract_sub_units(&body, 1);
    let then_branch = subs.iter().find(|s| s.description == "if-then branch").unwrap();
    let mut ctx = NormalizationContext::new();
    let fresh_expr = normalize_expr(&parse_expr("{ let d = c + 1; d }"), &mut ctx);
    let reindexed_fresh = reindex_placeholders(&fresh_expr);
    assert_eq!(then_branch.node, reindexed_fresh);
}

#[test]
fn nested_structures_extracted_recursively() {
    let body = parse_and_extract_body(
        r#"fn foo(x: i32) -> i32 {
            if x > 0 {
                for i in 0..x {
                    let y = i + 1;
                    let _ = y;
                }
                x
            } else {
                x
            }
        }"#,
    );
    let subs = extract_sub_units(&body, 1);
    let if_branches: Vec<_> = subs.iter().filter(|s| s.kind == CodeUnitKind::IfBranch).collect();
    let loops: Vec<_> = subs.iter().filter(|s| s.kind == CodeUnitKind::LoopBody).collect();
    assert_eq!(if_branches.len(), 2);
    assert_eq!(loops.len(), 1);
}

#[test]
fn extracts_while_loop_bodies() {
    let body = parse_and_extract_body(
        "fn foo(x: i32) { let mut i = 0; while i < x { let y = i + 1; i = y; } }",
    );
    let subs = extract_sub_units(&body, 1);
    let loops: Vec<_> = subs.iter().filter(|s| s.kind == CodeUnitKind::LoopBody).collect();
    assert_eq!(loops.len(), 1);
    assert_eq!(loops[0].description, "while body");
}

#[test]
fn extracts_bare_loop_bodies() {
    let body = parse_and_extract_body(
        "fn foo(x: i32) -> i32 { let mut i = 0; loop { i += 1; if i > x { break i; } } }",
    );
    let subs = extract_sub_units(&body, 1);
    let loops: Vec<_> = subs.iter().filter(|s| s.kind == CodeUnitKind::LoopBody).collect();
    assert_eq!(loops.len(), 1);
    assert_eq!(loops[0].description, "loop body");
}

#[test]
fn extracts_closure_bodies() {
    let body = parse_and_extract_body(
        r#"fn foo(data: Vec<i32>) -> Vec<i32> {
            data.iter().map(|x| {
                let y = x + 1;
                let z = y * 2;
                z
            }).collect()
        }"#,
    );
    let subs = extract_sub_units(&body, 1);
    let closures: Vec<_> = subs
        .iter()
        .filter(|s| s.kind == CodeUnitKind::Block && s.description == "closure body")
        .collect();
    assert_eq!(closures.len(), 1);
}

#[test]
fn let_else_diverge_blocks_differ() {
    let f1 = parse_fn("fn foo(x: Option<i32>) -> i32 { let Some(v) = x else { return 0; }; v }");
    let f2 = parse_fn("fn bar(x: Option<i32>) -> i32 { let Some(v) = x else { panic!(); }; v }");
    let (sig1, body1) = normalize_item_fn(&f1);
    let (sig2, body2) = normalize_item_fn(&f2);
    let fp1 = Fingerprint::from_sig_and_body(&sig1, &body1);
    let fp2 = Fingerprint::from_sig_and_body(&sig2, &body2);
    assert_ne!(fp1, fp2, "different let-else diverge blocks should produce different fingerprints");
}

#[test]
fn let_else_same_diverge_blocks_match() {
    let f1 = parse_fn("fn foo(x: Option<i32>) -> i32 { let Some(v) = x else { return 0; }; v }");
    let f2 = parse_fn("fn bar(y: Option<i32>) -> i32 { let Some(w) = y else { return 0; }; w }");
    let (sig1, body1) = normalize_item_fn(&f1);
    let (sig2, body2) = normalize_item_fn(&f2);
    let fp1 = Fingerprint::from_sig_and_body(&sig1, &body1);
    let fp2 = Fingerprint::from_sig_and_body(&sig2, &body2);
    assert_eq!(fp1, fp2, "identical let-else structures with renamed vars should match");
}

// ── Parser tests ──────────────────────────────────────────────────────────

#[test]
fn lib_rust_analyzer_through_trait() {
    let analyzer = RustAnalyzer::new();
    let config = AnalysisConfig { min_nodes: 1, min_lines: 0 };
    let source = r#"
            fn foo(x: i32) -> i32 {
                let y = x + 1;
                y * 2
            }
            #[test]
            fn test_foo() {
                let z = 1;
                let w = z + 1;
                assert_eq!(w, 2);
            }
        "#;
    let path = "test.rs".to_string();
    let units = analyzer.parse_file(&path, source, tree, &config).unwrap();

    assert!(units.len() >= 2);

    let prod: Vec<_> = units.iter().filter(|u| u.name == "foo").collect();
    assert_eq!(prod.len(), 1);
    assert!(!prod[0].is_test);

    let test: Vec<_> = units.iter().filter(|u| u.name == "test_foo").collect();
    assert_eq!(test.len(), 1);
    assert!(test[0].is_test);

    assert!(!analyzer.is_test_code(prod[0]));
}

#[test]
fn code_unit_kind_display() {
    assert_eq!(CodeUnitKind::Function.to_string(), "function");
    assert_eq!(CodeUnitKind::Method.to_string(), "method");
    assert_eq!(CodeUnitKind::Closure.to_string(), "closure");
}

#[test]
fn test_has_test_attr() {
    let f = tree(&syn::parse_file(
        r#"
            #[test]
            fn my_test() {}
            fn normal() {}
            "#,
    )
    .unwrap());
    match &f.items[0] {
        rs::Item::Fn(x) => assert!(has_test_attr(&x.attrs)),
        _ => panic!("expected function"),
    }
    match &f.items[1] {
        rs::Item::Fn(x) => assert!(!has_test_attr(&x.attrs)),
        _ => panic!("expected function"),
    }
}

#[test]
fn test_has_cfg_test_attr() {
    let f = tree(&syn::parse_file(
        r#"
            #[cfg(test)]
            mod tests {}
            mod normal {}
            "#,
    )
    .unwrap());
    match &f.items[0] {
        rs::Item::Mod(m) => assert!(has_cfg_test_attr(&m.attrs)),
        _ => panic!("expected module"),
    }
    match &f.items[1] {
        rs::Item::Mod(m) => assert!(!has_cfg_test_attr(&m.attrs)),
        _ => panic!("expected module"),
    }
}

#[test]
fn parse_source_works() {
    let units = parse_units("fn foo(x: i32) -> i32 { x + 1 }", 1, 0);
    assert_eq!(units.len(), 1);
    assert_eq!(units[0].name, "foo");
}

#[test]
fn extracts_top_level_functions() {
    let units = parse_units(
        r#"
            fn foo(x: i32) -> i32 {
                let y = x + 1;
                y * 2
            }
            fn bar() {
                println!("hello");
            }
            "#,
        1,
        0,
    );
    let fns: Vec<_> = units.iter().filter(|u| u.kind == CodeUnitKind::Function).collect();
    assert_eq!(fns.len(), 2);
    assert_eq!(fns[0].name, "foo");
    assert_eq!(fns[1].name, "bar");
}

#[test]
fn extracts_methods_from_impl() {
    let units = parse_units(
        r#"
            struct Foo;
            impl Foo {
                fn bar(&self) -> i32 {
                    42
                }
                fn baz(&mut self, val: i32) {
                    let _ = val + 1;
                }
            }
            "#,
        1,
        0,
    );
    let methods: Vec<_> = units.iter().filter(|u| u.kind == CodeUnitKind::Method).collect();
    assert_eq!(methods.len(), 2);
    assert!(methods[0].name.contains("Foo::bar"));
    assert!(methods[1].name.contains("Foo::baz"));
}

#[test]
fn extracts_trait_impl_methods() {
    let units = parse_units(
        r#"
            struct Foo;
            trait MyTrait {
                fn do_thing(&self) -> i32;
            }
            impl MyTrait for Foo {
                fn do_thing(&self) -> i32 {
                    let x = 42;
                    x + 1
                }
            }
            "#,
        1,
        0,
    );
    let trait_impls: Vec<_> =
        units.iter().filter(|u| u.kind == CodeUnitKind::TraitImplBlock).collect();
    assert_eq!(trait_impls.len(), 1);
    assert_eq!(trait_impls[0].name, "<Foo as MyTrait>::do_thing");
}

#[test]
fn parser_respects_min_node_count() {
    let code = r#"
            fn tiny() -> i32 { 1 }
            fn bigger(x: i32) -> i32 {
                let a = x + 1;
                let b = a * 2;
                a + b
            }
            "#;
    let units_low = parse_units(code, 1, 0);
    let units_high = parse_units(code, 20, 0);
    assert_eq!(units_low.len(), 2);
    assert!(units_low.len() >= units_high.len());
    assert!(units_high.iter().all(|u| u.name != "tiny"));
}

#[test]
fn duplicate_functions_same_fingerprint() {
    let units = parse_units(
        r#"
            fn foo(x: i32) -> i32 {
                let y = x + 1;
                y * 2
            }
            fn bar(a: i32) -> i32 {
                let b = a + 1;
                b * 2
            }
            "#,
        1,
        0,
    );
    let fns: Vec<_> = units.iter().filter(|u| u.kind == CodeUnitKind::Function).collect();
    assert_eq!(fns.len(), 2);
    assert_eq!(fns[0].fingerprint, fns[1].fingerprint);
}

#[test]
fn handles_parse_errors_gracefully() {
    let path = "broken.rs".to_string();
    let result = parse_source(&path, "fn broken( { }", tree, 1, 0);
    let message = result.unwrap_err();
    assert!(message.starts_with("Failed to parse broken.rs: "));
}

#[test]
fn code_unit_has_line_numbers() {
    let units = parse_units(
        r#"
fn first() {
    let x = 1;
}

fn second() {
    let y = 2;
}
            "#,
        1,
        0,
    );
    assert_eq!(units.len(), 2);
    assert_eq!(units[0].line_start, 2);
    assert_eq!(units[0].line_end, 4);
    assert_eq!(units[1].line_start, 6);
}

#[test]
fn extracts_closures() {
    let units = parse_units(
        r#"
            fn foo() {
                let f = |x: i32, y: i32| {
                    let sum = x + y;
                    let product = x * y;
                    sum + product
                };
            }
            "#,
        1,
        0,
    );
    let closures: Vec<_> = units.iter().filter(|u| u.kind == CodeUnitKind::Closure).collect();
    assert_eq!(closures.len(), 1);
    assert_eq!(closures[0].name, "closure at test.rs:3");
    assert_eq!(closures[0].line_end, 7);
}

#[test]
fn min_line_count_filters_short_functions() {
    let code = r#"
fn short(x: i32) -> i32 {
    x + 1
}

fn longer(x: i32) -> i32 {
    let a = x + 1;
    let b = a * 2;
    let c = b - 3;
    let d = c + 4;
    a + b + c + d
}
        "#;
    let units_all = parse_units(code, 1, 0);
    assert!(units_all.len() >= 2);
    let units_filtered = parse_units(code, 1, 5);
    assert!(units_filtered.len() < units_all.len());
    for unit in &units_filtered {
        let lines = unit.line_end.saturating_sub(unit.line_start) + 1;
        assert!(lines >= 5, "unit {} has only {lines} lines", unit.name);
    }
}

#[test]
fn cfg_test_module_functions_tagged_as_test() {
    let code = r#"
            fn production(x: i32) -> i32 {
                let y = x + 1;
                y * 2
            }

            #[cfg(test)]
            mod tests {
                fn helper(x: i32) -> i32 {
                    let y = x + 1;
                    y * 2
                }
            }
        "#;
    let units = parse_units(code, 1, 0);
    let prod: Vec<_> = units.iter().filter(|u| u.name == "production").collect();
    let helper: Vec<_> = units.iter().filter(|u| u.name == "helper").collect();
    assert_eq!(prod.len(), 1);
    assert!(!prod[0].is_test);
    assert_eq!(helper.len(), 1);
    assert!(helper[0].is_test);
}

#[test]
fn cfg_test_impl_blocks_tagged_as_test() {
    let code = r#"
            struct Foo;

            impl Foo {
                fn production(&self) -> i32 {
                    let x = 42;
                    x + 1
                }
            }

            #[cfg(test)]
            impl Foo {
                fn test_helper(&self) -> i32 {
                    let x = 42;
                    x + 1
                }
            }
        "#;
    let units = parse_units(code, 1, 0);
    let prod: Vec<_> = units.iter().filter(|u| u.name.contains("production")).collect();
    let helper: Vec<_> = units.iter().filter(|u| u.name.contains("test_helper")).collect();
    assert_eq!(prod.len(), 1);
    assert!(!prod[0].is_test);
    assert_eq!(helper.len(), 1);
    assert!(helper[0].is_test);
}

// ── Laws on concrete values ───────────────────────────────────────────────

#[test]
fn renamed_function_keeps_its_normal_form() {
    let a = parse_fn("fn alpha(x: Vec<i32>, Y: u8) -> i32 { let s = x.len(); s.max(Y) + x[0] }");
    let b = parse_fn("fn beta(w: Vec<i32>, Q: u8) -> i32 { let t = w.len(); t.max(Q) + w[0] }");
    assert_eq!(normalize_item_fn(&a), normalize_item_fn(&b));
}

#[test]
fn uppercase_paths_become_type_placeholders() {
    let mut ctx = NormalizationContext::new();
    let n = normalize_expr(&parse_expr("Foo"), &mut ctx);
    let mut ctx2 = NormalizationContext::new();
    let m = normalize_expr(&parse_expr("foo"), &mut ctx2);
    assert_ne!(n, m);
}

#[test]
fn reindexing_twice_changes_nothing() {
    let f = parse_fn("fn f(a: i32, b: i32) -> i32 { if b > a { let c = b; c } else { a } }");
    let (_, body) = normalize_item_fn(&f);
    let once = reindex_placeholders(&body);
    let twice = reindex_placeholders(&once);
    assert_eq!(once, twice);
}

#[test]
fn closures_inside_methods_are_units() {
    let units = parse_units(
        "impl Foo { fn run(&self) { let f = |a: i32| { let b = a + 1; b * 2 }; } }",
        1,
        0,
    );
    let kinds: Vec<CodeUnitKind> = units.iter().map(|u| u.kind).collect();
    assert_eq!(kinds, vec![CodeUnitKind::Method, CodeUnitKind::Closure]);
    assert_eq!(units[0].name, "Foo::run");
    assert_eq!(units[1].name, "closure at test.rs:1");
}

const GOLDEN: &str = r"
fn add_one(x: i32) -> i32 {
    x + 1
}
";

fn only_unit(code: &str) -> CodeUnit {
    let mut units = parse_units(code, 1, 0);
    assert_eq!(units.len(), 1, "the sample holds exactly one unit");
    units.remove(0)
}

#[test]
fn parse_file_gives_a_renamed_copy_of_the_golden_sample_the_same_fingerprint() {
    let renamed = r"
fn increment(value: i32) -> i32 {
    value + 1
}
";
    assert_eq!(only_unit(GOLDEN).fingerprint, only_unit(renamed).fingerprint);
}

#[test]
fn parse_file_gives_a_structurally_different_function_a_different_fingerprint() {
    let different = r"
fn add_one(x: i32) -> i32 {
    if x > 0 { x + 1 } else { x }
}
";
    assert_ne!(only_unit(GOLDEN).fingerprint, only_unit(different).fingerprint);
}

#[test]
fn closures_in_default_trait_methods_are_units() {
    let units = parse_units(
        "trait T { fn a(&self) { let f = |x: i32| { let y = x + 1; y * 2 }; } fn b(&self); const C: i32; }",
        1,
        0,
    );
    assert_eq!(units.iter().filter(|u| u.kind == CodeUnitKind::Closure).count(), 1);
}
