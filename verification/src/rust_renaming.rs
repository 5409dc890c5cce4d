//! Renaming identifiers does not change normal forms: two pieces of Rust
//! that differ only in a consistent renaming of their identifiers normalize
//! to the same trees, and so are exact duplicates.
use vstd::prelude::*;

use crate::code_unit::CodeUnitKind;
use crate::node::PlaceholderKind;
use crate::normalization_context::{name_slot, Names};
use crate::reindex::{canonical_index, record, Seen};
use crate::rust_normal_form::{
    expr_segment, expr_segments, ident_kind, member_name, normal_arms, normal_block, normal_bounds,
    normal_closure, normal_expr, normal_exprs, normal_field_pats, normal_fields, normal_fn_arg,
    normal_fn_args, normal_item_fn, normal_macro, normal_opt, normal_pat, normal_pats,
    normal_signature, normal_stmt, normal_stmts, normal_type, normal_types, pat_segments,
    type_segments,
};
use crate::rust_syntax::{
    Arm, Block, Bound, Expr, ExprClosure, FieldPat, FieldValue, FnArg, ItemFn, Macro, Member, Pat,
    Stmt, Type,
};
use crate::rust_units::fn_unit;
use crate::text::decimal;

verus! {

/// A renaming of identifiers that keeps them apart, keeps the decimal
/// names of tuple fields, and keeps whether an identifier starts with an
/// uppercase character (which tells types from values in expressions).
pub open spec fn renaming_ok(rn: spec_fn(Seq<char>) -> Seq<char>) -> bool {
    &&& forall|a: Seq<char>, b: Seq<char>| #[trigger] rn(a) == #[trigger] rn(b) ==> a == b
    &&& forall|n: nat| rn(#[trigger] decimal(n)) == decimal(n)
    &&& forall|s: Seq<char>| ident_kind(#[trigger] rn(s)) == ident_kind(s)
}

/// The names met, renamed.
pub open spec fn renamed_names(c: Names, rn: spec_fn(Seq<char>) -> Seq<char>) -> Names {
    Seen { vars: c.vars.map_values(rn), fns: c.fns.map_values(rn), types: c.types.map_values(rn) }
}

/// `b` is `a` with each identifier renamed.
pub open spec fn renamed_texts(a: Seq<String>, b: Seq<String>, rn: spec_fn(Seq<char>) -> Seq<char>) -> bool {
    a.len() == b.len() && forall|i: int| 0 <= i < a.len() ==> (#[trigger] b[i])@ == rn(a[i]@)
}

/// `b` is the field name `a` renamed; tuple positions stay.
pub open spec fn renamed_member(a: Member, b: Member, rn: spec_fn(Seq<char>) -> Seq<char>) -> bool {
    match a {
        Member::Named(x) => b matches Member::Named(y) && y@ == rn(x@),
        Member::Unnamed(i) => b matches Member::Unnamed(j) && i == j,
    }
}

/// `b` is the macro invocation `a` with the identifiers of its arguments
/// renamed; the macro's own name stays.
pub open spec fn renamed_macro(a: Macro, b: Macro, rn: spec_fn(Seq<char>) -> Seq<char>) -> bool
    decreases a,
{
    &&& a.path@.len() == b.path@.len()
    &&& forall|i: int| 0 <= i < a.path@.len() ==> (#[trigger] b.path@[i])@ == a.path@[i]@
    &&& a.tokens_empty == b.tokens_empty
    &&& match a.body {
        Some(x) => b.body matches Some(y) && renamed_exprs(x@, y@, rn),
        None => b.body is None,
    }
}

/// `b` is the optional expression `a` renamed.
pub open spec fn renamed_opt(a: Option<Box<Expr>>, b: Option<Box<Expr>>, rn: spec_fn(Seq<char>) -> Seq<char>) -> bool
    decreases a,
{
    match a {
        Some(x) => b matches Some(y) && renamed_expr(*x, *y, rn),
        None => b is None,
    }
}

/// `b` is the closure `a` renamed.
pub open spec fn renamed_closure(a: ExprClosure, b: ExprClosure, rn: spec_fn(Seq<char>) -> Seq<char>) -> bool
    decreases a,
{
    renamed_pats(a.inputs@, b.inputs@, rn) && renamed_expr(*a.body, *b.body, rn)
}

/// `b` is the expression `a` with each identifier renamed.
pub open spec fn renamed_expr(a: Expr, b: Expr, rn: spec_fn(Seq<char>) -> Seq<char>) -> bool
    decreases a,
{
    match a {
        Expr::Lit(l) => b matches Expr::Lit(m) && l == m,
        Expr::Path(s) => b matches Expr::Path(t) && renamed_texts(s@, t@, rn),
        Expr::Binary(o, l, r) => b matches Expr::Binary(p, l2, r2) && o == p && renamed_expr(*l, *l2, rn)
            && renamed_expr(*r, *r2, rn),
        Expr::Unary(o, x) => b matches Expr::Unary(p, y) && o == p && renamed_expr(*x, *y, rn),
        Expr::Call(f, args) => b matches Expr::Call(g, args2) && renamed_expr(*f, *g, rn)
            && renamed_exprs(args@, args2@, rn),
        Expr::MethodCall { receiver, method, args } => b matches Expr::MethodCall {
            receiver: r2,
            method: m2,
            args: a2,
        } && m2@ == rn(method@) && renamed_expr(*receiver, *r2, rn) && renamed_exprs(args@, a2@, rn),
        Expr::Field(x, m) => b matches Expr::Field(y, m2) && renamed_member(m, m2, rn) && renamed_expr(
            *x,
            *y,
            rn,
        ),
        Expr::Index(x, y) => b matches Expr::Index(x2, y2) && renamed_expr(*x, *x2, rn)
            && renamed_expr(*y, *y2, rn),
        Expr::Closure(cl) => b matches Expr::Closure(cl2) && renamed_closure(cl, cl2, rn),
        Expr::Return(v) => b matches Expr::Return(w) && renamed_opt(v, w, rn),
        Expr::Break(v) => b matches Expr::Break(w) && renamed_opt(v, w, rn),
        Expr::Continue => b is Continue,
        Expr::Assign(x, y) => b matches Expr::Assign(x2, y2) && renamed_expr(*x, *x2, rn)
            && renamed_expr(*y, *y2, rn),
        Expr::Reference { mutable, expr } => b matches Expr::Reference { mutable: m2, expr: e2 }
            && mutable == m2 && renamed_expr(*expr, *e2, rn),
        Expr::Tuple(es) => b matches Expr::Tuple(fs) && renamed_exprs(es@, fs@, rn),
        Expr::Array(es) => b matches Expr::Array(fs) && renamed_exprs(es@, fs@, rn),
        Expr::Repeat(x, y) => b matches Expr::Repeat(x2, y2) && renamed_expr(*x, *x2, rn)
            && renamed_expr(*y, *y2, rn),
        Expr::Cast(x, t) => b matches Expr::Cast(x2, t2) && renamed_expr(*x, *x2, rn) && renamed_type(
            *t,
            *t2,
            rn,
        ),
        Expr::Struct { fields, rest } => b matches Expr::Struct { fields: f2, rest: r2 }
            && renamed_fields(fields@, f2@, rn) && renamed_opt(rest, r2, rn),
        Expr::Await(x) => b matches Expr::Await(y) && renamed_expr(*x, *y, rn),
        Expr::Try(x) => b matches Expr::Try(y) && renamed_expr(*x, *y, rn),
        Expr::If { cond, then_branch, else_branch } => b matches Expr::If {
            cond: c2,
            then_branch: t2,
            else_branch: e2,
        } && renamed_expr(*cond, *c2, rn) && renamed_block(then_branch, t2, rn) && renamed_opt(
            else_branch,
            e2,
            rn,
        ),
        Expr::Match { expr, arms } => b matches Expr::Match { expr: e2, arms: a2 } && renamed_expr(
            *expr,
            *e2,
            rn,
        ) && renamed_arms(arms@, a2@, rn),
        Expr::Loop(body) => b matches Expr::Loop(b2) && renamed_block(body, b2, rn),
        Expr::While { cond, body } => b matches Expr::While { cond: c2, body: b2 } && renamed_expr(
            *cond,
            *c2,
            rn,
        ) && renamed_block(body, b2, rn),
        Expr::ForLoop { pat, expr, body } => b matches Expr::ForLoop { pat: p2, expr: e2, body: b2 }
            && renamed_pat(*pat, *p2, rn) && renamed_expr(*expr, *e2, rn) && renamed_block(
            body,
            b2,
            rn,
        ),
        Expr::Block(x) => b matches Expr::Block(y) && renamed_block(x, y, rn),
        Expr::Paren(x) => b matches Expr::Paren(y) && renamed_expr(*x, *y, rn),
        Expr::Range { start, end } => b matches Expr::Range { start: s2, end: e2 } && renamed_opt(
            start,
            s2,
            rn,
        ) && renamed_opt(end, e2, rn),
        Expr::Let { pat, expr } => b matches Expr::Let { pat: p2, expr: e2 } && renamed_pat(
            *pat,
            *p2,
            rn,
        ) && renamed_expr(*expr, *e2, rn),
        Expr::Macro(m) => b matches Expr::Macro(m2) && renamed_macro(m, m2, rn),
        Expr::Group(x) => b matches Expr::Group(y) && renamed_expr(*x, *y, rn),
        Expr::Unsafe(x) => b matches Expr::Unsafe(y) && renamed_block(x, y, rn),
        Expr::Const(x) => b matches Expr::Const(y) && renamed_block(x, y, rn),
        Expr::Other => b is Other,
    }
}

/// `b` is the sequence of expressions `a` renamed, element by element.
pub open spec fn renamed_exprs(a: Seq<Expr>, b: Seq<Expr>, rn: spec_fn(Seq<char>) -> Seq<char>) -> bool
    decreases a,
{
    a.len() == b.len() && (a.len() == 0 || renamed_exprs(a.drop_last(), b.drop_last(), rn)
        && renamed_expr(a[a.len() - 1], b[b.len() - 1], rn))
}

/// `b` is the fields of a struct literal `a` renamed.
pub open spec fn renamed_fields(a: Seq<FieldValue>, b: Seq<FieldValue>, rn: spec_fn(Seq<char>) -> Seq<char>) -> bool
    decreases a,
{
    a.len() == b.len() && (a.len() == 0 || renamed_fields(a.drop_last(), b.drop_last(), rn)
        && renamed_member(a[a.len() - 1].member, b[b.len() - 1].member, rn) && renamed_expr(
        a[a.len() - 1].expr,
        b[b.len() - 1].expr,
        rn,
    ))
}

/// `b` is the arms `a` renamed.
pub open spec fn renamed_arms(a: Seq<Arm>, b: Seq<Arm>, rn: spec_fn(Seq<char>) -> Seq<char>) -> bool
    decreases a,
{
    a.len() == b.len() && (a.len() == 0 || renamed_arms(a.drop_last(), b.drop_last(), rn)
        && renamed_pat(a[a.len() - 1].pat, b[b.len() - 1].pat, rn) && renamed_opt(
        a[a.len() - 1].guard,
        b[b.len() - 1].guard,
        rn,
    ) && renamed_expr(*a[a.len() - 1].body, *b[b.len() - 1].body, rn))
}

/// `b` is the block `a` renamed.
pub open spec fn renamed_block(a: Block, b: Block, rn: spec_fn(Seq<char>) -> Seq<char>) -> bool
    decreases a,
{
    renamed_stmts(a.stmts@, b.stmts@, rn)
}

/// `b` is the statements `a` renamed.
pub open spec fn renamed_stmts(a: Seq<Stmt>, b: Seq<Stmt>, rn: spec_fn(Seq<char>) -> Seq<char>) -> bool
    decreases a,
{
    a.len() == b.len() && (a.len() == 0 || renamed_stmts(a.drop_last(), b.drop_last(), rn)
        && renamed_stmt(a[a.len() - 1], b[b.len() - 1], rn))
}

/// `b` is the statement `a` renamed; nested items, which normalize to
/// opaque nodes, may differ.
pub open spec fn renamed_stmt(a: Stmt, b: Stmt, rn: spec_fn(Seq<char>) -> Seq<char>) -> bool
    decreases a,
{
    match a {
        Stmt::Local { pat, init } => b matches Stmt::Local { pat: p2, init: i2 } && renamed_pat(
            pat,
            p2,
            rn,
        ) && match init {
            Some(li) => i2 matches Some(lj) && renamed_expr(*li.expr, *lj.expr, rn) && renamed_opt(
                li.diverge,
                lj.diverge,
                rn,
            ),
            None => i2 is None,
        },
        Stmt::Expr(e, semi) => b matches Stmt::Expr(f, s2) && semi == s2 && renamed_expr(e, f, rn),
        Stmt::Item(_) => b is Item,
        Stmt::Macro(m, semi) => b matches Stmt::Macro(m2, s2) && semi == s2 && renamed_macro(m, m2, rn),
    }
}

/// `b` is the pattern `a` renamed.
pub open spec fn renamed_pat(a: Pat, b: Pat, rn: spec_fn(Seq<char>) -> Seq<char>) -> bool
    decreases a,
{
    match a {
        Pat::Ident(x) => b matches Pat::Ident(y) && y@ == rn(x@),
        Pat::Wild => b is Wild,
        Pat::Tuple(ps) => b matches Pat::Tuple(qs) && renamed_pats(ps@, qs@, rn),
        Pat::TupleStruct(ps) => b matches Pat::TupleStruct(qs) && renamed_pats(ps@, qs@, rn),
        Pat::Struct(fs) => b matches Pat::Struct(gs) && renamed_field_pats(fs@, gs@, rn),
        Pat::Or(ps) => b matches Pat::Or(qs) && renamed_pats(ps@, qs@, rn),
        Pat::Lit(l) => b matches Pat::Lit(m) && l == m,
        Pat::Reference { mutable, pat } => b matches Pat::Reference { mutable: m2, pat: p2 }
            && mutable == m2 && renamed_pat(*pat, *p2, rn),
        Pat::Slice(ps) => b matches Pat::Slice(qs) && renamed_pats(ps@, qs@, rn),
        Pat::Rest => b is Rest,
        Pat::Range { start, end } => b matches Pat::Range { start: s2, end: e2 } && renamed_opt(
            start,
            s2,
            rn,
        ) && renamed_opt(end, e2, rn),
        Pat::Path(s) => b matches Pat::Path(t) && renamed_texts(s@, t@, rn),
        Pat::Type(x) => b matches Pat::Type(y) && renamed_pat(*x, *y, rn),
        Pat::Macro(m) => b matches Pat::Macro(m2) && renamed_macro(m, m2, rn),
        Pat::Other => b is Other,
    }
}

/// `b` is the patterns `a` renamed.
pub open spec fn renamed_pats(a: Seq<Pat>, b: Seq<Pat>, rn: spec_fn(Seq<char>) -> Seq<char>) -> bool
    decreases a,
{
    a.len() == b.len() && (a.len() == 0 || renamed_pats(a.drop_last(), b.drop_last(), rn)
        && renamed_pat(a[a.len() - 1], b[b.len() - 1], rn))
}

/// `b` is the fields of a struct pattern `a` renamed.
pub open spec fn renamed_field_pats(a: Seq<FieldPat>, b: Seq<FieldPat>, rn: spec_fn(Seq<char>) -> Seq<char>) -> bool
    decreases a,
{
    a.len() == b.len() && (a.len() == 0 || renamed_field_pats(a.drop_last(), b.drop_last(), rn)
        && renamed_member(a[a.len() - 1].member, b[b.len() - 1].member, rn) && renamed_pat(
        a[a.len() - 1].pat,
        b[b.len() - 1].pat,
        rn,
    ))
}

/// `b` is the type `a` renamed.
pub open spec fn renamed_type(a: Type, b: Type, rn: spec_fn(Seq<char>) -> Seq<char>) -> bool
    decreases a,
{
    match a {
        Type::Path { qself, segments } => b matches Type::Path { qself: q2, segments: s2 } && qself
            == q2 && renamed_texts(segments@, s2@, rn),
        Type::Reference { mutable, elem } => b matches Type::Reference { mutable: m2, elem: e2 }
            && mutable == m2 && renamed_type(*elem, *e2, rn),
        Type::Tuple(ts) => b matches Type::Tuple(us) && renamed_types(ts@, us@, rn),
        Type::Slice(x) => b matches Type::Slice(y) && renamed_type(*x, *y, rn),
        Type::Array(x, len) => b matches Type::Array(y, l2) && renamed_type(*x, *y, rn)
            && renamed_expr(*len, *l2, rn),
        Type::ImplTrait(bs) => b matches Type::ImplTrait(cs) && renamed_bounds(bs@, cs@, rn),
        Type::Infer => b is Infer,
        Type::Never => b is Never,
        Type::Paren(x) => b matches Type::Paren(y) && renamed_type(*x, *y, rn),
        Type::Macro(m) => b matches Type::Macro(m2) && renamed_macro(m, m2, rn),
        Type::Other => b is Other,
    }
}

/// `b` is the types `a` renamed.
pub open spec fn renamed_types(a: Seq<Type>, b: Seq<Type>, rn: spec_fn(Seq<char>) -> Seq<char>) -> bool
    decreases a,
{
    a.len() == b.len() && (a.len() == 0 || renamed_types(a.drop_last(), b.drop_last(), rn)
        && renamed_type(a[a.len() - 1], b[b.len() - 1], rn))
}

/// `b` is the bounds `a` renamed.
pub open spec fn renamed_bounds(a: Seq<Bound>, b: Seq<Bound>, rn: spec_fn(Seq<char>) -> Seq<char>) -> bool
    decreases a.len(),
{
    a.len() == b.len() && (a.len() == 0 || renamed_bounds(a.drop_last(), b.drop_last(), rn)
        && match a[a.len() - 1] {
        Bound::Trait(s) => b[b.len() - 1] matches Bound::Trait(t) && renamed_texts(s@, t@, rn),
        Bound::Other => b[b.len() - 1] is Other,
    })
}

/// `b` is the function parameters `a` renamed.
pub open spec fn renamed_fn_args(a: Seq<FnArg>, b: Seq<FnArg>, rn: spec_fn(Seq<char>) -> Seq<char>) -> bool
    decreases a.len(),
{
    a.len() == b.len() && (a.len() == 0 || renamed_fn_args(a.drop_last(), b.drop_last(), rn)
        && match a[a.len() - 1] {
        FnArg::Receiver { reference, mutable } => b[b.len() - 1] matches FnArg::Receiver {
            reference: r2,
            mutable: m2,
        } && reference == r2 && mutable == m2,
        FnArg::Typed { pat, ty } => b[b.len() - 1] matches FnArg::Typed { pat: p2, ty: t2 }
            && renamed_pat(pat, p2, rn) && renamed_type(ty, t2, rn),
    })
}

/// `b` is the function `a` with each identifier of its parameters, return
/// type and body renamed; the functions' own names may differ.
pub open spec fn renamed_item_fn(a: ItemFn, b: ItemFn, rn: spec_fn(Seq<char>) -> Seq<char>) -> bool {
    &&& renamed_fn_args(a.sig.inputs@, b.sig.inputs@, rn)
    &&& match a.sig.output {
        Some(t) => b.sig.output matches Some(u) && renamed_type(*t, *u, rn),
        None => b.sig.output is None,
    }
    &&& renamed_block(a.block, b.block, rn)
}

/// Renaming keeps the first position of a name among those met.
proof fn lemma_index_renamed(s: Seq<Seq<char>>, x: Seq<char>, rn: spec_fn(Seq<char>) -> Seq<char>)
    requires
        renaming_ok(rn),
    ensures
        canonical_index(s.map_values(rn), rn(x)) == canonical_index(s, x),
    decreases s.len(),
{
    if s.len() > 0 {
        assert(s.map_values(rn).drop_first() =~= s.drop_first().map_values(rn));
        assert(s.map_values(rn)[0] == rn(s[0]));
        lemma_index_renamed(s.drop_first(), x, rn);
    }
}

/// Renaming keeps whether a name has been met.
proof fn lemma_contains_renamed(s: Seq<Seq<char>>, x: Seq<char>, rn: spec_fn(Seq<char>) -> Seq<char>)
    requires
        renaming_ok(rn),
    ensures
        s.map_values(rn).contains(rn(x)) == s.contains(x),
        record(s.map_values(rn), rn(x)) == record(s, x).map_values(rn),
{
    if s.contains(x) {
        let i = choose|i: int| 0 <= i < s.len() && s[i] == x;
        assert(s.map_values(rn)[i] == rn(x));
    }
    if s.map_values(rn).contains(rn(x)) {
        let i = choose|i: int| 0 <= i < s.len() && s.map_values(rn)[i] == rn(x);
        assert(rn(s[i]) == rn(x));
        assert(s[i] == x);
    }
    assert(s.push(x).map_values(rn) =~= s.map_values(rn).push(rn(x)));
}

/// Renaming commutes with giving a name its placeholder index.
proof fn lemma_slot_renamed(c: Names, x: Seq<char>, k: PlaceholderKind, rn: spec_fn(Seq<char>) -> Seq<char>)
    requires
        renaming_ok(rn),
    ensures
        name_slot(renamed_names(c, rn), rn(x), k) == (
            name_slot(c, x, k).0,
            renamed_names(name_slot(c, x, k).1, rn),
        ),
{
    lemma_index_renamed(c.of(k), x, rn);
    lemma_contains_renamed(c.of(k), x, rn);
    assert(renamed_names(c, rn).of(k) == c.of(k).map_values(rn));
    let r = record(c.of(k), x);
    assert(renamed_names(c.with(k, r), rn) == renamed_names(c, rn).with(k, r.map_values(rn)));
}

/// The text of a renamed field name is the renamed text.
proof fn lemma_member_renamed(a: Member, b: Member, rn: spec_fn(Seq<char>) -> Seq<char>)
    requires
        renaming_ok(rn),
        renamed_member(a, b, rn),
    ensures
        member_name(b) == rn(member_name(a)),
{
    match a {
        Member::Unnamed(i) => {
            assert(rn(decimal(i as nat)) == decimal(i as nat));
        },
        _ => {},
    }
}

/// The front of two renamed texts is renamed.
proof fn lemma_texts_front(a: Seq<String>, b: Seq<String>, rn: spec_fn(Seq<char>) -> Seq<char>)
    requires
        renamed_texts(a, b, rn),
        a.len() > 0,
    ensures
        renamed_texts(a.drop_last(), b.drop_last(), rn),
        b[b.len() - 1]@ == rn(a[a.len() - 1]@),
{
    assert forall|i: int| 0 <= i < a.len() - 1 implies (#[trigger] b.drop_last()[i])@ == rn(
        a.drop_last()[i]@,
    ) by {
        assert(b.drop_last()[i] == b[i]);
        assert(a.drop_last()[i] == a[i]);
    }
}

proof fn lemma_expr_segments_renamed(a: Seq<String>, b: Seq<String>, rn: spec_fn(Seq<char>) -> Seq<char>, c: Names)
    requires
        renaming_ok(rn),
        renamed_texts(a, b, rn),
    ensures
        expr_segments(b, renamed_names(c, rn)) == (
            expr_segments(a, c).0,
            renamed_names(expr_segments(a, c).1, rn),
        ),
    decreases a.len(),
{
    if a.len() > 0 {
        lemma_texts_front(a, b, rn);
        lemma_expr_segments_renamed(a.drop_last(), b.drop_last(), rn, c);
        let c1 = expr_segments(a.drop_last(), c).1;
        let x = a[a.len() - 1]@;
        assert(ident_kind(rn(x)) == ident_kind(x));
        lemma_slot_renamed(c1, x, ident_kind(x), rn);
    }
}

proof fn lemma_type_segments_renamed(a: Seq<String>, b: Seq<String>, rn: spec_fn(Seq<char>) -> Seq<char>, c: Names)
    requires
        renaming_ok(rn),
        renamed_texts(a, b, rn),
    ensures
        type_segments(b, renamed_names(c, rn)) == (
            type_segments(a, c).0,
            renamed_names(type_segments(a, c).1, rn),
        ),
    decreases a.len(),
{
    if a.len() > 0 {
        lemma_texts_front(a, b, rn);
        lemma_type_segments_renamed(a.drop_last(), b.drop_last(), rn, c);
        let c1 = type_segments(a.drop_last(), c).1;
        lemma_slot_renamed(c1, a[a.len() - 1]@, PlaceholderKind::Type, rn);
    }
}

proof fn lemma_pat_segments_renamed(a: Seq<String>, b: Seq<String>, rn: spec_fn(Seq<char>) -> Seq<char>, c: Names)
    requires
        renaming_ok(rn),
        renamed_texts(a, b, rn),
    ensures
        pat_segments(b, renamed_names(c, rn)) == (
            pat_segments(a, c).0,
            renamed_names(pat_segments(a, c).1, rn),
        ),
    decreases a.len(),
{
    if a.len() > 0 {
        lemma_texts_front(a, b, rn);
        lemma_pat_segments_renamed(a.drop_last(), b.drop_last(), rn, c);
        let c1 = pat_segments(a.drop_last(), c).1;
        lemma_slot_renamed(c1, a[a.len() - 1]@, PlaceholderKind::Variable, rn);
    }
}

proof fn lemma_bounds_renamed(a: Seq<Bound>, b: Seq<Bound>, rn: spec_fn(Seq<char>) -> Seq<char>, c: Names)
    requires
        renaming_ok(rn),
        renamed_bounds(a, b, rn),
    ensures
        normal_bounds(b, renamed_names(c, rn)) == (
            normal_bounds(a, c).0,
            renamed_names(normal_bounds(a, c).1, rn),
        ),
    decreases a.len(),
{
    if a.len() > 0 {
        lemma_bounds_renamed(a.drop_last(), b.drop_last(), rn, c);
        let c1 = normal_bounds(a.drop_last(), c).1;
        match a[a.len() - 1] {
            Bound::Trait(s) => match b[b.len() - 1] {
                Bound::Trait(t) => {
                    lemma_type_segments_renamed(s@, t@, rn, c1);
                },
                _ => {},
            },
            _ => {},
        }
    }
}

proof fn lemma_macro_renamed(a: Macro, b: Macro, rn: spec_fn(Seq<char>) -> Seq<char>, c: Names)
    requires
        renaming_ok(rn),
        renamed_macro(a, b, rn),
    ensures
        normal_macro(b, renamed_names(c, rn)) == (
            normal_macro(a, c).0,
            renamed_names(normal_macro(a, c).1, rn),
        ),
    decreases a,
{
    let n = a.path@.len();
    if n > 0 {
        assert(b.path@[n - 1]@ == a.path@[n - 1]@);
    }
    match a.body {
        Some(x) => match b.body {
            Some(y) => {
                lemma_exprs_renamed(x@, y@, rn, c);
            },
            None => {},
        },
        None => {},
    }
}

proof fn lemma_opt_renamed(a: Option<Box<Expr>>, b: Option<Box<Expr>>, rn: spec_fn(Seq<char>) -> Seq<char>, c: Names)
    requires
        renaming_ok(rn),
        renamed_opt(a, b, rn),
    ensures
        normal_opt(b, renamed_names(c, rn)) == (
            normal_opt(a, c).0,
            renamed_names(normal_opt(a, c).1, rn),
        ),
        a is None <==> b is None,
    decreases a,
{
    match a {
        Some(x) => match b {
            Some(y) => {
                lemma_expr_renamed(*x, *y, rn, c);
            },
            None => {},
        },
        None => {},
    }
}

proof fn lemma_closure_renamed(a: ExprClosure, b: ExprClosure, rn: spec_fn(Seq<char>) -> Seq<char>, c: Names)
    requires
        renaming_ok(rn),
        renamed_closure(a, b, rn),
    ensures
        normal_closure(b, renamed_names(c, rn)) == (
            normal_closure(a, c).0,
            renamed_names(normal_closure(a, c).1, rn),
        ),
    decreases a,
{
    lemma_expr_renamed(*a.body, *b.body, rn, c);
    lemma_pats_renamed(a.inputs@, b.inputs@, rn, normal_expr(*a.body, c).1);
}

/// Renaming the identifiers of an expression renames, in the same way, the
/// names that normalizing it meets, and leaves its normal form as it is.
proof fn lemma_expr_renamed(a: Expr, b: Expr, rn: spec_fn(Seq<char>) -> Seq<char>, c: Names)
    requires
        renaming_ok(rn),
        renamed_expr(a, b, rn),
    ensures
        normal_expr(b, renamed_names(c, rn)) == (
            normal_expr(a, c).0,
            renamed_names(normal_expr(a, c).1, rn),
        ),
    decreases a,
{
    match a {
        Expr::Path(s) => match b {
            Expr::Path(t) => {
                if s@.len() == 1 {
                    let x = s@[0]@;
                    assert(t@[0]@ == rn(x));
                    assert(ident_kind(rn(x)) == ident_kind(x));
                    lemma_slot_renamed(c, x, ident_kind(x), rn);
                } else {
                    lemma_expr_segments_renamed(s@, t@, rn, c);
                }
            },
            _ => {
                assert(false);
            },
        },
        Expr::Binary(_, l, r) => match b {
            Expr::Binary(_, l2, r2) => {
                lemma_expr_renamed(*l, *l2, rn, c);
                lemma_expr_renamed(*r, *r2, rn, normal_expr(*l, c).1);
            },
            _ => {},
        },
        Expr::Unary(_, x) => match b {
            Expr::Unary(_, y) => {
                lemma_expr_renamed(*x, *y, rn, c);
            },
            _ => {},
        },
        Expr::Call(f, args) => match b {
            Expr::Call(g, args2) => {
                lemma_expr_renamed(*f, *g, rn, c);
                lemma_exprs_renamed(args@, args2@, rn, normal_expr(*f, c).1);
            },
            _ => {},
        },
        Expr::MethodCall { receiver, method, args } => match b {
            Expr::MethodCall { receiver: r2, method: m2, args: a2 } => {
                lemma_slot_renamed(c, method@, PlaceholderKind::Function, rn);
                let c1 = name_slot(c, method@, PlaceholderKind::Function).1;
                lemma_expr_renamed(*receiver, *r2, rn, c1);
                lemma_exprs_renamed(args@, a2@, rn, normal_expr(*receiver, c1).1);
            },
            _ => {},
        },
        Expr::Field(x, m) => match b {
            Expr::Field(y, m2) => {
                lemma_member_renamed(m, m2, rn);
                lemma_slot_renamed(c, member_name(m), PlaceholderKind::Variable, rn);
                let c1 = name_slot(c, member_name(m), PlaceholderKind::Variable).1;
                lemma_expr_renamed(*x, *y, rn, c1);
            },
            _ => {},
        },
        Expr::Index(x, y) => match b {
            Expr::Index(x2, y2) => {
                lemma_expr_renamed(*x, *x2, rn, c);
                lemma_expr_renamed(*y, *y2, rn, normal_expr(*x, c).1);
            },
            _ => {},
        },
        Expr::Closure(cl) => match b {
            Expr::Closure(cl2) => {
                lemma_closure_renamed(cl, cl2, rn, c);
            },
            _ => {},
        },
        Expr::Return(v) => match b {
            Expr::Return(w) => {
                lemma_opt_renamed(v, w, rn, c);
            },
            _ => {},
        },
        Expr::Break(v) => match b {
            Expr::Break(w) => {
                lemma_opt_renamed(v, w, rn, c);
            },
            _ => {},
        },
        Expr::Assign(x, y) => match b {
            Expr::Assign(x2, y2) => {
                lemma_expr_renamed(*x, *x2, rn, c);
                lemma_expr_renamed(*y, *y2, rn, normal_expr(*x, c).1);
            },
            _ => {},
        },
        Expr::Reference { expr, .. } => match b {
            Expr::Reference { expr: e2, .. } => {
                lemma_expr_renamed(*expr, *e2, rn, c);
            },
            _ => {},
        },
        Expr::Tuple(es) => match b {
            Expr::Tuple(fs) => {
                lemma_exprs_renamed(es@, fs@, rn, c);
            },
            _ => {},
        },
        Expr::Array(es) => match b {
            Expr::Array(fs) => {
                lemma_exprs_renamed(es@, fs@, rn, c);
            },
            _ => {},
        },
        Expr::Repeat(x, y) => match b {
            Expr::Repeat(x2, y2) => {
                lemma_expr_renamed(*x, *x2, rn, c);
                lemma_expr_renamed(*y, *y2, rn, normal_expr(*x, c).1);
            },
            _ => {},
        },
        Expr::Cast(x, t) => match b {
            Expr::Cast(x2, t2) => {
                lemma_expr_renamed(*x, *x2, rn, c);
                lemma_type_renamed(*t, *t2, rn, normal_expr(*x, c).1);
            },
            _ => {},
        },
        Expr::Struct { fields, rest } => match b {
            Expr::Struct { fields: f2, rest: r2 } => {
                lemma_opt_renamed(rest, r2, rn, c);
                lemma_fields_renamed(fields@, f2@, rn, normal_opt(rest, c).1);
            },
            _ => {},
        },
        Expr::Await(x) => match b {
            Expr::Await(y) => {
                lemma_expr_renamed(*x, *y, rn, c);
            },
            _ => {},
        },
        Expr::Try(x) => match b {
            Expr::Try(y) => {
                lemma_expr_renamed(*x, *y, rn, c);
            },
            _ => {},
        },
        Expr::If { cond, then_branch, else_branch } => match b {
            Expr::If { cond: c2, then_branch: t2, else_branch: e2 } => {
                lemma_expr_renamed(*cond, *c2, rn, c);
                let k1 = normal_expr(*cond, c).1;
                lemma_block_renamed(then_branch, t2, rn, k1);
                lemma_opt_renamed(else_branch, e2, rn, normal_block(then_branch, k1).1);
            },
            _ => {},
        },
        Expr::Match { expr, arms } => match b {
            Expr::Match { expr: e2, arms: a2 } => {
                lemma_expr_renamed(*expr, *e2, rn, c);
                lemma_arms_renamed(arms@, a2@, rn, normal_expr(*expr, c).1);
            },
            _ => {},
        },
        Expr::Loop(body) => match b {
            Expr::Loop(b2) => {
                lemma_block_renamed(body, b2, rn, c);
            },
            _ => {},
        },
        Expr::While { cond, body } => match b {
            Expr::While { cond: c2, body: b2 } => {
                lemma_expr_renamed(*cond, *c2, rn, c);
                lemma_block_renamed(body, b2, rn, normal_expr(*cond, c).1);
            },
            _ => {},
        },
        Expr::ForLoop { pat, expr, body } => match b {
            Expr::ForLoop { pat: p2, expr: e2, body: b2 } => {
                lemma_pat_renamed(*pat, *p2, rn, c);
                let k1 = normal_pat(*pat, c).1;
                lemma_expr_renamed(*expr, *e2, rn, k1);
                lemma_block_renamed(body, b2, rn, normal_expr(*expr, k1).1);
            },
            _ => {},
        },
        Expr::Block(x) => match b {
            Expr::Block(y) => {
                lemma_block_renamed(x, y, rn, c);
            },
            _ => {},
        },
        Expr::Paren(x) => match b {
            Expr::Paren(y) => {
                lemma_expr_renamed(*x, *y, rn, c);
            },
            _ => {},
        },
        Expr::Range { start, end } => match b {
            Expr::Range { start: s2, end: e2 } => {
                lemma_opt_renamed(start, s2, rn, c);
                lemma_opt_renamed(end, e2, rn, normal_opt(start, c).1);
            },
            _ => {},
        },
        Expr::Let { pat, expr } => match b {
            Expr::Let { pat: p2, expr: e2 } => {
                lemma_pat_renamed(*pat, *p2, rn, c);
                lemma_expr_renamed(*expr, *e2, rn, normal_pat(*pat, c).1);
            },
            _ => {},
        },
        Expr::Macro(m) => match b {
            Expr::Macro(m2) => {
                lemma_macro_renamed(m, m2, rn, c);
            },
            _ => {},
        },
        Expr::Group(x) => match b {
            Expr::Group(y) => {
                lemma_expr_renamed(*x, *y, rn, c);
            },
            _ => {},
        },
        Expr::Unsafe(x) => match b {
            Expr::Unsafe(y) => {
                lemma_block_renamed(x, y, rn, c);
            },
            _ => {},
        },
        Expr::Const(x) => match b {
            Expr::Const(y) => {
                lemma_block_renamed(x, y, rn, c);
            },
            _ => {},
        },
        _ => {},
    }
}

proof fn lemma_exprs_renamed(a: Seq<Expr>, b: Seq<Expr>, rn: spec_fn(Seq<char>) -> Seq<char>, c: Names)
    requires
        renaming_ok(rn),
        renamed_exprs(a, b, rn),
    ensures
        normal_exprs(b, renamed_names(c, rn)) == (
            normal_exprs(a, c).0,
            renamed_names(normal_exprs(a, c).1, rn),
        ),
    decreases a,
{
    if a.len() > 0 {
        lemma_exprs_renamed(a.drop_last(), b.drop_last(), rn, c);
        lemma_expr_renamed(a[a.len() - 1], b[b.len() - 1], rn, normal_exprs(a.drop_last(), c).1);
    }
}

proof fn lemma_fields_renamed(a: Seq<FieldValue>, b: Seq<FieldValue>, rn: spec_fn(Seq<char>) -> Seq<char>, c: Names)
    requires
        renaming_ok(rn),
        renamed_fields(a, b, rn),
    ensures
        normal_fields(b, renamed_names(c, rn)) == (
            normal_fields(a, c).0,
            renamed_names(normal_fields(a, c).1, rn),
        ),
    decreases a,
{
    if a.len() > 0 {
        lemma_fields_renamed(a.drop_last(), b.drop_last(), rn, c);
        let c1 = normal_fields(a.drop_last(), c).1;
        let f = a[a.len() - 1];
        let g = b[b.len() - 1];
        lemma_member_renamed(f.member, g.member, rn);
        lemma_slot_renamed(c1, member_name(f.member), PlaceholderKind::Variable, rn);
        let c2 = name_slot(c1, member_name(f.member), PlaceholderKind::Variable).1;
        lemma_expr_renamed(f.expr, g.expr, rn, c2);
    }
}

proof fn lemma_arms_renamed(a: Seq<Arm>, b: Seq<Arm>, rn: spec_fn(Seq<char>) -> Seq<char>, c: Names)
    requires
        renaming_ok(rn),
        renamed_arms(a, b, rn),
    ensures
        normal_arms(b, renamed_names(c, rn)) == (
            normal_arms(a, c).0,
            renamed_names(normal_arms(a, c).1, rn),
        ),
    decreases a,
{
    if a.len() > 0 {
        lemma_arms_renamed(a.drop_last(), b.drop_last(), rn, c);
        let c1 = normal_arms(a.drop_last(), c).1;
        let x = a[a.len() - 1];
        let y = b[b.len() - 1];
        lemma_pat_renamed(x.pat, y.pat, rn, c1);
        let c2 = normal_pat(x.pat, c1).1;
        lemma_opt_renamed(x.guard, y.guard, rn, c2);
        lemma_expr_renamed(*x.body, *y.body, rn, normal_opt(x.guard, c2).1);
    }
}

proof fn lemma_block_renamed(a: Block, b: Block, rn: spec_fn(Seq<char>) -> Seq<char>, c: Names)
    requires
        renaming_ok(rn),
        renamed_block(a, b, rn),
    ensures
        normal_block(b, renamed_names(c, rn)) == (
            normal_block(a, c).0,
            renamed_names(normal_block(a, c).1, rn),
        ),
    decreases a,
{
    lemma_stmts_renamed(a.stmts@, b.stmts@, rn, c);
}

proof fn lemma_stmts_renamed(a: Seq<Stmt>, b: Seq<Stmt>, rn: spec_fn(Seq<char>) -> Seq<char>, c: Names)
    requires
        renaming_ok(rn),
        renamed_stmts(a, b, rn),
    ensures
        normal_stmts(b, renamed_names(c, rn)) == (
            normal_stmts(a, c).0,
            renamed_names(normal_stmts(a, c).1, rn),
        ),
    decreases a,
{
    if a.len() > 0 {
        lemma_stmts_renamed(a.drop_last(), b.drop_last(), rn, c);
        lemma_stmt_renamed(a[a.len() - 1], b[b.len() - 1], rn, normal_stmts(a.drop_last(), c).1);
    }
}

proof fn lemma_stmt_renamed(a: Stmt, b: Stmt, rn: spec_fn(Seq<char>) -> Seq<char>, c: Names)
    requires
        renaming_ok(rn),
        renamed_stmt(a, b, rn),
    ensures
        normal_stmt(b, renamed_names(c, rn)) == (
            normal_stmt(a, c).0,
            renamed_names(normal_stmt(a, c).1, rn),
        ),
    decreases a,
{
    match a {
        Stmt::Local { pat, init } => match b {
            Stmt::Local { pat: p2, init: i2 } => {
                lemma_pat_renamed(pat, p2, rn, c);
                let c1 = normal_pat(pat, c).1;
                match init {
                    Some(li) => match i2 {
                        Some(lj) => {
                            lemma_expr_renamed(*li.expr, *lj.expr, rn, c1);
                            lemma_opt_renamed(li.diverge, lj.diverge, rn, normal_expr(*li.expr, c1).1);
                        },
                        None => {},
                    },
                    None => {},
                }
            },
            _ => {},
        },
        Stmt::Expr(e, _) => match b {
            Stmt::Expr(f, _) => {
                lemma_expr_renamed(e, f, rn, c);
            },
            _ => {},
        },
        Stmt::Macro(m, _) => match b {
            Stmt::Macro(m2, _) => {
                lemma_macro_renamed(m, m2, rn, c);
            },
            _ => {},
        },
        Stmt::Item(_) => {},
    }
}

proof fn lemma_pat_renamed(a: Pat, b: Pat, rn: spec_fn(Seq<char>) -> Seq<char>, c: Names)
    requires
        renaming_ok(rn),
        renamed_pat(a, b, rn),
    ensures
        normal_pat(b, renamed_names(c, rn)) == (
            normal_pat(a, c).0,
            renamed_names(normal_pat(a, c).1, rn),
        ),
    decreases a,
{
    match a {
        Pat::Ident(x) => {
            lemma_slot_renamed(c, x@, PlaceholderKind::Variable, rn);
        },
        Pat::Tuple(ps) => match b {
            Pat::Tuple(qs) => {
                lemma_pats_renamed(ps@, qs@, rn, c);
            },
            _ => {},
        },
        Pat::TupleStruct(ps) => match b {
            Pat::TupleStruct(qs) => {
                lemma_pats_renamed(ps@, qs@, rn, c);
            },
            _ => {},
        },
        Pat::Struct(fs) => match b {
            Pat::Struct(gs) => {
                lemma_field_pats_renamed(fs@, gs@, rn, c);
            },
            _ => {},
        },
        Pat::Or(ps) => match b {
            Pat::Or(qs) => {
                lemma_pats_renamed(ps@, qs@, rn, c);
            },
            _ => {},
        },
        Pat::Reference { pat, .. } => match b {
            Pat::Reference { pat: p2, .. } => {
                lemma_pat_renamed(*pat, *p2, rn, c);
            },
            _ => {},
        },
        Pat::Slice(ps) => match b {
            Pat::Slice(qs) => {
                lemma_pats_renamed(ps@, qs@, rn, c);
            },
            _ => {},
        },
        Pat::Range { start, end } => match b {
            Pat::Range { start: s2, end: e2 } => {
                lemma_opt_renamed(start, s2, rn, c);
                lemma_opt_renamed(end, e2, rn, normal_opt(start, c).1);
            },
            _ => {},
        },
        Pat::Path(s) => match b {
            Pat::Path(t) => {
                if s@.len() == 1 {
                    assert(t@[0]@ == rn(s@[0]@));
                    lemma_slot_renamed(c, s@[0]@, PlaceholderKind::Variable, rn);
                } else {
                    lemma_pat_segments_renamed(s@, t@, rn, c);
                }
            },
            _ => {},
        },
        Pat::Type(x) => match b {
            Pat::Type(y) => {
                lemma_pat_renamed(*x, *y, rn, c);
            },
            _ => {},
        },
        Pat::Macro(m) => match b {
            Pat::Macro(m2) => {
                lemma_macro_renamed(m, m2, rn, c);
            },
            _ => {},
        },
        _ => {},
    }
}

proof fn lemma_pats_renamed(a: Seq<Pat>, b: Seq<Pat>, rn: spec_fn(Seq<char>) -> Seq<char>, c: Names)
    requires
        renaming_ok(rn),
        renamed_pats(a, b, rn),
    ensures
        normal_pats(b, renamed_names(c, rn)) == (
            normal_pats(a, c).0,
            renamed_names(normal_pats(a, c).1, rn),
        ),
    decreases a,
{
    if a.len() > 0 {
        lemma_pats_renamed(a.drop_last(), b.drop_last(), rn, c);
        lemma_pat_renamed(a[a.len() - 1], b[b.len() - 1], rn, normal_pats(a.drop_last(), c).1);
    }
}

proof fn lemma_field_pats_renamed(a: Seq<FieldPat>, b: Seq<FieldPat>, rn: spec_fn(Seq<char>) -> Seq<char>, c: Names)
    requires
        renaming_ok(rn),
        renamed_field_pats(a, b, rn),
    ensures
        normal_field_pats(b, renamed_names(c, rn)) == (
            normal_field_pats(a, c).0,
            renamed_names(normal_field_pats(a, c).1, rn),
        ),
    decreases a,
{
    if a.len() > 0 {
        lemma_field_pats_renamed(a.drop_last(), b.drop_last(), rn, c);
        let c1 = normal_field_pats(a.drop_last(), c).1;
        let f = a[a.len() - 1];
        let g = b[b.len() - 1];
        lemma_pat_renamed(f.pat, g.pat, rn, c1);
        let c2 = normal_pat(f.pat, c1).1;
        lemma_member_renamed(f.member, g.member, rn);
        lemma_slot_renamed(c2, member_name(f.member), PlaceholderKind::Variable, rn);
    }
}

proof fn lemma_type_renamed(a: Type, b: Type, rn: spec_fn(Seq<char>) -> Seq<char>, c: Names)
    requires
        renaming_ok(rn),
        renamed_type(a, b, rn),
    ensures
        normal_type(b, renamed_names(c, rn)) == (
            normal_type(a, c).0,
            renamed_names(normal_type(a, c).1, rn),
        ),
    decreases a,
{
    match a {
        Type::Path { qself, segments } => match b {
            Type::Path { segments: s2, .. } => {
                if !qself && segments@.len() == 1 {
                    assert(s2@[0]@ == rn(segments@[0]@));
                    lemma_slot_renamed(c, segments@[0]@, PlaceholderKind::Type, rn);
                } else {
                    lemma_type_segments_renamed(segments@, s2@, rn, c);
                }
            },
            _ => {},
        },
        Type::Reference { elem, .. } => match b {
            Type::Reference { elem: e2, .. } => {
                lemma_type_renamed(*elem, *e2, rn, c);
            },
            _ => {},
        },
        Type::Tuple(ts) => match b {
            Type::Tuple(us) => {
                lemma_types_renamed(ts@, us@, rn, c);
            },
            _ => {},
        },
        Type::Slice(x) => match b {
            Type::Slice(y) => {
                lemma_type_renamed(*x, *y, rn, c);
            },
            _ => {},
        },
        Type::Array(x, len) => match b {
            Type::Array(y, l2) => {
                lemma_type_renamed(*x, *y, rn, c);
                lemma_expr_renamed(*len, *l2, rn, normal_type(*x, c).1);
            },
            _ => {},
        },
        Type::ImplTrait(bs) => match b {
            Type::ImplTrait(cs) => {
                lemma_bounds_renamed(bs@, cs@, rn, c);
            },
            _ => {},
        },
        Type::Paren(x) => match b {
            Type::Paren(y) => {
                lemma_type_renamed(*x, *y, rn, c);
            },
            _ => {},
        },
        Type::Macro(m) => match b {
            Type::Macro(m2) => {
                lemma_macro_renamed(m, m2, rn, c);
            },
            _ => {},
        },
        _ => {},
    }
}

proof fn lemma_types_renamed(a: Seq<Type>, b: Seq<Type>, rn: spec_fn(Seq<char>) -> Seq<char>, c: Names)
    requires
        renaming_ok(rn),
        renamed_types(a, b, rn),
    ensures
        normal_types(b, renamed_names(c, rn)) == (
            normal_types(a, c).0,
            renamed_names(normal_types(a, c).1, rn),
        ),
    decreases a,
{
    if a.len() > 0 {
        lemma_types_renamed(a.drop_last(), b.drop_last(), rn, c);
        lemma_type_renamed(a[a.len() - 1], b[b.len() - 1], rn, normal_types(a.drop_last(), c).1);
    }
}

proof fn lemma_fn_args_renamed(a: Seq<FnArg>, b: Seq<FnArg>, rn: spec_fn(Seq<char>) -> Seq<char>, c: Names)
    requires
        renaming_ok(rn),
        renamed_fn_args(a, b, rn),
    ensures
        normal_fn_args(b, renamed_names(c, rn)) == (
            normal_fn_args(a, c).0,
            renamed_names(normal_fn_args(a, c).1, rn),
        ),
    decreases a.len(),
{
    if a.len() > 0 {
        lemma_fn_args_renamed(a.drop_last(), b.drop_last(), rn, c);
        let c1 = normal_fn_args(a.drop_last(), c).1;
        match a[a.len() - 1] {
            FnArg::Typed { pat, ty } => match b[b.len() - 1] {
                FnArg::Typed { pat: p2, ty: t2 } => {
                    lemma_pat_renamed(pat, p2, rn, c1);
                    lemma_type_renamed(ty, t2, rn, normal_pat(pat, c1).1);
                },
                _ => {},
            },
            _ => {},
        }
    }
}

/// Two functions that differ only in a consistent renaming of the
/// identifiers of their parameters, return types and bodies (their own
/// names aside) have the same normalized signature and body, and so the
/// same fingerprint: they are exact duplicates.
pub proof fn law_renaming_keeps_normal_form(a: ItemFn, b: ItemFn, rn: spec_fn(Seq<char>) -> Seq<char>)
    requires
        renaming_ok(rn),
        renamed_item_fn(a, b, rn),
    ensures
        normal_item_fn(b) == normal_item_fn(a),
{
    let empty = Seen::<Seq<char>>::empty();
    assert(renamed_names(empty, rn) =~= empty) by {
        assert(empty.vars.map_values(rn) =~= Seq::<Seq<char>>::empty());
        assert(empty.fns.map_values(rn) =~= Seq::<Seq<char>>::empty());
        assert(empty.types.map_values(rn) =~= Seq::<Seq<char>>::empty());
    }
    lemma_fn_args_renamed(a.sig.inputs@, b.sig.inputs@, rn, empty);
    let c1 = normal_fn_args(a.sig.inputs@, empty).1;
    match a.sig.output {
        Some(t) => match b.sig.output {
            Some(u) => {
                lemma_type_renamed(*t, *u, rn, c1);
            },
            None => {},
        },
        None => {},
    }
    let c2 = normal_signature(a.sig, empty).1;
    lemma_block_renamed(a.block, b.block, rn, c2);
}

/// Two functions that differ only in a consistent renaming of their
/// identifiers give code units with the same normal forms and the same
/// fingerprint, whatever their names: they are exact duplicates.
pub proof fn law_renamed_functions_are_exact_duplicates(
    a: ItemFn,
    b: ItemFn,
    rn: spec_fn(Seq<char>) -> Seq<char>,
    kind: CodeUnitKind,
    name_a: Seq<char>,
    name_b: Seq<char>,
    file: Seq<char>,
    is_test: bool,
)
    requires
        renaming_ok(rn),
        renamed_item_fn(a, b, rn),
    ensures
        fn_unit(kind, name_b, b, file, is_test).fingerprint == fn_unit(kind, name_a, a, file, is_test).fingerprint,
        fn_unit(kind, name_b, b, file, is_test).signature == fn_unit(kind, name_a, a, file, is_test).signature,
        fn_unit(kind, name_b, b, file, is_test).body == fn_unit(kind, name_a, a, file, is_test).body,
{
    law_renaming_keeps_normal_form(a, b, rn);
}

/// Renaming the identifiers of an expression consistently (all but macro
/// names, keeping apart what was apart and the case of each first letter)
/// does not change its normal form from a fresh start: `foo(x)` and
/// `bar(y)` normalize alike. Literal values are not part of the syntax that
/// normalization reads, so changing them changes nothing either.
pub proof fn law_renaming_keeps_expression_normal_form(a: Expr, b: Expr, rn: spec_fn(Seq<char>) -> Seq<char>)
    requires
        renaming_ok(rn),
        renamed_expr(a, b, rn),
    ensures
        normal_expr(b, Seen::empty()).0 == normal_expr(a, Seen::empty()).0,
{
    let empty = Seen::<Seq<char>>::empty();
    assert(renamed_names(empty, rn) =~= empty) by {
        assert(empty.vars.map_values(rn) =~= Seq::<Seq<char>>::empty());
        assert(empty.fns.map_values(rn) =~= Seq::<Seq<char>>::empty());
        assert(empty.types.map_values(rn) =~= Seq::<Seq<char>>::empty());
    }
    lemma_expr_renamed(a, b, rn, empty);
}

} // verus!
