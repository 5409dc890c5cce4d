//! The normal form of Rust syntax. Identifiers become placeholders numbered
//! per kind in the order in which normalization meets them; literal values
//! are erased, their kind kept; control flow is kept as it is; macro
//! invocations keep their name and the expressions of their arguments.
use vstd::prelude::*;

use crate::node::{BinOpKind, KindView, LiteralKind, NodeKind, Payload, PlaceholderKind, Tree, UnOpKind};
use crate::normalization_context::{name_slot, Names};
use crate::rust_syntax::{
    Arm, BinOp, Block, Bound, Expr, ExprClosure, FieldPat, FieldValue, FnArg, ItemFn, Lit, Macro,
    Member, Pat, Signature, Stmt, Type, UnOp,
};
use crate::reindex::Seen;
use crate::text::decimal;

verus! {

/// Whether a character is uppercase, as `char::is_uppercase` decides it
/// (Unicode's `Uppercase` property).
pub uninterp spec fn is_uppercase_char(c: char) -> bool;

/// Calls `char::is_uppercase`, which decides Unicode's `Uppercase`
/// property; nothing is claimed of it beyond its being that property of
/// the character alone.
#[verifier::external_body]
pub(crate) fn char_is_uppercase(c: char) -> (r: bool)
    ensures
        r == is_uppercase_char(c),
{
    c.is_uppercase()
}

/// A node without children.
pub open spec fn leaf_of(k: NodeKind) -> Tree {
    Tree { kind: k@, children: Seq::empty() }
}

/// A node with the given children.
pub open spec fn node_of(k: NodeKind, children: Seq<Tree>) -> Tree {
    Tree { kind: k@, children }
}

/// The sentinel for an absent optional child.
pub open spec fn absent() -> Tree {
    leaf_of(NodeKind::Absent)
}

/// A placeholder leaf: `tag` tells expression (6), type (7) and pattern (8)
/// placeholders apart.
pub open spec fn slot_leaf(tag: u8, k: PlaceholderKind, i: nat) -> Tree {
    Tree { kind: KindView { tag, payload: Payload::Slot(k, i) }, children: Seq::empty() }
}

/// The kind of a macro call with the given name.
pub open spec fn macro_kind(name: Seq<char>) -> KindView {
    KindView { tag: 12, payload: Payload::Name(name) }
}

/// The text of a field name: the identifier, or the decimal position.
pub open spec fn member_name(m: Member) -> Seq<char> {
    match m {
        Member::Named(s) => s@,
        Member::Unnamed(i) => decimal(i as nat),
    }
}

/// The name of a macro: the last identifier of its path, or empty.
pub open spec fn macro_name(path: Seq<String>) -> Seq<char> {
    if path.len() > 0 {
        path[path.len() - 1]@
    } else {
        Seq::empty()
    }
}

/// An identifier in an expression path stands for a type when it starts
/// with an uppercase character, and for a variable otherwise.
pub open spec fn ident_kind(name: Seq<char>) -> PlaceholderKind {
    if name.len() > 0 && is_uppercase_char(name[0]) {
        PlaceholderKind::Type
    } else {
        PlaceholderKind::Variable
    }
}

/// The kind of a literal.
pub open spec fn lit_kind(l: Lit) -> Option<LiteralKind> {
    match l {
        Lit::Str => Some(LiteralKind::Str),
        Lit::ByteStr => Some(LiteralKind::ByteStr),
        Lit::CStr => Some(LiteralKind::CStr),
        Lit::Byte => Some(LiteralKind::Byte),
        Lit::Char => Some(LiteralKind::Char),
        Lit::Int => Some(LiteralKind::Int),
        Lit::Float => Some(LiteralKind::Float),
        Lit::Bool => Some(LiteralKind::Bool),
        Lit::Verbatim => None,
    }
}

/// A literal: its kind with the value erased, or an opaque leaf.
pub open spec fn lit_tree(l: Lit) -> Tree {
    match lit_kind(l) {
        Some(k) => leaf_of(NodeKind::Literal(k)),
        None => leaf_of(NodeKind::Opaque),
    }
}

/// The kind of a binary operator.
pub open spec fn bin_op_kind(op: BinOp) -> BinOpKind {
    match op {
        BinOp::Add => BinOpKind::Add,
        BinOp::Sub => BinOpKind::Sub,
        BinOp::Mul => BinOpKind::Mul,
        BinOp::Div => BinOpKind::Div,
        BinOp::Rem => BinOpKind::Rem,
        BinOp::And => BinOpKind::And,
        BinOp::Or => BinOpKind::Or,
        BinOp::BitXor => BinOpKind::BitXor,
        BinOp::BitAnd => BinOpKind::BitAnd,
        BinOp::BitOr => BinOpKind::BitOr,
        BinOp::Shl => BinOpKind::Shl,
        BinOp::Shr => BinOpKind::Shr,
        BinOp::Eq => BinOpKind::Eq,
        BinOp::Lt => BinOpKind::Lt,
        BinOp::Le => BinOpKind::Le,
        BinOp::Ne => BinOpKind::Ne,
        BinOp::Ge => BinOpKind::Ge,
        BinOp::Gt => BinOpKind::Gt,
        BinOp::AddAssign => BinOpKind::AddAssign,
        BinOp::SubAssign => BinOpKind::SubAssign,
        BinOp::MulAssign => BinOpKind::MulAssign,
        BinOp::DivAssign => BinOpKind::DivAssign,
        BinOp::RemAssign => BinOpKind::RemAssign,
        BinOp::BitXorAssign => BinOpKind::BitXorAssign,
        BinOp::BitAndAssign => BinOpKind::BitAndAssign,
        BinOp::BitOrAssign => BinOpKind::BitOrAssign,
        BinOp::ShlAssign => BinOpKind::ShlAssign,
        BinOp::ShrAssign => BinOpKind::ShrAssign,
        BinOp::Other => BinOpKind::Other,
    }
}

/// The kind of a unary operator.
pub open spec fn un_op_kind(op: UnOp) -> UnOpKind {
    match op {
        UnOp::Deref => UnOpKind::Deref,
        UnOp::Not => UnOpKind::Not,
        UnOp::Neg => UnOpKind::Neg,
        UnOp::Other => UnOpKind::Other,
    }
}

/// The placeholder of one identifier of an expression path.
pub open spec fn expr_segment(name: Seq<char>, c: Names) -> (Tree, Names) {
    let k = ident_kind(name);
    let (i, c1) = name_slot(c, name, k);
    (slot_leaf(6, k, i), c1)
}

/// The placeholders of the identifiers of an expression path, in order.
pub open spec fn expr_segments(segs: Seq<String>, c: Names) -> (Seq<Tree>, Names)
    decreases segs.len(),
{
    if segs.len() == 0 {
        (Seq::empty(), c)
    } else {
        let (front, c1) = expr_segments(segs.drop_last(), c);
        let (t, c2) = expr_segment(segs[segs.len() - 1]@, c1);
        (front.push(t), c2)
    }
}

/// The type placeholders of the identifiers of a path, in order.
pub open spec fn type_segments(segs: Seq<String>, c: Names) -> (Seq<Tree>, Names)
    decreases segs.len(),
{
    if segs.len() == 0 {
        (Seq::empty(), c)
    } else {
        let (front, c1) = type_segments(segs.drop_last(), c);
        let (i, c2) = name_slot(c1, segs[segs.len() - 1]@, PlaceholderKind::Type);
        (front.push(slot_leaf(7, PlaceholderKind::Type, i)), c2)
    }
}

/// The pattern placeholders of the identifiers of a path, in order.
pub open spec fn pat_segments(segs: Seq<String>, c: Names) -> (Seq<Tree>, Names)
    decreases segs.len(),
{
    if segs.len() == 0 {
        (Seq::empty(), c)
    } else {
        let (front, c1) = pat_segments(segs.drop_last(), c);
        let (i, c2) = name_slot(c1, segs[segs.len() - 1]@, PlaceholderKind::Variable);
        (front.push(slot_leaf(8, PlaceholderKind::Variable, i)), c2)
    }
}

/// The trait bounds of an `impl Trait` type, each as its path: a single
/// type placeholder, or a type path of them. Other bounds are left out.
pub open spec fn normal_bounds(bs: Seq<Bound>, c: Names) -> (Seq<Tree>, Names)
    decreases bs.len(),
{
    if bs.len() == 0 {
        (Seq::empty(), c)
    } else {
        let (front, c1) = normal_bounds(bs.drop_last(), c);
        match bs[bs.len() - 1] {
            Bound::Trait(segs) => {
                let (ts, c2) = type_segments(segs@, c1);
                let t = if ts.len() == 1 {
                    ts[0]
                } else {
                    node_of(NodeKind::TypePath, ts)
                };
                (front.push(t), c2)
            },
            Bound::Other => (front, c1),
        }
    }
}

/// The normal form of an expression, and the names met once it has been
/// normalized.
pub open spec fn normal_expr(e: Expr, c: Names) -> (Tree, Names)
    decreases e,
{
    match e {
        Expr::Lit(l) => (lit_tree(l), c),
        Expr::Path(segs) => if segs.len() == 1 {
            expr_segment(segs[0]@, c)
        } else {
            let (ts, c1) = expr_segments(segs@, c);
            (node_of(NodeKind::Path, ts), c1)
        },
        Expr::Binary(op, l, r) => {
            let (a, c1) = normal_expr(*l, c);
            let (b, c2) = normal_expr(*r, c1);
            (node_of(NodeKind::BinaryOp(bin_op_kind(op)), seq![a, b]), c2)
        },
        Expr::Unary(op, x) => {
            let (a, c1) = normal_expr(*x, c);
            (node_of(NodeKind::UnaryOp(un_op_kind(op)), seq![a]), c1)
        },
        Expr::Call(f, args) => {
            let (a, c1) = normal_expr(*f, c);
            let (bs, c2) = normal_exprs(args@, c1);
            (node_of(NodeKind::Call, seq![a] + bs), c2)
        },
        Expr::MethodCall { receiver, method, args } => {
            let (i, c1) = name_slot(c, method@, PlaceholderKind::Function);
            let (a, c2) = normal_expr(*receiver, c1);
            let (bs, c3) = normal_exprs(args@, c2);
            (
                node_of(
                    NodeKind::MethodCall,
                    seq![a, slot_leaf(6, PlaceholderKind::Function, i)] + bs,
                ),
                c3,
            )
        },
        Expr::Field(base, m) => {
            let (i, c1) = name_slot(c, member_name(m), PlaceholderKind::Variable);
            let (a, c2) = normal_expr(*base, c1);
            (node_of(NodeKind::FieldAccess, seq![a, slot_leaf(6, PlaceholderKind::Variable, i)]), c2)
        },
        Expr::Index(x, y) => {
            let (a, c1) = normal_expr(*x, c);
            let (b, c2) = normal_expr(*y, c1);
            (node_of(NodeKind::Index, seq![a, b]), c2)
        },
        Expr::Closure(cl) => normal_closure(cl, c),
        Expr::Return(value) => match value {
            Some(x) => {
                let (a, c1) = normal_expr(*x, c);
                (node_of(NodeKind::Return, seq![a]), c1)
            },
            None => (leaf_of(NodeKind::Return), c),
        },
        Expr::Break(value) => match value {
            Some(x) => {
                let (a, c1) = normal_expr(*x, c);
                (node_of(NodeKind::Break, seq![a]), c1)
            },
            None => (leaf_of(NodeKind::Break), c),
        },
        Expr::Continue => (leaf_of(NodeKind::Continue), c),
        Expr::Assign(x, y) => {
            let (a, c1) = normal_expr(*x, c);
            let (b, c2) = normal_expr(*y, c1);
            (node_of(NodeKind::Assign, seq![a, b]), c2)
        },
        Expr::Reference { mutable, expr } => {
            let (a, c1) = normal_expr(*expr, c);
            (node_of(NodeKind::Reference { mutable }, seq![a]), c1)
        },
        Expr::Tuple(es) => {
            let (ts, c1) = normal_exprs(es@, c);
            (node_of(NodeKind::Tuple, ts), c1)
        },
        Expr::Array(es) => {
            let (ts, c1) = normal_exprs(es@, c);
            (node_of(NodeKind::Array, ts), c1)
        },
        Expr::Repeat(x, len) => {
            let (a, c1) = normal_expr(*x, c);
            let (b, c2) = normal_expr(*len, c1);
            (node_of(NodeKind::Repeat, seq![a, b]), c2)
        },
        Expr::Cast(x, ty) => {
            let (a, c1) = normal_expr(*x, c);
            let (b, c2) = normal_type(*ty, c1);
            (node_of(NodeKind::Cast, seq![a, b]), c2)
        },
        Expr::Struct { fields, rest } => {
            let (a, c1) = normal_opt(rest, c);
            let (fs, c2) = normal_fields(fields@, c1);
            (node_of(NodeKind::StructInit, seq![a] + fs), c2)
        },
        Expr::Await(x) => {
            let (a, c1) = normal_expr(*x, c);
            (node_of(NodeKind::Await, seq![a]), c1)
        },
        Expr::Try(x) => {
            let (a, c1) = normal_expr(*x, c);
            (node_of(NodeKind::Try, seq![a]), c1)
        },
        Expr::If { cond, then_branch, else_branch } => {
            let (a, c1) = normal_expr(*cond, c);
            let (b, c2) = normal_block(then_branch, c1);
            let (d, c3) = normal_opt(else_branch, c2);
            (node_of(NodeKind::If, seq![a, b, d]), c3)
        },
        Expr::Match { expr, arms } => {
            let (a, c1) = normal_expr(*expr, c);
            let (ts, c2) = normal_arms(arms@, c1);
            (node_of(NodeKind::Match, seq![a] + ts), c2)
        },
        Expr::Loop(body) => {
            let (a, c1) = normal_block(body, c);
            (node_of(NodeKind::Loop, seq![a]), c1)
        },
        Expr::While { cond, body } => {
            let (a, c1) = normal_expr(*cond, c);
            let (b, c2) = normal_block(body, c1);
            (node_of(NodeKind::While, seq![a, b]), c2)
        },
        Expr::ForLoop { pat, expr, body } => {
            let (a, c1) = normal_pat(*pat, c);
            let (b, c2) = normal_expr(*expr, c1);
            let (d, c3) = normal_block(body, c2);
            (node_of(NodeKind::ForLoop, seq![a, b, d]), c3)
        },
        Expr::Block(b) => normal_block(b, c),
        Expr::Paren(x) => {
            let (a, c1) = normal_expr(*x, c);
            (node_of(NodeKind::Paren, seq![a]), c1)
        },
        Expr::Range { start, end } => {
            let (a, c1) = normal_opt(start, c);
            let (b, c2) = normal_opt(end, c1);
            (node_of(NodeKind::Range, seq![a, b]), c2)
        },
        Expr::Let { pat, expr } => {
            let (a, c1) = normal_pat(*pat, c);
            let (b, c2) = normal_expr(*expr, c1);
            (node_of(NodeKind::LetExpr, seq![a, b]), c2)
        },
        Expr::Macro(m) => normal_macro(m, c),
        Expr::Group(x) => normal_expr(*x, c),
        Expr::Unsafe(b) => normal_block(b, c),
        Expr::Const(b) => normal_block(b, c),
        Expr::Other => (leaf_of(NodeKind::Opaque), c),
    }
}

/// The normal form of a closure: its body, then its parameters.
pub open spec fn normal_closure(cl: ExprClosure, c: Names) -> (Tree, Names)
    decreases cl,
{
    let (a, c1) = normal_expr(*cl.body, c);
    let (ps, c2) = normal_pats(cl.inputs@, c1);
    (node_of(NodeKind::Closure, seq![a] + ps), c2)
}

/// The normal form of an optional expression: the absent sentinel when
/// there is none.
pub open spec fn normal_opt(o: Option<Box<Expr>>, c: Names) -> (Tree, Names)
    decreases o,
{
    match o {
        Some(x) => normal_expr(*x, c),
        None => (absent(), c),
    }
}

/// The normal forms of expressions, left to right.
pub open spec fn normal_exprs(es: Seq<Expr>, c: Names) -> (Seq<Tree>, Names)
    decreases es,
{
    if es.len() == 0 {
        (Seq::empty(), c)
    } else {
        let (front, c1) = normal_exprs(es.drop_last(), c);
        let (t, c2) = normal_expr(es[es.len() - 1], c1);
        (front.push(t), c2)
    }
}

/// The fields of a struct literal, each as its name's placeholder and its
/// value.
pub open spec fn normal_fields(fs: Seq<FieldValue>, c: Names) -> (Seq<Tree>, Names)
    decreases fs,
{
    if fs.len() == 0 {
        (Seq::empty(), c)
    } else {
        let (front, c1) = normal_fields(fs.drop_last(), c);
        let f = fs[fs.len() - 1];
        let (i, c2) = name_slot(c1, member_name(f.member), PlaceholderKind::Variable);
        let (v, c3) = normal_expr(f.expr, c2);
        (
            front.push(
                node_of(NodeKind::FieldValue, seq![slot_leaf(6, PlaceholderKind::Variable, i), v]),
            ),
            c3,
        )
    }
}

/// The arms of a `match`, each as its pattern, its guard and its body.
pub open spec fn normal_arms(arms: Seq<Arm>, c: Names) -> (Seq<Tree>, Names)
    decreases arms,
{
    if arms.len() == 0 {
        (Seq::empty(), c)
    } else {
        let (front, c1) = normal_arms(arms.drop_last(), c);
        let arm = arms[arms.len() - 1];
        let (p, c2) = normal_pat(arm.pat, c1);
        let (g, c3) = normal_opt(arm.guard, c2);
        let (b, c4) = normal_expr(*arm.body, c3);
        (front.push(node_of(NodeKind::MatchArm, seq![p, g, b])), c4)
    }
}

/// The normal form of a block: its statements in order.
pub open spec fn normal_block(b: Block, c: Names) -> (Tree, Names)
    decreases b,
{
    let (ts, c1) = normal_stmts(b.stmts@, c);
    (node_of(NodeKind::Block, ts), c1)
}

/// The normal forms of statements, in order.
pub open spec fn normal_stmts(ss: Seq<Stmt>, c: Names) -> (Seq<Tree>, Names)
    decreases ss,
{
    if ss.len() == 0 {
        (Seq::empty(), c)
    } else {
        let (front, c1) = normal_stmts(ss.drop_last(), c);
        let (t, c2) = normal_stmt(ss[ss.len() - 1], c1);
        (front.push(t), c2)
    }
}

/// The normal form of a statement. A `let` gives its pattern, an absent
/// type, its initializer and its `else` block; a statement ended by a
/// semicolon is wrapped; a nested item is opaque.
pub open spec fn normal_stmt(s: Stmt, c: Names) -> (Tree, Names)
    decreases s,
{
    match s {
        Stmt::Local { pat, init } => {
            let (p, c1) = normal_pat(pat, c);
            match init {
                Some(li) => {
                    let (x, c2) = normal_expr(*li.expr, c1);
                    let (d, c3) = normal_opt(li.diverge, c2);
                    (node_of(NodeKind::LetBinding, seq![p, absent(), x, d]), c3)
                },
                None => (node_of(NodeKind::LetBinding, seq![p, absent(), absent(), absent()]), c1),
            }
        },
        Stmt::Expr(e, semi) => {
            let (t, c1) = normal_expr(e, c);
            if semi {
                (node_of(NodeKind::Semi, seq![t]), c1)
            } else {
                (t, c1)
            }
        },
        Stmt::Item(_) => (leaf_of(NodeKind::Opaque), c),
        Stmt::Macro(m, semi) => {
            let (t, c1) = normal_macro(m, c);
            if semi {
                (node_of(NodeKind::Semi, seq![t]), c1)
            } else {
                (t, c1)
            }
        },
    }
}

/// The normal form of a macro invocation: a macro call of its name whose
/// children are its arguments when they read as expressions, a single
/// opaque node when they do not, and nothing when there are no tokens.
pub open spec fn normal_macro(m: Macro, c: Names) -> (Tree, Names)
    decreases m,
{
    let name = macro_name(m.path@);
    if m.tokens_empty {
        (Tree { kind: macro_kind(name), children: Seq::empty() }, c)
    } else {
        match m.body {
            Some(es) => {
                let (ts, c1) = normal_exprs(es@, c);
                (Tree { kind: macro_kind(name), children: ts }, c1)
            },
            None => (Tree { kind: macro_kind(name), children: seq![leaf_of(NodeKind::Opaque)] }, c),
        }
    }
}

/// The normal form of a pattern.
pub open spec fn normal_pat(p: Pat, c: Names) -> (Tree, Names)
    decreases p,
{
    match p {
        Pat::Ident(name) => {
            let (i, c1) = name_slot(c, name@, PlaceholderKind::Variable);
            (slot_leaf(8, PlaceholderKind::Variable, i), c1)
        },
        Pat::Wild => (leaf_of(NodeKind::PatWild), c),
        Pat::Tuple(ps) => {
            let (ts, c1) = normal_pats(ps@, c);
            (node_of(NodeKind::PatTuple, ts), c1)
        },
        Pat::TupleStruct(ps) => {
            let (ts, c1) = normal_pats(ps@, c);
            (node_of(NodeKind::PatStruct, ts), c1)
        },
        Pat::Struct(fs) => {
            let (ts, c1) = normal_field_pats(fs@, c);
            (node_of(NodeKind::PatStruct, ts), c1)
        },
        Pat::Or(ps) => {
            let (ts, c1) = normal_pats(ps@, c);
            (node_of(NodeKind::PatOr, ts), c1)
        },
        Pat::Lit(l) => (node_of(NodeKind::PatLiteral, seq![lit_tree(l)]), c),
        Pat::Reference { mutable, pat } => {
            let (a, c1) = normal_pat(*pat, c);
            (node_of(NodeKind::PatReference { mutable }, seq![a]), c1)
        },
        Pat::Slice(ps) => {
            let (ts, c1) = normal_pats(ps@, c);
            (node_of(NodeKind::PatSlice, ts), c1)
        },
        Pat::Rest => (leaf_of(NodeKind::PatRest), c),
        Pat::Range { start, end } => {
            let (a, c1) = normal_opt(start, c);
            let (b, c2) = normal_opt(end, c1);
            (node_of(NodeKind::PatRange, seq![a, b]), c2)
        },
        Pat::Path(segs) => if segs.len() == 1 {
            let (i, c1) = name_slot(c, segs[0]@, PlaceholderKind::Variable);
            (slot_leaf(8, PlaceholderKind::Variable, i), c1)
        } else {
            let (ts, c1) = pat_segments(segs@, c);
            (node_of(NodeKind::PatStruct, ts), c1)
        },
        Pat::Type(inner) => normal_pat(*inner, c),
        Pat::Macro(m) => normal_macro(m, c),
        Pat::Other => (leaf_of(NodeKind::Opaque), c),
    }
}

/// The normal forms of patterns, in order.
pub open spec fn normal_pats(ps: Seq<Pat>, c: Names) -> (Seq<Tree>, Names)
    decreases ps,
{
    if ps.len() == 0 {
        (Seq::empty(), c)
    } else {
        let (front, c1) = normal_pats(ps.drop_last(), c);
        let (t, c2) = normal_pat(ps[ps.len() - 1], c1);
        (front.push(t), c2)
    }
}

/// The fields of a struct pattern, each as its name's placeholder and its
/// pattern; the pattern is normalized before the name.
pub open spec fn normal_field_pats(fs: Seq<FieldPat>, c: Names) -> (Seq<Tree>, Names)
    decreases fs,
{
    if fs.len() == 0 {
        (Seq::empty(), c)
    } else {
        let (front, c1) = normal_field_pats(fs.drop_last(), c);
        let f = fs[fs.len() - 1];
        let (v, c2) = normal_pat(f.pat, c1);
        let (i, c3) = name_slot(c2, member_name(f.member), PlaceholderKind::Variable);
        (
            front.push(
                node_of(NodeKind::FieldValue, seq![slot_leaf(8, PlaceholderKind::Variable, i), v]),
            ),
            c3,
        )
    }
}

/// The normal form of a type.
pub open spec fn normal_type(t: Type, c: Names) -> (Tree, Names)
    decreases t,
{
    match t {
        Type::Path { qself, segments } => if !qself && segments.len() == 1 {
            let (i, c1) = name_slot(c, segments[0]@, PlaceholderKind::Type);
            (slot_leaf(7, PlaceholderKind::Type, i), c1)
        } else {
            let (ts, c1) = type_segments(segments@, c);
            (node_of(NodeKind::TypePath, ts), c1)
        },
        Type::Reference { mutable, elem } => {
            let (a, c1) = normal_type(*elem, c);
            (node_of(NodeKind::TypeReference { mutable }, seq![a]), c1)
        },
        Type::Tuple(ts) => if ts.len() == 0 {
            (leaf_of(NodeKind::TypeUnit), c)
        } else {
            let (xs, c1) = normal_types(ts@, c);
            (node_of(NodeKind::TypeTuple, xs), c1)
        },
        Type::Slice(elem) => {
            let (a, c1) = normal_type(*elem, c);
            (node_of(NodeKind::TypeSlice, seq![a]), c1)
        },
        Type::Array(elem, len) => {
            let (a, c1) = normal_type(*elem, c);
            let (b, c2) = normal_expr(*len, c1);
            (node_of(NodeKind::TypeArray, seq![a, b]), c2)
        },
        Type::ImplTrait(bounds) => {
            let (ts, c1) = normal_bounds(bounds@, c);
            (node_of(NodeKind::TypeImplTrait, ts), c1)
        },
        Type::Infer => (leaf_of(NodeKind::TypeInfer), c),
        Type::Never => (leaf_of(NodeKind::TypeNever), c),
        Type::Paren(elem) => normal_type(*elem, c),
        Type::Macro(m) => normal_macro(m, c),
        Type::Other => (leaf_of(NodeKind::Opaque), c),
    }
}

/// The normal forms of types, in order.
pub open spec fn normal_types(ts: Seq<Type>, c: Names) -> (Seq<Tree>, Names)
    decreases ts,
{
    if ts.len() == 0 {
        (Seq::empty(), c)
    } else {
        let (front, c1) = normal_types(ts.drop_last(), c);
        let (t, c2) = normal_type(ts[ts.len() - 1], c1);
        (front.push(t), c2)
    }
}

/// The normal form of a function parameter: a receiver, or a pattern
/// with its type.
pub open spec fn normal_fn_arg(a: FnArg, c: Names) -> (Tree, Names) {
    match a {
        FnArg::Receiver { reference, mutable } => (leaf_of(NodeKind::SelfParam { reference, mutable }), c),
        FnArg::Typed { pat, ty } => {
            let (p, c1) = normal_pat(pat, c);
            let (t, c2) = normal_type(ty, c1);
            (node_of(NodeKind::Param, seq![p, t]), c2)
        },
    }
}

/// The normal forms of function parameters, in order.
pub open spec fn normal_fn_args(args: Seq<FnArg>, c: Names) -> (Seq<Tree>, Names)
    decreases args.len(),
{
    if args.len() == 0 {
        (Seq::empty(), c)
    } else {
        let (front, c1) = normal_fn_args(args.drop_last(), c);
        let (t, c2) = normal_fn_arg(args[args.len() - 1], c1);
        (front.push(t), c2)
    }
}

/// The normal form of a signature: its parameters, then its return type
/// or the absent sentinel. The function's name is left out.
pub open spec fn normal_signature(sig: Signature, c: Names) -> (Tree, Names) {
    let (ps, c1) = normal_fn_args(sig.inputs@, c);
    let (r, c2) = match sig.output {
        Some(t) => normal_type(*t, c1),
        None => (absent(), c1),
    };
    (node_of(NodeKind::FnSignature, ps.push(r)), c2)
}

/// The normal forms of a function's signature and body. Both share one
/// numbering of identifiers, which starts with the signature.
pub open spec fn normal_item_fn(f: ItemFn) -> (Tree, Tree) {
    let (s, c1) = normal_signature(f.sig, Seen::empty());
    let (b, _c2) = normal_block(f.block, c1);
    (s, b)
}

/// Binary expressions with different operators never normalize alike,
/// whatever their operands and wherever they stand: `a && b` and `a || b`,
/// `a - b` and `a + b`, keep apart. Each operator is kept as it is.
pub proof fn law_distinct_operators_stay_apart(
    o1: BinOp,
    o2: BinOp,
    l1: Expr,
    r1: Expr,
    l2: Expr,
    r2: Expr,
    c1: Names,
    c2: Names,
)
    requires
        o1 != o2,
    ensures
        normal_expr(Expr::Binary(o1, Box::new(l1), Box::new(r1)), c1).0 != normal_expr(
            Expr::Binary(o2, Box::new(l2), Box::new(r2)),
            c2,
        ).0,
{
    let t1 = normal_expr(Expr::Binary(o1, Box::new(l1), Box::new(r1)), c1).0;
    let t2 = normal_expr(Expr::Binary(o2, Box::new(l2), Box::new(r2)), c2).0;
    assert(t1.kind.payload == Payload::Bin(bin_op_kind(o1)));
    assert(t2.kind.payload == Payload::Bin(bin_op_kind(o2)));
    assert(bin_op_kind(o1).code() != bin_op_kind(o2).code());
}


/// Unary expressions with different operators never normalize alike:
/// `!x` and `-x` keep apart.
pub proof fn law_distinct_unary_operators_stay_apart(o1: UnOp, o2: UnOp, x1: Expr, x2: Expr, c1: Names, c2: Names)
    requires
        o1 != o2,
    ensures
        normal_expr(Expr::Unary(o1, Box::new(x1)), c1).0 != normal_expr(Expr::Unary(o2, Box::new(x2)), c2).0,
{
    let t1 = normal_expr(Expr::Unary(o1, Box::new(x1)), c1).0;
    let t2 = normal_expr(Expr::Unary(o2, Box::new(x2)), c2).0;
    assert(t1.kind.payload == Payload::Un(un_op_kind(o1)));
    assert(t2.kind.payload == Payload::Un(un_op_kind(o2)));
    assert(un_op_kind(o1).code() != un_op_kind(o2).code());
}

/// A literal's value is erased but its kind is kept: literals of different
/// kinds normalize apart, literals of one kind alike.
pub proof fn law_literal_kinds_stay_apart(l1: Lit, l2: Lit, c1: Names, c2: Names)
    ensures
        (normal_expr(Expr::Lit(l1), c1).0 == normal_expr(Expr::Lit(l2), c2).0) <==> (l1 == l2),
{
    let t1 = normal_expr(Expr::Lit(l1), c1).0;
    let t2 = normal_expr(Expr::Lit(l2), c2).0;
    if l1 != l2 {
        assert(t1.kind != t2.kind);
    }
}

} // verus!
