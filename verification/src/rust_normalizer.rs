//! Normalization of Rust syntax into [`NormalizedNode`] trees, as
//! [`crate::rust_normal_form`] defines it.
use vstd::prelude::*;

use crate::node::{
    lemma_trees_of, lemma_trees_of_concat, lemma_trees_of_push, trees_of, BinOpKind, LiteralKind,
    NodeKind, NormalizedNode, PlaceholderKind, Tree, UnOpKind,
};
use crate::normalization_context::NormalizationContext;
use crate::rust_normal_form::{
    bin_op_kind, char_is_uppercase, expr_segment, expr_segments, ident_kind, lit_tree, macro_name,
    member_name, normal_arms, normal_block, normal_bounds, normal_expr, normal_exprs,
    normal_field_pats, normal_fields, normal_macro, normal_opt, normal_pat, normal_pats,
    normal_stmt, normal_stmts, normal_type, normal_types, pat_segments, type_segments, un_op_kind,
    normal_closure, normal_fn_arg, normal_fn_args, normal_signature, normal_item_fn,
};
use crate::reindex::Seen;
use crate::rust_syntax::{
    Arm, BinOp, Block, Bound, Expr, ExprClosure, FieldPat, FieldValue, FnArg, ItemFn, Lit, Macro,
    Member, Pat, Signature, Stmt, Type, UnOp,
};
use crate::text::decimal_string;

verus! {

/// The text of a field name: the identifier, or the decimal position.
pub fn member_to_string(member: &Member) -> (r: String)
    ensures
        r@ == member_name(*member),
{
    match member {
        Member::Named(ident) => ident.clone(),
        Member::Unnamed(index) => decimal_string(*index as u64),
    }
}

/// A literal: its kind with the value erased, or an opaque leaf.
pub fn normalize_lit(lit: &Lit) -> (r: NormalizedNode)
    ensures
        r@ == lit_tree(*lit),
{
    let kind = match lit {
        Lit::Str => NodeKind::Literal(LiteralKind::Str),
        Lit::ByteStr => NodeKind::Literal(LiteralKind::ByteStr),
        Lit::CStr => NodeKind::Literal(LiteralKind::CStr),
        Lit::Byte => NodeKind::Literal(LiteralKind::Byte),
        Lit::Char => NodeKind::Literal(LiteralKind::Char),
        Lit::Int => NodeKind::Literal(LiteralKind::Int),
        Lit::Float => NodeKind::Literal(LiteralKind::Float),
        Lit::Bool => NodeKind::Literal(LiteralKind::Bool),
        Lit::Verbatim => NodeKind::Opaque,
    };
    NormalizedNode::leaf(kind)
}

/// The kind of a binary operator.
pub fn normalize_bin_op(op: &BinOp) -> (r: BinOpKind)
    ensures
        r == bin_op_kind(*op),
{
    match op {
        BinOp::Add => BinOpKind::Add,
        BinOp::Sub => BinOpKind::Sub,
        BinOp::Mul => BinOpKind::Mul,
        BinOp::Div => BinOpKind::Div,
        BinOp::Rem => BinOpKind::Rem,
        BinOp::And => BinOpKind::And,
        BinOp::Or => BinOpKind::Or,
        BinOp::BitXor => BinOpKind::BitXor,
        BinOp::BitAnd => BinOpKind::BitAnd,
        BinOp::BitOr => BinOpKind::BitOr,
        BinOp::Shl => BinOpKind::Shl,
        BinOp::Shr => BinOpKind::Shr,
        BinOp::Eq => BinOpKind::Eq,
        BinOp::Lt => BinOpKind::Lt,
        BinOp::Le => BinOpKind::Le,
        BinOp::Ne => BinOpKind::Ne,
        BinOp::Ge => BinOpKind::Ge,
        BinOp::Gt => BinOpKind::Gt,
        BinOp::AddAssign => BinOpKind::AddAssign,
        BinOp::SubAssign => BinOpKind::SubAssign,
        BinOp::MulAssign => BinOpKind::MulAssign,
        BinOp::DivAssign => BinOpKind::DivAssign,
        BinOp::RemAssign => BinOpKind::RemAssign,
        BinOp::BitXorAssign => BinOpKind::BitXorAssign,
        BinOp::BitAndAssign => BinOpKind::BitAndAssign,
        BinOp::BitOrAssign => BinOpKind::BitOrAssign,
        BinOp::ShlAssign => BinOpKind::ShlAssign,
        BinOp::ShrAssign => BinOpKind::ShrAssign,
        BinOp::Other => BinOpKind::Other,
    }
}

/// The kind of a unary operator.
pub fn normalize_un_op(op: &UnOp) -> (r: UnOpKind)
    ensures
        r == un_op_kind(*op),
{
    match op {
        UnOp::Deref => UnOpKind::Deref,
        UnOp::Not => UnOpKind::Not,
        UnOp::Neg => UnOpKind::Neg,
        UnOp::Other => UnOpKind::Other,
    }
}

/// Whether an identifier of an expression path stands for a type or a
/// variable.
fn ident_kind_of(name: &str) -> (r: PlaceholderKind)
    ensures
        r == ident_kind(name@),
{
    if name.unicode_len() > 0 && char_is_uppercase(name.get_char(0)) {
        PlaceholderKind::Type
    } else {
        PlaceholderKind::Variable
    }
}

/// The placeholder of one identifier of an expression path.
fn normalize_expr_segment(name: &String, ctx: &mut NormalizationContext) -> (r: NormalizedNode)
    ensures
        (r@, final(ctx)@) == expr_segment(name@, old(ctx)@),
{
    let kind = ident_kind_of(name.as_str());
    let idx = ctx.placeholder(name.as_str(), kind);
    NormalizedNode::leaf(NodeKind::Placeholder(kind, idx))
}

/// The placeholders of the identifiers of an expression path.
fn normalize_expr_segments(segs: &Vec<String>, ctx: &mut NormalizationContext) -> (r: Vec<
    NormalizedNode,
>)
    ensures
        (trees_of(r@), final(ctx)@) == expr_segments(segs@, old(ctx)@),
{
    let ghost c0 = ctx@;
    let mut out: Vec<NormalizedNode> = Vec::new();
    let n = segs.len();
    for i in 0..n
        invariant
            n == segs@.len(),
            (trees_of(out@), ctx@) == expr_segments(segs@.take(i as int), c0),
    {
        proof {
            assert(segs@.take(i + 1).drop_last() =~= segs@.take(i as int));
        }
        let t = normalize_expr_segment(&segs[i], ctx);
        proof {
            lemma_trees_of_push(out@, t);
        }
        out.push(t);
    }
    proof {
        assert(segs@.take(n as int) =~= segs@);
    }
    out
}

/// The type placeholders of the identifiers of a path.
fn normalize_type_segments(segs: &Vec<String>, ctx: &mut NormalizationContext) -> (r: Vec<
    NormalizedNode,
>)
    ensures
        (trees_of(r@), final(ctx)@) == type_segments(segs@, old(ctx)@),
{
    let ghost c0 = ctx@;
    let mut out: Vec<NormalizedNode> = Vec::new();
    let n = segs.len();
    for i in 0..n
        invariant
            n == segs@.len(),
            (trees_of(out@), ctx@) == type_segments(segs@.take(i as int), c0),
    {
        proof {
            assert(segs@.take(i + 1).drop_last() =~= segs@.take(i as int));
        }
        let idx = ctx.placeholder(segs[i].as_str(), PlaceholderKind::Type);
        let t = NormalizedNode::leaf(NodeKind::TypePlaceholder(PlaceholderKind::Type, idx));
        proof {
            lemma_trees_of_push(out@, t);
        }
        out.push(t);
    }
    proof {
        assert(segs@.take(n as int) =~= segs@);
    }
    out
}

/// The pattern placeholders of the identifiers of a path.
fn normalize_pat_segments(segs: &Vec<String>, ctx: &mut NormalizationContext) -> (r: Vec<
    NormalizedNode,
>)
    ensures
        (trees_of(r@), final(ctx)@) == pat_segments(segs@, old(ctx)@),
{
    let ghost c0 = ctx@;
    let mut out: Vec<NormalizedNode> = Vec::new();
    let n = segs.len();
    for i in 0..n
        invariant
            n == segs@.len(),
            (trees_of(out@), ctx@) == pat_segments(segs@.take(i as int), c0),
    {
        proof {
            assert(segs@.take(i + 1).drop_last() =~= segs@.take(i as int));
        }
        let idx = ctx.placeholder(segs[i].as_str(), PlaceholderKind::Variable);
        let t = NormalizedNode::leaf(NodeKind::PatPlaceholder(PlaceholderKind::Variable, idx));
        proof {
            lemma_trees_of_push(out@, t);
        }
        out.push(t);
    }
    proof {
        assert(segs@.take(n as int) =~= segs@);
    }
    out
}

/// The trait bounds of an `impl Trait` type.
fn normalize_bounds(bounds: &Vec<Bound>, ctx: &mut NormalizationContext) -> (r: Vec<NormalizedNode>)
    ensures
        (trees_of(r@), final(ctx)@) == normal_bounds(bounds@, old(ctx)@),
{
    let ghost c0 = ctx@;
    let mut out: Vec<NormalizedNode> = Vec::new();
    let n = bounds.len();
    for i in 0..n
        invariant
            n == bounds@.len(),
            (trees_of(out@), ctx@) == normal_bounds(bounds@.take(i as int), c0),
    {
        proof {
            assert(bounds@.take(i + 1).drop_last() =~= bounds@.take(i as int));
        }
        match &bounds[i] {
            Bound::Trait(segs) => {
                let mut ts = normalize_type_segments(segs, ctx);
                proof {
                    lemma_trees_of(ts@);
                    assert(bounds@.take(i + 1)[i as int] == bounds@[i as int]);
                }
                let t = if ts.len() == 1 {
                    ts.remove(0)
                } else {
                    NormalizedNode::with_children(NodeKind::TypePath, ts)
                };
                proof {
                    lemma_trees_of_push(out@, t);
                }
                out.push(t);
            },
            Bound::Other => {
                proof {
                    assert(bounds@.take(i + 1)[i as int] == bounds@[i as int]);
                }
            },
        }
    }
    proof {
        assert(bounds@.take(n as int) =~= bounds@);
    }
    out
}

/// A node whose children are `first` followed by `rest`.
fn node_with_prefix(kind: NodeKind, first: Vec<NormalizedNode>, rest: Vec<NormalizedNode>) -> (r:
    NormalizedNode)
    ensures
        r@ == (Tree { kind: kind@, children: trees_of(first@) + trees_of(rest@) }),
{
    let mut children = first;
    let mut rest = rest;
    let ghost a = children@;
    let ghost b = rest@;
    children.append(&mut rest);
    proof {
        lemma_trees_of_concat(a, b);
    }
    NormalizedNode::with_children(kind, children)
}

/// One node as a sequence.
fn single(a: NormalizedNode) -> (r: Vec<NormalizedNode>)
    ensures
        trees_of(r@) == seq![a@],
{
    let mut v: Vec<NormalizedNode> = Vec::new();
    v.push(a);
    proof {
        lemma_trees_of(v@);
        assert(trees_of(v@) =~= seq![a@]);
    }
    v
}

/// Two nodes as a sequence.
fn pair(a: NormalizedNode, b: NormalizedNode) -> (r: Vec<NormalizedNode>)
    ensures
        trees_of(r@) == seq![a@, b@],
{
    let mut v: Vec<NormalizedNode> = Vec::new();
    v.push(a);
    v.push(b);
    proof {
        lemma_trees_of(v@);
        assert(trees_of(v@) =~= seq![a@, b@]);
    }
    v
}

/// The normal form of a macro invocation.
pub fn normalize_macro(mac: &Macro, ctx: &mut NormalizationContext) -> (r: NormalizedNode)
    ensures
        (r@, final(ctx)@) == normal_macro(*mac, old(ctx)@),
    decreases mac,
{
    let n = mac.path.len();
    let name = if n > 0 {
        mac.path[n - 1].clone()
    } else {
        String::new()
    };
    proof {
        assert(name@ == macro_name(mac.path@));
    }
    if mac.tokens_empty {
        return NormalizedNode::leaf(NodeKind::MacroCall { name });
    }
    match &mac.body {
        Some(es) => {
            let children = normalize_exprs(es, ctx);
            NormalizedNode::with_children(NodeKind::MacroCall { name }, children)
        },
        None => NormalizedNode::node1(NodeKind::MacroCall { name }, NormalizedNode::leaf(NodeKind::Opaque)),
    }
}

/// The normal form of an expression.
pub fn normalize_expr(expr: &Expr, ctx: &mut NormalizationContext) -> (r: NormalizedNode)
    ensures
        (r@, final(ctx)@) == normal_expr(*expr, old(ctx)@),
    decreases expr,
{
    match expr {
        Expr::Lit(l) => normalize_lit(l),
        Expr::Path(segs) => {
            if segs.len() == 1 {
                normalize_expr_segment(&segs[0], ctx)
            } else {
                let ts = normalize_expr_segments(segs, ctx);
                NormalizedNode::with_children(NodeKind::Path, ts)
            }
        },
        Expr::Binary(op, l, r) => {
            let a = normalize_expr(l, ctx);
            let b = normalize_expr(r, ctx);
            NormalizedNode::node2(NodeKind::BinaryOp(normalize_bin_op(op)), a, b)
        },
        Expr::Unary(op, x) => {
            let a = normalize_expr(x, ctx);
            NormalizedNode::node1(NodeKind::UnaryOp(normalize_un_op(op)), a)
        },
        Expr::Call(f, args) => {
            let a = normalize_expr(f, ctx);
            let rest = normalize_exprs(args, ctx);
            node_with_prefix(NodeKind::Call, single(a), rest)
        },
        Expr::MethodCall { receiver, method, args } => {
            let idx = ctx.placeholder(method.as_str(), PlaceholderKind::Function);
            let a = normalize_expr(receiver, ctx);
            let rest = normalize_exprs(args, ctx);
            let m = NormalizedNode::leaf(NodeKind::Placeholder(PlaceholderKind::Function, idx));
            node_with_prefix(NodeKind::MethodCall, pair(a, m), rest)
        },
        Expr::Field(base, member) => {
            let name = member_to_string(member);
            let idx = ctx.placeholder(name.as_str(), PlaceholderKind::Variable);
            let a = normalize_expr(base, ctx);
            NormalizedNode::node2(
                NodeKind::FieldAccess,
                a,
                NormalizedNode::leaf(NodeKind::Placeholder(PlaceholderKind::Variable, idx)),
            )
        },
        Expr::Index(x, y) => {
            let a = normalize_expr(x, ctx);
            let b = normalize_expr(y, ctx);
            NormalizedNode::node2(NodeKind::Index, a, b)
        },
        Expr::Closure(cl) => normalize_closure(cl, ctx),
        Expr::Return(value) => match value {
            Some(x) => {
                let a = normalize_expr(x, ctx);
                NormalizedNode::node1(NodeKind::Return, a)
            },
            None => NormalizedNode::leaf(NodeKind::Return),
        },
        Expr::Break(value) => match value {
            Some(x) => {
                let a = normalize_expr(x, ctx);
                NormalizedNode::node1(NodeKind::Break, a)
            },
            None => NormalizedNode::leaf(NodeKind::Break),
        },
        Expr::Continue => NormalizedNode::leaf(NodeKind::Continue),
        Expr::Assign(x, y) => {
            let a = normalize_expr(x, ctx);
            let b = normalize_expr(y, ctx);
            NormalizedNode::node2(NodeKind::Assign, a, b)
        },
        Expr::Reference { mutable, expr } => {
            let a = normalize_expr(expr, ctx);
            NormalizedNode::node1(NodeKind::Reference { mutable: *mutable }, a)
        },
        Expr::Tuple(es) => {
            let ts = normalize_exprs(es, ctx);
            NormalizedNode::with_children(NodeKind::Tuple, ts)
        },
        Expr::Array(es) => {
            let ts = normalize_exprs(es, ctx);
            NormalizedNode::with_children(NodeKind::Array, ts)
        },
        Expr::Repeat(x, len) => {
            let a = normalize_expr(x, ctx);
            let b = normalize_expr(len, ctx);
            NormalizedNode::node2(NodeKind::Repeat, a, b)
        },
        Expr::Cast(x, ty) => {
            let a = normalize_expr(x, ctx);
            let b = normalize_type(ty, ctx);
            NormalizedNode::node2(NodeKind::Cast, a, b)
        },
        Expr::Struct { fields, rest } => {
            let a = normalize_opt(rest, ctx);
            let fs = normalize_fields(fields, ctx);
            node_with_prefix(NodeKind::StructInit, single(a), fs)
        },
        Expr::Await(x) => {
            let a = normalize_expr(x, ctx);
            NormalizedNode::node1(NodeKind::Await, a)
        },
        Expr::Try(x) => {
            let a = normalize_expr(x, ctx);
            NormalizedNode::node1(NodeKind::Try, a)
        },
        Expr::If { cond, then_branch, else_branch } => {
            let a = normalize_expr(cond, ctx);
            let b = normalize_block(then_branch, ctx);
            let d = normalize_opt(else_branch, ctx);
            NormalizedNode::node3(NodeKind::If, a, b, d)
        },
        Expr::Match { expr, arms } => {
            let a = normalize_expr(expr, ctx);
            let ts = normalize_arms(arms, ctx);
            node_with_prefix(NodeKind::Match, single(a), ts)
        },
        Expr::Loop(body) => {
            let a = normalize_block(body, ctx);
            NormalizedNode::node1(NodeKind::Loop, a)
        },
        Expr::While { cond, body } => {
            let a = normalize_expr(cond, ctx);
            let b = normalize_block(body, ctx);
            NormalizedNode::node2(NodeKind::While, a, b)
        },
        Expr::ForLoop { pat, expr, body } => {
            let a = normalize_pat(pat, ctx);
            let b = normalize_expr(expr, ctx);
            let d = normalize_block(body, ctx);
            NormalizedNode::node3(NodeKind::ForLoop, a, b, d)
        },
        Expr::Block(b) => normalize_block(b, ctx),
        Expr::Paren(x) => {
            let a = normalize_expr(x, ctx);
            NormalizedNode::node1(NodeKind::Paren, a)
        },
        Expr::Range { start, end } => {
            let a = normalize_opt(start, ctx);
            let b = normalize_opt(end, ctx);
            NormalizedNode::node2(NodeKind::Range, a, b)
        },
        Expr::Let { pat, expr } => {
            let a = normalize_pat(pat, ctx);
            let b = normalize_expr(expr, ctx);
            NormalizedNode::node2(NodeKind::LetExpr, a, b)
        },
        Expr::Macro(m) => normalize_macro(m, ctx),
        Expr::Group(x) => normalize_expr(x, ctx),
        Expr::Unsafe(b) => normalize_block(b, ctx),
        Expr::Const(b) => normalize_block(b, ctx),
        Expr::Other => NormalizedNode::leaf(NodeKind::Opaque),
    }
}

/// The normal form of a closure.
fn normalize_closure(cl: &ExprClosure, ctx: &mut NormalizationContext) -> (r: NormalizedNode)
    ensures
        (r@, final(ctx)@) == normal_closure(*cl, old(ctx)@),
    decreases cl,
{
    let a = normalize_expr(&cl.body, ctx);
    let rest = normalize_pats(&cl.inputs, ctx);
    node_with_prefix(NodeKind::Closure, single(a), rest)
}

/// The normal form of an optional expression, or the absent sentinel.
fn normalize_opt(o: &Option<Box<Expr>>, ctx: &mut NormalizationContext) -> (r: NormalizedNode)
    ensures
        (r@, final(ctx)@) == normal_opt(*o, old(ctx)@),
    decreases o,
{
    match o {
        Some(x) => normalize_expr(x, ctx),
        None => NormalizedNode::none(),
    }
}

/// The normal forms of expressions, left to right.
fn normalize_exprs(es: &Vec<Expr>, ctx: &mut NormalizationContext) -> (r: Vec<NormalizedNode>)
    ensures
        (trees_of(r@), final(ctx)@) == normal_exprs(es@, old(ctx)@),
    decreases es,
{
    let ghost c0 = ctx@;
    let mut out: Vec<NormalizedNode> = Vec::new();
    let n = es.len();
    for i in 0..n
        invariant
            n == es@.len(),
            (trees_of(out@), ctx@) == normal_exprs(es@.take(i as int), c0),
    {
        proof {
            assert(es@.take(i + 1).drop_last() =~= es@.take(i as int));
            assert(decreases_to!(es => es@[i as int]));
        }
        let t = normalize_expr(&es[i], ctx);
        proof {
            lemma_trees_of_push(out@, t);
        }
        out.push(t);
    }
    proof {
        assert(es@.take(n as int) =~= es@);
    }
    out
}

/// The fields of a struct literal.
fn normalize_fields(fs: &Vec<FieldValue>, ctx: &mut NormalizationContext) -> (r: Vec<
    NormalizedNode,
>)
    ensures
        (trees_of(r@), final(ctx)@) == normal_fields(fs@, old(ctx)@),
    decreases fs,
{
    let ghost c0 = ctx@;
    let mut out: Vec<NormalizedNode> = Vec::new();
    let n = fs.len();
    for i in 0..n
        invariant
            n == fs@.len(),
            (trees_of(out@), ctx@) == normal_fields(fs@.take(i as int), c0),
    {
        proof {
            assert(fs@.take(i + 1).drop_last() =~= fs@.take(i as int));
            assert(decreases_to!(fs => fs@[i as int]));
        }
        let f = &fs[i];
        let name = member_to_string(&f.member);
        let idx = ctx.placeholder(name.as_str(), PlaceholderKind::Variable);
        let v = normalize_expr(&f.expr, ctx);
        let t = NormalizedNode::node2(
            NodeKind::FieldValue,
            NormalizedNode::leaf(NodeKind::Placeholder(PlaceholderKind::Variable, idx)),
            v,
        );
        proof {
            lemma_trees_of_push(out@, t);
        }
        out.push(t);
    }
    proof {
        assert(fs@.take(n as int) =~= fs@);
    }
    out
}

/// The arms of a `match`.
fn normalize_arms(arms: &Vec<Arm>, ctx: &mut NormalizationContext) -> (r: Vec<NormalizedNode>)
    ensures
        (trees_of(r@), final(ctx)@) == normal_arms(arms@, old(ctx)@),
    decreases arms,
{
    let ghost c0 = ctx@;
    let mut out: Vec<NormalizedNode> = Vec::new();
    let n = arms.len();
    for i in 0..n
        invariant
            n == arms@.len(),
            (trees_of(out@), ctx@) == normal_arms(arms@.take(i as int), c0),
    {
        proof {
            assert(arms@.take(i + 1).drop_last() =~= arms@.take(i as int));
            assert(decreases_to!(arms => arms@[i as int]));
        }
        let arm = &arms[i];
        let p = normalize_pat(&arm.pat, ctx);
        let g = normalize_opt(&arm.guard, ctx);
        let b = normalize_expr(&arm.body, ctx);
        let t = NormalizedNode::node3(NodeKind::MatchArm, p, g, b);
        proof {
            lemma_trees_of_push(out@, t);
        }
        out.push(t);
    }
    proof {
        assert(arms@.take(n as int) =~= arms@);
    }
    out
}

/// The normal form of a block.
pub fn normalize_block(block: &Block, ctx: &mut NormalizationContext) -> (r: NormalizedNode)
    ensures
        (r@, final(ctx)@) == normal_block(*block, old(ctx)@),
    decreases block,
{
    let ts = normalize_stmts(&block.stmts, ctx);
    NormalizedNode::with_children(NodeKind::Block, ts)
}

/// The normal forms of statements, in order.
fn normalize_stmts(ss: &Vec<Stmt>, ctx: &mut NormalizationContext) -> (r: Vec<NormalizedNode>)
    ensures
        (trees_of(r@), final(ctx)@) == normal_stmts(ss@, old(ctx)@),
    decreases ss,
{
    let ghost c0 = ctx@;
    let mut out: Vec<NormalizedNode> = Vec::new();
    let n = ss.len();
    for i in 0..n
        invariant
            n == ss@.len(),
            (trees_of(out@), ctx@) == normal_stmts(ss@.take(i as int), c0),
    {
        proof {
            assert(ss@.take(i + 1).drop_last() =~= ss@.take(i as int));
            assert(decreases_to!(ss => ss@[i as int]));
        }
        let t = normalize_stmt(&ss[i], ctx);
        proof {
            lemma_trees_of_push(out@, t);
        }
        out.push(t);
    }
    proof {
        assert(ss@.take(n as int) =~= ss@);
    }
    out
}

/// The normal form of a statement.
pub fn normalize_stmt(stmt: &Stmt, ctx: &mut NormalizationContext) -> (r: NormalizedNode)
    ensures
        (r@, final(ctx)@) == normal_stmt(*stmt, old(ctx)@),
    decreases stmt,
{
    match stmt {
        Stmt::Local { pat, init } => {
            let p = normalize_pat(pat, ctx);
            match init {
                Some(li) => {
                    let x = normalize_expr(&li.expr, ctx);
                    let d = normalize_opt(&li.diverge, ctx);
                    NormalizedNode::node4(NodeKind::LetBinding, p, NormalizedNode::none(), x, d)
                },
                None => NormalizedNode::node4(
                    NodeKind::LetBinding,
                    p,
                    NormalizedNode::none(),
                    NormalizedNode::none(),
                    NormalizedNode::none(),
                ),
            }
        },
        Stmt::Expr(e, semi) => {
            let t = normalize_expr(e, ctx);
            if *semi {
                NormalizedNode::node1(NodeKind::Semi, t)
            } else {
                t
            }
        },
        Stmt::Item(_) => NormalizedNode::leaf(NodeKind::Opaque),
        Stmt::Macro(m, semi) => {
            let t = normalize_macro(m, ctx);
            if *semi {
                NormalizedNode::node1(NodeKind::Semi, t)
            } else {
                t
            }
        },
    }
}

/// The normal form of a pattern.
pub fn normalize_pat(pat: &Pat, ctx: &mut NormalizationContext) -> (r: NormalizedNode)
    ensures
        (r@, final(ctx)@) == normal_pat(*pat, old(ctx)@),
    decreases pat,
{
    match pat {
        Pat::Ident(name) => {
            let idx = ctx.placeholder(name.as_str(), PlaceholderKind::Variable);
            NormalizedNode::leaf(NodeKind::PatPlaceholder(PlaceholderKind::Variable, idx))
        },
        Pat::Wild => NormalizedNode::leaf(NodeKind::PatWild),
        Pat::Tuple(ps) => {
            let ts = normalize_pats(ps, ctx);
            NormalizedNode::with_children(NodeKind::PatTuple, ts)
        },
        Pat::TupleStruct(ps) => {
            let ts = normalize_pats(ps, ctx);
            NormalizedNode::with_children(NodeKind::PatStruct, ts)
        },
        Pat::Struct(fs) => {
            let ts = normalize_field_pats(fs, ctx);
            NormalizedNode::with_children(NodeKind::PatStruct, ts)
        },
        Pat::Or(ps) => {
            let ts = normalize_pats(ps, ctx);
            NormalizedNode::with_children(NodeKind::PatOr, ts)
        },
        Pat::Lit(l) => NormalizedNode::node1(NodeKind::PatLiteral, normalize_lit(l)),
        Pat::Reference { mutable, pat } => {
            let a = normalize_pat(pat, ctx);
            NormalizedNode::node1(NodeKind::PatReference { mutable: *mutable }, a)
        },
        Pat::Slice(ps) => {
            let ts = normalize_pats(ps, ctx);
            NormalizedNode::with_children(NodeKind::PatSlice, ts)
        },
        Pat::Rest => NormalizedNode::leaf(NodeKind::PatRest),
        Pat::Range { start, end } => {
            let a = normalize_opt(start, ctx);
            let b = normalize_opt(end, ctx);
            NormalizedNode::node2(NodeKind::PatRange, a, b)
        },
        Pat::Path(segs) => {
            if segs.len() == 1 {
                let idx = ctx.placeholder(segs[0].as_str(), PlaceholderKind::Variable);
                NormalizedNode::leaf(NodeKind::PatPlaceholder(PlaceholderKind::Variable, idx))
            } else {
                let ts = normalize_pat_segments(segs, ctx);
                NormalizedNode::with_children(NodeKind::PatStruct, ts)
            }
        },
        Pat::Type(inner) => normalize_pat(inner, ctx),
        Pat::Macro(m) => normalize_macro(m, ctx),
        Pat::Other => NormalizedNode::leaf(NodeKind::Opaque),
    }
}

/// The normal forms of patterns, in order.
fn normalize_pats(ps: &Vec<Pat>, ctx: &mut NormalizationContext) -> (r: Vec<NormalizedNode>)
    ensures
        (trees_of(r@), final(ctx)@) == normal_pats(ps@, old(ctx)@),
    decreases ps,
{
    let ghost c0 = ctx@;
    let mut out: Vec<NormalizedNode> = Vec::new();
    let n = ps.len();
    for i in 0..n
        invariant
            n == ps@.len(),
            (trees_of(out@), ctx@) == normal_pats(ps@.take(i as int), c0),
    {
        proof {
            assert(ps@.take(i + 1).drop_last() =~= ps@.take(i as int));
            assert(decreases_to!(ps => ps@[i as int]));
        }
        let t = normalize_pat(&ps[i], ctx);
        proof {
            lemma_trees_of_push(out@, t);
        }
        out.push(t);
    }
    proof {
        assert(ps@.take(n as int) =~= ps@);
    }
    out
}

/// The fields of a struct pattern.
fn normalize_field_pats(fs: &Vec<FieldPat>, ctx: &mut NormalizationContext) -> (r: Vec<
    NormalizedNode,
>)
    ensures
        (trees_of(r@), final(ctx)@) == normal_field_pats(fs@, old(ctx)@),
    decreases fs,
{
    let ghost c0 = ctx@;
    let mut out: Vec<NormalizedNode> = Vec::new();
    let n = fs.len();
    for i in 0..n
        invariant
            n == fs@.len(),
            (trees_of(out@), ctx@) == normal_field_pats(fs@.take(i as int), c0),
    {
        proof {
            assert(fs@.take(i + 1).drop_last() =~= fs@.take(i as int));
            assert(decreases_to!(fs => fs@[i as int]));
        }
        let f = &fs[i];
        let v = normalize_pat(&f.pat, ctx);
        let name = member_to_string(&f.member);
        let idx = ctx.placeholder(name.as_str(), PlaceholderKind::Variable);
        let t = NormalizedNode::node2(
            NodeKind::FieldValue,
            NormalizedNode::leaf(NodeKind::PatPlaceholder(PlaceholderKind::Variable, idx)),
            v,
        );
        proof {
            lemma_trees_of_push(out@, t);
        }
        out.push(t);
    }
    proof {
        assert(fs@.take(n as int) =~= fs@);
    }
    out
}

/// The normal form of a type.
pub fn normalize_type(ty: &Type, ctx: &mut NormalizationContext) -> (r: NormalizedNode)
    ensures
        (r@, final(ctx)@) == normal_type(*ty, old(ctx)@),
    decreases ty,
{
    match ty {
        Type::Path { qself, segments } => {
            if !*qself && segments.len() == 1 {
                let idx = ctx.placeholder(segments[0].as_str(), PlaceholderKind::Type);
                NormalizedNode::leaf(NodeKind::TypePlaceholder(PlaceholderKind::Type, idx))
            } else {
                let ts = normalize_type_segments(segments, ctx);
                NormalizedNode::with_children(NodeKind::TypePath, ts)
            }
        },
        Type::Reference { mutable, elem } => {
            let a = normalize_type(elem, ctx);
            NormalizedNode::node1(NodeKind::TypeReference { mutable: *mutable }, a)
        },
        Type::Tuple(ts) => {
            if ts.len() == 0 {
                NormalizedNode::leaf(NodeKind::TypeUnit)
            } else {
                let xs = normalize_types(ts, ctx);
                NormalizedNode::with_children(NodeKind::TypeTuple, xs)
            }
        },
        Type::Slice(elem) => {
            let a = normalize_type(elem, ctx);
            NormalizedNode::node1(NodeKind::TypeSlice, a)
        },
        Type::Array(elem, len) => {
            let a = normalize_type(elem, ctx);
            let b = normalize_expr(len, ctx);
            NormalizedNode::node2(NodeKind::TypeArray, a, b)
        },
        Type::ImplTrait(bounds) => {
            let ts = normalize_bounds(bounds, ctx);
            NormalizedNode::with_children(NodeKind::TypeImplTrait, ts)
        },
        Type::Infer => NormalizedNode::leaf(NodeKind::TypeInfer),
        Type::Never => NormalizedNode::leaf(NodeKind::TypeNever),
        Type::Paren(elem) => normalize_type(elem, ctx),
        Type::Macro(m) => normalize_macro(m, ctx),
        Type::Other => NormalizedNode::leaf(NodeKind::Opaque),
    }
}

/// The normal forms of types, in order.
fn normalize_types(ts: &Vec<Type>, ctx: &mut NormalizationContext) -> (r: Vec<NormalizedNode>)
    ensures
        (trees_of(r@), final(ctx)@) == normal_types(ts@, old(ctx)@),
    decreases ts,
{
    let ghost c0 = ctx@;
    let mut out: Vec<NormalizedNode> = Vec::new();
    let n = ts.len();
    for i in 0..n
        invariant
            n == ts@.len(),
            (trees_of(out@), ctx@) == normal_types(ts@.take(i as int), c0),
    {
        proof {
            assert(ts@.take(i + 1).drop_last() =~= ts@.take(i as int));
            assert(decreases_to!(ts => ts@[i as int]));
        }
        let t = normalize_type(&ts[i], ctx);
        proof {
            lemma_trees_of_push(out@, t);
        }
        out.push(t);
    }
    proof {
        assert(ts@.take(n as int) =~= ts@);
    }
    out
}

/// The normal form of a function parameter.
fn normalize_fn_arg(arg: &FnArg, ctx: &mut NormalizationContext) -> (r: NormalizedNode)
    ensures
        (r@, final(ctx)@) == normal_fn_arg(*arg, old(ctx)@),
{
    match arg {
        FnArg::Receiver { reference, mutable } => NormalizedNode::leaf(
            NodeKind::SelfParam { reference: *reference, mutable: *mutable },
        ),
        FnArg::Typed { pat, ty } => {
            let p = normalize_pat(pat, ctx);
            let t = normalize_type(ty, ctx);
            NormalizedNode::node2(NodeKind::Param, p, t)
        },
    }
}

/// The normal form of a signature.
fn normalize_signature(sig: &Signature, ctx: &mut NormalizationContext) -> (r: NormalizedNode)
    ensures
        (r@, final(ctx)@) == normal_signature(*sig, old(ctx)@),
{
    let ghost c0 = ctx@;
    let mut params: Vec<NormalizedNode> = Vec::new();
    let n = sig.inputs.len();
    for i in 0..n
        invariant
            n == sig.inputs@.len(),
            (trees_of(params@), ctx@) == normal_fn_args(sig.inputs@.take(i as int), c0),
    {
        proof {
            assert(sig.inputs@.take(i + 1).drop_last() =~= sig.inputs@.take(i as int));
        }
        let t = normalize_fn_arg(&sig.inputs[i], ctx);
        proof {
            lemma_trees_of_push(params@, t);
        }
        params.push(t);
    }
    proof {
        assert(sig.inputs@.take(n as int) =~= sig.inputs@);
    }
    let ret = match &sig.output {
        Some(t) => normalize_type(t, ctx),
        None => NormalizedNode::none(),
    };
    proof {
        lemma_trees_of_push(params@, ret);
    }
    params.push(ret);
    NormalizedNode::with_children(NodeKind::FnSignature, params)
}

/// The normal forms of a function's signature and body, numbered together
/// from a fresh context.
pub fn normalize_item_fn(item: &ItemFn) -> (r: (NormalizedNode, NormalizedNode))
    ensures
        (r.0@, r.1@) == normal_item_fn(*item),
{
    let mut ctx = NormalizationContext::new();
    let sig = normalize_signature(&item.sig, &mut ctx);
    let body = normalize_block(&item.block, &mut ctx);
    (sig, body)
}

/// The normal form of a closure, numbered from a fresh context.
pub fn normalize_closure_expr(closure: &ExprClosure) -> (r: NormalizedNode)
    ensures
        r@ == normal_closure(*closure, Seen::empty()).0,
{
    let mut ctx = NormalizationContext::new();
    normalize_closure(closure, &mut ctx)
}

} // verus!
