//! The code units of a Rust source file: its functions, the methods of its
//! `impl` blocks, and its closures, in the order in which a walk of the
//! syntax meets them.
use vstd::prelude::*;

use crate::code_unit::{CodeUnit, CodeUnitKind, UnitView};
use crate::config::AnalysisConfig;
use crate::fingerprint::{encode, hash_of_writes, sig_body_writes, Fingerprint};
use crate::grouper::unit_views;
use crate::node::{add_capped, capped, count_nodes_capped, lemma_capped_add, NodeKind, NormalizedNode};
use crate::reindex::Seen;
use crate::rust_normal_form::{leaf_of, normal_closure, normal_item_fn};
use crate::rust_normalizer::{normalize_closure_expr, normalize_item_fn};
use crate::rust_parse::{read_rust_file, rust_parse_error};
use crate::rust_syntax::{
    Arm, Attribute, Block, Expr, ExprClosure, FieldPat, FieldValue, FnArg, ImplItem, Item, SourceFile,
    ItemFn, ItemImpl, Pat, Stmt, TraitItem, Type,
};
use crate::text::{decimal, decimal_string, str_eq};

verus! {

/// Whether an optional identifier is the given one.
pub open spec fn is_named(o: Option<String>, name: Seq<char>) -> bool {
    o matches Some(s) && s@ == name
}

/// Whether the attributes hold `#[test]`.
pub open spec fn marks_test(attrs: Seq<Attribute>) -> bool {
    exists|i: int| 0 <= i < attrs.len() && is_named(#[trigger] attrs[i].ident, "test"@)
}

/// Whether the attributes hold `#[cfg(test)]`.
pub open spec fn marks_cfg_test(attrs: Seq<Attribute>) -> bool {
    exists|i: int|
        0 <= i < attrs.len() && is_named(#[trigger] attrs[i].ident, "cfg"@) && is_named(
            attrs[i].arg_ident,
            "test"@,
        )
}

/// Decides [`is_named`].
fn named(o: &Option<String>, name: &str) -> (r: bool)
    ensures
        r == is_named(*o, name@),
{
    match o {
        Some(s) => str_eq(s.as_str(), name),
        None => false,
    }
}

/// Whether the attributes hold `#[test]`.
pub fn has_test_attr(attrs: &Vec<Attribute>) -> (r: bool)
    ensures
        r == marks_test(attrs@),
{
    let n = attrs.len();
    for i in 0..n
        invariant
            n == attrs@.len(),
            forall|k: int| 0 <= k < i ==> !is_named(#[trigger] attrs@[k].ident, "test"@),
    {
        if named(&attrs[i].ident, "test") {
            return true;
        }
    }
    false
}

/// Whether the attributes hold `#[cfg(test)]`.
pub fn has_cfg_test_attr(attrs: &Vec<Attribute>) -> (r: bool)
    ensures
        r == marks_cfg_test(attrs@),
{
    let n = attrs.len();
    for i in 0..n
        invariant
            n == attrs@.len(),
            forall|k: int|
                0 <= k < i ==> !(is_named(#[trigger] attrs@[k].ident, "cfg"@) && is_named(
                    attrs@[k].arg_ident,
                    "test"@,
                )),
    {
        if named(&attrs[i].ident, "cfg") && named(&attrs[i].arg_ident, "test") {
            return true;
        }
    }
    false
}

/// The identifiers of a path joined by `::`.
pub open spec fn path_text(segs: Seq<String>) -> Seq<char>
    decreases segs.len(),
{
    if segs.len() == 0 {
        Seq::empty()
    } else if segs.len() == 1 {
        segs[0]@
    } else {
        path_text(segs.drop_last()) + "::"@ + segs[segs.len() - 1]@
    }
}

/// The name of a type as unit names show it: its path, or `Unknown`.
pub open spec fn type_label(t: Type) -> Seq<char> {
    match t {
        Type::Path { segments, .. } => path_text(segments@),
        _ => "Unknown"@,
    }
}

/// The name of a method: `Type::method`, or `<Type as Trait>::method` in a
/// trait implementation.
pub open spec fn method_name(imp: ItemImpl, method: Seq<char>) -> Seq<char> {
    match imp.trait_path {
        Some(p) => "<"@ + type_label(imp.self_ty) + " as "@ + path_text(p@) + ">::"@ + method,
        None => type_label(imp.self_ty) + "::"@ + method,
    }
}

/// The name of a closure: where it starts.
pub open spec fn closure_name(file: Seq<char>, line: nat) -> Seq<char> {
    "closure at "@ + file + ":"@ + decimal(line)
}

/// The last line of a closure: the end of its body, or its first line when
/// that is not known.
pub open spec fn closure_line_end(cl: ExprClosure) -> nat {
    match *cl.body {
        Expr::Block(_) => cl.body_end_line as nat,
        _ => if cl.body_end_line > 0 {
            cl.body_end_line as nat
        } else {
            cl.line_start as nat
        },
    }
}

/// The unit of a function or method.
pub open spec fn fn_unit(
    kind: CodeUnitKind,
    name: Seq<char>,
    f: ItemFn,
    file: Seq<char>,
    is_test: bool,
) -> UnitView {
    let (sig, body) = normal_item_fn(f);
    UnitView {
        kind,
        name,
        file,
        line_start: f.line_start as nat,
        line_end: f.line_end as nat,
        signature: sig,
        body,
        fingerprint: Fingerprint(hash_of_writes(sig_body_writes(sig, body))),
        node_count: capped(sig.size() + body.size()),
        parent_name: None,
        is_test,
    }
}

/// The unit of a closure: an opaque signature and the closure's normal
/// form as its body.
pub open spec fn closure_unit(cl: ExprClosure, file: Seq<char>, is_test: bool) -> UnitView {
    let body = normal_closure(cl, Seen::empty()).0;
    UnitView {
        kind: CodeUnitKind::Closure,
        name: closure_name(file, cl.line_start as nat),
        file,
        line_start: cl.line_start as nat,
        line_end: closure_line_end(cl),
        signature: leaf_of(NodeKind::Opaque),
        body,
        fingerprint: Fingerprint(hash_of_writes(seq![encode(body)])),
        node_count: capped(body.size()),
        parent_name: None,
        is_test,
    }
}

/// Whether a unit is large enough: at least the minimum of nodes, and at
/// least the minimum of lines when there is one.
pub open spec fn kept(u: UnitView, min_nodes: nat, min_lines: nat) -> bool {
    u.node_count >= min_nodes && (min_lines == 0 || u.line_count() >= min_lines)
}

/// Finds the code units of one file, keeping those large enough.
pub struct CodeUnitExtractor {
    pub file: String,
    pub min_node_count: usize,
    pub min_line_count: usize,
}

impl CodeUnitExtractor {
    /// The units found so far, with `u` once it is kept.
    pub open spec fn keep(self, acc: Seq<UnitView>, u: UnitView) -> Seq<UnitView> {
        if kept(u, self.min_node_count as nat, self.min_line_count as nat) {
            acc.push(u)
        } else {
            acc
        }
    }

    /// The units of items, in order.
    pub open spec fn visit_items(self, items: Seq<Item>, t: bool, acc: Seq<UnitView>) -> Seq<
        UnitView,
    >
        decreases items,
    {
        if items.len() == 0 {
            acc
        } else {
            let acc1 = self.visit_items(items.drop_last(), t, acc);
            self.visit_item(items[items.len() - 1], t, acc1)
        }
    }

    /// The units of an item. A function is a unit, tested when it or the
    /// code around it is marked as test code, and its closures and nested
    /// items follow it. A module marked `#[cfg(test)]` makes its contents
    /// test code. The methods of an `impl` block are units, each followed
    /// by the units inside it.
    pub open spec fn visit_item(self, item: Item, t: bool, acc: Seq<UnitView>) -> Seq<UnitView>
        decreases item,
    {
        match item {
            Item::Fn(f) => {
                let is_test = t || marks_test(f.attrs@) || marks_cfg_test(f.attrs@);
                let acc1 = self.keep(
                    acc,
                    fn_unit(CodeUnitKind::Function, f.sig.ident@, f, self.file@, is_test),
                );
                self.visit_fn(f, is_test, acc1)
            },
            Item::Mod(m) => match m.content {
                Some(items) => self.visit_items(items@, t || marks_cfg_test(m.attrs@), acc),
                None => acc,
            },
            Item::Impl(imp) => self.impl_units(
                imp,
                imp.items@,
                t || marks_cfg_test(imp.attrs@),
                acc,
            ),
            Item::Trait(tis) => self.trait_units(tis@, t, acc),
            Item::Other(es) => self.visit_exprs(es@, t, acc),
        }
    }

    /// The units inside the given items of a trait: those in the default
    /// bodies of its methods and the default values of its constants. An
    /// item without a default holds none.
    pub open spec fn trait_units(self, items: Seq<TraitItem>, t: bool, acc: Seq<UnitView>) -> Seq<
        UnitView,
    >
        decreases items,
    {
        if items.len() == 0 {
            acc
        } else {
            let acc1 = self.trait_units(items.drop_last(), t, acc);
            match items[items.len() - 1] {
                TraitItem::Fn(Some(b)) => self.visit_block(b, t, acc1),
                TraitItem::Const(Some(e)) => self.visit_expr(e, t, acc1),
                _ => acc1,
            }
        }
    }

    /// The units of the given items of an `impl` block: each method is a
    /// unit, followed by the units inside it.
    pub open spec fn impl_units(self, imp: ItemImpl, items: Seq<ImplItem>, t: bool, acc: Seq<UnitView>) -> Seq<
        UnitView,
    >
        decreases items,
    {
        if items.len() == 0 {
            acc
        } else {
            let acc1 = self.impl_units(imp, items.drop_last(), t, acc);
            match items[items.len() - 1] {
                ImplItem::Fn(m) => {
                    let kind = if imp.trait_path is Some {
                        CodeUnitKind::TraitImplBlock
                    } else {
                        CodeUnitKind::Method
                    };
                    self.visit_fn(
                        m,
                        t,
                        self.keep(acc1, fn_unit(kind, method_name(imp, m.sig.ident@), m, self.file@, t)),
                    )
                },
                ImplItem::Other => acc1,
            }
        }
    }

    /// The units inside a function: in its parameters, its return type and
    /// its body.
    pub open spec fn visit_fn(self, f: ItemFn, t: bool, acc: Seq<UnitView>) -> Seq<UnitView>
        decreases f,
    {
        let acc1 = self.visit_fn_args(f.sig.inputs@, t, acc);
        let acc2 = match f.sig.output {
            Some(ty) => self.visit_type(*ty, t, acc1),
            None => acc1,
        };
        self.visit_block(f.block, t, acc2)
    }

    /// The units inside function parameters.
    pub open spec fn visit_fn_args(self, args: Seq<FnArg>, t: bool, acc: Seq<UnitView>) -> Seq<
        UnitView,
    >
        decreases args,
    {
        if args.len() == 0 {
            acc
        } else {
            let acc1 = self.visit_fn_args(args.drop_last(), t, acc);
            match args[args.len() - 1] {
                FnArg::Typed { pat, ty } => {
                    let acc2 = self.visit_pat(pat, t, acc1);
                    self.visit_type(ty, t, acc2)
                },
                FnArg::Receiver { .. } => acc1,
            }
        }
    }

    /// The units inside an expression: each closure is a unit, followed by
    /// the units inside it. Macro arguments are not looked into.
    pub open spec fn visit_expr(self, e: Expr, t: bool, acc: Seq<UnitView>) -> Seq<UnitView>
        decreases e,
    {
        match e {
            Expr::Binary(_, l, r) => self.visit_expr(*r, t, self.visit_expr(*l, t, acc)),
            Expr::Unary(_, x) => self.visit_expr(*x, t, acc),
            Expr::Call(f, args) => self.visit_exprs(args@, t, self.visit_expr(*f, t, acc)),
            Expr::MethodCall { receiver, args, .. } => self.visit_exprs(
                args@,
                t,
                self.visit_expr(*receiver, t, acc),
            ),
            Expr::Field(base, _) => self.visit_expr(*base, t, acc),
            Expr::Index(x, y) => self.visit_expr(*y, t, self.visit_expr(*x, t, acc)),
            Expr::Closure(cl) => self.visit_closure(cl, t, acc),
            Expr::Return(value) => self.visit_opt(value, t, acc),
            Expr::Break(value) => self.visit_opt(value, t, acc),
            Expr::Assign(x, y) => self.visit_expr(*y, t, self.visit_expr(*x, t, acc)),
            Expr::Reference { expr, .. } => self.visit_expr(*expr, t, acc),
            Expr::Tuple(es) => self.visit_exprs(es@, t, acc),
            Expr::Array(es) => self.visit_exprs(es@, t, acc),
            Expr::Repeat(x, len) => self.visit_expr(*len, t, self.visit_expr(*x, t, acc)),
            Expr::Cast(x, ty) => self.visit_type(*ty, t, self.visit_expr(*x, t, acc)),
            Expr::Struct { fields, rest } => self.visit_opt(
                rest,
                t,
                self.visit_fields(fields@, t, acc),
            ),
            Expr::Await(x) => self.visit_expr(*x, t, acc),
            Expr::Try(x) => self.visit_expr(*x, t, acc),
            Expr::If { cond, then_branch, else_branch } => self.visit_opt(
                else_branch,
                t,
                self.visit_block(then_branch, t, self.visit_expr(*cond, t, acc)),
            ),
            Expr::Match { expr, arms } => self.visit_arms(arms@, t, self.visit_expr(*expr, t, acc)),
            Expr::Loop(body) => self.visit_block(body, t, acc),
            Expr::While { cond, body } => self.visit_block(body, t, self.visit_expr(*cond, t, acc)),
            Expr::ForLoop { pat, expr, body } => self.visit_block(
                body,
                t,
                self.visit_expr(*expr, t, self.visit_pat(*pat, t, acc)),
            ),
            Expr::Block(b) => self.visit_block(b, t, acc),
            Expr::Paren(x) => self.visit_expr(*x, t, acc),
            Expr::Range { start, end } => self.visit_opt(end, t, self.visit_opt(start, t, acc)),
            Expr::Let { pat, expr } => self.visit_expr(*expr, t, self.visit_pat(*pat, t, acc)),
            Expr::Group(x) => self.visit_expr(*x, t, acc),
            Expr::Unsafe(b) => self.visit_block(b, t, acc),
            Expr::Const(b) => self.visit_block(b, t, acc),
            _ => acc,
        }
    }

    /// A closure's unit, then the units inside its parameters and body.
    pub open spec fn visit_closure(self, cl: ExprClosure, t: bool, acc: Seq<UnitView>) -> Seq<
        UnitView,
    >
        decreases cl,
    {
        let acc1 = self.keep(acc, closure_unit(cl, self.file@, t));
        let acc2 = self.visit_pats(cl.inputs@, t, acc1);
        self.visit_expr(*cl.body, t, acc2)
    }

    /// The units inside an optional expression.
    pub open spec fn visit_opt(self, o: Option<Box<Expr>>, t: bool, acc: Seq<UnitView>) -> Seq<
        UnitView,
    >
        decreases o,
    {
        match o {
            Some(x) => self.visit_expr(*x, t, acc),
            None => acc,
        }
    }

    /// The units inside expressions, in order.
    pub open spec fn visit_exprs(self, es: Seq<Expr>, t: bool, acc: Seq<UnitView>) -> Seq<UnitView>
        decreases es,
    {
        if es.len() == 0 {
            acc
        } else {
            let acc1 = self.visit_exprs(es.drop_last(), t, acc);
            self.visit_expr(es[es.len() - 1], t, acc1)
        }
    }

    /// The units inside the fields of a struct literal.
    pub open spec fn visit_fields(self, fs: Seq<FieldValue>, t: bool, acc: Seq<UnitView>) -> Seq<
        UnitView,
    >
        decreases fs,
    {
        if fs.len() == 0 {
            acc
        } else {
            let acc1 = self.visit_fields(fs.drop_last(), t, acc);
            self.visit_expr(fs[fs.len() - 1].expr, t, acc1)
        }
    }

    /// The units inside the arms of a `match`.
    pub open spec fn visit_arms(self, arms: Seq<Arm>, t: bool, acc: Seq<UnitView>) -> Seq<UnitView>
        decreases arms,
    {
        if arms.len() == 0 {
            acc
        } else {
            let acc1 = self.visit_arms(arms.drop_last(), t, acc);
            let arm = arms[arms.len() - 1];
            let acc2 = self.visit_pat(arm.pat, t, acc1);
            let acc3 = self.visit_opt(arm.guard, t, acc2);
            self.visit_expr(*arm.body, t, acc3)
        }
    }

    /// The units inside a block.
    pub open spec fn visit_block(self, b: Block, t: bool, acc: Seq<UnitView>) -> Seq<UnitView>
        decreases b,
    {
        self.visit_stmts(b.stmts@, t, acc)
    }

    /// The units inside statements, in order.
    pub open spec fn visit_stmts(self, ss: Seq<Stmt>, t: bool, acc: Seq<UnitView>) -> Seq<UnitView>
        decreases ss,
    {
        if ss.len() == 0 {
            acc
        } else {
            let acc1 = self.visit_stmts(ss.drop_last(), t, acc);
            self.visit_stmt(ss[ss.len() - 1], t, acc1)
        }
    }

    /// The units inside a statement; a nested item is visited as an item.
    pub open spec fn visit_stmt(self, s: Stmt, t: bool, acc: Seq<UnitView>) -> Seq<UnitView>
        decreases s,
    {
        match s {
            Stmt::Local { pat, init } => {
                let acc1 = self.visit_pat(pat, t, acc);
                match init {
                    Some(li) => self.visit_opt(li.diverge, t, self.visit_expr(*li.expr, t, acc1)),
                    None => acc1,
                }
            },
            Stmt::Expr(e, _) => self.visit_expr(e, t, acc),
            Stmt::Item(item) => self.visit_item(item, t, acc),
            Stmt::Macro(..) => acc,
        }
    }

    /// The units inside a pattern.
    pub open spec fn visit_pat(self, p: Pat, t: bool, acc: Seq<UnitView>) -> Seq<UnitView>
        decreases p,
    {
        match p {
            Pat::Tuple(ps) => self.visit_pats(ps@, t, acc),
            Pat::TupleStruct(ps) => self.visit_pats(ps@, t, acc),
            Pat::Struct(fs) => self.visit_field_pats(fs@, t, acc),
            Pat::Or(ps) => self.visit_pats(ps@, t, acc),
            Pat::Reference { pat, .. } => self.visit_pat(*pat, t, acc),
            Pat::Slice(ps) => self.visit_pats(ps@, t, acc),
            Pat::Range { start, end } => self.visit_opt(end, t, self.visit_opt(start, t, acc)),
            Pat::Type(inner) => self.visit_pat(*inner, t, acc),
            _ => acc,
        }
    }

    /// The units inside patterns, in order.
    pub open spec fn visit_pats(self, ps: Seq<Pat>, t: bool, acc: Seq<UnitView>) -> Seq<UnitView>
        decreases ps,
    {
        if ps.len() == 0 {
            acc
        } else {
            let acc1 = self.visit_pats(ps.drop_last(), t, acc);
            self.visit_pat(ps[ps.len() - 1], t, acc1)
        }
    }

    /// The units inside the fields of a struct pattern.
    pub open spec fn visit_field_pats(self, fs: Seq<FieldPat>, t: bool, acc: Seq<UnitView>) -> Seq<
        UnitView,
    >
        decreases fs,
    {
        if fs.len() == 0 {
            acc
        } else {
            let acc1 = self.visit_field_pats(fs.drop_last(), t, acc);
            self.visit_pat(fs[fs.len() - 1].pat, t, acc1)
        }
    }

    /// The units inside a type: in the length of an array type.
    pub open spec fn visit_type(self, ty: Type, t: bool, acc: Seq<UnitView>) -> Seq<UnitView>
        decreases ty,
    {
        match ty {
            Type::Reference { elem, .. } => self.visit_type(*elem, t, acc),
            Type::Tuple(ts) => self.visit_types(ts@, t, acc),
            Type::Slice(elem) => self.visit_type(*elem, t, acc),
            Type::Array(elem, len) => self.visit_expr(*len, t, self.visit_type(*elem, t, acc)),
            Type::Paren(elem) => self.visit_type(*elem, t, acc),
            _ => acc,
        }
    }

    /// The units inside types, in order.
    pub open spec fn visit_types(self, ts: Seq<Type>, t: bool, acc: Seq<UnitView>) -> Seq<UnitView>
        decreases ts,
    {
        if ts.len() == 0 {
            acc
        } else {
            let acc1 = self.visit_types(ts.drop_last(), t, acc);
            self.visit_type(ts[ts.len() - 1], t, acc1)
        }
    }
}

/// `res` is `acc` with units added after it, test units only when `t`.
pub open spec fn extends(acc: Seq<UnitView>, res: Seq<UnitView>, t: bool) -> bool {
    &&& acc.len() <= res.len()
    &&& forall|k: int| 0 <= k < acc.len() ==> #[trigger] res[k] == acc[k]
    &&& t ==> forall|k: int| acc.len() <= k < res.len() ==> (#[trigger] res[k]).is_test
}

/// `res` is `acc` with only test units after it.
pub open spec fn tested_after(acc: Seq<UnitView>, res: Seq<UnitView>) -> bool {
    extends(acc, res, true)
}

proof fn lemma_tested_trans(a: Seq<UnitView>, b: Seq<UnitView>, c: Seq<UnitView>, t1: bool, t2: bool)
    requires
        extends(a, b, t1),
        extends(b, c, t2),
    ensures
        extends(a, c, t1 && t2),
{
    assert forall|k: int| 0 <= k < a.len() implies #[trigger] c[k] == a[k] by {
        assert(c[k] == b[k]);
    }
    if t1 && t2 {
        assert forall|k: int| a.len() <= k < c.len() implies (#[trigger] c[k]).is_test by {
            if k < b.len() {
                assert(c[k] == b[k]);
            }
        }
    }
}

impl CodeUnitExtractor {
    proof fn lemma_keep_tested(self, acc: Seq<UnitView>, u: UnitView)
        ensures
            extends(acc, self.keep(acc, u), u.is_test),
    {
        let r = self.keep(acc, u);
        assert forall|k: int| 0 <= k < acc.len() implies #[trigger] r[k] == acc[k] by {}
    }

    proof fn lemma_items_tested(self, items: Seq<Item>, t: bool, acc: Seq<UnitView>)
        ensures
            extends(acc, self.visit_items(items, t, acc), t),
        decreases items,
    {
        if items.len() == 0 {
        } else {
            let acc1 = self.visit_items(items.drop_last(), t, acc);
            self.lemma_items_tested(items.drop_last(), t, acc);
            self.lemma_item_tested(items[items.len() - 1], t, acc1);
            lemma_tested_trans(acc, acc1, self.visit_items(items, t, acc), t, t);
        }
    }

    proof fn lemma_item_tested(self, item: Item, t: bool, acc: Seq<UnitView>)
        ensures
            extends(acc, self.visit_item(item, t, acc), t),
        decreases item,
    {
        match item {
            Item::Fn(f) => {
                let is_test = t || marks_test(f.attrs@) || marks_cfg_test(f.attrs@);
                let u = fn_unit(CodeUnitKind::Function, f.sig.ident@, f, self.file@, is_test);
                let acc1 = self.keep(acc, u);
                self.lemma_keep_tested(acc, u);
                self.lemma_fn_tested(f, is_test, acc1);
                lemma_tested_trans(acc, acc1, self.visit_fn(f, is_test, acc1), is_test, is_test);
            },
            Item::Mod(m) => match m.content {
                Some(items) => self.lemma_items_tested(items@, t || marks_cfg_test(m.attrs@), acc),
                None => {},
            },
            Item::Impl(imp) => self.lemma_impl_tested(imp, imp.items@, t || marks_cfg_test(imp.attrs@), acc),
            Item::Trait(tis) => self.lemma_trait_tested(tis@, t, acc),
            Item::Other(es) => self.lemma_exprs_tested(es@, t, acc),
        }
    }

    proof fn lemma_trait_tested(self, items: Seq<TraitItem>, t: bool, acc: Seq<UnitView>)
        ensures
            extends(acc, self.trait_units(items, t, acc), t),
        decreases items,
    {
        if items.len() > 0 {
            let acc1 = self.trait_units(items.drop_last(), t, acc);
            self.lemma_trait_tested(items.drop_last(), t, acc);
            match items[items.len() - 1] {
                TraitItem::Fn(Some(b)) => self.lemma_block_tested(b, t, acc1),
                TraitItem::Const(Some(e)) => self.lemma_expr_tested(e, t, acc1),
                _ => {},
            }
            lemma_tested_trans(acc, acc1, self.trait_units(items, t, acc), t, t);
        }
    }

    proof fn lemma_impl_tested(self, imp: ItemImpl, items: Seq<ImplItem>, t: bool, acc: Seq<UnitView>)
        ensures
            extends(acc, self.impl_units(imp, items, t, acc), t),
        decreases items,
    {
        if items.len() > 0 {
            let acc1 = self.impl_units(imp, items.drop_last(), t, acc);
            self.lemma_impl_tested(imp, items.drop_last(), t, acc);
            match items[items.len() - 1] {
                ImplItem::Fn(m) => {
                    let kind = if imp.trait_path is Some {
                        CodeUnitKind::TraitImplBlock
                    } else {
                        CodeUnitKind::Method
                    };
                    let u = fn_unit(kind, method_name(imp, m.sig.ident@), m, self.file@, t);
                    let acc2 = self.keep(acc1, u);
                    self.lemma_keep_tested(acc1, u);
                    self.lemma_fn_tested(m, t, acc2);
                    lemma_tested_trans(acc1, acc2, self.visit_fn(m, t, acc2), t, t);
                },
                ImplItem::Other => {},
            }
            lemma_tested_trans(acc, acc1, self.impl_units(imp, items, t, acc), t, t);
        }
    }

    proof fn lemma_fn_tested(self, f: ItemFn, t: bool, acc: Seq<UnitView>)
        ensures
            extends(acc, self.visit_fn(f, t, acc), t),
        decreases f,
    {
        let acc1 = self.visit_fn_args(f.sig.inputs@, t, acc);
        self.lemma_fn_args_tested(f.sig.inputs@, t, acc);
        let acc2 = match f.sig.output {
            Some(ty) => self.visit_type(*ty, t, acc1),
            None => acc1,
        };
        match f.sig.output {
            Some(ty) => self.lemma_type_tested(*ty, t, acc1),
            None => {},
        }
        lemma_tested_trans(acc, acc1, acc2, t, t);
        self.lemma_block_tested(f.block, t, acc2);
        lemma_tested_trans(acc, acc2, self.visit_fn(f, t, acc), t, t);
    }

    proof fn lemma_fn_args_tested(self, args: Seq<FnArg>, t: bool, acc: Seq<UnitView>)
        ensures
            extends(acc, self.visit_fn_args(args, t, acc), t),
        decreases args,
    {
        if args.len() > 0 {
            let acc1 = self.visit_fn_args(args.drop_last(), t, acc);
            self.lemma_fn_args_tested(args.drop_last(), t, acc);
            match args[args.len() - 1] {
                FnArg::Typed { pat, ty } => {
                    let acc2 = self.visit_pat(pat, t, acc1);
                    self.lemma_pat_tested(pat, t, acc1);
                    self.lemma_type_tested(ty, t, acc2);
                    lemma_tested_trans(acc1, acc2, self.visit_type(ty, t, acc2), t, t);
                },
                FnArg::Receiver { .. } => {},
            }
            lemma_tested_trans(acc, acc1, self.visit_fn_args(args, t, acc), t, t);
        }
    }

    proof fn lemma_expr_tested(self, e: Expr, t: bool, acc: Seq<UnitView>)
        ensures
            extends(acc, self.visit_expr(e, t, acc), t),
        decreases e,
    {
        let res = self.visit_expr(e, t, acc);
        match e {
            Expr::Binary(_, l, r) => {
                self.lemma_expr_tested(*l, t, acc);
                self.lemma_expr_tested(*r, t, self.visit_expr(*l, t, acc));
                lemma_tested_trans(acc, self.visit_expr(*l, t, acc), res, t, t);
            },
            Expr::Unary(_, x) => self.lemma_expr_tested(*x, t, acc),
            Expr::Call(f, args) => {
                let a1 = self.visit_expr(*f, t, acc);
                self.lemma_expr_tested(*f, t, acc);
                self.lemma_exprs_tested(args@, t, a1);
                lemma_tested_trans(acc, a1, res, t, t);
            },
            Expr::MethodCall { receiver, args, .. } => {
                let a1 = self.visit_expr(*receiver, t, acc);
                self.lemma_expr_tested(*receiver, t, acc);
                self.lemma_exprs_tested(args@, t, a1);
                lemma_tested_trans(acc, a1, res, t, t);
            },
            Expr::Field(base, _) => self.lemma_expr_tested(*base, t, acc),
            Expr::Index(x, y) => {
                let a1 = self.visit_expr(*x, t, acc);
                self.lemma_expr_tested(*x, t, acc);
                self.lemma_expr_tested(*y, t, a1);
                lemma_tested_trans(acc, a1, res, t, t);
            },
            Expr::Closure(cl) => self.lemma_closure_tested(cl, t, acc),
            Expr::Return(value) => self.lemma_opt_tested(value, t, acc),
            Expr::Break(value) => self.lemma_opt_tested(value, t, acc),
            Expr::Assign(x, y) => {
                let a1 = self.visit_expr(*x, t, acc);
                self.lemma_expr_tested(*x, t, acc);
                self.lemma_expr_tested(*y, t, a1);
                lemma_tested_trans(acc, a1, res, t, t);
            },
            Expr::Reference { expr, .. } => self.lemma_expr_tested(*expr, t, acc),
            Expr::Tuple(es) => self.lemma_exprs_tested(es@, t, acc),
            Expr::Array(es) => self.lemma_exprs_tested(es@, t, acc),
            Expr::Repeat(x, len) => {
                let a1 = self.visit_expr(*x, t, acc);
                self.lemma_expr_tested(*x, t, acc);
                self.lemma_expr_tested(*len, t, a1);
                lemma_tested_trans(acc, a1, res, t, t);
            },
            Expr::Cast(x, ty) => {
                let a1 = self.visit_expr(*x, t, acc);
                self.lemma_expr_tested(*x, t, acc);
                self.lemma_type_tested(*ty, t, a1);
                lemma_tested_trans(acc, a1, res, t, t);
            },
            Expr::Struct { fields, rest } => {
                let a1 = self.visit_fields(fields@, t, acc);
                self.lemma_fields_tested(fields@, t, acc);
                self.lemma_opt_tested(rest, t, a1);
                lemma_tested_trans(acc, a1, res, t, t);
            },
            Expr::Await(x) => self.lemma_expr_tested(*x, t, acc),
            Expr::Try(x) => self.lemma_expr_tested(*x, t, acc),
            Expr::If { cond, then_branch, else_branch } => {
                let a1 = self.visit_expr(*cond, t, acc);
                self.lemma_expr_tested(*cond, t, acc);
                let a2 = self.visit_block(then_branch, t, a1);
                self.lemma_block_tested(then_branch, t, a1);
                lemma_tested_trans(acc, a1, a2, t, t);
                self.lemma_opt_tested(else_branch, t, a2);
                lemma_tested_trans(acc, a2, res, t, t);
            },
            Expr::Match { expr, arms } => {
                let a1 = self.visit_expr(*expr, t, acc);
                self.lemma_expr_tested(*expr, t, acc);
                self.lemma_arms_tested(arms@, t, a1);
                lemma_tested_trans(acc, a1, res, t, t);
            },
            Expr::Loop(body) => self.lemma_block_tested(body, t, acc),
            Expr::While { cond, body } => {
                let a1 = self.visit_expr(*cond, t, acc);
                self.lemma_expr_tested(*cond, t, acc);
                self.lemma_block_tested(body, t, a1);
                lemma_tested_trans(acc, a1, res, t, t);
            },
            Expr::ForLoop { pat, expr, body } => {
                let a1 = self.visit_pat(*pat, t, acc);
                self.lemma_pat_tested(*pat, t, acc);
                let a2 = self.visit_expr(*expr, t, a1);
                self.lemma_expr_tested(*expr, t, a1);
                lemma_tested_trans(acc, a1, a2, t, t);
                self.lemma_block_tested(body, t, a2);
                lemma_tested_trans(acc, a2, res, t, t);
            },
            Expr::Block(b) => self.lemma_block_tested(b, t, acc),
            Expr::Paren(x) => self.lemma_expr_tested(*x, t, acc),
            Expr::Range { start, end } => {
                let a1 = self.visit_opt(start, t, acc);
                self.lemma_opt_tested(start, t, acc);
                self.lemma_opt_tested(end, t, a1);
                lemma_tested_trans(acc, a1, res, t, t);
            },
            Expr::Let { pat, expr } => {
                let a1 = self.visit_pat(*pat, t, acc);
                self.lemma_pat_tested(*pat, t, acc);
                self.lemma_expr_tested(*expr, t, a1);
                lemma_tested_trans(acc, a1, res, t, t);
            },
            Expr::Group(x) => self.lemma_expr_tested(*x, t, acc),
            Expr::Unsafe(b) => self.lemma_block_tested(b, t, acc),
            Expr::Const(b) => self.lemma_block_tested(b, t, acc),
            _ => {},
        }
    }

    proof fn lemma_closure_tested(self, cl: ExprClosure, t: bool, acc: Seq<UnitView>)
        ensures
            extends(acc, self.visit_closure(cl, t, acc), t),
        decreases cl,
    {
        let u = closure_unit(cl, self.file@, t);
        let acc1 = self.keep(acc, u);
        self.lemma_keep_tested(acc, u);
        let acc2 = self.visit_pats(cl.inputs@, t, acc1);
        self.lemma_pats_tested(cl.inputs@, t, acc1);
        lemma_tested_trans(acc, acc1, acc2, t, t);
        self.lemma_expr_tested(*cl.body, t, acc2);
        lemma_tested_trans(acc, acc2, self.visit_closure(cl, t, acc), t, t);
    }

    proof fn lemma_opt_tested(self, o: Option<Box<Expr>>, t: bool, acc: Seq<UnitView>)
        ensures
            extends(acc, self.visit_opt(o, t, acc), t),
        decreases o,
    {
        match o {
            Some(x) => self.lemma_expr_tested(*x, t, acc),
            None => {},
        }
    }

    proof fn lemma_exprs_tested(self, es: Seq<Expr>, t: bool, acc: Seq<UnitView>)
        ensures
            extends(acc, self.visit_exprs(es, t, acc), t),
        decreases es,
    {
        if es.len() > 0 {
            let acc1 = self.visit_exprs(es.drop_last(), t, acc);
            self.lemma_exprs_tested(es.drop_last(), t, acc);
            self.lemma_expr_tested(es[es.len() - 1], t, acc1);
            lemma_tested_trans(acc, acc1, self.visit_exprs(es, t, acc), t, t);
        }
    }

    proof fn lemma_fields_tested(self, fs: Seq<FieldValue>, t: bool, acc: Seq<UnitView>)
        ensures
            extends(acc, self.visit_fields(fs, t, acc), t),
        decreases fs,
    {
        if fs.len() > 0 {
            let acc1 = self.visit_fields(fs.drop_last(), t, acc);
            self.lemma_fields_tested(fs.drop_last(), t, acc);
            self.lemma_expr_tested(fs[fs.len() - 1].expr, t, acc1);
            lemma_tested_trans(acc, acc1, self.visit_fields(fs, t, acc), t, t);
        }
    }

    proof fn lemma_arms_tested(self, arms: Seq<Arm>, t: bool, acc: Seq<UnitView>)
        ensures
            extends(acc, self.visit_arms(arms, t, acc), t),
        decreases arms,
    {
        if arms.len() > 0 {
            let acc1 = self.visit_arms(arms.drop_last(), t, acc);
            self.lemma_arms_tested(arms.drop_last(), t, acc);
            let arm = arms[arms.len() - 1];
            let acc2 = self.visit_pat(arm.pat, t, acc1);
            self.lemma_pat_tested(arm.pat, t, acc1);
            let acc3 = self.visit_opt(arm.guard, t, acc2);
            self.lemma_opt_tested(arm.guard, t, acc2);
            self.lemma_expr_tested(*arm.body, t, acc3);
            lemma_tested_trans(acc, acc1, acc2, t, t);
            lemma_tested_trans(acc, acc2, acc3, t, t);
            lemma_tested_trans(acc, acc3, self.visit_arms(arms, t, acc), t, t);
        }
    }

    proof fn lemma_block_tested(self, b: Block, t: bool, acc: Seq<UnitView>)
        ensures
            extends(acc, self.visit_block(b, t, acc), t),
        decreases b,
    {
        self.lemma_stmts_tested(b.stmts@, t, acc);
    }

    proof fn lemma_stmts_tested(self, ss: Seq<Stmt>, t: bool, acc: Seq<UnitView>)
        ensures
            extends(acc, self.visit_stmts(ss, t, acc), t),
        decreases ss,
    {
        if ss.len() > 0 {
            let acc1 = self.visit_stmts(ss.drop_last(), t, acc);
            self.lemma_stmts_tested(ss.drop_last(), t, acc);
            self.lemma_stmt_tested(ss[ss.len() - 1], t, acc1);
            lemma_tested_trans(acc, acc1, self.visit_stmts(ss, t, acc), t, t);
        }
    }

    proof fn lemma_stmt_tested(self, s: Stmt, t: bool, acc: Seq<UnitView>)
        ensures
            extends(acc, self.visit_stmt(s, t, acc), t),
        decreases s,
    {
        match s {
            Stmt::Local { pat, init } => {
                let acc1 = self.visit_pat(pat, t, acc);
                self.lemma_pat_tested(pat, t, acc);
                match init {
                    Some(li) => {
                        let acc2 = self.visit_expr(*li.expr, t, acc1);
                        self.lemma_expr_tested(*li.expr, t, acc1);
                        self.lemma_opt_tested(li.diverge, t, acc2);
                        lemma_tested_trans(acc, acc1, acc2, t, t);
                        lemma_tested_trans(acc, acc2, self.visit_stmt(s, t, acc), t, t);
                    },
                    None => {},
                }
            },
            Stmt::Expr(e, _) => self.lemma_expr_tested(e, t, acc),
            Stmt::Item(item) => self.lemma_item_tested(item, t, acc),
            Stmt::Macro(..) => {},
        }
    }

    proof fn lemma_pat_tested(self, p: Pat, t: bool, acc: Seq<UnitView>)
        ensures
            extends(acc, self.visit_pat(p, t, acc), t),
        decreases p,
    {
        match p {
            Pat::Tuple(ps) => self.lemma_pats_tested(ps@, t, acc),
            Pat::TupleStruct(ps) => self.lemma_pats_tested(ps@, t, acc),
            Pat::Struct(fs) => self.lemma_field_pats_tested(fs@, t, acc),
            Pat::Or(ps) => self.lemma_pats_tested(ps@, t, acc),
            Pat::Reference { pat, .. } => self.lemma_pat_tested(*pat, t, acc),
            Pat::Slice(ps) => self.lemma_pats_tested(ps@, t, acc),
            Pat::Range { start, end } => {
                let a1 = self.visit_opt(start, t, acc);
                self.lemma_opt_tested(start, t, acc);
                self.lemma_opt_tested(end, t, a1);
                lemma_tested_trans(acc, a1, self.visit_pat(p, t, acc), t, t);
            },
            Pat::Type(inner) => self.lemma_pat_tested(*inner, t, acc),
            _ => {},
        }
    }

    proof fn lemma_pats_tested(self, ps: Seq<Pat>, t: bool, acc: Seq<UnitView>)
        ensures
            extends(acc, self.visit_pats(ps, t, acc), t),
        decreases ps,
    {
        if ps.len() > 0 {
            let acc1 = self.visit_pats(ps.drop_last(), t, acc);
            self.lemma_pats_tested(ps.drop_last(), t, acc);
            self.lemma_pat_tested(ps[ps.len() - 1], t, acc1);
            lemma_tested_trans(acc, acc1, self.visit_pats(ps, t, acc), t, t);
        }
    }

    proof fn lemma_field_pats_tested(self, fs: Seq<FieldPat>, t: bool, acc: Seq<UnitView>)
        ensures
            extends(acc, self.visit_field_pats(fs, t, acc), t),
        decreases fs,
    {
        if fs.len() > 0 {
            let acc1 = self.visit_field_pats(fs.drop_last(), t, acc);
            self.lemma_field_pats_tested(fs.drop_last(), t, acc);
            self.lemma_pat_tested(fs[fs.len() - 1].pat, t, acc1);
            lemma_tested_trans(acc, acc1, self.visit_field_pats(fs, t, acc), t, t);
        }
    }

    proof fn lemma_type_tested(self, ty: Type, t: bool, acc: Seq<UnitView>)
        ensures
            extends(acc, self.visit_type(ty, t, acc), t),
        decreases ty,
    {
        match ty {
            Type::Reference { elem, .. } => self.lemma_type_tested(*elem, t, acc),
            Type::Tuple(ts) => self.lemma_types_tested(ts@, t, acc),
            Type::Slice(elem) => self.lemma_type_tested(*elem, t, acc),
            Type::Array(elem, len) => {
                let a1 = self.visit_type(*elem, t, acc);
                self.lemma_type_tested(*elem, t, acc);
                self.lemma_expr_tested(*len, t, a1);
                lemma_tested_trans(acc, a1, self.visit_type(ty, t, acc), t, t);
            },
            Type::Paren(elem) => self.lemma_type_tested(*elem, t, acc),
            _ => {},
        }
    }

    proof fn lemma_types_tested(self, ts: Seq<Type>, t: bool, acc: Seq<UnitView>)
        ensures
            extends(acc, self.visit_types(ts, t, acc), t),
        decreases ts,
    {
        if ts.len() > 0 {
            let acc1 = self.visit_types(ts.drop_last(), t, acc);
            self.lemma_types_tested(ts.drop_last(), t, acc);
            self.lemma_type_tested(ts[ts.len() - 1], t, acc1);
            lemma_tested_trans(acc, acc1, self.visit_types(ts, t, acc), t, t);
        }
    }
}

/// Test context is inherited: every unit found among items visited as test
/// code (the contents of a `#[cfg(test)]` module, at any depth, its nested
/// modules, functions, methods, closures and nested items included) is
/// tagged as test code, and the units found before are left as they were.
pub proof fn law_test_context_is_inherited(x: CodeUnitExtractor, items: Seq<Item>, acc: Seq<UnitView>)
    ensures
        tested_after(acc, x.visit_items(items, true, acc)),
{
    x.lemma_items_tested(items, true, acc);
}

/// Whether an item is marked as test code: a function with `#[test]` or
/// `#[cfg(test)]`, a module or `impl` block with `#[cfg(test)]`.
pub open spec fn item_marked_test(item: Item) -> bool {
    match item {
        Item::Fn(f) => marks_test(f.attrs@) || marks_cfg_test(f.attrs@),
        Item::Mod(m) => marks_cfg_test(m.attrs@),
        Item::Impl(imp) => marks_cfg_test(imp.attrs@),
        _ => false,
    }
}

/// An item marked as test code, or visited as test code, yields only test
/// units: the function itself, the methods of the block, everything in the
/// module at any depth, and every closure and nested item inside them.
pub proof fn law_marked_items_are_test_code(x: CodeUnitExtractor, item: Item, t: bool, acc: Seq<UnitView>)
    requires
        t || item_marked_test(item),
    ensures
        tested_after(acc, x.visit_item(item, t, acc)),
{
    x.lemma_item_tested(item, true, acc);
    if !t {
        match item {
            Item::Fn(f) => {
                let u = fn_unit(CodeUnitKind::Function, f.sig.ident@, f, x.file@, true);
                let acc1 = x.keep(acc, u);
                x.lemma_keep_tested(acc, u);
                x.lemma_fn_tested(f, true, acc1);
                lemma_tested_trans(acc, acc1, x.visit_fn(f, true, acc1), true, true);
            },
            Item::Mod(m) => match m.content {
                Some(items) => x.lemma_items_tested(items@, true, acc),
                None => {},
            },
            Item::Impl(imp) => x.lemma_impl_tested(imp, imp.items@, true, acc),
            _ => {},
        }
    }
}

/// A function outside test code and not marked as a test is not tagged as
/// test code: its unit, when large enough to be kept, comes first after the
/// units found before it, with `is_test` false, and those before it are
/// left as they were.
pub proof fn law_unmarked_function_is_not_test_code(x: CodeUnitExtractor, f: ItemFn, acc: Seq<UnitView>)
    requires
        !marks_test(f.attrs@),
        !marks_cfg_test(f.attrs@),
        kept(
            fn_unit(CodeUnitKind::Function, f.sig.ident@, f, x.file@, false),
            x.min_node_count as nat,
            x.min_line_count as nat,
        ),
    ensures
        x.visit_item(Item::Fn(f), false, acc).len() > acc.len(),
        x.visit_item(Item::Fn(f), false, acc)[acc.len() as int] == fn_unit(
            CodeUnitKind::Function,
            f.sig.ident@,
            f,
            x.file@,
            false,
        ),
        !x.visit_item(Item::Fn(f), false, acc)[acc.len() as int].is_test,
        extends(acc, x.visit_item(Item::Fn(f), false, acc), false),
{
    let u = fn_unit(CodeUnitKind::Function, f.sig.ident@, f, x.file@, false);
    let acc1 = x.keep(acc, u);
    assert(acc1 == acc.push(u));
    x.lemma_fn_tested(f, false, acc1);
    x.lemma_item_tested(Item::Fn(f), false, acc);
    assert(acc1[acc.len() as int] == u);
}

impl CodeUnitExtractor {
    /// An extractor for one file.
    pub fn new(file: String, min_node_count: usize, min_line_count: usize) -> (r: CodeUnitExtractor)
        ensures
            r.file == file,
            r.min_node_count == min_node_count,
            r.min_line_count == min_line_count,
    {
        CodeUnitExtractor { file, min_node_count, min_line_count }
    }

    /// Adds a unit when it is large enough.
    fn add_unit(
        &self,
        kind: CodeUnitKind,
        name: String,
        line_start: usize,
        line_end: usize,
        sig: NormalizedNode,
        body: NormalizedNode,
        is_test: bool,
        out: &mut Vec<CodeUnit>,
    )
        ensures
            unit_views(final(out)@) == self.keep(
                unit_views(old(out)@),
                UnitView {
                    kind,
                    name: name@,
                    file: self.file@,
                    line_start: line_start as nat,
                    line_end: line_end as nat,
                    signature: sig@,
                    body: body@,
                    fingerprint: Fingerprint(hash_of_writes(sig_body_writes(sig@, body@))),
                    node_count: capped(sig@.size() + body@.size()),
                    parent_name: None,
                    is_test,
                },
            ),
    {
        let node_count = add_capped(count_nodes_capped(&sig), count_nodes_capped(&body));
        proof {
            lemma_capped_add(sig@.size(), body@.size());
        }
        if node_count < self.min_node_count {
            return ;
        }
        let span = if line_end >= line_start {
            line_end - line_start
        } else {
            0
        };
        if self.min_line_count > 0 && span < self.min_line_count - 1 {
            return ;
        }
        let fingerprint = Fingerprint::from_sig_and_body(&sig, &body);
        let unit = CodeUnit {
            kind,
            name,
            file: self.file.clone(),
            line_start,
            line_end,
            signature: sig,
            body,
            fingerprint,
            node_count,
            parent_name: None,
            is_test,
        };
        let ghost before = unit_views(out@);
        out.push(unit);
        proof {
            assert(unit_views(out@) =~= before.push(unit@));
        }
    }

    /// The units of items, in order.
    fn walk_items(&self, items: &Vec<Item>, t: bool, out: &mut Vec<CodeUnit>)
        ensures
            unit_views(final(out)@) == self.visit_items(items@, t, unit_views(old(out)@)),
        decreases items,
    {
        let ghost acc0 = unit_views(out@);
        let n = items.len();
        for i in 0..n
            invariant
                n == items@.len(),
                unit_views(out@) == self.visit_items(items@.take(i as int), t, acc0),
        {
            proof {
                assert(items@.take(i + 1).drop_last() =~= items@.take(i as int));
                assert(decreases_to!(items => items@[i as int]));
            }
            self.walk_item(&items[i], t, out);
        }
        proof {
            assert(items@.take(n as int) =~= items@);
        }
    }

    /// The units of an item.
    fn walk_item(&self, item: &Item, t: bool, out: &mut Vec<CodeUnit>)
        ensures
            unit_views(final(out)@) == self.visit_item(*item, t, unit_views(old(out)@)),
        decreases item,
    {
        match item {
            Item::Fn(f) => self.visit_item_fn(f, t, out),
            Item::Mod(m) => {
                let inner = t || has_cfg_test_attr(&m.attrs);
                match &m.content {
                    Some(items) => self.walk_items(items, inner, out),
                    None => {},
                }
            },
            Item::Impl(imp) => self.visit_item_impl(imp, t, out),
            Item::Trait(tis) => self.walk_trait_items(tis, t, out),
            Item::Other(es) => self.walk_exprs(es, t, out),
        }
    }

    /// The units inside the items of a trait.
    fn walk_trait_items(&self, items: &Vec<TraitItem>, t: bool, out: &mut Vec<CodeUnit>)
        ensures
            unit_views(final(out)@) == self.trait_units(items@, t, unit_views(old(out)@)),
        decreases items,
    {
        let ghost acc0 = unit_views(out@);
        let n = items.len();
        for i in 0..n
            invariant
                n == items@.len(),
                unit_views(out@) == self.trait_units(items@.take(i as int), t, acc0),
        {
            proof {
                assert(items@.take(i + 1).drop_last() =~= items@.take(i as int));
                assert(items@.take(i + 1)[i as int] == items@[i as int]);
                assert(decreases_to!(items => items@[i as int]));
            }
            match &items[i] {
                TraitItem::Fn(Some(b)) => self.walk_block(b, t, out),
                TraitItem::Const(Some(e)) => self.walk_expr(e, t, out),
                _ => {},
            }
        }
        proof {
            assert(items@.take(n as int) =~= items@);
        }
    }

    /// A function's unit, then the units inside it, which are test code
    /// when the function is.
    fn visit_item_fn(&self, f: &ItemFn, t: bool, out: &mut Vec<CodeUnit>)
        ensures
            unit_views(final(out)@) == self.visit_item(Item::Fn(*f), t, unit_views(old(out)@)),
        decreases f,
    {
        let is_test = t || has_test_attr(&f.attrs) || has_cfg_test_attr(&f.attrs);
        let (sig, body) = normalize_item_fn(f);
        self.add_unit(
            CodeUnitKind::Function,
            f.sig.ident.clone(),
            f.line_start,
            f.line_end,
            sig,
            body,
            is_test,
            out,
        );
        self.walk_fn_args(&f.sig.inputs, is_test, out);
        match &f.sig.output {
            Some(ty) => self.walk_type(ty, is_test, out),
            None => {},
        }
        self.walk_block(&f.block, is_test, out);
    }

    /// The units of the methods of an `impl` block, each followed by the
    /// units inside it.
    fn visit_item_impl(&self, imp: &ItemImpl, t: bool, out: &mut Vec<CodeUnit>)
        ensures
            unit_views(final(out)@) == self.visit_item(Item::Impl(*imp), t, unit_views(old(out)@)),
        decreases imp,
    {
        let in_test = t || has_cfg_test_attr(&imp.attrs);
        let self_type = type_text(&imp.self_ty);
        let is_trait_impl = imp.trait_path.is_some();
        let ghost acc0 = unit_views(out@);
        let n = imp.items.len();
        for i in 0..n
            invariant
                n == imp.items@.len(),
                self_type@ == type_label(imp.self_ty),
                is_trait_impl == imp.trait_path is Some,
                unit_views(out@) == self.impl_units(*imp, imp.items@.take(i as int), in_test, acc0),
        {
            proof {
                assert(imp.items@.take(i + 1).drop_last() =~= imp.items@.take(i as int));
                assert(imp.items@.take(i + 1)[i as int] == imp.items@[i as int]);
            }
            match &imp.items[i] {
                ImplItem::Fn(method) => {
                    proof {
                        assert(decreases_to!(imp => imp.items@[i as int]));
                    }
                    let full_name = method_text(&self_type, &imp.trait_path, &method.sig.ident);
                    let (sig, body) = normalize_item_fn(method);
                    let kind = if is_trait_impl {
                        CodeUnitKind::TraitImplBlock
                    } else {
                        CodeUnitKind::Method
                    };
                    let ghost before = unit_views(out@);
                    self.add_unit(
                        kind,
                        full_name,
                        method.line_start,
                        method.line_end,
                        sig,
                        body,
                        in_test,
                        out,
                    );
                    let ghost a1 = unit_views(out@);
                    proof {
                        assert(a1 == self.keep(
                            before,
                            fn_unit(kind, method_name(*imp, method.sig.ident@), *method, self.file@, in_test),
                        ));
                    }
                    self.walk_fn_args(&method.sig.inputs, in_test, out);
                    let ghost a2 = unit_views(out@);
                    match &method.sig.output {
                        Some(ty) => self.walk_type(ty, in_test, out),
                        None => {},
                    }
                    let ghost a3 = unit_views(out@);
                    proof {
                        assert(a3 == match method.sig.output {
                            Some(ty) => self.visit_type(*ty, in_test, a2),
                            None => a2,
                        });
                    }
                    self.walk_block(&method.block, in_test, out);
                    proof {
                        assert(unit_views(out@) == self.visit_fn(*method, in_test, a1));
                    }
                },
                ImplItem::Other => {},
            }
        }
        proof {
            assert(imp.items@.take(n as int) =~= imp.items@);
        }
    }

    /// The units inside function parameters.
    fn walk_fn_args(&self, args: &Vec<FnArg>, t: bool, out: &mut Vec<CodeUnit>)
        ensures
            unit_views(final(out)@) == self.visit_fn_args(args@, t, unit_views(old(out)@)),
        decreases args,
    {
        let ghost acc0 = unit_views(out@);
        let n = args.len();
        for i in 0..n
            invariant
                n == args@.len(),
                unit_views(out@) == self.visit_fn_args(args@.take(i as int), t, acc0),
        {
            proof {
                assert(args@.take(i + 1).drop_last() =~= args@.take(i as int));
                assert(decreases_to!(args => args@[i as int]));
            }
            match &args[i] {
                FnArg::Typed { pat, ty } => {
                    self.walk_pat(pat, t, out);
                    self.walk_type(ty, t, out);
                },
                FnArg::Receiver { .. } => {},
            }
        }
        proof {
            assert(args@.take(n as int) =~= args@);
        }
    }

    /// The units inside an expression.
    fn walk_expr(&self, e: &Expr, t: bool, out: &mut Vec<CodeUnit>)
        ensures
            unit_views(final(out)@) == self.visit_expr(*e, t, unit_views(old(out)@)),
        decreases e,
    {
        match e {
            Expr::Binary(_, l, r) => {
                self.walk_expr(l, t, out);
                self.walk_expr(r, t, out);
            },
            Expr::Unary(_, x) => self.walk_expr(x, t, out),
            Expr::Call(f, args) => {
                self.walk_expr(f, t, out);
                self.walk_exprs(args, t, out);
            },
            Expr::MethodCall { receiver, args, .. } => {
                self.walk_expr(receiver, t, out);
                self.walk_exprs(args, t, out);
            },
            Expr::Field(base, _) => self.walk_expr(base, t, out),
            Expr::Index(x, y) => {
                self.walk_expr(x, t, out);
                self.walk_expr(y, t, out);
            },
            Expr::Closure(cl) => self.visit_expr_closure(cl, t, out),
            Expr::Return(value) => self.walk_opt(value, t, out),
            Expr::Break(value) => self.walk_opt(value, t, out),
            Expr::Assign(x, y) => {
                self.walk_expr(x, t, out);
                self.walk_expr(y, t, out);
            },
            Expr::Reference { expr, .. } => self.walk_expr(expr, t, out),
            Expr::Tuple(es) => self.walk_exprs(es, t, out),
            Expr::Array(es) => self.walk_exprs(es, t, out),
            Expr::Repeat(x, len) => {
                self.walk_expr(x, t, out);
                self.walk_expr(len, t, out);
            },
            Expr::Cast(x, ty) => {
                self.walk_expr(x, t, out);
                self.walk_type(ty, t, out);
            },
            Expr::Struct { fields, rest } => {
                self.walk_fields(fields, t, out);
                self.walk_opt(rest, t, out);
            },
            Expr::Await(x) => self.walk_expr(x, t, out),
            Expr::Try(x) => self.walk_expr(x, t, out),
            Expr::If { cond, then_branch, else_branch } => {
                self.walk_expr(cond, t, out);
                self.walk_block(then_branch, t, out);
                self.walk_opt(else_branch, t, out);
            },
            Expr::Match { expr, arms } => {
                self.walk_expr(expr, t, out);
                self.walk_arms(arms, t, out);
            },
            Expr::Loop(body) => self.walk_block(body, t, out),
            Expr::While { cond, body } => {
                self.walk_expr(cond, t, out);
                self.walk_block(body, t, out);
            },
            Expr::ForLoop { pat, expr, body } => {
                self.walk_pat(pat, t, out);
                self.walk_expr(expr, t, out);
                self.walk_block(body, t, out);
            },
            Expr::Block(b) => self.walk_block(b, t, out),
            Expr::Paren(x) => self.walk_expr(x, t, out),
            Expr::Range { start, end } => {
                self.walk_opt(start, t, out);
                self.walk_opt(end, t, out);
            },
            Expr::Let { pat, expr } => {
                self.walk_pat(pat, t, out);
                self.walk_expr(expr, t, out);
            },
            Expr::Group(x) => self.walk_expr(x, t, out),
            Expr::Unsafe(b) => self.walk_block(b, t, out),
            Expr::Const(b) => self.walk_block(b, t, out),
            _ => {},
        }
    }

    /// A closure's unit when it is large enough, then the units inside it.
    fn visit_expr_closure(&self, cl: &ExprClosure, t: bool, out: &mut Vec<CodeUnit>)
        ensures
            unit_views(final(out)@) == self.visit_closure(*cl, t, unit_views(old(out)@)),
        decreases cl,
    {
        let line_start = cl.line_start;
        let line_end = match &*cl.body {
            Expr::Block(_) => cl.body_end_line,
            _ => if cl.body_end_line > 0 {
                cl.body_end_line
            } else {
                line_start
            },
        };
        let normalized = normalize_closure_expr(cl);
        let node_count = count_nodes_capped(&normalized);
        let span = if line_end >= line_start {
            line_end - line_start
        } else {
            0
        };
        if node_count >= self.min_node_count && (self.min_line_count == 0 || span
            >= self.min_line_count - 1) {
            let name = closure_text(&self.file, line_start);
            let fingerprint = Fingerprint::from_node(&normalized);
            let unit = CodeUnit {
                kind: CodeUnitKind::Closure,
                name,
                file: self.file.clone(),
                line_start,
                line_end,
                signature: NormalizedNode::leaf(NodeKind::Opaque),
                body: normalized,
                fingerprint,
                node_count,
                parent_name: None,
                is_test: t,
            };
            let ghost before = unit_views(out@);
            out.push(unit);
            proof {
                assert(unit_views(out@) =~= before.push(unit@));
            }
        }
        self.walk_pats(&cl.inputs, t, out);
        self.walk_expr(&cl.body, t, out);
    }

    /// The units inside an optional expression.
    fn walk_opt(&self, o: &Option<Box<Expr>>, t: bool, out: &mut Vec<CodeUnit>)
        ensures
            unit_views(final(out)@) == self.visit_opt(*o, t, unit_views(old(out)@)),
        decreases o,
    {
        match o {
            Some(x) => self.walk_expr(x, t, out),
            None => {},
        }
    }

    /// The units inside expressions, in order.
    fn walk_exprs(&self, es: &Vec<Expr>, t: bool, out: &mut Vec<CodeUnit>)
        ensures
            unit_views(final(out)@) == self.visit_exprs(es@, t, unit_views(old(out)@)),
        decreases es,
    {
        let ghost acc0 = unit_views(out@);
        let n = es.len();
        for i in 0..n
            invariant
                n == es@.len(),
                unit_views(out@) == self.visit_exprs(es@.take(i as int), t, acc0),
        {
            proof {
                assert(es@.take(i + 1).drop_last() =~= es@.take(i as int));
                assert(decreases_to!(es => es@[i as int]));
            }
            self.walk_expr(&es[i], t, out);
        }
        proof {
            assert(es@.take(n as int) =~= es@);
        }
    }

    /// The units inside the fields of a struct literal.
    fn walk_fields(&self, fs: &Vec<FieldValue>, t: bool, out: &mut Vec<CodeUnit>)
        ensures
            unit_views(final(out)@) == self.visit_fields(fs@, t, unit_views(old(out)@)),
        decreases fs,
    {
        let ghost acc0 = unit_views(out@);
        let n = fs.len();
        for i in 0..n
            invariant
                n == fs@.len(),
                unit_views(out@) == self.visit_fields(fs@.take(i as int), t, acc0),
        {
            proof {
                assert(fs@.take(i + 1).drop_last() =~= fs@.take(i as int));
                assert(decreases_to!(fs => fs@[i as int]));
            }
            self.walk_expr(&fs[i].expr, t, out);
        }
        proof {
            assert(fs@.take(n as int) =~= fs@);
        }
    }

    /// The units inside the arms of a `match`.
    fn walk_arms(&self, arms: &Vec<Arm>, t: bool, out: &mut Vec<CodeUnit>)
        ensures
            unit_views(final(out)@) == self.visit_arms(arms@, t, unit_views(old(out)@)),
        decreases arms,
    {
        let ghost acc0 = unit_views(out@);
        let n = arms.len();
        for i in 0..n
            invariant
                n == arms@.len(),
                unit_views(out@) == self.visit_arms(arms@.take(i as int), t, acc0),
        {
            proof {
                assert(arms@.take(i + 1).drop_last() =~= arms@.take(i as int));
                assert(decreases_to!(arms => arms@[i as int]));
            }
            let arm = &arms[i];
            self.walk_pat(&arm.pat, t, out);
            self.walk_opt(&arm.guard, t, out);
            self.walk_expr(&arm.body, t, out);
        }
        proof {
            assert(arms@.take(n as int) =~= arms@);
        }
    }

    /// The units inside a block.
    fn walk_block(&self, b: &Block, t: bool, out: &mut Vec<CodeUnit>)
        ensures
            unit_views(final(out)@) == self.visit_block(*b, t, unit_views(old(out)@)),
        decreases b,
    {
        let ghost acc0 = unit_views(out@);
        let n = b.stmts.len();
        for i in 0..n
            invariant
                n == b.stmts@.len(),
                unit_views(out@) == self.visit_stmts(b.stmts@.take(i as int), t, acc0),
        {
            proof {
                assert(b.stmts@.take(i + 1).drop_last() =~= b.stmts@.take(i as int));
                assert(decreases_to!(b => b.stmts));
                assert(decreases_to!(b.stmts => b.stmts@[i as int]));
            }
            self.walk_stmt(&b.stmts[i], t, out);
        }
        proof {
            assert(b.stmts@.take(n as int) =~= b.stmts@);
        }
    }

    /// The units inside a statement.
    fn walk_stmt(&self, s: &Stmt, t: bool, out: &mut Vec<CodeUnit>)
        ensures
            unit_views(final(out)@) == self.visit_stmt(*s, t, unit_views(old(out)@)),
        decreases s,
    {
        match s {
            Stmt::Local { pat, init } => {
                self.walk_pat(pat, t, out);
                match init {
                    Some(li) => {
                        self.walk_expr(&li.expr, t, out);
                        self.walk_opt(&li.diverge, t, out);
                    },
                    None => {},
                }
            },
            Stmt::Expr(e, _) => self.walk_expr(e, t, out),
            Stmt::Item(item) => self.walk_item(item, t, out),
            Stmt::Macro(..) => {},
        }
    }

    /// The units inside a pattern.
    fn walk_pat(&self, p: &Pat, t: bool, out: &mut Vec<CodeUnit>)
        ensures
            unit_views(final(out)@) == self.visit_pat(*p, t, unit_views(old(out)@)),
        decreases p,
    {
        match p {
            Pat::Tuple(ps) => self.walk_pats(ps, t, out),
            Pat::TupleStruct(ps) => self.walk_pats(ps, t, out),
            Pat::Struct(fs) => self.walk_field_pats(fs, t, out),
            Pat::Or(ps) => self.walk_pats(ps, t, out),
            Pat::Reference { pat, .. } => self.walk_pat(pat, t, out),
            Pat::Slice(ps) => self.walk_pats(ps, t, out),
            Pat::Range { start, end } => {
                self.walk_opt(start, t, out);
                self.walk_opt(end, t, out);
            },
            Pat::Type(inner) => self.walk_pat(inner, t, out),
            _ => {},
        }
    }

    /// The units inside patterns, in order.
    fn walk_pats(&self, ps: &Vec<Pat>, t: bool, out: &mut Vec<CodeUnit>)
        ensures
            unit_views(final(out)@) == self.visit_pats(ps@, t, unit_views(old(out)@)),
        decreases ps,
    {
        let ghost acc0 = unit_views(out@);
        let n = ps.len();
        for i in 0..n
            invariant
                n == ps@.len(),
                unit_views(out@) == self.visit_pats(ps@.take(i as int), t, acc0),
        {
            proof {
                assert(ps@.take(i + 1).drop_last() =~= ps@.take(i as int));
                assert(decreases_to!(ps => ps@[i as int]));
            }
            self.walk_pat(&ps[i], t, out);
        }
        proof {
            assert(ps@.take(n as int) =~= ps@);
        }
    }

    /// The units inside the fields of a struct pattern.
    fn walk_field_pats(&self, fs: &Vec<FieldPat>, t: bool, out: &mut Vec<CodeUnit>)
        ensures
            unit_views(final(out)@) == self.visit_field_pats(fs@, t, unit_views(old(out)@)),
        decreases fs,
    {
        let ghost acc0 = unit_views(out@);
        let n = fs.len();
        for i in 0..n
            invariant
                n == fs@.len(),
                unit_views(out@) == self.visit_field_pats(fs@.take(i as int), t, acc0),
        {
            proof {
                assert(fs@.take(i + 1).drop_last() =~= fs@.take(i as int));
                assert(decreases_to!(fs => fs@[i as int]));
            }
            self.walk_pat(&fs[i].pat, t, out);
        }
        proof {
            assert(fs@.take(n as int) =~= fs@);
        }
    }

    /// The units inside a type.
    fn walk_type(&self, ty: &Type, t: bool, out: &mut Vec<CodeUnit>)
        ensures
            unit_views(final(out)@) == self.visit_type(*ty, t, unit_views(old(out)@)),
        decreases ty,
    {
        match ty {
            Type::Reference { elem, .. } => self.walk_type(elem, t, out),
            Type::Tuple(ts) => self.walk_types(ts, t, out),
            Type::Slice(elem) => self.walk_type(elem, t, out),
            Type::Array(elem, len) => {
                self.walk_type(elem, t, out);
                self.walk_expr(len, t, out);
            },
            Type::Paren(elem) => self.walk_type(elem, t, out),
            _ => {},
        }
    }

    /// The units inside types, in order.
    fn walk_types(&self, ts: &Vec<Type>, t: bool, out: &mut Vec<CodeUnit>)
        ensures
            unit_views(final(out)@) == self.visit_types(ts@, t, unit_views(old(out)@)),
        decreases ts,
    {
        let ghost acc0 = unit_views(out@);
        let n = ts.len();
        for i in 0..n
            invariant
                n == ts@.len(),
                unit_views(out@) == self.visit_types(ts@.take(i as int), t, acc0),
        {
            proof {
                assert(ts@.take(i + 1).drop_last() =~= ts@.take(i as int));
                assert(decreases_to!(ts => ts@[i as int]));
            }
            self.walk_type(&ts[i], t, out);
        }
        proof {
            assert(ts@.take(n as int) =~= ts@);
        }
    }
}

/// The identifiers of a path joined by `::`.
fn path_string(segs: &Vec<String>) -> (r: String)
    ensures
        r@ == path_text(segs@),
{
    let mut out = String::new();
    let n = segs.len();
    proof {
        assert(segs@.take(0) =~= Seq::<String>::empty());
    }
    for i in 0..n
        invariant
            n == segs@.len(),
            out@ == path_text(segs@.take(i as int)),
    {
        proof {
            assert(segs@.take(i + 1).drop_last() =~= segs@.take(i as int));
        }
        if i > 0 {
            out.append("::");
        }
        out.append(segs[i].as_str());
    }
    proof {
        assert(segs@.take(n as int) =~= segs@);
    }
    out
}

/// The name of a type as unit names show it.
fn type_text(ty: &Type) -> (r: String)
    ensures
        r@ == type_label(*ty),
{
    match ty {
        Type::Path { segments, .. } => path_string(segments),
        _ => "Unknown".to_string(),
    }
}

/// The name of a method of an `impl` block for the named type.
fn method_text(self_type: &String, trait_path: &Option<Vec<String>>, method: &String) -> (r: String)
    ensures
        r@ == match *trait_path {
            Some(p) => "<"@ + self_type@ + " as "@ + path_text(p@) + ">::"@ + method@,
            None => self_type@ + "::"@ + method@,
        },
{
    match trait_path {
        Some(p) => {
            let mut s = "<".to_string();
            s.append(self_type.as_str());
            s.append(" as ");
            s.append(path_string(p).as_str());
            s.append(">::");
            s.append(method.as_str());
            s
        },
        None => {
            let mut s = self_type.clone();
            s.append("::");
            s.append(method.as_str());
            s
        },
    }
}

/// The name of a closure: where it starts.
fn closure_text(file: &String, line: usize) -> (r: String)
    ensures
        r@ == closure_name(file@, line as nat),
{
    let mut s = "closure at ".to_string();
    s.append(file.as_str());
    s.append(":");
    s.append(decimal_string(line as u64).as_str());
    s
}

/// The message for a file that is not valid Rust.
pub open spec fn parse_failure(path: Seq<char>, message: Seq<char>) -> Seq<char> {
    "Failed to parse "@ + path + ": "@ + message
}

/// What parsing a source file gives: for its items, the units that a walk
/// from the top finds outside test code; for a parser's message, the
/// failure naming the file.
pub open spec fn parsed_as(
    path: String,
    parsed: Result<SourceFile, String>,
    min_node_count: usize,
    min_line_count: usize,
    r: Result<Vec<CodeUnit>, String>,
) -> bool {
    match parsed {
        Ok(file) => r matches Ok(units) && unit_views(units@) == (CodeUnitExtractor {
            file: path,
            min_node_count,
            min_line_count,
        }).visit_items(file.items@, false, Seq::empty()),
        Err(message) => r matches Err(m) && m@ == parse_failure(path@, message@),
    }
}

/// The code units of a source file, given what reading it as Rust syntax
/// gave: its items, or the parser's message. Test code is kept and tagged.
pub fn parse_source_tree(
    path: &String,
    parsed: Result<SourceFile, String>,
    min_node_count: usize,
    min_line_count: usize,
) -> (r: Result<Vec<CodeUnit>, String>)
    ensures
        parsed_as(*path, parsed, min_node_count, min_line_count, r),
{
    match parsed {
        Ok(file) => {
            let extractor = CodeUnitExtractor::new(path.clone(), min_node_count, min_line_count);
            let mut units: Vec<CodeUnit> = Vec::new();
            proof {
                assert(unit_views(units@) =~= Seq::<UnitView>::empty());
            }
            extractor.walk_items(&file.items, false, &mut units);
            Ok(units)
        },
        Err(message) => {
            let mut m = "Failed to parse ".to_string();
            m.append(path.as_str());
            m.append(": ");
            m.append(message.as_str());
            Err(m)
        },
    }
}

/// The code units of a Rust source text. The text is parsed with `syn`;
/// `tree_of` reads the parsed file into the library's syntax tree, from
/// which the units are taken. A text that does not parse gives the failure
/// naming the file and the parser's message. Test code is kept and tagged.
pub fn parse_source<F>(
    path: &String,
    source: &str,
    tree_of: F,
    min_node_count: usize,
    min_line_count: usize,
) -> (r: Result<Vec<CodeUnit>, String>) where F: Fn(&syn::File) -> SourceFile
    requires
        forall|f: &syn::File| #[trigger] tree_of.requires((f,)),
    ensures
        match rust_parse_error(source@) {
            Some(m) => r matches Err(e) && e@ == parse_failure(path@, m),
            None => exists|f: &syn::File, t: SourceFile|
                #[trigger] tree_of.ensures((f,), t) && parsed_as(
                    *path,
                    Ok(t),
                    min_node_count,
                    min_line_count,
                    r,
                ),
        },
{
    match read_rust_file(source) {
        Ok(parsed) => {
            let tree = tree_of(&parsed);
            let r = parse_source_tree(path, Ok(tree), min_node_count, min_line_count);
            proof {
                assert(tree_of.ensures((&parsed,), tree));
            }
            r
        },
        Err(message) => parse_source_tree(path, Err(message), min_node_count, min_line_count),
    }
}

/// The units of the files that parsed, in order.
pub open spec fn parsed_units(results: Seq<Result<Vec<CodeUnit>, String>>) -> Seq<UnitView>
    decreases results.len(),
{
    if results.len() == 0 {
        Seq::empty()
    } else {
        let front = parsed_units(results.drop_last());
        match results[results.len() - 1] {
            Ok(units) => front + unit_views(units@),
            Err(_) => front,
        }
    }
}

/// The messages of the files that did not parse, in order.
pub open spec fn parse_warnings(results: Seq<Result<Vec<CodeUnit>, String>>) -> Seq<Seq<char>>
    decreases results.len(),
{
    if results.len() == 0 {
        Seq::empty()
    } else {
        let front = parse_warnings(results.drop_last());
        match results[results.len() - 1] {
            Ok(_) => front,
            Err(m) => front.push(m@),
        }
    }
}

/// Collects the units of several files, and a warning for each file that
/// could not be parsed; a failure does not stop the others.
pub fn parse_files(results: Vec<Result<Vec<CodeUnit>, String>>) -> (r: (Vec<CodeUnit>, Vec<String>))
    ensures
        unit_views(r.0@) == parsed_units(results@),
        r.1@.map_values(|w: String| w@) == parse_warnings(results@),
{
    let ghost all = results@;
    let mut units: Vec<CodeUnit> = Vec::new();
    let mut warnings: Vec<String> = Vec::new();
    let mut rest = results;
    let ghost n = all.len();
    proof {
        assert(all.take(0) =~= Seq::<Result<Vec<CodeUnit>, String>>::empty());
        assert(unit_views(units@) =~= Seq::<UnitView>::empty());
        assert(warnings@.map_values(|w: String| w@) =~= Seq::<Seq<char>>::empty());
        assert(rest@ =~= all.subrange(0, n as int));
    }
    while rest.len() > 0
        invariant
            n == all.len(),
            rest@.len() <= n,
            rest@ == all.subrange(n - rest@.len(), n as int),
            unit_views(units@) == parsed_units(all.take(n - rest@.len())),
            warnings@.map_values(|w: String| w@) == parse_warnings(all.take(n - rest@.len())),
        decreases rest@.len(),
    {
        let ghost k = n - rest@.len();
        let item = rest.remove(0);
        proof {
            assert(item == all[k]);
            assert(rest@ =~= all.subrange(k + 1, n as int));
            assert(all.take(k + 1).drop_last() =~= all.take(k));
        }
        match item {
            Ok(mut file_units) => {
                let ghost a = unit_views(units@);
                let ghost b = unit_views(file_units@);
                units.append(&mut file_units);
                proof {
                    assert(unit_views(units@) =~= a + b);
                }
            },
            Err(warning) => {
                let ghost w = warnings@.map_values(|x: String| x@);
                warnings.push(warning);
                proof {
                    assert(warnings@.map_values(|x: String| x@) =~= w.push(warning@));
                }
            },
        }
    }
    proof {
        assert(all.take(n as int) =~= all);
    }
    (units, warnings)
}

/// The analyzer of Rust source files.
#[derive(Debug)]
pub struct RustAnalyzer;

impl RustAnalyzer {
    /// The Rust analyzer.
    pub fn new() -> (r: RustAnalyzer) {
        RustAnalyzer
    }

    /// The extensions of the files it reads.
    pub fn file_extensions(&self) -> (r: Vec<&'static str>)
        ensures
            r@.len() == 1,
            r@[0]@ == "rs"@,
    {
        let mut v: Vec<&'static str> = Vec::new();
        v.push("rs");
        v
    }

    /// The code units of a Rust source text, parsed with `syn` and read
    /// into the library's syntax tree by `tree_of`, with the configured
    /// floors.
    pub fn parse_file<F>(&self, path: &String, source: &str, tree_of: F, config: &AnalysisConfig) -> (r:
        Result<Vec<CodeUnit>, String>) where F: Fn(&syn::File) -> SourceFile
        requires
            forall|f: &syn::File| #[trigger] tree_of.requires((f,)),
        ensures
            match rust_parse_error(source@) {
                Some(m) => r matches Err(e) && e@ == parse_failure(path@, m),
                None => exists|f: &syn::File, t: SourceFile|
                    #[trigger] tree_of.ensures((f,), t) && parsed_as(
                        *path,
                        Ok(t),
                        config.min_nodes,
                        config.min_lines,
                        r,
                    ),
            },
    {
        parse_source(path, source, tree_of, config.min_nodes, config.min_lines)
    }

    /// Whether a unit is test code: whether it was tagged so.
    pub fn is_test_code(&self, unit: &CodeUnit) -> (r: bool)
        ensures
            r == unit.is_test,
    {
        unit.is_test
    }
}

} // verus!
