//! The normal form of a concrete syntax tree under a [`NodeMapping`]: the
//! mapping says which node kinds are identifiers, literals, operators and
//! control-flow constructs, and each is normalized as `dupes-core` shapes
//! them.
use vstd::prelude::*;

use crate::mapping::MappingView;
use crate::node::{BinOpKind, NodeKind, PlaceholderKind, Tree, UnOpKind};
use crate::normalization_context::{name_slot, Names};
use crate::rust_normal_form::{absent, leaf_of, node_of, slot_leaf};

verus! {

/// A node of a concrete syntax tree, as normalization reads it.
#[derive(Debug)]
pub struct SyntaxNode {
    /// The grammar's name for the node's kind.
    pub kind: String,
    /// Whether the grammar names the node (anonymous nodes are punctuation
    /// and keywords).
    pub is_named: bool,
    /// The source text the node spans, empty when it is not valid UTF-8.
    pub text: String,
    pub children: Vec<SyntaxChild>,
}

/// A child of a node, with the name of the field it fills, if any.
#[derive(Debug)]
pub struct SyntaxChild {
    pub field: Option<String>,
    pub node: SyntaxNode,
}

/// Whether the child fills the named field.
pub open spec fn fills(c: SyntaxChild, field: Seq<char>) -> bool {
    c.field matches Some(f) && f@ == field
}

/// The position of the first child that fills the field, or -1.
pub open spec fn field_index(cs: Seq<SyntaxChild>, field: Seq<char>) -> int
    decreases cs.len(),
{
    if cs.len() == 0 {
        -1
    } else {
        let k = field_index(cs.drop_last(), field);
        if k >= 0 {
            k
        } else if fills(cs[cs.len() - 1], field) {
            cs.len() - 1
        } else {
            -1
        }
    }
}

/// The position of the first named child, or -1.
pub open spec fn first_named(cs: Seq<SyntaxChild>) -> int
    decreases cs.len(),
{
    if cs.len() == 0 {
        -1
    } else {
        let k = first_named(cs.drop_last());
        if k >= 0 {
            k
        } else if cs[cs.len() - 1].node.is_named {
            cs.len() - 1
        } else {
            -1
        }
    }
}

/// The text of the first anonymous child whose text is not empty: the
/// operator of an operator expression.
pub open spec fn operator_text(cs: Seq<SyntaxChild>) -> Option<Seq<char>>
    decreases cs.len(),
{
    if cs.len() == 0 {
        None
    } else {
        match operator_text(cs.drop_last()) {
            Some(t) => Some(t),
            None => {
                let n = cs[cs.len() - 1].node;
                if !n.is_named && n.text@.len() > 0 {
                    Some(n.text@)
                } else {
                    None
                }
            },
        }
    }
}

/// The kind of a binary operator with the given text.
pub open spec fn binary_kind(m: MappingView, text: Option<Seq<char>>) -> BinOpKind {
    match text {
        Some(t) => if m.binary_op_map.contains_key(t) {
            m.binary_op_map[t]
        } else {
            BinOpKind::Other
        },
        None => BinOpKind::Other,
    }
}

/// The kind of a unary operator with the given text.
pub open spec fn unary_kind(m: MappingView, text: Option<Seq<char>>) -> UnOpKind {
    match text {
        Some(t) => if m.unary_op_map.contains_key(t) {
            m.unary_op_map[t]
        } else {
            UnOpKind::Other
        },
        None => UnOpKind::Other,
    }
}

/// Operands folded from the right into nested binary operations:
/// `[a, b, c]` becomes `a op (b op c)`.
pub open spec fn fold_binary(op: BinOpKind, ts: Seq<Tree>) -> Tree
    decreases ts.len(),
{
    if ts.len() <= 1 {
        ts[0]
    } else {
        node_of(NodeKind::BinaryOp(op), seq![ts[0], fold_binary(op, ts.drop_first())])
    }
}

/// Whether a kind name is the parser's marker for a syntax error.
pub open spec fn is_error_kind(k: Seq<char>) -> bool {
    k == "ERROR"@ || k == "MISSING"@
}

/// The normal form of a node. In order: error nodes, skipped and opaque
/// kinds are opaque leaves; identifiers become variable placeholders by
/// their text; literals keep their kind; directly mapped kinds take their
/// named children; then `if`, `for`, `while`, `loop`, `match`, calls,
/// `return`, blocks, assignments and function definitions take their
/// fields; operator expressions take the kind of their operator text.
/// Another anonymous node is opaque; another named node is its single
/// normalized child, a block of them, or opaque when it has none.
pub open spec fn ts_normal(n: SyntaxNode, m: MappingView, c: Names) -> (Tree, Names)
    decreases n, 2int,
{
    let k = n.kind@;
    let cs = n.children@;
    if is_error_kind(k) || m.skip_kinds.contains(k) || m.opaque_kinds.contains(k) {
        (leaf_of(NodeKind::Opaque), c)
    } else if m.identifier_kinds.contains(k) {
        let (i, c1) = name_slot(c, n.text@, PlaceholderKind::Variable);
        (slot_leaf(6, PlaceholderKind::Variable, i), c1)
    } else if m.literal_kinds.contains_key(k) {
        (leaf_of(NodeKind::Literal(m.literal_kinds[k])), c)
    } else if m.node_kinds.contains_key(k) {
        let (ts, c1) = ts_named(cs, m, c);
        (node_of(m.node_kinds[k], ts), c1)
    } else if m.if_kinds.contains(k) {
        let (a, c1) = ts_field(n, "condition"@, m, c);
        let (b, c2) = ts_field(n, "consequence"@, m, c1);
        let (d, c3) = ts_field(n, "alternative"@, m, c2);
        (node_of(NodeKind::If, seq![a, b, d]), c3)
    } else if m.for_kinds.contains(k) {
        let (a, c1) = ts_field(n, "left"@, m, c);
        let (b, c2) = ts_field(n, "right"@, m, c1);
        let (d, c3) = ts_field(n, "body"@, m, c2);
        (node_of(NodeKind::ForLoop, seq![a, b, d]), c3)
    } else if m.while_kinds.contains(k) {
        let (a, c1) = ts_field(n, "condition"@, m, c);
        let (b, c2) = ts_field(n, "body"@, m, c1);
        (node_of(NodeKind::While, seq![a, b]), c2)
    } else if m.loop_kinds.contains(k) {
        let (a, c1) = ts_field(n, "body"@, m, c);
        (node_of(NodeKind::Loop, seq![a]), c1)
    } else if m.match_kinds.contains(k) {
        let (s, c1) = ts_field(n, "subject"@, m, c);
        let (arms, c2) = ts_arms(cs, m, c1);
        (node_of(NodeKind::Match, seq![s] + arms), c2)
    } else if m.call_kinds.contains(k) {
        let (f, c1) = ts_field(n, "function"@, m, c);
        let i = field_index(cs, "arguments"@);
        let (args, c2) = if 0 <= i < cs.len() {
            ts_named(cs[i].node.children@, m, c1)
        } else {
            (Seq::empty(), c1)
        };
        (node_of(NodeKind::Call, seq![f] + args), c2)
    } else if m.return_kinds.contains(k) {
        let (ts, c1) = ts_named(cs, m, c);
        (node_of(NodeKind::Return, ts), c1)
    } else if m.block_kinds.contains(k) {
        let (ts, c1) = ts_named(cs, m, c);
        (node_of(NodeKind::Block, ts), c1)
    } else if m.assignment_kinds.contains(k) {
        let (a, c1) = ts_field(n, "left"@, m, c);
        let (b, c2) = ts_field(n, "right"@, m, c1);
        (node_of(NodeKind::Assign, seq![a, b]), c2)
    } else if m.function_def_kinds.contains(k) {
        let (ts, c1) = ts_named(cs, m, c);
        (node_of(NodeKind::Block, ts), c1)
    } else if m.binary_op_kinds.contains(k) {
        let op = binary_kind(m, operator_text(cs));
        let li = field_index(cs, "left"@);
        let ri = field_index(cs, "right"@);
        if 0 <= li < cs.len() && 0 <= ri < cs.len() {
            let (a, c1) = ts_normal(cs[li].node, m, c);
            let (b, c2) = ts_normal(cs[ri].node, m, c1);
            (node_of(NodeKind::BinaryOp(op), seq![a, b]), c2)
        } else {
            let (ts, c1) = ts_named_all(cs, m, c);
            if ts.len() == 0 {
                (node_of(NodeKind::BinaryOp(op), seq![absent(), absent()]), c1)
            } else if ts.len() == 1 {
                (node_of(NodeKind::BinaryOp(op), seq![ts[0], absent()]), c1)
            } else {
                (fold_binary(op, ts), c1)
            }
        }
    } else if m.unary_op_kinds.contains(k) {
        let op = unary_kind(m, operator_text(cs));
        let ai = field_index(cs, "argument"@);
        let oi = field_index(cs, "operand"@);
        let i = if ai >= 0 {
            ai
        } else if oi >= 0 {
            oi
        } else {
            first_named(cs)
        };
        let (a, c1) = if 0 <= i < cs.len() {
            ts_normal(cs[i].node, m, c)
        } else {
            (absent(), c)
        };
        (node_of(NodeKind::UnaryOp(op), seq![a]), c1)
    } else if !n.is_named {
        (leaf_of(NodeKind::Opaque), c)
    } else {
        let (ts, c1) = ts_named(cs, m, c);
        if ts.len() == 0 {
            (leaf_of(NodeKind::Opaque), c1)
        } else if ts.len() == 1 {
            (ts[0], c1)
        } else {
            (node_of(NodeKind::Block, ts), c1)
        }
    }
}

/// The normal form of the child filling a field, or the absent sentinel.
pub open spec fn ts_field(n: SyntaxNode, field: Seq<char>, m: MappingView, c: Names) -> (Tree, Names)
    decreases n, 1int,
{
    let cs = n.children@;
    let i = field_index(cs, field);
    if 0 <= i < cs.len() {
        ts_normal(cs[i].node, m, c)
    } else {
        (absent(), c)
    }
}

/// The normal forms of the named children whose kind is not skipped.
pub open spec fn ts_named(cs: Seq<SyntaxChild>, m: MappingView, c: Names) -> (Seq<Tree>, Names)
    decreases cs, 0int,
{
    if cs.len() == 0 {
        (Seq::empty(), c)
    } else {
        let (front, c1) = ts_named(cs.drop_last(), m, c);
        let n = cs[cs.len() - 1].node;
        if n.is_named && !m.skip_kinds.contains(n.kind@) {
            let (t, c2) = ts_normal(n, m, c1);
            (front.push(t), c2)
        } else {
            (front, c1)
        }
    }
}

/// The normal forms of all named children.
pub open spec fn ts_named_all(cs: Seq<SyntaxChild>, m: MappingView, c: Names) -> (Seq<Tree>, Names)
    decreases cs, 0int,
{
    if cs.len() == 0 {
        (Seq::empty(), c)
    } else {
        let (front, c1) = ts_named_all(cs.drop_last(), m, c);
        let n = cs[cs.len() - 1].node;
        if n.is_named {
            let (t, c2) = ts_normal(n, m, c1);
            (front.push(t), c2)
        } else {
            (front, c1)
        }
    }
}

/// The arms of a match: the named children of an arm kind, each as its
/// pattern, guard and consequence.
pub open spec fn ts_arms(cs: Seq<SyntaxChild>, m: MappingView, c: Names) -> (Seq<Tree>, Names)
    decreases cs, 0int,
{
    if cs.len() == 0 {
        (Seq::empty(), c)
    } else {
        let (front, c1) = ts_arms(cs.drop_last(), m, c);
        let n = cs[cs.len() - 1].node;
        if n.is_named && m.match_arm_kinds.contains(n.kind@) {
            let (p, c2) = ts_field(n, "pattern"@, m, c1);
            let (g, c3) = ts_field(n, "guard"@, m, c2);
            let (b, c4) = ts_field(n, "consequence"@, m, c3);
            (front.push(node_of(NodeKind::MatchArm, seq![p, g, b])), c4)
        } else {
            (front, c1)
        }
    }
}

} // verus!
