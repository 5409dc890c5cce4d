//! Normalization of concrete syntax trees into [`NormalizedNode`] trees,
//! as [`crate::ts_normal_form`] defines it.
use vstd::prelude::*;

use crate::mapping::NodeMapping;
use crate::node::{lemma_trees_of, lemma_trees_of_concat, lemma_trees_of_push, trees_of, BinOpKind, NodeKind, NormalizedNode, PlaceholderKind, Tree, UnOpKind};
use crate::normalization_context::NormalizationContext;
use crate::rust_normal_form::{absent, node_of};
use crate::text::str_eq;
use crate::ts_normal_form::{
    binary_kind, field_index, first_named, fills, fold_binary, is_error_kind, operator_text,
    ts_arms, ts_field, ts_named, ts_named_all, ts_normal, unary_kind, SyntaxChild, SyntaxNode,
};

verus! {

/// Whether the child fills the named field.
fn child_fills(c: &SyntaxChild, field: &str) -> (r: bool)
    ensures
        r == fills(*c, field@),
{
    match &c.field {
        Some(f) => str_eq(f.as_str(), field),
        None => false,
    }
}

/// The position of the first child that fills the field.
fn field_position(cs: &Vec<SyntaxChild>, field: &str) -> (r: Option<usize>)
    ensures
        match r {
            Some(i) => i == field_index(cs@, field@) && i < cs@.len(),
            None => field_index(cs@, field@) < 0,
        },
{
    let mut found: Option<usize> = None;
    let n = cs.len();
    for i in 0..n
        invariant
            n == cs@.len(),
            match found {
                Some(k) => k == field_index(cs@.take(i as int), field@) && k < i,
                None => field_index(cs@.take(i as int), field@) < 0,
            },
    {
        proof {
            assert(cs@.take(i + 1).drop_last() =~= cs@.take(i as int));
        }
        if found.is_none() && child_fills(&cs[i], field) {
            found = Some(i);
        }
    }
    proof {
        assert(cs@.take(n as int) =~= cs@);
    }
    found
}

/// The position of the first named child.
fn first_named_position(cs: &Vec<SyntaxChild>) -> (r: Option<usize>)
    ensures
        match r {
            Some(i) => i == first_named(cs@) && i < cs@.len(),
            None => first_named(cs@) < 0,
        },
{
    let mut found: Option<usize> = None;
    let n = cs.len();
    for i in 0..n
        invariant
            n == cs@.len(),
            match found {
                Some(k) => k == first_named(cs@.take(i as int)) && k < i,
                None => first_named(cs@.take(i as int)) < 0,
            },
    {
        proof {
            assert(cs@.take(i + 1).drop_last() =~= cs@.take(i as int));
        }
        if found.is_none() && cs[i].node.is_named {
            found = Some(i);
        }
    }
    proof {
        assert(cs@.take(n as int) =~= cs@);
    }
    found
}

/// The text of the first anonymous child whose text is not empty.
fn find_operator_text(cs: &Vec<SyntaxChild>) -> (r: Option<&String>)
    ensures
        match r {
            Some(t) => operator_text(cs@) == Some(t@),
            None => operator_text(cs@) is None,
        },
{
    let mut found: Option<&String> = None;
    let n = cs.len();
    for i in 0..n
        invariant
            n == cs@.len(),
            match found {
                Some(t) => operator_text(cs@.take(i as int)) == Some(t@),
                None => operator_text(cs@.take(i as int)) is None,
            },
    {
        proof {
            assert(cs@.take(i + 1).drop_last() =~= cs@.take(i as int));
        }
        let child = &cs[i].node;
        if found.is_none() && !child.is_named && child.text.as_str().unicode_len() > 0 {
            found = Some(&child.text);
        }
    }
    proof {
        assert(cs@.take(n as int) =~= cs@);
    }
    found
}

/// Whether a kind name marks a syntax error.
fn error_kind(kind: &str) -> (r: bool)
    ensures
        r == is_error_kind(kind@),
{
    str_eq(kind, "ERROR") || str_eq(kind, "MISSING")
}

/// The kind of the binary operator whose text the node holds.
fn binary_op_kind_of(cs: &Vec<SyntaxChild>, mapping: &NodeMapping) -> (r: BinOpKind)
    ensures
        r == binary_kind(mapping@, operator_text(cs@)),
{
    match find_operator_text(cs) {
        Some(text) => match mapping.binary_op_map.get(text.as_str()) {
            Some(k) => *k,
            None => BinOpKind::Other,
        },
        None => BinOpKind::Other,
    }
}

/// The kind of the unary operator whose text the node holds.
fn unary_op_kind_of(cs: &Vec<SyntaxChild>, mapping: &NodeMapping) -> (r: UnOpKind)
    ensures
        r == unary_kind(mapping@, operator_text(cs@)),
{
    match find_operator_text(cs) {
        Some(text) => match mapping.unary_op_map.get(text.as_str()) {
            Some(k) => *k,
            None => UnOpKind::Other,
        },
        None => UnOpKind::Other,
    }
}

/// Folds operands from the right into nested binary operations.
fn fold_operands(op: BinOpKind, operands: Vec<NormalizedNode>) -> (r: NormalizedNode)
    requires
        operands@.len() >= 1,
    ensures
        r@ == fold_binary(op, trees_of(operands@)),
{
    let ghost ts = trees_of(operands@);
    proof {
        lemma_trees_of(operands@);
    }
    let mut rest = operands;
    let mut right = rest.pop().unwrap();
    proof {
        assert(ts.subrange(ts.len() - 1, ts.len() as int) =~= seq![right@]);
        reveal_with_fuel(fold_binary, 2);
    }
    while rest.len() > 0
        invariant
            ts == trees_of(operands@),
            ts.len() == operands@.len(),
            forall|j: int| 0 <= j < ts.len() ==> #[trigger] ts[j] == operands@[j]@,
            rest@.len() < ts.len(),
            forall|j: int| 0 <= j < rest@.len() ==> #[trigger] rest@[j] == operands@[j],
            right@ == fold_binary(op, ts.subrange(rest@.len() as int, ts.len() as int)),
        decreases rest@.len(),
    {
        let operand = rest.pop().unwrap();
        let ghost k = rest@.len() as int;
        proof {
            let tail = ts.subrange(k, ts.len() as int);
            assert(tail.drop_first() =~= ts.subrange(k + 1, ts.len() as int));
            assert(tail[0] == operand@);
        }
        right = NormalizedNode::node2(NodeKind::BinaryOp(op), operand, right);
    }
    proof {
        assert(ts.subrange(0, ts.len() as int) =~= ts);
    }
    right
}

/// Normalizes a syntax node under the mapping.
pub fn normalize_ts_node(
    node: &SyntaxNode,
    mapping: &NodeMapping,
    ctx: &mut NormalizationContext,
) -> (r: NormalizedNode)
    ensures
        (r@, final(ctx)@) == ts_normal(*node, mapping@, old(ctx)@),
    decreases node, 3int,
{
    let kind = node.kind.as_str();
    let cs = &node.children;
    if error_kind(kind) || mapping.skip_kinds.contains(kind) || mapping.opaque_kinds.contains(kind) {
        return NormalizedNode::leaf(NodeKind::Opaque);
    }
    if mapping.identifier_kinds.contains(kind) {
        let idx = ctx.placeholder(node.text.as_str(), PlaceholderKind::Variable);
        return NormalizedNode::leaf(NodeKind::Placeholder(PlaceholderKind::Variable, idx));
    }
    match mapping.literal_kinds.get(kind) {
        Some(lit) => {
            return NormalizedNode::leaf(NodeKind::Literal(*lit));
        },
        None => {},
    }
    match mapping.node_kinds.get(kind) {
        Some(mapped) => {
            let children = normalize_named_children(cs, mapping, ctx);
            return NormalizedNode::with_children(mapped.clone(), children);
        },
        None => {},
    }
    if mapping.if_kinds.contains(kind) {
        let a = get_field_or_none(node, "condition", mapping, ctx);
        let b = get_field_or_none(node, "consequence", mapping, ctx);
        let d = get_field_or_none(node, "alternative", mapping, ctx);
        return NormalizedNode::node3(NodeKind::If, a, b, d);
    }
    if mapping.for_kinds.contains(kind) {
        let a = get_field_or_none(node, "left", mapping, ctx);
        let b = get_field_or_none(node, "right", mapping, ctx);
        let d = get_field_or_none(node, "body", mapping, ctx);
        return NormalizedNode::node3(NodeKind::ForLoop, a, b, d);
    }
    if mapping.while_kinds.contains(kind) {
        let a = get_field_or_none(node, "condition", mapping, ctx);
        let b = get_field_or_none(node, "body", mapping, ctx);
        return NormalizedNode::node2(NodeKind::While, a, b);
    }
    if mapping.loop_kinds.contains(kind) {
        let a = get_field_or_none(node, "body", mapping, ctx);
        return NormalizedNode::node1(NodeKind::Loop, a);
    }
    if mapping.match_kinds.contains(kind) {
        return normalize_match(node, mapping, ctx);
    }
    if mapping.call_kinds.contains(kind) {
        return normalize_call(node, mapping, ctx);
    }
    if mapping.return_kinds.contains(kind) {
        let children = normalize_named_children(cs, mapping, ctx);
        return NormalizedNode::with_children(NodeKind::Return, children);
    }
    if mapping.block_kinds.contains(kind) {
        let children = normalize_named_children(cs, mapping, ctx);
        return NormalizedNode::with_children(NodeKind::Block, children);
    }
    if mapping.assignment_kinds.contains(kind) {
        let a = get_field_or_none(node, "left", mapping, ctx);
        let b = get_field_or_none(node, "right", mapping, ctx);
        return NormalizedNode::node2(NodeKind::Assign, a, b);
    }
    if mapping.function_def_kinds.contains(kind) {
        let children = normalize_named_children(cs, mapping, ctx);
        return NormalizedNode::with_children(NodeKind::Block, children);
    }
    if mapping.binary_op_kinds.contains(kind) {
        return normalize_binary_op(node, mapping, ctx);
    }
    if mapping.unary_op_kinds.contains(kind) {
        return normalize_unary_op(node, mapping, ctx);
    }
    if !node.is_named {
        return NormalizedNode::leaf(NodeKind::Opaque);
    }
    let mut children = normalize_named_children(cs, mapping, ctx);
    proof {
        lemma_trees_of(children@);
    }
    if children.len() == 0 {
        return NormalizedNode::leaf(NodeKind::Opaque);
    }
    if children.len() == 1 {
        return children.remove(0);
    }
    NormalizedNode::with_children(NodeKind::Block, children)
}

/// The normal form of the child filling a field, or the absent sentinel.
fn get_field_or_none(
    node: &SyntaxNode,
    field: &str,
    mapping: &NodeMapping,
    ctx: &mut NormalizationContext,
) -> (r: NormalizedNode)
    ensures
        (r@, final(ctx)@) == ts_field(*node, field@, mapping@, old(ctx)@),
    decreases node, 1int,
{
    match field_position(&node.children, field) {
        Some(i) => {
            proof {
                assert(decreases_to!(node => node.children));
                assert(decreases_to!(node.children => node.children@[i as int]));
            }
            normalize_ts_node(&node.children[i].node, mapping, ctx)
        },
        None => NormalizedNode::none(),
    }
}

/// The normal forms of the named children whose kind is not skipped.
pub fn normalize_named_children(
    cs: &Vec<SyntaxChild>,
    mapping: &NodeMapping,
    ctx: &mut NormalizationContext,
) -> (r: Vec<NormalizedNode>)
    ensures
        (trees_of(r@), final(ctx)@) == ts_named(cs@, mapping@, old(ctx)@),
    decreases cs, 0int,
{
    let ghost c0 = ctx@;
    let mut out: Vec<NormalizedNode> = Vec::new();
    let n = cs.len();
    for i in 0..n
        invariant
            n == cs@.len(),
            (trees_of(out@), ctx@) == ts_named(cs@.take(i as int), mapping@, c0),
    {
        proof {
            assert(cs@.take(i + 1).drop_last() =~= cs@.take(i as int));
            assert(decreases_to!(cs => cs@[i as int]));
        }
        let child = &cs[i].node;
        if child.is_named && !mapping.skip_kinds.contains(child.kind.as_str()) {
            let t = normalize_ts_node(child, mapping, ctx);
            proof {
                lemma_trees_of_push(out@, t);
            }
            out.push(t);
        }
    }
    proof {
        assert(cs@.take(n as int) =~= cs@);
    }
    out
}

/// The normal forms of all named children.
fn normalize_all_named(
    cs: &Vec<SyntaxChild>,
    mapping: &NodeMapping,
    ctx: &mut NormalizationContext,
) -> (r: Vec<NormalizedNode>)
    ensures
        (trees_of(r@), final(ctx)@) == ts_named_all(cs@, mapping@, old(ctx)@),
    decreases cs, 0int,
{
    let ghost c0 = ctx@;
    let mut out: Vec<NormalizedNode> = Vec::new();
    let n = cs.len();
    for i in 0..n
        invariant
            n == cs@.len(),
            (trees_of(out@), ctx@) == ts_named_all(cs@.take(i as int), mapping@, c0),
    {
        proof {
            assert(cs@.take(i + 1).drop_last() =~= cs@.take(i as int));
            assert(decreases_to!(cs => cs@[i as int]));
        }
        let child = &cs[i].node;
        if child.is_named {
            let t = normalize_ts_node(child, mapping, ctx);
            proof {
                lemma_trees_of_push(out@, t);
            }
            out.push(t);
        }
    }
    proof {
        assert(cs@.take(n as int) =~= cs@);
    }
    out
}

/// The arms of a match.
fn normalize_arms(cs: &Vec<SyntaxChild>, mapping: &NodeMapping, ctx: &mut NormalizationContext) -> (r:
    Vec<NormalizedNode>)
    ensures
        (trees_of(r@), final(ctx)@) == ts_arms(cs@, mapping@, old(ctx)@),
    decreases cs, 0int,
{
    let ghost c0 = ctx@;
    let mut out: Vec<NormalizedNode> = Vec::new();
    let n = cs.len();
    for i in 0..n
        invariant
            n == cs@.len(),
            (trees_of(out@), ctx@) == ts_arms(cs@.take(i as int), mapping@, c0),
    {
        proof {
            assert(cs@.take(i + 1).drop_last() =~= cs@.take(i as int));
            assert(decreases_to!(cs => cs@[i as int]));
        }
        let child = &cs[i].node;
        if child.is_named && mapping.match_arm_kinds.contains(child.kind.as_str()) {
            let p = get_field_or_none(child, "pattern", mapping, ctx);
            let g = get_field_or_none(child, "guard", mapping, ctx);
            let b = get_field_or_none(child, "consequence", mapping, ctx);
            let t = NormalizedNode::node3(NodeKind::MatchArm, p, g, b);
            proof {
                lemma_trees_of_push(out@, t);
            }
            out.push(t);
        }
    }
    proof {
        assert(cs@.take(n as int) =~= cs@);
    }
    out
}

/// A node whose children are `first` followed by `rest`.
fn prefixed(kind: NodeKind, first: NormalizedNode, rest: Vec<NormalizedNode>) -> (r: NormalizedNode)
    ensures
        r@ == (Tree { kind: kind@, children: seq![first@] + trees_of(rest@) }),
{
    let mut children: Vec<NormalizedNode> = Vec::new();
    children.push(first);
    proof {
        lemma_trees_of(children@);
        assert(trees_of(children@) =~= seq![first@]);
    }
    let ghost a = children@;
    let mut rest = rest;
    let ghost b = rest@;
    children.append(&mut rest);
    proof {
        lemma_trees_of_concat(a, b);
    }
    NormalizedNode::with_children(kind, children)
}

/// A match: its subject, then its arms.
fn normalize_match(node: &SyntaxNode, mapping: &NodeMapping, ctx: &mut NormalizationContext) -> (r:
    NormalizedNode)
    requires
        mapping@.match_kinds.contains(node.kind@),
    ensures
        ({
            let (s, c1) = ts_field(*node, "subject"@, mapping@, old(ctx)@);
            let (arms, c2) = ts_arms(node.children@, mapping@, c1);
            r@ == node_of(NodeKind::Match, seq![s] + arms) && final(ctx)@ == c2
        }),
    decreases node, 2int,
{
    let s = get_field_or_none(node, "subject", mapping, ctx);
    proof {
        assert(decreases_to!(node => node.children));
    }
    let arms = normalize_arms(&node.children, mapping, ctx);
    prefixed(NodeKind::Match, s, arms)
}

/// A call: its function, then the named children of its arguments.
fn normalize_call(node: &SyntaxNode, mapping: &NodeMapping, ctx: &mut NormalizationContext) -> (r:
    NormalizedNode)
    ensures
        ({
            let cs = node.children@;
            let (f, c1) = ts_field(*node, "function"@, mapping@, old(ctx)@);
            let i = field_index(cs, "arguments"@);
            let (args, c2) = if 0 <= i < cs.len() {
                ts_named(cs[i].node.children@, mapping@, c1)
            } else {
                (Seq::<Tree>::empty(), c1)
            };
            r@ == node_of(NodeKind::Call, seq![f] + args) && final(ctx)@ == c2
        }),
    decreases node, 2int,
{
    let f = get_field_or_none(node, "function", mapping, ctx);
    let args = match field_position(&node.children, "arguments") {
        Some(i) => {
            proof {
                assert(decreases_to!(node => node.children));
                assert(decreases_to!(node.children => node.children@[i as int]));
            }
            normalize_named_children(&node.children[i].node.children, mapping, ctx)
        },
        None => {
            let v: Vec<NormalizedNode> = Vec::new();
            proof {
                lemma_trees_of(v@);
                assert(trees_of(v@) =~= Seq::<Tree>::empty());
            }
            v
        },
    };
    prefixed(NodeKind::Call, f, args)
}

/// A binary operation: the `left` and `right` fields when both are there,
/// else the named children folded from the right.
fn normalize_binary_op(node: &SyntaxNode, mapping: &NodeMapping, ctx: &mut NormalizationContext) -> (r:
    NormalizedNode)
    ensures
        ({
            let cs = node.children@;
            let op = binary_kind(mapping@, operator_text(cs));
            let li = field_index(cs, "left"@);
            let ri = field_index(cs, "right"@);
            if 0 <= li < cs.len() && 0 <= ri < cs.len() {
                let (a, c1) = ts_normal(cs[li].node, mapping@, old(ctx)@);
                let (b, c2) = ts_normal(cs[ri].node, mapping@, c1);
                r@ == node_of(NodeKind::BinaryOp(op), seq![a, b]) && final(ctx)@ == c2
            } else {
                let (ts, c1) = ts_named_all(cs, mapping@, old(ctx)@);
                final(ctx)@ == c1 && r@ == if ts.len() == 0 {
                    node_of(NodeKind::BinaryOp(op), seq![absent(), absent()])
                } else if ts.len() == 1 {
                    node_of(NodeKind::BinaryOp(op), seq![ts[0], absent()])
                } else {
                    fold_binary(op, ts)
                }
            }
        }),
    decreases node, 2int,
{
    let op = binary_op_kind_of(&node.children, mapping);
    let left = field_position(&node.children, "left");
    let right = field_position(&node.children, "right");
    proof {
        assert(decreases_to!(node => node.children));
    }
    match (left, right) {
        (Some(li), Some(ri)) => {
            proof {
                assert(decreases_to!(node.children => node.children@[li as int]));
                assert(decreases_to!(node.children => node.children@[ri as int]));
            }
            let a = normalize_ts_node(&node.children[li].node, mapping, ctx);
            let b = normalize_ts_node(&node.children[ri].node, mapping, ctx);
            NormalizedNode::node2(NodeKind::BinaryOp(op), a, b)
        },
        _ => {
            let mut operands = normalize_all_named(&node.children, mapping, ctx);
            proof {
                lemma_trees_of(operands@);
            }
            if operands.len() == 0 {
                NormalizedNode::node2(
                    NodeKind::BinaryOp(op),
                    NormalizedNode::none(),
                    NormalizedNode::none(),
                )
            } else if operands.len() == 1 {
                let l = operands.remove(0);
                NormalizedNode::node2(NodeKind::BinaryOp(op), l, NormalizedNode::none())
            } else {
                fold_operands(op, operands)
            }
        },
    }
}

/// A unary operation: its `argument` or `operand` field, else its first
/// named child.
fn normalize_unary_op(node: &SyntaxNode, mapping: &NodeMapping, ctx: &mut NormalizationContext) -> (r:
    NormalizedNode)
    ensures
        ({
            let cs = node.children@;
            let op = unary_kind(mapping@, operator_text(cs));
            let ai = field_index(cs, "argument"@);
            let oi = field_index(cs, "operand"@);
            let i = if ai >= 0 {
                ai
            } else if oi >= 0 {
                oi
            } else {
                first_named(cs)
            };
            let (a, c1) = if 0 <= i < cs.len() {
                ts_normal(cs[i].node, mapping@, old(ctx)@)
            } else {
                (absent(), old(ctx)@)
            };
            r@ == node_of(NodeKind::UnaryOp(op), seq![a]) && final(ctx)@ == c1
        }),
    decreases node, 2int,
{
    let op = unary_op_kind_of(&node.children, mapping);
    let position = match field_position(&node.children, "argument") {
        Some(i) => Some(i),
        None => match field_position(&node.children, "operand") {
            Some(i) => Some(i),
            None => first_named_position(&node.children),
        },
    };
    let operand = match position {
        Some(i) => {
            proof {
                assert(decreases_to!(node => node.children));
                assert(decreases_to!(node.children => node.children@[i as int]));
            }
            normalize_ts_node(&node.children[i].node, mapping, ctx)
        },
        None => NormalizedNode::none(),
    };
    NormalizedNode::node1(NodeKind::UnaryOp(op), operand)
}

} // verus!
