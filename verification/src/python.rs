//! The Python grammar: its node mapping, and how its definitions become
//! code units.
use vstd::prelude::*;

use crate::kind_table::{insert_all, set_of};
use crate::mapping::{empty_mapping, node_kind_table, MappingView, NodeMapping};
use crate::code_unit::CodeUnitKind;
use crate::node::{BinOpKind, LiteralKind, NodeKind, UnOpKind};
use crate::text::{starts_with, str_eq, str_starts_with};

verus! {

/// The Python mapping: identifiers, literals (int, float, str, bool, None),
/// the binary operators (arithmetic, comparison, logical, bitwise,
/// augmented assignment, floor division, power, membership and identity),
/// the unary operators `not`, `-` and `~`, control flow, calls,
/// assignments, blocks, function definitions, containers, attribute and
/// subscript access, `await` and `yield`.
pub open spec fn python_view() -> MappingView {
    MappingView {
        identifier_kinds: set_of(seq!["identifier"]),
        skip_kinds: set_of(seq!["comment", "decorator"]),
        block_kinds: set_of(seq!["block"]),
        call_kinds: set_of(seq!["call"]),
        return_kinds: set_of(seq!["return_statement"]),
        if_kinds: set_of(seq!["if_statement"]),
        for_kinds: set_of(seq!["for_statement"]),
        while_kinds: set_of(seq!["while_statement"]),
        match_kinds: set_of(seq!["match_statement"]),
        assignment_kinds: set_of(seq!["assignment"]),
        function_def_kinds: set_of(seq!["function_definition"]),
        binary_op_kinds: set_of(seq!["binary_operator", "boolean_operator", "comparison_operator", "augmented_assignment"]),
        unary_op_kinds: set_of(seq!["not_operator", "unary_operator"]),
        match_arm_kinds: set_of(seq!["case_clause"]),
        literal_kinds: insert_all(Map::empty(), seq![("integer", LiteralKind::Int), ("float", LiteralKind::Float), ("string", LiteralKind::Str), ("true", LiteralKind::Bool), ("false", LiteralKind::Bool), ("none", LiteralKind::Null)]),
        binary_op_map: insert_all(Map::empty(), seq![("+", BinOpKind::Add), ("-", BinOpKind::Sub), ("*", BinOpKind::Mul), ("/", BinOpKind::Div), ("%", BinOpKind::Rem), ("==", BinOpKind::Eq), ("!=", BinOpKind::Ne), ("<", BinOpKind::Lt), (">", BinOpKind::Gt), ("<=", BinOpKind::Le), (">=", BinOpKind::Ge), ("and", BinOpKind::And), ("or", BinOpKind::Or), ("&", BinOpKind::BitAnd), ("|", BinOpKind::BitOr), ("^", BinOpKind::BitXor), ("<<", BinOpKind::Shl), (">>", BinOpKind::Shr), ("+=", BinOpKind::AddAssign), ("-=", BinOpKind::SubAssign), ("*=", BinOpKind::MulAssign), ("/=", BinOpKind::DivAssign), ("%=", BinOpKind::RemAssign), ("&=", BinOpKind::BitAndAssign), ("|=", BinOpKind::BitOrAssign), ("^=", BinOpKind::BitXorAssign), ("<<=", BinOpKind::ShlAssign), (">>=", BinOpKind::ShrAssign), ("//", BinOpKind::FloorDiv), ("**", BinOpKind::Pow), ("//=", BinOpKind::FloorDivAssign), ("**=", BinOpKind::PowAssign), ("in", BinOpKind::In), ("not in", BinOpKind::NotIn), ("is", BinOpKind::Is), ("is not", BinOpKind::IsNot)]),
        unary_op_map: insert_all(Map::empty(), seq![("not", UnOpKind::Not), ("-", UnOpKind::Neg), ("~", UnOpKind::Other)]),
        node_kinds: node_kind_table(Map::empty(), seq![("break_statement", NodeKind::Break), ("continue_statement", NodeKind::Continue), ("await", NodeKind::Await), ("yield", NodeKind::Yield), ("tuple", NodeKind::Tuple), ("list", NodeKind::Array), ("set", NodeKind::SetLiteral), ("dictionary", NodeKind::StructInit), ("attribute", NodeKind::FieldAccess), ("subscript", NodeKind::Index)]),
        ..empty_mapping()
    }
}

/// Builds the Python-specific [`NodeMapping`].
pub fn python_mapping() -> (r: NodeMapping)
    ensures
        r@ == python_view(),
{
    let mut m = NodeMapping::new();
    let a = ["identifier"];
    assert(a@ == seq!["identifier"]);
    m = m.identifiers(a.as_slice());
    assert(Set::<Seq<char>>::empty().union(set_of(seq!["identifier"])) =~= set_of(seq!["identifier"]));
    let a = ["comment", "decorator"];
    assert(a@ == seq!["comment", "decorator"]);
    m = m.skip(a.as_slice());
    assert(Set::<Seq<char>>::empty().union(set_of(seq!["comment", "decorator"])) =~= set_of(seq!["comment", "decorator"]));
    let a = ["block"];
    assert(a@ == seq!["block"]);
    m = m.blocks(a.as_slice());
    assert(Set::<Seq<char>>::empty().union(set_of(seq!["block"])) =~= set_of(seq!["block"]));
    let a = ["call"];
    assert(a@ == seq!["call"]);
    m = m.calls(a.as_slice());
    assert(Set::<Seq<char>>::empty().union(set_of(seq!["call"])) =~= set_of(seq!["call"]));
    let a = ["return_statement"];
    assert(a@ == seq!["return_statement"]);
    m = m.return_statements(a.as_slice());
    assert(Set::<Seq<char>>::empty().union(set_of(seq!["return_statement"])) =~= set_of(seq!["return_statement"]));
    let a = ["if_statement"];
    assert(a@ == seq!["if_statement"]);
    m = m.ifs(a.as_slice());
    assert(Set::<Seq<char>>::empty().union(set_of(seq!["if_statement"])) =~= set_of(seq!["if_statement"]));
    let a = ["for_statement"];
    assert(a@ == seq!["for_statement"]);
    m = m.for_loops(a.as_slice());
    assert(Set::<Seq<char>>::empty().union(set_of(seq!["for_statement"])) =~= set_of(seq!["for_statement"]));
    let a = ["while_statement"];
    assert(a@ == seq!["while_statement"]);
    m = m.while_loops(a.as_slice());
    assert(Set::<Seq<char>>::empty().union(set_of(seq!["while_statement"])) =~= set_of(seq!["while_statement"]));
    let a = ["match_statement"];
    assert(a@ == seq!["match_statement"]);
    m = m.matches(a.as_slice());
    assert(Set::<Seq<char>>::empty().union(set_of(seq!["match_statement"])) =~= set_of(seq!["match_statement"]));
    let a = ["assignment"];
    assert(a@ == seq!["assignment"]);
    m = m.assignments(a.as_slice());
    assert(Set::<Seq<char>>::empty().union(set_of(seq!["assignment"])) =~= set_of(seq!["assignment"]));
    let a = ["function_definition"];
    assert(a@ == seq!["function_definition"]);
    m = m.function_defs(a.as_slice());
    assert(Set::<Seq<char>>::empty().union(set_of(seq!["function_definition"])) =~= set_of(seq!["function_definition"]));
    let a = ["binary_operator", "boolean_operator", "comparison_operator", "augmented_assignment"];
    assert(a@ == seq!["binary_operator", "boolean_operator", "comparison_operator", "augmented_assignment"]);
    m = m.binary_op_kinds(a.as_slice());
    assert(Set::<Seq<char>>::empty().union(set_of(seq!["binary_operator", "boolean_operator", "comparison_operator", "augmented_assignment"])) =~= set_of(seq!["binary_operator", "boolean_operator", "comparison_operator", "augmented_assignment"]));
    let a = ["not_operator", "unary_operator"];
    assert(a@ == seq!["not_operator", "unary_operator"]);
    m = m.unary_op_kinds(a.as_slice());
    assert(Set::<Seq<char>>::empty().union(set_of(seq!["not_operator", "unary_operator"])) =~= set_of(seq!["not_operator", "unary_operator"]));
    let a = ["case_clause"];
    assert(a@ == seq!["case_clause"]);
    m = m.match_arms(a.as_slice());
    assert(Set::<Seq<char>>::empty().union(set_of(seq!["case_clause"])) =~= set_of(seq!["case_clause"]));
    let a = [("integer", LiteralKind::Int), ("float", LiteralKind::Float), ("string", LiteralKind::Str), ("true", LiteralKind::Bool), ("false", LiteralKind::Bool), ("none", LiteralKind::Null)];
    assert(a@ == seq![("integer", LiteralKind::Int), ("float", LiteralKind::Float), ("string", LiteralKind::Str), ("true", LiteralKind::Bool), ("false", LiteralKind::Bool), ("none", LiteralKind::Null)]);
    m = m.literals(a.as_slice());
    let a = [("+", BinOpKind::Add), ("-", BinOpKind::Sub), ("*", BinOpKind::Mul), ("/", BinOpKind::Div), ("%", BinOpKind::Rem), ("==", BinOpKind::Eq), ("!=", BinOpKind::Ne), ("<", BinOpKind::Lt), (">", BinOpKind::Gt), ("<=", BinOpKind::Le), (">=", BinOpKind::Ge), ("and", BinOpKind::And), ("or", BinOpKind::Or), ("&", BinOpKind::BitAnd), ("|", BinOpKind::BitOr), ("^", BinOpKind::BitXor), ("<<", BinOpKind::Shl), (">>", BinOpKind::Shr), ("+=", BinOpKind::AddAssign), ("-=", BinOpKind::SubAssign), ("*=", BinOpKind::MulAssign), ("/=", BinOpKind::DivAssign), ("%=", BinOpKind::RemAssign), ("&=", BinOpKind::BitAndAssign), ("|=", BinOpKind::BitOrAssign), ("^=", BinOpKind::BitXorAssign), ("<<=", BinOpKind::ShlAssign), (">>=", BinOpKind::ShrAssign), ("//", BinOpKind::FloorDiv), ("**", BinOpKind::Pow), ("//=", BinOpKind::FloorDivAssign), ("**=", BinOpKind::PowAssign), ("in", BinOpKind::In), ("not in", BinOpKind::NotIn), ("is", BinOpKind::Is), ("is not", BinOpKind::IsNot)];
    assert(a@ == seq![("+", BinOpKind::Add), ("-", BinOpKind::Sub), ("*", BinOpKind::Mul), ("/", BinOpKind::Div), ("%", BinOpKind::Rem), ("==", BinOpKind::Eq), ("!=", BinOpKind::Ne), ("<", BinOpKind::Lt), (">", BinOpKind::Gt), ("<=", BinOpKind::Le), (">=", BinOpKind::Ge), ("and", BinOpKind::And), ("or", BinOpKind::Or), ("&", BinOpKind::BitAnd), ("|", BinOpKind::BitOr), ("^", BinOpKind::BitXor), ("<<", BinOpKind::Shl), (">>", BinOpKind::Shr), ("+=", BinOpKind::AddAssign), ("-=", BinOpKind::SubAssign), ("*=", BinOpKind::MulAssign), ("/=", BinOpKind::DivAssign), ("%=", BinOpKind::RemAssign), ("&=", BinOpKind::BitAndAssign), ("|=", BinOpKind::BitOrAssign), ("^=", BinOpKind::BitXorAssign), ("<<=", BinOpKind::ShlAssign), (">>=", BinOpKind::ShrAssign), ("//", BinOpKind::FloorDiv), ("**", BinOpKind::Pow), ("//=", BinOpKind::FloorDivAssign), ("**=", BinOpKind::PowAssign), ("in", BinOpKind::In), ("not in", BinOpKind::NotIn), ("is", BinOpKind::Is), ("is not", BinOpKind::IsNot)]);
    m = m.binary_ops(a.as_slice());
    let a = [("not", UnOpKind::Not), ("-", UnOpKind::Neg), ("~", UnOpKind::Other)];
    assert(a@ == seq![("not", UnOpKind::Not), ("-", UnOpKind::Neg), ("~", UnOpKind::Other)]);
    m = m.unary_ops(a.as_slice());
    let a = [("break_statement", NodeKind::Break), ("continue_statement", NodeKind::Continue), ("await", NodeKind::Await), ("yield", NodeKind::Yield), ("tuple", NodeKind::Tuple), ("list", NodeKind::Array), ("set", NodeKind::SetLiteral), ("dictionary", NodeKind::StructInit), ("attribute", NodeKind::FieldAccess), ("subscript", NodeKind::Index)];
    assert(a@ == seq![("break_statement", NodeKind::Break), ("continue_statement", NodeKind::Continue), ("await", NodeKind::Await), ("yield", NodeKind::Yield), ("tuple", NodeKind::Tuple), ("list", NodeKind::Array), ("set", NodeKind::SetLiteral), ("dictionary", NodeKind::StructInit), ("attribute", NodeKind::FieldAccess), ("subscript", NodeKind::Index)]);
    m = m.node_kinds(a.as_slice());
    m
}

/// The kind of code unit that a Python definition is: a lambda is a
/// closure, a class a class, and anything else a function.
pub open spec fn python_kind(node_kind: Seq<char>) -> CodeUnitKind {
    if node_kind == "lambda"@ {
        CodeUnitKind::Closure
    } else if node_kind == "class_definition"@ {
        CodeUnitKind::Class
    } else {
        CodeUnitKind::Function
    }
}

/// The kind of code unit that a Python definition is.
pub fn python_unit_kind(node_kind: &str) -> (r: CodeUnitKind)
    ensures
        r == python_kind(node_kind@),
{
    if str_eq(node_kind, "lambda") {
        CodeUnitKind::Closure
    } else if str_eq(node_kind, "class_definition") {
        CodeUnitKind::Class
    } else {
        CodeUnitKind::Function
    }
}

/// Whether a Python definition is test code, by pytest's conventions: a
/// name that starts with `test_`, or a class whose name starts with `Test`.
pub fn python_is_test(name: &str, node_kind: &str) -> (r: bool)
    ensures
        r == (starts_with(name@, "test_"@) || (node_kind@ == "class_definition"@ && starts_with(
            name@,
            "Test"@,
        ))),
{
    str_starts_with(name, "test_") || (str_eq(node_kind, "class_definition") && str_starts_with(
        name,
        "Test",
    ))
}

} // verus!
