//! The table that maps a grammar's node kinds to normalized concepts.
use vstd::prelude::*;

use crate::kind_table::{insert_all, set_of, table_of, KindSet, KindTable};
use crate::node::{BinOpKind, LiteralKind, NodeKind, UnOpKind};

verus! {

/// Table-driven mapping from a grammar's node kinds to normalized concepts.
pub struct NodeMapping {
    /// Node kinds that represent identifiers (variables, function names, etc.).
    pub identifier_kinds: KindSet,
    /// Node kinds that represent literals, with their `LiteralKind`.
    pub literal_kinds: KindTable<LiteralKind>,
    /// Binary operator text, with its `BinOpKind`.
    pub binary_op_map: KindTable<BinOpKind>,
    /// Unary operator text, with its `UnOpKind`.
    pub unary_op_map: KindTable<UnOpKind>,
    /// Node kinds to skip entirely (e.g., comments, decorators).
    pub skip_kinds: KindSet,
    /// Node kinds to treat as opaque leaves.
    pub opaque_kinds: KindSet,
    /// Node kinds representing block/suite constructs.
    pub block_kinds: KindSet,
    /// Node kinds representing function/method calls.
    pub call_kinds: KindSet,
    /// Node kinds representing return statements.
    pub return_kinds: KindSet,
    /// Node kinds representing if/conditional constructs.
    pub if_kinds: KindSet,
    /// Node kinds representing infinite loop constructs.
    pub loop_kinds: KindSet,
    /// Node kinds representing for-loop constructs.
    pub for_kinds: KindSet,
    /// Node kinds representing while-loop constructs.
    pub while_kinds: KindSet,
    /// Node kinds representing match/switch constructs.
    pub match_kinds: KindSet,
    /// Node kinds representing assignment statements.
    pub assignment_kinds: KindSet,
    /// Node kinds representing function definitions.
    pub function_def_kinds: KindSet,
    /// Node kinds of binary operator expressions; the operator text is looked up in `binary_op_map`.
    pub binary_op_kinds: KindSet,
    /// Node kinds of unary operator expressions; the operator text is looked up in `unary_op_map`.
    pub unary_op_kinds: KindSet,
    /// Node kinds of the arms of a match: `[pattern, guard_or_None, body]`.
    pub match_arm_kinds: KindSet,
    /// Direct node-kind-to-`NodeKind` mappings: named children are normalized and attached as children.
    pub node_kinds: KindTable<NodeKind>,
}

/// The mathematical value of a [`NodeMapping`].
pub struct MappingView {
    pub identifier_kinds: Set<Seq<char>>,
    pub literal_kinds: Map<Seq<char>, LiteralKind>,
    pub binary_op_map: Map<Seq<char>, BinOpKind>,
    pub unary_op_map: Map<Seq<char>, UnOpKind>,
    pub skip_kinds: Set<Seq<char>>,
    pub opaque_kinds: Set<Seq<char>>,
    pub block_kinds: Set<Seq<char>>,
    pub call_kinds: Set<Seq<char>>,
    pub return_kinds: Set<Seq<char>>,
    pub if_kinds: Set<Seq<char>>,
    pub loop_kinds: Set<Seq<char>>,
    pub for_kinds: Set<Seq<char>>,
    pub while_kinds: Set<Seq<char>>,
    pub match_kinds: Set<Seq<char>>,
    pub assignment_kinds: Set<Seq<char>>,
    pub function_def_kinds: Set<Seq<char>>,
    pub binary_op_kinds: Set<Seq<char>>,
    pub unary_op_kinds: Set<Seq<char>>,
    pub match_arm_kinds: Set<Seq<char>>,
    pub node_kinds: Map<Seq<char>, NodeKind>,
}

impl View for NodeMapping {
    type V = MappingView;

    open spec fn view(&self) -> MappingView {
        MappingView {
            identifier_kinds: self.identifier_kinds@,
            literal_kinds: self.literal_kinds@,
            binary_op_map: self.binary_op_map@,
            unary_op_map: self.unary_op_map@,
            skip_kinds: self.skip_kinds@,
            opaque_kinds: self.opaque_kinds@,
            block_kinds: self.block_kinds@,
            call_kinds: self.call_kinds@,
            return_kinds: self.return_kinds@,
            if_kinds: self.if_kinds@,
            loop_kinds: self.loop_kinds@,
            for_kinds: self.for_kinds@,
            while_kinds: self.while_kinds@,
            match_kinds: self.match_kinds@,
            assignment_kinds: self.assignment_kinds@,
            function_def_kinds: self.function_def_kinds@,
            binary_op_kinds: self.binary_op_kinds@,
            unary_op_kinds: self.unary_op_kinds@,
            match_arm_kinds: self.match_arm_kinds@,
            node_kinds: self.node_kinds@,
        }
    }
}

/// The table that a node-kind slice makes, later pairs overriding.
pub open spec fn node_kind_table(m: Map<Seq<char>, NodeKind>, pairs: Seq<(&'static str, NodeKind)>) -> Map<Seq<char>, NodeKind>
    decreases pairs.len(),
{
    if pairs.len() == 0 {
        m
    } else {
        let last = pairs[pairs.len() - 1];
        node_kind_table(m, pairs.drop_last()).insert(last.0@, last.1)
    }
}

/// The mapping in which every set and table is empty.
pub open spec fn empty_mapping() -> MappingView {
    MappingView {
        identifier_kinds: Set::empty(),
        literal_kinds: Map::empty(),
        binary_op_map: Map::empty(),
        unary_op_map: Map::empty(),
        skip_kinds: Set::empty(),
        opaque_kinds: Set::empty(),
        block_kinds: Set::empty(),
        call_kinds: Set::empty(),
        return_kinds: Set::empty(),
        if_kinds: Set::empty(),
        loop_kinds: Set::empty(),
        for_kinds: Set::empty(),
        while_kinds: Set::empty(),
        match_kinds: Set::empty(),
        assignment_kinds: Set::empty(),
        function_def_kinds: Set::empty(),
        binary_op_kinds: Set::empty(),
        unary_op_kinds: Set::empty(),
        match_arm_kinds: Set::empty(),
        node_kinds: Map::empty(),
    }
}

impl Default for NodeMapping {
    /// An empty mapping, as [`NodeMapping::new`] gives.
    fn default() -> (r: NodeMapping)
        ensures
            r@ == empty_mapping(),
    {
        NodeMapping::new()
    }
}

impl NodeMapping {
    /// Create an empty mapping. Use the builder methods to populate it.
    pub fn new() -> (r: NodeMapping)
        ensures
            r@ == empty_mapping(),
    {
        NodeMapping {
            identifier_kinds: KindSet::new(),
            literal_kinds: KindTable::new(),
            binary_op_map: KindTable::new(),
            unary_op_map: KindTable::new(),
            skip_kinds: KindSet::new(),
            opaque_kinds: KindSet::new(),
            block_kinds: KindSet::new(),
            call_kinds: KindSet::new(),
            return_kinds: KindSet::new(),
            if_kinds: KindSet::new(),
            loop_kinds: KindSet::new(),
            for_kinds: KindSet::new(),
            while_kinds: KindSet::new(),
            match_kinds: KindSet::new(),
            assignment_kinds: KindSet::new(),
            function_def_kinds: KindSet::new(),
            binary_op_kinds: KindSet::new(),
            unary_op_kinds: KindSet::new(),
            match_arm_kinds: KindSet::new(),
            node_kinds: KindTable::new(),
        }
    }

    /// Adds node kinds that represent identifiers (variables, function names, etc.).
    pub fn identifiers(self, kinds: &[&'static str]) -> (r: NodeMapping)
        ensures
            r@ == (MappingView { identifier_kinds: self@.identifier_kinds.union(set_of(kinds@)), ..self@ }),
    {
        let mut m = self;
        m.identifier_kinds.extend(kinds);
        m
    }

    /// Adds node kinds to skip entirely (e.g., comments, decorators).
    pub fn skip(self, kinds: &[&'static str]) -> (r: NodeMapping)
        ensures
            r@ == (MappingView { skip_kinds: self@.skip_kinds.union(set_of(kinds@)), ..self@ }),
    {
        let mut m = self;
        m.skip_kinds.extend(kinds);
        m
    }

    /// Adds node kinds to treat as opaque leaves.
    pub fn opaque(self, kinds: &[&'static str]) -> (r: NodeMapping)
        ensures
            r@ == (MappingView { opaque_kinds: self@.opaque_kinds.union(set_of(kinds@)), ..self@ }),
    {
        let mut m = self;
        m.opaque_kinds.extend(kinds);
        m
    }

    /// Adds node kinds representing block/suite constructs.
    pub fn blocks(self, kinds: &[&'static str]) -> (r: NodeMapping)
        ensures
            r@ == (MappingView { block_kinds: self@.block_kinds.union(set_of(kinds@)), ..self@ }),
    {
        let mut m = self;
        m.block_kinds.extend(kinds);
        m
    }

    /// Adds node kinds representing function/method calls.
    pub fn calls(self, kinds: &[&'static str]) -> (r: NodeMapping)
        ensures
            r@ == (MappingView { call_kinds: self@.call_kinds.union(set_of(kinds@)), ..self@ }),
    {
        let mut m = self;
        m.call_kinds.extend(kinds);
        m
    }

    /// Adds node kinds representing return statements.
    pub fn return_statements(self, kinds: &[&'static str]) -> (r: NodeMapping)
        ensures
            r@ == (MappingView { return_kinds: self@.return_kinds.union(set_of(kinds@)), ..self@ }),
    {
        let mut m = self;
        m.return_kinds.extend(kinds);
        m
    }

    /// Adds node kinds representing if/conditional constructs.
    pub fn ifs(self, kinds: &[&'static str]) -> (r: NodeMapping)
        ensures
            r@ == (MappingView { if_kinds: self@.if_kinds.union(set_of(kinds@)), ..self@ }),
    {
        let mut m = self;
        m.if_kinds.extend(kinds);
        m
    }

    /// Adds node kinds representing infinite loop constructs.
    pub fn loops(self, kinds: &[&'static str]) -> (r: NodeMapping)
        ensures
            r@ == (MappingView { loop_kinds: self@.loop_kinds.union(set_of(kinds@)), ..self@ }),
    {
        let mut m = self;
        m.loop_kinds.extend(kinds);
        m
    }

    /// Adds node kinds representing for-loop constructs.
    pub fn for_loops(self, kinds: &[&'static str]) -> (r: NodeMapping)
        ensures
            r@ == (MappingView { for_kinds: self@.for_kinds.union(set_of(kinds@)), ..self@ }),
    {
        let mut m = self;
        m.for_kinds.extend(kinds);
        m
    }

    /// Adds node kinds representing while-loop constructs.
    pub fn while_loops(self, kinds: &[&'static str]) -> (r: NodeMapping)
        ensures
            r@ == (MappingView { while_kinds: self@.while_kinds.union(set_of(kinds@)), ..self@ }),
    {
        let mut m = self;
        m.while_kinds.extend(kinds);
        m
    }

    /// Adds node kinds representing match/switch constructs.
    pub fn matches(self, kinds: &[&'static str]) -> (r: NodeMapping)
        ensures
            r@ == (MappingView { match_kinds: self@.match_kinds.union(set_of(kinds@)), ..self@ }),
    {
        let mut m = self;
        m.match_kinds.extend(kinds);
        m
    }

    /// Adds node kinds representing assignment statements.
    pub fn assignments(self, kinds: &[&'static str]) -> (r: NodeMapping)
        ensures
            r@ == (MappingView { assignment_kinds: self@.assignment_kinds.union(set_of(kinds@)), ..self@ }),
    {
        let mut m = self;
        m.assignment_kinds.extend(kinds);
        m
    }

    /// Adds node kinds representing function definitions.
    pub fn function_defs(self, kinds: &[&'static str]) -> (r: NodeMapping)
        ensures
            r@ == (MappingView { function_def_kinds: self@.function_def_kinds.union(set_of(kinds@)), ..self@ }),
    {
        let mut m = self;
        m.function_def_kinds.extend(kinds);
        m
    }

    /// Adds node kinds of binary operator expressions; the operator text is looked up in `binary_op_map`.
    pub fn binary_op_kinds(self, kinds: &[&'static str]) -> (r: NodeMapping)
        ensures
            r@ == (MappingView { binary_op_kinds: self@.binary_op_kinds.union(set_of(kinds@)), ..self@ }),
    {
        let mut m = self;
        m.binary_op_kinds.extend(kinds);
        m
    }

    /// Adds node kinds of unary operator expressions; the operator text is looked up in `unary_op_map`.
    pub fn unary_op_kinds(self, kinds: &[&'static str]) -> (r: NodeMapping)
        ensures
            r@ == (MappingView { unary_op_kinds: self@.unary_op_kinds.union(set_of(kinds@)), ..self@ }),
    {
        let mut m = self;
        m.unary_op_kinds.extend(kinds);
        m
    }

    /// Adds node kinds of the arms of a match: `[pattern, guard_or_None, body]`.
    pub fn match_arms(self, kinds: &[&'static str]) -> (r: NodeMapping)
        ensures
            r@ == (MappingView { match_arm_kinds: self@.match_arm_kinds.union(set_of(kinds@)), ..self@ }),
    {
        let mut m = self;
        m.match_arm_kinds.extend(kinds);
        m
    }

    /// Adds node kinds that represent literals, with their `LiteralKind`.
    pub fn literals(self, mappings: &[(&'static str, LiteralKind)]) -> (r: NodeMapping)
        ensures
            r@ == (MappingView { literal_kinds: insert_all(self@.literal_kinds, mappings@), ..self@ }),
    {
        let mut m = self;
        m.literal_kinds.insert_pairs(mappings);
        m
    }

    /// Adds binary operator text, with its `BinOpKind`.
    pub fn binary_ops(self, mappings: &[(&'static str, BinOpKind)]) -> (r: NodeMapping)
        ensures
            r@ == (MappingView { binary_op_map: insert_all(self@.binary_op_map, mappings@), ..self@ }),
    {
        let mut m = self;
        m.binary_op_map.insert_pairs(mappings);
        m
    }

    /// Adds unary operator text, with its `UnOpKind`.
    pub fn unary_ops(self, mappings: &[(&'static str, UnOpKind)]) -> (r: NodeMapping)
        ensures
            r@ == (MappingView { unary_op_map: insert_all(self@.unary_op_map, mappings@), ..self@ }),
    {
        let mut m = self;
        m.unary_op_map.insert_pairs(mappings);
        m
    }

    /// Adds direct node-kind-to-`NodeKind` mappings.
    pub fn node_kinds(self, mappings: &[(&'static str, NodeKind)]) -> (r: NodeMapping)
        ensures
            r@ == (MappingView { node_kinds: node_kind_table(self@.node_kinds, mappings@), ..self@ }),
    {
        let mut m = self;
        let n = mappings.len();
        let ghost start = m@;
        for i in 0..n
            invariant
                n == mappings@.len(),
                m@ == (MappingView { node_kinds: node_kind_table(start.node_kinds, mappings@.take(i as int)), ..start }),
        {
            let (k, v) = &mappings[i];
            m.node_kinds.insert(*k, v.clone());
            proof {
                assert(mappings@.take(i + 1).drop_last() =~= mappings@.take(i as int));
            }
        }
        proof {
            assert(mappings@.take(n as int) =~= mappings@);
        }
        m
    }
}

} // verus!
