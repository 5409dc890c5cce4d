//! Code units: the functions, methods, closures and branches that are compared.
use vstd::prelude::*;

use crate::fingerprint::Fingerprint;
use crate::node::{NormalizedNode, Tree};

verus! {

/// What a code unit is.
#[derive(Clone, Copy, Debug, PartialEq, Eq, Hash, Structural)]
pub enum CodeUnitKind {
    Function,
    Method,
    TraitImplBlock,
    Closure,
    Block,
    IfBranch,
    MatchArm,
    LoopBody,
    Class,
}

impl CodeUnitKind {
    /// The name of the kind as reports show it.
    pub open spec fn label(self) -> Seq<char> {
        match self {
            CodeUnitKind::Function => "function"@,
            CodeUnitKind::Method => "method"@,
            CodeUnitKind::TraitImplBlock => "trait impl"@,
            CodeUnitKind::Closure => "closure"@,
            CodeUnitKind::Block => "block"@,
            CodeUnitKind::IfBranch => "if branch"@,
            CodeUnitKind::MatchArm => "match arm"@,
            CodeUnitKind::LoopBody => "loop body"@,
            CodeUnitKind::Class => "class"@,
        }
    }

    /// The name of the kind as reports show it.
    pub fn to_string(&self) -> (r: String)
        ensures
            r@ == self.label(),
    {
        let s = match self {
            CodeUnitKind::Function => "function",
            CodeUnitKind::Method => "method",
            CodeUnitKind::TraitImplBlock => "trait impl",
            CodeUnitKind::Closure => "closure",
            CodeUnitKind::Block => "block",
            CodeUnitKind::IfBranch => "if branch",
            CodeUnitKind::MatchArm => "match arm",
            CodeUnitKind::LoopBody => "loop body",
            CodeUnitKind::Class => "class",
        };
        s.to_owned()
    }
}

/// A unit of code that is compared with the others.
#[derive(Debug)]
pub struct CodeUnit {
    pub kind: CodeUnitKind,
    pub name: String,
    /// The file the unit was found in.
    pub file: String,
    pub line_start: usize,
    pub line_end: usize,
    pub signature: NormalizedNode,
    pub body: NormalizedNode,
    pub fingerprint: Fingerprint,
    pub node_count: usize,
    /// For a unit found inside another, the name of that other.
    pub parent_name: Option<String>,
    pub is_test: bool,
}

/// The mathematical value of a [`CodeUnit`].
pub struct UnitView {
    pub kind: CodeUnitKind,
    pub name: Seq<char>,
    pub file: Seq<char>,
    pub line_start: nat,
    pub line_end: nat,
    pub signature: Tree,
    pub body: Tree,
    pub fingerprint: Fingerprint,
    pub node_count: nat,
    pub parent_name: Option<Seq<char>>,
    pub is_test: bool,
}

impl UnitView {
    /// The number of source lines the unit spans: `line_end - line_start + 1`,
    /// and one when the end comes before the start.
    pub open spec fn line_count(self) -> nat {
        if self.line_end >= self.line_start {
            (self.line_end - self.line_start + 1) as nat
        } else {
            1
        }
    }
}

impl View for CodeUnit {
    type V = UnitView;

    open spec fn view(&self) -> UnitView {
        UnitView {
            kind: self.kind,
            name: self.name@,
            file: self.file@,
            line_start: self.line_start as nat,
            line_end: self.line_end as nat,
            signature: self.signature@,
            body: self.body@,
            fingerprint: self.fingerprint,
            node_count: self.node_count as nat,
            parent_name: match self.parent_name {
                Some(p) => Some(p@),
                None => None,
            },
            is_test: self.is_test,
        }
    }
}

impl Clone for CodeUnit {
    fn clone(&self) -> (r: Self)
        ensures
            r@ == self@,
    {
        CodeUnit {
            kind: self.kind,
            name: self.name.clone(),
            file: self.file.clone(),
            line_start: self.line_start,
            line_end: self.line_end,
            signature: self.signature.clone(),
            body: self.body.clone(),
            fingerprint: self.fingerprint,
            node_count: self.node_count,
            parent_name: match &self.parent_name {
                Some(p) => Some(p.clone()),
                None => None,
            },
            is_test: self.is_test,
        }
    }
}

} // verus!
