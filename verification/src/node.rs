//! The normalized syntax tree that fingerprints and similarity work on.
use vstd::prelude::*;

verus! {

/// What an identifier stood for before it became a positional placeholder.
#[derive(Clone, Copy, Debug, PartialEq, Eq, Hash, Structural)]
pub enum PlaceholderKind {
    Variable,
    Function,
    Type,
}

/// The kind of a literal whose value has been erased.
#[derive(Clone, Copy, Debug, PartialEq, Eq, Hash, Structural)]
pub enum LiteralKind {
    Str,
    ByteStr,
    CStr,
    Byte,
    Char,
    Int,
    Float,
    Bool,
    Null,
}

/// Binary operators, across the languages that are normalized.
#[derive(Clone, Copy, Debug, PartialEq, Eq, Hash, Structural)]
pub enum BinOpKind {
    Add,
    Sub,
    Mul,
    Div,
    Rem,
    And,
    Or,
    BitXor,
    BitAnd,
    BitOr,
    Shl,
    Shr,
    Eq,
    Lt,
    Le,
    Ne,
    Ge,
    Gt,
    AddAssign,
    SubAssign,
    MulAssign,
    DivAssign,
    RemAssign,
    BitXorAssign,
    BitAndAssign,
    BitOrAssign,
    ShlAssign,
    ShrAssign,
    FloorDiv,
    Pow,
    FloorDivAssign,
    PowAssign,
    In,
    NotIn,
    Is,
    IsNot,
    Other,
}

/// Unary operators.
#[derive(Clone, Copy, Debug, PartialEq, Eq, Hash, Structural)]
pub enum UnOpKind {
    Deref,
    Not,
    Neg,
    Other,
}

/// The kind of a normalized node. The comment on each compound kind gives
/// the layout of its children.
#[derive(Debug, PartialEq, Eq, Hash)]
pub enum NodeKind {
    /// Anything that is not analysed further.
    Opaque,
    /// The sentinel for an absent optional child.
    Absent,
    /// `[stmt0, stmt1, ...]`
    Block,
    /// `[expr]`: an expression statement ended by a semicolon.
    Semi,
    /// `[pattern, type_or_None, init_or_None, diverge_or_None]`
    LetBinding,
    /// `[pattern, expr]`
    LetExpr,
    Placeholder(PlaceholderKind, usize),
    TypePlaceholder(PlaceholderKind, usize),
    PatPlaceholder(PlaceholderKind, usize),
    Literal(LiteralKind),
    /// `[left, right]`
    BinaryOp(BinOpKind),
    /// `[operand]`
    UnaryOp(UnOpKind),
    /// `[arg0, arg1, ...]`
    MacroCall { name: String },
    /// `[segment0, segment1, ...]`
    Path,
    /// `[func, arg0, arg1, ...]`
    Call,
    /// `[receiver, method, arg0, ...]`
    MethodCall,
    /// `[base, field]`
    FieldAccess,
    /// `[base, index]`
    Index,
    /// `[body, param0, param1, ...]`
    Closure,
    /// `[]` or `[value]`
    Return,
    /// `[]` or `[value]`
    Break,
    Continue,
    /// `[left, right]`
    Assign,
    /// `[expr]`
    Reference { mutable: bool },
    Tuple,
    Array,
    /// `[elem, len]`
    Repeat,
    /// `[expr, ty]`
    Cast,
    /// `[rest_or_None, field0, field1, ...]`
    StructInit,
    /// `[name, value]`
    FieldValue,
    Await,
    Try,
    Yield,
    SetLiteral,
    /// `[condition, then_branch, else_or_None]`
    If,
    /// `[expr, arm0, arm1, ...]`
    Match,
    /// `[pattern, guard_or_None, body]`
    MatchArm,
    /// `[body]`
    Loop,
    /// `[condition, body]`
    While,
    /// `[pat, iter, body]`
    ForLoop,
    /// `[expr]`
    Paren,
    /// `[from_or_None, to_or_None]`
    Range,
    TypePath,
    TypeReference { mutable: bool },
    TypeTuple,
    TypeUnit,
    TypeSlice,
    /// `[elem, len]`
    TypeArray,
    TypeImplTrait,
    TypeInfer,
    TypeNever,
    PatWild,
    PatTuple,
    PatStruct,
    PatOr,
    PatLiteral,
    PatReference { mutable: bool },
    PatSlice,
    PatRest,
    /// `[from_or_None, to_or_None]`
    PatRange,
    /// `[param0, param1, ..., return_type_or_None]`
    FnSignature,
    /// `[pattern, type]`
    Param,
    /// A `self` receiver.
    SelfParam { reference: bool, mutable: bool },
}

/// A node of a normalized syntax tree.
#[derive(Debug, PartialEq, Eq, Hash)]
pub struct NormalizedNode {
    pub kind: NodeKind,
    pub children: Vec<NormalizedNode>,
}

impl NodeKind {
    /// A number per variant, the payload left out.
    pub open spec fn tag(self) -> u8 {
        match self {
            NodeKind::Opaque => 0,
            NodeKind::Absent => 1,
            NodeKind::Block => 2,
            NodeKind::Semi => 3,
            NodeKind::LetBinding => 4,
            NodeKind::LetExpr => 5,
            NodeKind::Placeholder(..) => 6,
            NodeKind::TypePlaceholder(..) => 7,
            NodeKind::PatPlaceholder(..) => 8,
            NodeKind::Literal(..) => 9,
            NodeKind::BinaryOp(..) => 10,
            NodeKind::UnaryOp(..) => 11,
            NodeKind::MacroCall { .. } => 12,
            NodeKind::Path => 13,
            NodeKind::Call => 14,
            NodeKind::MethodCall => 15,
            NodeKind::FieldAccess => 16,
            NodeKind::Index => 17,
            NodeKind::Closure => 18,
            NodeKind::Return => 19,
            NodeKind::Break => 20,
            NodeKind::Continue => 21,
            NodeKind::Assign => 22,
            NodeKind::Reference { .. } => 23,
            NodeKind::Tuple => 24,
            NodeKind::Array => 25,
            NodeKind::Repeat => 26,
            NodeKind::Cast => 27,
            NodeKind::StructInit => 28,
            NodeKind::FieldValue => 29,
            NodeKind::Await => 30,
            NodeKind::Try => 31,
            NodeKind::Yield => 32,
            NodeKind::SetLiteral => 33,
            NodeKind::If => 34,
            NodeKind::Match => 35,
            NodeKind::MatchArm => 36,
            NodeKind::Loop => 37,
            NodeKind::While => 38,
            NodeKind::ForLoop => 39,
            NodeKind::Paren => 40,
            NodeKind::Range => 41,
            NodeKind::TypePath => 42,
            NodeKind::TypeReference { .. } => 43,
            NodeKind::TypeTuple => 44,
            NodeKind::TypeUnit => 45,
            NodeKind::TypeSlice => 46,
            NodeKind::TypeArray => 47,
            NodeKind::TypeImplTrait => 48,
            NodeKind::TypeInfer => 49,
            NodeKind::TypeNever => 50,
            NodeKind::PatWild => 51,
            NodeKind::PatTuple => 52,
            NodeKind::PatStruct => 53,
            NodeKind::PatOr => 54,
            NodeKind::PatLiteral => 55,
            NodeKind::PatReference { .. } => 56,
            NodeKind::PatSlice => 57,
            NodeKind::PatRest => 58,
            NodeKind::PatRange => 59,
            NodeKind::FnSignature => 60,
            NodeKind::Param => 61,
            NodeKind::SelfParam { .. } => 62,
        }
    }

    /// Computes [`NodeKind::tag`].
    pub fn variant_tag(&self) -> (t: u8)
        ensures
            t == self.tag(),
    {
        match self {
            NodeKind::Opaque => 0,
            NodeKind::Absent => 1,
            NodeKind::Block => 2,
            NodeKind::Semi => 3,
            NodeKind::LetBinding => 4,
            NodeKind::LetExpr => 5,
            NodeKind::Placeholder(..) => 6,
            NodeKind::TypePlaceholder(..) => 7,
            NodeKind::PatPlaceholder(..) => 8,
            NodeKind::Literal(..) => 9,
            NodeKind::BinaryOp(..) => 10,
            NodeKind::UnaryOp(..) => 11,
            NodeKind::MacroCall { .. } => 12,
            NodeKind::Path => 13,
            NodeKind::Call => 14,
            NodeKind::MethodCall => 15,
            NodeKind::FieldAccess => 16,
            NodeKind::Index => 17,
            NodeKind::Closure => 18,
            NodeKind::Return => 19,
            NodeKind::Break => 20,
            NodeKind::Continue => 21,
            NodeKind::Assign => 22,
            NodeKind::Reference { .. } => 23,
            NodeKind::Tuple => 24,
            NodeKind::Array => 25,
            NodeKind::Repeat => 26,
            NodeKind::Cast => 27,
            NodeKind::StructInit => 28,
            NodeKind::FieldValue => 29,
            NodeKind::Await => 30,
            NodeKind::Try => 31,
            NodeKind::Yield => 32,
            NodeKind::SetLiteral => 33,
            NodeKind::If => 34,
            NodeKind::Match => 35,
            NodeKind::MatchArm => 36,
            NodeKind::Loop => 37,
            NodeKind::While => 38,
            NodeKind::ForLoop => 39,
            NodeKind::Paren => 40,
            NodeKind::Range => 41,
            NodeKind::TypePath => 42,
            NodeKind::TypeReference { .. } => 43,
            NodeKind::TypeTuple => 44,
            NodeKind::TypeUnit => 45,
            NodeKind::TypeSlice => 46,
            NodeKind::TypeArray => 47,
            NodeKind::TypeImplTrait => 48,
            NodeKind::TypeInfer => 49,
            NodeKind::TypeNever => 50,
            NodeKind::PatWild => 51,
            NodeKind::PatTuple => 52,
            NodeKind::PatStruct => 53,
            NodeKind::PatOr => 54,
            NodeKind::PatLiteral => 55,
            NodeKind::PatReference { .. } => 56,
            NodeKind::PatSlice => 57,
            NodeKind::PatRest => 58,
            NodeKind::PatRange => 59,
            NodeKind::FnSignature => 60,
            NodeKind::Param => 61,
            NodeKind::SelfParam { .. } => 62,
        }
    }

    /// Whether two kinds are the same: same variant, same data.
    pub fn is_same_as(&self, other: &NodeKind) -> (r: bool)
        ensures
            r == (self@ == other@),
    {
        match (self, other) {
            (NodeKind::MacroCall { name: a }, NodeKind::MacroCall { name: b }) => *a == *b,
            (NodeKind::Placeholder(k1, i1), NodeKind::Placeholder(k2, i2)) => *k1 == *k2 && *i1
                == *i2,
            (NodeKind::TypePlaceholder(k1, i1), NodeKind::TypePlaceholder(k2, i2)) => *k1 == *k2
                && *i1 == *i2,
            (NodeKind::PatPlaceholder(k1, i1), NodeKind::PatPlaceholder(k2, i2)) => *k1 == *k2
                && *i1 == *i2,
            (NodeKind::Literal(a), NodeKind::Literal(b)) => *a == *b,
            (NodeKind::BinaryOp(a), NodeKind::BinaryOp(b)) => *a == *b,
            (NodeKind::UnaryOp(a), NodeKind::UnaryOp(b)) => *a == *b,
            (NodeKind::Reference { mutable: a }, NodeKind::Reference { mutable: b }) => *a == *b,
            (NodeKind::TypeReference { mutable: a }, NodeKind::TypeReference { mutable: b }) => *a
                == *b,
            (NodeKind::PatReference { mutable: a }, NodeKind::PatReference { mutable: b }) => *a
                == *b,
            (
                NodeKind::SelfParam { reference: r1, mutable: m1 },
                NodeKind::SelfParam { reference: r2, mutable: m2 },
            ) => *r1 == *r2 && *m1 == *m2,
            _ => {
                let t1 = self.variant_tag();
                let t2 = other.variant_tag();
                t1 == t2 && !self.has_payload()
            },
        }
    }

    /// Whether the variant carries data besides its tag.
    pub open spec fn spec_has_payload(&self) -> bool {
        match self {
            NodeKind::Placeholder(..) | NodeKind::TypePlaceholder(..) | NodeKind::PatPlaceholder(
                ..,
            ) | NodeKind::Literal(..) | NodeKind::BinaryOp(..) | NodeKind::UnaryOp(..)
            | NodeKind::MacroCall { .. } | NodeKind::Reference { .. } | NodeKind::TypeReference {
                ..
            } | NodeKind::PatReference { .. } | NodeKind::SelfParam { .. } => true,
            _ => false,
        }
    }

    /// Computes [`NodeKind::spec_has_payload`].
    #[verifier::when_used_as_spec(spec_has_payload)]
    pub fn has_payload(&self) -> (r: bool)
        ensures
            r == self.spec_has_payload(),
    {
        match self {
            NodeKind::Placeholder(..) | NodeKind::TypePlaceholder(..) | NodeKind::PatPlaceholder(
                ..,
            ) | NodeKind::Literal(..) | NodeKind::BinaryOp(..) | NodeKind::UnaryOp(..)
            | NodeKind::MacroCall { .. } | NodeKind::Reference { .. } | NodeKind::TypeReference {
                ..
            } | NodeKind::PatReference { .. } | NodeKind::SelfParam { .. } => true,
            _ => false,
        }
    }
}

impl Clone for NodeKind {
    fn clone(&self) -> (r: Self)
        ensures
            r == *self,
    {
        match self {
            NodeKind::MacroCall { name } => NodeKind::MacroCall { name: name.clone() },
            NodeKind::Placeholder(k, i) => NodeKind::Placeholder(*k, *i),
            NodeKind::TypePlaceholder(k, i) => NodeKind::TypePlaceholder(*k, *i),
            NodeKind::PatPlaceholder(k, i) => NodeKind::PatPlaceholder(*k, *i),
            NodeKind::Literal(l) => NodeKind::Literal(*l),
            NodeKind::BinaryOp(o) => NodeKind::BinaryOp(*o),
            NodeKind::UnaryOp(o) => NodeKind::UnaryOp(*o),
            NodeKind::Reference { mutable } => NodeKind::Reference { mutable: *mutable },
            NodeKind::TypeReference { mutable } => NodeKind::TypeReference { mutable: *mutable },
            NodeKind::PatReference { mutable } => NodeKind::PatReference { mutable: *mutable },
            NodeKind::SelfParam { reference, mutable } => NodeKind::SelfParam {
                reference: *reference,
                mutable: *mutable,
            },
            NodeKind::Opaque => NodeKind::Opaque,
            NodeKind::Absent => NodeKind::Absent,
            NodeKind::Block => NodeKind::Block,
            NodeKind::Semi => NodeKind::Semi,
            NodeKind::LetBinding => NodeKind::LetBinding,
            NodeKind::LetExpr => NodeKind::LetExpr,
            NodeKind::Path => NodeKind::Path,
            NodeKind::Call => NodeKind::Call,
            NodeKind::MethodCall => NodeKind::MethodCall,
            NodeKind::FieldAccess => NodeKind::FieldAccess,
            NodeKind::Index => NodeKind::Index,
            NodeKind::Closure => NodeKind::Closure,
            NodeKind::Return => NodeKind::Return,
            NodeKind::Break => NodeKind::Break,
            NodeKind::Continue => NodeKind::Continue,
            NodeKind::Assign => NodeKind::Assign,
            NodeKind::Tuple => NodeKind::Tuple,
            NodeKind::Array => NodeKind::Array,
            NodeKind::Repeat => NodeKind::Repeat,
            NodeKind::Cast => NodeKind::Cast,
            NodeKind::StructInit => NodeKind::StructInit,
            NodeKind::FieldValue => NodeKind::FieldValue,
            NodeKind::Await => NodeKind::Await,
            NodeKind::Try => NodeKind::Try,
            NodeKind::Yield => NodeKind::Yield,
            NodeKind::SetLiteral => NodeKind::SetLiteral,
            NodeKind::If => NodeKind::If,
            NodeKind::Match => NodeKind::Match,
            NodeKind::MatchArm => NodeKind::MatchArm,
            NodeKind::Loop => NodeKind::Loop,
            NodeKind::While => NodeKind::While,
            NodeKind::ForLoop => NodeKind::ForLoop,
            NodeKind::Paren => NodeKind::Paren,
            NodeKind::Range => NodeKind::Range,
            NodeKind::TypePath => NodeKind::TypePath,
            NodeKind::TypeTuple => NodeKind::TypeTuple,
            NodeKind::TypeUnit => NodeKind::TypeUnit,
            NodeKind::TypeSlice => NodeKind::TypeSlice,
            NodeKind::TypeArray => NodeKind::TypeArray,
            NodeKind::TypeImplTrait => NodeKind::TypeImplTrait,
            NodeKind::TypeInfer => NodeKind::TypeInfer,
            NodeKind::TypeNever => NodeKind::TypeNever,
            NodeKind::PatWild => NodeKind::PatWild,
            NodeKind::PatTuple => NodeKind::PatTuple,
            NodeKind::PatStruct => NodeKind::PatStruct,
            NodeKind::PatOr => NodeKind::PatOr,
            NodeKind::PatLiteral => NodeKind::PatLiteral,
            NodeKind::PatSlice => NodeKind::PatSlice,
            NodeKind::PatRest => NodeKind::PatRest,
            NodeKind::PatRange => NodeKind::PatRange,
            NodeKind::FnSignature => NodeKind::FnSignature,
            NodeKind::Param => NodeKind::Param,
        }
    }
}

impl PlaceholderKind {
    /// The number of the variant.
    pub open spec fn code(self) -> u8 {
        match self {
            PlaceholderKind::Variable => 0,
            PlaceholderKind::Function => 1,
            PlaceholderKind::Type => 2,
        }
    }

    /// Computes [`PlaceholderKind::code`].
    pub fn variant_code(&self) -> (r: u8)
        ensures
            r == self.code(),
    {
        match self {
            PlaceholderKind::Variable => 0,
            PlaceholderKind::Function => 1,
            PlaceholderKind::Type => 2,
        }
    }
}

impl LiteralKind {
    /// The number of the variant.
    pub open spec fn code(self) -> u8 {
        match self {
            LiteralKind::Str => 0,
            LiteralKind::ByteStr => 1,
            LiteralKind::CStr => 2,
            LiteralKind::Byte => 3,
            LiteralKind::Char => 4,
            LiteralKind::Int => 5,
            LiteralKind::Float => 6,
            LiteralKind::Bool => 7,
            LiteralKind::Null => 8,
        }
    }

    /// Computes [`LiteralKind::code`].
    pub fn variant_code(&self) -> (r: u8)
        ensures
            r == self.code(),
    {
        match self {
            LiteralKind::Str => 0,
            LiteralKind::ByteStr => 1,
            LiteralKind::CStr => 2,
            LiteralKind::Byte => 3,
            LiteralKind::Char => 4,
            LiteralKind::Int => 5,
            LiteralKind::Float => 6,
            LiteralKind::Bool => 7,
            LiteralKind::Null => 8,
        }
    }
}

impl BinOpKind {
    /// The number of the variant.
    pub open spec fn code(self) -> u8 {
        match self {
            BinOpKind::Add => 0,
            BinOpKind::Sub => 1,
            BinOpKind::Mul => 2,
            BinOpKind::Div => 3,
            BinOpKind::Rem => 4,
            BinOpKind::And => 5,
            BinOpKind::Or => 6,
            BinOpKind::BitXor => 7,
            BinOpKind::BitAnd => 8,
            BinOpKind::BitOr => 9,
            BinOpKind::Shl => 10,
            BinOpKind::Shr => 11,
            BinOpKind::Eq => 12,
            BinOpKind::Lt => 13,
            BinOpKind::Le => 14,
            BinOpKind::Ne => 15,
            BinOpKind::Ge => 16,
            BinOpKind::Gt => 17,
            BinOpKind::AddAssign => 18,
            BinOpKind::SubAssign => 19,
            BinOpKind::MulAssign => 20,
            BinOpKind::DivAssign => 21,
            BinOpKind::RemAssign => 22,
            BinOpKind::BitXorAssign => 23,
            BinOpKind::BitAndAssign => 24,
            BinOpKind::BitOrAssign => 25,
            BinOpKind::ShlAssign => 26,
            BinOpKind::ShrAssign => 27,
            BinOpKind::FloorDiv => 28,
            BinOpKind::Pow => 29,
            BinOpKind::FloorDivAssign => 30,
            BinOpKind::PowAssign => 31,
            BinOpKind::In => 32,
            BinOpKind::NotIn => 33,
            BinOpKind::Is => 34,
            BinOpKind::IsNot => 35,
            BinOpKind::Other => 36,
        }
    }

    /// Computes [`BinOpKind::code`].
    pub fn variant_code(&self) -> (r: u8)
        ensures
            r == self.code(),
    {
        match self {
            BinOpKind::Add => 0,
            BinOpKind::Sub => 1,
            BinOpKind::Mul => 2,
            BinOpKind::Div => 3,
            BinOpKind::Rem => 4,
            BinOpKind::And => 5,
            BinOpKind::Or => 6,
            BinOpKind::BitXor => 7,
            BinOpKind::BitAnd => 8,
            BinOpKind::BitOr => 9,
            BinOpKind::Shl => 10,
            BinOpKind::Shr => 11,
            BinOpKind::Eq => 12,
            BinOpKind::Lt => 13,
            BinOpKind::Le => 14,
            BinOpKind::Ne => 15,
            BinOpKind::Ge => 16,
            BinOpKind::Gt => 17,
            BinOpKind::AddAssign => 18,
            BinOpKind::SubAssign => 19,
            BinOpKind::MulAssign => 20,
            BinOpKind::DivAssign => 21,
            BinOpKind::RemAssign => 22,
            BinOpKind::BitXorAssign => 23,
            BinOpKind::BitAndAssign => 24,
            BinOpKind::BitOrAssign => 25,
            BinOpKind::ShlAssign => 26,
            BinOpKind::ShrAssign => 27,
            BinOpKind::FloorDiv => 28,
            BinOpKind::Pow => 29,
            BinOpKind::FloorDivAssign => 30,
            BinOpKind::PowAssign => 31,
            BinOpKind::In => 32,
            BinOpKind::NotIn => 33,
            BinOpKind::Is => 34,
            BinOpKind::IsNot => 35,
            BinOpKind::Other => 36,
        }
    }
}

impl UnOpKind {
    /// The number of the variant.
    pub open spec fn code(self) -> u8 {
        match self {
            UnOpKind::Deref => 0,
            UnOpKind::Not => 1,
            UnOpKind::Neg => 2,
            UnOpKind::Other => 3,
        }
    }

    /// Computes [`UnOpKind::code`].
    pub fn variant_code(&self) -> (r: u8)
        ensures
            r == self.code(),
    {
        match self {
            UnOpKind::Deref => 0,
            UnOpKind::Not => 1,
            UnOpKind::Neg => 2,
            UnOpKind::Other => 3,
        }
    }
}

/// The mathematical value of a [`NodeKind`]: its variant and its data.
pub enum Payload {
    Plain,
    Slot(PlaceholderKind, nat),
    Lit(LiteralKind),
    Bin(BinOpKind),
    Un(UnOpKind),
    Name(Seq<char>),
    Flag(bool),
    Receiver(bool, bool),
}

/// The mathematical value of a [`NodeKind`].
pub struct KindView {
    pub tag: u8,
    pub payload: Payload,
}

/// The mathematical value of a [`NormalizedNode`].
pub struct Tree {
    pub kind: KindView,
    pub children: Seq<Tree>,
}

impl View for NodeKind {
    type V = KindView;

    open spec fn view(&self) -> KindView {
        KindView {
            tag: self.tag(),
            payload: match *self {
                NodeKind::Placeholder(k, i) => Payload::Slot(k, i as nat),
                NodeKind::TypePlaceholder(k, i) => Payload::Slot(k, i as nat),
                NodeKind::PatPlaceholder(k, i) => Payload::Slot(k, i as nat),
                NodeKind::Literal(l) => Payload::Lit(l),
                NodeKind::BinaryOp(o) => Payload::Bin(o),
                NodeKind::UnaryOp(o) => Payload::Un(o),
                NodeKind::MacroCall { name } => Payload::Name(name@),
                NodeKind::Reference { mutable } => Payload::Flag(mutable),
                NodeKind::TypeReference { mutable } => Payload::Flag(mutable),
                NodeKind::PatReference { mutable } => Payload::Flag(mutable),
                NodeKind::SelfParam { reference, mutable } => Payload::Receiver(reference, mutable),
                _ => Payload::Plain,
            },
        }
    }
}

/// The trees of a sequence of nodes.
pub open spec fn trees_of(s: Seq<NormalizedNode>) -> Seq<Tree>
    decreases s,
{
    if s.len() == 0 {
        Seq::empty()
    } else {
        trees_of(s.drop_last()).push(tree_of(s[s.len() - 1]))
    }
}

/// The tree of a node.
pub open spec fn tree_of(n: NormalizedNode) -> Tree
    decreases n,
{
    Tree { kind: n.kind@, children: trees_of(n.children@) }
}

impl View for NormalizedNode {
    type V = Tree;

    open spec fn view(&self) -> Tree {
        tree_of(*self)
    }
}

/// The tag of the absent-child sentinel.
pub open spec fn absent_tag() -> u8 {
    1
}

impl Tree {
    /// Whether this is the sentinel for an absent optional child.
    pub open spec fn is_absent(self) -> bool {
        self.kind.tag == absent_tag()
    }

    /// One for the node itself unless it is an absent sentinel.
    pub open spec fn own_size(self) -> nat {
        if self.is_absent() {
            0
        } else {
            1
        }
    }

    /// The number of nodes, absent sentinels not counted.
    pub open spec fn size(self) -> nat
        decreases self,
    {
        self.own_size() + size_of_all(self.children)
    }
}

/// The summed size of a sequence of trees.
pub open spec fn size_of_all(s: Seq<Tree>) -> nat
    decreases s,
{
    if s.len() == 0 {
        0
    } else {
        size_of_all(s.drop_last()) + s[s.len() - 1].size()
    }
}

/// The trees of a sequence of nodes line up with the nodes.
pub proof fn lemma_trees_of(s: Seq<NormalizedNode>)
    ensures
        trees_of(s).len() == s.len(),
        forall|i: int| 0 <= i < s.len() ==> #[trigger] trees_of(s)[i] == tree_of(s[i]),
    decreases s.len(),
{
    if s.len() > 0 {
        lemma_trees_of(s.drop_last());
    }
}

/// Appending a node appends its tree.
pub proof fn lemma_trees_of_push(s: Seq<NormalizedNode>, x: NormalizedNode)
    ensures
        trees_of(s.push(x)) == trees_of(s).push(tree_of(x)),
{
    assert(s.push(x).drop_last() =~= s);
}

/// The trees of two joined sequences of nodes are the joined trees.
pub proof fn lemma_trees_of_concat(a: Seq<NormalizedNode>, b: Seq<NormalizedNode>)
    ensures
        trees_of(a + b) == trees_of(a) + trees_of(b),
    decreases b.len(),
{
    if b.len() == 0 {
        assert(a + b =~= a);
        assert(trees_of(a) + trees_of(b) =~= trees_of(a));
    } else {
        lemma_trees_of_concat(a, b.drop_last());
        assert((a + b).drop_last() =~= a + b.drop_last());
        assert(trees_of(a) + trees_of(b) =~= (trees_of(a) + trees_of(b.drop_last())).push(
            tree_of(b[b.len() - 1]),
        ));
    }
}

/// Two node sequences whose elements have equal trees have equal trees.
pub proof fn lemma_trees_of_pointwise(a: Seq<NormalizedNode>, b: Seq<NormalizedNode>)
    requires
        a.len() == b.len(),
        forall|i: int| 0 <= i < a.len() ==> tree_of(#[trigger] a[i]) == tree_of(b[i]),
    ensures
        trees_of(a) == trees_of(b),
{
    lemma_trees_of(a);
    lemma_trees_of(b);
    assert(trees_of(a) =~= trees_of(b));
}

/// Sizes add up over a prefix.
pub proof fn lemma_size_of_all_take(s: Seq<Tree>, i: int)
    requires
        0 <= i < s.len(),
    ensures
        size_of_all(s.take(i + 1)) == size_of_all(s.take(i)) + s[i].size(),
{
    assert(s.take(i + 1).drop_last() =~= s.take(i));
}

/// A prefix is no larger than the whole.
pub proof fn lemma_size_of_all_prefix(s: Seq<Tree>, i: int)
    requires
        0 <= i <= s.len(),
    ensures
        size_of_all(s.take(i)) <= size_of_all(s),
    decreases s.len() - i,
{
    if i < s.len() {
        lemma_size_of_all_take(s, i);
        lemma_size_of_all_prefix(s, i + 1);
    } else {
        assert(s.take(i) =~= s);
    }
}

impl NormalizedNode {
    /// A node without children.
    pub fn leaf(kind: NodeKind) -> (r: NormalizedNode)
        ensures
            r.kind == kind,
            r.children@.len() == 0,
            r@.kind == kind@,
            r@.children.len() == 0,
            r@ == (Tree { kind: kind@, children: Seq::empty() }),
    {
        let r = NormalizedNode { kind, children: Vec::new() };
        proof {
            lemma_trees_of(r.children@);
            assert(r@.children =~= Seq::<Tree>::empty());
        }
        r
    }

    /// A node with one child.
    pub fn node1(kind: NodeKind, a: NormalizedNode) -> (r: NormalizedNode)
        ensures
            r@ == (Tree { kind: kind@, children: seq![a@] }),
    {
        let mut children: Vec<NormalizedNode> = Vec::new();
        children.push(a);
        proof {
            lemma_trees_of(children@);
            assert(trees_of(children@) =~= seq![a@]);
        }
        NormalizedNode { kind, children }
    }

    /// A node with two children.
    pub fn node2(kind: NodeKind, a: NormalizedNode, b: NormalizedNode) -> (r: NormalizedNode)
        ensures
            r@ == (Tree { kind: kind@, children: seq![a@, b@] }),
    {
        let mut children: Vec<NormalizedNode> = Vec::new();
        children.push(a);
        children.push(b);
        proof {
            lemma_trees_of(children@);
            assert(trees_of(children@) =~= seq![a@, b@]);
        }
        NormalizedNode { kind, children }
    }

    /// A node with three children.
    pub fn node3(kind: NodeKind, a: NormalizedNode, b: NormalizedNode, c: NormalizedNode) -> (r:
        NormalizedNode)
        ensures
            r@ == (Tree { kind: kind@, children: seq![a@, b@, c@] }),
    {
        let mut children: Vec<NormalizedNode> = Vec::new();
        children.push(a);
        children.push(b);
        children.push(c);
        proof {
            lemma_trees_of(children@);
            assert(trees_of(children@) =~= seq![a@, b@, c@]);
        }
        NormalizedNode { kind, children }
    }

    /// A node with four children.
    pub fn node4(
        kind: NodeKind,
        a: NormalizedNode,
        b: NormalizedNode,
        c: NormalizedNode,
        d: NormalizedNode,
    ) -> (r: NormalizedNode)
        ensures
            r@ == (Tree { kind: kind@, children: seq![a@, b@, c@, d@] }),
    {
        let mut children: Vec<NormalizedNode> = Vec::new();
        children.push(a);
        children.push(b);
        children.push(c);
        children.push(d);
        proof {
            lemma_trees_of(children@);
            assert(trees_of(children@) =~= seq![a@, b@, c@, d@]);
        }
        NormalizedNode { kind, children }
    }

    /// A node with the given children.
    pub fn with_children(kind: NodeKind, children: Vec<NormalizedNode>) -> (r: NormalizedNode)
        ensures
            r.kind == kind,
            r.children == children,
            r@.kind == kind@,
            r@.children == trees_of(children@),
    {
        NormalizedNode { kind, children }
    }

    /// The sentinel for an absent optional child.
    pub fn none() -> (r: NormalizedNode)
        ensures
            r.kind == NodeKind::Absent,
            r@.is_absent(),
            r@.children.len() == 0,
            r@ == (Tree { kind: NodeKind::Absent@, children: Seq::empty() }),
    {
        NormalizedNode::leaf(NodeKind::Absent)
    }

    /// The given node, or the absent sentinel.
    pub fn opt(node: Option<NormalizedNode>) -> (r: NormalizedNode)
        ensures
            node matches Some(n) ==> r == n,
            node is None ==> r.kind == NodeKind::Absent && r@.is_absent() && r@.children.len()
                == 0,
    {
        match node {
            Some(n) => n,
            None => NormalizedNode::none(),
        }
    }

    /// Whether this is the sentinel for an absent optional child.
    pub fn is_none(&self) -> (r: bool)
        ensures
            r == self@.is_absent(),
    {
        matches!(self.kind, NodeKind::Absent)
    }
}

impl Clone for NormalizedNode {
    fn clone(&self) -> (r: Self)
        ensures
            r@ == self@,
        decreases self,
    {
        let mut children: Vec<NormalizedNode> = Vec::new();
        let n = self.children.len();
        for i in 0..n
            invariant
                n == self.children@.len(),
                children@.len() == i,
                forall|j: int| 0 <= j < i ==> tree_of(#[trigger] children@[j]) == tree_of(
                    self.children@[j],
                ),
        {
            proof {
                assert(decreases_to!(self.children => self.children@[i as int]));
            }
            let c = self.children[i].clone();
            children.push(c);
        }
        proof {
            lemma_trees_of_pointwise(children@, self.children@);
        }
        NormalizedNode { kind: self.kind.clone(), children }
    }
}

/// Counts the nodes of a tree, absent sentinels not counted.
pub fn count_nodes(node: &NormalizedNode) -> (r: usize)
    requires
        node@.size() <= usize::MAX,
    ensures
        r == node@.size(),
    decreases node,
{
    let n = node.children.len();
    let mut total: usize = if node.is_none() {
        0
    } else {
        1
    };
    proof {
        lemma_trees_of(node.children@);
    }
    for i in 0..n
        invariant
            n == node.children@.len(),
            node@.size() <= usize::MAX,
            trees_of(node.children@).len() == n,
            forall|j: int| 0 <= j < n ==> #[trigger] trees_of(node.children@)[j] == tree_of(
                node.children@[j],
            ),
            total == node@.own_size() + size_of_all(trees_of(node.children@).take(i as int)),
    {
        let ghost kids = trees_of(node.children@);
        proof {
            lemma_size_of_all_take(kids, i as int);
            lemma_size_of_all_prefix(kids, i + 1);
            assert(decreases_to!(node.children => node.children@[i as int]));
        }
        let c = count_nodes(&node.children[i]);
        total = total + c;
    }
    proof {
        assert(trees_of(node.children@).take(n as int) =~= trees_of(node.children@));
    }
    total
}

/// A count, or `usize::MAX` when it does not fit in a machine word.
pub open spec fn capped(n: nat) -> nat {
    if n > usize::MAX {
        usize::MAX as nat
    } else {
        n
    }
}

/// Adds two counts, stopping at `usize::MAX`.
pub fn add_capped(a: usize, b: usize) -> (r: usize)
    ensures
        r == if a + b > usize::MAX {
            usize::MAX as int
        } else {
            a + b
        },
{
    if a > usize::MAX - b {
        usize::MAX
    } else {
        a + b
    }
}

pub proof fn lemma_capped_add(a: nat, b: nat)
    ensures
        capped(capped(a) + capped(b)) == capped(a + b),
{
}

/// Counts the nodes of a tree like [`count_nodes`], stopping at
/// `usize::MAX` should the count not fit in a machine word.
pub fn count_nodes_capped(node: &NormalizedNode) -> (r: usize)
    ensures
        r == capped(node@.size()),
    decreases node,
{
    let n = node.children.len();
    let mut total: usize = if node.is_none() {
        0
    } else {
        1
    };
    proof {
        lemma_trees_of(node.children@);
    }
    for i in 0..n
        invariant
            n == node.children@.len(),
            trees_of(node.children@).len() == n,
            forall|j: int| 0 <= j < n ==> #[trigger] trees_of(node.children@)[j] == tree_of(
                node.children@[j],
            ),
            total == capped(node@.own_size() + size_of_all(trees_of(node.children@).take(i as int))),
    {
        let ghost kids = trees_of(node.children@);
        proof {
            lemma_size_of_all_take(kids, i as int);
            assert(decreases_to!(node.children => node.children@[i as int]));
            lemma_capped_add(
                node@.own_size() + size_of_all(kids.take(i as int)),
                kids[i as int].size(),
            );
        }
        let c = count_nodes_capped(&node.children[i]);
        total = add_capped(total, c);
    }
    proof {
        assert(trees_of(node.children@).take(n as int) =~= trees_of(node.children@));
    }
    total
}

} // verus!
