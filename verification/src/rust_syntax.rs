//! The Rust syntax that normalization reads: expressions, statements,
//! patterns and types, with identifiers as text and literal values left out.
use vstd::prelude::*;

verus! {

/// The kind of a literal.
#[derive(Clone, Copy, Debug, PartialEq, Eq, Structural)]
pub enum Lit {
    Str,
    ByteStr,
    CStr,
    Byte,
    Char,
    Int,
    Float,
    Bool,
    /// A literal of no other kind.
    Verbatim,
}

/// A binary operator.
#[derive(Clone, Copy, Debug, PartialEq, Eq, Structural)]
pub enum BinOp {
    Add,
    Sub,
    Mul,
    Div,
    Rem,
    And,
    Or,
    BitXor,
    BitAnd,
    BitOr,
    Shl,
    Shr,
    Eq,
    Lt,
    Le,
    Ne,
    Ge,
    Gt,
    AddAssign,
    SubAssign,
    MulAssign,
    DivAssign,
    RemAssign,
    BitXorAssign,
    BitAndAssign,
    BitOrAssign,
    ShlAssign,
    ShrAssign,
    /// An operator of no other kind.
    Other,
}

/// A unary operator.
#[derive(Clone, Copy, Debug, PartialEq, Eq, Structural)]
pub enum UnOp {
    Deref,
    Not,
    Neg,
    /// An operator of no other kind.
    Other,
}

/// The field named by a field access or a field pattern.
#[derive(Debug)]
pub enum Member {
    Named(String),
    /// A tuple field, by position.
    Unnamed(u32),
}

/// A macro invocation.
#[derive(Debug)]
pub struct Macro {
    /// The identifiers of the macro's path.
    pub path: Vec<String>,
    /// Whether the invocation has no tokens at all.
    pub tokens_empty: bool,
    /// The tokens read as comma-separated expressions, when they are.
    pub body: Option<Vec<Expr>>,
}

/// An expression.
#[derive(Debug)]
pub enum Expr {
    Lit(Lit),
    /// A path, as the identifiers of its segments.
    Path(Vec<String>),
    Binary(BinOp, Box<Expr>, Box<Expr>),
    Unary(UnOp, Box<Expr>),
    Call(Box<Expr>, Vec<Expr>),
    MethodCall { receiver: Box<Expr>, method: String, args: Vec<Expr> },
    Field(Box<Expr>, Member),
    Index(Box<Expr>, Box<Expr>),
    Closure(ExprClosure),
    Return(Option<Box<Expr>>),
    Break(Option<Box<Expr>>),
    Continue,
    Assign(Box<Expr>, Box<Expr>),
    Reference { mutable: bool, expr: Box<Expr> },
    Tuple(Vec<Expr>),
    Array(Vec<Expr>),
    /// `[expr; len]`
    Repeat(Box<Expr>, Box<Expr>),
    Cast(Box<Expr>, Box<Type>),
    /// A struct literal, with its fields and its `..rest`.
    Struct { fields: Vec<FieldValue>, rest: Option<Box<Expr>> },
    Await(Box<Expr>),
    Try(Box<Expr>),
    If { cond: Box<Expr>, then_branch: Block, else_branch: Option<Box<Expr>> },
    Match { expr: Box<Expr>, arms: Vec<Arm> },
    Loop(Block),
    While { cond: Box<Expr>, body: Block },
    ForLoop { pat: Box<Pat>, expr: Box<Expr>, body: Block },
    Block(Block),
    Paren(Box<Expr>),
    Range { start: Option<Box<Expr>>, end: Option<Box<Expr>> },
    Let { pat: Box<Pat>, expr: Box<Expr> },
    Macro(Macro),
    /// An invisible group around an expression.
    Group(Box<Expr>),
    Unsafe(Block),
    Const(Block),
    /// An expression of no other kind.
    Other,
}

/// A closure, with the lines on which it starts and its body ends.
#[derive(Debug)]
pub struct ExprClosure {
    pub inputs: Vec<Pat>,
    pub body: Box<Expr>,
    /// The line of the opening `|`.
    pub line_start: usize,
    /// The last line of the body, zero when it is not known.
    pub body_end_line: usize,
}

/// A field of a struct literal.
#[derive(Debug)]
pub struct FieldValue {
    pub member: Member,
    pub expr: Expr,
}

/// An arm of a `match`.
#[derive(Debug)]
pub struct Arm {
    pub pat: Pat,
    pub guard: Option<Box<Expr>>,
    pub body: Box<Expr>,
}

/// A block of statements.
#[derive(Debug)]
pub struct Block {
    pub stmts: Vec<Stmt>,
}

/// The initializer of a `let`, with its `else` block for a `let`-`else`.
#[derive(Debug)]
pub struct LocalInit {
    pub expr: Box<Expr>,
    pub diverge: Option<Box<Expr>>,
}

/// A statement; the flag says whether a semicolon ends it.
#[derive(Debug)]
pub enum Stmt {
    Local { pat: Pat, init: Option<LocalInit> },
    Expr(Expr, bool),
    /// A nested item.
    Item(Item),
    Macro(Macro, bool),
}

/// A bound of an `impl Trait` type.
#[derive(Debug)]
pub enum Bound {
    /// A trait, as the identifiers of its path.
    Trait(Vec<String>),
    /// A lifetime or another bound.
    Other,
}

/// A type.
#[derive(Debug)]
pub enum Type {
    /// A path, as the identifiers of its segments, with whether it has a
    /// qualified self type.
    Path { qself: bool, segments: Vec<String> },
    Reference { mutable: bool, elem: Box<Type> },
    Tuple(Vec<Type>),
    Slice(Box<Type>),
    Array(Box<Type>, Box<Expr>),
    ImplTrait(Vec<Bound>),
    Infer,
    Never,
    Paren(Box<Type>),
    Macro(Macro),
    /// A type of no other kind.
    Other,
}

/// A field of a struct pattern.
#[derive(Debug)]
pub struct FieldPat {
    pub member: Member,
    pub pat: Pat,
}

/// A pattern.
#[derive(Debug)]
pub enum Pat {
    Ident(String),
    Wild,
    Tuple(Vec<Pat>),
    TupleStruct(Vec<Pat>),
    Struct(Vec<FieldPat>),
    Or(Vec<Pat>),
    Lit(Lit),
    Reference { mutable: bool, pat: Box<Pat> },
    Slice(Vec<Pat>),
    Rest,
    Range { start: Option<Box<Expr>>, end: Option<Box<Expr>> },
    /// A path, as the identifiers of its segments.
    Path(Vec<String>),
    /// A pattern with a type ascription, which normalization leaves out.
    Type(Box<Pat>),
    Macro(Macro),
    /// A pattern of no other kind.
    Other,
}

/// An attribute, as far as test detection reads it.
#[derive(Debug)]
pub struct Attribute {
    /// The attribute's path when it is a single plain identifier.
    pub ident: Option<String>,
    /// The attribute's arguments when they are a single identifier.
    pub arg_ident: Option<String>,
}

/// A parameter of a function.
#[derive(Debug)]
pub enum FnArg {
    /// `self`, `&self` or `&mut self`.
    Receiver { reference: bool, mutable: bool },
    Typed { pat: Pat, ty: Type },
}

/// The signature of a function.
#[derive(Debug)]
pub struct Signature {
    pub ident: String,
    pub inputs: Vec<FnArg>,
    pub output: Option<Box<Type>>,
}

/// A function, free or in an `impl` block, with the line of its name and
/// the line of its closing brace.
#[derive(Debug)]
pub struct ItemFn {
    pub attrs: Vec<Attribute>,
    pub sig: Signature,
    pub block: Block,
    pub line_start: usize,
    pub line_end: usize,
}

/// An item of an `impl` block.
#[derive(Debug)]
pub enum ImplItem {
    Fn(ItemFn),
    Other,
}

/// An `impl` block.
#[derive(Debug)]
pub struct ItemImpl {
    pub attrs: Vec<Attribute>,
    pub self_ty: Type,
    /// The identifiers of the trait's path, for a trait implementation.
    pub trait_path: Option<Vec<String>>,
    pub items: Vec<ImplItem>,
}

/// An item of a trait.
#[derive(Debug)]
pub enum TraitItem {
    /// A method, with its default body where it has one.
    Fn(Option<Block>),
    /// An associated constant, with its default value where it has one.
    Const(Option<Expr>),
    Other,
}

/// A module, with its items when they are inline.
#[derive(Debug)]
pub struct ItemMod {
    pub attrs: Vec<Attribute>,
    pub content: Option<Vec<Item>>,
}

/// An item.
#[derive(Debug)]
pub enum Item {
    Fn(ItemFn),
    Mod(ItemMod),
    Impl(ItemImpl),
    /// A trait, with its items.
    Trait(Vec<TraitItem>),
    /// Any other item, with the expressions it holds outside function
    /// bodies: the initializer of a `const` or `static`.
    Other(Vec<Expr>),
}

/// A source file.
#[derive(Debug)]
pub struct SourceFile {
    pub items: Vec<Item>,
}

} // verus!
