//! Abstract syntax tree.
//!
//! Every node is either a struct with its own `span`, or an enum of the
//! form `Foo { span, kind: FooKind }`, so a node's span is always at hand,
//! the `Error` recovery variants included. Literals (`Lit`, `ArrLit`) only
//! ever appear inside an `Expr` and take their location from it.

use vstd::prelude::*;
use crate::span::Span;

verus! {

pub type Id = String;

/// Uniform span access for any node that carries one.
pub trait Spanned {
    fn span(&self) -> Span;
}

// ---- Identifiers ----

#[derive(Debug, Clone)]
pub struct Ident {
    pub span: Span,
    pub sym: Id,
}

// ---- Top level ----

#[derive(Debug)]
pub struct Program {
    pub uses: Vec<Use>,
    pub definitions: Vec<Definition>,
}

#[derive(Debug)]
pub struct Interface {
    pub items: Vec<InterfaceItem>,
}

#[derive(Debug, Clone)]
pub struct Use {
    pub span: Span,
    pub id: Ident,
}

#[derive(Debug)]
pub struct Definition {
    pub span: Span,
    pub kind: DefinitionKind,
}

#[derive(Debug)]
pub enum DefinitionKind {
    Method(Method),
    GlobDecl(GlobDecl),
    Error,
}

#[derive(Debug)]
pub struct InterfaceItem {
    pub span: Span,
    pub kind: InterfaceItemKind,
}

#[derive(Debug)]
pub enum InterfaceItemKind {
    Decl(MethodDecl),
    Error,
}

// ---- Methods & globals ----

#[derive(Debug)]
pub struct MethodDecl {
    pub span: Span,
    pub id: Ident,
    pub params: Vec<Decl>,
    pub ret_types: Vec<Type>,
}

#[derive(Debug)]
pub struct Method {
    pub span: Span,
    pub id: Ident,
    pub params: Vec<Decl>,
    pub ret_types: Vec<Type>,
    pub body: Block,
}

#[derive(Debug)]
pub struct GlobDecl {
    pub span: Span,
    pub id: Ident,
    pub typ: Type,
    pub val: Option<Value>,
}

#[derive(Debug, Clone)]
pub struct Value {
    pub span: Span,
    pub kind: ValueKind,
}

#[derive(Debug, Clone)]
pub enum ValueKind {
    Int(i128),
    Bool(bool),
}

#[derive(Debug)]
pub struct Decl {
    pub span: Span,
    pub id: Ident,
    pub typ: Type,
}

// ---- Types ----

#[derive(Debug)]
pub struct Type {
    pub span: Span,
    pub kind: TypeKind,
}

#[derive(Debug)]
pub enum TypeKind {
    SizedArray { of: Box<Type>, size: Box<Expr> },
    UnsizedArray { of: Box<Type> },
    Int,
    Bool,
}

// ---- Blocks & statements ----

#[derive(Debug)]
pub struct Block {
    pub span: Span,
    pub stmts: Vec<Stmt>,
}

#[derive(Debug)]
pub struct Stmt {
    pub span: Span,
    pub kind: StmtKind,
}

#[derive(Debug)]
pub enum StmtKind {
    Assign { targets: Vec<Target>, values: Vec<Expr> },
    If { cond: Expr, then_branch: Box<Stmt>, else_branch: Option<Box<Stmt>> },
    While { cond: Expr, body: Box<Stmt> },
    Return { values: Vec<Expr> },
    Call(ProcCall),
    Block(Block),
    Decls(Vec<Decl>),
    Error,
}

// ---- Targets & lvalues ----

#[derive(Debug)]
pub struct Target {
    pub span: Span,
    pub kind: TargetKind,
}

#[derive(Debug)]
pub enum TargetKind {
    LValue(LValue),
    Decl(Decl),
    Discard,
}

impl Target {
    /// Wraps a declaration as an assignment target, inheriting its span.
    pub fn from_decl(d: Decl) -> (t: Target)
        ensures
            t.span == d.span,
            t.kind == TargetKind::Decl(d),
    {
        Target { span: d.span, kind: TargetKind::Decl(d) }
    }
}

#[derive(Debug)]
pub struct LValue {
    pub span: Span,
    pub kind: LValueKind,
}

#[derive(Debug)]
pub enum LValueKind {
    Index { of: Box<LValue>, index: Box<Expr> },
    Id(Ident),
    ProcCall(ProcCall),
}

// ---- Calls ----

#[derive(Debug)]
pub struct ProcCall {
    pub span: Span,
    pub id: Ident,
    pub args: Vec<Expr>,
}

// ---- Expressions ----

#[derive(Debug)]
pub struct Expr {
    pub span: Span,
    pub kind: ExprKind,
}

#[derive(Debug)]
pub enum ExprKind {
    Id(Ident),
    Lit(Lit),
    Index { array: Box<Expr>, index: Box<Expr> },
    Call(ProcCall),
    Length(Box<Expr>),
    Unary { op: UOp, op_span: Span, operand: Box<Expr> },
    Binary { op: BinOp, op_span: Span, lhs: Box<Expr>, rhs: Box<Expr> },
    Error,
}

#[derive(Debug, Clone, Copy, PartialEq, Eq, Structural)]
pub enum UOp {
    Neg,
    Not,
}

/// Another name for the unary operators.
pub type UnaryOp = UOp;

#[derive(Debug, Clone, Copy, PartialEq, Eq, Structural)]
pub enum BinOp {
    Add,
    Sub,
    Mul,
    HighMul,
    Div,
    Mod,
    Eq,
    Neq,
    Lt,
    Gt,
    Le,
    Ge,
    And,
    Or,
}

// ---- Literals (span-free; located by the enclosing Expr) ----

#[derive(Debug)]
pub enum Lit {
    Int(i128),
    Bool(bool),
    Char(char),
    Arr(ArrLit),
}

#[derive(Debug)]
pub enum ArrLit {
    Str(String),
    Array(Vec<Expr>),
}

// ---- Operator spellings ----

/// How an operator is written in source.
pub open spec fn uop_text(op: UOp) -> Seq<char> {
    match op {
        UOp::Neg => "-"@,
        UOp::Not => "!"@,
    }
}

/// How an operator is written in source.
pub open spec fn binop_text(op: BinOp) -> Seq<char> {
    match op {
        BinOp::Add => "+"@,
        BinOp::Sub => "-"@,
        BinOp::Mul => "*"@,
        BinOp::HighMul => "*>>"@,
        BinOp::Div => "/"@,
        BinOp::Mod => "%"@,
        BinOp::Eq => "=="@,
        BinOp::Neq => "!="@,
        BinOp::Lt => "<"@,
        BinOp::Gt => ">"@,
        BinOp::Le => "<="@,
        BinOp::Ge => ">="@,
        BinOp::And => "&"@,
        BinOp::Or => "|"@,
    }
}

impl UOp {
    /// The operator as written in source; also its printed form.
    pub fn as_str(&self) -> (s: &'static str)
        ensures
            s@ == uop_text(*self),
    {
        match self {
            UOp::Neg => "-",
            UOp::Not => "!",
        }
    }
}

impl BinOp {
    /// The operator as written in source; also its printed form.
    pub fn as_str(&self) -> (s: &'static str)
        ensures
            s@ == binop_text(*self),
    {
        match self {
            BinOp::Add => "+",
            BinOp::Sub => "-",
            BinOp::Mul => "*",
            BinOp::HighMul => "*>>",
            BinOp::Div => "/",
            BinOp::Mod => "%",
            BinOp::Eq => "==",
            BinOp::Neq => "!=",
            BinOp::Lt => "<",
            BinOp::Gt => ">",
            BinOp::Le => "<=",
            BinOp::Ge => ">=",
            BinOp::And => "&",
            BinOp::Or => "|",
        }
    }
}

// ---- Spans ----

impl Spanned for Ident {
    fn span(&self) -> (s: Span)
        ensures
            s == self.span,
    {
        self.span
    }
}

impl Spanned for Use {
    fn span(&self) -> (s: Span)
        ensures
            s == self.span,
    {
        self.span
    }
}

impl Spanned for Definition {
    fn span(&self) -> (s: Span)
        ensures
            s == self.span,
    {
        self.span
    }
}

impl Spanned for InterfaceItem {
    fn span(&self) -> (s: Span)
        ensures
            s == self.span,
    {
        self.span
    }
}

impl Spanned for MethodDecl {
    fn span(&self) -> (s: Span)
        ensures
            s == self.span,
    {
        self.span
    }
}

impl Spanned for Method {
    fn span(&self) -> (s: Span)
        ensures
            s == self.span,
    {
        self.span
    }
}

impl Spanned for GlobDecl {
    fn span(&self) -> (s: Span)
        ensures
            s == self.span,
    {
        self.span
    }
}

impl Spanned for Value {
    fn span(&self) -> (s: Span)
        ensures
            s == self.span,
    {
        self.span
    }
}

impl Spanned for Decl {
    fn span(&self) -> (s: Span)
        ensures
            s == self.span,
    {
        self.span
    }
}

impl Spanned for Type {
    fn span(&self) -> (s: Span)
        ensures
            s == self.span,
    {
        self.span
    }
}

impl Spanned for Block {
    fn span(&self) -> (s: Span)
        ensures
            s == self.span,
    {
        self.span
    }
}

impl Spanned for Stmt {
    fn span(&self) -> (s: Span)
        ensures
            s == self.span,
    {
        self.span
    }
}

impl Spanned for Target {
    fn span(&self) -> (s: Span)
        ensures
            s == self.span,
    {
        self.span
    }
}

impl Spanned for LValue {
    fn span(&self) -> (s: Span)
        ensures
            s == self.span,
    {
        self.span
    }
}

impl Spanned for ProcCall {
    fn span(&self) -> (s: Span)
        ensures
            s == self.span,
    {
        self.span
    }
}

impl Spanned for Expr {
    fn span(&self) -> (s: Span)
        ensures
            s == self.span,
    {
        self.span
    }
}

} // verus!
