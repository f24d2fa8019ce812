//! The syntax tree that the parser builds and the checker and compiler
//! read. Nodes carry the position they start at, for diagnostics.

use vstd::prelude::*;
use crate::token::Span;

verus! {

/// A type as written in the source.
#[derive(Debug)]
pub enum TypeExpr {
    Int,
    Float,
    Bool,
    String,
    Void,
    /// `T[]`
    Array(Box<TypeExpr>),
    /// A struct name.
    Named(String),
}

impl TypeExpr {
    /// Whether this is `void`.
    pub fn is_void(&self) -> (r: bool)
        ensures
            r == (*self is Void),
    {
        matches!(self, TypeExpr::Void)
    }
}

/// A binary operator.
#[derive(Debug, Clone, Copy, PartialEq, Eq, Structural)]
pub enum BinOp {
    Add,
    Sub,
    Mul,
    Div,
    Rem,
    Eq,
    Ne,
    Lt,
    Le,
    Gt,
    Ge,
    And,
    Or,
}

/// A unary operator.
#[derive(Debug, Clone, Copy, PartialEq, Eq, Structural)]
pub enum UnOp {
    Neg,
    Not,
}

/// A name and where it is written.
#[derive(Debug)]
pub struct Ident {
    pub name: String,
    pub span: Span,
}

/// A field of a struct declaration.
#[derive(Debug)]
pub struct FieldDecl {
    pub name: Ident,
    pub ty: TypeExpr,
}

/// `struct Name { field: type, ... }`
#[derive(Debug)]
pub struct StructDecl {
    pub name: Ident,
    pub fields: Vec<FieldDecl>,
    pub span: Span,
}

/// `const NAME: type = value;`
#[derive(Debug)]
pub struct ConstDecl {
    pub name: Ident,
    pub ty: TypeExpr,
    pub value: Expr,
    pub span: Span,
}

/// `import "path" [as alias];`
#[derive(Debug)]
pub struct ImportItem {
    pub path: String,
    pub alias: Option<Ident>,
    pub span: Span,
}

/// A function parameter.
#[derive(Debug)]
pub struct Param {
    pub name: Ident,
    pub ty: TypeExpr,
}

/// `fun [Type.]name(params) -> ret { body }`
#[derive(Debug)]
pub struct FunDecl {
    pub name: Ident,
    /// The struct a method is declared on.
    pub on_type: Option<Ident>,
    pub params: Vec<Param>,
    pub ret: TypeExpr,
    pub body: Block,
    pub span: Span,
}

/// An expression.
#[derive(Debug)]
pub enum Expr {
    Int { value: i64, span: Span },
    /// A float literal, with the text of its digits.
    Float { text: String, span: Span },
    Bool { value: bool, span: Span },
    Str { value: String, span: Span },
    Var { name: Ident },
    Unary { op: UnOp, expr: Box<Expr>, span: Span },
    Binary { op: BinOp, lhs: Box<Expr>, rhs: Box<Expr>, span: Span },
    Call { callee: Ident, args: Vec<Expr>, span: Span },
    MethodCall { recv: Box<Expr>, method: Ident, args: Vec<Expr>, span: Span },
    Index { base: Box<Expr>, index: Box<Expr>, span: Span },
    Field { base: Box<Expr>, name: Ident, span: Span },
    Array { elems: Vec<Expr>, span: Span },
    StructLit { name: Ident, fields: Vec<(Ident, Expr)>, span: Span },
    /// `start..end`, only meaningful as the range of a `for`.
    Range { start: Box<Expr>, end: Box<Expr>, span: Span },
}

/// The position of an expression.
pub open spec fn expr_span(e: Expr) -> Span {
    match e {
        Expr::Int { span, .. } => span,
        Expr::Float { span, .. } => span,
        Expr::Bool { span, .. } => span,
        Expr::Str { span, .. } => span,
        Expr::Var { name } => name.span,
        Expr::Unary { span, .. } => span,
        Expr::Binary { span, .. } => span,
        Expr::Call { span, .. } => span,
        Expr::MethodCall { span, .. } => span,
        Expr::Index { span, .. } => span,
        Expr::Field { span, .. } => span,
        Expr::Array { span, .. } => span,
        Expr::StructLit { span, .. } => span,
        Expr::Range { span, .. } => span,
    }
}

impl Expr {
    /// Where the expression is written.
    pub fn span(&self) -> (s: Span)
        ensures
            s == expr_span(*self),
    {
        match self {
            Expr::Int { span, .. } => *span,
            Expr::Float { span, .. } => *span,
            Expr::Bool { span, .. } => *span,
            Expr::Str { span, .. } => *span,
            Expr::Var { name } => name.span,
            Expr::Unary { span, .. } => *span,
            Expr::Binary { span, .. } => *span,
            Expr::Call { span, .. } => *span,
            Expr::MethodCall { span, .. } => *span,
            Expr::Index { span, .. } => *span,
            Expr::Field { span, .. } => *span,
            Expr::Array { span, .. } => *span,
            Expr::StructLit { span, .. } => *span,
            Expr::Range { span, .. } => *span,
        }
    }
}

/// `let name[: type] = value;`
#[derive(Debug)]
pub struct LetStmt {
    pub name: Ident,
    pub ty: Option<TypeExpr>,
    pub value: Expr,
    pub span: Span,
}

/// An assignment: `name = v;`, `name[i] = v;`, `name.f.g = v;`,
/// `name[i].f = v;`, or, with `via_deref`, `*p = v;` (then `value` is the
/// pair `p == v`).
#[derive(Debug)]
pub struct AssignStmt {
    pub name: Ident,
    pub index: Option<Expr>,
    pub fields: Vec<Ident>,
    pub value: Expr,
    pub span: Span,
    pub via_deref: bool,
}

/// `if cond { ... } [else ...]`
#[derive(Debug)]
pub struct IfStmt {
    pub cond: Expr,
    pub then_block: Block,
    pub else_branch: Option<ElseBranch>,
    pub span: Span,
}

/// What follows `else`.
#[derive(Debug)]
pub enum ElseBranch {
    Block(Block),
    If(Box<IfStmt>),
}

/// `while cond { ... }`
#[derive(Debug)]
pub struct WhileStmt {
    pub cond: Expr,
    pub body: Block,
    pub span: Span,
}

/// `for var in iter { ... }`; `iter` is a range or an array.
#[derive(Debug)]
pub struct ForStmt {
    pub var: Ident,
    pub iter: Expr,
    pub body: Block,
    pub span: Span,
}

/// `return [value];`
#[derive(Debug)]
pub struct ReturnStmt {
    pub value: Option<Expr>,
    pub span: Span,
}

/// An expression statement; `implicit_return` when it is the last thing
/// in its block and has no `;`.
#[derive(Debug)]
pub struct ExprStmt {
    pub expr: Expr,
    pub span: Span,
    pub implicit_return: bool,
}

/// A statement.
#[derive(Debug)]
pub enum Stmt {
    Let(LetStmt),
    Assign(AssignStmt),
    If(IfStmt),
    While(WhileStmt),
    For(ForStmt),
    Break(Span),
    Continue(Span),
    Return(ReturnStmt),
    Expr(ExprStmt),
    Block(Block),
}

/// `{ stmt* }`
#[derive(Debug)]
pub struct Block {
    pub stmts: Vec<Stmt>,
    pub span: Span,
}

/// A top-level item.
#[derive(Debug)]
pub enum Item {
    Struct(StructDecl),
    Const(ConstDecl),
    Fun(FunDecl),
    Import(ImportItem),
    Stmt(Stmt),
}

/// A whole source file.
#[derive(Debug)]
pub struct Program {
    pub items: Vec<Item>,
}

/// Whether an item is the free function `main`.
pub open spec fn is_main_fun(item: Item) -> bool {
    item matches Item::Fun(f) && f.on_type is None && f.name.name@ == "main"@
}

/// The structs among the first `n` items, in order.
pub open spec fn struct_items(items: Seq<Item>, n: nat) -> Seq<StructDecl>
    decreases n,
{
    if n == 0 {
        Seq::empty()
    } else {
        let s = struct_items(items, (n - 1) as nat);
        match items[n - 1] {
            Item::Struct(x) => s.push(x),
            _ => s,
        }
    }
}

/// The constants among the first `n` items, in order.
pub open spec fn const_items(items: Seq<Item>, n: nat) -> Seq<ConstDecl>
    decreases n,
{
    if n == 0 {
        Seq::empty()
    } else {
        let s = const_items(items, (n - 1) as nat);
        match items[n - 1] {
            Item::Const(x) => s.push(x),
            _ => s,
        }
    }
}

/// The top-level statements among the first `n` items, in order.
pub open spec fn stmt_items(items: Seq<Item>, n: nat) -> Seq<Stmt>
    decreases n,
{
    if n == 0 {
        Seq::empty()
    } else {
        let s = stmt_items(items, (n - 1) as nat);
        match items[n - 1] {
            Item::Stmt(x) => s.push(x),
            _ => s,
        }
    }
}

/// The functions among the first `n` items, in order.
pub open spec fn fun_items(items: Seq<Item>, n: nat) -> Seq<FunDecl>
    decreases n,
{
    if n == 0 {
        Seq::empty()
    } else {
        let s = fun_items(items, (n - 1) as nat);
        match items[n - 1] {
            Item::Fun(f) => s.push(f),
            _ => s,
        }
    }
}

impl Program {
    /// The function declarations, in the order they are written.
    pub fn functions(&self) -> (r: Vec<&FunDecl>)
        ensures
            r@.len() == fun_items(self.items@, self.items@.len()).len(),
            forall|i: int| 0 <= i < r@.len() ==> *(#[trigger] r@[i]) == fun_items(self.items@, self.items@.len())[i],
    {
        let mut r: Vec<&FunDecl> = Vec::new();
        let mut i: usize = 0;
        while i < self.items.len()
            invariant
                i <= self.items@.len(),
                r@.len() == fun_items(self.items@, i as nat).len(),
                forall|k: int| 0 <= k < r@.len() ==> *(#[trigger] r@[k]) == fun_items(self.items@, i as nat)[k],
            decreases self.items@.len() - i,
        {
            match &self.items[i] {
                Item::Fun(f) => {
                    r.push(f);
                },
                _ => {},
            }
            i = i + 1;
        }
        r
    }

    /// The struct declarations, in the order they are written.
    pub fn structs(&self) -> (r: Vec<&StructDecl>)
        ensures
            r@.len() == struct_items(self.items@, self.items@.len()).len(),
            forall|i: int| 0 <= i < r@.len() ==> *(#[trigger] r@[i]) == struct_items(self.items@, self.items@.len())[i],
    {
        let mut r: Vec<&StructDecl> = Vec::new();
        let mut i: usize = 0;
        while i < self.items.len()
            invariant
                i <= self.items@.len(),
                r@.len() == struct_items(self.items@, i as nat).len(),
                forall|k: int| 0 <= k < r@.len() ==> *(#[trigger] r@[k]) == struct_items(self.items@, i as nat)[k],
            decreases self.items@.len() - i,
        {
            match &self.items[i] {
                Item::Struct(x) => {
                    r.push(x);
                },
                _ => {},
            }
            i = i + 1;
        }
        r
    }

    /// The constant declarations, in the order they are written.
    pub fn consts(&self) -> (r: Vec<&ConstDecl>)
        ensures
            r@.len() == const_items(self.items@, self.items@.len()).len(),
            forall|i: int| 0 <= i < r@.len() ==> *(#[trigger] r@[i]) == const_items(self.items@, self.items@.len())[i],
    {
        let mut r: Vec<&ConstDecl> = Vec::new();
        let mut i: usize = 0;
        while i < self.items.len()
            invariant
                i <= self.items@.len(),
                r@.len() == const_items(self.items@, i as nat).len(),
                forall|k: int| 0 <= k < r@.len() ==> *(#[trigger] r@[k]) == const_items(self.items@, i as nat)[k],
            decreases self.items@.len() - i,
        {
            match &self.items[i] {
                Item::Const(x) => {
                    r.push(x);
                },
                _ => {},
            }
            i = i + 1;
        }
        r
    }

    /// The imports, in the order they are written.
    pub fn imports(&self) -> (r: Vec<&ImportItem>)
        ensures
            r@.len() == crate::loader::imports_in(self.items@, self.items@.len()).len(),
            forall|i: int| 0 <= i < r@.len() ==> *(#[trigger] r@[i]) == crate::loader::imports_in(self.items@, self.items@.len())[i],
    {
        let mut r: Vec<&ImportItem> = Vec::new();
        let mut i: usize = 0;
        while i < self.items.len()
            invariant
                i <= self.items@.len(),
                r@.len() == crate::loader::imports_in(self.items@, i as nat).len(),
                forall|k: int| 0 <= k < r@.len() ==> *(#[trigger] r@[k]) == crate::loader::imports_in(self.items@, i as nat)[k],
            decreases self.items@.len() - i,
        {
            match &self.items[i] {
                Item::Import(x) => {
                    r.push(x);
                },
                _ => {},
            }
            i = i + 1;
        }
        r
    }

    /// The statements at the top level, in the order they are written.
    pub fn top_level_stmts(&self) -> (r: Vec<&Stmt>)
        ensures
            r@.len() == stmt_items(self.items@, self.items@.len()).len(),
            forall|i: int| 0 <= i < r@.len() ==> *(#[trigger] r@[i]) == stmt_items(self.items@, self.items@.len())[i],
    {
        let mut r: Vec<&Stmt> = Vec::new();
        let mut i: usize = 0;
        while i < self.items.len()
            invariant
                i <= self.items@.len(),
                r@.len() == stmt_items(self.items@, i as nat).len(),
                forall|k: int| 0 <= k < r@.len() ==> *(#[trigger] r@[k]) == stmt_items(self.items@, i as nat)[k],
            decreases self.items@.len() - i,
        {
            match &self.items[i] {
                Item::Stmt(x) => {
                    r.push(x);
                },
                _ => {},
            }
            i = i + 1;
        }
        r
    }

    /// Whether the program declares a free function `main`.
    pub fn has_main(&self) -> (r: bool)
        ensures
            r == exists|i: int| 0 <= i < self.items@.len() && is_main_fun(#[trigger] self.items@[i]),
    {
        let mut i: usize = 0;
        while i < self.items.len()
            invariant
                i <= self.items@.len(),
                forall|k: int| 0 <= k < i ==> !is_main_fun(#[trigger] self.items@[k]),
            decreases self.items@.len() - i,
        {
            match &self.items[i] {
                Item::Fun(f) => {
                    if f.on_type.is_none() && crate::text::str_eq(f.name.name.as_str(), "main") {
                        return true;
                    }
                },
                _ => {},
            }
            i = i + 1;
        }
        false
    }

    /// Whether the program has an `import`.
    pub fn has_import(&self) -> (r: bool)
        ensures
            r == exists|i: int| 0 <= i < self.items@.len() && (#[trigger] self.items@[i]) is Import,
    {
        let mut i: usize = 0;
        while i < self.items.len()
            invariant
                i <= self.items@.len(),
                forall|k: int| 0 <= k < i ==> !((#[trigger] self.items@[k]) is Import),
            decreases self.items@.len() - i,
        {
            if matches!(&self.items[i], Item::Import(_)) {
                return true;
            }
            i = i + 1;
        }
        false
    }
}

} // verus!
