//! The grammar that the parser reads, as relations between runs of tokens
//! and syntax trees: tokens `p..q` read as a tree when the tree, written
//! back with the parentheses that its precedence needs, is those tokens.
//! Positions are not part of the relation.

use vstd::prelude::*;
use crate::ast::{
    BinOp, Block, ElseBranch, Expr, FieldDecl, IfStmt, Ident, Item, Param, Stmt, TypeExpr, UnOp,
};
use crate::parser::has_parent_segment;
use crate::token::{kind_tag, Token, TokenKind};

verus! {

/// Token `i` is of the variant of `k`.
pub open spec fn tk(ts: Seq<Token>, i: int, k: TokenKind) -> bool {
    0 <= i < ts.len() && kind_tag(ts[i].kind) == kind_tag(k)
}

/// `k` is a position in the tokens, or just after them.
pub open spec fn pos_in(ts: Seq<Token>, k: int) -> bool {
    0 <= k <= ts.len()
}

/// Token `i` is the identifier `n`.
pub open spec fn tk_ident(ts: Seq<Token>, i: int, n: Seq<char>) -> bool {
    0 <= i < ts.len() && (ts[i].kind matches TokenKind::Ident(x) && x@ == n)
}

/// How tightly a binary operator binds: `||`, `&&`, equality, comparison,
/// `+ -`, then `* / %`.
pub open spec fn bin_level(op: BinOp) -> int {
    match op {
        BinOp::Or => 1,
        BinOp::And => 2,
        BinOp::Eq | BinOp::Ne => 3,
        BinOp::Lt | BinOp::Le | BinOp::Gt | BinOp::Ge => 4,
        BinOp::Add | BinOp::Sub => 5,
        BinOp::Mul | BinOp::Div | BinOp::Rem => 6,
    }
}

/// How tightly an expression binds without parentheses: ranges, binary
/// operators by their level, unary operators, postfix operations, and
/// primary expressions.
pub open spec fn expr_level(e: Expr) -> int {
    match e {
        Expr::Range { .. } => 0,
        Expr::Binary { op, .. } => bin_level(op),
        Expr::Unary { .. } => 7,
        Expr::Index { .. } => 8,
        Expr::Field { .. } => 8,
        Expr::MethodCall { .. } => 8,
        _ => 9,
    }
}

/// The token of a binary operator.
pub open spec fn bin_token(op: BinOp) -> TokenKind {
    match op {
        BinOp::Add => TokenKind::Plus,
        BinOp::Sub => TokenKind::Minus,
        BinOp::Mul => TokenKind::Star,
        BinOp::Div => TokenKind::Slash,
        BinOp::Rem => TokenKind::Percent,
        BinOp::Eq => TokenKind::EqEq,
        BinOp::Ne => TokenKind::BangEq,
        BinOp::Lt => TokenKind::Lt,
        BinOp::Le => TokenKind::LtEq,
        BinOp::Gt => TokenKind::Gt,
        BinOp::Ge => TokenKind::GtEq,
        BinOp::And => TokenKind::AndAnd,
        BinOp::Or => TokenKind::OrOr,
    }
}

/// The token of a unary operator.
pub open spec fn un_token(op: UnOp) -> TokenKind {
    match op {
        UnOp::Neg => TokenKind::Minus,
        UnOp::Not => TokenKind::Bang,
    }
}

/// Tokens `p..q` read as `e` at precedence level `lv`: `e` itself when it
/// binds at least that tightly, or `e` in parentheses.
pub open spec fn expr_reads(ts: Seq<Token>, p: int, q: int, e: Expr, lv: int) -> bool
    decreases e, 1int, q - p,
{
    if !(0 <= p < q <= ts.len()) {
        false
    } else {
        ||| (expr_level(e) >= lv && expr_direct(ts, p, q, e))
        ||| (p + 1 < q - 1 && tk(ts, p, TokenKind::LParen) && tk(ts, q - 1, TokenKind::RParen)
            && expr_reads(ts, p + 1, q - 1, e, 0))
    }
}

/// Tokens `p..q` read as `e` written without parentheses around it.
pub open spec fn expr_direct(ts: Seq<Token>, p: int, q: int, e: Expr) -> bool
    decreases e, 0int, 0int,
{
    match e {
        Expr::Int { value, .. } => q == p + 1 && 0 <= p < ts.len() && ts[p].kind == TokenKind::Int(value),
        Expr::Float { text, .. } => q == p + 1 && 0 <= p < ts.len()
            && (ts[p].kind matches TokenKind::Float(t) && t@ == text@),
        Expr::Str { value, .. } => q == p + 1 && 0 <= p < ts.len()
            && (ts[p].kind matches TokenKind::Str(t) && t@ == value@),
        Expr::Bool { value, .. } => q == p + 1
            && tk(ts, p, if value { TokenKind::True } else { TokenKind::False }),
        Expr::Var { name } => q == p + 1 && tk_ident(ts, p, name.name@),
        Expr::Call { callee, args, .. } => tk_ident(ts, p, callee.name@) && tk(ts, p + 1, TokenKind::LParen)
            && tk(ts, q - 1, TokenKind::RParen) && list_reads(ts, p + 2, q - 1, args@),
        Expr::Array { elems, .. } => tk(ts, p, TokenKind::LBracket) && tk(ts, q - 1, TokenKind::RBracket)
            && list_reads(ts, p + 1, q - 1, elems@),
        Expr::StructLit { name, fields, .. } => tk_ident(ts, p, name.name@) && tk(ts, p + 1, TokenKind::LBrace)
            && tk(ts, q - 1, TokenKind::RBrace) && inits_reads(ts, p + 2, q - 1, fields@),
        Expr::Unary { op, expr, .. } => tk(ts, p, un_token(op)) && expr_reads(ts, p + 1, q, *expr, 7),
        Expr::Binary { op, lhs, rhs, .. } => exists|k: int| #[trigger] tk(ts, k, bin_token(op))
            && expr_reads(ts, p, k, *lhs, bin_level(op)) && expr_reads(ts, k + 1, q, *rhs, bin_level(op) + 1),
        Expr::Range { start, end, .. } => exists|k: int| #[trigger] tk(ts, k, TokenKind::DotDot)
            && expr_reads(ts, p, k, *start, 1) && expr_reads(ts, k + 1, q, *end, 1),
        Expr::Index { base, index, .. } => exists|k: int| #[trigger] tk(ts, k, TokenKind::LBracket)
            && expr_reads(ts, p, k, *base, 8) && expr_reads(ts, k + 1, q - 1, *index, 0)
            && tk(ts, q - 1, TokenKind::RBracket),
        Expr::Field { base, name, .. } => expr_reads(ts, p, q - 2, *base, 8) && tk(ts, q - 2, TokenKind::Dot)
            && tk_ident(ts, q - 1, name.name@),
        Expr::MethodCall { recv, method, args, .. } => exists|k: int| expr_reads(ts, p, k, *recv, 8)
            && #[trigger] tk(ts, k, TokenKind::Dot) && tk_ident(ts, k + 1, method.name@) && tk(ts, k + 2, TokenKind::LParen)
            && list_reads(ts, k + 3, q - 1, args@) && tk(ts, q - 1, TokenKind::RParen),
    }
}

/// Tokens `p..q` read as the expressions `es`, separated by commas.
pub open spec fn list_reads(ts: Seq<Token>, p: int, q: int, es: Seq<Expr>) -> bool
    decreases es, 0int, 0int,
{
    if es.len() == 0 {
        q == p
    } else if es.len() == 1 {
        expr_reads(ts, p, q, es[0], 0)
    } else {
        exists|k: int| list_reads(ts, p, k, es.subrange(0, es.len() - 1)) && #[trigger] tk(ts, k, TokenKind::Comma)
            && expr_reads(ts, k + 1, q, es[es.len() - 1], 0)
    }
}

/// Tokens `p..q` read as the field initializers `fs` (`name: expr`),
/// separated by commas.
pub open spec fn inits_reads(ts: Seq<Token>, p: int, q: int, fs: Seq<(Ident, Expr)>) -> bool
    decreases fs, 0int, 0int,
{
    if fs.len() == 0 {
        q == p
    } else {
        let f = fs[fs.len() - 1];
        let one = |a: int| tk_ident(ts, a, f.0.name@) && tk(ts, a + 1, TokenKind::Colon);
        if fs.len() == 1 {
            one(p) && expr_reads(ts, p + 2, q, f.1, 0)
        } else {
            exists|k: int| inits_reads(ts, p, k, fs.subrange(0, fs.len() - 1)) && #[trigger] tk(ts, k, TokenKind::Comma)
                && one(k + 1) && expr_reads(ts, k + 3, q, f.1, 0)
        }
    }
}

/// Tokens `p` and after read as the scalar type or struct name `t`.
pub open spec fn base_type_reads(ts: Seq<Token>, p: int, t: TypeExpr) -> bool {
    match t {
        TypeExpr::Int => tk(ts, p, TokenKind::TyInt),
        TypeExpr::Float => tk(ts, p, TokenKind::TyFloat),
        TypeExpr::Bool => tk(ts, p, TokenKind::TyBool),
        TypeExpr::String => tk(ts, p, TokenKind::TyString),
        TypeExpr::Void => tk(ts, p, TokenKind::TyVoid),
        TypeExpr::Named(n) => tk_ident(ts, p, n@),
        TypeExpr::Array(_) => false,
    }
}

/// Tokens `p..q` read as the type `t`: a base type, or a base type other
/// than `void` followed by `[]`.
pub open spec fn type_reads(ts: Seq<Token>, p: int, q: int, t: TypeExpr) -> bool {
    match t {
        TypeExpr::Array(b) => q == p + 3 && base_type_reads(ts, p, *b) && !(*b is Void)
            && tk(ts, p + 1, TokenKind::LBracket) && tk(ts, p + 2, TokenKind::RBracket),
        _ => q == p + 1 && base_type_reads(ts, p, t),
    }
}

/// How many tokens the type `t` takes: three for an array type, else one.
pub open spec fn type_len(t: TypeExpr) -> int {
    if t is Array { 3 } else { 1 }
}

/// Tokens `p..m` read as the field path `.f.g...`.
pub open spec fn path_reads(ts: Seq<Token>, p: int, m: int, fs: Seq<Ident>) -> bool
    decreases fs.len(),
{
    if fs.len() == 0 {
        m == p
    } else {
        path_reads(ts, p, m - 2, fs.subrange(0, fs.len() - 1)) && tk(ts, m - 2, TokenKind::Dot)
            && tk_ident(ts, m - 1, fs[fs.len() - 1].name@)
    }
}

/// Tokens `p..m` read as what follows an assigned variable: an optional
/// `[index]`, then a field path.
pub open spec fn place_reads(ts: Seq<Token>, p: int, m: int, index: Option<Expr>, fs: Seq<Ident>) -> bool {
    match index {
        None => path_reads(ts, p, m, fs),
        Some(i) => tk(ts, p, TokenKind::LBracket) && exists|k: int| #[trigger] tk(ts, k, TokenKind::RBracket)
            && expr_reads(ts, p + 1, k, i, 0) && path_reads(ts, k + 1, m, fs),
    }
}

/// Tokens `p..q` read as the statement `s`.
pub open spec fn stmt_reads(ts: Seq<Token>, p: int, q: int, s: Stmt) -> bool
    decreases s, 2int, 0int,
{
    match s {
        Stmt::Let(l) => tk(ts, p, TokenKind::Let) && tk_ident(ts, p + 1, l.name.name@) && tk(ts, q - 1, TokenKind::Semi)
            && match l.ty {
                None => tk(ts, p + 2, TokenKind::Assign) && expr_reads(ts, p + 3, q - 1, l.value, 0),
                Some(t) => {
                    let j = p + 3 + type_len(t);
                    tk(ts, p + 2, TokenKind::Colon) && type_reads(ts, p + 3, j, t) && tk(ts, j, TokenKind::Assign)
                        && expr_reads(ts, j + 1, q - 1, l.value, 0)
                },
            },
        Stmt::Assign(a) => tk(ts, q - 1, TokenKind::Semi) && if a.via_deref {
            &&& a.index is None
            &&& a.fields@.len() == 0
            &&& tk(ts, p, TokenKind::Star)
            &&& match a.value {
                Expr::Binary { op: BinOp::Eq, lhs, rhs, .. } => exists|k: int| #[trigger] tk(ts, k, TokenKind::Assign)
                    && expr_reads(ts, p + 1, k, *lhs, 0) && expr_reads(ts, k + 1, q - 1, *rhs, 0),
                _ => false,
            }
        } else {
            tk_ident(ts, p, a.name.name@) && exists|m: int| #[trigger] tk(ts, m, TokenKind::Assign)
                && place_reads(ts, p + 1, m, a.index, a.fields@) && expr_reads(ts, m + 1, q - 1, a.value, 0)
        },
        Stmt::If(i) => if_reads(ts, p, q, i),
        Stmt::While(w) => tk(ts, p, TokenKind::While) && exists|k: int| expr_reads(ts, p + 1, k, w.cond, 0)
            && #[trigger] tk(ts, k, TokenKind::LBrace) && block_reads(ts, k, q, w.body),
        Stmt::For(f) => tk(ts, p, TokenKind::For) && tk_ident(ts, p + 1, f.var.name@) && tk(ts, p + 2, TokenKind::In)
            && exists|k: int| expr_reads(ts, p + 3, k, f.iter, 0) && #[trigger] tk(ts, k, TokenKind::LBrace)
            && block_reads(ts, k, q, f.body),
        Stmt::Break(_) => q == p + 2 && tk(ts, p, TokenKind::Break) && tk(ts, p + 1, TokenKind::Semi),
        Stmt::Continue(_) => q == p + 2 && tk(ts, p, TokenKind::Continue) && tk(ts, p + 1, TokenKind::Semi),
        Stmt::Return(r) => tk(ts, p, TokenKind::Return) && tk(ts, q - 1, TokenKind::Semi) && match r.value {
            None => q == p + 2,
            Some(e) => expr_reads(ts, p + 1, q - 1, e, 0),
        },
        Stmt::Expr(e) => if e.implicit_return {
            expr_reads(ts, p, q, e.expr, 0) && (tk(ts, q, TokenKind::RBrace) || tk(ts, q, TokenKind::Eof))
        } else {
            expr_reads(ts, p, q - 1, e.expr, 0) && tk(ts, q - 1, TokenKind::Semi)
        },
        Stmt::Block(b) => block_reads(ts, p, q, b),
    }
}

/// Tokens `p..q` read as the block `b`: its statements in braces.
pub open spec fn block_reads(ts: Seq<Token>, p: int, q: int, b: Block) -> bool
    decreases b, 1int, 0int,
{
    tk(ts, p, TokenKind::LBrace) && tk(ts, q - 1, TokenKind::RBrace) && stmts_reads(ts, p + 1, q - 1, b.stmts@)
}

/// Tokens `p..q` read as the statements `ss`, one after another.
pub open spec fn stmts_reads(ts: Seq<Token>, p: int, q: int, ss: Seq<Stmt>) -> bool
    decreases ss, 0int, 0int,
{
    if ss.len() == 0 {
        q == p
    } else {
        exists|k: int| #[trigger] pos_in(ts, k) && stmts_reads(ts, p, k, ss.subrange(0, ss.len() - 1))
            && stmt_reads(ts, k, q, ss[ss.len() - 1])
    }
}

/// Tokens `p..q` read as the `if` statement `i`, with its `else` part.
pub open spec fn if_reads(ts: Seq<Token>, p: int, q: int, i: IfStmt) -> bool
    decreases i, 1int, 0int,
{
    tk(ts, p, TokenKind::If) && exists|k: int| expr_reads(ts, p + 1, k, i.cond, 0)
        && #[trigger] tk(ts, k, TokenKind::LBrace) && match i.else_branch {
            None => block_reads(ts, k, q, i.then_block),
            Some(ElseBranch::Block(b)) => exists|m: int| #[trigger] tk(ts, m, TokenKind::Else)
                && block_reads(ts, k, m, i.then_block) && block_reads(ts, m + 1, q, b),
            Some(ElseBranch::If(n)) => exists|m: int| #[trigger] tk(ts, m, TokenKind::Else)
                && block_reads(ts, k, m, i.then_block) && if_reads(ts, m + 1, q, *n),
        }
}

/// Tokens `a..b` read as a field declaration `name: type`, of a type that
/// is not `void`.
pub open spec fn field_decl_reads(ts: Seq<Token>, a: int, b: int, f: FieldDecl) -> bool {
    tk_ident(ts, a, f.name.name@) && tk(ts, a + 1, TokenKind::Colon) && type_reads(ts, a + 2, b, f.ty)
        && !(f.ty is Void)
}

/// Tokens `p..q` read as field declarations separated by commas.
pub open spec fn field_list_reads(ts: Seq<Token>, p: int, q: int, fs: Seq<FieldDecl>) -> bool
    decreases fs.len(),
{
    if fs.len() == 0 {
        q == p
    } else if fs.len() == 1 {
        field_decl_reads(ts, p, q, fs[0])
    } else {
        exists|k: int| field_list_reads(ts, p, k, fs.subrange(0, fs.len() - 1)) && #[trigger] tk(ts, k, TokenKind::Comma)
            && field_decl_reads(ts, k + 1, q, fs[fs.len() - 1])
    }
}

/// Tokens `a..b` read as a parameter `name: type`.
pub open spec fn param_reads(ts: Seq<Token>, a: int, b: int, prm: Param) -> bool {
    tk_ident(ts, a, prm.name.name@) && tk(ts, a + 1, TokenKind::Colon) && type_reads(ts, a + 2, b, prm.ty)
}

/// Tokens `p..q` read as parameters separated by commas.
pub open spec fn params_reads(ts: Seq<Token>, p: int, q: int, ps: Seq<Param>) -> bool
    decreases ps.len(),
{
    if ps.len() == 0 {
        q == p
    } else if ps.len() == 1 {
        param_reads(ts, p, q, ps[0])
    } else {
        exists|k: int| params_reads(ts, p, k, ps.subrange(0, ps.len() - 1)) && #[trigger] tk(ts, k, TokenKind::Comma)
            && param_reads(ts, k + 1, q, ps[ps.len() - 1])
    }
}

/// Tokens `p..q` read as the item `it`.
pub open spec fn item_reads(ts: Seq<Token>, p: int, q: int, it: Item) -> bool {
    match it {
        Item::Struct(d) => tk(ts, p, TokenKind::Struct) && tk_ident(ts, p + 1, d.name.name@)
            && tk(ts, p + 2, TokenKind::LBrace) && exists|m: int| #[trigger] tk(ts, m, TokenKind::RBrace)
            && (field_list_reads(ts, p + 3, m, d.fields@)
                || (d.fields@.len() > 0 && tk(ts, m - 1, TokenKind::Comma) && field_list_reads(ts, p + 3, m - 1, d.fields@)))
            && q == (if tk(ts, m + 1, TokenKind::Semi) { m + 2 } else { m + 1 }),
        Item::Const(c) => {
            let j = p + 3 + type_len(c.ty);
            tk(ts, p, TokenKind::Const) && tk_ident(ts, p + 1, c.name.name@) && tk(ts, p + 2, TokenKind::Colon)
                && type_reads(ts, p + 3, j, c.ty) && tk(ts, j, TokenKind::Assign)
                && expr_reads(ts, j + 1, q - 1, c.value, 0) && tk(ts, q - 1, TokenKind::Semi)
        },
        Item::Fun(f) => {
            let a = match f.on_type { Some(_) => p + 4, None => p + 2 };
            &&& tk(ts, p, TokenKind::Fun)
            &&& match f.on_type {
                Some(t) => tk_ident(ts, p + 1, t.name@) && tk(ts, p + 2, TokenKind::Dot)
                    && tk_ident(ts, p + 3, f.name.name@),
                None => tk_ident(ts, p + 1, f.name.name@),
            }
            &&& tk(ts, a, TokenKind::LParen)
            &&& exists|b: int| #[trigger] tk(ts, b, TokenKind::RParen) && params_reads(ts, a + 1, b, f.params@)
                && tk(ts, b + 1, TokenKind::Arrow) && type_reads(ts, b + 2, b + 2 + type_len(f.ret), f.ret)
                && block_reads(ts, b + 2 + type_len(f.ret), q, f.body)
        },
        Item::Import(imp) => tk(ts, p, TokenKind::Import) && 0 <= p + 1 < ts.len()
            && (ts[p + 1].kind matches TokenKind::Str(x) && x@ == imp.path@) && !has_parent_segment(imp.path@)
            && match imp.alias {
                None => q == p + 3 && tk(ts, p + 2, TokenKind::Semi),
                Some(al) => q == p + 5 && tk(ts, p + 2, TokenKind::As) && tk_ident(ts, p + 3, al.name@)
                    && tk(ts, p + 4, TokenKind::Semi),
            },
        Item::Stmt(st) => stmt_reads(ts, p, q, st),
    }
}

/// Tokens `p..q` read as the items `items`, one after another.
pub open spec fn items_reads(ts: Seq<Token>, p: int, q: int, items: Seq<Item>) -> bool
    decreases items.len(),
{
    if items.len() == 0 {
        q == p
    } else {
        exists|k: int| #[trigger] pos_in(ts, k) && items_reads(ts, p, k, items.subrange(0, items.len() - 1))
            && item_reads(ts, k, q, items[items.len() - 1])
    }
}

/// An expression read at one level is read at every looser level.
pub proof fn lemma_reads_weaken(ts: Seq<Token>, p: int, q: int, e: Expr, lv: int, lv2: int)
    requires
        expr_reads(ts, p, q, e, lv),
        lv2 <= lv,
    ensures
        expr_reads(ts, p, q, e, lv2),
{
}

} // verus!
