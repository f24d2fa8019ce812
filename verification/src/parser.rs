//! The parser: recursive descent from tokens to a [`Program`].
//!
//! Every parsing function that succeeds has consumed at least one token,
//! so parsing always ends.

use vstd::prelude::*;
use crate::ast::{
    BinOp, Block, ConstDecl, ElseBranch, Expr, ExprStmt, FieldDecl, ForStmt, FunDecl, Ident,
    IfStmt, ImportItem, Item, LetStmt, Param, Program, ReturnStmt, Stmt, StructDecl, TypeExpr,
    UnOp, WhileStmt, AssignStmt,
};
use crate::grammar::{
    bin_level, bin_token, block_reads, expr_direct, expr_reads, field_decl_reads, field_list_reads, if_reads,
    inits_reads, item_reads, items_reads, lemma_reads_weaken, list_reads, param_reads, params_reads,
    path_reads, place_reads, pos_in, stmt_reads, stmts_reads, tk, tk_ident, type_len, type_reads,
};
use crate::lexer::tokens_wf;
use crate::text::{owned, push_str};
use crate::token::{kind_tag, Span, Token, TokenKind};

verus! {

/// A syntax error and where it happened.
#[derive(Debug)]
pub struct ParseError {
    pub message: String,
    pub span: Span,
}

/// Whether a `/`-separated path has a segment `..`.
pub open spec fn has_parent_segment(p: Seq<char>) -> bool {
    exists|i: int| #[trigger] parent_at(p, i)
}

/// Whether the segment `..` starts at `i` in the `/`-separated path `p`.
pub open spec fn parent_at(p: Seq<char>, i: int) -> bool {
    0 <= i && i + 2 <= p.len() && p[i] == '.' && p[i + 1] == '.'
        && (i == 0 || p[i - 1] == '/') && (i + 2 == p.len() || p[i + 2] == '/')
}

/// Whether the path `p` names a parent directory in one of its segments.
pub fn parent_segment(p: &str) -> (r: bool)
    ensures
        r == has_parent_segment(p@),
{
    let n = p.unicode_len();
    let mut i: usize = 0;
    while n >= 2 && i <= n - 2
        invariant
            n == p@.len(),
            forall|k: int| 0 <= k < i ==> !#[trigger] parent_at(p@, k),
        decreases n - i,
    {
        if p.get_char(i) == '.' && p.get_char(i + 1) == '.' && (i == 0 || p.get_char(i - 1) == '/')
            && (i + 2 == n || p.get_char(i + 2) == '/') {
            assert(parent_at(p@, i as int));
            return true;
        }
        i = i + 1;
    }
    assert forall|k: int| !parent_at(p@, k) by {
        if 0 <= k < i {
        }
    }
    false
}

/// Whether a token list ends with `Eof`, as every list that the lexer
/// gives does.
pub open spec fn ends_with_eof(ts: Seq<Token>) -> bool {
    ts.len() >= 1 && ts.last().kind is Eof
}

/// Whether a type starts with the token at `p`: a scalar type keyword or
/// a struct name.
pub open spec fn base_type_at(ts: Seq<Token>, p: int) -> bool {
    0 <= p < ts.len() && (ts[p].kind is TyInt || ts[p].kind is TyFloat || ts[p].kind is TyBool
        || ts[p].kind is TyString || ts[p].kind is TyVoid || ts[p].kind is Ident)
}

/// Whether the parser reads a type at `p`: a base type, and when `[`
/// follows it, a `]` after that and a base type other than `void`.
pub open spec fn type_ok(ts: Seq<Token>, p: int) -> bool {
    &&& base_type_at(ts, p)
    &&& tk(ts, p + 1, TokenKind::LBracket) ==> tk(ts, p + 2, TokenKind::RBracket) && !(ts[p].kind is TyVoid)
}

/// Where a type that starts at `p` ends: after `[ ]` when `[` follows.
pub open spec fn type_end(ts: Seq<Token>, p: int) -> int {
    if tk(ts, p + 1, TokenKind::LBracket) { p + 3 } else { p + 1 }
}

/// Where the parser finds the closing `}` of the fields of a struct read
/// from `k`, or `None` where it fails: fields `name: type` (of a type other
/// than `void`) separated by commas, with an optional comma after the last.
pub open spec fn fields_end(ts: Seq<Token>, k: int) -> Option<int>
    decreases ts.len() - k,
{
    if k < 0 || k >= ts.len() {
        None
    } else if tk(ts, k, TokenKind::RBrace) {
        Some(k)
    } else {
        let e = type_end(ts, k + 2);
        if ts[k].kind is Ident && tk(ts, k + 1, TokenKind::Colon) && type_ok(ts, k + 2)
            && !(ts[k + 2].kind is TyVoid) {
            if tk(ts, e, TokenKind::Comma) {
                if e + 1 > k { fields_end(ts, e + 1) } else { None }
            } else if tk(ts, e, TokenKind::RBrace) {
                Some(e)
            } else {
                None
            }
        } else {
            None
        }
    }
}

/// Where the parser's struct declaration read from `p` ends (after an
/// optional `;`), or `None` where it fails.
pub open spec fn struct_end(ts: Seq<Token>, p: int) -> Option<int> {
    if tk(ts, p, TokenKind::Struct) && 0 <= p + 1 < ts.len() && ts[p + 1].kind is Ident
        && tk(ts, p + 2, TokenKind::LBrace) {
        match fields_end(ts, p + 3) {
            Some(q) => if tk(ts, q + 1, TokenKind::Semi) { Some(q + 2) } else { Some(q + 1) },
            None => None,
        }
    } else {
        None
    }
}

/// Where the parser's parameter list read from `q` ends, before `)`, or
/// `None` where it fails: `name: type` separated by commas.
pub open spec fn params_end(ts: Seq<Token>, q: int) -> Option<int>
    decreases ts.len() - q,
{
    if q < 0 || q >= ts.len() {
        None
    } else if ts[q].kind is Ident && tk(ts, q + 1, TokenKind::Colon) && type_ok(ts, q + 2) {
        let e = type_end(ts, q + 2);
        if tk(ts, e, TokenKind::Comma) && e + 1 > q { params_end(ts, e + 1) } else { Some(e) }
    } else {
        None
    }
}

/// Where the parser's function declaration read from `p` ends, or `None`
/// where it fails: `fun`, a name or `Type.name`, parameters in brackets,
/// `->`, the result type and the body.
pub open spec fn fun_end(ts: Seq<Token>, p: int) -> Option<int> {
    if tk(ts, p, TokenKind::Fun) && 0 <= p + 1 < ts.len() && ts[p + 1].kind is Ident {
        let n = if tk(ts, p + 2, TokenKind::Dot) { p + 4 } else { p + 2 };
        if tk(ts, p + 2, TokenKind::Dot) && !(p + 3 < ts.len() && ts[p + 3].kind is Ident) {
            None
        } else if !tk(ts, n, TokenKind::LParen) {
            None
        } else {
            fun_tail(ts, if tk(ts, n + 1, TokenKind::RParen) { Some(n + 1) } else { params_end(ts, n + 1) })
        }
    } else {
        None
    }
}

/// The rest of a function declaration after parameters that end at `b`:
/// `) -> type` and the body.
pub open spec fn fun_tail(ts: Seq<Token>, b: Option<int>) -> Option<int> {
    match b {
        Some(b) => if tk(ts, b, TokenKind::RParen) && tk(ts, b + 1, TokenKind::Arrow) && type_ok(ts, b + 2) {
            ps(ts, type_end(ts, b + 2), STMT_BLOCK as int)
        } else {
            None
        },
        None => None,
    }
}

/// Where the parser's import read from `p` ends, or `None` where it fails.
pub open spec fn import_end(ts: Seq<Token>, p: int) -> Option<int> {
    if import_ok(ts, p) { Some(if tk(ts, p + 2, TokenKind::As) { p + 5 } else { p + 3 }) } else { None }
}

/// Where the parser's top-level item read from `p` ends, or `None` where it
/// fails.
pub open spec fn item_end(ts: Seq<Token>, p: int) -> Option<int> {
    if tk(ts, p, TokenKind::Struct) {
        struct_end(ts, p)
    } else if tk(ts, p, TokenKind::Const) {
        const_end(ts, p)
    } else if tk(ts, p, TokenKind::Fun) {
        fun_end(ts, p)
    } else if tk(ts, p, TokenKind::Import) {
        import_end(ts, p)
    } else {
        ps(ts, p, STMT_ONE as int)
    }
}

/// Where the parser, reading items from `p`, reaches an `Eof`, or `None`
/// where an item fails.
pub open spec fn items_end(ts: Seq<Token>, p: int) -> Option<int>
    decreases ts.len() - p,
{
    if p < 0 || p >= ts.len() {
        None
    } else if tk(ts, p, TokenKind::Eof) {
        Some(p)
    } else {
        match item_end(ts, p) {
            Some(q) => if p < q < ts.len() { items_end(ts, q) } else { None },
            None => None,
        }
    }
}

/// Where the parser's constant declaration read from `p` ends, or `None`
/// where it fails: `const name: type = value;`.
pub open spec fn const_end(ts: Seq<Token>, p: int) -> Option<int> {
    if tk(ts, p, TokenKind::Const) && 0 <= p + 1 < ts.len() && ts[p + 1].kind is Ident
        && tk(ts, p + 2, TokenKind::Colon) && type_ok(ts, p + 3) && tk(ts, type_end(ts, p + 3), TokenKind::Assign) {
        assigned_end(ts, type_end(ts, p + 3))
    } else {
        None
    }
}

/// Whether token `q` is a binary operator of level `lvl` (1 for `||` up to
/// 6 for `* / %`).
pub open spec fn op_at(ts: Seq<Token>, q: int, lvl: int) -> bool {
    if lvl == 1 {
        tk(ts, q, TokenKind::OrOr)
    } else if lvl == 2 {
        tk(ts, q, TokenKind::AndAnd)
    } else if lvl == 3 {
        tk(ts, q, TokenKind::EqEq) || tk(ts, q, TokenKind::BangEq)
    } else if lvl == 4 {
        tk(ts, q, TokenKind::Lt) || tk(ts, q, TokenKind::LtEq) || tk(ts, q, TokenKind::Gt)
            || tk(ts, q, TokenKind::GtEq)
    } else if lvl == 5 {
        tk(ts, q, TokenKind::Plus) || tk(ts, q, TokenKind::Minus)
    } else {
        tk(ts, q, TokenKind::Star) || tk(ts, q, TokenKind::Slash) || tk(ts, q, TokenKind::Percent)
    }
}

/// The order in which the expression readers call each other at one
/// position: a reader only calls one of lower rank there.
pub open spec fn pe_rank(m: int) -> int {
    if m == EXPR_ARGS { 40 } else if m == EXPR_LIST { 35 } else if 0 <= m <= 9 { 30 - m } else { 0 }
}

/// The readers of `pe`: levels 0 (an expression, maybe a range) to 9 (a
/// primary expression), and these.
pub const EXPR_CHAIN: u8 = 10;
pub const EXPR_POST: u8 = 17;
pub const EXPR_ARGS: u8 = 18;
pub const EXPR_LIST: u8 = 19;
pub const EXPR_INITS: u8 = 20;

/// Where the parser's expression reader `m` that starts at token `p` stops,
/// or `None` where it fails. Levels 0 to 9 read an expression of that
/// precedence or tighter; `EXPR_CHAIN + l` reads the rest of a level-`l`
/// chain of binary operators after its first operand; `EXPR_POST` the
/// postfix operations after a primary; `EXPR_ARGS` the arguments of a call
/// up to `)`; `EXPR_LIST` expressions separated by commas; `EXPR_INITS` the
/// `name: value` fields of a struct literal.
pub open spec fn pe(ts: Seq<Token>, p: int, m: int) -> Option<int>
    decreases ts.len() - p, pe_rank(m),
{
    if p < 0 || p >= ts.len() {
        None
    } else if m == 0 {
        match pe(ts, p, 1) {
            Some(q) => if tk(ts, q, TokenKind::DotDot) && q > p { pe(ts, q + 1, 1) } else { Some(q) },
            None => None,
        }
    } else if 1 <= m <= 6 {
        match pe(ts, p, m + 1) {
            Some(q) => if p < q < ts.len() { pe(ts, q, EXPR_CHAIN + m) } else { None },
            None => None,
        }
    } else if m == 7 {
        if tk(ts, p, TokenKind::Minus) || tk(ts, p, TokenKind::Bang) { pe(ts, p + 1, 7) } else { pe(ts, p, 8) }
    } else if m == 8 {
        match pe(ts, p, 9) {
            Some(q) => if p < q < ts.len() { pe(ts, q, EXPR_POST as int) } else { None },
            None => None,
        }
    } else if m == 9 {
        let k = ts[p].kind;
        if k is Int || k is Float || k is Str || k is True || k is False {
            Some(p + 1)
        } else if k is LParen {
            match pe(ts, p + 1, 0) {
                Some(q) => if tk(ts, q, TokenKind::RParen) { Some(q + 1) } else { None },
                None => None,
            }
        } else if k is LBracket {
            if tk(ts, p + 1, TokenKind::RBracket) {
                Some(p + 2)
            } else {
                match pe(ts, p + 1, EXPR_LIST as int) {
                    Some(q) => if tk(ts, q, TokenKind::RBracket) { Some(q + 1) } else { None },
                    None => None,
                }
            }
        } else if k is Ident {
            if tk(ts, p + 1, TokenKind::LParen) {
                match pe(ts, p + 2, EXPR_ARGS as int) {
                    Some(q) => if tk(ts, q, TokenKind::RParen) { Some(q + 1) } else { None },
                    None => None,
                }
            } else if tk(ts, p + 1, TokenKind::LBrace) && p + 3 < ts.len() && ts[p + 2].kind is Ident
                && ts[p + 3].kind is Colon {
                match pe(ts, p + 2, EXPR_INITS as int) {
                    Some(q) => if tk(ts, q, TokenKind::RBrace) { Some(q + 1) } else { None },
                    None => None,
                }
            } else {
                Some(p + 1)
            }
        } else {
            None
        }
    } else if EXPR_CHAIN + 1 <= m <= EXPR_CHAIN + 6 {
        if op_at(ts, p, m - EXPR_CHAIN) {
            match pe(ts, p + 1, m - EXPR_CHAIN + 1) {
                Some(q) => if p < q < ts.len() { pe(ts, q, m) } else { None },
                None => None,
            }
        } else {
            Some(p)
        }
    } else if m == EXPR_POST {
        if tk(ts, p, TokenKind::LBracket) {
            match pe(ts, p + 1, 0) {
                Some(q) => if tk(ts, q, TokenKind::RBracket) && q + 1 > p { pe(ts, q + 1, EXPR_POST as int) } else { None },
                None => None,
            }
        } else if tk(ts, p, TokenKind::Dot) {
            if p + 1 < ts.len() && ts[p + 1].kind is Ident {
                if tk(ts, p + 2, TokenKind::LParen) {
                    match pe(ts, p + 3, EXPR_ARGS as int) {
                        Some(q) => if tk(ts, q, TokenKind::RParen) && q + 1 > p { pe(ts, q + 1, EXPR_POST as int) } else { None },
                        None => None,
                    }
                } else {
                    pe(ts, p + 2, EXPR_POST as int)
                }
            } else {
                None
            }
        } else {
            Some(p)
        }
    } else if m == EXPR_ARGS {
        if tk(ts, p, TokenKind::RParen) { Some(p) } else { pe(ts, p, EXPR_LIST as int) }
    } else if m == EXPR_LIST {
        match pe(ts, p, 0) {
            Some(q) => if tk(ts, q, TokenKind::Comma) && q + 1 > p { pe(ts, q + 1, EXPR_LIST as int) } else { Some(q) },
            None => None,
        }
    } else if m == EXPR_INITS {
        if ts[p].kind is Ident && tk(ts, p + 1, TokenKind::Colon) {
            match pe(ts, p + 2, 0) {
                Some(q) => if tk(ts, q, TokenKind::Comma) && q + 1 > p { pe(ts, q + 1, EXPR_INITS as int) } else { Some(q) },
                None => None,
            }
        } else {
            None
        }
    } else {
        None
    }
}

/// Where a field path `.a.b` read from `q` ends, or `None` when a `.` is
/// not followed by a name.
pub open spec fn path_end(ts: Seq<Token>, q: int) -> Option<int>
    decreases ts.len() - q,
{
    if q < 0 || q >= ts.len() {
        None
    } else if tk(ts, q, TokenKind::Dot) {
        if q + 1 < ts.len() && ts[q + 1].kind is Ident { path_end(ts, q + 2) } else { None }
    } else {
        Some(q)
    }
}

/// `= value ;` read from `e`: where it ends, or `None` where it fails.
pub open spec fn assigned_end(ts: Seq<Token>, e: int) -> Option<int> {
    match pe(ts, e + 1, 0) {
        Some(q) => if tk(ts, q, TokenKind::Semi) { Some(q + 1) } else { None },
        None => None,
    }
}

/// What the parser makes of the tokens from `p` on after a name that
/// starts a statement: `None` where it fails, `Some(None)` where they do not
/// make an assignment, else where the assignment ends.
pub open spec fn assign_rest_end(ts: Seq<Token>, p: int) -> Option<Option<int>> {
    if tk(ts, p, TokenKind::Assign) {
        match assigned_end(ts, p) {
            Some(q) => Some(Some(q)),
            None => None,
        }
    } else if tk(ts, p, TokenKind::LBracket) {
        match pe(ts, p + 1, 0) {
            Some(k) => if !tk(ts, k, TokenKind::RBracket) {
                None
            } else {
                match path_end(ts, k + 1) {
                    Some(e) => if tk(ts, e, TokenKind::Assign) {
                        match assigned_end(ts, e) {
                            Some(q) => Some(Some(q)),
                            None => None,
                        }
                    } else {
                        Some(None)
                    },
                    None => None,
                }
            },
            None => None,
        }
    } else if tk(ts, p, TokenKind::Dot) {
        match path_end(ts, p) {
            Some(e) => if tk(ts, e, TokenKind::Assign) {
                match assigned_end(ts, e) {
                    Some(q) => Some(Some(q)),
                    None => None,
                }
            } else {
                Some(None)
            },
            None => None,
        }
    } else {
        Some(None)
    }
}

/// An expression statement read from `p`: the expression, then `;`, or
/// nothing before a `}` or the end.
pub open spec fn expr_stmt_end(ts: Seq<Token>, p: int) -> Option<int> {
    match pe(ts, p, 0) {
        Some(q) => if tk(ts, q, TokenKind::RBrace) || tk(ts, q, TokenKind::Eof) {
            Some(q)
        } else if tk(ts, q, TokenKind::Semi) {
            Some(q + 1)
        } else {
            None
        },
        None => None,
    }
}

/// The statement readers of `ps`.
pub const STMT_ONE: u8 = 0;
pub const STMT_BLOCK: u8 = 1;
pub const STMT_LET: u8 = 2;
pub const STMT_IF: u8 = 3;
pub const STMT_WHILE: u8 = 4;
pub const STMT_FOR: u8 = 5;
pub const STMT_SEQ: u8 = 6;

/// The order in which the statement readers call each other at one
/// position.
pub open spec fn ps_rank(m: int) -> int {
    if m == STMT_SEQ as int { 50 } else if m == STMT_ONE as int { 40 } else { 30 }
}

/// Where the parser's statement reader `m` that starts at token `p` stops,
/// or `None` where it fails: a statement, a block, `let`, `if`, `while`,
/// `for`, or the statements of a block up to its `}` (or the end).
pub open spec fn ps(ts: Seq<Token>, p: int, m: int) -> Option<int>
    decreases ts.len() - p, ps_rank(m),
{
    if p < 0 || p >= ts.len() {
        None
    } else if m == STMT_SEQ as int {
        if tk(ts, p, TokenKind::RBrace) || tk(ts, p, TokenKind::Eof) {
            Some(p)
        } else {
            match ps(ts, p, STMT_ONE as int) {
                Some(q) => if p < q < ts.len() { ps(ts, q, STMT_SEQ as int) } else { None },
                None => None,
            }
        }
    } else if m == STMT_BLOCK as int {
        if tk(ts, p, TokenKind::LBrace) {
            match ps(ts, p + 1, STMT_SEQ as int) {
                Some(q) => if tk(ts, q, TokenKind::RBrace) { Some(q + 1) } else { None },
                None => None,
            }
        } else {
            None
        }
    } else if m == STMT_LET as int {
        if tk(ts, p, TokenKind::Let) && p + 1 < ts.len() && ts[p + 1].kind is Ident {
            let e = if tk(ts, p + 2, TokenKind::Colon) { type_end(ts, p + 3) } else { p + 2 };
            if tk(ts, p + 2, TokenKind::Colon) && !type_ok(ts, p + 3) {
                None
            } else if tk(ts, e, TokenKind::Assign) {
                assigned_end(ts, e)
            } else {
                None
            }
        } else {
            None
        }
    } else if m == STMT_IF as int {
        if tk(ts, p, TokenKind::If) {
            match pe(ts, p + 1, 0) {
                Some(k) => if p < k < ts.len() {
                    match ps(ts, k, STMT_BLOCK as int) {
                        Some(q) => if tk(ts, q, TokenKind::Else) && p < q {
                            if tk(ts, q + 1, TokenKind::If) {
                                ps(ts, q + 1, STMT_IF as int)
                            } else {
                                ps(ts, q + 1, STMT_BLOCK as int)
                            }
                        } else {
                            Some(q)
                        },
                        None => None,
                    }
                } else {
                    None
                },
                None => None,
            }
        } else {
            None
        }
    } else if m == STMT_WHILE as int {
        if tk(ts, p, TokenKind::While) {
            match pe(ts, p + 1, 0) {
                Some(k) => if p < k < ts.len() { ps(ts, k, STMT_BLOCK as int) } else { None },
                None => None,
            }
        } else {
            None
        }
    } else if m == STMT_FOR as int {
        if tk(ts, p, TokenKind::For) && p + 1 < ts.len() && ts[p + 1].kind is Ident && tk(ts, p + 2, TokenKind::In) {
            match pe(ts, p + 3, 0) {
                Some(k) => if p < k < ts.len() { ps(ts, k, STMT_BLOCK as int) } else { None },
                None => None,
            }
        } else {
            None
        }
    } else if m == STMT_ONE as int {
        let k = ts[p].kind;
        if k is Let {
            ps(ts, p, STMT_LET as int)
        } else if k is If {
            ps(ts, p, STMT_IF as int)
        } else if k is While {
            ps(ts, p, STMT_WHILE as int)
        } else if k is For {
            ps(ts, p, STMT_FOR as int)
        } else if k is Break || k is Continue {
            if tk(ts, p + 1, TokenKind::Semi) { Some(p + 2) } else { None }
        } else if k is Return {
            if tk(ts, p + 1, TokenKind::Semi) { Some(p + 2) } else { assigned_end(ts, p) }
        } else if k is LBrace {
            ps(ts, p, STMT_BLOCK as int)
        } else if k is Ident {
            match assign_rest_end(ts, p + 1) {
                Some(Some(q)) => Some(q),
                Some(None) => expr_stmt_end(ts, p),
                None => None,
            }
        } else if k is Star {
            match pe(ts, p + 1, 0) {
                Some(q) => if tk(ts, q, TokenKind::Assign) { assigned_end(ts, q) } else { expr_stmt_end(ts, p) },
                None => None,
            }
        } else {
            expr_stmt_end(ts, p)
        }
    } else {
        None
    }
}

/// Whether the parser reads an import at `p`: `import`, a string path
/// with no `..` segment, optionally `as` and an identifier, then `;`.
pub open spec fn import_ok(ts: Seq<Token>, p: int) -> bool {
    &&& tk(ts, p, TokenKind::Import)
    &&& 0 <= p + 1 < ts.len()
    &&& ts[p + 1].kind matches TokenKind::Str(path) && !has_parent_segment(path@)
    &&& if tk(ts, p + 2, TokenKind::As) {
        0 <= p + 3 < ts.len() && ts[p + 3].kind is Ident && tk(ts, p + 4, TokenKind::Semi)
    } else {
        tk(ts, p + 2, TokenKind::Semi)
    }
}

/// The parser's state: the tokens and the index of the current one.
pub struct Parser {
    tokens: Vec<Token>,
    pos: usize,
}

fn error(prefix: &str, found: &TokenKind, span: Span) -> (e: ParseError)
    ensures
        e.span == span,
{
    let mut m = owned(prefix);
    let d = found.describe();
    push_str(&mut m, d.as_str());
    ParseError { message: m, span }
}

impl Parser {
    /// The tokens end with an `Eof` and the cursor is on one of them.
    pub closed spec fn wf(&self) -> bool {
        &&& ends_with_eof(self.tokens@)
        &&& self.pos < self.tokens@.len()
    }

    /// The tokens being parsed.
    pub closed spec fn token_seq(&self) -> Seq<Token> {
        self.tokens@
    }

    /// Whether every token before the final `Eof` has been read.
    pub closed spec fn consumed_all(&self) -> bool {
        self.pos == self.tokens@.len() - 1
    }

    /// `self` reads the same tokens as `before`, at or after its position.
    closed spec fn follows(&self, before: &Parser) -> bool {
        &&& self.wf()
        &&& self.tokens@ == before.tokens@
        &&& self.pos >= before.pos
    }

    /// A parser at the first of `tokens`.
    pub fn new(tokens: Vec<Token>) -> (p: Parser)
        requires
            ends_with_eof(tokens@),
        ensures
            p.wf(),
            p.token_seq() == tokens@,
            p.position() == 0,
    {
        Parser { tokens, pos: 0 }
    }

    fn kind(&self) -> (k: &TokenKind)
        requires
            self.wf(),
        ensures
            *k == self.tokens@[self.pos as int].kind,
    {
        &self.tokens[self.pos].kind
    }

    fn cur_span(&self) -> (s: Span)
        requires
            self.wf(),
        ensures
            s == self.tokens@[self.pos as int].span,
    {
        self.tokens[self.pos].span
    }

    /// Whether the current token is the same variant as `k`.
    fn at(&self, k: &TokenKind) -> (r: bool)
        requires
            self.wf(),
        ensures
            r == (kind_tag(self.tokens@[self.pos as int].kind) == kind_tag(*k)),
    {
        self.tokens[self.pos].kind.same_variant(k)
    }

    /// Moves to the next token; stays on `Eof`.
    fn advance(&mut self)
        requires
            old(self).wf(),
        ensures
            final(self).follows(old(self)),
            !(old(self).tokens@[old(self).pos as int].kind is Eof) ==> final(self).pos == old(self).pos + 1,
    {
        if self.pos < self.tokens.len() - 1 {
            self.pos = self.pos + 1;
        }
    }

    /// Consumes a token of the variant of `k`, else fails with
    /// `期望 {what}，实际是 {found}`.
    fn expect(&mut self, k: TokenKind, what: &str) -> (r: Result<Span, ParseError>)
        requires
            old(self).wf(),
            !(k is Eof),
        ensures
            final(self).follows(old(self)),
            r is Ok ==> final(self).pos == old(self).pos + 1,
            r is Ok ==> tk(old(self).tokens@, old(self).pos as int, k),
            r is Ok <==> tk(old(self).tokens@, old(self).pos as int, k),
            r matches Ok(sp) ==> sp == old(self).tokens@[old(self).pos as int].span,
            r matches Err(e) ==> e.span == old(self).tokens@[old(self).pos as int].span
                && final(self).pos == old(self).pos,
    {
        if self.at(&k) {
            let sp = self.cur_span();
            self.advance();
            Ok(sp)
        } else {
            let mut m = owned("期望 ");
            push_str(&mut m, what);
            push_str(&mut m, "，实际是 ");
            let d = self.kind().describe();
            push_str(&mut m, d.as_str());
            Err(ParseError { message: m, span: self.cur_span() })
        }
    }

    /// Consumes an identifier.
    fn expect_ident(&mut self) -> (r: Result<Ident, ParseError>)
        requires
            old(self).wf(),
        ensures
            final(self).follows(old(self)),
            r is Ok ==> final(self).pos == old(self).pos + 1,
            r matches Ok(id) ==> tk_ident(old(self).tokens@, old(self).pos as int, id.name@),
            r is Ok <==> old(self).tokens@[old(self).pos as int].kind is Ident,
            r matches Ok(id) ==> id.span == old(self).tokens@[old(self).pos as int].span,
            r matches Err(e) ==> e.span == old(self).tokens@[old(self).pos as int].span
                && final(self).pos == old(self).pos,
    {
        let sp = self.cur_span();
        let name = match self.kind() {
            TokenKind::Ident(n) => n.clone(),
            other => return Err(error("期望标识符，实际是 ", other, sp)),
        };
        self.advance();
        Ok(Ident { name, span: sp })
    }

    /// Whether `{ ident :` follows, which starts a struct literal (a bare
    /// `{ }` is left to blocks).
    fn struct_lit_ahead(&self) -> (r: bool)
        requires
            self.wf(),
        ensures
            r == (self.pos + 2 < self.tokens@.len() && self.tokens@[self.pos + 1].kind is Ident
                && self.tokens@[self.pos + 2].kind is Colon),
    {
        if self.tokens.len() - self.pos <= 2 {
            return false;
        }
        matches!(&self.tokens[self.pos + 1].kind, TokenKind::Ident(_))
            && matches!(&self.tokens[self.pos + 2].kind, TokenKind::Colon)
    }

    /// Where the parser is, as a model.
    pub closed spec fn position(&self) -> int {
        self.pos as int
    }

    /// Parses the whole token list as a program.
    pub fn parse_program(&mut self) -> (r: Result<Program, ParseError>)
        requires
            old(self).wf(),
        ensures
            final(self).wf(),
            final(self).token_seq() == old(self).token_seq(),
            r is Ok ==> final(self).token_seq()[final(self).position() as int].kind is Eof,
            r is Ok && tokens_wf(old(self).token_seq()) ==> final(self).consumed_all()
                && final(self).position() == final(self).token_seq().len() - 1,
            r matches Ok(prog) ==> items_reads(old(self).token_seq(), old(self).position(), final(self).position(),
                prog.items@),
            r is Ok <==> items_end(old(self).token_seq(), old(self).position()) is Some,
            r is Ok ==> final(self).position() == items_end(old(self).token_seq(), old(self).position())->Some_0,
    {
        let ghost ts = self.tokens@;
        let ghost p0 = self.pos as int;
        let mut items: Vec<Item> = Vec::new();
        while !self.at(&TokenKind::Eof)
            invariant
                self.wf(),
                self.tokens@ == old(self).tokens@,
                ts == self.tokens@,
                p0 == old(self).pos,
                p0 <= self.pos,
                items_reads(ts, p0, self.pos as int, items@),
                items_end(ts, p0) == items_end(ts, self.pos as int),
            decreases self.tokens@.len() - self.pos,
        {
            let ghost k = self.pos as int;
            let ghost before = items@;
            let it = if self.at(&TokenKind::Struct) {
                Item::Struct(self.struct_decl()?)
            } else if self.at(&TokenKind::Const) {
                Item::Const(self.const_decl()?)
            } else if self.at(&TokenKind::Fun) {
                Item::Fun(self.fun_decl()?)
            } else if self.at(&TokenKind::Import) {
                Item::Import(self.import_item()?)
            } else {
                Item::Stmt(self.stmt()?)
            };
            assert(item_reads(ts, k, self.pos as int, it));
            items.push(it);
            assert(items@.subrange(0, items@.len() - 1) =~= before);
            assert(pos_in(ts, k));
            assert(items_reads(ts, p0, self.pos as int, items@));
        }
        proof {
            if tokens_wf(ts) && self.pos < self.tokens@.len() - 1 {
                assert(!(self.tokens@[self.pos as int].kind is Eof));
            }
        }
        Ok(Program { items })
    }

    /// A type: a scalar type keyword or a struct name, optionally `[]`.
    fn ty(&mut self) -> (r: Result<TypeExpr, ParseError>)
        requires
            old(self).wf(),
        ensures
            final(self).follows(old(self)),
            r is Ok ==> final(self).pos > old(self).pos,
            r matches Ok(t) ==> type_reads(old(self).tokens@, old(self).pos as int, final(self).pos as int, t)
                && final(self).pos == old(self).pos + type_len(t),
            r is Ok <==> type_ok(old(self).tokens@, old(self).pos as int),
            r is Ok ==> final(self).pos == type_end(old(self).tokens@, old(self).pos as int),
    {
        let sp = self.cur_span();
        let base = match self.kind() {
            TokenKind::TyInt => TypeExpr::Int,
            TokenKind::TyFloat => TypeExpr::Float,
            TokenKind::TyBool => TypeExpr::Bool,
            TokenKind::TyString => TypeExpr::String,
            TokenKind::TyVoid => TypeExpr::Void,
            TokenKind::Ident(n) => TypeExpr::Named(n.clone()),
            other => return Err(error("expected a type, found ", other, sp)),
        };
        self.advance();
        if self.at(&TokenKind::LBracket) {
            self.advance();
            self.expect(TokenKind::RBracket, "`]`")?;
            if base.is_void() {
                return Err(ParseError { message: owned("`void[]` is not a type"), span: sp });
            }
            Ok(TypeExpr::Array(Box::new(base)))
        } else {
            Ok(base)
        }
    }

    /// `import "path" [as alias];` (a path with a `..` segment is refused).
    fn import_item(&mut self) -> (r: Result<ImportItem, ParseError>)
        requires
            old(self).wf(),
        ensures
            final(self).follows(old(self)),
            r is Ok ==> final(self).pos > old(self).pos,
            r matches Ok(imp) ==> item_reads(old(self).tokens@, old(self).pos as int, final(self).pos as int,
                Item::Import(imp)),
            r is Ok <==> import_ok(old(self).tokens@, old(self).pos as int),
            r is Ok ==> final(self).pos == import_end(old(self).tokens@, old(self).pos as int)->Some_0,
    {
        let start = self.expect(TokenKind::Import, "`import`")?;
        let sp = self.cur_span();
        let path = match self.kind() {
            TokenKind::Str(s) => s.clone(),
            other => return Err(error("expected string path, found ", other, sp)),
        };
        self.advance();
        if parent_segment(path.as_str()) {
            return Err(ParseError { message: owned("import path must not contain `..`"), span: sp });
        }
        let alias = if self.at(&TokenKind::As) {
            self.advance();
            Some(self.expect_ident()?)
        } else {
            None
        };
        self.expect(TokenKind::Semi, "`;` after import")?;
        Ok(ImportItem { path, alias, span: start })
    }

    /// `struct Name { field: type, ... }` with an optional `;` after it.
    fn struct_decl(&mut self) -> (r: Result<StructDecl, ParseError>)
        requires
            old(self).wf(),
        ensures
            final(self).follows(old(self)),
            r is Ok ==> final(self).pos > old(self).pos,
            r matches Ok(d) ==> item_reads(old(self).tokens@, old(self).pos as int, final(self).pos as int,
                Item::Struct(d)),
            r is Ok <==> struct_end(old(self).tokens@, old(self).pos as int) is Some,
            r is Ok ==> final(self).pos == struct_end(old(self).tokens@, old(self).pos as int)->Some_0,
    {
        let ghost ts = self.tokens@;
        let ghost p0 = self.pos as int;
        let start = self.expect(TokenKind::Struct, "`struct`")?;
        let name = self.expect_ident()?;
        self.expect(TokenKind::LBrace, "`{`")?;
        let ghost a0 = self.pos as int;
        let ghost good = fields_end(ts, a0);
        let mut fields: Vec<FieldDecl> = Vec::new();
        while !self.at(&TokenKind::RBrace)
            invariant_except_break
                good == fields_end(ts, self.pos as int),
                fields@.len() == 0 ==> self.pos == a0,
                fields@.len() > 0 ==> tk(ts, self.pos - 1, TokenKind::Comma)
                    && field_list_reads(ts, a0, self.pos - 1, fields@),
            invariant
                self.follows(old(self)),
                self.pos > old(self).pos,
                ts == self.tokens@,
                a0 == p0 + 3,
                p0 == old(self).pos,
                good == fields_end(ts, a0),
                tk(ts, p0, TokenKind::Struct) && ts[p0 + 1].kind is Ident && tk(ts, p0 + 2, TokenKind::LBrace),
                struct_end(ts, p0) == match good {
                    Some(q) => if tk(ts, q + 1, TokenKind::Semi) { Some(q + 2) } else { Some(q + 1) },
                    None => None::<int>,
                },
            ensures
                good == if tk(ts, self.pos as int, TokenKind::RBrace) { Some(self.pos as int) } else { None::<int> },
                field_list_reads(ts, a0, self.pos as int, fields@)
                    || (fields@.len() > 0 && tk(ts, self.pos - 1, TokenKind::Comma)
                        && field_list_reads(ts, a0, self.pos - 1, fields@)),
            decreases self.tokens@.len() - self.pos,
        {
            let ghost kk = self.pos as int;
            let ghost before = fields@;
            let fname = self.expect_ident()?;
            self.expect(TokenKind::Colon, "`:`")?;
            let ty = self.ty()?;
            if ty.is_void() {
                assert(ts[kk + 2].kind is TyVoid);
                return Err(ParseError { message: owned("field type cannot be void"), span: fname.span });
            }
            let f = FieldDecl { name: fname, ty };
            assert(field_decl_reads(ts, kk, self.pos as int, f));
            fields.push(f);
            proof {
                assert(fields@.subrange(0, fields@.len() - 1) =~= before);
                if before.len() > 0 {
                    assert(field_list_reads(ts, a0, kk - 1, fields@.subrange(0, fields@.len() - 1)));
                }
            }
            if self.at(&TokenKind::Comma) {
                self.advance();
            } else {
                break;
            }
        }
        let ghost m = self.pos as int;
        self.expect(TokenKind::RBrace, "`}`")?;
        if self.at(&TokenKind::Semi) {
            self.advance();
        }
        let d = StructDecl { name, fields, span: start };
        assert(tk(ts, m, TokenKind::RBrace));
        Ok(d)
    }

    /// `const NAME: type = expr;`
    fn const_decl(&mut self) -> (r: Result<ConstDecl, ParseError>)
        requires
            old(self).wf(),
        ensures
            final(self).follows(old(self)),
            r is Ok ==> final(self).pos > old(self).pos,
            r matches Ok(c) ==> item_reads(old(self).tokens@, old(self).pos as int, final(self).pos as int,
                Item::Const(c)),
            r is Ok <==> const_end(old(self).tokens@, old(self).pos as int) is Some,
            r is Ok ==> final(self).pos == const_end(old(self).tokens@, old(self).pos as int)->Some_0,
    {
        let start = self.expect(TokenKind::Const, "`const`")?;
        let name = self.expect_ident()?;
        self.expect(TokenKind::Colon, "`:`")?;
        let ty = self.ty()?;
        self.expect(TokenKind::Assign, "`=`")?;
        let value = self.expr()?;
        self.expect(TokenKind::Semi, "`;`")?;
        Ok(ConstDecl { name, ty, value, span: start })
    }

    /// `fun [Type.]name(p: type, ...) -> type { ... }`
    fn fun_decl(&mut self) -> (r: Result<FunDecl, ParseError>)
        requires
            old(self).wf(),
        ensures
            final(self).follows(old(self)),
            r is Ok ==> final(self).pos > old(self).pos,
            r matches Ok(f) ==> item_reads(old(self).tokens@, old(self).pos as int, final(self).pos as int,
                Item::Fun(f)),
            r is Ok <==> fun_end(old(self).tokens@, old(self).pos as int) is Some,
            r is Ok ==> final(self).pos == fun_end(old(self).tokens@, old(self).pos as int)->Some_0,
    {
        let ghost ts = self.tokens@;
        let ghost p0 = self.pos as int;
        let start = self.expect(TokenKind::Fun, "`fun`")?;
        let first = self.expect_ident()?;
        let (on_type, name) = if self.at(&TokenKind::Dot) {
            self.advance();
            let m = self.expect_ident()?;
            (Some(first), m)
        } else {
            (None, first)
        };
        self.expect(TokenKind::LParen, "`(`")?;
        let ghost a0 = self.pos as int;
        let mut params: Vec<Param> = Vec::new();
        if !self.at(&TokenKind::RParen) {
            loop
                invariant_except_break
                    params@.len() == 0 ==> self.pos == a0,
                    params@.len() > 0 ==> tk(ts, self.pos - 1, TokenKind::Comma)
                        && params_reads(ts, a0, self.pos - 1, params@),
                    params_end(ts, a0) == params_end(ts, self.pos as int),
                invariant
                    self.follows(old(self)),
                    self.pos > old(self).pos,
                    ts == self.tokens@,
                    a0 > p0,
                    p0 == old(self).pos,
                    !tk(ts, a0, TokenKind::RParen),
                    fun_end(ts, p0) == fun_tail(ts, params_end(ts, a0)),
                ensures
                    params_reads(ts, a0, self.pos as int, params@),
                    p0 == old(self).pos,
                    fun_end(ts, p0) == fun_tail(ts, params_end(ts, a0)),
                    params_end(ts, a0) == Some(self.pos as int),
                decreases self.tokens@.len() - self.pos,
            {
                let ghost kk = self.pos as int;
                let ghost before = params@;
                let n = self.expect_ident()?;
                self.expect(TokenKind::Colon, "`:`")?;
                let ty = self.ty()?;
                let prm = Param { name: n, ty };
                assert(param_reads(ts, kk, self.pos as int, prm));
                params.push(prm);
                proof {
                    assert(params@.subrange(0, params@.len() - 1) =~= before);
                    if before.len() > 0 {
                        assert(params_reads(ts, a0, kk - 1, params@.subrange(0, params@.len() - 1)));
                    }
                }
                if self.at(&TokenKind::Comma) {
                    self.advance();
                } else {
                    break;
                }
            }
        }
        let ghost b = self.pos as int;
        self.expect(TokenKind::RParen, "`)`")?;
        self.expect(TokenKind::Arrow, "`->`")?;
        let ret = self.ty()?;
        let body = self.block()?;
        let f = FunDecl { name, on_type, params, ret, body, span: start };
        assert(tk(ts, b, TokenKind::RParen) && params_reads(ts, a0, b, f.params@));
        Ok(f)
    }

    /// `{ stmt* }`
    fn block(&mut self) -> (r: Result<Block, ParseError>)
        requires
            old(self).wf(),
        ensures
            final(self).follows(old(self)),
            r is Ok ==> final(self).pos > old(self).pos,
            r matches Ok(b) ==> block_reads(old(self).tokens@, old(self).pos as int, final(self).pos as int, b),
            r is Ok <==> ps(old(self).tokens@, old(self).pos as int, STMT_BLOCK as int) is Some,
            r is Ok ==> final(self).pos == ps(old(self).tokens@, old(self).pos as int, STMT_BLOCK as int)->Some_0,
        decreases old(self).tokens@.len() - old(self).pos, 29int,
    {
        let ghost ts = self.tokens@;
        let ghost p0 = self.pos as int;
        let start = self.expect(TokenKind::LBrace, "`{`")?;
        let mut stmts: Vec<Stmt> = Vec::new();
        while !self.at(&TokenKind::RBrace) && !self.at(&TokenKind::Eof)
            invariant
                self.follows(old(self)),
                self.pos > old(self).pos,
                ts == self.tokens@,
                p0 == old(self).pos,
                stmts_reads(ts, p0 + 1, self.pos as int, stmts@),
                tk(ts, p0, TokenKind::LBrace),
                ps(ts, p0 + 1, STMT_SEQ as int) == ps(ts, self.pos as int, STMT_SEQ as int),
            decreases self.tokens@.len() - self.pos,
        {
            let ghost k = self.pos as int;
            let ghost before = stmts@;
            let st = self.stmt()?;
            stmts.push(st);
            assert(stmts@.subrange(0, stmts@.len() - 1) =~= before);
            assert(stmt_reads(ts, k, self.pos as int, stmts@[stmts@.len() - 1]));
            assert(pos_in(ts, k));
        }
        self.expect(TokenKind::RBrace, "`}`")?;
        Ok(Block { stmts, span: start })
    }

    /// Parses an assignment whose target is the identifier `name`, already
    /// consumed, and whose index and fields come next; gives `None` (having
    /// consumed what it read) when no `=` follows.
    fn assign_rest(&mut self, name: Ident) -> (r: Result<Option<Stmt>, ParseError>)
        requires
            old(self).wf(),
            old(self).pos >= 1,
            tk_ident(old(self).tokens@, old(self).pos - 1, name.name@),
        ensures
            final(self).follows(old(self)),
            r matches Ok(Some(st)) ==> final(self).pos > old(self).pos
                && stmt_reads(old(self).tokens@, old(self).pos - 1, final(self).pos as int, st),
            match assign_rest_end(old(self).tokens@, old(self).pos as int) {
                None => r is Err,
                Some(None) => r matches Ok(None),
                Some(Some(q)) => r matches Ok(Some(_)) && final(self).pos == q,
            },
        decreases old(self).tokens@.len() - old(self).pos, 28int,
    {
        let ghost ts = self.tokens@;
        let ghost p0 = self.pos as int;
        if self.at(&TokenKind::Assign) {
            let ghost m = self.pos as int;
            self.advance();
            let value = self.expr()?;
            let semi = self.expect(TokenKind::Semi, "`;`")?;
            let a = AssignStmt {
                name, index: None, fields: Vec::new(), value, span: semi, via_deref: false,
            };
            proof {
                    assert(a.fields@ =~= Seq::<Ident>::empty());
                    assert(tk(ts, m, TokenKind::Assign) && place_reads(ts, p0, m, a.index, a.fields@));
                }
            return Ok(Some(Stmt::Assign(a)));
        }
        if self.at(&TokenKind::LBracket) {
            self.advance();
            let index = self.expr()?;
            let ghost k = self.pos as int;
            self.expect(TokenKind::RBracket, "`]`")?;
            let mut fields: Vec<Ident> = Vec::new();
            while self.at(&TokenKind::Dot)
                invariant
                    self.follows(old(self)),
                    ts == self.tokens@,
                    self.pos >= k + 1,
                    path_reads(ts, k + 1, self.pos as int, fields@),
                    p0 == old(self).pos,
                    tk(ts, p0, TokenKind::LBracket),
                    pe(ts, p0 + 1, 0) == Some(k),
                    tk(ts, k, TokenKind::RBracket),
                    path_end(ts, k + 1) == path_end(ts, self.pos as int),
                decreases self.tokens@.len() - self.pos,
            {
                let ghost before = fields@;
                self.advance();
                let f = self.expect_ident()?;
                fields.push(f);
                assert(fields@.subrange(0, fields@.len() - 1) =~= before);
            }
            if self.at(&TokenKind::Assign) {
                let ghost m = self.pos as int;
                self.advance();
                let ghost i0 = index;
                let value = self.expr()?;
                let semi = self.expect(TokenKind::Semi, "`;`")?;
                let a = AssignStmt {
                    name, index: Some(index), fields, value, span: semi, via_deref: false,
                };
                proof {
                        assert(tk(ts, k, TokenKind::RBracket) && expr_reads(ts, p0 + 1, k, i0, 0)
                            && path_reads(ts, k + 1, m, a.fields@));
                        assert(tk(ts, m, TokenKind::Assign) && place_reads(ts, p0, m, a.index, a.fields@));
                    }
                return Ok(Some(Stmt::Assign(a)));
            }
            return Ok(None);
        }
        if self.at(&TokenKind::Dot) {
            let mut fields: Vec<Ident> = Vec::new();
            assert(path_reads(ts, p0, p0, fields@));
            while self.at(&TokenKind::Dot)
                invariant
                    self.follows(old(self)),
                    ts == self.tokens@,
                    p0 == old(self).pos,
                    path_reads(ts, p0, self.pos as int, fields@),
                    tk(ts, p0, TokenKind::Dot),
                    path_end(ts, p0) == path_end(ts, self.pos as int),
                decreases self.tokens@.len() - self.pos,
            {
                let ghost before = fields@;
                self.advance();
                let f = self.expect_ident()?;
                fields.push(f);
                assert(fields@.subrange(0, fields@.len() - 1) =~= before);
            }
            if self.at(&TokenKind::Assign) {
                let ghost m = self.pos as int;
                self.advance();
                let value = self.expr()?;
                let semi = self.expect(TokenKind::Semi, "`;`")?;
                let a = AssignStmt {
                    name, index: None, fields, value, span: semi, via_deref: false,
                };
                proof {
                        assert(tk(ts, m, TokenKind::Assign) && place_reads(ts, p0, m, a.index, a.fields@));
                    }
                return Ok(Some(Stmt::Assign(a)));
            }
        }
        Ok(None)
    }

    /// A statement.
    fn stmt(&mut self) -> (r: Result<Stmt, ParseError>)
        requires
            old(self).wf(),
        ensures
            final(self).follows(old(self)),
            r is Ok ==> final(self).pos > old(self).pos,
            r matches Ok(st) ==> stmt_reads(old(self).tokens@, old(self).pos as int, final(self).pos as int, st),
            r is Ok <==> ps(old(self).tokens@, old(self).pos as int, STMT_ONE as int) is Some,
            r is Ok ==> final(self).pos == ps(old(self).tokens@, old(self).pos as int, STMT_ONE as int)->Some_0,
        decreases old(self).tokens@.len() - old(self).pos, 30int,
    {
        let ghost ts = self.tokens@;
        let ghost p0 = self.pos as int;
        if self.at(&TokenKind::Let) {
            return Ok(Stmt::Let(self.let_stmt()?));
        }
        if self.at(&TokenKind::If) {
            return Ok(Stmt::If(self.if_stmt()?));
        }
        if self.at(&TokenKind::While) {
            return Ok(Stmt::While(self.while_stmt()?));
        }
        if self.at(&TokenKind::For) {
            return Ok(Stmt::For(self.for_stmt()?));
        }
        if self.at(&TokenKind::Break) {
            let sp = self.cur_span();
            self.advance();
            self.expect(TokenKind::Semi, "`;`")?;
            return Ok(Stmt::Break(sp));
        }
        if self.at(&TokenKind::Continue) {
            let sp = self.cur_span();
            self.advance();
            self.expect(TokenKind::Semi, "`;`")?;
            return Ok(Stmt::Continue(sp));
        }
        if self.at(&TokenKind::Return) {
            let sp = self.cur_span();
            self.advance();
            let value = if self.at(&TokenKind::Semi) { None } else { Some(self.expr()?) };
            self.expect(TokenKind::Semi, "`;`")?;
            return Ok(Stmt::Return(ReturnStmt { value, span: sp }));
        }
        if self.at(&TokenKind::LBrace) {
            return Ok(Stmt::Block(self.block()?));
        }
        let save = self.pos;
        if matches!(self.kind(), TokenKind::Ident(_)) {
            let name = self.expect_ident()?;
            match self.assign_rest(name)? {
                Some(s) => return Ok(s),
                None => {},
            }
            self.pos = save;
        }
        if self.at(&TokenKind::Star) {
            self.advance();
            let ptr = self.expr()?;
            if self.at(&TokenKind::Assign) {
                let ghost k = self.pos as int;
                self.advance();
                let value = self.expr()?;
                let semi = self.expect(TokenKind::Semi, "`;`")?;
                let ghost (l0, r0) = (ptr, value);
                let a = AssignStmt {
                    name: Ident { name: String::new(), span: semi },
                    index: None,
                    fields: Vec::new(),
                    value: Expr::Binary { op: BinOp::Eq, lhs: Box::new(ptr), rhs: Box::new(value), span: semi },
                    span: semi,
                    via_deref: true,
                };
                proof {
                        assert(a.fields@ =~= Seq::<Ident>::empty());
                        assert(tk(ts, k, TokenKind::Assign) && expr_reads(ts, p0 + 1, k, l0, 0)
                            && expr_reads(ts, k + 1, self.pos - 1, r0, 0));
                    }
                return Ok(Stmt::Assign(a));
            }
            self.pos = save;
        }
        let expr = self.expr()?;
        let span = expr.span();
        if self.at(&TokenKind::RBrace) || self.at(&TokenKind::Eof) {
            return Ok(Stmt::Expr(ExprStmt { expr, span, implicit_return: true }));
        }
        self.expect(TokenKind::Semi, "`;` after expression")?;
        Ok(Stmt::Expr(ExprStmt { expr, span, implicit_return: false }))
    }

    /// `let name[: type] = expr;`
    fn let_stmt(&mut self) -> (r: Result<LetStmt, ParseError>)
        requires
            old(self).wf(),
        ensures
            final(self).follows(old(self)),
            r is Ok ==> final(self).pos > old(self).pos,
            r matches Ok(l) ==> stmt_reads(old(self).tokens@, old(self).pos as int, final(self).pos as int,
                Stmt::Let(l)),
            r is Ok <==> ps(old(self).tokens@, old(self).pos as int, STMT_LET as int) is Some,
            r is Ok ==> final(self).pos == ps(old(self).tokens@, old(self).pos as int, STMT_LET as int)->Some_0,
        decreases old(self).tokens@.len() - old(self).pos, 29int,
    {
        let start = self.expect(TokenKind::Let, "`let`")?;
        let name = self.expect_ident()?;
        let ty = if self.at(&TokenKind::Colon) {
            self.advance();
            Some(self.ty()?)
        } else {
            None
        };
        self.expect(TokenKind::Assign, "`=`")?;
        let value = self.expr()?;
        self.expect(TokenKind::Semi, "`;`")?;
        Ok(LetStmt { name, ty, value, span: start })
    }

    /// `if cond { ... } [else if ... | else { ... }]`
    fn if_stmt(&mut self) -> (r: Result<IfStmt, ParseError>)
        requires
            old(self).wf(),
        ensures
            final(self).follows(old(self)),
            r is Ok ==> final(self).pos > old(self).pos,
            r matches Ok(i) ==> if_reads(old(self).tokens@, old(self).pos as int, final(self).pos as int, i),
            r is Ok <==> ps(old(self).tokens@, old(self).pos as int, STMT_IF as int) is Some,
            r is Ok ==> final(self).pos == ps(old(self).tokens@, old(self).pos as int, STMT_IF as int)->Some_0,
        decreases old(self).tokens@.len() - old(self).pos, 29int,
    {
        let ghost ts = self.tokens@;
        let start = self.expect(TokenKind::If, "`if`")?;
        let ghost k0 = self.pos as int;
        let cond = self.expr()?;
        let ghost k = self.pos as int;
        let then_block = self.block()?;
        let ghost m = self.pos as int;
        let else_branch = if self.at(&TokenKind::Else) {
            self.advance();
            if self.at(&TokenKind::If) {
                Some(ElseBranch::If(Box::new(self.if_stmt()?)))
            } else {
                Some(ElseBranch::Block(self.block()?))
            }
        } else {
            None
        };
        let i = IfStmt { cond, then_block, else_branch, span: start };
        assert(tk(ts, k, TokenKind::LBrace) && block_reads(ts, k, m, i.then_block));
        proof {
            if i.else_branch is Some {
                assert(tk(ts, m, TokenKind::Else));
                assert(pos_in(ts, m));
            }
        }
        Ok(i)
    }

    /// `while cond { ... }`
    fn while_stmt(&mut self) -> (r: Result<WhileStmt, ParseError>)
        requires
            old(self).wf(),
        ensures
            final(self).follows(old(self)),
            r is Ok ==> final(self).pos > old(self).pos,
            r matches Ok(w) ==> stmt_reads(old(self).tokens@, old(self).pos as int, final(self).pos as int,
                Stmt::While(w)),
            r is Ok <==> ps(old(self).tokens@, old(self).pos as int, STMT_WHILE as int) is Some,
            r is Ok ==> final(self).pos == ps(old(self).tokens@, old(self).pos as int, STMT_WHILE as int)->Some_0,
        decreases old(self).tokens@.len() - old(self).pos, 29int,
    {
        let ghost ts = self.tokens@;
        let start = self.expect(TokenKind::While, "`while`")?;
        let cond = self.expr()?;
        let ghost k = self.pos as int;
        let body = self.block()?;
        let w = WhileStmt { cond, body, span: start };
        assert(tk(ts, k, TokenKind::LBrace) && block_reads(ts, k, self.pos as int, w.body));
        Ok(w)
    }

    /// `for var in expr { ... }`
    fn for_stmt(&mut self) -> (r: Result<ForStmt, ParseError>)
        requires
            old(self).wf(),
        ensures
            final(self).follows(old(self)),
            r is Ok ==> final(self).pos > old(self).pos,
            r matches Ok(f) ==> stmt_reads(old(self).tokens@, old(self).pos as int, final(self).pos as int,
                Stmt::For(f)),
            r is Ok <==> ps(old(self).tokens@, old(self).pos as int, STMT_FOR as int) is Some,
            r is Ok ==> final(self).pos == ps(old(self).tokens@, old(self).pos as int, STMT_FOR as int)->Some_0,
        decreases old(self).tokens@.len() - old(self).pos, 29int,
    {
        let ghost ts = self.tokens@;
        let start = self.expect(TokenKind::For, "`for`")?;
        let var = self.expect_ident()?;
        self.expect(TokenKind::In, "`in`")?;
        let iter = self.expr()?;
        let ghost k = self.pos as int;
        let body = self.block()?;
        let f = ForStmt { var, iter, body, span: start };
        assert(tk(ts, k, TokenKind::LBrace) && block_reads(ts, k, self.pos as int, f.body));
        Ok(f)
    }

    /// An expression.
    fn expr(&mut self) -> (r: Result<Expr, ParseError>)
        requires
            old(self).wf(),
        ensures
            final(self).follows(old(self)),
            r is Ok ==> final(self).pos > old(self).pos,
            r matches Ok(e) ==> expr_reads(old(self).tokens@, old(self).pos as int, final(self).pos as int, e, 0),
            r is Ok <==> pe(old(self).tokens@, old(self).pos as int, 0) is Some,
            r is Ok ==> final(self).pos == pe(old(self).tokens@, old(self).pos as int, 0)->Some_0,
        decreases old(self).tokens@.len() - old(self).pos, 20int,
    {
        self.range_expr()
    }

    /// `or [.. or]`
    fn range_expr(&mut self) -> (r: Result<Expr, ParseError>)
        requires
            old(self).wf(),
        ensures
            final(self).follows(old(self)),
            r is Ok ==> final(self).pos > old(self).pos,
            r matches Ok(e) ==> expr_reads(old(self).tokens@, old(self).pos as int, final(self).pos as int, e, 0),
            r is Ok <==> pe(old(self).tokens@, old(self).pos as int, 0) is Some,
            r is Ok ==> final(self).pos == pe(old(self).tokens@, old(self).pos as int, 0)->Some_0,
        decreases old(self).tokens@.len() - old(self).pos, 19int,
    {
        let ghost ts = self.tokens@;
        let ghost p0 = self.pos as int;
        let lhs = self.or()?;
        if self.at(&TokenKind::DotDot) {
            let ghost k = self.pos as int;
            self.advance();
            let rhs = self.or()?;
            let span = lhs.span();
            let ghost (l0, r0) = (lhs, rhs);
            let e = Expr::Range { start: Box::new(lhs), end: Box::new(rhs), span };
            assert(expr_direct(ts, p0, self.pos as int, e)) by {
                assert(tk(ts, k, TokenKind::DotDot) && expr_reads(ts, p0, k, l0, 1)
                    && expr_reads(ts, k + 1, self.pos as int, r0, 1));
            }
            return Ok(e);
        }
        proof {
            lemma_reads_weaken(ts, p0, self.pos as int, lhs, 1, 0);
        }
        Ok(lhs)
    }

    fn or(&mut self) -> (r: Result<Expr, ParseError>)
        requires
            old(self).wf(),
        ensures
            final(self).follows(old(self)),
            r is Ok ==> final(self).pos > old(self).pos,
            r matches Ok(e) ==> expr_reads(old(self).tokens@, old(self).pos as int, final(self).pos as int, e, 1),
            r is Ok <==> pe(old(self).tokens@, old(self).pos as int, 1) is Some,
            r is Ok ==> final(self).pos == pe(old(self).tokens@, old(self).pos as int, 1)->Some_0,
        decreases old(self).tokens@.len() - old(self).pos, 18int,
    {
        let ghost ts = self.tokens@;
        let ghost p0 = self.pos as int;
        let mut lhs = self.and()?;
        proof {
            lemma_reads_weaken(ts, p0, self.pos as int, lhs, 2, 1);
        }
        while self.at(&TokenKind::OrOr)
            invariant
                self.follows(old(self)),
                self.pos > old(self).pos,
                ts == self.tokens@,
                p0 == old(self).pos,
                expr_reads(ts, p0, self.pos as int, lhs, 1),
                pe(ts, p0, 1) == pe(ts, self.pos as int, EXPR_CHAIN as int + 1),
            decreases self.tokens@.len() - self.pos,
        {
            let ghost k = self.pos as int;
            self.advance();
            let rhs = self.and()?;
            let span = lhs.span();
            let ghost (l0, r0) = (lhs, rhs);
            lhs = Expr::Binary { op: BinOp::Or, lhs: Box::new(lhs), rhs: Box::new(rhs), span };
            assert(tk(ts, k, bin_token(BinOp::Or)) && expr_reads(ts, p0, k, l0, 1)
                && expr_reads(ts, k + 1, self.pos as int, r0, 2));
            assert(expr_direct(ts, p0, self.pos as int, lhs));
        }
        Ok(lhs)
    }

    fn and(&mut self) -> (r: Result<Expr, ParseError>)
        requires
            old(self).wf(),
        ensures
            final(self).follows(old(self)),
            r is Ok ==> final(self).pos > old(self).pos,
            r matches Ok(e) ==> expr_reads(old(self).tokens@, old(self).pos as int, final(self).pos as int, e, 2),
            r is Ok <==> pe(old(self).tokens@, old(self).pos as int, 2) is Some,
            r is Ok ==> final(self).pos == pe(old(self).tokens@, old(self).pos as int, 2)->Some_0,
        decreases old(self).tokens@.len() - old(self).pos, 17int,
    {
        let ghost ts = self.tokens@;
        let ghost p0 = self.pos as int;
        let mut lhs = self.equality()?;
        proof {
            lemma_reads_weaken(ts, p0, self.pos as int, lhs, 3, 2);
        }
        while self.at(&TokenKind::AndAnd)
            invariant
                self.follows(old(self)),
                self.pos > old(self).pos,
                ts == self.tokens@,
                p0 == old(self).pos,
                expr_reads(ts, p0, self.pos as int, lhs, 2),
                pe(ts, p0, 2) == pe(ts, self.pos as int, EXPR_CHAIN as int + 2),
            decreases self.tokens@.len() - self.pos,
        {
            let ghost k = self.pos as int;
            self.advance();
            let rhs = self.equality()?;
            let span = lhs.span();
            let ghost (l0, r0) = (lhs, rhs);
            lhs = Expr::Binary { op: BinOp::And, lhs: Box::new(lhs), rhs: Box::new(rhs), span };
            assert(expr_direct(ts, p0, self.pos as int, lhs)) by {
                assert(tk(ts, k, bin_token(BinOp::And)) && expr_reads(ts, p0, k, l0, 2)
                    && expr_reads(ts, k + 1, self.pos as int, r0, 3));
            }
        }
        Ok(lhs)
    }

    fn equality(&mut self) -> (r: Result<Expr, ParseError>)
        requires
            old(self).wf(),
        ensures
            final(self).follows(old(self)),
            r is Ok ==> final(self).pos > old(self).pos,
            r matches Ok(e) ==> expr_reads(old(self).tokens@, old(self).pos as int, final(self).pos as int, e, 3),
            r is Ok <==> pe(old(self).tokens@, old(self).pos as int, 3) is Some,
            r is Ok ==> final(self).pos == pe(old(self).tokens@, old(self).pos as int, 3)->Some_0,
        decreases old(self).tokens@.len() - old(self).pos, 16int,
    {
        let ghost ts = self.tokens@;
        let ghost p0 = self.pos as int;
        let mut lhs = self.comparison()?;
        proof {
            lemma_reads_weaken(ts, p0, self.pos as int, lhs, 4, 3);
        }
        loop
            invariant
                self.follows(old(self)),
                self.pos > old(self).pos,
                ts == self.tokens@,
                p0 == old(self).pos,
                expr_reads(ts, p0, self.pos as int, lhs, 3),
                pe(ts, p0, 3) == pe(ts, self.pos as int, EXPR_CHAIN as int + 3),
            ensures
                self.follows(old(self)),
                self.pos > old(self).pos,
                ts == self.tokens@,
                expr_reads(ts, p0, self.pos as int, lhs, 3),
                pe(ts, p0, 3) == Some(self.pos as int),
            decreases self.tokens@.len() - self.pos,
        {
            let op = if self.at(&TokenKind::EqEq) {
                BinOp::Eq
            } else if self.at(&TokenKind::BangEq) {
                BinOp::Ne
            } else {
                break;
            };
            let ghost k = self.pos as int;
            assert(tk(ts, k, bin_token(op)));
            self.advance();
            let rhs = self.comparison()?;
            let span = lhs.span();
            let ghost (l0, r0) = (lhs, rhs);
            lhs = Expr::Binary { op, lhs: Box::new(lhs), rhs: Box::new(rhs), span };
            assert(expr_direct(ts, p0, self.pos as int, lhs)) by {
                assert(tk(ts, k, bin_token(op)) && expr_reads(ts, p0, k, l0, 3)
                    && expr_reads(ts, k + 1, self.pos as int, r0, 4));
            }
        }
        Ok(lhs)
    }

    fn comparison(&mut self) -> (r: Result<Expr, ParseError>)
        requires
            old(self).wf(),
        ensures
            final(self).follows(old(self)),
            r is Ok ==> final(self).pos > old(self).pos,
            r matches Ok(e) ==> expr_reads(old(self).tokens@, old(self).pos as int, final(self).pos as int, e, 4),
            r is Ok <==> pe(old(self).tokens@, old(self).pos as int, 4) is Some,
            r is Ok ==> final(self).pos == pe(old(self).tokens@, old(self).pos as int, 4)->Some_0,
        decreases old(self).tokens@.len() - old(self).pos, 15int,
    {
        let ghost ts = self.tokens@;
        let ghost p0 = self.pos as int;
        let mut lhs = self.term()?;
        proof {
            lemma_reads_weaken(ts, p0, self.pos as int, lhs, 5, 4);
        }
        loop
            invariant
                self.follows(old(self)),
                self.pos > old(self).pos,
                ts == self.tokens@,
                p0 == old(self).pos,
                expr_reads(ts, p0, self.pos as int, lhs, 4),
                pe(ts, p0, 4) == pe(ts, self.pos as int, EXPR_CHAIN as int + 4),
            ensures
                self.follows(old(self)),
                self.pos > old(self).pos,
                ts == self.tokens@,
                expr_reads(ts, p0, self.pos as int, lhs, 4),
                pe(ts, p0, 4) == Some(self.pos as int),
            decreases self.tokens@.len() - self.pos,
        {
            let op = if self.at(&TokenKind::Lt) {
                BinOp::Lt
            } else if self.at(&TokenKind::LtEq) {
                BinOp::Le
            } else if self.at(&TokenKind::Gt) {
                BinOp::Gt
            } else if self.at(&TokenKind::GtEq) {
                BinOp::Ge
            } else {
                break;
            };
            let ghost k = self.pos as int;
            assert(tk(ts, k, bin_token(op)));
            self.advance();
            let rhs = self.term()?;
            let span = lhs.span();
            let ghost (l0, r0) = (lhs, rhs);
            lhs = Expr::Binary { op, lhs: Box::new(lhs), rhs: Box::new(rhs), span };
            assert(expr_direct(ts, p0, self.pos as int, lhs)) by {
                assert(tk(ts, k, bin_token(op)) && expr_reads(ts, p0, k, l0, 4)
                    && expr_reads(ts, k + 1, self.pos as int, r0, 5));
            }
        }
        Ok(lhs)
    }

    fn term(&mut self) -> (r: Result<Expr, ParseError>)
        requires
            old(self).wf(),
        ensures
            final(self).follows(old(self)),
            r is Ok ==> final(self).pos > old(self).pos,
            r matches Ok(e) ==> expr_reads(old(self).tokens@, old(self).pos as int, final(self).pos as int, e, 5),
            r is Ok <==> pe(old(self).tokens@, old(self).pos as int, 5) is Some,
            r is Ok ==> final(self).pos == pe(old(self).tokens@, old(self).pos as int, 5)->Some_0,
        decreases old(self).tokens@.len() - old(self).pos, 14int,
    {
        let ghost ts = self.tokens@;
        let ghost p0 = self.pos as int;
        let mut lhs = self.factor()?;
        proof {
            lemma_reads_weaken(ts, p0, self.pos as int, lhs, 6, 5);
        }
        loop
            invariant
                self.follows(old(self)),
                self.pos > old(self).pos,
                ts == self.tokens@,
                p0 == old(self).pos,
                expr_reads(ts, p0, self.pos as int, lhs, 5),
                pe(ts, p0, 5) == pe(ts, self.pos as int, EXPR_CHAIN as int + 5),
            ensures
                self.follows(old(self)),
                self.pos > old(self).pos,
                ts == self.tokens@,
                expr_reads(ts, p0, self.pos as int, lhs, 5),
                pe(ts, p0, 5) == Some(self.pos as int),
            decreases self.tokens@.len() - self.pos,
        {
            let op = if self.at(&TokenKind::Plus) {
                BinOp::Add
            } else if self.at(&TokenKind::Minus) {
                BinOp::Sub
            } else {
                break;
            };
            let ghost k = self.pos as int;
            assert(tk(ts, k, bin_token(op)));
            self.advance();
            let rhs = self.factor()?;
            let span = lhs.span();
            let ghost (l0, r0) = (lhs, rhs);
            lhs = Expr::Binary { op, lhs: Box::new(lhs), rhs: Box::new(rhs), span };
            assert(expr_direct(ts, p0, self.pos as int, lhs)) by {
                assert(tk(ts, k, bin_token(op)) && expr_reads(ts, p0, k, l0, 5)
                    && expr_reads(ts, k + 1, self.pos as int, r0, 6));
            }
        }
        Ok(lhs)
    }

    fn factor(&mut self) -> (r: Result<Expr, ParseError>)
        requires
            old(self).wf(),
        ensures
            final(self).follows(old(self)),
            r is Ok ==> final(self).pos > old(self).pos,
            r matches Ok(e) ==> expr_reads(old(self).tokens@, old(self).pos as int, final(self).pos as int, e, 6),
            r is Ok <==> pe(old(self).tokens@, old(self).pos as int, 6) is Some,
            r is Ok ==> final(self).pos == pe(old(self).tokens@, old(self).pos as int, 6)->Some_0,
        decreases old(self).tokens@.len() - old(self).pos, 13int,
    {
        let ghost ts = self.tokens@;
        let ghost p0 = self.pos as int;
        let mut lhs = self.unary()?;
        proof {
            lemma_reads_weaken(ts, p0, self.pos as int, lhs, 7, 6);
        }
        loop
            invariant
                self.follows(old(self)),
                self.pos > old(self).pos,
                ts == self.tokens@,
                p0 == old(self).pos,
                expr_reads(ts, p0, self.pos as int, lhs, 6),
                pe(ts, p0, 6) == pe(ts, self.pos as int, EXPR_CHAIN as int + 6),
            ensures
                self.follows(old(self)),
                self.pos > old(self).pos,
                ts == self.tokens@,
                expr_reads(ts, p0, self.pos as int, lhs, 6),
                pe(ts, p0, 6) == Some(self.pos as int),
            decreases self.tokens@.len() - self.pos,
        {
            let op = if self.at(&TokenKind::Star) {
                BinOp::Mul
            } else if self.at(&TokenKind::Slash) {
                BinOp::Div
            } else if self.at(&TokenKind::Percent) {
                BinOp::Rem
            } else {
                break;
            };
            let ghost k = self.pos as int;
            assert(tk(ts, k, bin_token(op)));
            self.advance();
            let rhs = self.unary()?;
            let span = lhs.span();
            let ghost (l0, r0) = (lhs, rhs);
            lhs = Expr::Binary { op, lhs: Box::new(lhs), rhs: Box::new(rhs), span };
            assert(expr_direct(ts, p0, self.pos as int, lhs)) by {
                assert(tk(ts, k, bin_token(op)) && expr_reads(ts, p0, k, l0, 6)
                    && expr_reads(ts, k + 1, self.pos as int, r0, 7));
            }
        }
        Ok(lhs)
    }

    fn unary(&mut self) -> (r: Result<Expr, ParseError>)
        requires
            old(self).wf(),
        ensures
            final(self).follows(old(self)),
            r is Ok ==> final(self).pos > old(self).pos,
            r matches Ok(e) ==> expr_reads(old(self).tokens@, old(self).pos as int, final(self).pos as int, e, 7),
            r is Ok <==> pe(old(self).tokens@, old(self).pos as int, 7) is Some,
            r is Ok ==> final(self).pos == pe(old(self).tokens@, old(self).pos as int, 7)->Some_0,
        decreases old(self).tokens@.len() - old(self).pos, 12int,
    {
        let ghost ts = self.tokens@;
        let ghost p0 = self.pos as int;
        if self.at(&TokenKind::Minus) {
            let sp = self.cur_span();
            self.advance();
            let e = self.unary()?;
            let u = Expr::Unary { op: UnOp::Neg, expr: Box::new(e), span: sp };
            assert(expr_direct(ts, p0, self.pos as int, u));
            return Ok(u);
        }
        if self.at(&TokenKind::Bang) {
            let sp = self.cur_span();
            self.advance();
            let e = self.unary()?;
            let u = Expr::Unary { op: UnOp::Not, expr: Box::new(e), span: sp };
            assert(expr_direct(ts, p0, self.pos as int, u));
            return Ok(u);
        }
        let e = self.postfix()?;
        proof {
            lemma_reads_weaken(ts, p0, self.pos as int, e, 8, 7);
        }
        Ok(e)
    }

    fn postfix(&mut self) -> (r: Result<Expr, ParseError>)
        requires
            old(self).wf(),
        ensures
            final(self).follows(old(self)),
            r is Ok ==> final(self).pos > old(self).pos,
            r matches Ok(e) ==> expr_reads(old(self).tokens@, old(self).pos as int, final(self).pos as int, e, 8),
            r is Ok <==> pe(old(self).tokens@, old(self).pos as int, 8) is Some,
            r is Ok ==> final(self).pos == pe(old(self).tokens@, old(self).pos as int, 8)->Some_0,
        decreases old(self).tokens@.len() - old(self).pos, 11int,
    {
        let ghost ts = self.tokens@;
        let ghost p0 = self.pos as int;
        let mut e = self.primary()?;
        proof {
            lemma_reads_weaken(ts, p0, self.pos as int, e, 9, 8);
        }
        loop
            invariant
                self.follows(old(self)),
                self.pos > old(self).pos,
                ts == self.tokens@,
                p0 == old(self).pos,
                expr_reads(ts, p0, self.pos as int, e, 8),
                pe(ts, p0, 8) == pe(ts, self.pos as int, EXPR_POST as int),
            ensures
                self.follows(old(self)),
                self.pos > old(self).pos,
                ts == self.tokens@,
                expr_reads(ts, p0, self.pos as int, e, 8),
                pe(ts, p0, 8) == Some(self.pos as int),
            decreases self.tokens@.len() - self.pos,
        {
            let ghost k = self.pos as int;
            let ghost e0 = e;
            if self.at(&TokenKind::LBracket) {
                self.advance();
                let idx = self.expr()?;
                let end = self.expect(TokenKind::RBracket, "`]`")?;
                let ghost i0 = idx;
                e = Expr::Index { base: Box::new(e), index: Box::new(idx), span: end };
                assert(expr_direct(ts, p0, self.pos as int, e)) by {
                    assert(tk(ts, k, TokenKind::LBracket) && expr_reads(ts, p0, k, e0, 8)
                        && expr_reads(ts, k + 1, self.pos - 1, i0, 0) && tk(ts, self.pos - 1, TokenKind::RBracket));
                }
            } else if self.at(&TokenKind::Dot) {
                self.advance();
                let name = self.expect_ident()?;
                if self.at(&TokenKind::LParen) {
                    self.advance();
                    let ghost a0 = self.pos as int;
                    let args = self.arg_list()?;
                    let end = self.expect(TokenKind::RParen, "`)`")?;
                    let ghost n0 = name;
                    let ghost as0 = args@;
                    e = Expr::MethodCall { recv: Box::new(e), method: name, args, span: end };
                    assert(expr_direct(ts, p0, self.pos as int, e)) by {
                        assert(expr_reads(ts, p0, k, e0, 8) && tk(ts, k, TokenKind::Dot)
                            && tk_ident(ts, k + 1, n0.name@) && tk(ts, k + 2, TokenKind::LParen)
                            && list_reads(ts, k + 3, self.pos - 1, as0) && tk(ts, self.pos - 1, TokenKind::RParen));
                    }
                } else {
                    let span = name.span;
                    e = Expr::Field { base: Box::new(e), name, span };
                    assert(expr_direct(ts, p0, self.pos as int, e));
                }
            } else {
                break;
            }
        }
        Ok(e)
    }

    /// Arguments up to (not including) `)`.
    fn arg_list(&mut self) -> (r: Result<Vec<Expr>, ParseError>)
        requires
            old(self).wf(),
        ensures
            final(self).follows(old(self)),
            r matches Ok(args) ==> list_reads(old(self).tokens@, old(self).pos as int, final(self).pos as int, args@),
            r is Ok <==> pe(old(self).tokens@, old(self).pos as int, EXPR_ARGS as int) is Some,
            r is Ok ==> final(self).pos == pe(old(self).tokens@, old(self).pos as int, EXPR_ARGS as int)->Some_0,
        decreases old(self).tokens@.len() - old(self).pos, 21int,
    {
        let ghost ts = self.tokens@;
        let ghost p0 = self.pos as int;
        let mut args: Vec<Expr> = Vec::new();
        if !self.at(&TokenKind::RParen) {
            loop
                invariant_except_break
                    args@.len() == 0 ==> self.pos == p0,
                    args@.len() > 0 ==> tk(ts, self.pos - 1, TokenKind::Comma)
                        && list_reads(ts, p0, self.pos - 1, args@),
                    pe(ts, p0, EXPR_ARGS as int) == pe(ts, self.pos as int, EXPR_LIST as int),
                invariant
                    self.follows(old(self)),
                    ts == self.tokens@,
                    p0 == old(self).pos,
                ensures
                    list_reads(ts, p0, self.pos as int, args@),
                    pe(ts, p0, EXPR_ARGS as int) == Some(self.pos as int),
                decreases self.tokens@.len() - self.pos,
            {
                let ghost k = self.pos as int;
                let ghost before = args@;
                let e = self.expr()?;
                args.push(e);
                proof {
                    assert(args@.subrange(0, args@.len() - 1) =~= before);
                    if before.len() > 0 {
                        assert(list_reads(ts, p0, k - 1, args@.subrange(0, args@.len() - 1)));
                    }
                }
                if self.at(&TokenKind::Comma) {
                    self.advance();
                } else {
                    break;
                }
            }
        }
        Ok(args)
    }

    /// A literal, a parenthesized expression, an array literal, a variable,
    /// a call, or a struct literal.
    fn primary(&mut self) -> (r: Result<Expr, ParseError>)
        requires
            old(self).wf(),
        ensures
            final(self).follows(old(self)),
            r is Ok ==> final(self).pos > old(self).pos,
            r matches Ok(e) ==> expr_reads(old(self).tokens@, old(self).pos as int, final(self).pos as int, e, 9),
            r is Ok <==> pe(old(self).tokens@, old(self).pos as int, 9) is Some,
            r is Ok ==> final(self).pos == pe(old(self).tokens@, old(self).pos as int, 9)->Some_0,
        decreases old(self).tokens@.len() - old(self).pos, 10int,
    {
        let ghost ts = self.tokens@;
        let ghost p0 = self.pos as int;
        let sp = self.cur_span();
        let k = self.kind().copy();
        match k {
            TokenKind::Int(v) => {
                self.advance();
                let r = Expr::Int { value: v, span: sp };
                assert(expr_direct(ts, p0, self.pos as int, r));
                Ok(r)
            },
            TokenKind::Float(t) => {
                self.advance();
                let r = Expr::Float { text: t, span: sp };
                assert(expr_direct(ts, p0, self.pos as int, r));
                Ok(r)
            },
            TokenKind::Str(v) => {
                self.advance();
                let r = Expr::Str { value: v, span: sp };
                assert(expr_direct(ts, p0, self.pos as int, r));
                Ok(r)
            },
            TokenKind::True => {
                self.advance();
                let r = Expr::Bool { value: true, span: sp };
                assert(expr_direct(ts, p0, self.pos as int, r));
                Ok(r)
            },
            TokenKind::False => {
                self.advance();
                let r = Expr::Bool { value: false, span: sp };
                assert(expr_direct(ts, p0, self.pos as int, r));
                Ok(r)
            },
            TokenKind::LParen => {
                self.advance();
                let e = self.expr()?;
                self.expect(TokenKind::RParen, "`)`")?;
                assert(expr_reads(ts, p0, self.pos as int, e, 9));
                Ok(e)
            },
            TokenKind::LBracket => {
                self.advance();
                let mut elems: Vec<Expr> = Vec::new();
                let ghost a0 = self.pos as int;
                if !self.at(&TokenKind::RBracket) {
                    loop
                        invariant_except_break
                            elems@.len() == 0 ==> self.pos == a0,
                            elems@.len() > 0 ==> tk(ts, self.pos - 1, TokenKind::Comma)
                                && list_reads(ts, a0, self.pos - 1, elems@),
                            pe(ts, p0 + 1, EXPR_LIST as int) == pe(ts, self.pos as int, EXPR_LIST as int),
                        invariant
                            self.follows(old(self)),
                            self.pos > old(self).pos,
                            ts == self.tokens@,
                            a0 == p0 + 1,
                            p0 == old(self).pos,
                            ts[p0].kind is LBracket,
                            !tk(ts, p0 + 1, TokenKind::RBracket),
                        ensures
                            list_reads(ts, a0, self.pos as int, elems@),
                            p0 == old(self).pos,
                            ts[p0].kind is LBracket,
                            !tk(ts, p0 + 1, TokenKind::RBracket),
                            pe(ts, p0 + 1, EXPR_LIST as int) == Some(self.pos as int),
                        decreases self.tokens@.len() - self.pos,
                    {
                        let ghost kk = self.pos as int;
                        let ghost before = elems@;
                        let e = self.expr()?;
                        elems.push(e);
                        proof {
                            assert(elems@.subrange(0, elems@.len() - 1) =~= before);
                            if before.len() > 0 {
                                assert(list_reads(ts, a0, kk - 1, elems@.subrange(0, elems@.len() - 1)));
                            }
                        }
                        if self.at(&TokenKind::Comma) {
                            self.advance();
                        } else {
                            break;
                        }
                    }
                }
                self.expect(TokenKind::RBracket, "`]`")?;
                let r = Expr::Array { elems, span: sp };
                assert(expr_direct(ts, p0, self.pos as int, r));
                Ok(r)
            },
            TokenKind::Ident(name) => {
                self.advance();
                let ident = Ident { name, span: sp };
                if self.at(&TokenKind::LParen) {
                    self.advance();
                    let args = self.arg_list()?;
                    self.expect(TokenKind::RParen, "`)`")?;
                    let r = Expr::Call { callee: ident, args, span: sp };
                    assert(expr_direct(ts, p0, self.pos as int, r));
                    return Ok(r);
                }
                if self.at(&TokenKind::LBrace) && self.struct_lit_ahead() {
                    self.advance();
                    let ghost a0 = self.pos as int;
                    let mut fields: Vec<(Ident, Expr)> = Vec::new();
                    if !self.at(&TokenKind::RBrace) {
                        loop
                            invariant_except_break
                                fields@.len() == 0 ==> self.pos == a0,
                                fields@.len() > 0 ==> tk(ts, self.pos - 1, TokenKind::Comma)
                                    && inits_reads(ts, a0, self.pos - 1, fields@),
                                pe(ts, p0 + 2, EXPR_INITS as int) == pe(ts, self.pos as int, EXPR_INITS as int),
                            invariant
                                self.follows(old(self)),
                                self.pos > old(self).pos,
                                ts == self.tokens@,
                                a0 == p0 + 2,
                                p0 == old(self).pos,
                                ts[p0].kind is Ident,
                                tk(ts, p0 + 1, TokenKind::LBrace),
                                p0 + 3 < ts.len(),
                                ts[p0 + 2].kind is Ident,
                                ts[p0 + 3].kind is Colon,
                            ensures
                                inits_reads(ts, a0, self.pos as int, fields@),
                                p0 == old(self).pos,
                                ts[p0].kind is Ident,
                                tk(ts, p0 + 1, TokenKind::LBrace),
                                p0 + 3 < ts.len(),
                                ts[p0 + 2].kind is Ident,
                                ts[p0 + 3].kind is Colon,
                                pe(ts, p0 + 2, EXPR_INITS as int) == Some(self.pos as int),
                            decreases self.tokens@.len() - self.pos,
                        {
                            let ghost kk = self.pos as int;
                            let ghost before = fields@;
                            let n = self.expect_ident()?;
                            self.expect(TokenKind::Colon, "`:`")?;
                            let v = self.expr()?;
                            fields.push((n, v));
                            proof {
                                assert(fields@.subrange(0, fields@.len() - 1) =~= before);
                                if before.len() > 0 {
                                    assert(inits_reads(ts, a0, kk - 1, fields@.subrange(0, fields@.len() - 1)));
                                }
                            }
                            if self.at(&TokenKind::Comma) {
                                self.advance();
                            } else {
                                break;
                            }
                        }
                    }
                    self.expect(TokenKind::RBrace, "`}`")?;
                    let r = Expr::StructLit { name: ident, fields, span: sp };
                    assert(expr_direct(ts, p0, self.pos as int, r));
                    return Ok(r);
                }
                let r = Expr::Var { name: ident };
                assert(expr_direct(ts, p0, self.pos as int, r));
                Ok(r)
            },
            other => Err(error("期望表达式，实际是 ", &other, sp)),
        }
    }
}

} // verus!
