//! The static checker: names, types, returns and loops, and the folding of
//! `const` values.

use vstd::prelude::*;
use crate::ast::{
    BinOp, Block, ConstDecl, ElseBranch, Expr, FieldDecl, FunDecl, Ident, IfStmt, Item, Param, Program, Stmt,
    StructDecl, TypeExpr, UnOp,
};
use crate::float::{float_neg, is_zero, FloatBinOp, Host};
use crate::text::{concat, owned, push_str, str_eq, uint_to_string};
use crate::token::Span;
use crate::types::{find_struct, struct_names, type_of_expr, type_text, StructInfo, Type, TypeV};
use crate::value::{copy_value, Val, Value};
use crate::vm::{int_div, int_rem};
use crate::typing::{
    arg_has, args_typed, call_type, expr_type, field_type, first_named, lemma_first_named,
    lemma_first_named_at, method_sig, scoped, sig_call, var_type, Env, FunSig,
    assign_ok, block_scopes, declare_in, field_path_type, if_scopes, in_loop, loop_scopes, stmt_scopes,
    stmts_scopes, struct_names_of, with_scopes, StmtCtx,
};

verus! {

/// A checking error and where it happened.
#[derive(Debug)]
pub struct CheckError {
    pub message: String,
    pub span: Span,
}

/// A function's parameter types and return type.
#[derive(Debug)]
pub struct FunInfo {
    pub params: Vec<Type>,
    pub ret: Type,
}

/// The signature a function's info stands for.
pub open spec fn sig_of(f: FunInfo) -> FunSig {
    FunSig { params: Seq::new(f.params@.len(), |i: int| f.params@[i].view()), ret: f.ret.view() }
}

/// Models of named signatures.
pub open spec fn sigs_view(fs: Seq<(String, FunInfo)>) -> Seq<(Seq<char>, FunSig)> {
    Seq::new(fs.len(), |i: int| (fs[i].0@, sig_of(fs[i].1)))
}

/// Models of named types.
pub open spec fn typed_view(v: Seq<(String, Type)>) -> Seq<(Seq<char>, TypeV)> {
    Seq::new(v.len(), |i: int| (v[i].0@, v[i].1.view()))
}

/// Models of struct layouts.
pub open spec fn structs_view(v: Seq<StructInfo>) -> Seq<(Seq<char>, Seq<(Seq<char>, TypeV)>)> {
    Seq::new(v.len(), |i: int| (v[i].name@, typed_view(v[i].fields@)))
}

/// Models of constants.
pub open spec fn consts_view(v: Seq<(String, Type, Value)>) -> Seq<(Seq<char>, TypeV)> {
    Seq::new(v.len(), |i: int| (v[i].0@, v[i].1.view()))
}

/// Models of scopes.
pub open spec fn scopes_view(v: Seq<Vec<(String, Type)>>) -> Seq<Seq<(Seq<char>, TypeV)>> {
    Seq::new(v.len(), |i: int| typed_view(v[i]@))
}

/// Models of the method tables.
pub open spec fn methods_view(v: Seq<(String, Vec<(String, FunInfo)>)>) -> Seq<(Seq<char>, Seq<(Seq<char>, FunSig)>)> {
    Seq::new(v.len(), |i: int| (v[i].0@, sigs_view(v[i].1@)))
}

/// Models of parameter types.
pub open spec fn types_view(v: Seq<Type>) -> Seq<TypeV> {
    Seq::new(v.len(), |i: int| v[i].view())
}

/// Whether a checking result reports the type `o` (an error when `None`).
pub open spec fn typed_result(r: Result<Type, CheckError>, o: Option<TypeV>) -> bool {
    match o {
        Some(t) => r matches Ok(x) && x.view() == t,
        None => r is Err,
    }
}

/// The names that programs cannot declare as functions or constants.
pub open spec fn is_builtin(n: Seq<char>) -> bool {
    n == "print"@ || n == "len"@ || n == "str_at"@ || n == "str_sub"@ || n == "to_string"@
        || n == "push"@ || n == "pop"@ || n == "input"@
}

/// Whether `n` names a built-in function.
pub fn builtin(n: &str) -> (r: bool)
    ensures
        r == is_builtin(n@),
{
    str_eq(n, "print") || str_eq(n, "len") || str_eq(n, "str_at") || str_eq(n, "str_sub")
        || str_eq(n, "to_string") || str_eq(n, "push") || str_eq(n, "pop") || str_eq(n, "input")
}

/// `a` then `x` then `b`.
fn msg(a: &str, x: &str, b: &str) -> (s: String)
    ensures
        s@ == a@ + x@ + b@,
{
    let mut s = owned(a);
    push_str(&mut s, x);
    push_str(&mut s, b);
    s
}

/// `a`, `x`, `b`, `y`, `c`.
fn msg2(a: &str, x: &str, b: &str, y: &str, c: &str) -> (s: String)
    ensures
        s@ == a@ + x@ + b@ + y@ + c@,
{
    let mut s = owned(a);
    push_str(&mut s, x);
    push_str(&mut s, b);
    push_str(&mut s, y);
    push_str(&mut s, c);
    s
}

fn cerr(message: String, span: Span) -> (e: CheckError)
    ensures
        e.message == message,
        e.span == span,
{
    CheckError { message, span }
}

/// The type of `l op r`, when the operator applies.
pub open spec fn bin_type(op: BinOp, l: TypeV, r: TypeV) -> Option<TypeV> {
    match op {
        BinOp::Add => if l is Str && r is Str {
            Some(TypeV::Str)
        } else if l == r && (l is Int || l is Float) {
            Some(l)
        } else {
            None
        },
        BinOp::Sub | BinOp::Mul | BinOp::Div | BinOp::Rem => if l == r && (l is Int || l is Float) {
            Some(l)
        } else {
            None
        },
        BinOp::Eq | BinOp::Ne => if l == r && (l is Int || l is Float || l is Bool || l is Str) {
            Some(TypeV::Bool)
        } else {
            None
        },
        BinOp::Lt | BinOp::Le | BinOp::Gt | BinOp::Ge => if l == r && (l is Int || l is Float) {
            Some(TypeV::Bool)
        } else {
            None
        },
        BinOp::And | BinOp::Or => if l is Bool && r is Bool { Some(TypeV::Bool) } else { None },
    }
}

/// Why a binary operation does not apply to operands of the types written
/// `l` and `r`.
pub open spec fn bin_error_text(op: BinOp, l: Seq<char>, r: Seq<char>) -> Seq<char> {
    match op {
        BinOp::Add => "cannot add `"@ + l + "` and `"@ + r + "`"@,
        BinOp::Sub | BinOp::Mul | BinOp::Div | BinOp::Rem => "cannot apply arithmetic to `"@ + l + "` and `"@ + r + "`"@,
        BinOp::Eq | BinOp::Ne => "cannot compare `"@ + l + "` with `"@ + r + "`"@,
        BinOp::Lt | BinOp::Le | BinOp::Gt | BinOp::Ge => "cannot order `"@ + l + "` and `"@ + r + "`"@,
        BinOp::And | BinOp::Or => "logical ops need `bool`"@,
    }
}

/// The type of a binary operation, or the reason it does not apply.
pub fn bin_result(op: BinOp, lt: &Type, rt: &Type) -> (r: Result<Type, String>)
    ensures
        match bin_type(op, lt.view(), rt.view()) {
            Some(t) => r matches Ok(x) && x.view() == t,
            None => r matches Err(m) && m@ == bin_error_text(op, type_text(lt.view()), type_text(rt.view())),
        },
{
    let l = lt.text();
    let rr = rt.text();
    match op {
        BinOp::Add => {
            if matches!(lt, Type::Str) && matches!(rt, Type::Str) {
                return Ok(Type::Str);
            }
            if lt.same(rt) && lt.is_numeric() {
                return Ok(lt.copy());
            }
            Err(msg2("cannot add `", l.as_str(), "` and `", rr.as_str(), "`"))
        },
        BinOp::Sub | BinOp::Mul | BinOp::Div | BinOp::Rem => {
            if lt.same(rt) && lt.is_numeric() {
                Ok(lt.copy())
            } else {
                Err(msg2("cannot apply arithmetic to `", l.as_str(), "` and `", rr.as_str(), "`"))
            }
        },
        BinOp::Eq | BinOp::Ne => {
            if lt.same(rt) && lt.is_scalar() {
                Ok(Type::Bool)
            } else {
                Err(msg2("cannot compare `", l.as_str(), "` with `", rr.as_str(), "`"))
            }
        },
        BinOp::Lt | BinOp::Le | BinOp::Gt | BinOp::Ge => {
            if lt.same(rt) && lt.is_numeric() {
                Ok(Type::Bool)
            } else {
                Err(msg2("cannot order `", l.as_str(), "` and `", rr.as_str(), "`"))
            }
        },
        BinOp::And | BinOp::Or => {
            if matches!(lt, Type::Bool) && matches!(rt, Type::Bool) {
                Ok(Type::Bool)
            } else {
                Err(owned("logical ops need `bool`"))
            }
        },
    }
}

/// The name of each binary operator in diagnostics.
pub open spec fn bin_op_label(op: BinOp) -> Seq<char> {
    match op {
        BinOp::Add => "Add"@,
        BinOp::Sub => "Sub"@,
        BinOp::Mul => "Mul"@,
        BinOp::Div => "Div"@,
        BinOp::Rem => "Rem"@,
        BinOp::Eq => "Eq"@,
        BinOp::Ne => "Ne"@,
        BinOp::Lt => "Lt"@,
        BinOp::Le => "Le"@,
        BinOp::Gt => "Gt"@,
        BinOp::Ge => "Ge"@,
        BinOp::And => "And"@,
        BinOp::Or => "Or"@,
    }
}

/// The name of an operator as a diagnostic writes it.
fn op_name(op: BinOp) -> (r: &'static str)
    ensures
        r@ == bin_op_label(op),
{
    match op {
        BinOp::Add => "Add",
        BinOp::Sub => "Sub",
        BinOp::Mul => "Mul",
        BinOp::Div => "Div",
        BinOp::Rem => "Rem",
        BinOp::Eq => "Eq",
        BinOp::Ne => "Ne",
        BinOp::Lt => "Lt",
        BinOp::Le => "Le",
        BinOp::Gt => "Gt",
        BinOp::Ge => "Ge",
        BinOp::And => "And",
        BinOp::Or => "Or",
    }
}

/// Whether a constant value is of type `t`.
pub open spec fn val_has_type(v: Val, t: TypeV) -> bool {
    match (v, t) {
        (Val::Int(_), TypeV::Int) => true,
        (Val::Float(_), TypeV::Float) => true,
        (Val::Bool(_), TypeV::Bool) => true,
        (Val::Str(_), TypeV::Str) => true,
        _ => false,
    }
}

/// The type of `l op r` when constant folding applies to it.
pub open spec fn fold_bin_type(op: BinOp, l: TypeV, r: TypeV) -> Option<TypeV> {
    match (l, r) {
        (TypeV::Int, TypeV::Int) => match op {
            BinOp::And | BinOp::Or => None,
            BinOp::Eq | BinOp::Ne | BinOp::Lt | BinOp::Le | BinOp::Gt | BinOp::Ge => Some(TypeV::Bool),
            _ => Some(TypeV::Int),
        },
        (TypeV::Bool, TypeV::Bool) => match op {
            BinOp::Eq | BinOp::Ne | BinOp::And | BinOp::Or => Some(TypeV::Bool),
            _ => None,
        },
        (TypeV::Str, TypeV::Str) => if op == BinOp::Add { Some(TypeV::Str) } else { None },
        (TypeV::Float, TypeV::Float) => match op {
            BinOp::Add | BinOp::Sub | BinOp::Mul | BinOp::Div => Some(TypeV::Float),
            _ => None,
        },
        _ => None,
    }
}

/// The type of a `const` initializer that folds: literals, earlier
/// constants, and the unary and binary operations that folding supports.
pub open spec fn fold_type(env: Env, e: Expr) -> Option<TypeV>
    decreases e,
{
    match e {
        Expr::Int { .. } => Some(TypeV::Int),
        Expr::Float { .. } => Some(TypeV::Float),
        Expr::Bool { .. } => Some(TypeV::Bool),
        Expr::Str { .. } => Some(TypeV::Str),
        Expr::Var { name } => match first_named(env.consts, name.name@) {
            Some(i) => Some(env.consts[i].1),
            None => None,
        },
        Expr::Unary { op, expr, .. } => match fold_type(env, *expr) {
            Some(t) => match op {
                UnOp::Neg => if t is Int || t is Float { Some(t) } else { None },
                UnOp::Not => if t is Bool { Some(TypeV::Bool) } else { None },
            },
            None => None,
        },
        Expr::Binary { op, lhs, rhs, .. } => match (fold_type(env, *lhs), fold_type(env, *rhs)) {
            (Some(l), Some(r)) => fold_bin_type(op, l, r),
            _ => None,
        },
        _ => None,
    }
}

/// Whether an initializer divides somewhere: whether it folds then rests
/// on the divisor's value.
pub open spec fn divides(e: Expr) -> bool
    decreases e,
{
    match e {
        Expr::Unary { expr, .. } => divides(*expr),
        Expr::Binary { op, lhs, rhs, .. } => op == BinOp::Div || op == BinOp::Rem || divides(*lhs) || divides(*rhs),
        _ => false,
    }
}

/// The names and values of declared constants.
pub open spec fn const_vals(v: Seq<(String, Type, Value)>) -> Seq<(Seq<char>, Val)> {
    Seq::new(v.len(), |i: int| (v[i].0@, v[i].2.view()))
}

/// The value a constant expression folds to over the constants `cv`, where
/// it is known without floating point: literals, earlier constants (the
/// first of a name), `-` and `!`, and binary operations on integers,
/// booleans and strings. `None` where folding fails or involves a float
/// operation.
pub open spec fn fold_val(cv: Seq<(Seq<char>, Val)>, e: Expr) -> Option<Val>
    decreases e,
{
    match e {
        Expr::Int { value, .. } => Some(Val::Int(value)),
        Expr::Bool { value, .. } => Some(Val::Bool(value)),
        Expr::Str { value, .. } => Some(Val::Str(value@)),
        Expr::Var { name } => match first_named(cv, name.name@) {
            Some(i) => Some(cv[i].1),
            None => None,
        },
        Expr::Unary { op, expr, .. } => match (op, fold_val(cv, *expr)) {
            (UnOp::Neg, Some(Val::Int(n))) => Some(Val::Int(if n == i64::MIN { n } else { (-n) as i64 })),
            (UnOp::Not, Some(Val::Bool(b))) => Some(Val::Bool(!b)),
            _ => None,
        },
        Expr::Binary { op, lhs, rhs, .. } => match (fold_val(cv, *lhs), fold_val(cv, *rhs)) {
            (Some(a), Some(b)) => if a is Float || b is Float { None } else { fold_value(op, a, b) },
            _ => None,
        },
        _ => None,
    }
}

/// The initialisers of the constants among the first `n` items, in order.
pub open spec fn const_inits(items: Seq<Item>, n: nat) -> Seq<Expr>
    decreases n,
{
    if n == 0 || n > items.len() {
        Seq::empty()
    } else {
        let s = const_inits(items, (n - 1) as nat);
        match items[n - 1] {
            Item::Const(k) => s.push(k.value),
            _ => s,
        }
    }
}

/// Each constant of `cv` has the value its initialiser `inits` folds to over
/// the constants before it, where that value is known.
pub open spec fn consts_folded(cv: Seq<(Seq<char>, Val)>, inits: Seq<Expr>) -> bool {
    &&& cv.len() == inits.len()
    &&& forall|k: int| 0 <= k < cv.len() ==> (#[trigger] fold_val(cv.take(k), inits[k]) matches Some(x) ==> cv[k].1 == x)
}

/// Two tables with the same names find a name at the same place.
pub proof fn lemma_first_named_names<A, B>(s: Seq<(Seq<char>, A)>, t: Seq<(Seq<char>, B)>, n: Seq<char>)
    requires
        s.len() == t.len(),
        forall|i: int| 0 <= i < s.len() ==> (#[trigger] s[i]).0 == t[i].0,
    ensures
        first_named(s, n) == first_named(t, n),
    decreases s.len(),
{
    if s.len() > 0 {
        lemma_first_named_names(s.drop_last(), t.drop_last(), n);
        assert(s.last().0 == t.last().0);
    }
}

/// What folding `a op b` gives when neither is a float: the operation on
/// integers (wrapping), booleans, and the concatenation of strings.
pub open spec fn fold_value(op: BinOp, a: Val, b: Val) -> Option<Val> {
    match (a, b) {
        (Val::Int(x), Val::Int(y)) => match op {
            BinOp::Add => Some(Val::Int(vstd::wrapping::i64_specs::wrapping_add(x, y))),
            BinOp::Sub => Some(Val::Int(vstd::wrapping::i64_specs::wrapping_sub(x, y))),
            BinOp::Mul => Some(Val::Int(vstd::wrapping::i64_specs::wrapping_mul(x, y))),
            BinOp::Div => if y != 0 { Some(Val::Int(crate::semantics::div_trunc(x, y))) } else { None },
            BinOp::Rem => if y != 0 { Some(Val::Int(crate::semantics::rem_trunc(x, y))) } else { None },
            BinOp::Eq => Some(Val::Bool(x == y)),
            BinOp::Ne => Some(Val::Bool(x != y)),
            BinOp::Lt => Some(Val::Bool(x < y)),
            BinOp::Le => Some(Val::Bool(x <= y)),
            BinOp::Gt => Some(Val::Bool(x > y)),
            BinOp::Ge => Some(Val::Bool(x >= y)),
            _ => None,
        },
        (Val::Bool(x), Val::Bool(y)) => match op {
            BinOp::Eq => Some(Val::Bool(x == y)),
            BinOp::Ne => Some(Val::Bool(x != y)),
            BinOp::And => Some(Val::Bool(x && y)),
            BinOp::Or => Some(Val::Bool(x || y)),
            _ => None,
        },
        (Val::Str(x), Val::Str(y)) => if op == BinOp::Add { Some(Val::Str(x + y)) } else { None },
        _ => None,
    }
}

/// Folding a comparison of two integers at compile time gives whether the
/// first is less than, at most, greater than, at least, equal to or not
/// equal to the second; `!=` is the negation of `==`.
pub proof fn law_fold_int_comparison(x: i64, y: i64)
    ensures
        fold_value(BinOp::Lt, Val::Int(x), Val::Int(y)) == Some(Val::Bool(x < y)),
        fold_value(BinOp::Le, Val::Int(x), Val::Int(y)) == Some(Val::Bool(x <= y)),
        fold_value(BinOp::Gt, Val::Int(x), Val::Int(y)) == Some(Val::Bool(x > y)),
        fold_value(BinOp::Ge, Val::Int(x), Val::Int(y)) == Some(Val::Bool(x >= y)),
        fold_value(BinOp::Eq, Val::Int(x), Val::Int(y)) == Some(Val::Bool(x == y)),
        fold_value(BinOp::Ne, Val::Int(x), Val::Int(y)) == Some(Val::Bool(!(x == y))),
        fold_value(BinOp::Ne, Val::Int(x), Val::Int(y)) != fold_value(BinOp::Eq, Val::Int(x), Val::Int(y)),
{
}

/// Folding arithmetic on two integers gives the sum, difference and product
/// where they fit an `i64`, the quotient and remainder of a non-negative
/// number by a positive one, and nothing for a division by zero; on two
/// booleans, `&&`, `||`, `==` and `!=` have their meaning; on two strings,
/// `+` joins them.
pub proof fn law_fold_values(x: i64, y: i64, p: bool, q: bool, u: Seq<char>, w: Seq<char>)
    ensures
        i64::MIN <= x + y <= i64::MAX ==> fold_value(BinOp::Add, Val::Int(x), Val::Int(y)) == Some(Val::Int((x + y) as i64)),
        i64::MIN <= x - y <= i64::MAX ==> fold_value(BinOp::Sub, Val::Int(x), Val::Int(y)) == Some(Val::Int((x - y) as i64)),
        i64::MIN <= x * y <= i64::MAX ==> fold_value(BinOp::Mul, Val::Int(x), Val::Int(y)) == Some(Val::Int((x * y) as i64)),
        x >= 0 && y > 0 ==> fold_value(BinOp::Div, Val::Int(x), Val::Int(y)) == Some(Val::Int((x / y) as i64)),
        x >= 0 && y > 0 ==> fold_value(BinOp::Rem, Val::Int(x), Val::Int(y)) == Some(Val::Int((x % y) as i64)),
        fold_value(BinOp::Div, Val::Int(x), Val::Int(0)) is None,
        fold_value(BinOp::Rem, Val::Int(x), Val::Int(0)) is None,
        fold_value(BinOp::And, Val::Bool(p), Val::Bool(q)) == Some(Val::Bool(p && q)),
        fold_value(BinOp::Or, Val::Bool(p), Val::Bool(q)) == Some(Val::Bool(p || q)),
        fold_value(BinOp::Eq, Val::Bool(p), Val::Bool(q)) == Some(Val::Bool(p == q)),
        fold_value(BinOp::Ne, Val::Bool(p), Val::Bool(q)) == Some(Val::Bool(p != q)),
        fold_value(BinOp::Add, Val::Str(u), Val::Str(w)) == Some(Val::Str(u + w)),
{
    if x >= 0 && y > 0 {
        assert(0 <= x / y <= x) by (nonlinear_arith)
            requires x >= 0, y > 0;
        assert(0 <= x % y < y) by (nonlinear_arith)
            requires x >= 0, y > 0;
        assert(x == 0 ==> x % y == 0 && x / y == 0) by (nonlinear_arith)
            requires x >= 0, y > 0;
    }
}

/// Whether folding `a op b` on floats applies: `+ - *`, and `/` by a
/// divisor that is not zero.
pub open spec fn float_folds(op: BinOp, b: u64) -> bool {
    op == BinOp::Add || op == BinOp::Sub || op == BinOp::Mul
        || (op == BinOp::Div && !crate::float::spec_is_zero(b))
}

/// Folds `a op b` for a `const`. Float arithmetic is the host's.
pub fn fold_bin<H: Host>(op: BinOp, lt: &Type, lv: &Value, rt: &Type, rv: &Value, host: &H)
    -> (r: Result<(Type, Value), String>)
    ensures
        match (lv.view(), rv.view()) {
            (Val::Float(_), Val::Float(b)) => (r is Ok <==> float_folds(op, b))
                && (r matches Ok((t, v)) ==> t.view() == TypeV::Float && v.view() is Float),
            _ => match fold_value(op, lv.view(), rv.view()) {
                Some(v) => r matches Ok((t, x)) && x.view() == v,
                None => r is Err,
            },
        },
        r matches Ok((t, x)) ==> val_has_type(x.view(), t.view()),
{
    match (lv, rv) {
        (Value::Int(a), Value::Int(b)) => {
            let (a, b) = (*a, *b);
            match op {
                BinOp::Add => return Ok((Type::Int, Value::Int(a.wrapping_add(b)))),
                BinOp::Sub => return Ok((Type::Int, Value::Int(a.wrapping_sub(b)))),
                BinOp::Mul => return Ok((Type::Int, Value::Int(a.wrapping_mul(b)))),
                BinOp::Div => {
                    if b == 0 {
                        return Err(owned("division by zero in const"));
                    }
                    return Ok((Type::Int, Value::Int(int_div(a, b))));
                },
                BinOp::Rem => {
                    if b == 0 {
                        return Err(owned("division by zero in const"));
                    }
                    return Ok((Type::Int, Value::Int(int_rem(a, b))));
                },
                BinOp::Eq => return Ok((Type::Bool, Value::Bool(a == b))),
                BinOp::Ne => return Ok((Type::Bool, Value::Bool(a != b))),
                BinOp::Lt => return Ok((Type::Bool, Value::Bool(a < b))),
                BinOp::Le => return Ok((Type::Bool, Value::Bool(a <= b))),
                BinOp::Gt => return Ok((Type::Bool, Value::Bool(a > b))),
                BinOp::Ge => return Ok((Type::Bool, Value::Bool(a >= b))),
                _ => {},
            }
        },
        (Value::Float(a), Value::Float(b)) => {
            let (a, b) = (*a, *b);
            match op {
                BinOp::Add => return Ok((Type::Float, Value::Float(host.binary(FloatBinOp::Add, a, b)))),
                BinOp::Sub => return Ok((Type::Float, Value::Float(host.binary(FloatBinOp::Sub, a, b)))),
                BinOp::Mul => return Ok((Type::Float, Value::Float(host.binary(FloatBinOp::Mul, a, b)))),
                BinOp::Div => {
                    if !is_zero(b) {
                        return Ok((Type::Float, Value::Float(host.binary(FloatBinOp::Div, a, b))));
                    }
                },
                _ => {},
            }
        },
        (Value::Bool(a), Value::Bool(b)) => {
            let (a, b) = (*a, *b);
            match op {
                BinOp::Eq => return Ok((Type::Bool, Value::Bool(a == b))),
                BinOp::Ne => return Ok((Type::Bool, Value::Bool(a != b))),
                BinOp::And => return Ok((Type::Bool, Value::Bool(a && b))),
                BinOp::Or => return Ok((Type::Bool, Value::Bool(a || b))),
                _ => {},
            }
        },
        (Value::Str(a), Value::Str(b)) => {
            if op == BinOp::Add {
                return Ok((Type::Str, Value::Str(concat(a, b))));
            }
        },
        _ => {},
    }
    let l = lt.text();
    let r = rt.text();
    let mut m = msg("cannot fold `", l.as_str(), "` ");
    push_str(&mut m, op_name(op));
    push_str(&mut m, " `");
    push_str(&mut m, r.as_str());
    push_str(&mut m, "`");
    Err(m)
}

/// Whether a block returns on every path: one of its statements does.
pub open spec fn block_returns(b: Block) -> bool
    decreases b,
{
    any_returns(b.stmts@)
}

/// Whether one of the statements returns on every path.
pub open spec fn any_returns(ss: Seq<Stmt>) -> bool
    decreases ss,
{
    if ss.len() == 0 {
        false
    } else {
        any_returns(ss.drop_last()) || stmt_returns_spec(ss.last())
    }
}

/// Whether a statement returns on every path: a `return`, a block that
/// does, an `if` whose branches all do, or an implicit return value.
pub open spec fn stmt_returns_spec(s: Stmt) -> bool
    decreases s,
{
    match s {
        Stmt::Return(_) => true,
        Stmt::Block(b) => block_returns(b),
        Stmt::If(i) => if_returns(i),
        Stmt::Expr(e) => e.implicit_return,
        _ => false,
    }
}

/// Whether an `if` returns on every path.
pub open spec fn if_returns(i: IfStmt) -> bool
    decreases i,
{
    block_returns(i.then_block) && match i.else_branch {
        Some(ElseBranch::Block(b)) => block_returns(b),
        Some(ElseBranch::If(n)) => if_returns(*n),
        None => false,
    }
}

proof fn lemma_any_returns_prefix(ss: Seq<Stmt>, n: int)
    requires
        0 <= n <= ss.len(),
        any_returns(ss.subrange(0, n)),
    ensures
        any_returns(ss),
    decreases ss.len() - n,
{
    if n < ss.len() {
        assert(ss.subrange(0, n + 1).drop_last() =~= ss.subrange(0, n));
        lemma_any_returns_prefix(ss, n + 1);
    } else {
        assert(ss.subrange(0, n) =~= ss);
    }
}

/// The fields of a struct from its first `n` field declarations: each
/// type exists and no name comes twice.
pub open spec fn struct_fields(names: Seq<Seq<char>>, fs: Seq<FieldDecl>, n: nat) -> Option<Seq<(Seq<char>, TypeV)>>
    decreases n,
{
    if n == 0 || n > fs.len() {
        if n == 0 { Some(Seq::empty()) } else { None }
    } else {
        match struct_fields(names, fs, (n - 1) as nat) {
            Some(sc) => match type_of_expr(fs[n - 1].ty, names) {
                Some(t) => if first_named(sc, fs[n - 1].name.name@) is Some {
                    None
                } else {
                    Some(sc.push((fs[n - 1].name.name@, t)))
                },
                None => None,
            },
            None => None,
        }
    }
}

/// `env` after declaring a struct: a new name, with well-formed fields.
pub open spec fn declared_struct(env: Env, d: StructDecl) -> Option<Env> {
    if first_named(env.structs, d.name.name@) is Some {
        None
    } else {
        match struct_fields(struct_names_of(env), d.fields@, d.fields@.len()) {
            Some(fs) => Some(Env {
                functions: env.functions,
                methods: env.methods,
                structs: env.structs.push((d.name.name@, fs)),
                consts: env.consts,
                scopes: env.scopes,
            }),
            None => None,
        }
    }
}

/// The parameter types of a function from its first `n` parameters: each
/// type exists and no name comes twice.
pub open spec fn param_types(names: Seq<Seq<char>>, ps: Seq<Param>, n: nat) -> Option<Seq<TypeV>>
    decreases n,
{
    if n == 0 || n > ps.len() {
        if n == 0 { Some(Seq::empty()) } else { None }
    } else {
        match param_types(names, ps, (n - 1) as nat) {
            Some(ts) => match type_of_expr(ps[n - 1].ty, names) {
                Some(t) => if exists|j: int| 0 <= j < n - 1 && #[trigger] ps[j].name.name@ == ps[n - 1].name.name@ {
                    None
                } else {
                    Some(ts.push(t))
                },
                None => None,
            },
            None => None,
        }
    }
}

/// `env` after declaring a function or method with signature `sig`.
pub open spec fn declared_fun_sig(env: Env, f: FunDecl, sig: FunSig) -> Option<Env> {
    let fname = f.name.name@;
    match f.on_type {
        Some(on) => {
            let st = on.name@;
            if first_named(env.structs, st) is None {
                None
            } else if !(sig.params.len() > 0 && sig.params[0] == TypeV::Struct(st)) {
                None
            } else if first_named(env.functions, fname) is Some {
                None
            } else {
                let ms = match first_named(env.methods, st) {
                    Some(_) => env.methods,
                    None => env.methods.push((st, Seq::empty())),
                };
                let k = match first_named(env.methods, st) {
                    Some(k) => k,
                    None => env.methods.len() as int,
                };
                if first_named(ms[k].1, fname) is Some {
                    None
                } else {
                    Some(Env {
                        functions: env.functions,
                        methods: ms.update(k, (ms[k].0, ms[k].1.push((fname, sig)))),
                        structs: env.structs,
                        consts: env.consts,
                        scopes: env.scopes,
                    })
                }
            }
        },
        None => {
            if fname == "main"@ && (f.params@.len() != 0 || !(f.ret is Void)) {
                None
            } else if first_named(env.functions, fname) is Some
                || exists|i: int| 0 <= i < env.methods.len() && first_named(#[trigger] env.methods[i].1, fname) is Some {
                None
            } else {
                Some(Env {
                    functions: env.functions.push((fname, sig)),
                    methods: env.methods,
                    structs: env.structs,
                    consts: env.consts,
                    scopes: env.scopes,
                })
            }
        },
    }
}

/// `env` after declaring a function or method: not a built-in's name (for
/// a free function), parameter and return types that exist, distinct
/// parameter names; a method's struct exists and its first parameter is
/// that struct, and no function or method of that name exists; `main` takes
/// nothing and returns `void`.
pub open spec fn declared_fun(env: Env, f: FunDecl) -> Option<Env> {
    let names = struct_names_of(env);
    if f.on_type is None && is_builtin(f.name.name@) {
        None
    } else {
        match param_types(names, f.params@, f.params@.len()) {
            Some(ts) => match type_of_expr(f.ret, names) {
                Some(rt) => declared_fun_sig(env, f, FunSig { params: ts, ret: rt }),
                None => None,
            },
            None => None,
        }
    }
}

/// `env` after declaring a constant: a name that no built-in, struct,
/// function or constant has, a declared scalar type, and an initializer
/// that folds to that type.
pub open spec fn declared_const(env: Env, c: ConstDecl) -> Option<Env> {
    let n = c.name.name@;
    if is_builtin(n) || first_named(env.structs, n) is Some || first_named(env.functions, n) is Some
        || first_named(env.consts, n) is Some {
        None
    } else {
        match type_of_expr(c.ty, struct_names_of(env)) {
            Some(t) => if (t is Int || t is Float || t is Bool || t is Str) && fold_type(env, c.value) == Some(t) {
                Some(Env {
                    functions: env.functions,
                    methods: env.methods,
                    structs: env.structs,
                    consts: env.consts.push((n, t)),
                    scopes: env.scopes,
                })
            } else {
                None
            },
            None => None,
        }
    }
}

/// What a program declares before its code is checked: each pass over the
/// items in order, structs, then functions and methods, then constants.
pub open spec fn declared_through(env: Env, items: Seq<Item>, pass: int, n: nat) -> Option<Env>
    decreases n,
{
    if n == 0 || n > items.len() {
        if n == 0 { Some(env) } else { None }
    } else {
        match declared_through(env, items, pass, (n - 1) as nat) {
            Some(e) => match items[n - 1] {
                Item::Struct(d) => if pass == 0 { declared_struct(e, d) } else { Some(e) },
                Item::Fun(f) => if pass == 1 { declared_fun(e, f) } else { Some(e) },
                Item::Const(c) => if pass == 2 { declared_const(e, c) } else { Some(e) },
                _ => Some(e),
            },
            None => None,
        }
    }
}

/// The tables of an empty program, with one empty top-level scope.
pub open spec fn initial_env() -> Env {
    Env {
        functions: Seq::empty(),
        methods: Seq::empty(),
        structs: Seq::empty(),
        consts: Seq::empty(),
        scopes: seq![Seq::empty()],
    }
}

/// Everything a program declares, when its declarations are accepted.
pub open spec fn program_env(items: Seq<Item>) -> Option<Env> {
    match declared_through(initial_env(), items, 0, items.len()) {
        Some(e1) => match declared_through(e1, items, 1, items.len()) {
            Some(e2) => declared_through(e2, items, 2, items.len()),
            None => None,
        },
        None => None,
    }
}

/// Where top-level statements are checked.
pub open spec fn top_ctx() -> StmtCtx {
    StmtCtx { ret: TypeV::Void, in_loop: false, top: true }
}

/// The scopes after the top-level statements among the first `n` items.
pub open spec fn top_scopes(env: Env, items: Seq<Item>, n: nat) -> Option<Seq<Seq<(Seq<char>, TypeV)>>>
    decreases n,
{
    if n == 0 || n > items.len() {
        if n == 0 { Some(env.scopes) } else { None }
    } else {
        match top_scopes(env, items, (n - 1) as nat) {
            Some(sc) => match items[n - 1] {
                Item::Stmt(st) => stmt_scopes(with_scopes(env, sc), top_ctx(), st),
                _ => Some(sc),
            },
            None => None,
        }
    }
}

/// Whether a program passes the checker's rules: its declarations are
/// accepted, every function body checks against all the declarations, and
/// the top-level statements check in order.
pub open spec fn program_ok(items: Seq<Item>) -> bool {
    match program_env(items) {
        Some(e) => {
            &&& forall|i: int| 0 <= i < items.len() ==> (#[trigger] items[i] matches Item::Fun(f) ==> fun_ok(e, f))
            &&& top_scopes(e, items, items.len()) is Some
        },
        None => false,
    }
}

/// Whether no `const` initializer divides: then whether the constants fold
/// rests on their types alone.
pub open spec fn consts_fold_surely(items: Seq<Item>) -> bool {
    forall|i: int| 0 <= i < items.len() ==> (#[trigger] items[i] matches Item::Const(k) ==> !divides(k.value))
}

/// The parameter scope of a function from its first `n` parameters: a
/// later parameter of the same name takes the earlier one's place.
pub open spec fn params_scope(names: Seq<Seq<char>>, ps: Seq<Param>, n: nat) -> Option<Seq<(Seq<char>, TypeV)>>
    decreases n,
{
    if n == 0 || n > ps.len() {
        if n == 0 { Some(Seq::empty()) } else { None }
    } else {
        match params_scope(names, ps, (n - 1) as nat) {
            Some(sc) => match type_of_expr(ps[n - 1].ty, names) {
                Some(t) => {
                    let pn = ps[n - 1].name.name@;
                    Some(match first_named(sc, pn) {
                        Some(k) => sc.update(k, (pn, t)),
                        None => sc.push((pn, t)),
                    })
                },
                None => None,
            },
            None => None,
        }
    }
}

/// Whether a function's body checks: its types exist, its body checks
/// with the parameters in scope and its return type, and a function that
/// returns a value returns on every path.
pub open spec fn fun_ok(env: Env, f: FunDecl) -> bool {
    let names = struct_names_of(env);
    match params_scope(names, f.params@, f.params@.len()) {
        Some(sc) => match type_of_expr(f.ret, names) {
            Some(rt) => {
                &&& block_scopes(with_scopes(env, seq![sc]), StmtCtx { ret: rt, in_loop: false, top: false }, f.body) is Some
                &&& (rt is Void || block_returns(f.body))
            },
            None => false,
        },
        None => false,
    }
}

/// Whether a block returns on every path.
pub fn always_returns(b: &Block) -> (r: bool)
    ensures
        r == block_returns(*b),
    decreases b, 1int,
{
    let mut i: usize = 0;
    while i < b.stmts.len()
        invariant
            i <= b.stmts@.len(),
            !any_returns(b.stmts@.subrange(0, i as int)),
        decreases b.stmts@.len() - i,
    {
        assert(b.stmts@.subrange(0, i + 1).drop_last() =~= b.stmts@.subrange(0, i as int));
        if stmt_returns(&b.stmts[i]) {
            proof {
                lemma_any_returns_prefix(b.stmts@, i as int + 1);
            }
            return true;
        }
        i = i + 1;
    }
    assert(b.stmts@.subrange(0, b.stmts@.len() as int) =~= b.stmts@);
    false
}

/// Whether a statement returns on every path.
pub fn stmt_returns(s: &Stmt) -> (r: bool)
    ensures
        r == stmt_returns_spec(*s),
    decreases s, 2int,
{
    match s {
        Stmt::Return(_) => true,
        Stmt::Block(b) => always_returns(b),
        Stmt::If(i) => if_always_returns(i),
        Stmt::Expr(e) => e.implicit_return,
        _ => false,
    }
}

fn if_always_returns(i: &IfStmt) -> (r: bool)
    ensures
        r == if_returns(*i),
    decreases i, 0int,
{
    if !always_returns(&i.then_block) {
        return false;
    }
    match &i.else_branch {
        Some(ElseBranch::Block(b)) => always_returns(b),
        Some(ElseBranch::If(n)) => if_always_returns(n),
        None => false,
    }
}

fn find_fun(fs: &Vec<(String, FunInfo)>, n: &str) -> (r: Option<usize>)
    ensures
        r matches Some(i) ==> i < fs@.len() && fs@[i as int].0@ == n@,
        r is None ==> forall|k: int| 0 <= k < fs@.len() ==> (#[trigger] fs@[k]).0@ != n@,
        match first_named(sigs_view(fs@), n@) {
            Some(i) => r matches Some(k) && k as int == i,
            None => r is None,
        },
{
    proof {
        lemma_first_named(sigs_view(fs@), n@);
    }
    let mut i: usize = 0;
    while i < fs.len()
        invariant
            i <= fs@.len(),
            forall|k: int| 0 <= k < i ==> (#[trigger] fs@[k]).0@ != n@,
        decreases fs@.len() - i,
    {
        if str_eq(fs[i].0.as_str(), n) {
            proof {
                assert forall|j: int| 0 <= j < i implies (#[trigger] sigs_view(fs@)[j]).0 != n@ by {
                    assert(fs@[j].0@ != n@);
                }
                lemma_first_named_at(sigs_view(fs@), n@, i as int);
            }
            return Some(i);
        }
        i = i + 1;
    }
    proof {
        if first_named(sigs_view(fs@), n@) is Some {
            let k = first_named(sigs_view(fs@), n@)->Some_0;
            assert(fs@[k].0@ != n@);
        }
    }
    None
}

fn find_const(cs: &Vec<(String, Type, Value)>, n: &str) -> (r: Option<usize>)
    ensures
        r matches Some(i) ==> i < cs@.len() && cs@[i as int].0@ == n@,
        r is None ==> forall|k: int| 0 <= k < cs@.len() ==> (#[trigger] cs@[k]).0@ != n@,
        match first_named(consts_view(cs@), n@) {
            Some(i) => r matches Some(k) && k as int == i,
            None => r is None,
        },
{
    proof {
        lemma_first_named(consts_view(cs@), n@);
    }
    let mut i: usize = 0;
    while i < cs.len()
        invariant
            i <= cs@.len(),
            forall|k: int| 0 <= k < i ==> (#[trigger] cs@[k]).0@ != n@,
        decreases cs@.len() - i,
    {
        if str_eq(cs[i].0.as_str(), n) {
            proof {
                assert forall|j: int| 0 <= j < i implies (#[trigger] consts_view(cs@)[j]).0 != n@ by {
                    assert(cs@[j].0@ != n@);
                }
                lemma_first_named_at(consts_view(cs@), n@, i as int);
            }
            return Some(i);
        }
        i = i + 1;
    }
    proof {
        if first_named(consts_view(cs@), n@) is Some {
            let k = first_named(consts_view(cs@), n@)->Some_0;
            assert(cs@[k].0@ != n@);
        }
    }
    None
}

/// What `find_struct` reports is where the model finds the struct first.
proof fn lemma_struct_found(v: Seq<StructInfo>, n: Seq<char>, r: Option<usize>)
    requires
        match r {
            Some(i) => i < v.len() && v[i as int].name@ == n
                && forall|k: int| 0 <= k < i ==> (#[trigger] v[k]).name@ != n,
            None => forall|k: int| 0 <= k < v.len() ==> (#[trigger] v[k]).name@ != n,
        },
    ensures
        match r {
            Some(i) => first_named(structs_view(v), n) == Some(i as int),
            None => first_named(structs_view(v), n) is None,
        },
{
    let sv = structs_view(v);
    match r {
        Some(i) => {
            assert forall|j: int| 0 <= j < i implies (#[trigger] sv[j]).0 != n by {
                assert(v[j].name@ != n);
            }
            lemma_first_named_at(sv, n, i as int);
        },
        None => {
            lemma_first_named(sv, n);
            if first_named(sv, n) is Some {
                let k = first_named(sv, n)->Some_0;
                assert(v[k].name@ != n);
            }
        },
    }
}

fn find_var(scope: &Vec<(String, Type)>, n: &str) -> (r: Option<usize>)
    ensures
        r matches Some(i) ==> i < scope@.len() && scope@[i as int].0@ == n@,
        r is None ==> forall|k: int| 0 <= k < scope@.len() ==> (#[trigger] scope@[k]).0@ != n@,
        match first_named(typed_view(scope@), n@) {
            Some(i) => r matches Some(k) && k as int == i,
            None => r is None,
        },
{
    proof {
        lemma_first_named(typed_view(scope@), n@);
    }
    let mut i: usize = 0;
    while i < scope.len()
        invariant
            i <= scope@.len(),
            forall|k: int| 0 <= k < i ==> (#[trigger] scope@[k]).0@ != n@,
        decreases scope@.len() - i,
    {
        if str_eq(scope[i].0.as_str(), n) {
            proof {
                assert forall|j: int| 0 <= j < i implies (#[trigger] typed_view(scope@)[j]).0 != n@ by {
                    assert(scope@[j].0@ != n@);
                }
                lemma_first_named_at(typed_view(scope@), n@, i as int);
            }
            return Some(i);
        }
        i = i + 1;
    }
    proof {
        if first_named(typed_view(scope@), n@) is Some {
            let k = first_named(typed_view(scope@), n@)->Some_0;
            assert(scope@[k].0@ != n@);
        }
    }
    None
}

fn copy_types(ts: &Vec<Type>) -> (r: Vec<Type>)
    ensures
        r@.len() == ts@.len(),
        forall|i: int| 0 <= i < ts@.len() ==> (#[trigger] r@[i]).view() == ts@[i].view(),
        types_view(r@) == types_view(ts@),
{
    let mut out: Vec<Type> = Vec::new();
    let mut i: usize = 0;
    while i < ts.len()
        invariant
            i <= ts@.len(),
            out@.len() == i,
            forall|k: int| 0 <= k < i ==> (#[trigger] out@[k]).view() == ts@[k].view(),
        decreases ts@.len() - i,
    {
        out.push(ts[i].copy());
        i = i + 1;
    }
    assert(types_view(out@) =~= types_view(ts@));
    out
}

fn copy_info(f: &FunInfo) -> (r: FunInfo)
    ensures
        r.params@.len() == f.params@.len(),
        r.ret.view() == f.ret.view(),
        sig_of(r) == sig_of(*f),
{
    let r = FunInfo { params: copy_types(&f.params), ret: f.ret.copy() };
    assert(sig_of(r).params =~= sig_of(*f).params) by {
        assert(types_view(r.params@) == types_view(f.params@));
        assert forall|i: int| 0 <= i < r.params@.len() implies sig_of(r).params[i] == types_view(r.params@)[i] by {}
        assert forall|i: int| 0 <= i < f.params@.len() implies sig_of(*f).params[i] == types_view(f.params@)[i] by {}
    }
    r
}

/// The checker's state: what the program declares, and the scopes, return
/// type and loop nesting of the code being checked.
pub struct Checker {
    functions: Vec<(String, FunInfo)>,
    methods: Vec<(String, Vec<(String, FunInfo)>)>,
    structs: Vec<StructInfo>,
    consts: Vec<(String, Type, Value)>,
    scopes: Vec<Vec<(String, Type)>>,
    ret: Type,
    loop_depth: u32,
    top_level: bool,
}

impl Checker {
    /// What the checker knows, as a model.
    pub closed spec fn env(&self) -> Env {
        Env {
            functions: sigs_view(self.functions@),
            methods: methods_view(self.methods@),
            structs: structs_view(self.structs@),
            consts: consts_view(self.consts@),
            scopes: scopes_view(self.scopes@),
        }
    }

    /// Where the statements being checked stand, as a model.
    pub closed spec fn ctx(&self) -> StmtCtx {
        StmtCtx { ret: self.ret.view(), in_loop: self.loop_depth > 0, top: self.top_level }
    }

    /// The two states differ at most in their variable scopes.
    pub closed spec fn same_decls(&self, other: &Checker) -> bool {
        &&& self.functions == other.functions
        &&& self.methods == other.methods
        &&& self.structs == other.structs
        &&& self.consts == other.consts
        &&& self.ret == other.ret
        &&& self.loop_depth == other.loop_depth
        &&& self.top_level == other.top_level
    }

    proof fn lemma_same_decls(&self, other: &Checker)
        requires
            self.same_decls(other),
        ensures
            self.env() == with_scopes(other.env(), self.env().scopes),
            self.ctx() == other.ctx(),
    {
    }

    fn ty(&self, t: &TypeExpr, span: Span) -> (r: Result<Type, CheckError>)
        ensures
            match type_of_expr(*t, struct_names_of(self.env())) {
                Some(v) => r matches Ok(x) && x.view() == v,
                None => r is Err,
            },
    {
        assert(struct_names(self.structs@) =~= struct_names_of(self.env()));
        match Type::from_ast(t, &self.structs) {
            Ok(ty) => Ok(ty),
            Err(m) => Err(cerr(m, span)),
        }
    }

    fn find_method(&self, st: &str, m: &str) -> (r: Option<(usize, usize)>)
        ensures
            r matches Some((i, j)) ==> i < self.methods@.len() && j < self.methods@[i as int].1@.len(),
            match method_sig(self.env(), st@, m@) {
                Some(sig) => r matches Some((i, j)) && sig_of(self.methods@[i as int].1@[j as int].1) == sig,
                None => r is None,
            },
    {
        let ghost mv = methods_view(self.methods@);
        proof {
            lemma_first_named(mv, st@);
        }
        let mut i: usize = 0;
        while i < self.methods.len()
            invariant
                i <= self.methods@.len(),
                mv == methods_view(self.methods@),
                forall|k: int| 0 <= k < i ==> (#[trigger] self.methods@[k]).0@ != st@,
            decreases self.methods@.len() - i,
        {
            if str_eq(self.methods[i].0.as_str(), st) {
                proof {
                    assert forall|j: int| 0 <= j < i implies (#[trigger] mv[j]).0 != st@ by {
                        assert(self.methods@[j].0@ != st@);
                    }
                    lemma_first_named_at(mv, st@, i as int);
                    assert(mv[i as int].1 == sigs_view(self.methods@[i as int].1@));
                }
                match find_fun(&self.methods[i].1, m) {
                    Some(j) => {
                        proof {
                            assert(mv[i as int].1[j as int].1 == sig_of(self.methods@[i as int].1@[j as int].1));
                        }
                        return Some((i, j));
                    },
                    None => return None,
                }
            }
            i = i + 1;
        }
        proof {
            if first_named(mv, st@) is Some {
                let k = first_named(mv, st@)->Some_0;
                assert(self.methods@[k].0@ != st@);
            }
        }
        None
    }

    /// Whether some struct has a method named `m`.
    fn method_anywhere(&self, m: &str) -> (r: bool)
        ensures
            r == exists|i: int| 0 <= i < self.env().methods.len()
                && first_named(#[trigger] self.env().methods[i].1, m@) is Some,
    {
        let ghost mv = self.env().methods;
        let mut i: usize = 0;
        while i < self.methods.len()
            invariant
                i <= self.methods@.len(),
                mv == self.env().methods,
                mv.len() == self.methods@.len(),
                forall|k: int| 0 <= k < i ==> first_named(#[trigger] mv[k].1, m@) is None,
            decreases self.methods@.len() - i,
        {
            assert(mv[i as int].1 == sigs_view(self.methods@[i as int].1@));
            if find_fun(&self.methods[i].1, m).is_some() {
                assert(first_named(mv[i as int].1, m@) is Some);
                return true;
            }
            i = i + 1;
        }
        false
    }

    /// The type of the variable `n` in the innermost scope that has it.
    fn lookup(&self, n: &str) -> (r: Option<Type>)
        ensures
            match scoped(scopes_view(self.scopes@), n@) {
                Some(t) => r matches Some(x) && x.view() == t,
                None => r is None,
            },
    {
        let ghost sv = scopes_view(self.scopes@);
        let mut i = self.scopes.len();
        assert(sv.take(i as int) =~= sv);
        while i > 0
            invariant
                i <= self.scopes@.len(),
                sv == scopes_view(self.scopes@),
                scoped(sv, n@) == scoped(sv.take(i as int), n@),
            decreases i,
        {
            assert(sv.take(i as int).drop_last() =~= sv.take(i - 1));
            assert(sv.take(i as int).last() == typed_view(self.scopes@[i - 1]@));
            i = i - 1;
            match find_var(&self.scopes[i], n) {
                Some(j) => {
                    proof {
                        assert(typed_view(self.scopes@[i as int]@)[j as int].1 == self.scopes@[i as int]@[j as int].1.view());
                    }
                    return Some(self.scopes[i][j].1.copy());
                },
                None => {},
            }
        }
        None
    }

    /// Declares a variable in the innermost scope; a name can be declared
    /// once per scope.
    fn declare_var(&mut self, n: &str, t: Type, span: Span) -> (r: Result<(), CheckError>)
        requires
            old(self).scopes@.len() >= 1,
        ensures
            final(self).scopes@.len() == old(self).scopes@.len(),
            final(self).same_decls(old(self)),
            match declare_in(old(self).env().scopes, n@, t.view()) {
                Some(sc) => r is Ok && final(self).env().scopes == sc,
                None => r is Err,
            },
    {
        let ghost sv = old(self).env().scopes;
        let last = self.scopes.len() - 1;
        assert(sv.last() == typed_view(self.scopes@[last as int]@));
        if find_var(&self.scopes[last], n).is_some() {
            return Err(cerr(msg("变量 `", n, "` 在本作用域已声明"), span));
        }
        let ghost tv = t.view();
        let mut scope = Vec::new();
        std::mem::swap(&mut scope, &mut self.scopes[last]);
        let ghost before = scope@;
        scope.push((owned(n), t));
        assert(typed_view(scope@) =~= typed_view(before).push((n@, tv)));
        self.scopes.set(last, scope);
        assert(self.env().scopes =~= sv.update(sv.len() - 1, sv.last().push((n@, tv))));
        Ok(())
    }

    /// The type of field `field` of struct `st`.
    fn field_ty(&self, st: &str, field: &Ident) -> (r: Result<Type, CheckError>)
        ensures
            match field_type(self.env(), st@, field.name@) {
                Some(t) => r matches Ok(x) && x.view() == t,
                None => r is Err,
            },
    {
        let ghost sv = structs_view(self.structs@);
        proof {
            lemma_first_named(sv, st@);
        }
        match find_struct(&self.structs, st) {
            Some(i) => {
                proof {
                    assert forall|j: int| 0 <= j < i implies (#[trigger] sv[j]).0 != st@ by {
                        assert(self.structs@[j].name@ != st@);
                    }
                    lemma_first_named_at(sv, st@, i as int);
                }
                let fs = &self.structs[i].fields;
                assert(sv[i as int].1 == typed_view(fs@));
                match find_var(fs, field.name.as_str()) {
                    Some(j) => {
                        proof {
                            assert(typed_view(fs@)[j as int].1 == fs@[j as int].1.view());
                        }
                        return Ok(fs[j].1.copy());
                    },
                    None => {},
                }
            },
            None => {
                proof {
                    if first_named(sv, st@) is Some {
                        let k = first_named(sv, st@)->Some_0;
                        assert(self.structs@[k].name@ != st@);
                    }
                }
            },
        }
        Err(cerr(msg2("结构体 `", st, "` 没有字段 `", field.name.as_str(), "`"), field.span))
    }

    /// The type of an expression.
    #[verifier::loop_isolation(false)]
    fn expr_ty(&self, e: &Expr) -> (r: Result<Type, CheckError>)
        ensures
            typed_result(r, expr_type(self.env(), *e)),
        decreases e, 3int,
    {
        match e {
            Expr::Int { .. } => Ok(Type::Int),
            Expr::Float { .. } => Ok(Type::Float),
            Expr::Bool { .. } => Ok(Type::Bool),
            Expr::Str { .. } => Ok(Type::Str),
            Expr::Var { name } => {
                match find_const(&self.consts, name.name.as_str()) {
                    Some(i) => return Ok(self.consts[i].1.copy()),
                    None => {},
                }
                match self.lookup(name.name.as_str()) {
                    Some(t) => Ok(t),
                    None => Err(cerr(msg("undefined variable `", name.name.as_str(), "`"), name.span)),
                }
            },
            Expr::Range { start, end, span } => {
                let st = self.expr_ty(start)?;
                let ok = matches!(st, Type::Int) && matches!(self.expr_ty(end)?, Type::Int);
                if !ok {
                    return Err(cerr(owned("range bounds must be `int`"), *span));
                }
                Ok(Type::Array(Box::new(Type::Int)))
            },
            Expr::Unary { op, expr, span } => {
                let t = self.expr_ty(expr)?;
                match op {
                    UnOp::Neg => if t.is_numeric() {
                        return Ok(t);
                    },
                    UnOp::Not => if matches!(t, Type::Bool) {
                        return Ok(Type::Bool);
                    },
                }
                let tt = t.text();
                Err(cerr(msg("bad unary on `", tt.as_str(), "`"), *span))
            },
            Expr::Binary { op, lhs, rhs, span } => {
                let lt = self.expr_ty(lhs)?;
                let rt = self.expr_ty(rhs)?;
                match bin_result(*op, &lt, &rt) {
                    Ok(t) => Ok(t),
                    Err(m) => Err(cerr(m, *span)),
                }
            },
            Expr::Call { callee, args, span } => self.call(callee.name.as_str(), args, *span),
            Expr::MethodCall { recv, method, args, span } => {
                match &**recv {
                    Expr::Var { name } => {
                        let dotted = msg(name.name.as_str(), ".", method.name.as_str());
                        if find_fun(&self.functions, dotted.as_str()).is_some() {
                            return self.call(dotted.as_str(), args, *span);
                        }
                        let fs = find_struct(&self.structs, name.name.as_str());
                        proof {
                            lemma_struct_found(self.structs@, name.name@, fs);
                        }
                        if fs.is_some() {
                            match self.find_method(name.name.as_str(), method.name.as_str()) {
                                Some((i, j)) => {
                                    let info = copy_info(&self.methods[i].1[j].1);
                                    return self.call_info(method.name.as_str(), args, &info, *span);
                                },
                                None => {
                                    return Err(cerr(msg2("no method `", method.name.as_str(), "` on `",
                                        name.name.as_str(), "`"), method.span));
                                },
                            }
                        }
                    },
                    _ => {},
                }
                let rt = self.expr_ty(recv)?;
                let sn = match rt {
                    Type::Struct(sn) => sn,
                    other => {
                        let tt = other.text();
                        return Err(cerr(msg("cannot call method on `", tt.as_str(), "`"), *span));
                    },
                };
                let info = match self.find_method(sn.as_str(), method.name.as_str()) {
                    Some((i, j)) => copy_info(&self.methods[i].1[j].1),
                    None => {
                        return Err(cerr(msg2("no method `", method.name.as_str(), "` on `", sn.as_str(), "`"),
                            method.span));
                    },
                };
                if info.params.len() == 0 || args.len() != info.params.len() - 1 {
                    let n = if info.params.len() == 0 { 0 } else { info.params.len() - 1 };
                    let c = uint_to_string(n as u64);
                    let mut m = msg("`", method.name.as_str(), "` expects ");
                    push_str(&mut m, c.as_str());
                    push_str(&mut m, " arg(s) after receiver");
                    return Err(cerr(m, *span));
                }
                assert(types_view(info.params@) =~= sig_of(info).params);
                self.check_args(method.name.as_str(), args, &info.params, 1)?;
                Ok(info.ret)
            },
            Expr::Index { base, index, span } => {
                let bt = self.expr_ty(base)?;
                if !matches!(self.expr_ty(index)?, Type::Int) {
                    return Err(cerr(owned("index must be `int`"), *span));
                }
                match bt {
                    Type::Array(e) => Ok(*e),
                    other => {
                        let tt = other.text();
                        Err(cerr(msg("cannot index `", tt.as_str(), "`"), *span))
                    },
                }
            },
            Expr::Field { base, name, span } => {
                let bt = self.expr_ty(base)?;
                match &bt {
                    Type::Struct(n) => self.field_ty(n.as_str(), name),
                    other => {
                        let tt = other.text();
                        Err(cerr(msg("cannot access field on `", tt.as_str(), "`"), *span))
                    },
                }
            },
            Expr::Array { elems, span } => {
                if elems.len() == 0 {
                    return Err(cerr(owned("empty `[]` requires annotation"), *span));
                }
                let first = self.expr_ty(&elems[0])?;
                let ghost env = self.env();
                let mut i: usize = 1;
                while i < elems.len()
                    invariant
                        1 <= i <= elems@.len(),
                        env == self.env(),
                        expr_type(env, elems@[0]) == Some(first.view()),
                        forall|k: int| 1 <= k < i ==> expr_type(env, #[trigger] elems@[k]) == Some(first.view()),
                    decreases elems@.len() - i,
                {
                    let t = match self.expr_ty(&elems[i]) {
                        Ok(t) => t,
                        Err(e) => {
                            proof {
                                assert(expr_type(env, elems@[i as int]) != Some(first.view()));
                            }
                            return Err(e);
                        },
                    };
                    if !t.same(&first) {
                        proof {
                            assert(expr_type(env, elems@[i as int]) != Some(first.view()));
                        }
                        let a = first.text();
                        let b = t.text();
                        return Err(cerr(msg2("array elements must be `", a.as_str(), "`, found `", b.as_str(), "`"),
                            elems[i].span()));
                    }
                    i = i + 1;
                }
                Ok(Type::Array(Box::new(first)))
            },
            Expr::StructLit { name, fields, span } => {
                let fs = find_struct(&self.structs, name.name.as_str());
                proof {
                    lemma_struct_found(self.structs@, name.name@, fs);
                }
                let ghost env = self.env();
                let ghost declv = match fs {
                    Some(k) => typed_view(self.structs@[k as int].fields@),
                    None => Seq::empty(),
                };
                let si = match fs {
                    Some(i) => i,
                    None => return Err(cerr(msg("unknown struct `", name.name.as_str(), "`"), name.span)),
                };
                let decl = &self.structs[si].fields;
                if fields.len() != decl.len() {
                    let c = uint_to_string(decl.len() as u64);
                    let mut m = msg("`", name.name.as_str(), "` expects ");
                    push_str(&mut m, c.as_str());
                    push_str(&mut m, " field(s)");
                    return Err(cerr(m, *span));
                }
                let mut i: usize = 0;
                while i < fields.len()
                    invariant
                        i <= fields@.len(),
                        decl == &self.structs@[si as int].fields,
                        si < self.structs@.len(),
                        env == self.env(),
                        declv == typed_view(decl@),
                        forall|k: int| 0 <= k < i ==> {
                            let f = #[trigger] fields@[k];
                            match first_named(declv, f.0.name@) {
                                Some(j) => expr_type(env, f.1) == Some(declv[j].1),
                                None => false,
                            }
                        },
                    decreases fields@.len() - i,
                {
                    let fname = &fields[i].0;
                    let exp = match find_var(decl, fname.name.as_str()) {
                        Some(j) => decl[j].1.copy(),
                        None => {
                            proof {
                                let f = fields@[i as int];
                                assert(first_named(declv, f.0.name@) is None);
                            }
                            return Err(cerr(msg2("no field `", fname.name.as_str(), "` on `",
                                name.name.as_str(), "`"), fname.span));
                        },
                    };
                    let got = match self.expr_ty(&fields[i].1) {
                        Ok(t) => t,
                        Err(e) => {
                            proof {
                                let f = fields@[i as int];
                                assert(expr_type(env, f.1) is None);
                            }
                            return Err(e);
                        },
                    };
                    if !got.same(&exp) {
                        proof {
                            let f = fields@[i as int];
                            assert(expr_type(env, f.1) != Some(exp.view()));
                        }
                        let a = exp.text();
                        let b = got.text();
                        let mut m = msg("field `", fname.name.as_str(), "`: expected `");
                        push_str(&mut m, a.as_str());
                        push_str(&mut m, "`, found `");
                        push_str(&mut m, b.as_str());
                        push_str(&mut m, "`");
                        return Err(cerr(m, fields[i].1.span()));
                    }
                    i = i + 1;
                }
                Ok(Type::Struct(name.name.clone()))
            },
        }
    }

    /// Checks each argument against the parameter `offset` places later.
    #[verifier::loop_isolation(false)]
    fn check_args(&self, name: &str, args: &Vec<Expr>, params: &Vec<Type>, offset: usize)
        -> (r: Result<(), CheckError>)
        requires
            args@.len() + offset == params@.len(),
        ensures
            r is Ok <==> args_typed(self.env(), args@, types_view(params@), offset as int),
        decreases args, 1int,
    {
        let plen = params.len();
        let ghost env = self.env();
        let ghost pv = types_view(params@);
        let mut i: usize = 0;
        while i < args.len()
            invariant
                i <= args@.len(),
                args@.len() + offset == params@.len(),
                plen == params@.len(),
                env == self.env(),
                pv == types_view(params@),
                forall|k: int| 0 <= k < i ==> expr_type(env, #[trigger] args@[k]) == Some(pv[k + offset]),
            decreases args@.len() - i,
        {
            let at = match self.expr_ty(&args[i]) {
                Ok(t) => t,
                Err(e) => {
                    proof {
                        assert(expr_type(env, args@[i as int]) != Some(pv[i + offset]));
                    }
                    return Err(e);
                },
            };
            let p = &params[i + offset];
            if !at.same(p) {
                proof {
                    assert(expr_type(env, args@[i as int]) != Some(pv[i + offset]));
                }
                let n = uint_to_string((i + 1) as u64);
                let pt = p.text();
                let a = at.text();
                let mut m = msg("argument ", n.as_str(), " of `");
                push_str(&mut m, name);
                push_str(&mut m, "`: expected `");
                push_str(&mut m, pt.as_str());
                push_str(&mut m, "`, found `");
                push_str(&mut m, a.as_str());
                push_str(&mut m, "`");
                return Err(cerr(m, args[i].span()));
            }
            i = i + 1;
        }
        Ok(())
    }

    /// A call of a user function with signature `info`.
    fn call_info(&self, name: &str, args: &Vec<Expr>, info: &FunInfo, span: Span) -> (r: Result<Type, CheckError>)
        ensures
            typed_result(r, sig_call(self.env(), args@, sig_of(*info))),
        decreases args, 2int,
    {
        if args.len() != info.params.len() {
            let a = uint_to_string(info.params.len() as u64);
            let b = uint_to_string(args.len() as u64);
            let mut m = msg("`", name, "` takes ");
            push_str(&mut m, a.as_str());
            push_str(&mut m, " argument(s), found ");
            push_str(&mut m, b.as_str());
            return Err(cerr(m, span));
        }
        self.check_args(name, args, &info.params, 0)?;
        Ok(info.ret.copy())
    }

    fn arity(&self, n: &str, args: &Vec<Expr>, want: usize, span: Span) -> (r: Result<(), CheckError>)
        ensures
            r is Ok <==> args@.len() == want,
    {
        if args.len() != want {
            let w = uint_to_string(want as u64);
            let mut m = msg("`", n, "` takes ");
            push_str(&mut m, w.as_str());
            push_str(&mut m, " argument(s)");
            return Err(cerr(m, span));
        }
        Ok(())
    }

    fn arg_is(&self, a: &Expr, want: &Type, f: &str, span: Span) -> (r: Result<(), CheckError>)
        ensures
            r is Ok <==> arg_has(self.env(), *a, want.view()),
        decreases a, 4int,
    {
        let t = self.expr_ty(a)?;
        if !t.same(want) {
            let w = want.text();
            let tt = t.text();
            let mut m = msg("`", f, "` expects `");
            push_str(&mut m, w.as_str());
            push_str(&mut m, "`, found `");
            push_str(&mut m, tt.as_str());
            push_str(&mut m, "`");
            return Err(cerr(m, span));
        }
        Ok(())
    }

    /// A call of a built-in or of a declared function.
    fn call(&self, name: &str, args: &Vec<Expr>, span: Span) -> (r: Result<Type, CheckError>)
        ensures
            typed_result(r, call_type(self.env(), name@, args@)),
        decreases args, 3int,
    {
        if str_eq(name, "print") {
            if args.len() != 1 {
                return Err(cerr(owned("`print` takes 1 argument"), span));
            }
            let t = self.expr_ty(&args[0])?;
            if !t.printable() {
                return Err(cerr(owned("cannot print void"), span));
            }
            return Ok(Type::Void);
        }
        if str_eq(name, "len") {
            if args.len() != 1 {
                return Err(cerr(owned("`len` takes 1 argument"), span));
            }
            let t = self.expr_ty(&args[0])?;
            if !matches!(t, Type::Array(_) | Type::Str) {
                let tt = t.text();
                return Err(cerr(msg("`len` expects array or string, found `", tt.as_str(), "`"), span));
            }
            return Ok(Type::Int);
        }
        if str_eq(name, "str_at") {
            self.arity(name, args, 2, span)?;
            self.arg_is(&args[0], &Type::Str, name, span)?;
            self.arg_is(&args[1], &Type::Int, name, span)?;
            return Ok(Type::Str);
        }
        if str_eq(name, "str_sub") {
            self.arity(name, args, 3, span)?;
            self.arg_is(&args[0], &Type::Str, name, span)?;
            self.arg_is(&args[1], &Type::Int, name, span)?;
            self.arg_is(&args[2], &Type::Int, name, span)?;
            return Ok(Type::Str);
        }
        if str_eq(name, "to_string") {
            self.arity(name, args, 1, span)?;
            self.expr_ty(&args[0])?;
            return Ok(Type::Str);
        }
        if str_eq(name, "push") {
            self.arity(name, args, 2, span)?;
            let at = self.expr_ty(&args[0])?;
            let elem = match at {
                Type::Array(e) => e,
                other => {
                    let tt = other.text();
                    return Err(cerr(msg("`push` expects array, found `", tt.as_str(), "`"), span));
                },
            };
            let vt = self.expr_ty(&args[1])?;
            if !vt.same(&elem) {
                let a = elem.text();
                let b = vt.text();
                return Err(cerr(msg2("`push` expects `", a.as_str(), "`, found `", b.as_str(), "`"), span));
            }
            return Ok(Type::Void);
        }
        if str_eq(name, "pop") {
            self.arity(name, args, 1, span)?;
            return match self.expr_ty(&args[0])? {
                Type::Array(e) => Ok(*e),
                other => {
                    let tt = other.text();
                    Err(cerr(msg("`pop` expects array, found `", tt.as_str(), "`"), span))
                },
            };
        }
        if str_eq(name, "input") {
            self.arity(name, args, 0, span)?;
            return Ok(Type::Str);
        }
        match find_fun(&self.functions, name) {
            Some(i) => {
                let info = copy_info(&self.functions[i].1);
                self.call_info(name, args, &info, span)
            },
            None => Err(cerr(msg("undefined function `", name, "`"), span)),
        }
    }
}

impl Checker {
    /// The type and value of a `const` initializer: literals, other
    /// constants, and unary and binary operations on them.
    fn fold<H: Host>(&self, e: &Expr, host: &H) -> (r: Result<(Type, Value), CheckError>)
        requires
            self.consts_typed(),
        ensures
            r matches Ok((t, v)) ==> fold_type(self.env(), *e) == Some(t.view()) && val_has_type(v.view(), t.view()),
            r matches Ok((t, v)) ==> (fold_val(const_vals(self.consts@), *e) matches Some(x) ==> v.view() == x),
            fold_type(self.env(), *e) is Some && !divides(*e) ==> r is Ok,
        decreases e,
    {
        match e {
            Expr::Int { value, .. } => Ok((Type::Int, Value::Int(*value))),
            Expr::Float { text, .. } => Ok((Type::Float, Value::Float(host.parse_literal(text.as_str())))),
            Expr::Bool { value, .. } => Ok((Type::Bool, Value::Bool(*value))),
            Expr::Str { value, .. } => Ok((Type::Str, Value::Str(value.clone()))),
            Expr::Var { name } => match find_const(&self.consts, name.name.as_str()) {
                Some(i) => {
                    proof {
                        lemma_first_named_names(consts_view(self.consts@), const_vals(self.consts@), name.name@);
                    }
                    assert(val_has_type(self.consts@[i as int].2.view(), self.consts@[i as int].1.view()));
                    Ok((self.consts[i].1.copy(), copy_value(&self.consts[i].2)))
                },
                None => Err(cerr(msg("`", name.name.as_str(), "` is not a compile-time constant"), name.span)),
            },
            Expr::Unary { op, expr, span } => {
                let (t, v) = self.fold(expr, host)?;
                match (op, &t, &v) {
                    (UnOp::Neg, Type::Int, Value::Int(n)) => {
                        let m = if *n == i64::MIN { *n } else { -*n };
                        Ok((Type::Int, Value::Int(m)))
                    },
                    (UnOp::Neg, Type::Float, Value::Float(n)) => Ok((Type::Float, Value::Float(float_neg(*n)))),
                    (UnOp::Not, Type::Bool, Value::Bool(b)) => Ok((Type::Bool, Value::Bool(!*b))),
                    _ => Err(cerr(owned("invalid unary in const"), *span)),
                }
            },
            Expr::Binary { op, lhs, rhs, span } => {
                let (lt, lv) = self.fold(lhs, host)?;
                let (rt, rv) = self.fold(rhs, host)?;
                match fold_bin(*op, &lt, &lv, &rt, &rv, host) {
                    Ok(x) => Ok(x),
                    Err(m) => Err(cerr(m, *span)),
                }
            },
            other => Err(cerr(owned("not a compile-time constant expression"), other.span())),
        }
    }

    fn declare_struct(&mut self, s: &StructDecl) -> (r: Result<(), CheckError>)
        ensures
            final(self).consts == old(self).consts,
            final(self).scopes == old(self).scopes,
            final(self).ret == old(self).ret,
            final(self).loop_depth == old(self).loop_depth,
            final(self).top_level == old(self).top_level,
            match declared_struct(old(self).env(), *s) {
                Some(e) => r is Ok && final(self).env() == e,
                None => r is Err,
            },
    {
        let fs0 = find_struct(&self.structs, s.name.name.as_str());
        proof {
            lemma_struct_found(self.structs@, s.name.name@, fs0);
        }
        if fs0.is_some() {
            return Err(cerr(msg("结构体 `", s.name.name.as_str(), "` 重复定义"), s.name.span));
        }
        let ghost names = struct_names_of(self.env());
        let ghost fds = s.fields@;
        let mut fields: Vec<(String, Type)> = Vec::new();
        assert(typed_view(fields@) =~= Seq::empty());
        let mut i: usize = 0;
        while i < s.fields.len()
            invariant
                i <= s.fields@.len(),
                fds == s.fields@,
                names == struct_names_of(self.env()),
                struct_fields(names, fds, i as nat) == Some(typed_view(fields@)),
            decreases s.fields@.len() - i,
        {
            let f = &s.fields[i];
            let ty = match self.ty(&f.ty, f.name.span) {
                Ok(t) => t,
                Err(e) => {
                    proof {
                        lemma_fields_stay_rejected(names, fds, (i + 1) as nat, fds.len());
                    }
                    return Err(e);
                },
            };
            if find_var(&fields, f.name.name.as_str()).is_some() {
                proof {
                    lemma_fields_stay_rejected(names, fds, (i + 1) as nat, fds.len());
                }
                return Err(cerr(msg("字段 `", f.name.name.as_str(), "` 重复"), f.name.span));
            }
            let ghost before = typed_view(fields@);
            let ghost tv = ty.view();
            fields.push((f.name.name.clone(), ty));
            assert(typed_view(fields@) =~= before.push((f.name.name@, tv)));
            i = i + 1;
        }
        let ghost fv = typed_view(fields@);
        let ghost old_structs = structs_view(self.structs@);
        self.structs.push(StructInfo { name: s.name.name.clone(), fields });
        assert(structs_view(self.structs@) =~= old_structs.push((s.name.name@, fv)));
        Ok(())
    }

    fn declare_const<H: Host>(&mut self, c: &ConstDecl, host: &H) -> (r: Result<(), CheckError>)
        requires
            old(self).consts_typed(),
        ensures
            final(self).consts_typed(),
            final(self).scopes == old(self).scopes,
            final(self).ret == old(self).ret,
            final(self).loop_depth == old(self).loop_depth,
            final(self).top_level == old(self).top_level,
            match declared_const(old(self).env(), *c) {
                Some(e) => (r is Ok ==> final(self).env() == e) && (!divides(c.value) ==> r is Ok),
                None => r is Err,
            },
            r is Ok ==> const_vals(final(self).consts@).len() == const_vals(old(self).consts@).len() + 1
                && const_vals(final(self).consts@).drop_last() == const_vals(old(self).consts@)
                && const_vals(final(self).consts@).last().0 == c.name.name@
                && (fold_val(const_vals(old(self).consts@), c.value) matches Some(x)
                    ==> const_vals(final(self).consts@).last().1 == x),
            r is Err ==> final(self).consts == old(self).consts,
    {
        let n = c.name.name.as_str();
        let fs0 = find_struct(&self.structs, n);
        proof {
            lemma_struct_found(self.structs@, c.name.name@, fs0);
        }
        if builtin(n) || fs0.is_some() || find_fun(&self.functions, n).is_some()
            || find_const(&self.consts, n).is_some() {
            return Err(cerr(msg("`", n, "` 已定义"), c.name.span));
        }
        let declared = self.ty(&c.ty, c.name.span)?;
        if !declared.is_scalar() {
            let d = declared.text();
            return Err(cerr(msg("const 类型必须是标量，实际是 `", d.as_str(), "`"), c.span));
        }
        let (vt, val) = self.fold(&c.value, host)?;
        if !vt.same(&declared) {
            let d = declared.text();
            let v = vt.text();
            let mut m = msg("const `", n, "` declared `");
            push_str(&mut m, d.as_str());
            push_str(&mut m, "` but value is `");
            push_str(&mut m, v.as_str());
            push_str(&mut m, "`");
            return Err(cerr(m, c.span));
        }
        let ghost cv = consts_view(self.consts@);
        let ghost dv = declared.view();
        let ghost before = self.consts@;
        self.consts.push((c.name.name.clone(), declared, val));
        assert(consts_view(self.consts@) =~= cv.push((c.name.name@, dv)));
        assert(const_vals(self.consts@).drop_last() =~= const_vals(before));
        assert forall|i: int| 0 <= i < self.consts@.len()
            implies val_has_type((#[trigger] self.consts@[i]).2.view(), self.consts@[i].1.view()) by {
            if i < before.len() {
                assert(self.consts@[i] == before[i]);
            }
        }
        Ok(())
    }

    fn declare_fun(&mut self, f: &FunDecl) -> (r: Result<(), CheckError>)
        ensures
            final(self).consts == old(self).consts,
            final(self).scopes == old(self).scopes,
            final(self).ret == old(self).ret,
            final(self).loop_depth == old(self).loop_depth,
            final(self).top_level == old(self).top_level,
            match declared_fun(old(self).env(), *f) {
                Some(e) => r is Ok && final(self).env() == e,
                None => r is Err,
            },
    {
        let ghost env0 = self.env();
        let ghost names = struct_names_of(env0);
        let ghost ps = f.params@;
        let fname = f.name.name.as_str();
        if f.on_type.is_none() && builtin(fname) {
            return Err(cerr(msg("`", fname, "` 是内建函数，不可重定义"), f.name.span));
        }
        let mut params: Vec<Type> = Vec::new();
        let mut seen: Vec<(String, Type)> = Vec::new();
        let mut i: usize = 0;
        while i < f.params.len()
            invariant
                i <= f.params@.len(),
                params@.len() == i,
                ps == f.params@,
                env0 == self.env(),
                names == struct_names_of(env0),
                self == old(self),
                param_types(names, ps, i as nat) == Some(types_view(params@)),
                seen@.len() == i,
                forall|j: int| 0 <= j < i ==> (#[trigger] typed_view(seen@)[j]).0 == ps[j].name.name@,
            decreases f.params@.len() - i,
        {
            let p = &f.params[i];
            let ty = match self.ty(&p.ty, p.name.span) {
                Ok(t) => t,
                Err(e) => {
                    proof {
                        lemma_param_types_stay_rejected(names, ps, (i + 1) as nat, ps.len());
                    }
                    return Err(e);
                },
            };
            let found = find_var(&seen, p.name.name.as_str());
            proof {
                lemma_first_named(typed_view(seen@), p.name.name@);
                if found is Some {
                    let k = first_named(typed_view(seen@), p.name.name@)->Some_0;
                    assert(ps[k].name.name@ == ps[i as int].name.name@);
                } else {
                    assert forall|j: int| 0 <= j < i implies #[trigger] ps[j].name.name@ != ps[i as int].name.name@ by {
                        assert(typed_view(seen@)[j].0 == ps[j].name.name@);
                    }
                }
            }
            if found.is_some() {
                proof {
                    lemma_param_types_stay_rejected(names, ps, (i + 1) as nat, ps.len());
                }
                return Err(cerr(msg("duplicate parameter `", p.name.name.as_str(), "`"), p.name.span));
            }
            let ghost tv = ty.view();
            let ghost before = types_view(params@);
            let ghost seen_before = typed_view(seen@);
            seen.push((p.name.name.clone(), Type::Void));
            params.push(ty);
            assert(types_view(params@) =~= before.push(tv));
            assert(typed_view(seen@) =~= seen_before.push((p.name.name@, TypeV::Void)));
            i = i + 1;
        }
        let ret = self.ty(&f.ret, f.span)?;
        let ghost sig = FunSig { params: types_view(params@), ret: ret.view() };
        let info = FunInfo { params, ret };
        assert(sig_of(info) == sig) by {
            assert(sig_of(info).params =~= sig.params);
        }
        match &f.on_type {
            Some(on) => {
                let on_name = on.name.as_str();
                let fs0 = find_struct(&self.structs, on_name);
                proof {
                    lemma_struct_found(self.structs@, on.name@, fs0);
                }
                if fs0.is_none() {
                    return Err(cerr(msg("未知结构体 `", on_name, "`"), on.span));
                }
                let receiver_ok = info.params.len() > 0 && match &info.params[0] {
                    Type::Struct(n) => str_eq(n.as_str(), on_name),
                    _ => false,
                };
                proof {
                    if info.params@.len() > 0 {
                        assert(sig.params[0] == info.params@[0].view());
                    }
                }
                if !receiver_ok {
                    return Err(cerr(msg("方法接收者类型必须是 `", on_name, "`"), f.name.span));
                }
                if find_fun(&self.functions, fname).is_some() {
                    return Err(cerr(msg("方法 `", fname, "` 与同名函数冲突"), f.name.span));
                }
                let ghost mv = self.env().methods;
                let mut k: usize = 0;
                loop
                    invariant
                        k <= self.methods@.len(),
                        mv == methods_view(self.methods@),
                        on_name@ == on.name@,
                        forall|j: int| 0 <= j < k ==> (#[trigger] self.methods@[j]).0@ != on.name@,
                    ensures
                        k == self.methods@.len() || self.methods@[k as int].0@ == on.name@,
                    decreases self.methods@.len() - k,
                {
                    if k >= self.methods.len() || str_eq(self.methods[k].0.as_str(), on_name) {
                        break;
                    }
                    k = k + 1;
                }
                proof {
                    assert forall|j: int| 0 <= j < k implies (#[trigger] mv[j]).0 != on.name@ by {
                        assert(self.methods@[j].0@ != on.name@);
                    }
                    if k < self.methods@.len() {
                        lemma_first_named_at(mv, on.name@, k as int);
                    } else {
                        lemma_first_named(mv, on.name@);
                        if first_named(mv, on.name@) is Some {
                            let q = first_named(mv, on.name@)->Some_0;
                            assert(self.methods@[q].0@ != on.name@);
                        }
                    }
                }
                if k == self.methods.len() {
                    self.methods.push((owned(on_name), Vec::new()));
                    assert(sigs_view(self.methods@[k as int].1@) =~= Seq::empty());
                    assert(methods_view(self.methods@) =~= mv.push((on.name@, Seq::empty())));
                }
                let ghost ms = methods_view(self.methods@);
                if find_fun(&self.methods[k].1, fname).is_some() {
                    return Err(cerr(msg("方法 `", fname, "` 已定义"), f.name.span));
                }
                let mut entry = (String::new(), Vec::new());
                std::mem::swap(&mut entry, &mut self.methods[k]);
                let ghost before = sigs_view(entry.1@);
                entry.1.push((owned(fname), info));
                assert(sigs_view(entry.1@) =~= before.push((f.name.name@, sig)));
                self.methods.set(k, entry);
                assert(methods_view(self.methods@) =~= ms.update(k as int, (ms[k as int].0, ms[k as int].1.push((f.name.name@, sig)))));
                Ok(())
            },
            None => {
                if str_eq(fname, "main") && (f.params.len() != 0 || !f.ret.is_void()) {
                    return Err(cerr(owned("`main` 必须是 `fun main() -> void`"), f.name.span));
                }
                if find_fun(&self.functions, fname).is_some() || self.method_anywhere(fname) {
                    return Err(cerr(msg("函数 `", fname, "` 重复定义"), f.name.span));
                }
                let ghost fv = sigs_view(self.functions@);
                self.functions.push((owned(fname), info));
                assert(sigs_view(self.functions@) =~= fv.push((f.name.name@, sig)));
                Ok(())
            },
        }
    }

    /// Every constant's value has the constant's type.
    pub closed spec fn consts_typed(&self) -> bool {
        forall|i: int| 0 <= i < self.consts@.len()
            ==> val_has_type((#[trigger] self.consts@[i]).2.view(), self.consts@[i].1.view())
    }

    /// The declarations are the same in both states.
    pub closed spec fn same_tables(&self, other: &Checker) -> bool {
        &&& self.functions == other.functions
        &&& self.methods == other.methods
        &&& self.structs == other.structs
        &&& self.consts == other.consts
    }

    fn check_fun(&mut self, f: &FunDecl) -> (r: Result<(), CheckError>)
        ensures
            final(self).same_tables(old(self)),
            r is Ok <==> fun_ok(old(self).env(), *f),
    {
        let ghost env0 = old(self).env();
        let ghost names = struct_names_of(env0);
        let ghost ps = f.params@;
        let mut i: usize = 0;
        while i < f.params.len()
            invariant
                i <= f.params@.len(),
                ps == f.params@,
                names == struct_names_of(self.env()),
                params_scope(names, ps, i as nat) is Some,
            decreases f.params@.len() - i,
        {
            match self.ty(&f.params[i].ty, f.params[i].name.span) {
                Ok(_) => {},
                Err(e) => {
                    proof {
                        lemma_params_stay_rejected(names, ps, (i + 1) as nat, ps.len());
                    }
                    return Err(e);
                },
            }
            i = i + 1;
        }
        let ret = self.ty(&f.ret, f.span)?;
        self.ret = ret;
        self.top_level = false;
        self.loop_depth = 0;
        let mut scope: Vec<(String, Type)> = Vec::new();
        let mut j: usize = 0;
        assert(typed_view(scope@) =~= Seq::empty());
        while j < f.params.len()
            invariant
                j <= f.params@.len(),
                ps == f.params@,
                names == struct_names_of(self.env()),
                self.same_tables(old(self)),
                params_scope(names, ps, ps.len()) is Some,
                params_scope(names, ps, j as nat) == Some(typed_view(scope@)),
            decreases f.params@.len() - j,
        {
            proof {
                lemma_params_prefix(names, ps, (j + 1) as nat, ps.len());
            }
            let p = &f.params[j];
            let ty = match self.ty(&p.ty, p.name.span) {
                Ok(t) => t,
                Err(e) => return Err(e),
            };
            let ghost tv = ty.view();
            let ghost before = typed_view(scope@);
            match find_var(&scope, p.name.name.as_str()) {
                Some(k) => {
                    scope.set(k, (p.name.name.clone(), ty));
                    assert(typed_view(scope@) =~= before.update(k as int, (p.name.name@, tv)));
                },
                None => {
                    scope.push((p.name.name.clone(), ty));
                    assert(typed_view(scope@) =~= before.push((p.name.name@, tv)));
                },
            }
            j = j + 1;
        }
        self.scopes = Vec::new();
        self.scopes.push(scope);
        assert(self.env().scopes =~= seq![typed_view(scope@)]);
        proof {
            self.lemma_same_decls_tables(old(self));
        }
        let r = self.check_block(&f.body);
        if r.is_err() {
            return r;
        }
        if !matches!(self.ret, Type::Void) && !always_returns(&f.body) {
            let t = self.ret.text();
            let m = msg2("function `", f.name.name.as_str(), "` must return `", t.as_str(), "` on all paths");
            return Err(cerr(m, f.name.span));
        }
        Ok(())
    }

    proof fn lemma_same_decls_tables(&self, other: &Checker)
        requires
            self.same_tables(other),
        ensures
            self.env() == with_scopes(other.env(), self.env().scopes),
            struct_names_of(self.env()) == struct_names_of(other.env()),
    {
    }

    fn check_block(&mut self, b: &Block) -> (r: Result<(), CheckError>)
        requires
            old(self).scopes@.len() >= 1,
        ensures
            final(self).scopes@.len() >= old(self).scopes@.len(),
            r is Ok ==> final(self).scopes@.len() == old(self).scopes@.len(),
            final(self).same_decls(old(self)),
            match block_scopes(old(self).env(), old(self).ctx(), *b) {
                Some(sc) => r is Ok && final(self).env().scopes == sc,
                None => r is Err,
            },
        decreases b, 1int,
    {
        let ghost sv = old(self).env().scopes;
        self.scopes.push(Vec::new());
        assert(typed_view(self.scopes@[sv.len() as int]@) =~= Seq::empty());
        assert(self.env().scopes =~= sv.push(Seq::empty()));
        let r = self.check_stmts(&b.stmts);
        let ghost inner = self.env().scopes;
        self.scopes.pop();
        assert(r is Ok ==> self.env().scopes =~= inner.drop_last());
        r
    }

    fn check_stmts(&mut self, ss: &Vec<Stmt>) -> (r: Result<(), CheckError>)
        requires
            old(self).scopes@.len() >= 1,
        ensures
            final(self).scopes@.len() >= old(self).scopes@.len(),
            r is Ok ==> final(self).scopes@.len() == old(self).scopes@.len(),
            final(self).same_decls(old(self)),
            match stmts_scopes(old(self).env(), old(self).ctx(), ss@, ss@.len()) {
                Some(sc) => r is Ok && final(self).env().scopes == sc,
                None => r is Err,
            },
        decreases ss, 0int,
    {
        let ghost env0 = old(self).env();
        let ghost ctx0 = old(self).ctx();
        let mut i: usize = 0;
        while i < ss.len()
            invariant
                i <= ss@.len(),
                self.scopes@.len() == old(self).scopes@.len(),
                old(self).scopes@.len() >= 1,
                self.same_decls(old(self)),
                env0 == old(self).env(),
                ctx0 == old(self).ctx(),
                stmts_scopes(env0, ctx0, ss@, i as nat) == Some(self.env().scopes),
            decreases ss@.len() - i,
        {
            proof {
                self.lemma_same_decls(old(self));
            }
            let r = self.check_stmt(&ss[i]);
            if r.is_err() {
                proof {
                    lemma_stmts_stay_rejected(env0, ctx0, ss@, (i + 1) as nat, ss@.len());
                }
                return r;
            }
            i = i + 1;
        }
        Ok(())
    }

    /// Checks the body of a loop with its own variable scope.
    fn check_loop_body(&mut self, var: &Ident, t: Type, body: &Block) -> (r: Result<(), CheckError>)
        requires
            old(self).scopes@.len() >= 1,
        ensures
            final(self).scopes@.len() >= old(self).scopes@.len(),
            r is Ok ==> final(self).scopes@.len() == old(self).scopes@.len(),
            final(self).same_decls(old(self)),
            match loop_scopes(old(self).env(), old(self).ctx(), var.name@, t.view(), *body) {
                Some(sc) => r is Ok && final(self).env().scopes == sc,
                None => r is Err,
            },
        decreases body, 1int,
    {
        let ghost sv = old(self).env().scopes;
        let ghost tv = t.view();
        self.scopes.push(Vec::new());
        assert(typed_view(self.scopes@[sv.len() as int]@) =~= Seq::empty());
        assert(self.env().scopes =~= sv.push(Seq::empty()));
        assert(first_named(Seq::<(Seq<char>, TypeV)>::empty(), var.name@) is None);
        self.declare_var(var.name.as_str(), t, var.span)?;
        assert(self.env().scopes =~= sv.push(Seq::empty().push((var.name@, tv))));
        let saved = self.loop_depth;
        self.loop_depth = if saved < u32::MAX { saved + 1 } else { saved };
        let r = self.check_stmts(&body.stmts);
        let ghost inner = self.env().scopes;
        self.loop_depth = saved;
        self.scopes.pop();
        assert(r is Ok ==> self.env().scopes =~= inner.drop_last());
        r
    }

    fn check_stmt(&mut self, s: &Stmt) -> (r: Result<(), CheckError>)
        requires
            old(self).scopes@.len() >= 1,
        ensures
            final(self).scopes@.len() >= old(self).scopes@.len(),
            r is Ok ==> final(self).scopes@.len() == old(self).scopes@.len(),
            final(self).same_decls(old(self)),
            match stmt_scopes(old(self).env(), old(self).ctx(), *s) {
                Some(sc) => r is Ok && final(self).env().scopes == sc,
                None => r is Err,
            },
        decreases s, 2int,
    {
        let ghost env = old(self).env();
        match s {
            Stmt::Let(l) => {
                let empty = match &l.value {
                    Expr::Array { elems, .. } => elems.len() == 0,
                    _ => false,
                };
                let vt = if empty {
                    match &l.ty {
                        Some(t) => self.ty(t, l.name.span)?,
                        None => return Err(cerr(owned("空数组 `[]` 需要类型标注，如 `int[]`"), l.name.span)),
                    }
                } else {
                    self.expr_ty(&l.value)?
                };
                let declared = match &l.ty {
                    Some(t) => {
                        let t = self.ty(t, l.name.span)?;
                        if empty {
                            if !matches!(t, Type::Array(_)) {
                                let tt = t.text();
                                return Err(cerr(msg("`[]` 需要数组类型，实际是 `", tt.as_str(), "`"), l.span));
                            }
                        } else if !t.same(&vt) {
                            let a = t.text();
                            let b = vt.text();
                            let mut m = msg("let `", l.name.name.as_str(), "` 标注 `");
                            push_str(&mut m, a.as_str());
                            push_str(&mut m, "`，但初始值是 `");
                            push_str(&mut m, b.as_str());
                            push_str(&mut m, "`");
                            return Err(cerr(m, l.span));
                        }
                        t
                    },
                    None => vt,
                };
                self.declare_var(l.name.name.as_str(), declared, l.name.span)
            },
            Stmt::Assign(a) => {
                if a.via_deref {
                    match &a.value {
                        Expr::Binary { lhs, rhs, .. } => {
                            let pt = self.expr_ty(lhs)?;
                            self.expr_ty(rhs)?;
                            let tt = pt.text();
                            return Err(cerr(msg("`*=` 需要引用，实际是 `", tt.as_str(), "`"), a.span));
                        },
                        _ => {},
                    }
                }
                let n = a.name.name.as_str();
                if find_const(&self.consts, n).is_some() {
                    return Err(cerr(msg("不能给 const `", n, "` 赋值"), a.span));
                }
                let mut cur = match self.lookup(n) {
                    Some(t) => t,
                    None => return Err(cerr(msg("未定义的变量 `", n, "`"), a.name.span)),
                };
                let vt = self.expr_ty(&a.value)?;
                match &a.index {
                    Some(idx) => {
                        if !matches!(self.expr_ty(idx)?, Type::Int) {
                            return Err(cerr(owned("下标类型必须是 `int`"), idx.span()));
                        }
                        cur = match cur {
                            Type::Array(e) => *e,
                            other => {
                                let tt = other.text();
                                return Err(cerr(msg("无法对 `", tt.as_str(), "` 做下标访问"), a.name.span));
                            },
                        };
                    },
                    None => {},
                }
                let ghost base = cur.view();
                let ghost fs = a.fields@;
                assert(fs.take(0) =~= Seq::<Ident>::empty());
                assert(assign_ok(env, *a) <==> field_path_type(env, base, fs) == Some(vt.view()));
                let mut i: usize = 0;
                while i < a.fields.len()
                    invariant
                        i <= a.fields@.len(),
                        fs == a.fields@,
                        env == self.env(),
                        assign_ok(env, *a) <==> field_path_type(env, base, fs) == Some(vt.view()),
                        stmt_scopes(env, old(self).ctx(), *s) == (if assign_ok(env, *a) { Some(env.scopes) } else { None }),
                        field_path_type(env, base, fs.take(i as int)) == Some(cur.view()),
                    decreases a.fields@.len() - i,
                {
                    let f = &a.fields[i];
                    assert(fs.take(i + 1).drop_last() =~= fs.take(i as int));
                    assert(fs.take(i + 1).last() == *f);
                    cur = match &cur {
                        Type::Struct(sn) => match self.field_ty(sn.as_str(), f) {
                            Ok(t) => t,
                            Err(e) => {
                                proof {
                                    lemma_path_stays_undefined(env, base, fs, i + 1);
                                }
                                return Err(e);
                            },
                        },
                        other => {
                            proof {
                                lemma_path_stays_undefined(env, base, fs, i + 1);
                            }
                            let tt = other.text();
                            return Err(cerr(msg("无法在 `", tt.as_str(), "` 上访问字段"), f.span));
                        },
                    };
                    i = i + 1;
                }
                assert(fs.take(fs.len() as int) =~= fs);
                if !vt.same(&cur) {
                    let x = vt.text();
                    let y = cur.text();
                    return Err(cerr(msg2("不能把 `", x.as_str(), "` 赋给 `", y.as_str(), "`"), a.span));
                }
                Ok(())
            },
            Stmt::If(i) => self.check_if(i),
            Stmt::While(w) => {
                if !matches!(self.expr_ty(&w.cond)?, Type::Bool) {
                    return Err(cerr(owned("while 条件必须是 `bool`"), w.cond.span()));
                }
                let saved = self.loop_depth;
                self.loop_depth = if saved < u32::MAX { saved + 1 } else { saved };
                let r = self.check_block(&w.body);
                self.loop_depth = saved;
                r
            },
            Stmt::For(f) => {
                match &f.iter {
                    Expr::Range { start, end, span } => {
                        let st = self.expr_ty(start)?;
                        let ok = matches!(st, Type::Int) && matches!(self.expr_ty(end)?, Type::Int);
                        if !ok {
                            return Err(cerr(owned("范围两端类型必须是 `int`"), *span));
                        }
                        self.check_loop_body(&f.var, Type::Int, &f.body)
                    },
                    _ => {
                        let it = self.expr_ty(&f.iter)?;
                        let elem = match it {
                            Type::Array(e) => *e,
                            other => {
                                let tt = other.text();
                                return Err(cerr(msg("for-in 需要数组，实际是 `", tt.as_str(), "`"), f.iter.span()));
                            },
                        };
                        self.check_loop_body(&f.var, elem, &f.body)
                    },
                }
            },
            Stmt::Break(sp) | Stmt::Continue(sp) => {
                if self.loop_depth == 0 {
                    return Err(cerr(owned("`break`/`continue` 只能用在循环内"), *sp));
                }
                Ok(())
            },
            Stmt::Return(r) => {
                if self.top_level {
                    return Err(cerr(owned("`return` 只能用在函数内"), r.span));
                }
                let ret_void = matches!(self.ret, Type::Void);
                match &r.value {
                    None => {
                        if ret_void {
                            Ok(())
                        } else {
                            let t = self.ret.text();
                            Err(cerr(msg("此处必须返回 `", t.as_str(), "`"), r.span))
                        }
                    },
                    Some(e) => {
                        if ret_void {
                            return Err(cerr(owned("void 函数不能返回值"), r.span));
                        }
                        let t = self.expr_ty(e)?;
                        if !t.same(&self.ret) {
                            let a = self.ret.text();
                            let b = t.text();
                            return Err(cerr(msg2("期望返回类型 `", a.as_str(), "`，实际是 `", b.as_str(), "`"), r.span));
                        }
                        Ok(())
                    },
                }
            },
            Stmt::Expr(e) => {
                self.expr_ty(&e.expr)?;
                Ok(())
            },
            Stmt::Block(b) => self.check_block(b),
        }
    }

    fn check_if(&mut self, i: &IfStmt) -> (r: Result<(), CheckError>)
        requires
            old(self).scopes@.len() >= 1,
        ensures
            final(self).scopes@.len() >= old(self).scopes@.len(),
            r is Ok ==> final(self).scopes@.len() == old(self).scopes@.len(),
            final(self).same_decls(old(self)),
            match if_scopes(old(self).env(), old(self).ctx(), *i) {
                Some(sc) => r is Ok && final(self).env().scopes == sc,
                None => r is Err,
            },
        decreases i, 1int,
    {
        if !matches!(self.expr_ty(&i.cond)?, Type::Bool) {
            return Err(cerr(owned("if 条件必须是 `bool`"), i.cond.span()));
        }
        self.check_block(&i.then_block)?;
        proof {
            self.lemma_same_decls(old(self));
        }
        match &i.else_branch {
            None => Ok(()),
            Some(ElseBranch::Block(b)) => self.check_block(b),
            Some(ElseBranch::If(n)) => self.check_if(n),
        }
    }
}

/// Once a field declaration is rejected, no longer prefix is accepted.
proof fn lemma_fields_stay_rejected(names: Seq<Seq<char>>, fs: Seq<FieldDecl>, k: nat, n: nat)
    requires
        k <= n,
        struct_fields(names, fs, k) is None,
    ensures
        struct_fields(names, fs, n) is None,
    decreases n - k,
{
    if k < n {
        lemma_fields_stay_rejected(names, fs, k + 1, n);
    }
}

/// Once a parameter is rejected, no longer prefix is accepted.
proof fn lemma_param_types_stay_rejected(names: Seq<Seq<char>>, ps: Seq<Param>, k: nat, n: nat)
    requires
        k <= n,
        param_types(names, ps, k) is None,
    ensures
        param_types(names, ps, n) is None,
    decreases n - k,
{
    if k < n {
        lemma_param_types_stay_rejected(names, ps, k + 1, n);
    }
}

/// Once a parameter's type is unknown, no longer prefix has a scope.
proof fn lemma_params_stay_rejected(names: Seq<Seq<char>>, ps: Seq<Param>, k: nat, n: nat)
    requires
        k <= n,
        params_scope(names, ps, k) is None,
    ensures
        params_scope(names, ps, n) is None,
    decreases n - k,
{
    if k < n {
        lemma_params_stay_rejected(names, ps, k + 1, n);
    }
}

/// Every prefix of parameters with a scope has a scope itself.
proof fn lemma_params_prefix(names: Seq<Seq<char>>, ps: Seq<Param>, k: nat, n: nat)
    requires
        k <= n,
        params_scope(names, ps, n) is Some,
    ensures
        params_scope(names, ps, k) is Some,
{
    if params_scope(names, ps, k) is None {
        lemma_params_stay_rejected(names, ps, k, n);
    }
}

/// A prefix of accepted declarations is accepted.
proof fn lemma_declared_prefix(env: Env, items: Seq<Item>, pass: int, k: nat, n: nat)
    requires
        k <= n,
        declared_through(env, items, pass, n) is Some,
    ensures
        declared_through(env, items, pass, k) is Some,
    decreases n - k,
{
    if k < n {
        lemma_declared_prefix(env, items, pass, k + 1, n);
    }
}

/// A prefix of accepted top-level statements is accepted.
proof fn lemma_top_prefix(env: Env, items: Seq<Item>, k: nat, n: nat)
    requires
        k <= n,
        top_scopes(env, items, n) is Some,
    ensures
        top_scopes(env, items, k) is Some,
    decreases n - k,
{
    if k < n {
        lemma_top_prefix(env, items, k + 1, n);
    }
}

/// Whether a function checks does not depend on the scopes around it.
proof fn lemma_fun_ok_scopes(env: Env, sc: Seq<Seq<(Seq<char>, TypeV)>>, f: FunDecl)
    ensures
        fun_ok(with_scopes(env, sc), f) == fun_ok(env, f),
{
    assert(struct_names_of(with_scopes(env, sc)) == struct_names_of(env));
    assert forall|x: Seq<Seq<(Seq<char>, TypeV)>>| with_scopes(with_scopes(env, sc), x) == with_scopes(env, x) by {}
}

/// Once a prefix of the statements is rejected, every longer one is.
proof fn lemma_stmts_stay_rejected(env: Env, ctx: StmtCtx, ss: Seq<Stmt>, k: nat, n: nat)
    requires
        k <= n,
        stmts_scopes(env, ctx, ss, k) is None,
    ensures
        stmts_scopes(env, ctx, ss, n) is None,
    decreases n - k,
{
    if k < n {
        lemma_stmts_stay_rejected(env, ctx, ss, k + 1, n);
    }
}

/// Once a prefix of a field path has no type, the whole path has none.
proof fn lemma_path_stays_undefined(env: Env, t: TypeV, fs: Seq<Ident>, k: int)
    requires
        0 <= k <= fs.len(),
        field_path_type(env, t, fs.take(k)) is None,
    ensures
        field_path_type(env, t, fs) is None,
    decreases fs.len() - k,
{
    if k < fs.len() {
        assert(fs.take(k + 1).drop_last() =~= fs.take(k));
        lemma_path_stays_undefined(env, t, fs, k + 1);
    } else {
        assert(fs.take(k) =~= fs);
    }
}

/// Whether `cs` are the constants that checking `items` gives: named as the
/// program declares them, in order, each with the value its initialiser
/// folds to where that value is known without floating point.
pub open spec fn checked_consts(items: Seq<Item>, cs: Seq<(String, Value)>) -> bool {
    &&& program_env(items) matches Some(e) && cs.len() == e.consts.len()
        && forall|k: int| 0 <= k < cs.len() ==> (#[trigger] cs[k]).0@ == e.consts[k].0
    &&& consts_folded(Seq::new(cs.len(), |k: int| (cs[k].0@, cs[k].1.view())), const_inits(items, items.len()))
}

/// Checks a program: struct, function and constant declarations first,
/// then function bodies, then the top-level statements. Gives back the
/// folded value of every `const`.
#[verifier::rlimit(60)]
pub fn check_program<H: Host>(program: &Program, host: &H) -> (r: Result<Vec<(String, Value)>, CheckError>)
    ensures
        r is Ok ==> program_ok(program.items@),
        program_ok(program.items@) && consts_fold_surely(program.items@) ==> r is Ok,
        r matches Ok(v) ==> checked_consts(program.items@, v@),
{
    let mut c = Checker {
        functions: Vec::new(),
        methods: Vec::new(),
        structs: Vec::new(),
        consts: Vec::new(),
        scopes: Vec::new(),
        ret: Type::Void,
        loop_depth: 0,
        top_level: true,
    };
    c.scopes.push(Vec::new());
    assert(typed_view(c.scopes@[0]@) =~= Seq::empty());
    assert(c.env() =~= initial_env()) by {
        assert(c.env().scopes =~= initial_env().scopes);
        assert(c.env().functions =~= Seq::empty());
        assert(c.env().methods =~= Seq::empty());
        assert(c.env().structs =~= Seq::empty());
        assert(c.env().consts =~= Seq::empty());
    }
    let items = &program.items;
    let ghost its = items@;
    let ghost good = program_ok(its) && consts_fold_surely(its);
    let mut i: usize = 0;
    while i < items.len()
        invariant
            i <= items@.len(),
            its == items@,
            its == program.items@,
            c.scopes@.len() == 1,
            c.env().scopes == initial_env().scopes,
            c.consts_typed(),
            declared_through(initial_env(), its, 0, i as nat) == Some(c.env()),
            good == (program_ok(its) && consts_fold_surely(its)),
            c.consts@.len() == 0,
        decreases items@.len() - i,
    {
        proof {
            if good {
                assert(program_env(its) is Some);
                assert(declared_through(initial_env(), its, 0, its.len()) is Some);
                lemma_declared_prefix(initial_env(), its, 0, (i + 1) as nat, its.len());
            }
        }
        match &items[i] {
            Item::Struct(s) => {
                assert(good ==> declared_struct(c.env(), *s) is Some);
                c.declare_struct(s)?
            },
            _ => {},
        }
        i = i + 1;
    }
    let ghost e1 = c.env();
    i = 0;
    while i < items.len()
        invariant
            i <= items@.len(),
            its == items@,
            its == program.items@,
            c.scopes@.len() == 1,
            c.env().scopes == initial_env().scopes,
            c.consts_typed(),
            declared_through(initial_env(), its, 0, its.len()) == Some(e1),
            declared_through(e1, its, 1, i as nat) == Some(c.env()),
            good == (program_ok(its) && consts_fold_surely(its)),
            c.consts@.len() == 0,
        decreases items@.len() - i,
    {
        proof {
            if good {
                assert(program_env(its) is Some);
                assert(declared_through(e1, its, 1, its.len()) is Some);
                lemma_declared_prefix(e1, its, 1, (i + 1) as nat, its.len());
            }
        }
        match &items[i] {
            Item::Fun(f) => {
                assert(good ==> declared_fun(c.env(), *f) is Some);
                c.declare_fun(f)?
            },
            _ => {},
        }
        i = i + 1;
    }
    let ghost e2 = c.env();
    i = 0;
    while i < items.len()
        invariant
            i <= items@.len(),
            its == items@,
            its == program.items@,
            c.scopes@.len() == 1,
            c.env().scopes == initial_env().scopes,
            c.consts_typed(),
            declared_through(initial_env(), its, 0, its.len()) == Some(e1),
            declared_through(e1, its, 1, its.len()) == Some(e2),
            declared_through(e2, its, 2, i as nat) == Some(c.env()),
            good == (program_ok(its) && consts_fold_surely(its)),
            consts_folded(const_vals(c.consts@), const_inits(its, i as nat)),
        decreases items@.len() - i,
    {
        proof {
            if good {
                assert(program_env(its) is Some);
                assert(declared_through(e2, its, 2, its.len()) is Some);
                lemma_declared_prefix(e2, its, 2, (i + 1) as nat, its.len());
                assert(its[i as int] matches Item::Const(k) ==> !divides(k.value));
            }
        }
        match &items[i] {
            Item::Const(k) => {
                assert(good ==> declared_const(c.env(), *k) is Some && !divides(k.value));
                let ghost cv0 = const_vals(c.consts@);
                c.declare_const(k, host)?;
                proof {
                    let cv1 = const_vals(c.consts@);
                    let ins = const_inits(its, (i + 1) as nat);
                    assert(ins == const_inits(its, i as nat).push(k.value));
                    assert forall|j: int| 0 <= j < cv1.len()
                        implies (#[trigger] fold_val(cv1.take(j), ins[j]) matches Some(x) ==> cv1[j].1 == x) by {
                        if j < cv0.len() {
                            assert(cv1.take(j) =~= cv0.take(j));
                            assert(cv1[j] == cv0[j]);
                        } else {
                            assert(cv1.take(j) =~= cv0);
                        }
                    }
                }
            },
            _ => {},
        }
        i = i + 1;
    }
    let ghost e3 = c.env();
    let ghost cv3 = c.consts;
    assert(program_env(its) == Some(e3));
    i = 0;
    while i < items.len()
        invariant
            i <= items@.len(),
            its == items@,
            its == program.items@,
            program_env(its) == Some(e3),
            with_scopes(c.env(), e3.scopes) == e3,
            forall|k: int| 0 <= k < i ==> (#[trigger] its[k] matches Item::Fun(f) ==> fun_ok(e3, f)),
            good == (program_ok(its) && consts_fold_surely(its)),
            c.consts == cv3,
            consts_folded(const_vals(cv3@), const_inits(its, its.len())),
        decreases items@.len() - i,
    {
        match &items[i] {
            Item::Fun(f) => {
                proof {
                    lemma_fun_ok_scopes(e3, c.env().scopes, *f);
                    assert(c.env() == with_scopes(e3, c.env().scopes));
                    if good {
                        assert(its[i as int] matches Item::Fun(g) ==> fun_ok(e3, g));
                    }
                }
                c.check_fun(f)?;
            },
            _ => {},
        }
        i = i + 1;
    }
    c.top_level = true;
    c.ret = Type::Void;
    c.loop_depth = 0;
    c.scopes = Vec::new();
    c.scopes.push(Vec::new());
    assert(typed_view(c.scopes@[0]@) =~= Seq::empty());
    assert(c.env() == e3) by {
        assert(c.env().scopes =~= e3.scopes);
    }
    i = 0;
    while i < items.len()
        invariant
            i <= items@.len(),
            its == items@,
            its == program.items@,
            program_env(its) == Some(e3),
            c.scopes@.len() == 1,
            c.ctx() == top_ctx(),
            with_scopes(c.env(), e3.scopes) == e3,
            top_scopes(e3, its, i as nat) == Some(c.env().scopes),
            forall|k: int| 0 <= k < its.len() ==> (#[trigger] its[k] matches Item::Fun(f) ==> fun_ok(e3, f)),
            good == (program_ok(its) && consts_fold_surely(its)),
            c.consts == cv3,
            consts_folded(const_vals(cv3@), const_inits(its, its.len())),
        decreases items@.len() - i,
    {
        proof {
            if good {
                lemma_top_prefix(e3, its, (i + 1) as nat, its.len());
            }
            assert(c.env() == with_scopes(e3, c.env().scopes));
        }
        match &items[i] {
            Item::Stmt(s) => c.check_stmt(s)?,
            _ => {},
        }
        i = i + 1;
    }
    let mut out: Vec<(String, Value)> = Vec::new();
    let mut k: usize = 0;
    while k < c.consts.len()
        invariant
            k <= c.consts@.len(),
            out@.len() == k,
            c.env().consts == e3.consts,
            forall|j: int| 0 <= j < k ==> (#[trigger] out@[j]).0@ == e3.consts[j].0,
            forall|j: int| 0 <= j < k ==> (#[trigger] out@[j]).0@ == c.consts@[j].0@
                && out@[j].1.view() == c.consts@[j].2.view(),
        decreases c.consts@.len() - k,
    {
        out.push((c.consts[k].0.clone(), copy_value(&c.consts[k].2)));
        k = k + 1;
    }
    assert(Seq::new(out@.len(), |j: int| (out@[j].0@, out@[j].1.view())) =~= const_vals(c.consts@));
    Ok(out)
}

} // verus!
