//! The typing rules that the checker decides, stated over models of its
//! tables: which expressions have which types.

use vstd::prelude::*;
use crate::ast::{AssignStmt, Block, ElseBranch, Expr, Ident, IfStmt, LetStmt, Stmt, UnOp};
use crate::check::bin_type;
use crate::types::{type_of_expr, TypeV};

verus! {

/// A function's parameter types and return type.
pub struct FunSig {
    pub params: Seq<TypeV>,
    pub ret: TypeV,
}

/// What the checker knows at a point of the program: the declared
/// functions, methods (per struct), structs (with typed fields), constants,
/// and the variables in scope (innermost scope last).
pub struct Env {
    pub functions: Seq<(Seq<char>, FunSig)>,
    pub methods: Seq<(Seq<char>, Seq<(Seq<char>, FunSig)>)>,
    pub structs: Seq<(Seq<char>, Seq<(Seq<char>, TypeV)>)>,
    pub consts: Seq<(Seq<char>, TypeV)>,
    pub scopes: Seq<Seq<(Seq<char>, TypeV)>>,
}

/// The index of the first entry named `n`.
pub open spec fn first_named<T>(s: Seq<(Seq<char>, T)>, n: Seq<char>) -> Option<int>
    decreases s.len(),
{
    if s.len() == 0 {
        None
    } else {
        match first_named(s.drop_last(), n) {
            Some(i) => Some(i),
            None => if s.last().0 == n { Some(s.len() - 1) } else { None },
        }
    }
}

pub proof fn lemma_first_named<T>(s: Seq<(Seq<char>, T)>, n: Seq<char>)
    ensures
        first_named(s, n) matches Some(i) ==> 0 <= i < s.len() && s[i].0 == n
            && forall|j: int| 0 <= j < i ==> (#[trigger] s[j]).0 != n,
        first_named(s, n) is None ==> forall|j: int| 0 <= j < s.len() ==> (#[trigger] s[j]).0 != n,
    decreases s.len(),
{
    if s.len() > 0 {
        let d = s.drop_last();
        lemma_first_named(d, n);
        assert forall|j: int| 0 <= j < d.len() implies #[trigger] d[j] == s[j] by {}
        if first_named(d, n) is None {
            assert forall|j: int| 0 <= j < s.len() - 1 implies (#[trigger] s[j]).0 != n by {
                assert(d[j] == s[j]);
            }
        } else {
            let i = first_named(d, n)->Some_0;
            assert(d[i] == s[i]);
            assert forall|j: int| 0 <= j < i implies (#[trigger] s[j]).0 != n by {
                assert(d[j] == s[j]);
            }
        }
    }
}

/// The first entry named `n` is at `i`.
pub proof fn lemma_first_named_at<T>(s: Seq<(Seq<char>, T)>, n: Seq<char>, i: int)
    requires
        0 <= i < s.len(),
        s[i].0 == n,
        forall|j: int| 0 <= j < i ==> (#[trigger] s[j]).0 != n,
    ensures
        first_named(s, n) == Some(i),
{
    lemma_first_named(s, n);
    if first_named(s, n) is None {
        assert(s[i].0 != n);
    } else {
        let k = first_named(s, n)->Some_0;
        if k < i {
            assert(s[k].0 != n);
        } else if k > i {
            assert(s[i].0 != n);
        }
    }
}

/// The type of the variable `n`: in the innermost scope that has it, the
/// first entry of that scope.
pub open spec fn scoped(scopes: Seq<Seq<(Seq<char>, TypeV)>>, n: Seq<char>) -> Option<TypeV>
    decreases scopes.len(),
{
    if scopes.len() == 0 {
        None
    } else {
        match first_named(scopes.last(), n) {
            Some(j) => Some(scopes.last()[j].1),
            None => scoped(scopes.drop_last(), n),
        }
    }
}

/// The type of a name used as a value: a constant, else a variable.
pub open spec fn var_type(env: Env, n: Seq<char>) -> Option<TypeV> {
    match first_named(env.consts, n) {
        Some(i) => Some(env.consts[i].1),
        None => scoped(env.scopes, n),
    }
}

/// The type of field `f` of the struct named `st`.
pub open spec fn field_type(env: Env, st: Seq<char>, f: Seq<char>) -> Option<TypeV> {
    match first_named(env.structs, st) {
        Some(i) => match first_named(env.structs[i].1, f) {
            Some(j) => Some(env.structs[i].1[j].1),
            None => None,
        },
        None => None,
    }
}

/// The signature of method `m` of the struct named `st`.
pub open spec fn method_sig(env: Env, st: Seq<char>, m: Seq<char>) -> Option<FunSig> {
    match first_named(env.methods, st) {
        Some(i) => match first_named(env.methods[i].1, m) {
            Some(j) => Some(env.methods[i].1[j].1),
            None => None,
        },
        None => None,
    }
}

/// `name.method`, the key of a function declared as a method.
pub open spec fn dotted_name(a: Seq<char>, b: Seq<char>) -> Seq<char> {
    a + "."@ + b
}

/// Whether each argument has the type of the parameter `offset` places
/// later.
pub open spec fn args_typed(env: Env, args: Seq<Expr>, params: Seq<TypeV>, offset: int) -> bool
    decreases args, 0int,
{
    forall|i: int| 0 <= i < args.len() ==> expr_type(env, #[trigger] args[i]) == Some(params[i + offset])
}

/// The type of a call of a user function with signature `sig`.
pub open spec fn sig_call(env: Env, args: Seq<Expr>, sig: FunSig) -> Option<TypeV>
    decreases args, 1int,
{
    if args.len() == sig.params.len() && args_typed(env, args, sig.params, 0) {
        Some(sig.ret)
    } else {
        None
    }
}

/// Whether `a` has type `t`.
pub open spec fn arg_has(env: Env, a: Expr, t: TypeV) -> bool
    decreases a, 4int,
{
    expr_type(env, a) == Some(t)
}

/// The type of a call of the function named `name`: the built-ins
/// `print`, `len`, `str_at`, `str_sub`, `to_string`, `push`, `pop` and
/// `input`, else a declared function.
pub open spec fn call_type(env: Env, name: Seq<char>, args: Seq<Expr>) -> Option<TypeV>
    decreases args, 2int,
{
    if name == "print"@ {
        if args.len() == 1 {
            match expr_type(env, args[0]) {
                Some(t) => if t is Void { None } else { Some(TypeV::Void) },
                None => None,
            }
        } else {
            None
        }
    } else if name == "len"@ {
        if args.len() == 1 {
            match expr_type(env, args[0]) {
                Some(t) => if t is Array || t is Str { Some(TypeV::Int) } else { None },
                None => None,
            }
        } else {
            None
        }
    } else if name == "str_at"@ {
        if args.len() == 2 && arg_has(env, args[0], TypeV::Str) && arg_has(env, args[1], TypeV::Int) {
            Some(TypeV::Str)
        } else {
            None
        }
    } else if name == "str_sub"@ {
        if args.len() == 3 && arg_has(env, args[0], TypeV::Str) && arg_has(env, args[1], TypeV::Int)
            && arg_has(env, args[2], TypeV::Int) {
            Some(TypeV::Str)
        } else {
            None
        }
    } else if name == "to_string"@ {
        if args.len() == 1 && expr_type(env, args[0]) is Some { Some(TypeV::Str) } else { None }
    } else if name == "push"@ {
        if args.len() == 2 {
            match expr_type(env, args[0]) {
                Some(TypeV::Array(e)) => if expr_type(env, args[1]) == Some(*e) { Some(TypeV::Void) } else { None },
                _ => None,
            }
        } else {
            None
        }
    } else if name == "pop"@ {
        if args.len() == 1 {
            match expr_type(env, args[0]) {
                Some(TypeV::Array(e)) => Some(*e),
                _ => None,
            }
        } else {
            None
        }
    } else if name == "input"@ {
        if args.len() == 0 { Some(TypeV::Str) } else { None }
    } else {
        match first_named(env.functions, name) {
            Some(i) => sig_call(env, args, env.functions[i].1),
            None => None,
        }
    }
}

/// The type of an expression, when it has one.
pub open spec fn expr_type(env: Env, e: Expr) -> Option<TypeV>
    decreases e, 3int,
{
    match e {
        Expr::Int { .. } => Some(TypeV::Int),
        Expr::Float { .. } => Some(TypeV::Float),
        Expr::Bool { .. } => Some(TypeV::Bool),
        Expr::Str { .. } => Some(TypeV::Str),
        Expr::Var { name } => var_type(env, name.name@),
        Expr::Range { start, end, .. } => {
            if expr_type(env, *start) == Some(TypeV::Int) && expr_type(env, *end) == Some(TypeV::Int) {
                Some(TypeV::Array(Box::new(TypeV::Int)))
            } else {
                None
            }
        },
        Expr::Unary { op, expr, .. } => match expr_type(env, *expr) {
            Some(t) => match op {
                UnOp::Neg => if t is Int || t is Float { Some(t) } else { None },
                UnOp::Not => if t is Bool { Some(TypeV::Bool) } else { None },
            },
            None => None,
        },
        Expr::Binary { op, lhs, rhs, .. } => match (expr_type(env, *lhs), expr_type(env, *rhs)) {
            (Some(l), Some(r)) => bin_type(op, l, r),
            _ => None,
        },
        Expr::Call { callee, args, .. } => call_type(env, callee.name@, args@),
        Expr::MethodCall { recv, method, args, .. } => {
            let via_name = match *recv {
                Expr::Var { name } => {
                    let d = dotted_name(name.name@, method.name@);
                    if first_named(env.functions, d) is Some {
                        Some(call_type(env, d, args@))
                    } else if first_named(env.structs, name.name@) is Some {
                        match method_sig(env, name.name@, method.name@) {
                            Some(sig) => Some(sig_call(env, args@, sig)),
                            None => Some(None),
                        }
                    } else {
                        None
                    }
                },
                _ => None,
            };
            match via_name {
                Some(r) => r,
                None => match expr_type(env, *recv) {
                    Some(TypeV::Struct(sn)) => match method_sig(env, sn, method.name@) {
                        Some(sig) => if sig.params.len() != 0 && args@.len() == sig.params.len() - 1
                            && args_typed(env, args@, sig.params, 1) {
                            Some(sig.ret)
                        } else {
                            None
                        },
                        None => None,
                    },
                    _ => None,
                },
            }
        },
        Expr::Index { base, index, .. } => match (expr_type(env, *base), expr_type(env, *index)) {
            (Some(TypeV::Array(t)), Some(TypeV::Int)) => Some(*t),
            _ => None,
        },
        Expr::Field { base, name, .. } => match expr_type(env, *base) {
            Some(TypeV::Struct(n)) => field_type(env, n, name.name@),
            _ => None,
        },
        Expr::Array { elems, .. } => {
            if elems@.len() == 0 {
                None
            } else {
                match expr_type(env, elems@[0]) {
                    Some(first) => if forall|i: int| 1 <= i < elems@.len() ==> expr_type(env, #[trigger] elems@[i]) == Some(first) {
                        Some(TypeV::Array(Box::new(first)))
                    } else {
                        None
                    },
                    None => None,
                }
            }
        },
        Expr::StructLit { name, fields, .. } => match first_named(env.structs, name.name@) {
            Some(si) => {
                let decl = env.structs[si].1;
                if fields@.len() == decl.len() && forall|i: int| 0 <= i < fields@.len() ==> {
                    let f = #[trigger] fields@[i];
                    match first_named(decl, f.0.name@) {
                        Some(j) => expr_type(env, f.1) == Some(decl[j].1),
                        None => false,
                    }
                } {
                    Some(TypeV::Struct(name.name@))
                } else {
                    None
                }
            },
            None => None,
        },
    }
}


/// Where a statement is checked: the return type of the enclosing
/// function, whether a loop encloses it, and whether it stands at the top
/// level of the program.
pub struct StmtCtx {
    pub ret: TypeV,
    pub in_loop: bool,
    pub top: bool,
}

/// The same checking context inside a loop.
pub open spec fn in_loop(ctx: StmtCtx) -> StmtCtx {
    StmtCtx { ret: ctx.ret, in_loop: true, top: ctx.top }
}

/// `env` with other variable scopes.
pub open spec fn with_scopes(env: Env, sc: Seq<Seq<(Seq<char>, TypeV)>>) -> Env {
    Env { functions: env.functions, methods: env.methods, structs: env.structs, consts: env.consts, scopes: sc }
}

/// The names of the declared structs.
pub open spec fn struct_names_of(env: Env) -> Seq<Seq<char>> {
    Seq::new(env.structs.len(), |i: int| env.structs[i].0)
}

/// The scopes after declaring `n: t` in the innermost one; a name is
/// declared at most once per scope.
pub open spec fn declare_in(sc: Seq<Seq<(Seq<char>, TypeV)>>, n: Seq<char>, t: TypeV)
    -> Option<Seq<Seq<(Seq<char>, TypeV)>>>
{
    if sc.len() == 0 || first_named(sc.last(), n) is Some {
        None
    } else {
        Some(sc.update(sc.len() - 1, sc.last().push((n, t))))
    }
}

/// The type a `let` gives its variable: the annotation, which an empty
/// array literal needs and which must be an array type there; else the
/// initializer's type, which an annotation must equal.
pub open spec fn let_type(env: Env, l: LetStmt) -> Option<TypeV> {
    let names = struct_names_of(env);
    if l.value matches Expr::Array { elems, .. } && elems@.len() == 0 {
        match l.ty {
            Some(t) => match type_of_expr(t, names) {
                Some(d) => if d is Array { Some(d) } else { None },
                None => None,
            },
            None => None,
        }
    } else {
        match expr_type(env, l.value) {
            Some(vt) => match l.ty {
                Some(t) => match type_of_expr(t, names) {
                    Some(d) => if d == vt { Some(d) } else { None },
                    None => None,
                },
                None => Some(vt),
            },
            None => None,
        }
    }
}

/// The type of `name[index]`, or of `name` without an index.
pub open spec fn indexed_type(env: Env, t: TypeV, index: Option<Expr>) -> Option<TypeV> {
    match index {
        None => Some(t),
        Some(i) => if expr_type(env, i) == Some(TypeV::Int) {
            match t {
                TypeV::Array(e) => Some(*e),
                _ => None,
            }
        } else {
            None
        },
    }
}

/// The type reached from `t` through the fields `fs`, in order.
pub open spec fn field_path_type(env: Env, t: TypeV, fs: Seq<Ident>) -> Option<TypeV>
    decreases fs.len(),
{
    if fs.len() == 0 {
        Some(t)
    } else {
        match field_path_type(env, t, fs.drop_last()) {
            Some(TypeV::Struct(sn)) => field_type(env, sn, fs.last().name@),
            _ => None,
        }
    }
}

/// Whether an assignment is well typed: not through `*`, not to a
/// constant, to a declared variable, and the value's type is that of the
/// place assigned.
pub open spec fn assign_ok(env: Env, a: AssignStmt) -> bool {
    if a.via_deref && a.value is Binary {
        false
    } else if first_named(env.consts, a.name.name@) is Some {
        false
    } else {
        match scoped(env.scopes, a.name.name@) {
            Some(vt0) => match expr_type(env, a.value) {
                Some(vt) => match indexed_type(env, vt0, a.index) {
                    Some(b) => field_path_type(env, b, a.fields@) == Some(vt),
                    None => false,
                },
                None => false,
            },
            None => false,
        }
    }
}

/// Whether `return` with this value fits the function's return type.
pub open spec fn return_ok(env: Env, ret: TypeV, value: Option<Expr>) -> bool {
    match value {
        None => ret is Void,
        Some(e) => !(ret is Void) && expr_type(env, e) == Some(ret),
    }
}

/// The scopes after checking a statement, or `None` where it is rejected.
pub open spec fn stmt_scopes(env: Env, ctx: StmtCtx, s: Stmt) -> Option<Seq<Seq<(Seq<char>, TypeV)>>>
    decreases s, 3int, 0nat,
{
    match s {
        Stmt::Let(l) => match let_type(env, l) {
            Some(t) => declare_in(env.scopes, l.name.name@, t),
            None => None,
        },
        Stmt::Assign(a) => if assign_ok(env, a) { Some(env.scopes) } else { None },
        Stmt::If(i) => if_scopes(env, ctx, i),
        Stmt::While(w) => {
            if expr_type(env, w.cond) == Some(TypeV::Bool) {
                block_scopes(env, in_loop(ctx), w.body)
            } else {
                None
            }
        },
        Stmt::For(f) => {
            let elem = match f.iter {
                Expr::Range { start, end, .. } => {
                    if expr_type(env, *start) == Some(TypeV::Int) && expr_type(env, *end) == Some(TypeV::Int) {
                        Some(TypeV::Int)
                    } else {
                        None
                    }
                },
                _ => match expr_type(env, f.iter) {
                    Some(TypeV::Array(e)) => Some(*e),
                    _ => None,
                },
            };
            match elem {
                Some(t) => loop_scopes(env, ctx, f.var.name@, t, f.body),
                None => None,
            }
        },
        Stmt::Break(_) => if ctx.in_loop { Some(env.scopes) } else { None },
        Stmt::Continue(_) => if ctx.in_loop { Some(env.scopes) } else { None },
        Stmt::Return(r) => if !ctx.top && return_ok(env, ctx.ret, r.value) { Some(env.scopes) } else { None },
        Stmt::Expr(e) => if expr_type(env, e.expr) is Some { Some(env.scopes) } else { None },
        Stmt::Block(b) => block_scopes(env, ctx, b),
    }
}

/// The scopes after the first `n` statements of `ss`, each checked in the
/// scopes the ones before it left.
pub open spec fn stmts_scopes(env: Env, ctx: StmtCtx, ss: Seq<Stmt>, n: nat)
    -> Option<Seq<Seq<(Seq<char>, TypeV)>>>
    decreases ss, 1int, n,
{
    if n == 0 || n > ss.len() {
        if n == 0 { Some(env.scopes) } else { None }
    } else {
        match stmts_scopes(env, ctx, ss, (n - 1) as nat) {
            Some(sc) => stmt_scopes(with_scopes(env, sc), ctx, ss[n - 1]),
            None => None,
        }
    }
}

/// A block: its statements in a new innermost scope, which ends with it.
pub open spec fn block_scopes(env: Env, ctx: StmtCtx, b: Block) -> Option<Seq<Seq<(Seq<char>, TypeV)>>>
    decreases b, 2int, 0nat,
{
    let inner = with_scopes(env, env.scopes.push(Seq::empty()));
    match stmts_scopes(inner, ctx, b.stmts@, b.stmts@.len()) {
        Some(sc) => Some(sc.drop_last()),
        None => None,
    }
}

/// A loop body: its statements, inside a loop, in a new innermost scope
/// that holds the loop variable `var: t`.
pub open spec fn loop_scopes(env: Env, ctx: StmtCtx, var: Seq<char>, t: TypeV, b: Block)
    -> Option<Seq<Seq<(Seq<char>, TypeV)>>>
    decreases b, 2int, 0nat,
{
    let sc0 = env.scopes.push(Seq::empty().push((var, t)));
    match stmts_scopes(with_scopes(env, sc0), in_loop(ctx), b.stmts@, b.stmts@.len()) {
        Some(sc) => Some(sc.drop_last()),
        None => None,
    }
}

/// An `if`: a `bool` condition, then the branches, each a block.
pub open spec fn if_scopes(env: Env, ctx: StmtCtx, i: IfStmt) -> Option<Seq<Seq<(Seq<char>, TypeV)>>>
    decreases i, 2int, 0nat,
{
    if expr_type(env, i.cond) == Some(TypeV::Bool) {
        match block_scopes(env, ctx, i.then_block) {
            Some(sc) => match i.else_branch {
                None => Some(sc),
                Some(ElseBranch::Block(b)) => block_scopes(with_scopes(env, sc), ctx, b),
                Some(ElseBranch::If(n)) => if_scopes(with_scopes(env, sc), ctx, *n),
            },
            None => None,
        }
    } else {
        None
    }
}


/// A statement changes at most the innermost scope: the outer ones, and
/// how many there are, stay as they were.
pub proof fn lemma_stmt_frame(env: Env, ctx: StmtCtx, s: Stmt)
    requires
        env.scopes.len() >= 1,
        stmt_scopes(env, ctx, s) is Some,
    ensures
        stmt_scopes(env, ctx, s)->Some_0.len() == env.scopes.len(),
        stmt_scopes(env, ctx, s)->Some_0.subrange(0, env.scopes.len() - 1)
            == env.scopes.subrange(0, env.scopes.len() - 1),
    decreases s, 3int, 0nat,
{
    let sc = stmt_scopes(env, ctx, s)->Some_0;
    match s {
        Stmt::Let(l) => {
            assert(sc.subrange(0, env.scopes.len() - 1) =~= env.scopes.subrange(0, env.scopes.len() - 1));
        },
        Stmt::If(i) => {
            lemma_if_frame(env, ctx, i);
        },
        Stmt::While(w) => {
            lemma_block_frame(env, in_loop(ctx), w.body);
        },
        Stmt::For(f) => {
            let elem = match f.iter {
                Expr::Range { start, end, .. } => {
                    if expr_type(env, *start) == Some(TypeV::Int) && expr_type(env, *end) == Some(TypeV::Int) {
                        Some(TypeV::Int)
                    } else {
                        None
                    }
                },
                _ => match expr_type(env, f.iter) {
                    Some(TypeV::Array(e)) => Some(*e),
                    _ => None,
                },
            };
            lemma_loop_frame(env, ctx, f.var.name@, elem->Some_0, f.body);
        },
        Stmt::Block(b) => {
            lemma_block_frame(env, ctx, b);
        },
        _ => {},
    }
}

/// Statements in a row change at most the innermost scope.
pub proof fn lemma_stmts_frame(env: Env, ctx: StmtCtx, ss: Seq<Stmt>, n: nat)
    requires
        env.scopes.len() >= 1,
        stmts_scopes(env, ctx, ss, n) is Some,
    ensures
        stmts_scopes(env, ctx, ss, n)->Some_0.len() == env.scopes.len(),
        stmts_scopes(env, ctx, ss, n)->Some_0.subrange(0, env.scopes.len() - 1)
            == env.scopes.subrange(0, env.scopes.len() - 1),
    decreases ss, 1int, n,
{
    if n > 0 {
        lemma_stmts_frame(env, ctx, ss, (n - 1) as nat);
        let sc0 = stmts_scopes(env, ctx, ss, (n - 1) as nat)->Some_0;
        lemma_stmt_frame(with_scopes(env, sc0), ctx, ss[n - 1]);
    }
}

/// A block leaves the scopes around it as they were: what it declares
/// ends with it.
pub proof fn lemma_block_frame(env: Env, ctx: StmtCtx, b: Block)
    requires
        block_scopes(env, ctx, b) is Some,
    ensures
        block_scopes(env, ctx, b) == Some(env.scopes),
    decreases b, 2int, 0nat,
{
    let inner = with_scopes(env, env.scopes.push(Seq::empty()));
    lemma_stmts_frame(inner, ctx, b.stmts@, b.stmts@.len());
    let sc = stmts_scopes(inner, ctx, b.stmts@, b.stmts@.len())->Some_0;
    assert(sc.drop_last() =~= env.scopes) by {
        assert(sc.subrange(0, env.scopes.len() as int) == env.scopes.push(Seq::empty()).subrange(0, env.scopes.len() as int));
        assert(env.scopes.push(Seq::empty()).subrange(0, env.scopes.len() as int) =~= env.scopes);
    }
}

/// A loop body leaves the scopes around it as they were.
pub proof fn lemma_loop_frame(env: Env, ctx: StmtCtx, var: Seq<char>, t: TypeV, b: Block)
    requires
        loop_scopes(env, ctx, var, t, b) is Some,
    ensures
        loop_scopes(env, ctx, var, t, b) == Some(env.scopes),
    decreases b, 2int, 0nat,
{
    let sc0 = env.scopes.push(Seq::empty().push((var, t)));
    lemma_stmts_frame(with_scopes(env, sc0), in_loop(ctx), b.stmts@, b.stmts@.len());
    let sc = stmts_scopes(with_scopes(env, sc0), in_loop(ctx), b.stmts@, b.stmts@.len())->Some_0;
    assert(sc.drop_last() =~= env.scopes) by {
        assert(sc.subrange(0, env.scopes.len() as int) == sc0.subrange(0, env.scopes.len() as int));
        assert(sc0.subrange(0, env.scopes.len() as int) =~= env.scopes);
    }
}

/// An `if` leaves the scopes around it as they were.
pub proof fn lemma_if_frame(env: Env, ctx: StmtCtx, i: IfStmt)
    requires
        if_scopes(env, ctx, i) is Some,
    ensures
        if_scopes(env, ctx, i) == Some(env.scopes),
    decreases i, 2int, 0nat,
{
    lemma_block_frame(env, ctx, i.then_block);
    assert(with_scopes(env, env.scopes) == env);
    match i.else_branch {
        Some(ElseBranch::Block(b)) => {
            lemma_block_frame(env, ctx, b);
        },
        Some(ElseBranch::If(n)) => {
            lemma_if_frame(env, ctx, *n);
        },
        None => {},
    }
}

} // verus!
