//! Compiling and running a single source text (without imports), with
//! diagnostics prefixed by a file name.

use vstd::prelude::*;
use crate::ast::{Item, Program};
use crate::check::{check_program, checked_consts, program_ok};
use crate::grammar::items_reads;
use crate::lexer::tokens_from;
use crate::token::Token;
use vstd::utf8::encode_utf8;
use crate::chunk::Module;
use crate::compile::{compiled_code, compiled_shape, Compiler};
use crate::value::Value;
use crate::float::Host;
use crate::lexer::Lexer;
use crate::lgb::STEP_LIMIT;
use crate::parser::{items_end, Parser};
use crate::semantics::{run_spec, RunEnd};
use crate::text::{int_text, owned, push_str, uint_to_string};
use crate::vm::{out_of_fuel_msg, out_view, reports, Vm, VmError};

verus! {

/// `{file}:{line}:{col}: error: {message}`
pub open spec fn diag_text(file: Seq<char>, line: u32, col: u32, message: Seq<char>) -> Seq<char> {
    file + ":"@ + int_text(line as int) + ":"@ + int_text(col as int) + ": error: "@ + message
}

/// A diagnostic at a line and column of `file`.
pub fn diag(file: &str, line: u32, col: u32, message: &str) -> (s: String)
    ensures
        s@ == diag_text(file@, line, col, message@),
{
    let mut s = owned(file);
    push_str(&mut s, ":");
    let l = uint_to_string(line as u64);
    push_str(&mut s, l.as_str());
    push_str(&mut s, ":");
    let c = uint_to_string(col as u64);
    push_str(&mut s, c.as_str());
    push_str(&mut s, ": error: ");
    push_str(&mut s, message);
    s
}

/// Whether `p` is the program that the source text `src` reads as: its
/// tokens, read as the program's items up to the final `Eof`.
pub open spec fn source_reads(src: Seq<char>, p: Program) -> bool {
    exists|ts: Seq<Token>| #[trigger] tokens_from(encode_utf8(src), 0, ts) && items_reads(ts, 0, ts.len() - 1, p.items@)
}

/// Whether module `m` is compiled from the source `src`: the program it
/// reads as has no `import` and checks, and `m` has the shape and the code
/// compiled from it with the constants that checking gives.
pub open spec fn compiled_from(src: Seq<char>, m: Module) -> bool {
    exists|p: Program| #[trigger] source_reads(src, p)
        && (forall|i: int| 0 <= i < p.items@.len() ==> !((#[trigger] p.items@[i]) is Import))
        && program_ok(p.items@)
        && compiled_shape(p.items@, m)
        && (exists|cs: Seq<(String, Value)>| #[trigger] checked_consts(p.items@, cs) && compiled_code(p.items@, cs, m))
}

/// The refusal of an `import` in a single source of `file`.
pub open spec fn import_refused_text(file: Seq<char>) -> Seq<char> {
    file + ": error: `import` requires a file path — use `laughter run <file.lg>`"@
}

/// Whether `e` is a diagnostic of `file` from compiling it: an error at a
/// line and column, or the refusal of an `import`.
pub open spec fn compile_error_text(file: Seq<char>, e: Seq<char>) -> bool {
    (exists|l: u32, c: u32, msg: Seq<char>| #[trigger] diag_text(file, l, c, msg) == e) || e == import_refused_text(file)
}

/// Whether the items hold an `import`.
pub open spec fn has_import(items: Seq<Item>) -> bool {
    exists|i: int| 0 <= i < items.len() && (#[trigger] items[i]) is Import
}

/// Whether some reading of the source's tokens parses to the end.
pub open spec fn source_parses(src: Seq<char>) -> bool {
    exists|ts: Seq<Token>| #[trigger] tokens_from(encode_utf8(src), 0, ts) && items_end(ts, 0) is Some
}

/// Whether the source has tokens, and every way of reading its tokens
/// parses to the end.
pub open spec fn parse_owed(src: Seq<char>) -> bool {
    &&& exists|ts: Seq<Token>| #[trigger] tokens_from(encode_utf8(src), 0, ts)
    &&& forall|ts: Seq<Token>| #[trigger] tokens_from(encode_utf8(src), 0, ts) ==> items_end(ts, 0) is Some
}

/// Lexes and parses `src`, a source with no file name.
pub fn parse_source(src: &str) -> (r: Result<Program, String>)
    ensures
        r matches Ok(p) ==> source_reads(src@, p),
        r is Ok ==> exists|ts: Seq<Token>| #[trigger] tokens_from(encode_utf8(src@), 0, ts) && items_end(ts, 0) is Some,
        parse_owed(src@) ==> r is Ok,
{
    parse(src, "<input>")
}

/// Lexes and parses `src`; errors are diagnostics of `file`.
pub fn parse(src: &str, file: &str) -> (r: Result<Program, String>)
    ensures
        r matches Err(e) ==> exists|l: u32, c: u32, msg: Seq<char>| #[trigger] diag_text(file@, l, c, msg) == e@,
        r matches Ok(p) ==> source_reads(src@, p),
        r is Ok ==> exists|ts: Seq<Token>| #[trigger] tokens_from(encode_utf8(src@), 0, ts) && items_end(ts, 0) is Some,
        parse_owed(src@) ==> r is Ok,
{
    let mut lx = Lexer::new(src);
    let toks = match lx.tokenize() {
        Ok(t) => t,
        Err(e) => return Err(diag(file, e.span.line, e.span.col, e.message.as_str())),
    };
    let ghost ts = toks@;
    let mut p = Parser::new(toks);
    match p.parse_program() {
        Ok(prog) => {
            assert(tokens_from(encode_utf8(src@), 0, ts) && items_reads(ts, 0, ts.len() - 1, prog.items@));
            Ok(prog)
        },
        Err(e) => Err(diag(file, e.span.line, e.span.col, e.message.as_str())),
    }
}

/// Compiles a single-file source: parse, refuse imports, check, compile.
pub fn compile_source_file<H: Host>(file: &str, src: &str, host: &H) -> (r: Result<Module, String>)
    ensures
        r matches Ok(m) ==> compiled_from(src@, m),
        r matches Err(e) ==> compile_error_text(file@, e@),
        !source_parses(src@) ==> r is Err,
        (forall|p: Program| #[trigger] source_reads(src@, p) ==> has_import(p.items@)) ==> r is Err,
        (forall|p: Program| #[trigger] source_reads(src@, p) ==> !program_ok(p.items@)) ==> r is Err,
{
    let program = parse(src, file)?;
    if program.has_import() {
        let mut m = owned(file);
        push_str(&mut m, ": error: `import` requires a file path — use `laughter run <file.lg>`");
        return Err(m);
    }
    let consts = match check_program(&program, host) {
        Ok(c) => c,
        Err(e) => return Err(diag(file, e.span.line, e.span.col, e.message.as_str())),
    };
    match Compiler::compile(&program, consts, host) {
        Ok(m) => Ok(m),
        Err(e) => Err(diag(file, e.line, e.col, e.message.as_str())),
    }
}

/// Compiles a single-file source named `<input>`.
pub fn compile_source<H: Host>(src: &str, host: &H) -> (r: Result<Module, String>)
    ensures
        r matches Ok(m) ==> compiled_from(src@, m),
        r matches Err(e) ==> compile_error_text("<input>"@, e@),
        !source_parses(src@) ==> r is Err,
        (forall|p: Program| #[trigger] source_reads(src@, p) ==> has_import(p.items@)) ==> r is Err,
        (forall|p: Program| #[trigger] source_reads(src@, p) ==> !program_ok(p.items@)) ==> r is Err,
{
    compile_source_file("<input>", src, host)
}

/// The text of a run-time error in `file`.
pub open spec fn file_runtime_text(file: Seq<char>, msg: Seq<char>, line: u32) -> Seq<char> {
    if line == 0 {
        file + ": runtime error: "@ + msg
    } else {
        file + ":"@ + int_text(line as int) + ": runtime error: "@ + msg
    }
}

/// Whether the result of running a module of `file` reports a run that ends
/// as `end`.
pub open spec fn file_reports(file: Seq<char>, r: Result<Vec<String>, String>, end: RunEnd) -> bool {
    match (r, end) {
        (Ok(lines), RunEnd::Done(o)) => out_view(lines@) == o,
        (Err(e), RunEnd::Failed(msg, l)) => e@ == file_runtime_text(file, msg, l),
        (Err(e), RunEnd::OutOfFuel) => e@ == file_runtime_text(file, out_of_fuel_msg(), 0),
        _ => false,
    }
}

fn file_runtime_message(file: &str, e: &VmError) -> (s: String)
    ensures
        s@ == file_runtime_text(file@, e.message@, e.line),
{
    let mut s = owned(file);
    if e.line == 0 {
        push_str(&mut s, ": runtime error: ");
    } else {
        push_str(&mut s, ":");
        let n = uint_to_string(e.line as u64);
        push_str(&mut s, n.as_str());
        push_str(&mut s, ": runtime error: ");
    }
    push_str(&mut s, e.message.as_str());
    s
}

/// Runs a compiled module of `file` and gives back the printed lines, or
/// the run-time error prefixed by the file (and the line, when known).
pub fn run_module_file<H: Host>(file: &str, module: &Module, host: &mut H) -> (r: Result<Vec<String>, String>)
    ensures
        exists|end: RunEnd| file_reports(file@, r, end) && run_spec(module, STEP_LIMIT as nat, end),
{
    let mut vm = Vm::new(module);
    let res = vm.run(host, STEP_LIMIT);
    let ghost end = choose|end: RunEnd| reports(res, end) && run_spec(module, STEP_LIMIT as nat, end);
    match res {
        Ok(lines) => {
            proof {
                assert(file_reports(file@, Ok::<Vec<String>, String>(lines), end));
            }
            Ok(lines)
        },
        Err(e) => {
            let t = file_runtime_message(file, &e);
            proof {
                assert(file_reports(file@, Err::<Vec<String>, String>(t), end));
            }
            Err(t)
        },
    }
}

/// Compiles and runs a single-file source; diagnostics are prefixed by
/// `file`.
pub fn run_source_file<H: Host>(file: &str, src: &str, host: &mut H) -> (r: Result<Vec<String>, String>)
    ensures
        r is Ok ==> exists|m: Module, end: RunEnd| file_reports(file@, r, end) && #[trigger] run_spec(&m, STEP_LIMIT as nat, end)
            && compiled_from(src@, m),
        r matches Err(e) ==> compile_error_text(file@, e@) || exists|m: Module, end: RunEnd| file_reports(file@, r, end)
            && #[trigger] run_spec(&m, STEP_LIMIT as nat, end) && compiled_from(src@, m),
        !source_parses(src@) ==> r is Err,
        (forall|p: Program| #[trigger] source_reads(src@, p) ==> has_import(p.items@)) ==> r is Err,
        (forall|p: Program| #[trigger] source_reads(src@, p) ==> !program_ok(p.items@)) ==> r is Err,
{
    let module = compile_source_file(file, src, &*host)?;
    let r = run_module_file(file, &module, host);
    proof {
        let end = choose|end: RunEnd| file_reports(file@, r, end) && run_spec(&module, STEP_LIMIT as nat, end);
        assert(file_reports(file@, r, end) && run_spec(&module, STEP_LIMIT as nat, end) && compiled_from(src@, module));
    }
    r
}

/// Compiles and runs a single-file source named `<input>`.
pub fn run_source<H: Host>(src: &str, host: &mut H) -> (r: Result<Vec<String>, String>)
    ensures
        r is Ok ==> exists|m: Module, end: RunEnd| file_reports("<input>"@, r, end) && #[trigger] run_spec(&m, STEP_LIMIT as nat, end)
            && compiled_from(src@, m),
        r matches Err(e) ==> compile_error_text("<input>"@, e@) || exists|m: Module, end: RunEnd| file_reports("<input>"@, r, end)
            && #[trigger] run_spec(&m, STEP_LIMIT as nat, end) && compiled_from(src@, m),
        !source_parses(src@) ==> r is Err,
        (forall|p: Program| #[trigger] source_reads(src@, p) ==> has_import(p.items@)) ==> r is Err,
        (forall|p: Program| #[trigger] source_reads(src@, p) ==> !program_ok(p.items@)) ==> r is Err,
{
    run_source_file("<input>", src, host)
}

} // verus!
