//! Bytecode files, packages, paths and import resolution.

use laughter::chunk::Chunk;
use laughter::float::{FloatBinOp, Host};
use laughter::lgb::{decode_module, encode_module, exec_module};
use laughter::lgpack::{exec_package, list_package, pack_bytes};
use laughter::ast::Item;
use laughter::loader::{on_stack, resolve_import, LoadAction, Loader};
use laughter::manifest::{parse_manifest, MANIFEST_PATH};
use laughter::op::Op;
use laughter::paths::{default_output_path, is_lgpack};
use laughter::source::compile_source;
use laughter::value::Value;

struct Bits;

impl Host for Bits {
    fn parse_literal(&self, text: &str) -> u64 {
        text.parse::<f64>().unwrap().to_bits()
    }
    fn binary(&self, op: FloatBinOp, a: u64, b: u64) -> u64 {
        let (x, y) = (f64::from_bits(a), f64::from_bits(b));
        match op {
            FloatBinOp::Add => x + y,
            FloatBinOp::Sub => x - y,
            FloatBinOp::Mul => x * y,
            FloatBinOp::Div => x / y,
            FloatBinOp::Rem => x % y,
        }
        .to_bits()
    }
    fn display(&self, a: u64) -> String {
        f64::from_bits(a).to_string()
    }
    fn read_line(&mut self) -> String {
        String::new()
    }
}

const FIB: &str = r#"
fun fib(n: int) -> int {
    if n < 2 {
        return n;
    }
    return fib(n - 1) + fib(n - 2);
}
fun main() -> void {
    print(fib(10));
    print(1.5);
    print(true);
    print("s");
}
"#;

#[test]
fn roundtrip_fib() {
    let m = compile_source(FIB, &Bits).unwrap();
    let bytes = encode_module(&m).unwrap();
    assert!(bytes.starts_with(b"LGB1"));
    let m2 = decode_module(&bytes).unwrap();
    assert_eq!(m2.functions.len(), m.functions.len());
    assert!(m2.main_index.is_some());
    for (a, b) in m.functions.iter().zip(m2.functions.iter()) {
        assert_eq!(a.name, b.name);
        assert_eq!(a.chunk.code, b.chunk.code);
        assert_eq!(a.chunk.lines, b.chunk.lines);
    }
    let out = exec_module(&m2, &mut Bits).unwrap();
    assert_eq!(out, vec!["55", "1.5", "true", "s"]);
    assert_eq!(encode_module(&m2).unwrap(), bytes);
}

#[test]
fn bad_magic() {
    assert!(decode_module(b"NOPExxxx").is_err());
}

#[test]
fn truncated_and_bad_version() {
    let m = compile_source("print(1);", &Bits).unwrap();
    let bytes = encode_module(&m).unwrap();
    let e = decode_module(&bytes[..bytes.len() - 1]).unwrap_err();
    assert_eq!(e.message, "truncated .lgb file");
    let mut v = bytes.clone();
    v[4] = 2;
    let e = decode_module(&v).unwrap_err();
    assert_eq!(e.message, "unsupported .lgb version 2 (this build supports 1)");
    assert_eq!(e.to_text(), "字节码错误: unsupported .lgb version 2 (this build supports 1)");
}

#[test]
fn header_layout() {
    let m = compile_source("print(1);", &Bits).unwrap();
    let bytes = encode_module(&m).unwrap();
    assert_eq!(&bytes[0..12], &[76, 71, 66, 49, 1, 0, 0, 0, 0xFF, 0xFF, 0, 0]);
}

#[test]
fn exec_error_text() {
    let m = compile_source("print(1);\nprint(1 / 0);", &Bits).unwrap();
    let e = exec_module(&m, &mut Bits).unwrap_err();
    assert_eq!(e, "运行时错误（第 2 行）: 除数不能为零");
}

#[test]
fn chunk_jumps() {
    let mut c = Chunk::new();
    c.emit(Op::True, 1);
    let at = c.emit_jump(Op::JumpIfFalse, 1);
    assert_eq!(at, 2);
    c.emit(Op::Pop, 1);
    c.patch_to_end(at).unwrap();
    assert_eq!(c.code, vec![Op::True.to_u8(), Op::JumpIfFalse.to_u8(), 1, 0, Op::Pop.to_u8()]);
    assert!(c.patch_to(at, 1).is_err());
    c.emit_loop(0, 2).unwrap();
    assert_eq!(&c.code[5..], &[Op::Loop.to_u8(), 8, 0]);
    assert_eq!(c.add_const(Value::Int(5)).unwrap(), 0);
    assert_eq!(c.add_const(Value::Int(6)).unwrap(), 1);
    assert_eq!(c.add_const(Value::Int(5)).unwrap(), 0);
    assert_eq!(c.lines.len(), c.code.len());
}

#[test]
fn package_roundtrip() {
    let m = compile_source(FIB, &Bits).unwrap();
    let res = vec![("data.txt".to_string(), b"hello".to_vec())];
    let bytes = pack_bytes(&m, "app.lgb", &res).unwrap();
    let names = list_package(&bytes).unwrap();
    assert!(names.iter().any(|n| n == MANIFEST_PATH));
    assert!(names.iter().any(|n| n == "app.lgb"));
    assert!(names.iter().any(|n| n == "resources/data.txt"));
    let out = exec_package(&bytes, &mut Bits).unwrap();
    assert_eq!(out, vec!["55", "1.5", "true", "s"]);
    assert!(exec_package(b"not a zip", &mut Bits).unwrap_err().starts_with("not a zip/lgpack: "));
}

#[test]
fn manifest_lines() {
    let m = parse_manifest("# comment\n  Main-Bytecode :  x.lgb \r\nLaughter-Package-Version: 2\nnoise\n");
    assert_eq!(m.main_bytecode, "x.lgb");
    assert_eq!(m.package_version, "2");
    let d = parse_manifest("");
    assert_eq!(d.main_bytecode, "app.lgb");
    assert_eq!(d.package_version, "1");
}

#[test]
fn output_paths_and_packages() {
    assert_eq!(default_output_path("foo.lg"), "foo.lgb");
    assert_eq!(default_output_path("dir/foo"), "dir/foo.lgb");
    assert_eq!(default_output_path("a.b/c.tar.lg"), "a.b/c.tar.lgb");
    assert_eq!(default_output_path(".hidden"), ".hidden.lgb");
    assert!(is_lgpack("app.lgpack"));
    assert!(is_lgpack("dir/APP.JAR"));
    assert!(!is_lgpack("app.lgb"));
    assert!(!is_lgpack(".lgpack"));
    assert!(!is_lgpack("lgpack"));
}

#[test]
fn import_resolution() {
    assert_eq!(resolve_import("examples/main.lg", "lib/math.lg").unwrap(), "examples/lib/math.lg");
    assert_eq!(resolve_import("main.lg", "math.lg").unwrap(), "math.lg");
    assert_eq!(resolve_import("/main.lg", "math.lg").unwrap(), "/math.lg");
    assert!(resolve_import("main.lg", "../x.lg").is_err());
    assert!(on_stack(&vec!["a".to_string(), "b".to_string()], "b"));
    assert!(!on_stack(&vec!["a".to_string()], "c"));
}

#[test]
fn package_entries_listed() {
    let m = compile_source("print(1);", &Bits).unwrap();
    let res = vec![("data.txt".to_string(), b"hi".to_vec())];
    let bytes = pack_bytes(&m, "main.lgb", &res).unwrap();
    let names = list_package(&bytes).unwrap();
    assert_eq!(names, vec!["META-INF/MANIFEST.MF".to_string(), "main.lgb".to_string(), "resources/data.txt".to_string()]);
    assert!(list_package(b"not a zip").is_err());
}

#[test]
fn chunk_listing_shows_title_and_ops() {
    let m = compile_source(FIB, &Bits).unwrap();
    let f = &m.functions[0];
    let listing = f.chunk.disassemble(&f.name, &Bits);
    assert!(listing.starts_with(&format!("== {} ==\n", f.name)));
    assert!(listing.contains("GetLocal"));
    assert!(listing.contains("Return"));
    assert_eq!(laughter::disasm::op_name(Op::JumpIfFalse), "JumpIfFalse");
}

/// The recursive Fibonacci program of the language overview.
const FIB_LG: &str = r#"
fun fib(n: int) -> int {
    if n < 2 {
        return n;
    }
    return fib(n - 1) + fib(n - 2);
}

fun main() -> void {
    print(fib(10));
}
"#;

#[test]
fn compile_exec_roundtrip() {
    let module = laughter::source::compile_source_file("examples/fib.lg", FIB_LG, &Bits).unwrap();
    let bytes = encode_module(&module).unwrap();
    assert!(bytes.starts_with(b"LGB1"));
    let loaded = decode_module(&bytes).unwrap();
    let out = exec_module(&loaded, &mut Bits).unwrap();
    assert_eq!(out, vec!["55"]);
}

#[test]
fn module_listing_labels_functions() {
    let m = compile_source(FIB, &Bits).unwrap();
    let listing = laughter::disasm::disassemble_module(&m, &Bits);
    assert!(listing.starts_with("== fn fib (arity=1, locals="), "{listing}");
    assert!(listing.contains("== fn main (arity=0, locals="));
    assert!(listing.contains(", void=true) ==\n"));
    assert!(listing.contains("== <toplevel> ==\n"));
    assert!(listing.ends_with("\n\n"));
}

#[test]
fn call_method_is_five_bytes_wide() {
    assert_eq!(Op::CallMethod.width(), 5);
    assert_eq!(Op::NewStruct.width(), 5);
    assert_eq!(Op::Const.width(), 3);
    assert_eq!(Op::Add.width(), 1);
}

#[test]
fn chunk_listing_lines_and_pool() {
    let m = compile_source("fun main() -> void { print(\"s\"); }", &Bits).unwrap();
    let f = &m.functions[0];
    let listing = f.chunk.disassemble("main", &Bits);
    let lines: Vec<&str> = listing.lines().collect();
    assert_eq!(lines[0], "== main ==");
    assert!(lines[1].starts_with("0000 L1    Const 0 (s)"), "{listing}");
    assert!(listing.contains("constants:\n  [0] s\n"), "{listing}");
    assert!(listing.ends_with("\n"));
}

#[test]
fn package_refuses_long_or_repeated_names() {
    let m = compile_source("print(1);", &Bits).unwrap();
    let long = "x".repeat(70000);
    assert!(pack_bytes(&m, &long, &vec![]).is_err());
    let res = vec![(long.clone(), b"a".to_vec())];
    assert!(pack_bytes(&m, "main.lgb", &res).is_err());
    let dup = vec![("d.txt".to_string(), b"a".to_vec()), ("d.txt".to_string(), b"b".to_vec())];
    assert!(pack_bytes(&m, "main.lgb", &dup).is_err());
    assert!(pack_bytes(&m, "META-INF/MANIFEST.MF", &vec![]).is_err());
}

#[test]
fn loader_joins_imports_first_and_refuses_cycles() {
    let (mut ld, act) = Loader::new("main.lg".to_string());
    assert!(matches!(act, LoadAction::Open(ref p) if p == "main.lg"));
    assert!(matches!(ld.on_opened(true, "/m".to_string()), LoadAction::Read(_)));
    assert!(matches!(ld.on_read("import \"lib.lg\";\nprint(1);"), LoadAction::Step));
    match ld.advance() {
        LoadAction::Open(p) => assert_eq!(p, "lib.lg"),
        _ => panic!("expected the import to be opened"),
    }
    assert!(matches!(ld.on_opened(true, "/l".to_string()), LoadAction::Read(_)));
    assert!(matches!(ld.on_read("fun f() -> int { return 1; }"), LoadAction::Step));
    assert!(matches!(ld.advance(), LoadAction::Step));
    match ld.advance() {
        LoadAction::Done(items) => {
            assert_eq!(items.len(), 2);
            assert!(matches!(items[0], Item::Fun(_)));
            assert!(matches!(items[1], Item::Stmt(_)));
        },
        _ => panic!("expected the program"),
    }

    let (mut ld, _) = Loader::new("a.lg".to_string());
    ld.on_opened(true, "/a".to_string());
    ld.on_read("import \"b.lg\";");
    ld.advance();
    ld.on_opened(true, "/b".to_string());
    ld.on_read("import \"a.lg\";");
    ld.advance();
    match ld.on_opened(true, "/a".to_string()) {
        LoadAction::Fail(e) => assert_eq!(e, "循环 import: a.lg"),
        _ => panic!("expected a cycle"),
    }

    let (mut ld, _) = Loader::new("a.lg".to_string());
    ld.on_opened(true, "/a".to_string());
    ld.on_read("import \"gone.lg\";");
    ld.advance();
    match ld.on_opened(false, "gone.lg".to_string()) {
        LoadAction::Fail(e) => assert_eq!(e, "a.lg:1: cannot resolve import `gone.lg`"),
        _ => panic!("expected an unresolved import"),
    }
}
