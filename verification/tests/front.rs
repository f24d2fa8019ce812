//! The lexer, the parser and the checker on their own.

use laughter::ast::{BinOp, Expr, Item, Program, Stmt};
use laughter::check::{check_program, CheckError};
use laughter::float::{FloatBinOp, Host};
use laughter::lexer::Lexer;
use laughter::parser::{parent_segment, Parser};
use laughter::token::{Span, Token, TokenKind};
use laughter::types::Type;
use laughter::value::Value;

struct Bits;

impl Host for Bits {
    fn parse_literal(&self, text: &str) -> u64 {
        text.parse::<f64>().unwrap().to_bits()
    }
    fn binary(&self, op: FloatBinOp, a: u64, b: u64) -> u64 {
        let (x, y) = (f64::from_bits(a), f64::from_bits(b));
        match op {
            FloatBinOp::Add => x + y,
            FloatBinOp::Sub => x - y,
            FloatBinOp::Mul => x * y,
            FloatBinOp::Div => x / y,
            FloatBinOp::Rem => x % y,
        }
        .to_bits()
    }
    fn display(&self, a: u64) -> String {
        f64::from_bits(a).to_string()
    }
    fn read_line(&mut self) -> String {
        String::new()
    }
}

fn kinds(src: &str) -> Vec<TokenKind> {
    Lexer::new(src).tokenize().unwrap().into_iter().map(|t| t.kind).collect()
}

/// Token kinds carry no `==`; they are compared by their debug text.
fn assert_same_kinds(got: &[TokenKind], want: &[TokenKind]) {
    assert_eq!(format!("{got:?}"), format!("{want:?}"));
}

fn parse(src: &str) -> Program {
    let toks = Lexer::new(src).tokenize().unwrap();
    Parser::new(toks).parse_program().unwrap()
}

fn check(src: &str) -> Result<Vec<(String, Value)>, CheckError> {
    check_program(&parse(src), &Bits)
}

#[test]
fn keywords_and_ops() {
    let k = kinds("fun struct const for in break && || -> ..");
    assert!(k.iter().any(|t| matches!(t, TokenKind::Fun)));
    assert!(k.iter().any(|t| matches!(t, TokenKind::Struct)));
    assert!(k.iter().any(|t| matches!(t, TokenKind::Const)));
    assert!(k.iter().any(|t| matches!(t, TokenKind::DotDot)));
    assert!(k.iter().any(|t| matches!(t, TokenKind::Arrow)));
    assert!(matches!(k.last(), Some(TokenKind::Eof)));
}

#[test]
fn numbers_strings() {
    let k = kinds("1 2.5 \"a\\n\"");
    assert!(matches!(k[0], TokenKind::Int(1)));
    assert!(matches!(&k[1], TokenKind::Float(t) if t == "2.5"));
    assert!(matches!(&k[2], TokenKind::Str(s) if s == "a\n"));
}

#[test]
fn spans_count_lines_and_columns() {
    let toks = Lexer::new("let x\n= 1; // note\n2").tokenize().unwrap();
    let spans: Vec<Span> = toks.iter().map(|t| t.span).collect();
    assert_eq!(spans[0], Span::new(1, 1));
    assert_eq!(spans[1], Span::new(1, 5));
    assert_eq!(spans[2], Span::new(2, 1));
    assert_eq!(spans[5], Span::new(3, 1));
    assert_eq!(toks.len(), 7);
}

#[test]
fn integer_overflow_and_bad_char() {
    assert!(Lexer::new("9223372036854775807").tokenize().is_ok());
    let e = Lexer::new("9223372036854775808").tokenize().unwrap_err();
    assert_eq!(e.message, "无效的整数 `9223372036854775808`");
    let e = Lexer::new("let @").tokenize().unwrap_err();
    assert_eq!(e.span, Span::new(1, 5));
    let e = Lexer::new("a | b").tokenize().unwrap_err();
    assert_eq!(e.message, "期望 `||`");
}

#[test]
fn unicode_strings_and_interpolation() {
    let k = kinds("\"你好\" s\"x{y}\"");
    assert!(matches!(&k[0], TokenKind::Str(s) if s == "你好"));
    assert!(matches!(&k[1], TokenKind::InterpStr(s) if s == "x{y}"));
}

const STRUCT_CONST_FUN: &str = r#"
            struct P { x: int }
            const N: int = 2 + 3;
            fun P.get(self: P) -> int { return self.x; }
            fun main() -> void { let p = P { x: 1 }; print(p.get()); }
            "#;

#[test]
fn parser_parse_struct_const_fun() {
    let p = parse(STRUCT_CONST_FUN);
    assert_eq!(p.structs().len(), 1);
    assert_eq!(p.consts().len(), 1);
    assert!(p.has_main());
}

#[test]
fn mod_parse_struct_const_fun() {
    let p = parse(STRUCT_CONST_FUN);
    assert_eq!(p.structs().len(), 1);
    assert_eq!(p.consts().len(), 1);
    assert!(p.has_main());
}

#[test]
fn parser_empty_for_body_ok() {
    let p = parse("fun main() -> void { let a: int[] = [1]; for x in a { } }");
    assert!(p.has_main());
}

#[test]
fn mod_empty_for_body_ok() {
    let p = parse("fun main() -> void { let a: int[] = [1]; for x in a { } }");
    assert!(p.has_main());
}

#[test]
fn keywords_and_idents() {
    let k = kinds("fun let if else while return true false int float bool string void foo");
    assert_same_kinds(
        &k,
        &[
            TokenKind::Fun,
            TokenKind::Let,
            TokenKind::If,
            TokenKind::Else,
            TokenKind::While,
            TokenKind::Return,
            TokenKind::True,
            TokenKind::False,
            TokenKind::TyInt,
            TokenKind::TyFloat,
            TokenKind::TyBool,
            TokenKind::TyString,
            TokenKind::TyVoid,
            TokenKind::Ident("foo".into()),
            TokenKind::Eof,
        ]
    );
}

#[test]
fn numbers_strings_ops() {
    let k = kinds(r#"1 2.5 "hi\n" + - * / % == != < <= > >= && || ! = -> [] () {} ,: ;"#);
    assert_same_kinds(
        &k,
        &[
            TokenKind::Int(1),
            TokenKind::Float("2.5".into()),
            TokenKind::Str("hi\n".into()),
            TokenKind::Plus,
            TokenKind::Minus,
            TokenKind::Star,
            TokenKind::Slash,
            TokenKind::Percent,
            TokenKind::EqEq,
            TokenKind::BangEq,
            TokenKind::Lt,
            TokenKind::LtEq,
            TokenKind::Gt,
            TokenKind::GtEq,
            TokenKind::AndAnd,
            TokenKind::OrOr,
            TokenKind::Bang,
            TokenKind::Assign,
            TokenKind::Arrow,
            TokenKind::LBracket,
            TokenKind::RBracket,
            TokenKind::LParen,
            TokenKind::RParen,
            TokenKind::LBrace,
            TokenKind::RBrace,
            TokenKind::Comma,
            TokenKind::Colon,
            TokenKind::Semi,
            TokenKind::Eof,
        ]
    );
}

#[test]
fn line_col_tracking() {
    let toks = Lexer::new("let x\n= 1;").tokenize().unwrap();
    assert_eq!(toks[0].span, Span::new(1, 1));
    assert_eq!(toks[2].span, Span::new(2, 1));
}

#[test]
fn comments_skipped() {
    let k = kinds("1 // comment\n2");
    assert_same_kinds(&k, &[TokenKind::Int(1), TokenKind::Int(2), TokenKind::Eof]);
}

#[test]
fn illegal_char() {
    assert!(Lexer::new("let @").tokenize().is_err());
}

#[test]
fn parse_fun_and_main() {
    let p = parse(
        r#"
            fun add(a: int, b: int) -> int {
                return a + b;
            }
            fun main() -> void {
                print(add(1, 2));
            }
            "#,
    );
    assert!(p.has_main());
    assert_eq!(p.functions().len(), 2);
}

#[test]
fn parse_precedence() {
    let p = parse("let x = 1 + 2 * 3;");
    let Item::Stmt(Stmt::Let(l)) = &p.items[0] else {
        panic!("expected let");
    };
    match &l.value {
        Expr::Binary { op: BinOp::Add, rhs, .. } => match rhs.as_ref() {
            Expr::Binary { op: BinOp::Mul, .. } => {}
            other => panic!("expected mul on rhs, got {other:?}"),
        },
        other => panic!("expected add, got {other:?}"),
    }
}

#[test]
fn parse_array_index_assign() {
    let p = parse("let a = [1,2,3]; a[0] = 9;");
    assert!(matches!(p.items[1], Item::Stmt(Stmt::Assign(_))));
}

#[test]
fn syntax_error_has_span() {
    let toks = Lexer::new("let x = ;").tokenize().unwrap();
    let e = Parser::new(toks).parse_program().unwrap_err();
    assert_eq!(e.span, Span::new(1, 9));
    assert_eq!(e.message, "期望表达式，实际是 `;`");
}

#[test]
fn import_paths_with_parent_segments() {
    assert!(parent_segment(".."));
    assert!(parent_segment("a/../b.lg"));
    assert!(parent_segment("a/.."));
    assert!(!parent_segment("a/..b/c.lg"));
    assert!(!parent_segment("lib/math.lg"));
    let toks = Lexer::new("import \"../x.lg\";").tokenize().unwrap();
    assert!(Parser::new(toks).parse_program().is_err());
}

#[test]
fn accepts_hello() {
    assert!(check("print(\"hi\");").is_ok());
}

#[test]
fn rejects_int_float_mix() {
    let e = check("let x = 1 + 2.5;").unwrap_err();
    assert!(e.message.contains("cannot add"));
}

#[test]
fn rejects_undefined_var() {
    assert!(check("print(x);").is_err());
}

#[test]
fn rejects_call_arg_type() {
    assert!(check("fun f(a: int) -> int { return a; }\nf(true);").is_err());
}

#[test]
fn rejects_missing_return() {
    let e = check("fun f() -> int { }\n").unwrap_err();
    assert_eq!(e.message, "function `f` must return `int` on all paths");
}

#[test]
fn accepts_fib_and_arrays() {
    let src = r#"
    fun fib(n: int) -> int {
        if n < 2 { return n; }
        return fib(n - 1) + fib(n - 2);
    }
    fun main() -> void {
        let a: int[] = [1, 2, 3];
        a[0] = fib(5);
        print(a[0]);
        print(len(a));
    }
    "#;
    assert!(check(src).is_ok());
}

#[test]
fn rejects_builtins_redef() {
    let e = check("fun print(x: int) -> void { }").unwrap_err();
    assert_eq!(e.message, "`print` 是内建函数，不可重定义");
}

#[test]
fn consts_are_folded() {
    let cs = check("const A: int = 7 / 2 + -3;\nconst B: string = \"x\" + \"y\";\nconst C: bool = !(1 < 2);").unwrap();
    assert!(matches!(cs[0].1, Value::Int(0)));
    assert!(matches!(&cs[1].1, Value::Str(s) if s == "xy"));
    assert!(matches!(cs[2].1, Value::Bool(false)));
    let e = check("const X: int[] = 1;").unwrap_err();
    assert_eq!(e.message, "const 类型必须是标量，实际是 `int[]`");
}

#[test]
fn statement_rules() {
    // loops: `break`/`continue` only inside one
    let e = check("break;").unwrap_err();
    assert_eq!(e.message, "`break`/`continue` 只能用在循环内");
    assert!(check("while true { break; }").is_ok());
    assert!(check("for i in 0..3 { continue; }").is_ok());
    // `return` only inside a function, and of the declared type
    let e = check("return;").unwrap_err();
    assert_eq!(e.message, "`return` 只能用在函数内");
    let e = check("fun f() -> void { return 1; }").unwrap_err();
    assert_eq!(e.message, "void 函数不能返回值");
    let e = check("fun f() -> int { return true; }").unwrap_err();
    assert_eq!(e.message, "期望返回类型 `int`，实际是 `bool`");
    // one declaration of a name per scope; an inner block may shadow it
    let e = check("let a = 1;\nlet a = 2;").unwrap_err();
    assert_eq!(e.message, "变量 `a` 在本作用域已声明");
    assert!(check("let a = 1;\n{ let a = true; print(a); }\nprint(a + 1);").is_ok());
    // a block's declarations end with it
    assert!(check("{ let b = 1; }\nprint(b);").is_err());
    // constants cannot be assigned
    let e = check("const K: int = 1;\nK = 2;").unwrap_err();
    assert_eq!(e.message, "不能给 const `K` 赋值");
    // `for` needs an array or an int range
    let e = check("for x in 5 { }").unwrap_err();
    assert_eq!(e.message, "for-in 需要数组，实际是 `int`");
    // an empty array literal needs an array annotation
    let e = check("let v = [];").unwrap_err();
    assert_eq!(e.message, "空数组 `[]` 需要类型标注，如 `int[]`");
    assert!(check("let v: int[] = [];\npush(v, 1);").is_ok());
}

#[test]
fn declaration_rules() {
    let e = check("struct P { x: int }\nstruct P { y: int }").unwrap_err();
    assert_eq!(e.message, "结构体 `P` 重复定义");
    let e = check("struct P { x: int, x: bool }").unwrap_err();
    assert_eq!(e.message, "字段 `x` 重复");
    let e = check("fun f(a: int, a: int) -> void { }").unwrap_err();
    assert_eq!(e.message, "duplicate parameter `a`");
    let e = check("fun main(x: int) -> void { }").unwrap_err();
    assert_eq!(e.message, "`main` 必须是 `fun main() -> void`");
    let e = check("fun f() -> void { }\nfun f() -> void { }").unwrap_err();
    assert_eq!(e.message, "函数 `f` 重复定义");
    let e = check("fun P.m(p: P) -> void { }").unwrap_err();
    assert_eq!(e.message, "unknown type `P`");
    let e = check("struct Q { x: int }\nfun P.m(q: Q) -> void { }").unwrap_err();
    assert_eq!(e.message, "未知结构体 `P`");
    let e = check("struct P { x: int }\nfun P.m(x: int) -> void { }").unwrap_err();
    assert_eq!(e.message, "方法接收者类型必须是 `P`");
    let e = check("const A: int = 1;\nconst A: int = 2;").unwrap_err();
    assert_eq!(e.message, "`A` 已定义");
    assert!(check("struct P { x: int }\nfun P.get(p: P) -> int { return p.x; }\nlet p = P { x: 3 };\nprint(p.get());").is_ok());
}

#[test]
fn field_and_index_assignment_types() {
    assert!(check("struct P { x: int }\nlet a: P[] = [P { x: 1 }];\na[0].x = 2;").is_ok());
    let e = check("struct P { x: int }\nlet a: P[] = [P { x: 1 }];\na[0].x = true;").unwrap_err();
    assert_eq!(e.message, "不能把 `bool` 赋给 `int`");
    let e = check("let n = 1;\nn.x = 2;").unwrap_err();
    assert_eq!(e.message, "无法在 `int` 上访问字段");
    let e = check("let n = 1;\nn[0] = 2;").unwrap_err();
    assert_eq!(e.message, "无法对 `int` 做下标访问");
}

#[test]
fn punctuation_and_numbers_lex_exactly() {
    let k = kinds("a<=b>=c!=d==e=f!g<h>i&j&&k.l..m-n->o");
    let tags: Vec<String> = k.iter().map(|t| format!("{:?}", t)).collect();
    assert_eq!(tags.join(" "), "Ident(\"a\") LtEq Ident(\"b\") GtEq Ident(\"c\") BangEq Ident(\"d\") EqEq Ident(\"e\") Assign Ident(\"f\") Bang Ident(\"g\") Lt Ident(\"h\") Gt Ident(\"i\") Amp Ident(\"j\") AndAnd Ident(\"k\") Dot Ident(\"l\") DotDot Ident(\"m\") Minus Ident(\"n\") Arrow Ident(\"o\") Eof");
    let k = kinds("12.5 7. 9223372036854775807 // comment\n3");
    assert!(matches!(&k[0], TokenKind::Float(t) if t == "12.5"));
    assert!(matches!(k[1], TokenKind::Int(7)));
    assert!(matches!(k[2], TokenKind::Dot));
    assert!(matches!(k[3], TokenKind::Int(9223372036854775807)));
    assert!(matches!(k[4], TokenKind::Int(3)));
    assert!(Lexer::new("9223372036854775808").tokenize().is_err());
    assert!(Lexer::new("a | b").tokenize().is_err());
}

#[test]
fn precedence_and_grouping() {
    let p = parse("1 + 2 * 3 - 4;\n(1 + 2) * 3;\n-a.b[0] .. 5;");
    let e0 = match &p.items[0] { Item::Stmt(Stmt::Expr(e)) => &e.expr, _ => panic!("not an expression") };
    // (1 + (2 * 3)) - 4
    match e0 {
        Expr::Binary { op: BinOp::Sub, lhs, rhs, .. } => {
            assert!(matches!(**rhs, Expr::Int { value: 4, .. }));
            match &**lhs {
                Expr::Binary { op: BinOp::Add, lhs: a, rhs: b, .. } => {
                    assert!(matches!(**a, Expr::Int { value: 1, .. }));
                    assert!(matches!(**b, Expr::Binary { op: BinOp::Mul, .. }));
                },
                _ => panic!("expected an addition"),
            }
        },
        _ => panic!("expected a subtraction"),
    }
    let e1 = match &p.items[1] { Item::Stmt(Stmt::Expr(e)) => &e.expr, _ => panic!("not an expression") };
    match e1 {
        Expr::Binary { op: BinOp::Mul, lhs, .. } => assert!(matches!(**lhs, Expr::Binary { op: BinOp::Add, .. })),
        _ => panic!("expected a product"),
    }
    let e2 = match &p.items[2] { Item::Stmt(Stmt::Expr(e)) => &e.expr, _ => panic!("not an expression") };
    match e2 {
        Expr::Range { start, .. } => match &**start {
            Expr::Unary { expr, .. } => assert!(matches!(**expr, Expr::Index { .. })),
            _ => panic!("expected a negation"),
        },
        _ => panic!("expected a range"),
    }
}

#[test]
fn string_escapes_and_errors() {
    let k = kinds(r#""a\tb\"c\\" s"x{y}""#);
    assert!(matches!(&k[0], TokenKind::Str(t) if t == "a\tb\"c\\"));
    assert!(matches!(&k[1], TokenKind::InterpStr(t) if t == "x{y}"));
    assert!(Lexer::new(r#""bad \q""#).tokenize().is_err());
    assert!(Lexer::new("\"open").tokenize().is_err());
}

#[test]
fn token_descriptions() {
    assert_eq!(TokenKind::Ident("x".to_string()).describe(), "identifier `x`");
    assert_eq!(TokenKind::Int(-7).describe(), "integer `-7`");
    assert_eq!(TokenKind::Str("a\"b\n".to_string()).describe(), "string `\"a\\\"b\\n\"`");
    assert_eq!(TokenKind::InterpStr("t\\".to_string()).describe(), "string `s\"t\\\\\"`");
    assert_eq!(TokenKind::Arrow.describe(), "`->`");
    assert_eq!(TokenKind::Eof.describe(), "end of file");
}

#[test]
fn printable_types() {
    assert!(Type::Int.can_print());
    assert!(Type::Array(Box::new(Type::Str)).can_print());
    assert!(!Type::Void.can_print());
}

#[test]
fn parse_source_reports_input_positions() {
    let p = laughter::source::parse_source("let x = 1;").unwrap();
    assert_eq!(p.items.len(), 1);
    let e = laughter::source::parse_source("let x = ;").unwrap_err();
    assert!(e.starts_with("<input>:1:9: error:"), "{e}");
}

#[test]
fn parsing_stops_at_the_first_end_of_file() {
    let sp = Span::new(1, 1);
    let toks = vec![
        Token::new(TokenKind::Int(1), sp),
        Token::new(TokenKind::Semi, sp),
        Token::new(TokenKind::Eof, sp),
        Token::new(TokenKind::Ident("x".to_string()), sp),
        Token::new(TokenKind::Eof, sp),
    ];
    let p = Parser::new(toks).parse_program().unwrap();
    assert_eq!(p.items.len(), 1);
}

#[test]
fn trailing_commas_follow_the_grammar() {
    assert!(laughter::source::parse_source("struct P { x: int, } let p = 1;").is_ok());
    assert!(laughter::source::parse_source("f(1,);").is_err());
    assert!(laughter::source::parse_source("let a = [1, 2,];").is_err());
    assert!(laughter::source::parse_source("fun f(a: int,) -> int { return a; }").is_err());
    assert!(laughter::source::parse_source("a.b.c = 1;").is_ok());
    assert!(laughter::source::parse_source("a[0].b = 2;").is_ok());
}
