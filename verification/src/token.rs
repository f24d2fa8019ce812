//! Tokens: the units the lexer produces and the parser reads, each with the
//! line and column where it starts.

use vstd::prelude::*;
use crate::text::{int_text, int_to_string, owned, push_char, push_str};

verus! {

/// A position in the source: line and column, both counted from 1.
#[derive(Debug, Clone, Copy, PartialEq, Eq, Structural)]
pub struct Span {
    pub line: u32,
    pub col: u32,
}

impl Span {
    /// The position at `line`, `col`.
    pub fn new(line: u32, col: u32) -> (s: Span)
        ensures
            s.line == line,
            s.col == col,
    {
        Span { line, col }
    }
}

/// What a token is. Number literals keep the value the lexer read: an
/// integer as `i64`, a float as the text of its digits.
#[derive(Debug)]
pub enum TokenKind {
    Ident(String),
    Int(i64),
    Float(String),
    Str(String),
    InterpStr(String),
    Fun,
    Fn,
    Struct,
    Const,
    For,
    In,
    Break,
    Continue,
    Import,
    As,
    Let,
    Mut,
    Nil,
    If,
    Else,
    While,
    Return,
    True,
    False,
    TyInt,
    TyFloat,
    TyBool,
    TyString,
    TyVoid,
    LParen,
    RParen,
    LBrace,
    RBrace,
    LBracket,
    RBracket,
    Comma,
    Colon,
    Semi,
    Dot,
    DotDot,
    Arrow,
    Plus,
    Minus,
    Star,
    Slash,
    Percent,
    EqEq,
    BangEq,
    Lt,
    LtEq,
    Gt,
    GtEq,
    AndAnd,
    OrOr,
    Bang,
    Amp,
    Assign,
    Eof,
}

/// A token and where it starts.
#[derive(Debug)]
pub struct Token {
    pub kind: TokenKind,
    pub span: Span,
}

impl Token {
    /// A token of kind `kind` at `span`.
    pub fn new(kind: TokenKind, span: Span) -> (t: Token)
        ensures
            t.kind == kind,
            t.span == span,
    {
        Token { kind, span }
    }
}

/// The variant of a token kind, as a number: two kinds have the same number
/// exactly when they are the same variant.
pub open spec fn kind_tag(k: TokenKind) -> u8 {
    match k {
        TokenKind::Ident(_) => 0u8,
        TokenKind::Int(_) => 1u8,
        TokenKind::Float(_) => 2u8,
        TokenKind::Str(_) => 3u8,
        TokenKind::InterpStr(_) => 4u8,
        TokenKind::Fun => 5u8,
        TokenKind::Fn => 6u8,
        TokenKind::Struct => 7u8,
        TokenKind::Const => 8u8,
        TokenKind::For => 9u8,
        TokenKind::In => 10u8,
        TokenKind::Break => 11u8,
        TokenKind::Continue => 12u8,
        TokenKind::Import => 13u8,
        TokenKind::As => 14u8,
        TokenKind::Let => 15u8,
        TokenKind::Mut => 16u8,
        TokenKind::Nil => 17u8,
        TokenKind::If => 18u8,
        TokenKind::Else => 19u8,
        TokenKind::While => 20u8,
        TokenKind::Return => 21u8,
        TokenKind::True => 22u8,
        TokenKind::False => 23u8,
        TokenKind::TyInt => 24u8,
        TokenKind::TyFloat => 25u8,
        TokenKind::TyBool => 26u8,
        TokenKind::TyString => 27u8,
        TokenKind::TyVoid => 28u8,
        TokenKind::LParen => 29u8,
        TokenKind::RParen => 30u8,
        TokenKind::LBrace => 31u8,
        TokenKind::RBrace => 32u8,
        TokenKind::LBracket => 33u8,
        TokenKind::RBracket => 34u8,
        TokenKind::Comma => 35u8,
        TokenKind::Colon => 36u8,
        TokenKind::Semi => 37u8,
        TokenKind::Dot => 38u8,
        TokenKind::DotDot => 39u8,
        TokenKind::Arrow => 40u8,
        TokenKind::Plus => 41u8,
        TokenKind::Minus => 42u8,
        TokenKind::Star => 43u8,
        TokenKind::Slash => 44u8,
        TokenKind::Percent => 45u8,
        TokenKind::EqEq => 46u8,
        TokenKind::BangEq => 47u8,
        TokenKind::Lt => 48u8,
        TokenKind::LtEq => 49u8,
        TokenKind::Gt => 50u8,
        TokenKind::GtEq => 51u8,
        TokenKind::AndAnd => 52u8,
        TokenKind::OrOr => 53u8,
        TokenKind::Bang => 54u8,
        TokenKind::Amp => 55u8,
        TokenKind::Assign => 56u8,
        TokenKind::Eof => 57u8,
    }
}

impl TokenKind {
    /// The variant number of this kind.
    pub fn tag(&self) -> (t: u8)
        ensures
            t == kind_tag(*self),
    {
        match self {
            TokenKind::Ident(_) => 0u8,
            TokenKind::Int(_) => 1u8,
            TokenKind::Float(_) => 2u8,
            TokenKind::Str(_) => 3u8,
            TokenKind::InterpStr(_) => 4u8,
            TokenKind::Fun => 5u8,
            TokenKind::Fn => 6u8,
            TokenKind::Struct => 7u8,
            TokenKind::Const => 8u8,
            TokenKind::For => 9u8,
            TokenKind::In => 10u8,
            TokenKind::Break => 11u8,
            TokenKind::Continue => 12u8,
            TokenKind::Import => 13u8,
            TokenKind::As => 14u8,
            TokenKind::Let => 15u8,
            TokenKind::Mut => 16u8,
            TokenKind::Nil => 17u8,
            TokenKind::If => 18u8,
            TokenKind::Else => 19u8,
            TokenKind::While => 20u8,
            TokenKind::Return => 21u8,
            TokenKind::True => 22u8,
            TokenKind::False => 23u8,
            TokenKind::TyInt => 24u8,
            TokenKind::TyFloat => 25u8,
            TokenKind::TyBool => 26u8,
            TokenKind::TyString => 27u8,
            TokenKind::TyVoid => 28u8,
            TokenKind::LParen => 29u8,
            TokenKind::RParen => 30u8,
            TokenKind::LBrace => 31u8,
            TokenKind::RBrace => 32u8,
            TokenKind::LBracket => 33u8,
            TokenKind::RBracket => 34u8,
            TokenKind::Comma => 35u8,
            TokenKind::Colon => 36u8,
            TokenKind::Semi => 37u8,
            TokenKind::Dot => 38u8,
            TokenKind::DotDot => 39u8,
            TokenKind::Arrow => 40u8,
            TokenKind::Plus => 41u8,
            TokenKind::Minus => 42u8,
            TokenKind::Star => 43u8,
            TokenKind::Slash => 44u8,
            TokenKind::Percent => 45u8,
            TokenKind::EqEq => 46u8,
            TokenKind::BangEq => 47u8,
            TokenKind::Lt => 48u8,
            TokenKind::LtEq => 49u8,
            TokenKind::Gt => 50u8,
            TokenKind::GtEq => 51u8,
            TokenKind::AndAnd => 52u8,
            TokenKind::OrOr => 53u8,
            TokenKind::Bang => 54u8,
            TokenKind::Amp => 55u8,
            TokenKind::Assign => 56u8,
            TokenKind::Eof => 57u8,
        }
    }

    /// Whether two kinds are the same variant, whatever they carry.
    pub fn same_variant(&self, other: &TokenKind) -> (r: bool)
        ensures
            r == (kind_tag(*self) == kind_tag(*other)),
    {
        self.tag() == other.tag()
    }

    /// A copy of this kind.
    pub fn copy(&self) -> (r: TokenKind)
        ensures
            r == *self,
    {
        match self {
            TokenKind::Ident(s) => TokenKind::Ident(s.clone()),
            TokenKind::Int(v) => TokenKind::Int(*v),
            TokenKind::Float(s) => TokenKind::Float(s.clone()),
            TokenKind::Str(s) => TokenKind::Str(s.clone()),
            TokenKind::InterpStr(s) => TokenKind::InterpStr(s.clone()),
            TokenKind::Fun => TokenKind::Fun,
            TokenKind::Fn => TokenKind::Fn,
            TokenKind::Struct => TokenKind::Struct,
            TokenKind::Const => TokenKind::Const,
            TokenKind::For => TokenKind::For,
            TokenKind::In => TokenKind::In,
            TokenKind::Break => TokenKind::Break,
            TokenKind::Continue => TokenKind::Continue,
            TokenKind::Import => TokenKind::Import,
            TokenKind::As => TokenKind::As,
            TokenKind::Let => TokenKind::Let,
            TokenKind::Mut => TokenKind::Mut,
            TokenKind::Nil => TokenKind::Nil,
            TokenKind::If => TokenKind::If,
            TokenKind::Else => TokenKind::Else,
            TokenKind::While => TokenKind::While,
            TokenKind::Return => TokenKind::Return,
            TokenKind::True => TokenKind::True,
            TokenKind::False => TokenKind::False,
            TokenKind::TyInt => TokenKind::TyInt,
            TokenKind::TyFloat => TokenKind::TyFloat,
            TokenKind::TyBool => TokenKind::TyBool,
            TokenKind::TyString => TokenKind::TyString,
            TokenKind::TyVoid => TokenKind::TyVoid,
            TokenKind::LParen => TokenKind::LParen,
            TokenKind::RParen => TokenKind::RParen,
            TokenKind::LBrace => TokenKind::LBrace,
            TokenKind::RBrace => TokenKind::RBrace,
            TokenKind::LBracket => TokenKind::LBracket,
            TokenKind::RBracket => TokenKind::RBracket,
            TokenKind::Comma => TokenKind::Comma,
            TokenKind::Colon => TokenKind::Colon,
            TokenKind::Semi => TokenKind::Semi,
            TokenKind::Dot => TokenKind::Dot,
            TokenKind::DotDot => TokenKind::DotDot,
            TokenKind::Arrow => TokenKind::Arrow,
            TokenKind::Plus => TokenKind::Plus,
            TokenKind::Minus => TokenKind::Minus,
            TokenKind::Star => TokenKind::Star,
            TokenKind::Slash => TokenKind::Slash,
            TokenKind::Percent => TokenKind::Percent,
            TokenKind::EqEq => TokenKind::EqEq,
            TokenKind::BangEq => TokenKind::BangEq,
            TokenKind::Lt => TokenKind::Lt,
            TokenKind::LtEq => TokenKind::LtEq,
            TokenKind::Gt => TokenKind::Gt,
            TokenKind::GtEq => TokenKind::GtEq,
            TokenKind::AndAnd => TokenKind::AndAnd,
            TokenKind::OrOr => TokenKind::OrOr,
            TokenKind::Bang => TokenKind::Bang,
            TokenKind::Amp => TokenKind::Amp,
            TokenKind::Assign => TokenKind::Assign,
            TokenKind::Eof => TokenKind::Eof,
        }
    }

    /// The text that `describe` gives for a kind.
    pub open spec fn description(self) -> Seq<char> {
        match self {
            TokenKind::Ident(n) => "identifier `"@ + n@ + seq!['`'],
            TokenKind::Int(v) => "integer `"@ + int_text(v as int) + seq!['`'],
            TokenKind::Float(t) => "float `"@ + t@ + seq!['`'],
            TokenKind::Str(t) => "string `\""@ + escaped(t@) + "\"`"@,
            TokenKind::InterpStr(t) => "string `s\""@ + escaped(t@) + "\"`"@,
            TokenKind::Fun => "`fun`"@,
            TokenKind::Fn => "`fn`"@,
            TokenKind::Struct => "`struct`"@,
            TokenKind::Const => "`const`"@,
            TokenKind::For => "`for`"@,
            TokenKind::In => "`in`"@,
            TokenKind::Break => "`break`"@,
            TokenKind::Continue => "`continue`"@,
            TokenKind::Import => "`import`"@,
            TokenKind::As => "`as`"@,
            TokenKind::Let => "`let`"@,
            TokenKind::Mut => "`mut`"@,
            TokenKind::Nil => "`nil`"@,
            TokenKind::If => "`if`"@,
            TokenKind::Else => "`else`"@,
            TokenKind::While => "`while`"@,
            TokenKind::Return => "`return`"@,
            TokenKind::True => "`true`"@,
            TokenKind::False => "`false`"@,
            TokenKind::TyInt => "`int`"@,
            TokenKind::TyFloat => "`float`"@,
            TokenKind::TyBool => "`bool`"@,
            TokenKind::TyString => "`string`"@,
            TokenKind::TyVoid => "`void`"@,
            TokenKind::LParen => "`(`"@,
            TokenKind::RParen => "`)`"@,
            TokenKind::LBrace => "`{`"@,
            TokenKind::RBrace => "`}`"@,
            TokenKind::LBracket => "`[`"@,
            TokenKind::RBracket => "`]`"@,
            TokenKind::Comma => "`,`"@,
            TokenKind::Colon => "`:`"@,
            TokenKind::Semi => "`;`"@,
            TokenKind::Dot => "`.`"@,
            TokenKind::DotDot => "`..`"@,
            TokenKind::Arrow => "`->`"@,
            TokenKind::Plus => "`+`"@,
            TokenKind::Minus => "`-`"@,
            TokenKind::Star => "`*`"@,
            TokenKind::Slash => "`/`"@,
            TokenKind::Percent => "`%`"@,
            TokenKind::EqEq => "`==`"@,
            TokenKind::BangEq => "`!=`"@,
            TokenKind::Lt => "`<`"@,
            TokenKind::LtEq => "`<=`"@,
            TokenKind::Gt => "`>`"@,
            TokenKind::GtEq => "`>=`"@,
            TokenKind::AndAnd => "`&&`"@,
            TokenKind::OrOr => "`||`"@,
            TokenKind::Bang => "`!`"@,
            TokenKind::Amp => "`&`"@,
            TokenKind::Assign => "`=`"@,
            TokenKind::Eof => "end of file"@,
        }
    }

    /// How the kind is named in a diagnostic.
    pub fn describe(&self) -> (s: String)
        ensures
            s@ == self.description(),
    {
        match self {
            TokenKind::Ident(n) => quoted("identifier `", n.as_str()),
            TokenKind::Int(v) => {
                let d = int_to_string(*v);
                quoted("integer `", d.as_str())
            },
            TokenKind::Float(t) => quoted("float `", t.as_str()),
            TokenKind::Str(t) => {
                let mut s = owned("string `\"");
                push_escaped(&mut s, t.as_str());
                push_str(&mut s, "\"`");
                s
            },
            TokenKind::InterpStr(t) => {
                let mut s = owned("string `s\"");
                push_escaped(&mut s, t.as_str());
                push_str(&mut s, "\"`");
                s
            },
            TokenKind::Fun => owned("`fun`"),
            TokenKind::Fn => owned("`fn`"),
            TokenKind::Struct => owned("`struct`"),
            TokenKind::Const => owned("`const`"),
            TokenKind::For => owned("`for`"),
            TokenKind::In => owned("`in`"),
            TokenKind::Break => owned("`break`"),
            TokenKind::Continue => owned("`continue`"),
            TokenKind::Import => owned("`import`"),
            TokenKind::As => owned("`as`"),
            TokenKind::Let => owned("`let`"),
            TokenKind::Mut => owned("`mut`"),
            TokenKind::Nil => owned("`nil`"),
            TokenKind::If => owned("`if`"),
            TokenKind::Else => owned("`else`"),
            TokenKind::While => owned("`while`"),
            TokenKind::Return => owned("`return`"),
            TokenKind::True => owned("`true`"),
            TokenKind::False => owned("`false`"),
            TokenKind::TyInt => owned("`int`"),
            TokenKind::TyFloat => owned("`float`"),
            TokenKind::TyBool => owned("`bool`"),
            TokenKind::TyString => owned("`string`"),
            TokenKind::TyVoid => owned("`void`"),
            TokenKind::LParen => owned("`(`"),
            TokenKind::RParen => owned("`)`"),
            TokenKind::LBrace => owned("`{`"),
            TokenKind::RBrace => owned("`}`"),
            TokenKind::LBracket => owned("`[`"),
            TokenKind::RBracket => owned("`]`"),
            TokenKind::Comma => owned("`,`"),
            TokenKind::Colon => owned("`:`"),
            TokenKind::Semi => owned("`;`"),
            TokenKind::Dot => owned("`.`"),
            TokenKind::DotDot => owned("`..`"),
            TokenKind::Arrow => owned("`->`"),
            TokenKind::Plus => owned("`+`"),
            TokenKind::Minus => owned("`-`"),
            TokenKind::Star => owned("`*`"),
            TokenKind::Slash => owned("`/`"),
            TokenKind::Percent => owned("`%`"),
            TokenKind::EqEq => owned("`==`"),
            TokenKind::BangEq => owned("`!=`"),
            TokenKind::Lt => owned("`<`"),
            TokenKind::LtEq => owned("`<=`"),
            TokenKind::Gt => owned("`>`"),
            TokenKind::GtEq => owned("`>=`"),
            TokenKind::AndAnd => owned("`&&`"),
            TokenKind::OrOr => owned("`||`"),
            TokenKind::Bang => owned("`!`"),
            TokenKind::Amp => owned("`&`"),
            TokenKind::Assign => owned("`=`"),
            TokenKind::Eof => owned("end of file"),
        }
    }
}

fn quoted(prefix: &str, body: &str) -> (s: String)
    ensures
        s@ == prefix@ + body@ + seq!['`'],
{
    let mut s = owned(prefix);
    push_str(&mut s, body);
    push_char(&mut s, '`');
    s
}

/// One character as a string literal writes it: newline, tab, backslash
/// and double quote behind a backslash.
pub open spec fn escaped_char(c: char) -> Seq<char> {
    if c == '\n' {
        seq!['\\', 'n']
    } else if c == '\t' {
        seq!['\\', 't']
    } else if c == '\\' {
        seq!['\\', '\\']
    } else if c == '"' {
        seq!['\\', '"']
    } else {
        seq![c]
    }
}

/// A text with each character escaped as `escaped_char` says.
pub open spec fn escaped(t: Seq<char>) -> Seq<char>
    decreases t.len(),
{
    if t.len() == 0 {
        Seq::empty()
    } else {
        escaped(t.drop_last()) + escaped_char(t.last())
    }
}

fn push_escaped(s: &mut String, t: &str)
    ensures
        final(s)@ == old(s)@ + escaped(t@),
{
    let n = t.unicode_len();
    let mut i: usize = 0;
    proof {
        assert(t@.take(0) =~= Seq::<char>::empty());
        assert(s@ =~= old(s)@ + escaped(t@.take(0)));
    }
    while i < n
        invariant
            i <= n,
            n == t@.len(),
            s@ == old(s)@ + escaped(t@.take(i as int)),
        decreases n - i,
    {
        proof {
            assert(t@.take(i as int + 1).drop_last() =~= t@.take(i as int));
        }
        let c = t.get_char(i);
        if c == '\n' {
            push_str(s, "\\n");
        } else if c == '\t' {
            push_str(s, "\\t");
        } else if c == '\\' {
            push_str(s, "\\\\");
        } else if c == '"' {
            push_str(s, "\\\"");
        } else {
            push_char(s, c);
        }
        proof {
            reveal_strlit("\\n");
            reveal_strlit("\\t");
            reveal_strlit("\\\\");
            reveal_strlit("\\\"");
            assert(s@ =~= old(s)@ + escaped(t@.take(i as int + 1)));
        }
        i = i + 1;
    }
    assert(t@.take(n as int) =~= t@);
}

} // verus!
