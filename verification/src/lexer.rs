//! The lexer: source text to tokens.
//!
//! Whitespace and `//` comments are skipped. Every token records the line
//! and column (in bytes, from 1) where it starts, and the token list always
//! ends with one `Eof`.

use vstd::prelude::*;
use vstd::utf8::{decode_utf8, valid_utf8};
use crate::lgb::string_from_utf8;
use crate::text::{owned, push_char, push_str, str_eq};
use crate::token::{kind_tag, Span, Token, TokenKind};

verus! {

/// A lexical error and where it happened.
#[derive(Debug)]
pub struct LexError {
    pub message: String,
    pub span: Span,
}

/// Whether `c` is an ASCII letter.
pub open spec fn is_alpha(c: u8) -> bool {
    (65 <= c && c <= 90) || (97 <= c && c <= 122)
}

/// Whether `c` is an ASCII digit.
pub open spec fn is_digit(c: u8) -> bool {
    48 <= c && c <= 57
}

/// Whether `c` can continue an identifier.
pub open spec fn is_ident_char(c: u8) -> bool {
    is_alpha(c) || is_digit(c) || c == 95
}

/// Whether `c` is skipped as whitespace.
pub open spec fn is_space(c: u8) -> bool {
    c == 32 || c == 9 || c == 13 || c == 10
}

/// The characters of ASCII bytes.
pub open spec fn ascii_text(bs: Seq<u8>) -> Seq<char> {
    Seq::new(bs.len(), |i: int| bs[i] as char)
}

/// The value of a run of decimal digits.
pub open spec fn decimal_value(ds: Seq<u8>) -> int
    decreases ds.len(),
{
    if ds.len() == 0 {
        0
    } else {
        decimal_value(ds.drop_last()) * 10 + (ds.last() - 48)
    }
}

/// The variant of the keyword spelled `text`, if it is one.
pub open spec fn keyword_tag(text: Seq<char>) -> Option<u8> {
    if text == "fun"@ { Some(kind_tag(TokenKind::Fun)) }
    else if text == "fn"@ { Some(kind_tag(TokenKind::Fn)) }
    else if text == "struct"@ { Some(kind_tag(TokenKind::Struct)) }
    else if text == "const"@ { Some(kind_tag(TokenKind::Const)) }
    else if text == "import"@ { Some(kind_tag(TokenKind::Import)) }
    else if text == "as"@ { Some(kind_tag(TokenKind::As)) }
    else if text == "let"@ { Some(kind_tag(TokenKind::Let)) }
    else if text == "mut"@ { Some(kind_tag(TokenKind::Mut)) }
    else if text == "nil"@ { Some(kind_tag(TokenKind::Nil)) }
    else if text == "if"@ { Some(kind_tag(TokenKind::If)) }
    else if text == "else"@ { Some(kind_tag(TokenKind::Else)) }
    else if text == "while"@ { Some(kind_tag(TokenKind::While)) }
    else if text == "for"@ { Some(kind_tag(TokenKind::For)) }
    else if text == "in"@ { Some(kind_tag(TokenKind::In)) }
    else if text == "break"@ { Some(kind_tag(TokenKind::Break)) }
    else if text == "continue"@ { Some(kind_tag(TokenKind::Continue)) }
    else if text == "return"@ { Some(kind_tag(TokenKind::Return)) }
    else if text == "true"@ { Some(kind_tag(TokenKind::True)) }
    else if text == "false"@ { Some(kind_tag(TokenKind::False)) }
    else if text == "int"@ { Some(kind_tag(TokenKind::TyInt)) }
    else if text == "float"@ { Some(kind_tag(TokenKind::TyFloat)) }
    else if text == "bool"@ { Some(kind_tag(TokenKind::TyBool)) }
    else if text == "string"@ { Some(kind_tag(TokenKind::TyString)) }
    else if text == "void"@ { Some(kind_tag(TokenKind::TyVoid)) }
    else { None }
}

/// The token kind of the word `text`: its keyword, else an identifier.
pub open spec fn word_kind(text: Seq<char>, k: TokenKind) -> bool {
    match keyword_tag(text) {
        Some(t) => kind_tag(k) == t,
        None => k matches TokenKind::Ident(s) && s@ == text,
    }
}

/// Where a `//` comment whose text starts at `q` ends: after its newline,
/// or at the end of the source.
pub open spec fn comment_end(src: Seq<u8>, q: int) -> int
    decreases src.len() - q,
{
    if q < 0 || q >= src.len() {
        src.len() as int
    } else if src[q] == 10 {
        q + 1
    } else {
        comment_end(src, q + 1)
    }
}

/// Where the next token starts: after the whitespace and `//` comments
/// from `p` on.
pub open spec fn trivia_end(src: Seq<u8>, p: int) -> int
    decreases src.len() - p, 1int,
{
    if p < 0 || p >= src.len() {
        p
    } else if is_space(src[p]) {
        trivia_end(src, p + 1)
    } else if src[p] == 47 && p + 1 < src.len() && src[p + 1] == 47 {
        let q = comment_end(src, p + 2);
        if p < q <= src.len() { trivia_end(src, q) } else { p }
    } else {
        p
    }
}

/// The end of the run of digits from `p`.
pub open spec fn digits_end(src: Seq<u8>, p: int) -> int
    decreases src.len() - p,
{
    if 0 <= p < src.len() && is_digit(src[p]) { digits_end(src, p + 1) } else { p }
}

/// The token kind and length of an operator or punctuation mark that starts
/// with byte `c`, followed by `next`; `None` for a byte that starts none.
pub open spec fn punct(c: u8, next: Option<u8>) -> Option<(TokenKind, int)> {
    if c == 40 { Some((TokenKind::LParen, 1)) }
    else if c == 41 { Some((TokenKind::RParen, 1)) }
    else if c == 123 { Some((TokenKind::LBrace, 1)) }
    else if c == 125 { Some((TokenKind::RBrace, 1)) }
    else if c == 91 { Some((TokenKind::LBracket, 1)) }
    else if c == 93 { Some((TokenKind::RBracket, 1)) }
    else if c == 44 { Some((TokenKind::Comma, 1)) }
    else if c == 58 { Some((TokenKind::Colon, 1)) }
    else if c == 59 { Some((TokenKind::Semi, 1)) }
    else if c == 43 { Some((TokenKind::Plus, 1)) }
    else if c == 42 { Some((TokenKind::Star, 1)) }
    else if c == 37 { Some((TokenKind::Percent, 1)) }
    else if c == 47 { Some((TokenKind::Slash, 1)) }
    else if c == 45 { if next == Some(62u8) { Some((TokenKind::Arrow, 2)) } else { Some((TokenKind::Minus, 1)) } }
    else if c == 61 { if next == Some(61u8) { Some((TokenKind::EqEq, 2)) } else { Some((TokenKind::Assign, 1)) } }
    else if c == 33 { if next == Some(61u8) { Some((TokenKind::BangEq, 2)) } else { Some((TokenKind::Bang, 1)) } }
    else if c == 60 { if next == Some(61u8) { Some((TokenKind::LtEq, 2)) } else { Some((TokenKind::Lt, 1)) } }
    else if c == 62 { if next == Some(61u8) { Some((TokenKind::GtEq, 2)) } else { Some((TokenKind::Gt, 1)) } }
    else if c == 38 { if next == Some(38u8) { Some((TokenKind::AndAnd, 2)) } else { Some((TokenKind::Amp, 1)) } }
    else if c == 124 { if next == Some(124u8) { Some((TokenKind::OrOr, 2)) } else { None } }
    else if c == 46 { if next == Some(46u8) { Some((TokenKind::DotDot, 2)) } else { Some((TokenKind::Dot, 1)) } }
    else { None }
}

/// The byte at `i`, if there is one.
pub open spec fn byte_at(src: Seq<u8>, i: int) -> Option<u8> {
    if 0 <= i < src.len() { Some(src[i]) } else { None }
}

/// Whether a string literal (`"` or `s"`) starts at `s`.
pub open spec fn starts_string(src: Seq<u8>, s: int) -> bool {
    0 <= s < src.len() && (src[s] == 34 || (src[s] == 115 && byte_at(src, s + 1) == Some(34u8)))
}

/// Whether a number starting at `s` has a fraction: a `.` after its
/// digits, followed by a digit.
pub open spec fn has_fraction(src: Seq<u8>, s: int) -> bool {
    let d = digits_end(src, s);
    byte_at(src, d) == Some(46u8) && d + 1 < src.len() && is_digit(src[d + 1])
}

/// Whether no token can start at `s`, which is not a string literal: a byte
/// that starts no token, a `|` alone, or an integer too large for `i64`.
pub open spec fn lex_error_at(src: Seq<u8>, s: int) -> bool {
    let c = src[s];
    if is_alpha(c) || c == 95 {
        false
    } else if is_digit(c) {
        !has_fraction(src, s) && decimal_value(src.subrange(s, digits_end(src, s))) > i64::MAX
    } else {
        punct(c, byte_at(src, s + 1)) is None
    }
}

/// One more, but no further than `u32::MAX`.
pub open spec fn sat_inc(n: u32) -> u32 {
    if n < u32::MAX { (n + 1) as u32 } else { n }
}

/// The line of position `p`: one more than the newlines before it.
pub open spec fn line_at(src: Seq<u8>, p: int) -> u32
    decreases p,
{
    if p <= 0 {
        1
    } else if src[p - 1] == 10 {
        sat_inc(line_at(src, p - 1))
    } else {
        line_at(src, p - 1)
    }
}

/// The column of position `p`: one more than the bytes since the last
/// newline before it.
pub open spec fn col_at(src: Seq<u8>, p: int) -> u32
    decreases p,
{
    if p <= 0 {
        1
    } else if src[p - 1] == 10 {
        1
    } else {
        sat_inc(col_at(src, p - 1))
    }
}

/// Whether a token stands at line and column of position `s`.
pub open spec fn placed_at(src: Seq<u8>, s: int, t: Token) -> bool {
    t.span.line == line_at(src, s) && t.span.col == col_at(src, s)
}

/// Whether the token kind `k`, which ends at `e`, is what the source gives
/// at `s`, where no string literal starts.
pub open spec fn lexed(src: Seq<u8>, s: int, e: int, k: TokenKind) -> bool {
    if s >= src.len() {
        k == TokenKind::Eof && e == s
    } else {
        let c = src[s];
        if is_alpha(c) || c == 95 {
            &&& s < e <= src.len()
            &&& word_kind(ascii_text(src.subrange(s, e)), k)
            &&& forall|i: int| s <= i < e ==> is_ident_char(#[trigger] src[i])
            &&& (e < src.len() ==> !is_ident_char(src[e]))
        } else if is_digit(c) {
            if has_fraction(src, s) {
                &&& e == digits_end(src, digits_end(src, s) + 1)
                &&& k matches TokenKind::Float(t) && t@ == ascii_text(src.subrange(s, e))
            } else {
                &&& e == digits_end(src, s)
                &&& k matches TokenKind::Int(v) && v == decimal_value(src.subrange(s, e))
            }
        } else {
            match punct(c, byte_at(src, s + 1)) {
                Some((pk, n)) => k == pk && e == s + n,
                None => false,
            }
        }
    }
}

/// A comment that starts at `q` ends after `q`, and within the source.
pub proof fn lemma_comment_end_bounds(src: Seq<u8>, q: int)
    requires
        0 <= q <= src.len(),
    ensures
        q < src.len() ==> q < comment_end(src, q) <= src.len(),
        q == src.len() ==> comment_end(src, q) == src.len(),
    decreases src.len() - q,
{
    if q < src.len() && src[q] != 10 {
        lemma_comment_end_bounds(src, q + 1);
    }
}

/// A maximal run of digits from `p` ends at `e`.
pub proof fn lemma_digits_end(src: Seq<u8>, p: int, e: int)
    requires
        0 <= p <= e <= src.len(),
        forall|i: int| p <= i < e ==> is_digit(#[trigger] src[i]),
        e < src.len() ==> !is_digit(src[e]),
    ensures
        digits_end(src, p) == e,
    decreases e - p,
{
    if p < e {
        lemma_digits_end(src, p + 1, e);
    }
}

/// The value of digits is not negative.
pub proof fn lemma_decimal_nonneg(ds: Seq<u8>)
    requires
        forall|i: int| 0 <= i < ds.len() ==> is_digit(#[trigger] ds[i]),
    ensures
        decimal_value(ds) >= 0,
    decreases ds.len(),
{
    if ds.len() > 0 {
        assert forall|i: int| 0 <= i < ds.len() - 1 implies is_digit(#[trigger] ds.drop_last()[i]) by {
            assert(ds.drop_last()[i] == ds[i]);
        }
        lemma_decimal_nonneg(ds.drop_last());
    }
}

/// More digits never give a smaller value.
pub proof fn lemma_decimal_grows(src: Seq<u8>, s: int, i: int, e: int)
    requires
        0 <= s <= i <= e <= src.len(),
        forall|k: int| s <= k < e ==> is_digit(#[trigger] src[k]),
    ensures
        decimal_value(src.subrange(s, i)) <= decimal_value(src.subrange(s, e)),
    decreases e - i,
{
    if i < e {
        lemma_decimal_grows(src, s, i + 1, e);
        assert(src.subrange(s, i + 1).drop_last() =~= src.subrange(s, i));
        assert forall|k: int| 0 <= k < i - s implies is_digit(#[trigger] src.subrange(s, i)[k]) by {
            assert(src.subrange(s, i)[k] == src[s + k]);
        }
        lemma_decimal_nonneg(src.subrange(s, i));
    }
}

/// The end of the run of UTF-8 continuation bytes from `p`.
pub open spec fn cont_end(src: Seq<u8>, p: int) -> int
    decreases src.len() - p,
{
    if 0 <= p < src.len() && src[p] & 0xC0 == 0x80 { cont_end(src, p + 1) } else { p }
}

/// The character an escape `\e` stands for: `\n`, `\t`, `\\` and `\"`.
pub open spec fn escaped(e: u8) -> Option<char> {
    if e == 110 { Some('\n') }
    else if e == 116 { Some('\t') }
    else if e == 92 { Some('\\') }
    else if e == 34 { Some('"') }
    else { None }
}

/// The text of a string literal whose body starts at `p`, and where the
/// literal ends (after its closing quote): escapes are decoded, other ASCII
/// bytes are taken as they are, and each other byte with the continuation
/// bytes after it is decoded as UTF-8. `None` for a literal that is not
/// closed, has an unknown escape, or holds bytes that are not UTF-8.
pub open spec fn quoted_from(src: Seq<u8>, p: int) -> Option<(Seq<char>, int)>
    decreases src.len() - p,
{
    if p < 0 || p >= src.len() {
        None
    } else {
        let c = src[p];
        if c == 34 {
            Some((Seq::empty(), p + 1))
        } else if c == 92 {
            if p + 1 >= src.len() {
                None
            } else {
                match escaped(src[p + 1]) {
                    Some(ch) => match quoted_from(src, p + 2) {
                        Some((t, e)) => Some((seq![ch] + t, e)),
                        None => None,
                    },
                    None => None,
                }
            }
        } else if c < 128 {
            match quoted_from(src, p + 1) {
                Some((t, e)) => Some((seq![c as char] + t, e)),
                None => None,
            }
        } else {
            let q = cont_end(src, p + 1);
            if p < q <= src.len() && valid_utf8(src.subrange(p, q)) {
                match quoted_from(src, q) {
                    Some((t, e)) => Some((decode_utf8(src.subrange(p, q)) + t, e)),
                    None => None,
                }
            } else {
                None
            }
        }
    }
}

/// A run of continuation bytes from `p` ends after `p`, within the source.
pub proof fn lemma_cont_end_bounds(src: Seq<u8>, p: int)
    requires
        0 <= p <= src.len(),
    ensures
        p <= cont_end(src, p) <= src.len(),
    decreases src.len() - p,
{
    if p < src.len() && src[p] & 0xC0 == 0x80 {
        lemma_cont_end_bounds(src, p + 1);
    }
}

/// Whether the token kind `k`, which ends at `e`, is what the source
/// gives at `s`: a string literal, or any other token.
pub open spec fn token_at(src: Seq<u8>, s: int, e: int, k: TokenKind) -> bool {
    if starts_string(src, s) {
        if src[s] == 34 {
            match (quoted_from(src, s + 1), k) {
                (Some((text, en)), TokenKind::Str(x)) => en == e && x@ == text,
                _ => false,
            }
        } else {
            match (quoted_from(src, s + 2), k) {
                (Some((text, en)), TokenKind::InterpStr(x)) => en == e && x@ == text,
                _ => false,
            }
        }
    } else {
        lexed(src, s, e, k)
    }
}

/// Whether `ts` are the tokens of the source from `p` on, up to and with
/// the final `Eof`.
pub open spec fn tokens_from(src: Seq<u8>, p: int, ts: Seq<Token>) -> bool
    decreases ts.len(),
{
    if ts.len() == 0 {
        false
    } else {
        let s = trivia_end(src, p);
        if ts[0].kind is Eof {
            ts.len() == 1 && s >= src.len() && placed_at(src, s, ts[0])
        } else {
            exists|e: int| p < e <= src.len() && #[trigger] token_at(src, s, e, ts[0].kind)
                && placed_at(src, s, ts[0]) && tokens_from(src, e, ts.drop_first())
        }
    }
}

/// The next token starts at or after `p`.
pub proof fn lemma_trivia_end_bounds(src: Seq<u8>, p: int)
    requires
        0 <= p,
    ensures
        p <= trivia_end(src, p),
    decreases src.len() - p,
{
    if p < src.len() {
        if is_space(src[p]) {
            lemma_trivia_end_bounds(src, p + 1);
        } else if src[p] == 47 && p + 1 < src.len() && src[p + 1] == 47 {
            let q = comment_end(src, p + 2);
            if p < q <= src.len() {
                lemma_trivia_end_bounds(src, q);
            }
        }
    }
}

/// A token that the source gives at `s` ends at one place only.
pub proof fn lemma_token_end_unique(src: Seq<u8>, s: int, e1: int, k1: TokenKind, e2: int, k2: TokenKind)
    requires
        token_at(src, s, e1, k1),
        token_at(src, s, e2, k2),
    ensures
        e1 == e2,
{
    if !starts_string(src, s) && s < src.len() {
        let c = src[s];
        if is_alpha(c) || c == 95 {
            if e1 < e2 {
                assert(is_ident_char(src[e1]));
            } else if e2 < e1 {
                assert(is_ident_char(src[e2]));
            }
        }
    }
}

/// Where the source gives a token, no lexical error stands.
pub proof fn lemma_token_no_error(src: Seq<u8>, s: int, e: int, k: TokenKind)
    requires
        0 <= s < src.len(),
        !starts_string(src, s),
        lexed(src, s, e, k),
    ensures
        !lex_error_at(src, s),
{
}

/// The source read from `p` gives no error at the next token, and when that
/// token is not the end, the rest reads on from where it ends.
pub proof fn lemma_tokens_step(src: Seq<u8>, p: int, ts: Seq<Token>)
    requires
        0 <= p,
        tokens_from(src, p, ts),
    ensures
        ({
            let s = trivia_end(src, p);
            &&& (!starts_string(src, s) && s < src.len()) ==> !lex_error_at(src, s)
            &&& (starts_string(src, s) && src[s] == 34) ==> quoted_from(src, s + 1) is Some
            &&& (starts_string(src, s) && src[s] != 34) ==> quoted_from(src, s + 2) is Some
            &&& forall|e: int, k: TokenKind| #[trigger] token_at(src, s, e, k) && !(k is Eof)
                ==> tokens_from(src, e, ts.drop_first())
        }),
{
    let s = trivia_end(src, p);
    lemma_trivia_end_bounds(src, p);
    if !(ts[0].kind is Eof) {
        let e0 = choose|e: int| p < e <= src.len() && #[trigger] token_at(src, s, e, ts[0].kind)
            && placed_at(src, s, ts[0]) && tokens_from(src, e, ts.drop_first());
        if !starts_string(src, s) && s < src.len() {
            lemma_token_no_error(src, s, e0, ts[0].kind);
        }
        assert forall|e: int, k: TokenKind| #[trigger] token_at(src, s, e, k) && !(k is Eof)
            implies tokens_from(src, e, ts.drop_first()) by {
            lemma_token_end_unique(src, s, e, k, e0, ts[0].kind);
        }
    } else {
        assert forall|e: int, k: TokenKind| #[trigger] token_at(src, s, e, k) && !(k is Eof)
            implies tokens_from(src, e, ts.drop_first()) by {
            assert(s >= src.len());
        }
    }
}

/// Whether a token list is well formed: it ends with its only `Eof`.
pub open spec fn tokens_wf(ts: Seq<Token>) -> bool {
    &&& ts.len() >= 1
    &&& ts.last().kind is Eof
    &&& forall|i: int| 0 <= i < ts.len() - 1 ==> !(#[trigger] ts[i].kind is Eof)
}

fn is_alpha_b(c: u8) -> (r: bool)
    ensures
        r == is_alpha(c),
{
    (65 <= c && c <= 90) || (97 <= c && c <= 122)
}

fn is_digit_b(c: u8) -> (r: bool)
    ensures
        r == is_digit(c),
{
    48 <= c && c <= 57
}

fn is_ident_b(c: u8) -> (r: bool)
    ensures
        r == is_ident_char(c),
{
    is_alpha_b(c) || is_digit_b(c) || c == 95
}

fn inc(n: u32) -> (r: u32)
    ensures
        n < u32::MAX ==> r == n + 1,
        n == u32::MAX ==> r == n,
{
    if n < u32::MAX { n + 1 } else { n }
}

/// The lexer's state: the source bytes and the current position, line and
/// column.
pub struct Lexer<'a> {
    src: &'a [u8],
    pos: usize,
    line: u32,
    col: u32,
}

impl<'a> Lexer<'a> {
    /// The cursor is within the source, on a valid line and column.
    pub closed spec fn wf(&self) -> bool {
        &&& self.pos <= self.src@.len()
        &&& self.line >= 1
        &&& self.col >= 1
        &&& self.line == line_at(self.src@, self.pos as int)
        &&& self.col == col_at(self.src@, self.pos as int)
    }

    /// The source bytes.
    pub closed spec fn bytes(&self) -> Seq<u8> {
        self.src@
    }

    /// The current position.
    pub closed spec fn at(&self) -> nat {
        self.pos as nat
    }

    /// A lexer at the start of `src`: line 1, column 1.
    pub fn new(src: &'a str) -> (l: Lexer<'a>)
        ensures
            l.wf(),
            l.bytes() == vstd::utf8::encode_utf8(src@),
            l.at() == 0,
    {
        Lexer { src: src.as_bytes(), pos: 0, line: 1, col: 1 }
    }

    /// The current byte, if any.
    fn peek(&self) -> (r: Option<u8>)
        requires
            self.wf(),
        ensures
            self.pos < self.src@.len() ==> r == Some(self.src@[self.pos as int]),
            self.pos >= self.src@.len() ==> r is None,
    {
        if self.pos < self.src.len() { Some(self.src[self.pos]) } else { None }
    }

    /// The byte after the current one, if any.
    fn peek2(&self) -> (r: Option<u8>)
        requires
            self.wf(),
        ensures
            self.pos + 1 < self.src@.len() ==> r == Some(self.src@[self.pos + 1]),
            self.pos + 1 >= self.src@.len() ==> r is None,
    {
        if self.pos < self.src.len() && self.pos + 1 < self.src.len() { Some(self.src[self.pos + 1]) } else { None }
    }

    /// Consumes the current byte: a newline moves to the next line.
    fn bump(&mut self) -> (r: Option<u8>)
        requires
            old(self).wf(),
        ensures
            final(self).wf(),
            final(self).src == old(self).src,
            old(self).pos < old(self).src@.len() ==> r == Some(old(self).src@[old(self).pos as int])
                && final(self).pos == old(self).pos + 1,
            old(self).pos >= old(self).src@.len() ==> r is None && final(self).pos == old(self).pos,
    {
        if self.pos >= self.src.len() {
            return None;
        }
        let c = self.src[self.pos];
        self.pos = self.pos + 1;
        if c == 10 {
            self.line = inc(self.line);
            self.col = 1;
        } else {
            self.col = inc(self.col);
        }
        Some(c)
    }

    /// Where the next token would start.
    fn span(&self) -> (s: Span)
        requires
            self.wf(),
        ensures
            s.line == self.line && s.col == self.col,
            s.line == line_at(self.src@, self.pos as int),
            s.col == col_at(self.src@, self.pos as int),
    {
        Span::new(self.line, self.col)
    }

    /// Skips whitespace and `//` comments up to the end of their line; stops
    /// at the end of the source or at a byte that starts a token.
    #[verifier::spinoff_prover]
    fn skip_trivia(&mut self)
        requires
            old(self).wf(),
        ensures
            final(self).wf(),
            final(self).src == old(self).src,
            final(self).pos >= old(self).pos,
            final(self).pos == trivia_end(old(self).src@, old(self).pos as int),
    {
        let ghost src = self.src@;
        let ghost p0 = self.pos as int;
        loop
            invariant
                self.wf(),
                self.src == old(self).src,
                src == self.src@,
                p0 == old(self).pos,
                self.pos >= old(self).pos,
                trivia_end(src, self.pos as int) == trivia_end(src, p0),
            ensures
                self.wf(),
                self.src == old(self).src,
                self.pos >= old(self).pos,
                self.pos == trivia_end(src, p0),
            decreases self.src@.len() - self.pos,
        {
            let c = match self.peek() {
                Some(c) => c,
                None => break,
            };
            if c == 32 || c == 9 || c == 13 || c == 10 {
                self.bump();
            } else if c == 47 && self.peek2() == Some(47u8) {
                let ghost it = self.pos as int;
                proof {
                    lemma_comment_end_bounds(src, it + 2);
                }
                self.bump();
                self.bump();
                while self.pos < self.src.len() && self.src[self.pos] != 10
                    invariant
                        self.pos >= it + 2,
                        self.wf(),
                        self.src == old(self).src,
                        src == self.src@,
                        self.pos >= old(self).pos,
                        comment_end(src, self.pos as int) == comment_end(src, it + 2),
                    decreases self.src@.len() - self.pos,
                {
                    self.bump();
                }
                if self.pos >= self.src.len() {
                    proof {
                        assert(comment_end(src, self.pos as int) == src.len());
                        assert(trivia_end(src, it) == trivia_end(src, src.len() as int));
                    }
                    break;
                }
                self.bump();
            } else {
                break;
            }
        }
    }

    /// Consumes the longest run of identifier bytes and gives back its text.
    fn word(&mut self) -> (r: String)
        requires
            old(self).wf(),
        ensures
            final(self).wf(),
            final(self).src == old(self).src,
            final(self).pos >= old(self).pos,
            r@ == ascii_text(old(self).src@.subrange(old(self).pos as int, final(self).pos as int)),
            forall|i: int| old(self).pos <= i < final(self).pos ==> is_ident_char(#[trigger] final(self).src@[i]),
            final(self).pos < final(self).src@.len() ==> !is_ident_char(final(self).src@[final(self).pos as int]),
    {
        let start = self.pos;
        let mut s = String::new();
        while self.pos < self.src.len() && is_ident_b(self.src[self.pos])
            invariant
                self.wf(),
                self.src == old(self).src,
                start == old(self).pos,
                start <= self.pos,
                s@ == ascii_text(self.src@.subrange(start as int, self.pos as int)),
                forall|i: int| start <= i < self.pos ==> is_ident_char(#[trigger] self.src@[i]),
            decreases self.src@.len() - self.pos,
        {
            let c = self.src[self.pos];
            push_char(&mut s, c as char);
            self.bump();
            assert(ascii_text(self.src@.subrange(start as int, self.pos as int))
                =~= ascii_text(self.src@.subrange(start as int, self.pos - 1)).push(c as char));
        }
        s
    }

    /// An identifier or keyword: the longest run of letters, digits and `_`.
    fn ident_kw(&mut self, span: Span) -> (t: Token)
        requires
            old(self).wf(),
            old(self).pos < old(self).src@.len(),
            is_ident_char(old(self).src@[old(self).pos as int]),
        ensures
            final(self).wf(),
            final(self).src == old(self).src,
            final(self).pos > old(self).pos,
            t.span == span,
            word_kind(ascii_text(old(self).src@.subrange(old(self).pos as int, final(self).pos as int)), t.kind),
            forall|i: int| old(self).pos <= i < final(self).pos ==> is_ident_char(#[trigger] final(self).src@[i]),
            final(self).pos < final(self).src@.len() ==> !is_ident_char(final(self).src@[final(self).pos as int]),
    {
        let text = self.word();
        let s = text.as_str();
        let kind = if str_eq(s, "fun") { TokenKind::Fun }
            else if str_eq(s, "fn") { TokenKind::Fn }
            else if str_eq(s, "struct") { TokenKind::Struct }
            else if str_eq(s, "const") { TokenKind::Const }
            else if str_eq(s, "import") { TokenKind::Import }
            else if str_eq(s, "as") { TokenKind::As }
            else if str_eq(s, "let") { TokenKind::Let }
            else if str_eq(s, "mut") { TokenKind::Mut }
            else if str_eq(s, "nil") { TokenKind::Nil }
            else if str_eq(s, "if") { TokenKind::If }
            else if str_eq(s, "else") { TokenKind::Else }
            else if str_eq(s, "while") { TokenKind::While }
            else if str_eq(s, "for") { TokenKind::For }
            else if str_eq(s, "in") { TokenKind::In }
            else if str_eq(s, "break") { TokenKind::Break }
            else if str_eq(s, "continue") { TokenKind::Continue }
            else if str_eq(s, "return") { TokenKind::Return }
            else if str_eq(s, "true") { TokenKind::True }
            else if str_eq(s, "false") { TokenKind::False }
            else if str_eq(s, "int") { TokenKind::TyInt }
            else if str_eq(s, "float") { TokenKind::TyFloat }
            else if str_eq(s, "bool") { TokenKind::TyBool }
            else if str_eq(s, "string") { TokenKind::TyString }
            else if str_eq(s, "void") { TokenKind::TyVoid }
            else { TokenKind::Ident(owned(s)) };
        Token::new(kind, span)
    }

    /// Consumes a run of digits and gives back its text and bytes.
    fn digits(&mut self, s: &mut String)
        requires
            old(self).wf(),
        ensures
            final(self).wf(),
            final(self).src == old(self).src,
            final(self).pos >= old(self).pos,
            final(s)@ == old(s)@ + ascii_text(old(self).src@.subrange(old(self).pos as int, final(self).pos as int)),
            forall|i: int| old(self).pos <= i < final(self).pos ==> is_digit(#[trigger] final(self).src@[i]),
            final(self).pos < final(self).src@.len() ==> !is_digit(final(self).src@[final(self).pos as int]),
    {
        let start = self.pos;
        while self.pos < self.src.len() && is_digit_b(self.src[self.pos])
            invariant
                self.wf(),
                self.src == old(self).src,
                start == old(self).pos,
                start <= self.pos,
                s@ == old(s)@ + ascii_text(self.src@.subrange(start as int, self.pos as int)),
                forall|i: int| start <= i < self.pos ==> is_digit(#[trigger] self.src@[i]),
            decreases self.src@.len() - self.pos,
        {
            let c = self.src[self.pos];
            push_char(s, c as char);
            self.bump();
            assert(ascii_text(self.src@.subrange(start as int, self.pos as int))
                =~= ascii_text(self.src@.subrange(start as int, self.pos - 1)).push(c as char));
        }
    }

    /// A number: digits, then, when a `.` is followed by a digit, a fraction.
    /// An integer keeps its value and is an error when it does not fit `i64`;
    /// a float keeps its text.
    fn number(&mut self, span: Span) -> (r: Result<Token, LexError>)
        requires
            old(self).wf(),
            old(self).pos < old(self).src@.len(),
            is_digit(old(self).src@[old(self).pos as int]),
        ensures
            final(self).wf(),
            final(self).src == old(self).src,
            final(self).pos > old(self).pos,
            r matches Ok(t) ==> t.span == span
                && lexed(old(self).src@, old(self).pos as int, final(self).pos as int, t.kind),
            r is Err <==> lex_error_at(old(self).src@, old(self).pos as int),
            r matches Err(e) ==> e.span == span,
    {
        let ghost src = self.src@;
        let start = self.pos;
        let mut text = String::new();
        self.digits(&mut text);
        let int_end = self.pos;
        proof {
            lemma_digits_end(src, start as int, int_end as int);
        }
        if self.peek() == Some(46u8) {
            match self.peek2() {
                Some(d) => {
                    if is_digit_b(d) {
                        let ghost t1 = text@;
                        self.bump();
                        push_char(&mut text, '.');
                        let ghost frac = self.pos as int;
                        self.digits(&mut text);
                        proof {
                            lemma_digits_end(src, frac, self.pos as int);
                            assert(text@ =~= ascii_text(src.subrange(start as int, self.pos as int)));
                        }
                        return Ok(Token::new(TokenKind::Float(text), span));
                    }
                },
                None => {},
            }
        }
        assert(!has_fraction(src, start as int));
        let mut v: i64 = 0;
        let mut i = start;
        assert(src.subrange(start as int, start as int) =~= Seq::<u8>::empty());
        while i < int_end
            invariant
                self.wf(),
                self.src == old(self).src,
                src == self.src@,
                self.pos > old(self).pos,
                self.pos == int_end,
                start == old(self).pos,
                start <= i <= int_end,
                int_end <= self.src@.len(),
                int_end == digits_end(src, start as int),
                !has_fraction(src, start as int),
                forall|k: int| start <= k < int_end ==> is_digit(#[trigger] self.src@[k]),
                v as int == decimal_value(self.src@.subrange(start as int, i as int)),
            decreases int_end - i,
        {
            let d = (self.src[i] - 48) as i64;
            assert(self.src@.subrange(start as int, i + 1).drop_last() =~= self.src@.subrange(start as int, i as int));
            proof {
                lemma_decimal_nonneg(src.subrange(start as int, i as int));
            }
            let m = v.checked_mul(10);
            let n = match m {
                Some(m) => m.checked_add(d),
                None => None,
            };
            match n {
                Some(n) => {
                    v = n;
                },
                None => {
                    proof {
                        lemma_decimal_grows(src, start as int, i + 1, int_end as int);
                    }
                    let mut msg = owned("无效的整数 `");
                    push_str(&mut msg, text.as_str());
                    push_char(&mut msg, '`');
                    return Err(LexError { message: msg, span });
                },
            }
            i = i + 1;
        }
        Ok(Token::new(TokenKind::Int(v), span))
    }

    /// The body of a quoted string, after its opening quote (which the call
    /// consumes): escapes `\n \t \\ \"` are decoded, other bytes are taken as
    /// UTF-8.
    fn quoted(&mut self, span: Span, unclosed: &str) -> (r: Result<String, LexError>)
        requires
            old(self).wf(),
            old(self).pos < old(self).src@.len(),
        ensures
            final(self).wf(),
            final(self).src == old(self).src,
            final(self).pos > old(self).pos,
            r matches Err(e) ==> e.span == span,
            match quoted_from(old(self).src@, old(self).pos + 1) {
                Some((t, e)) => r matches Ok(x) && x@ == t && final(self).pos == e,
                None => r is Err,
            },
    {
        let ghost src = self.src@;
        let ghost start = self.pos + 1;
        self.bump();
        let mut s = String::new();
        loop
            invariant_except_break
                quoted_from(src, start) == match quoted_from(src, self.pos as int) {
                    Some((t, e)) => Some((s@ + t, e)),
                    None => None,
                },
            invariant
                self.wf(),
                self.src == old(self).src,
                src == self.src@,
                self.pos > old(self).pos,
                start == old(self).pos + 1,
            ensures
                self.wf(),
                self.src == old(self).src,
                self.pos > old(self).pos,
                quoted_from(src, start) == Some((s@, self.pos as int)),
            decreases self.src@.len() - self.pos,
        {
            let ghost p = self.pos as int;
            let c = match self.bump() {
                None => return Err(LexError { message: owned(unclosed), span }),
                Some(c) => c,
            };
            if c == 34 {
                assert(s@ + Seq::<char>::empty() =~= s@);
                break;
            } else if c == 92 {
                let e = self.bump();
                let ch = match e {
                    Some(110u8) => '\n',
                    Some(116u8) => '\t',
                    Some(92u8) => '\\',
                    Some(34u8) => '"',
                    _ => return Err(LexError { message: owned("无效的转义字符"), span }),
                };
                assert(escaped(src[p + 1]) == Some(ch));
                let ghost before = s@;
                push_char(&mut s, ch);
                proof {
                    match quoted_from(src, p + 2) {
                        Some((t, en)) => {
                            assert(before + (seq![ch] + t) =~= s@ + t);
                        },
                        None => {},
                    }
                }
            } else if c < 128 {
                let ghost before = s@;
                push_char(&mut s, c as char);
                proof {
                    match quoted_from(src, p + 1) {
                        Some((t, en)) => {
                            assert(before + (seq![c as char] + t) =~= s@ + t);
                        },
                        None => {},
                    }
                }
            } else {
                let ghost it = self.pos;
                proof {
                    lemma_cont_end_bounds(src, p + 1);
                }
                let mut bytes: Vec<u8> = Vec::new();
                bytes.push(c);
                assert(bytes@ =~= src.subrange(p, p + 1));
                while self.pos < self.src.len() && self.src[self.pos] & 0xC0 == 0x80
                    invariant
                        self.wf(),
                        self.src == old(self).src,
                        src == self.src@,
                        self.pos > old(self).pos,
                        self.pos >= it,
                        it == p + 1,
                        0 <= p < self.pos,
                        bytes@ == src.subrange(p, self.pos as int),
                        cont_end(src, self.pos as int) == cont_end(src, p + 1),
                    decreases self.src@.len() - self.pos,
                {
                    let b = self.src[self.pos];
                    bytes.push(b);
                    self.bump();
                    assert(bytes@ =~= src.subrange(p, self.pos as int));
                }
                let ghost bv = bytes@;
                match string_from_utf8(bytes) {
                    Some(t) => {
                        let ghost before = s@;
                        push_str(&mut s, t.as_str());
                        proof {
                            match quoted_from(src, self.pos as int) {
                                Some((t2, en)) => {
                                    assert(before + (decode_utf8(bv) + t2) =~= s@ + t2);
                                },
                                None => {},
                            }
                        }
                    },
                    None => return Err(LexError { message: owned("字符串中含无效 UTF-8"), span }),
                }
            }
        }
        Ok(s)
    }

    /// The next token, after skipping whitespace and comments.
    pub fn next_token(&mut self) -> (r: Result<Token, LexError>)
        requires
            old(self).wf(),
        ensures
            final(self).wf(),
            final(self).bytes() == old(self).bytes(),
            final(self).at() >= old(self).at(),
            r matches Ok(t) ==> (t.kind is Eof ==> final(self).at() == final(self).bytes().len()),
            r matches Ok(t) ==> (!(t.kind is Eof) ==> final(self).at() > old(self).at()),
            r matches Ok(t) ==> t.span.line >= 1 && t.span.col >= 1,
            r matches Ok(t) ==> placed_at(old(self).bytes(), trivia_end(old(self).bytes(), old(self).at() as int), t),
            r matches Err(e) ==> e.span.line == line_at(old(self).bytes(), trivia_end(old(self).bytes(), old(self).at() as int))
                && e.span.col == col_at(old(self).bytes(), trivia_end(old(self).bytes(), old(self).at() as int)),
            ({
                let src = old(self).bytes();
                let s = trivia_end(src, old(self).at() as int);
                &&& !starts_string(src, s) ==> (r is Err <==> (s < src.len() && lex_error_at(src, s)))
                &&& !starts_string(src, s) ==> (r matches Ok(t) ==> lexed(src, s, final(self).at() as int, t.kind))
                &&& (starts_string(src, s) && src[s] == 34) ==> match quoted_from(src, s + 1) {
                    Some((text, e)) => r matches Ok(t) && t.kind matches TokenKind::Str(x) && x@ == text
                        && final(self).at() == e,
                    None => r is Err,
                }
                &&& (starts_string(src, s) && src[s] == 115) ==> match quoted_from(src, s + 2) {
                    Some((text, e)) => r matches Ok(t) && t.kind matches TokenKind::InterpStr(x) && x@ == text
                        && final(self).at() == e,
                    None => r is Err,
                }
            }),
    {
        self.skip_trivia();
        let span = self.span();
        let c = match self.peek() {
            None => return Ok(Token::new(TokenKind::Eof, span)),
            Some(c) => c,
        };
        if is_alpha_b(c) || c == 95 {
            if c == 115 && self.peek2() == Some(34u8) {
                self.bump();
                let s = self.quoted(span, "插值字符串未闭合")?;
                return Ok(Token::new(TokenKind::InterpStr(s), span));
            }
            return Ok(self.ident_kw(span));
        }
        if is_digit_b(c) {
            return self.number(span);
        }
        if c == 34 {
            let s = self.quoted(span, "字符串未闭合")?;
            return Ok(Token::new(TokenKind::Str(s), span));
        }
        self.bump();
        let next = self.peek();
        let kind = if c == 40 { TokenKind::LParen }
            else if c == 41 { TokenKind::RParen }
            else if c == 123 { TokenKind::LBrace }
            else if c == 125 { TokenKind::RBrace }
            else if c == 91 { TokenKind::LBracket }
            else if c == 93 { TokenKind::RBracket }
            else if c == 44 { TokenKind::Comma }
            else if c == 58 { TokenKind::Colon }
            else if c == 59 { TokenKind::Semi }
            else if c == 43 { TokenKind::Plus }
            else if c == 42 { TokenKind::Star }
            else if c == 37 { TokenKind::Percent }
            else if c == 47 { TokenKind::Slash }
            else if c == 45 {
                if next == Some(62u8) { self.bump(); TokenKind::Arrow } else { TokenKind::Minus }
            } else if c == 61 {
                if next == Some(61u8) { self.bump(); TokenKind::EqEq } else { TokenKind::Assign }
            } else if c == 33 {
                if next == Some(61u8) { self.bump(); TokenKind::BangEq } else { TokenKind::Bang }
            } else if c == 60 {
                if next == Some(61u8) { self.bump(); TokenKind::LtEq } else { TokenKind::Lt }
            } else if c == 62 {
                if next == Some(61u8) { self.bump(); TokenKind::GtEq } else { TokenKind::Gt }
            } else if c == 38 {
                if next == Some(38u8) { self.bump(); TokenKind::AndAnd } else { TokenKind::Amp }
            } else if c == 124 {
                if next == Some(124u8) {
                    self.bump();
                    TokenKind::OrOr
                } else {
                    return Err(LexError { message: owned("期望 `||`"), span });
                }
            } else if c == 46 {
                if next == Some(46u8) { self.bump(); TokenKind::DotDot } else { TokenKind::Dot }
            } else {
                let mut msg = owned("意外的字符 `");
                push_char(&mut msg, c as char);
                push_char(&mut msg, '`');
                return Err(LexError { message: msg, span });
            };
        Ok(Token::new(kind, span))
    }

    /// Cuts the whole source into tokens; the list ends with its only `Eof`.
    pub fn tokenize(&mut self) -> (r: Result<Vec<Token>, LexError>)
        requires
            old(self).wf(),
        ensures
            r matches Ok(ts) ==> tokens_wf(ts@),
            r matches Ok(ts) ==> forall|i: int| 0 <= i < ts@.len() ==> (#[trigger] ts@[i]).span.line >= 1
                && ts@[i].span.col >= 1,
            r matches Ok(ts) ==> tokens_from(old(self).bytes(), old(self).at() as int, ts@),
            (exists|ts: Seq<Token>| tokens_from(old(self).bytes(), old(self).at() as int, ts)) ==> r is Ok,
    {
        let ghost src = self.src@;
        let ghost p0 = self.pos as int;
        let ghost readable = exists|ts: Seq<Token>| tokens_from(src, p0, ts);
        let mut out: Vec<Token> = Vec::new();
        loop
            invariant
                self.wf(),
                src == self.src@,
                p0 == old(self).pos,
                src == old(self).src@,
                forall|i: int| 0 <= i < out@.len() ==> !(#[trigger] out@[i].kind is Eof),
                forall|i: int| 0 <= i < out@.len() ==> (#[trigger] out@[i]).span.line >= 1
                    && out@[i].span.col >= 1,
                forall|rest: Seq<Token>| #[trigger] tokens_from(src, self.pos as int, rest)
                    ==> tokens_from(src, p0, out@ + rest),
                readable == exists|ts: Seq<Token>| tokens_from(src, p0, ts),
                readable ==> exists|rest: Seq<Token>| tokens_from(src, self.pos as int, rest),
            decreases self.src@.len() - self.pos,
        {
            let ghost p = self.pos as int;
            let ghost before = out@;
            let ghost ahead = choose|rest: Seq<Token>| tokens_from(src, p, rest);
            proof {
                if readable {
                    lemma_tokens_step(src, p, ahead);
                }
            }
            let t = match self.next_token() {
                Ok(t) => t,
                Err(err) => {
                    return Err(err);
                },
            };
            let ghost e = self.pos as int;
            proof {
                let st = trivia_end(src, p);
                if !(t.kind is Eof) {
                    assert(token_at(src, st, e, t.kind));
                    assert(placed_at(src, st, t));
                    if readable {
                        assert(tokens_from(src, e, ahead.drop_first()));
                    }
                    assert forall|rest: Seq<Token>| #[trigger] tokens_from(src, e, rest)
                        implies tokens_from(src, p0, before.push(t) + rest) by {
                        let r2 = seq![t] + rest;
                        assert(r2.drop_first() =~= rest);
                        assert(r2[0] == t);
                        assert(tokens_from(src, p, r2));
                        assert(before + r2 =~= before.push(t) + rest);
                    }
                } else {
                    assert(tokens_from(src, p, seq![t]));
                    assert(before + seq![t] =~= before.push(t));
                }
            }
            if matches!(t.kind, TokenKind::Eof) {
                out.push(t);
                return Ok(out);
            }
            out.push(t);
        }
    }
}

} // verus!
