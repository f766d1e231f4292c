//! Tokens of the Lua language and the tokenizer.
use crate::ast::bytes_eq;
use crate::lints::{
    ann, annotated, char_debug, counted_spans_annotations, decimal, diagnostic_ok, hexadecimal,
    lint_diagnostic, note, patch, patches, reported, InconsistentIndentation, InvisibleCharacters,
    LineTooLong, NonAsciiLiteral, OnlyWhitespace, TrailingWhitespace, UnicodeCodePointIsSurrogate,
    UnicodeCodePointTooLarge, INCONSISTENT_INDENTATION, INVISIBLE_CHARACTERS, LINE_TOO_LONG,
    LINT_COUNT, NON_ASCII_LITERAL, lemma_annotations_within, lemma_lint_diagnostic_within, span_within, ONLY_WHITESPACE, TRAILING_WHITESPACE,
    UNICODE_CODE_POINT_IS_SURROGATE, UNICODE_CODE_POINT_TOO_LARGE,
};
use crate::parser::{AnnotationKind, Diagnostic, DiagnosticContext, DiagnosticView, Level, Severity, Span};
use crate::scopes::diagnostics_view;
use crate::sema::slice_range;
use vstd::prelude::*;
use vstd::string::StringSliceAdditionalSpecFns;

verus! {

/// Errors reported while splitting the source into tokens.
#[derive(Debug, Clone, Copy, PartialEq, Eq, Structural)]
pub enum LexerError {
    Invalid,
    UnterminatedString,
    UnterminatedComment,
}

/// The kinds of tokens of Lua 5.4 and Lua 5.5.
#[derive(Debug, Clone, Copy, PartialEq, Eq, Structural)]
pub enum Token {
    EOF,
    Comment,
    Whitespace,
    Break,
    Return,
    Function,
    End,
    Goto,
    Do,
    While,
    Repeat,
    If,
    Then,
    Until,
    Elseif,
    Else,
    For,
    In,
    Local,
    And,
    Or,
    Not,
    Nil,
    False,
    True,
    Global,
    Semi,
    ColonColon,
    Colon,
    Dot,
    Comma,
    Dot3,
    Equal,
    Plus,
    Minus,
    Star,
    Slash,
    SlashSlash,
    Hat,
    Percent,
    Ampersand,
    Tilde,
    Pipe,
    GtGt,
    LtLt,
    Dot2,
    Less,
    LessEqual,
    Greater,
    GreaterEqual,
    EqualEqual,
    TildeEqual,
    Hash,
    FirstLineComment,
    LBrak,
    RBrak,
    LParen,
    RParen,
    LBrace,
    RBrace,
    Name,
    LiteralString,
    DecIntNumeral,
    HexIntNumeral,
    DecFloatNumeral,
    HexFloatNumeral,
    Error,
}


/// Whether the byte is Lua whitespace: space, tab, carriage return, line feed or form feed.
pub open spec fn is_space(b: u8) -> bool {
    b == 32u8 || b == 9u8 || b == 13u8 || b == 10u8 || b == 12u8
}

/// Whether the byte can start a name.
pub open spec fn is_name_start(b: u8) -> bool {
    (97u8 <= b <= 122u8) || (65u8 <= b <= 90u8) || b == 95u8
}

/// Whether the byte can continue a name.
pub open spec fn is_name_byte(b: u8) -> bool {
    is_name_start(b) || (48u8 <= b <= 57u8)
}

/// Whether the byte is a decimal digit.
pub open spec fn is_dec_digit(b: u8) -> bool {
    48u8 <= b <= 57u8
}

/// Whether the byte is a hexadecimal digit.
pub open spec fn is_hex_byte(b: u8) -> bool {
    (48u8 <= b <= 57u8) || (97u8 <= b <= 102u8) || (65u8 <= b <= 70u8)
}

fn space(b: u8) -> (r: bool)
    ensures
        r == is_space(b),
{
    b == 32u8 || b == 9u8 || b == 13u8 || b == 10u8 || b == 12u8
}

fn name_start(b: u8) -> (r: bool)
    ensures
        r == is_name_start(b),
{
    (97u8 <= b && b <= 122u8) || (65u8 <= b && b <= 90u8) || b == 95u8
}

fn name_byte(b: u8) -> (r: bool)
    ensures
        r == is_name_byte(b),
{
    name_start(b) || (48u8 <= b && b <= 57u8)
}

fn dec_digit(b: u8) -> (r: bool)
    ensures
        r == is_dec_digit(b),
{
    48u8 <= b && b <= 57u8
}

fn hex_byte(b: u8) -> (r: bool)
    ensures
        r == is_hex_byte(b),
{
    (48u8 <= b && b <= 57u8) || (97u8 <= b && b <= 102u8) || (65u8 <= b && b <= 70u8)
}

/// Whether byte `b` is in byte class `class`: 0 whitespace, 1 name bytes, 2 decimal digits,
/// 3 hexadecimal digits, 4 the byte `=`.
pub open spec fn byte_in_class(b: u8, class: u8) -> bool {
    if class == 0 {
        is_space(b)
    } else if class == 1 {
        is_name_byte(b)
    } else if class == 2 {
        is_dec_digit(b)
    } else if class == 3 {
        is_hex_byte(b)
    } else {
        b == 61u8
    }
}

/// The end of the run of bytes of class `class` that starts at `i`.
pub open spec fn run_end_at(s: Seq<u8>, i: int, class: u8) -> int
    decreases s.len() - i,
{
    if 0 <= i < s.len() && byte_in_class(s[i], class) {
        run_end_at(s, i + 1, class)
    } else {
        i
    }
}

/// A run ends at or after its start, within the text, and covers bytes of its class only.
pub proof fn lemma_run_end_at(s: Seq<u8>, i: int, class: u8)
    requires
        0 <= i <= s.len(),
    ensures
        i <= run_end_at(s, i, class) <= s.len(),
        forall|k: int| i <= k < run_end_at(s, i, class) ==> byte_in_class(#[trigger] s[k], class),
        run_end_at(s, i, class) < s.len() ==> !byte_in_class(s[run_end_at(s, i, class)], class),
    decreases s.len() - i,
{
    if i < s.len() && byte_in_class(s[i], class) {
        lemma_run_end_at(s, i + 1, class);
    }
}

/// The end of the run of bytes of class `class` from `i` on.
fn run_end(s: &[u8], i: usize, class: u8) -> (r: usize)
    requires
        i <= s@.len(),
    ensures
        r == run_end_at(s@, i as int, class),
        i <= r <= s@.len(),
        forall|k: int| i <= k < r ==> byte_in_class(#[trigger] s@[k], class),
{
    proof {
        lemma_run_end_at(s@, i as int, class);
    }
    let mut j = i;
    while j < s.len()
        invariant
            i <= j <= s@.len(),
            run_end_at(s@, j as int, class) == run_end_at(s@, i as int, class),
            forall|k: int| i <= k < j ==> byte_in_class(#[trigger] s@[k], class),
        decreases s@.len() - j,
    {
        let b = s[j];
        let ok = if class == 0 {
            space(b)
        } else if class == 1 {
            name_byte(b)
        } else if class == 2 {
            dec_digit(b)
        } else if class == 3 {
            hex_byte(b)
        } else {
            b == 61u8
        };
        assert(ok == byte_in_class(s@[j as int], class));
        if !ok {
            assert(run_end_at(s@, j as int, class) == j);
            return j;
        }
        j = j + 1;
    }
    j
}

/// The keyword spelled by `text` in Lua 5.`v`, or `Name`; `global` is a keyword from Lua 5.5
/// on.
pub open spec fn keyword_token(text: Seq<u8>, v: usize) -> Token {
    if text == "break".spec_bytes() {
        Token::Break
    } else if text == "return".spec_bytes() {
        Token::Return
    } else if text == "function".spec_bytes() {
        Token::Function
    } else if text == "end".spec_bytes() {
        Token::End
    } else if text == "goto".spec_bytes() {
        Token::Goto
    } else if text == "do".spec_bytes() {
        Token::Do
    } else if text == "while".spec_bytes() {
        Token::While
    } else if text == "repeat".spec_bytes() {
        Token::Repeat
    } else if text == "if".spec_bytes() {
        Token::If
    } else if text == "then".spec_bytes() {
        Token::Then
    } else if text == "until".spec_bytes() {
        Token::Until
    } else if text == "elseif".spec_bytes() {
        Token::Elseif
    } else if text == "else".spec_bytes() {
        Token::Else
    } else if text == "for".spec_bytes() {
        Token::For
    } else if text == "in".spec_bytes() {
        Token::In
    } else if text == "local".spec_bytes() {
        Token::Local
    } else if text == "and".spec_bytes() {
        Token::And
    } else if text == "or".spec_bytes() {
        Token::Or
    } else if text == "not".spec_bytes() {
        Token::Not
    } else if text == "nil".spec_bytes() {
        Token::Nil
    } else if text == "false".spec_bytes() {
        Token::False
    } else if text == "true".spec_bytes() {
        Token::True
    } else if text == "global".spec_bytes() && v == 5 {
        Token::Global
    } else {
        Token::Name
    }
}

/// How the reserved word that is the token `t` is spelled, if `t` is a reserved word.
pub open spec fn keyword_spelling(t: Token) -> Option<&'static str> {
    match t {
        Token::Break => Some("break"),
        Token::Return => Some("return"),
        Token::Function => Some("function"),
        Token::End => Some("end"),
        Token::Goto => Some("goto"),
        Token::Do => Some("do"),
        Token::While => Some("while"),
        Token::Repeat => Some("repeat"),
        Token::If => Some("if"),
        Token::Then => Some("then"),
        Token::Until => Some("until"),
        Token::Elseif => Some("elseif"),
        Token::Else => Some("else"),
        Token::For => Some("for"),
        Token::In => Some("in"),
        Token::Local => Some("local"),
        Token::And => Some("and"),
        Token::Or => Some("or"),
        Token::Not => Some("not"),
        Token::Nil => Some("nil"),
        Token::False => Some("false"),
        Token::True => Some("true"),
        Token::Global => Some("global"),
        _ => None,
    }
}

/// Whether `t` is a reserved word in Lua 5.`v`: every keyword, `global` from Lua 5.5 on.
pub open spec fn reserved_in(t: Token, v: usize) -> bool {
    keyword_spelling(t) is Some && (t != Token::Global || v == 5)
}

/// The bytes of a word of ASCII letters are its characters.
proof fn lemma_ascii_word(w: &str)
    requires
        forall|i: int| 0 <= i < w@.len() ==> 'a' <= #[trigger] w@[i] <= 'z',
    ensures
        w.spec_bytes() == Seq::new(w@.len(), |i: int| w@[i] as u8),
        w.spec_bytes().len() == w@.len(),
        forall|i: int| 0 <= i < w@.len() ==> #[trigger] w.spec_bytes()[i] == w@[i] as u8,
{
    assert(vstd::string::is_ascii(w));
    vstd::string::is_ascii_spec_bytes(w);
}

/// The bytes of each reserved word.
proof fn lemma_keyword_bytes()
    ensures
        "break".spec_bytes().len() == 5,
        "break".spec_bytes()[0] == 98u8,
        "break".spec_bytes()[1] == 114u8,
        "break".spec_bytes()[2] == 101u8,
        "break".spec_bytes()[3] == 97u8,
        "break".spec_bytes()[4] == 107u8,
        "return".spec_bytes().len() == 6,
        "return".spec_bytes()[0] == 114u8,
        "return".spec_bytes()[1] == 101u8,
        "return".spec_bytes()[2] == 116u8,
        "return".spec_bytes()[3] == 117u8,
        "return".spec_bytes()[4] == 114u8,
        "return".spec_bytes()[5] == 110u8,
        "function".spec_bytes().len() == 8,
        "function".spec_bytes()[0] == 102u8,
        "function".spec_bytes()[1] == 117u8,
        "function".spec_bytes()[2] == 110u8,
        "function".spec_bytes()[3] == 99u8,
        "function".spec_bytes()[4] == 116u8,
        "function".spec_bytes()[5] == 105u8,
        "function".spec_bytes()[6] == 111u8,
        "function".spec_bytes()[7] == 110u8,
        "end".spec_bytes().len() == 3,
        "end".spec_bytes()[0] == 101u8,
        "end".spec_bytes()[1] == 110u8,
        "end".spec_bytes()[2] == 100u8,
        "goto".spec_bytes().len() == 4,
        "goto".spec_bytes()[0] == 103u8,
        "goto".spec_bytes()[1] == 111u8,
        "goto".spec_bytes()[2] == 116u8,
        "goto".spec_bytes()[3] == 111u8,
        "do".spec_bytes().len() == 2,
        "do".spec_bytes()[0] == 100u8,
        "do".spec_bytes()[1] == 111u8,
        "while".spec_bytes().len() == 5,
        "while".spec_bytes()[0] == 119u8,
        "while".spec_bytes()[1] == 104u8,
        "while".spec_bytes()[2] == 105u8,
        "while".spec_bytes()[3] == 108u8,
        "while".spec_bytes()[4] == 101u8,
        "repeat".spec_bytes().len() == 6,
        "repeat".spec_bytes()[0] == 114u8,
        "repeat".spec_bytes()[1] == 101u8,
        "repeat".spec_bytes()[2] == 112u8,
        "repeat".spec_bytes()[3] == 101u8,
        "repeat".spec_bytes()[4] == 97u8,
        "repeat".spec_bytes()[5] == 116u8,
        "if".spec_bytes().len() == 2,
        "if".spec_bytes()[0] == 105u8,
        "if".spec_bytes()[1] == 102u8,
        "then".spec_bytes().len() == 4,
        "then".spec_bytes()[0] == 116u8,
        "then".spec_bytes()[1] == 104u8,
        "then".spec_bytes()[2] == 101u8,
        "then".spec_bytes()[3] == 110u8,
        "until".spec_bytes().len() == 5,
        "until".spec_bytes()[0] == 117u8,
        "until".spec_bytes()[1] == 110u8,
        "until".spec_bytes()[2] == 116u8,
        "until".spec_bytes()[3] == 105u8,
        "until".spec_bytes()[4] == 108u8,
        "elseif".spec_bytes().len() == 6,
        "elseif".spec_bytes()[0] == 101u8,
        "elseif".spec_bytes()[1] == 108u8,
        "elseif".spec_bytes()[2] == 115u8,
        "elseif".spec_bytes()[3] == 101u8,
        "elseif".spec_bytes()[4] == 105u8,
        "elseif".spec_bytes()[5] == 102u8,
        "else".spec_bytes().len() == 4,
        "else".spec_bytes()[0] == 101u8,
        "else".spec_bytes()[1] == 108u8,
        "else".spec_bytes()[2] == 115u8,
        "else".spec_bytes()[3] == 101u8,
        "for".spec_bytes().len() == 3,
        "for".spec_bytes()[0] == 102u8,
        "for".spec_bytes()[1] == 111u8,
        "for".spec_bytes()[2] == 114u8,
        "in".spec_bytes().len() == 2,
        "in".spec_bytes()[0] == 105u8,
        "in".spec_bytes()[1] == 110u8,
        "local".spec_bytes().len() == 5,
        "local".spec_bytes()[0] == 108u8,
        "local".spec_bytes()[1] == 111u8,
        "local".spec_bytes()[2] == 99u8,
        "local".spec_bytes()[3] == 97u8,
        "local".spec_bytes()[4] == 108u8,
        "and".spec_bytes().len() == 3,
        "and".spec_bytes()[0] == 97u8,
        "and".spec_bytes()[1] == 110u8,
        "and".spec_bytes()[2] == 100u8,
        "or".spec_bytes().len() == 2,
        "or".spec_bytes()[0] == 111u8,
        "or".spec_bytes()[1] == 114u8,
        "not".spec_bytes().len() == 3,
        "not".spec_bytes()[0] == 110u8,
        "not".spec_bytes()[1] == 111u8,
        "not".spec_bytes()[2] == 116u8,
        "nil".spec_bytes().len() == 3,
        "nil".spec_bytes()[0] == 110u8,
        "nil".spec_bytes()[1] == 105u8,
        "nil".spec_bytes()[2] == 108u8,
        "false".spec_bytes().len() == 5,
        "false".spec_bytes()[0] == 102u8,
        "false".spec_bytes()[1] == 97u8,
        "false".spec_bytes()[2] == 108u8,
        "false".spec_bytes()[3] == 115u8,
        "false".spec_bytes()[4] == 101u8,
        "true".spec_bytes().len() == 4,
        "true".spec_bytes()[0] == 116u8,
        "true".spec_bytes()[1] == 114u8,
        "true".spec_bytes()[2] == 117u8,
        "true".spec_bytes()[3] == 101u8,
        "global".spec_bytes().len() == 6,
        "global".spec_bytes()[0] == 103u8,
        "global".spec_bytes()[1] == 108u8,
        "global".spec_bytes()[2] == 111u8,
        "global".spec_bytes()[3] == 98u8,
        "global".spec_bytes()[4] == 97u8,
        "global".spec_bytes()[5] == 108u8,
{
    reveal_strlit("break");
    lemma_ascii_word("break");
    reveal_strlit("return");
    lemma_ascii_word("return");
    reveal_strlit("function");
    lemma_ascii_word("function");
    reveal_strlit("end");
    lemma_ascii_word("end");
    reveal_strlit("goto");
    lemma_ascii_word("goto");
    reveal_strlit("do");
    lemma_ascii_word("do");
    reveal_strlit("while");
    lemma_ascii_word("while");
    reveal_strlit("repeat");
    lemma_ascii_word("repeat");
    reveal_strlit("if");
    lemma_ascii_word("if");
    reveal_strlit("then");
    lemma_ascii_word("then");
    reveal_strlit("until");
    lemma_ascii_word("until");
    reveal_strlit("elseif");
    lemma_ascii_word("elseif");
    reveal_strlit("else");
    lemma_ascii_word("else");
    reveal_strlit("for");
    lemma_ascii_word("for");
    reveal_strlit("in");
    lemma_ascii_word("in");
    reveal_strlit("local");
    lemma_ascii_word("local");
    reveal_strlit("and");
    lemma_ascii_word("and");
    reveal_strlit("or");
    lemma_ascii_word("or");
    reveal_strlit("not");
    lemma_ascii_word("not");
    reveal_strlit("nil");
    lemma_ascii_word("nil");
    reveal_strlit("false");
    lemma_ascii_word("false");
    reveal_strlit("true");
    lemma_ascii_word("true");
    reveal_strlit("global");
    lemma_ascii_word("global");
}

/// Each reserved word of Lua 5.`v` lexes to its own keyword token, never to a name.
pub proof fn lemma_keywords_lex_to_themselves(t: Token, v: usize)
    requires
        reserved_in(t, v),
    ensures
        keyword_token(keyword_spelling(t)->0.spec_bytes(), v) == t,
        keyword_token(keyword_spelling(t)->0.spec_bytes(), v) != Token::Name,
{
    lemma_keyword_bytes();
}

/// A text that lexes to a keyword is that keyword's spelling, and the keyword is reserved.
pub proof fn lemma_keyword_spelled(text: Seq<u8>, v: usize)
    ensures
        keyword_token(text, v) != Token::Name ==> reserved_in(keyword_token(text, v), v)
            && keyword_spelling(keyword_token(text, v))->0.spec_bytes() == text,
{
}

/// The keyword spelled by `text`, or `Name`.
fn keyword_or_name(text: &[u8], lua_minor_version: usize) -> (r: Token)
    ensures
        r == keyword_token(text@, lua_minor_version),
{
    if bytes_eq(text, "break".as_bytes()) {
        Token::Break
    } else if bytes_eq(text, "return".as_bytes()) {
        Token::Return
    } else if bytes_eq(text, "function".as_bytes()) {
        Token::Function
    } else if bytes_eq(text, "end".as_bytes()) {
        Token::End
    } else if bytes_eq(text, "goto".as_bytes()) {
        Token::Goto
    } else if bytes_eq(text, "do".as_bytes()) {
        Token::Do
    } else if bytes_eq(text, "while".as_bytes()) {
        Token::While
    } else if bytes_eq(text, "repeat".as_bytes()) {
        Token::Repeat
    } else if bytes_eq(text, "if".as_bytes()) {
        Token::If
    } else if bytes_eq(text, "then".as_bytes()) {
        Token::Then
    } else if bytes_eq(text, "until".as_bytes()) {
        Token::Until
    } else if bytes_eq(text, "elseif".as_bytes()) {
        Token::Elseif
    } else if bytes_eq(text, "else".as_bytes()) {
        Token::Else
    } else if bytes_eq(text, "for".as_bytes()) {
        Token::For
    } else if bytes_eq(text, "in".as_bytes()) {
        Token::In
    } else if bytes_eq(text, "local".as_bytes()) {
        Token::Local
    } else if bytes_eq(text, "and".as_bytes()) {
        Token::And
    } else if bytes_eq(text, "or".as_bytes()) {
        Token::Or
    } else if bytes_eq(text, "not".as_bytes()) {
        Token::Not
    } else if bytes_eq(text, "nil".as_bytes()) {
        Token::Nil
    } else if bytes_eq(text, "false".as_bytes()) {
        Token::False
    } else if bytes_eq(text, "true".as_bytes()) {
        Token::True
    } else if bytes_eq(text, "global".as_bytes()) && lua_minor_version == 5 {
        Token::Global
    } else {
        Token::Name
    }
}

/// Whether `b` marks the exponent of a numeral: `e` for decimal, `p` for hexadecimal
/// numerals, in either case.
pub open spec fn is_exponent_marker(b: u8, hex: bool) -> bool {
    if hex {
        b == 112u8 || b == 80u8
    } else {
        b == 101u8 || b == 69u8
    }
}

/// The end of the optional exponent of a numeral at `i`: a marker, an optional sign and at
/// least one decimal digit (hexadecimal digit for a hexadecimal numeral); `i` when there is
/// none.
pub open spec fn exponent_end_at(s: Seq<u8>, i: int, hex: bool) -> int {
    if 0 <= i < s.len() && is_exponent_marker(s[i], hex) {
        let j = if i + 1 < s.len() && (s[i + 1] == 43u8 || s[i + 1] == 45u8) {
            i + 2
        } else {
            i + 1
        };
        let e = run_end_at(s, j, if hex { 3u8 } else { 2u8 });
        if e > j {
            e
        } else {
            i
        }
    } else {
        i
    }
}

fn exponent_end(s: &[u8], i: usize, hex: bool) -> (r: usize)
    requires
        i <= s@.len(),
    ensures
        r == exponent_end_at(s@, i as int, hex),
        i <= r <= s@.len(),
{
    if i < s.len() {
        let m = s[i];
        let is_marker = if hex {
            m == 112u8 || m == 80u8
        } else {
            m == 101u8 || m == 69u8
        };
        if is_marker {
            let mut j = i + 1;
            if j < s.len() && (s[j] == 43u8 || s[j] == 45u8) {
                j = j + 1;
            }
            let e = run_end(s, j, if hex { 3 } else { 2 });
            if e > j {
                return e;
            }
        }
    }
    i
}

/// The longest decimal numeral at `i`, with its kind, if one starts there:
/// `[0-9]+` or `[0-9]+\.[0-9]*(exp)?`, `\.[0-9]+(exp)?`, `[0-9]+exp`.
pub open spec fn decimal_numeral_at(s: Seq<u8>, i: int) -> Option<(Token, int)> {
    let d = run_end_at(s, i, 2);
    if d > i {
        if d < s.len() && s[d] == 46u8 {
            Some((Token::DecFloatNumeral, exponent_end_at(s, run_end_at(s, d + 1, 2), false)))
        } else if exponent_end_at(s, d, false) > d {
            Some((Token::DecFloatNumeral, exponent_end_at(s, d, false)))
        } else {
            Some((Token::DecIntNumeral, d))
        }
    } else if s[i] == 46u8 && run_end_at(s, i + 1, 2) > i + 1 {
        Some((Token::DecFloatNumeral, exponent_end_at(s, run_end_at(s, i + 1, 2), false)))
    } else {
        None
    }
}

/// The longest hexadecimal numeral at `i`, with its kind, if one starts there: `0x` and
/// `[0-9a-f]+` or `[0-9a-f]+\.[0-9a-f]*(exp)?`, `\.[0-9a-f]+(exp)?`, `[0-9a-f]+exp`.
pub open spec fn hex_numeral_at(s: Seq<u8>, i: int) -> Option<(Token, int)> {
    if s[i] == 48u8 && i + 1 < s.len() && (s[i + 1] == 120u8 || s[i + 1] == 88u8) {
        let h = run_end_at(s, i + 2, 3);
        if h > i + 2 {
            if h < s.len() && s[h] == 46u8 {
                Some((Token::HexFloatNumeral, exponent_end_at(s, run_end_at(s, h + 1, 3), true)))
            } else if exponent_end_at(s, h, true) > h {
                Some((Token::HexFloatNumeral, exponent_end_at(s, h, true)))
            } else {
                Some((Token::HexIntNumeral, h))
            }
        } else if i + 2 < s.len() && s[i + 2] == 46u8 && run_end_at(s, i + 3, 3) > i + 3 {
            Some((Token::HexFloatNumeral, exponent_end_at(s, run_end_at(s, i + 3, 3), true)))
        } else {
            None
        }
    } else {
        None
    }
}

/// The longest numeral at `i` and its kind, if one starts there; of a decimal and a
/// hexadecimal match, the longer one, the decimal one when they are equally long.
pub open spec fn numeral_at(s: Seq<u8>, i: int) -> Option<(Token, int)> {
    match (decimal_numeral_at(s, i), hex_numeral_at(s, i)) {
        (Some((dt, de)), Some((ht, he))) => if he > de {
            Some((ht, he))
        } else {
            Some((dt, de))
        },
        (Some(d), None) => Some(d),
        (None, h) => h,
    }
}

/// The longest numeral at `i` and its kind, if one starts there.
fn numeral(s: &[u8], i: usize) -> (r: Option<(Token, usize)>)
    requires
        i < s@.len(),
    ensures
        r is Some <==> numeral_at(s@, i as int) is Some,
        r matches Some((t, e)) ==> t == (numeral_at(s@, i as int)->0).0 && e == (numeral_at(s@, i as int)->0).1,
        r matches Some((_, e)) ==> i < e <= s@.len(),
{
    proof {
        lemma_run_end_at(s@, i as int, 2);
        lemma_run_end_at(s@, i + 1, 2);
    }
    let mut best: Option<(Token, usize)> = None;
    let d = run_end(s, i, 2);
    if d > i {
        if d < s.len() && s[d] == 46u8 {
            let f = run_end(s, d + 1, 2);
            let e = exponent_end(s, f, false);
            best = Some((Token::DecFloatNumeral, e));
        } else {
            let e = exponent_end(s, d, false);
            if e > d {
                best = Some((Token::DecFloatNumeral, e));
            } else {
                best = Some((Token::DecIntNumeral, d));
            }
        }
    } else if s[i] == 46u8 {
        let f = run_end(s, i + 1, 2);
        if f > i + 1 {
            let e = exponent_end(s, f, false);
            best = Some((Token::DecFloatNumeral, e));
        }
    }
    assert(best is Some <==> decimal_numeral_at(s@, i as int) is Some);
    assert(best matches Some((t, e)) ==> t == (decimal_numeral_at(s@, i as int)->0).0 && e == (decimal_numeral_at(s@, i as int)->0).1 && e > i);
    if s[i] == 48u8 && i + 1 < s.len() && (s[i + 1] == 120u8 || s[i + 1] == 88u8) {
        let h = run_end(s, i + 2, 3);
        let mut hex_best: Option<(Token, usize)> = None;
        if h > i + 2 {
            if h < s.len() && s[h] == 46u8 {
                let f = run_end(s, h + 1, 3);
                let e = exponent_end(s, f, true);
                hex_best = Some((Token::HexFloatNumeral, e));
            } else {
                let e = exponent_end(s, h, true);
                if e > h {
                    hex_best = Some((Token::HexFloatNumeral, e));
                } else {
                    hex_best = Some((Token::HexIntNumeral, h));
                }
            }
        } else if i + 2 < s.len() && s[i + 2] == 46u8 {
            let f = run_end(s, i + 3, 3);
            if f > i + 3 {
                let e = exponent_end(s, f, true);
                hex_best = Some((Token::HexFloatNumeral, e));
            }
        }
        assert(hex_best is Some <==> hex_numeral_at(s@, i as int) is Some);
        assert(hex_best matches Some((t, e)) ==> t == (hex_numeral_at(s@, i as int)->0).0 && e == (hex_numeral_at(s@, i as int)->0).1 && e > i);
        if let Some((t, e)) = hex_best {
            match best {
                Some((_, b)) => {
                    if e > b {
                        best = Some((t, e));
                    }
                },
                None => {
                    best = Some((t, e));
                },
            }
        }
    }
    best
}

/// The level of a long bracket `[=*[` that opens at `i`: its number of `=`.
pub open spec fn long_bracket_level_at(s: Seq<u8>, i: int) -> Option<int> {
    let j = run_end_at(s, i + 1, 4);
    if 0 <= i < s.len() && s[i] == 91u8 && j < s.len() && s[j] == 91u8 {
        Some(j - i - 1)
    } else {
        None
    }
}

fn long_bracket_level(s: &[u8], i: usize) -> (r: Option<usize>)
    requires
        i < s@.len(),
    ensures
        r is Some <==> long_bracket_level_at(s@, i as int) is Some,
        r matches Some(level) ==> level == long_bracket_level_at(s@, i as int)->0,
        r matches Some(level) ==> i + level + 2 <= s@.len(),
{
    proof {
        lemma_run_end_at(s@, i + 1, 4);
    }
    if s[i] != 91u8 {
        return None;
    }
    let j = run_end(s, i + 1, 4);
    if j < s.len() && s[j] == 91u8 {
        Some(j - i - 1)
    } else {
        None
    }
}

/// A closing long bracket `]=*]` of `level` starts at `j`.
pub open spec fn closes_at(s: Seq<u8>, j: int, level: int) -> bool {
    &&& 0 <= j
    &&& j + level + 1 < s.len()
    &&& s[j] == 93u8
    &&& forall|k: int| j < k <= j + level ==> s[k] == 61u8
    &&& s[j + level + 1] == 93u8
}

/// The end of the first closing long bracket of `level` at or after `from`.
pub open spec fn long_close_at(s: Seq<u8>, from: int, level: int) -> Option<int>
    decreases s.len() - from,
{
    if from < 0 || from >= s.len() {
        None
    } else if closes_at(s, from, level) {
        Some(from + level + 2)
    } else {
        long_close_at(s, from + 1, level)
    }
}

/// Whether the `count` bytes from `from` on are all `=`.
fn equals_run(s: &[u8], from: usize, count: usize) -> (r: bool)
    requires
        from + count <= s@.len(),
    ensures
        r == forall|k: int| from <= k < from + count ==> s@[k] == 61u8,
{
    let n = s.len();
    let mut k: usize = 0;
    while k < count
        invariant
            k <= count,
            from + count <= n,
            n == s@.len(),
            forall|m: int| from <= m < from + k ==> s@[m] == 61u8,
        decreases count - k,
    {
        if s[from + k] != 61u8 {
            return false;
        }
        k = k + 1;
    }
    true
}

fn find_long_close(s: &[u8], from: usize, level: usize) -> (r: Option<usize>)
    requires
        from <= s@.len(),
    ensures
        r is Some <==> long_close_at(s@, from as int, level as int) is Some,
        r matches Some(e) ==> e == long_close_at(s@, from as int, level as int)->0,
        r matches Some(e) ==> from < e <= s@.len(),
{
    let mut j = from;
    while j < s.len()
        invariant
            from <= j <= s@.len(),
            long_close_at(s@, j as int, level as int) == long_close_at(s@, from as int, level as int),
        decreases s@.len() - j,
    {
        if s[j] == 93u8 && level < s.len() - j - 1 && equals_run(s, j + 1, level) && s[j + 1 + level] == 93u8 {
            assert(closes_at(s@, j as int, level as int));
            return Some(j + level + 2);
        }
        j = j + 1;
    }
    None
}

/// The first line feed at or after `from`.
pub open spec fn line_feed_at(s: Seq<u8>, from: int) -> Option<int>
    decreases s.len() - from,
{
    if from < 0 || from >= s.len() {
        None
    } else if s[from] == 10u8 {
        Some(from)
    } else {
        line_feed_at(s, from + 1)
    }
}

fn find_line_feed(s: &[u8], from: usize) -> (r: Option<usize>)
    requires
        from <= s@.len(),
    ensures
        r is Some <==> line_feed_at(s@, from as int) is Some,
        r matches Some(p) ==> p == line_feed_at(s@, from as int)->0,
        r matches Some(p) ==> from <= p < s@.len(),
{
    let mut j = from;
    while j < s.len()
        invariant
            from <= j <= s@.len(),
            line_feed_at(s@, j as int) == line_feed_at(s@, from as int),
        decreases s@.len() - j,
    {
        if s[j] == 10u8 {
            return Some(j);
        }
        j = j + 1;
    }
    None
}

/// The end of a short string whose quote is `q`, scanning from `j`: just after the first
/// unescaped `q`; a backslash escapes the byte after it.
pub open spec fn short_string_end(s: Seq<u8>, j: int, q: u8) -> Option<int>
    decreases s.len() - j,
{
    if j < 0 || j >= s.len() {
        None
    } else if s[j] == q {
        Some(j + 1)
    } else if s[j] == 92u8 && j + 1 < s.len() {
        short_string_end(s, j + 2, q)
    } else {
        short_string_end(s, j + 1, q)
    }
}

/// The number of bytes of the UTF-8 sequence that starts with byte `b`; 1 for a byte that
/// cannot start one.
pub open spec fn utf8_len_of(b: u8) -> nat {
    if 0xc0u8 <= b <= 0xdfu8 {
        2
    } else if 0xe0u8 <= b <= 0xefu8 {
        3
    } else if 0xf0u8 <= b <= 0xf7u8 {
        4
    } else {
        1
    }
}

fn utf8_len(b: u8) -> (r: usize)
    ensures
        r == utf8_len_of(b),
{
    if 0xc0u8 <= b && b <= 0xdfu8 {
        2
    } else if 0xe0u8 <= b && b <= 0xefu8 {
        3
    } else if 0xf0u8 <= b && b <= 0xf7u8 {
        4
    } else {
        1
    }
}

/// The punctuation token that starts with byte `c`, followed by `next` and `next2` (0 past
/// the end), with its length; `(Error, 0)` for a byte that starts none.
pub open spec fn punctuation(c: u8, next: u8, next2: u8) -> (Token, int) {
    if c == 59u8 {
        (Token::Semi, 1)
    } else if c == 58u8 {
        if next == 58u8 { (Token::ColonColon, 2) } else { (Token::Colon, 1) }
    } else if c == 46u8 {
        if next == 46u8 {
            if next2 == 46u8 { (Token::Dot3, 3) } else { (Token::Dot2, 2) }
        } else {
            (Token::Dot, 1)
        }
    } else if c == 44u8 {
        (Token::Comma, 1)
    } else if c == 61u8 {
        if next == 61u8 { (Token::EqualEqual, 2) } else { (Token::Equal, 1) }
    } else if c == 43u8 {
        (Token::Plus, 1)
    } else if c == 42u8 {
        (Token::Star, 1)
    } else if c == 47u8 {
        if next == 47u8 { (Token::SlashSlash, 2) } else { (Token::Slash, 1) }
    } else if c == 94u8 {
        (Token::Hat, 1)
    } else if c == 37u8 {
        (Token::Percent, 1)
    } else if c == 38u8 {
        (Token::Ampersand, 1)
    } else if c == 126u8 {
        if next == 61u8 { (Token::TildeEqual, 2) } else { (Token::Tilde, 1) }
    } else if c == 124u8 {
        (Token::Pipe, 1)
    } else if c == 62u8 {
        if next == 62u8 {
            (Token::GtGt, 2)
        } else if next == 61u8 {
            (Token::GreaterEqual, 2)
        } else {
            (Token::Greater, 1)
        }
    } else if c == 60u8 {
        if next == 60u8 {
            (Token::LtLt, 2)
        } else if next == 61u8 {
            (Token::LessEqual, 2)
        } else {
            (Token::Less, 1)
        }
    } else if c == 93u8 {
        (Token::RBrak, 1)
    } else if c == 40u8 {
        (Token::LParen, 1)
    } else if c == 41u8 {
        (Token::RParen, 1)
    } else if c == 123u8 {
        (Token::LBrace, 1)
    } else if c == 125u8 {
        (Token::RBrace, 1)
    } else {
        (Token::Error, 0)
    }
}

/// The token of `s` at `i` in Lua 5.`v`: its kind or the error that ends it, and its end.
/// Whitespace, names and keywords, and numerals are the longest runs of their bytes;
/// `--` starts a comment, long after `--[=*[` and up to the end of the line otherwise;
/// quotes and long brackets start strings; `#` at the very start begins a comment line;
/// other tokens are the longest punctuation; any other byte is an invalid character of the
/// length its UTF-8 lead byte announces.
#[verifier::opaque]
pub open spec fn token_at(s: Seq<u8>, i: int, v: usize) -> (Result<Token, LexerError>, int) {
    let c = s[i];
    let n = s.len() as int;
    if is_space(c) {
        (Ok(Token::Whitespace), run_end_at(s, i, 0))
    } else if is_name_start(c) {
        (Ok(keyword_token(s.subrange(i, run_end_at(s, i, 1)), v)), run_end_at(s, i, 1))
    } else if (is_dec_digit(c) || c == 46u8) && numeral_at(s, i) is Some {
        (Ok((numeral_at(s, i)->0).0), (numeral_at(s, i)->0).1)
    } else if c == 45u8 && i + 1 < n && s[i + 1] == 45u8 {
        if i + 2 < n && long_bracket_level_at(s, i + 2) is Some {
            let level = long_bracket_level_at(s, i + 2)->0;
            match long_close_at(s, i + level + 4, level) {
                Some(e) => (Ok(Token::Comment), e),
                None => (Err(LexerError::UnterminatedComment), n),
            }
        } else {
            let from = if i + 2 < n && s[i + 2] == 91u8 { i + 3 } else { i + 2 };
            match line_feed_at(s, from) {
                Some(p) => (Ok(Token::Comment), p),
                None => (Err(LexerError::UnterminatedComment), n),
            }
        }
    } else if c == 45u8 {
        (Ok(Token::Minus), i + 1)
    } else if c == 34u8 || c == 39u8 {
        match short_string_end(s, i + 1, c) {
            Some(e) => (Ok(Token::LiteralString), e),
            None => (Err(LexerError::UnterminatedString), n),
        }
    } else if c == 91u8 && long_bracket_level_at(s, i) is Some {
        let level = long_bracket_level_at(s, i)->0;
        match long_close_at(s, i + level + 2, level) {
            Some(e) => (Ok(Token::LiteralString), e),
            None => (Err(LexerError::UnterminatedString), n),
        }
    } else if c == 91u8 {
        (Ok(Token::LBrak), i + 1)
    } else if c == 35u8 && i == 0 {
        match line_feed_at(s, 1) {
            Some(p) => (Ok(Token::FirstLineComment), p + 1),
            None => (Ok(Token::FirstLineComment), 1),
        }
    } else if c == 35u8 {
        (Ok(Token::Hash), i + 1)
    } else {
        let next: u8 = if i + 1 < n { s[i + 1] } else { 0u8 };
        let next2: u8 = if i + 2 < n { s[i + 2] } else { 0u8 };
        let (tok, len) = punctuation(c, next, next2);
        if len > 0 {
            (Ok(tok), i + len)
        } else if i + utf8_len_of(c) <= n {
            (Err(LexerError::Invalid), i + utf8_len_of(c))
        } else {
            (Err(LexerError::Invalid), n)
        }
    }
}

/// The next token of `s` at `i` in Lua 5.`lua_minor_version`: its kind or the error that
/// ends it, and its end.
pub fn next_token(s: &[u8], i: usize, lua_minor_version: usize) -> (r: (Result<Token, LexerError>, usize))
    requires
        i < s@.len(),
    ensures
        r.0 == token_at(s@, i as int, lua_minor_version).0,
        r.1 == token_at(s@, i as int, lua_minor_version).1,
        i < r.1 <= s@.len(),
        r.0 == Ok::<Token, LexerError>(Token::Whitespace) ==> forall|k: int| i <= k < r.1 ==> is_space(#[trigger] s@[k]),
        r.0 == Ok::<Token, LexerError>(Token::Name) ==> is_name_start(s@[i as int]) && forall|k: int| i <= k < r.1 ==> is_name_byte(#[trigger] s@[k]),
        r.0 == Ok::<Token, LexerError>(Token::DecIntNumeral) ==> forall|k: int| i <= k < r.1 ==> is_dec_digit(#[trigger] s@[k]),
        r.0 == Ok::<Token, LexerError>(Token::FirstLineComment) ==> i == 0 && s@[0] == 35u8,
{
    let c = s[i];
    let n = s.len();
    proof {
        reveal(token_at);
        lemma_run_end_at(s@, i as int, 0);
        lemma_run_end_at(s@, i as int, 1);
        lemma_run_end_at(s@, i as int, 2);
    }
    if space(c) {
        let e = run_end(s, i, 0);
        return (Ok(Token::Whitespace), e);
    }
    if name_start(c) {
        let e = run_end(s, i, 1);
        let tok = keyword_or_name(slice_range(s, i, e), lua_minor_version);
        return (Ok(tok), e);
    }
    if dec_digit(c) || c == 46u8 {
        if let Some((tok, e)) = numeral(s, i) {
            return (Ok(tok), e);
        }
    }
    if c == 45u8 {
        if i + 1 < n && s[i + 1] == 45u8 {
            if i + 2 < n {
                if let Some(level) = long_bracket_level(s, i + 2) {
                    return match find_long_close(s, i + level + 4, level) {
                        Some(e) => (Ok(Token::Comment), e),
                        None => (Err(LexerError::UnterminatedComment), n),
                    };
                }
            }
            let from = if i + 2 < n && s[i + 2] == 91u8 {
                i + 3
            } else {
                i + 2
            };
            return match find_line_feed(s, from) {
                Some(p) => (Ok(Token::Comment), p),
                None => (Err(LexerError::UnterminatedComment), n),
            };
        }
        return (Ok(Token::Minus), i + 1);
    }
    if c == 34u8 || c == 39u8 {
        let ghost expected = match short_string_end(s@, i + 1, c) {
            Some(e) => (Ok::<Token, LexerError>(Token::LiteralString), e),
            None => (Err::<Token, LexerError>(LexerError::UnterminatedString), n as int),
        };
        assert(token_at(s@, i as int, lua_minor_version) == expected);
        let mut j = i + 1;
        while j < n
            invariant
                i < j <= n,
                n == s@.len(),
                short_string_end(s@, j as int, c) == short_string_end(s@, i + 1, c),
                token_at(s@, i as int, lua_minor_version) == expected,
                expected == match short_string_end(s@, i + 1, c) {
                    Some(e) => (Ok::<Token, LexerError>(Token::LiteralString), e),
                    None => (Err::<Token, LexerError>(LexerError::UnterminatedString), n as int),
                },
            decreases n - j,
        {
            let b = s[j];
            if b == c {
                assert(short_string_end(s@, j as int, c) == Some(j + 1));
                return (Ok(Token::LiteralString), j + 1);
            }
            if b == 92u8 && j + 1 < n {
                j = j + 2;
            } else {
                j = j + 1;
            }
        }
        return (Err(LexerError::UnterminatedString), n);
    }
    if c == 91u8 {
        if let Some(level) = long_bracket_level(s, i) {
            return match find_long_close(s, i + level + 2, level) {
                Some(e) => (Ok(Token::LiteralString), e),
                None => (Err(LexerError::UnterminatedString), n),
            };
        }
        return (Ok(Token::LBrak), i + 1);
    }
    if c == 35u8 {
        if i == 0 {
            return match find_line_feed(s, 1) {
                Some(p) => (Ok(Token::FirstLineComment), p + 1),
                None => (Ok(Token::FirstLineComment), 1),
            };
        }
        return (Ok(Token::Hash), i + 1);
    }
    let next: u8 = if i + 1 < n { s[i + 1] } else { 0u8 };
    let next2: u8 = if n - i > 2 { s[i + 2] } else { 0u8 };
    let (tok, len): (Token, usize) = if c == 59u8 {
        (Token::Semi, 1)
    } else if c == 58u8 {
        if next == 58u8 { (Token::ColonColon, 2) } else { (Token::Colon, 1) }
    } else if c == 46u8 {
        if next == 46u8 {
            if next2 == 46u8 { (Token::Dot3, 3) } else { (Token::Dot2, 2) }
        } else {
            (Token::Dot, 1)
        }
    } else if c == 44u8 {
        (Token::Comma, 1)
    } else if c == 61u8 {
        if next == 61u8 { (Token::EqualEqual, 2) } else { (Token::Equal, 1) }
    } else if c == 43u8 {
        (Token::Plus, 1)
    } else if c == 42u8 {
        (Token::Star, 1)
    } else if c == 47u8 {
        if next == 47u8 { (Token::SlashSlash, 2) } else { (Token::Slash, 1) }
    } else if c == 94u8 {
        (Token::Hat, 1)
    } else if c == 37u8 {
        (Token::Percent, 1)
    } else if c == 38u8 {
        (Token::Ampersand, 1)
    } else if c == 126u8 {
        if next == 61u8 { (Token::TildeEqual, 2) } else { (Token::Tilde, 1) }
    } else if c == 124u8 {
        (Token::Pipe, 1)
    } else if c == 62u8 {
        if next == 62u8 {
            (Token::GtGt, 2)
        } else if next == 61u8 {
            (Token::GreaterEqual, 2)
        } else {
            (Token::Greater, 1)
        }
    } else if c == 60u8 {
        if next == 60u8 {
            (Token::LtLt, 2)
        } else if next == 61u8 {
            (Token::LessEqual, 2)
        } else {
            (Token::Less, 1)
        }
    } else if c == 93u8 {
        (Token::RBrak, 1)
    } else if c == 40u8 {
        (Token::LParen, 1)
    } else if c == 41u8 {
        (Token::RParen, 1)
    } else if c == 123u8 {
        (Token::LBrace, 1)
    } else if c == 125u8 {
        (Token::RBrace, 1)
    } else {
        (Token::Error, 0)
    };
    if len > 0 {
        (Ok(tok), i + len)
    } else {
        let l = utf8_len(c);
        (Err(LexerError::Invalid), if l <= n - i { i + l } else { n })
    }
}

impl LexerError {
    /// The diagnostic of the error at `span`.
    pub fn into_diagnostic(self, diag_ctx: &DiagnosticContext, span: Span) -> (r: Diagnostic)
        ensures
            r@ == (DiagnosticView {
                error: true,
                groups: seq![annotated(Level::Error, lexer_error_title(self), seq![ann(AnnotationKind::Primary, span, None)])],
            }),
            diagnostic_ok(diag_ctx, r@),
    {
        match self {
            LexerError::Invalid => diag_ctx.invalid_token(span),
            LexerError::UnterminatedString => diag_ctx.unterminated_string(span),
            LexerError::UnterminatedComment => diag_ctx.unterminated_comment(span),
        }
    }
}

/// The title of the diagnostic of a lexer error.
pub open spec fn lexer_error_title(e: LexerError) -> Seq<char> {
    match e {
        LexerError::Invalid => "invalid token"@,
        LexerError::UnterminatedString => "unterminated string"@,
        LexerError::UnterminatedComment => "unterminated comment"@,
    }
}

/// The display width of a text in columns, as the `unicode-width` crate computes it.
pub uninterp spec fn display_width(text: Seq<u8>) -> nat;

/// `UnicodeWidthStr::width` of `unicode-width` on the text, read as UTF-8 (lossily, which
/// changes nothing for the valid UTF-8 that sources are): a function of the text alone.
#[verifier::external_body]
fn text_width(text: &[u8]) -> (r: usize)
    ensures
        r == display_width(text@),
{
    unicode_width::UnicodeWidthStr::width(String::from_utf8_lossy(text).as_ref())
}

/// `char::from_u32`: the character of a Unicode scalar value.
#[verifier::external_body]
fn scalar_char(v: u32) -> (r: char)
    requires
        vstd::utf8::is_scalar(v),
    ensures
        r as u32 == v,
        r == v as char,
{
    char::from_u32(v).unwrap_or('\u{FFFD}')
}

/// The character encoded in UTF-8 at index `i` of `s` and its length, if a valid encoding
/// starts there.
pub fn decode_at(s: &[u8], i: usize) -> (r: Option<(u32, usize)>)
    requires
        i < s@.len(),
    ensures
        r is Some <==> vstd::utf8::valid_first_scalar(s@.skip(i as int)),
        r matches Some((c, l)) ==> c == vstd::utf8::decode_first_scalar(s@.skip(i as int))
            && l == vstd::utf8::length_of_first_scalar(s@.skip(i as int)) && 1 <= l <= 4 && i + l <= s@.len(),
{
    let ghost t = s@.skip(i as int);
    let n = s.len() - i;
    let b0 = s[i];
    assert(t[0] == b0);
    if b0 <= 0x7fu8 {
        return Some(((b0 & 0x7F) as u32, 1));
    }
    if 0xc0u8 <= b0 && b0 <= 0xdfu8 {
        if n >= 2 && 0x80u8 <= s[i + 1] && s[i + 1] <= 0xbfu8 {
            assert(t[1] == s@[i + 1]);
            let c: u32 = (((b0 & 0x1F) as u32) << 6) | ((s[i + 1] & 0x3f) as u32);
            if 0x80u32 <= c && !(0xD800u32 <= c && c <= 0xDFFFu32) {
                return Some((c, 2));
            }
        }
        return None;
    }
    if 0xe0u8 <= b0 && b0 <= 0xefu8 {
        if n >= 3 && 0x80u8 <= s[i + 1] && s[i + 1] <= 0xbfu8 && 0x80u8 <= s[i + 2] && s[i + 2] <= 0xbfu8 {
            assert(t[1] == s@[i + 1]);
            assert(t[2] == s@[i + 2]);
            let c: u32 = (((b0 & 0x0F) as u32) << 12) | (((s[i + 1] & 0x3f) as u32) << 6) | ((s[i + 2] & 0x3f) as u32);
            if 0x800u32 <= c && !(0xD800u32 <= c && c <= 0xDFFFu32) {
                return Some((c, 3));
            }
        }
        return None;
    }
    if 0xf0u8 <= b0 && b0 <= 0xf7u8 {
        if n >= 4 && 0x80u8 <= s[i + 1] && s[i + 1] <= 0xbfu8 && 0x80u8 <= s[i + 2] && s[i + 2] <= 0xbfu8
            && 0x80u8 <= s[i + 3] && s[i + 3] <= 0xbfu8 {
            assert(t[1] == s@[i + 1]);
            assert(t[2] == s@[i + 2]);
            assert(t[3] == s@[i + 3]);
            let c: u32 = (((b0 & 0x07) as u32) << 18) | (((s[i + 1] & 0x3f) as u32) << 12) | (((s[i + 2] & 0x3f) as u32) << 6) | ((s[i + 3] & 0x3f) as u32);
            if 0x10000u32 <= c && c <= 0x10ffffu32 && !(0xD800u32 <= c && c <= 0xDFFFu32) {
                return Some((c, 4));
            }
        }
        return None;
    }
    None
}

/// Whether the character is one of the invisible characters that the lint reports: zero
/// width space, soft hyphen, word joiner, or a character of a private use area.
pub open spec fn invisible(c: u32) -> bool {
    c == 0x200B || c == 0xAD || c == 0x2060 || (0xE000 <= c <= 0xF8FF) || (0x100000 <= c <= 0x10FFFD)
}

/// The source bytes of a token: `span` lies in `source`.
pub open spec fn span_in(source: Seq<u8>, span: Span) -> bool {
    span.start <= span.end <= source.len()
}

/// The report of a line from `start` to `end` that is wider than the threshold, where the
/// lint is not allowed.
pub open spec fn line_length_reports(ctx: &DiagnosticContext, s: Seq<u8>, start: int, end: int) -> Seq<DiagnosticView> {
    let width = display_width(s.subrange(start, end));
    if ctx.levels@[LINE_TOO_LONG as int] != Severity::Allow && width > ctx.config.line_length_threshold {
        seq![lint_diagnostic(ctx, LINE_TOO_LONG, seq![ann(AnnotationKind::Primary, Span { start: start as usize, end: end as usize }, None)], seq![note(Level::Note, "line has "@ + decimal(width) + " columns and the threshold is set to "@ + decimal(ctx.config.line_length_threshold as nat))])]
    } else {
        Seq::empty()
    }
}

/// Reports a line of the source that is wider than the threshold; the line runs from `line_start`
/// to `end`.
fn check_line_length(
    diag_ctx: &DiagnosticContext,
    source: &[u8],
    line_start: usize,
    end: usize,
    diags: &mut Vec<Diagnostic>,
)
    requires
        diag_ctx.levels@.len() == LINT_COUNT,
        line_start <= end <= source@.len(),
    ensures
        diagnostics_view(final(diags)@) == diagnostics_view(old(diags)@) + line_length_reports(diag_ctx, source@, line_start as int, end as int),
        reported(diag_ctx, source@.len() as int, old(diags)@, final(diags)@),
{
    let ghost before = diagnostics_view(diags@);
    if let Some(line_too_long) = diag_ctx.active::<LineTooLong>() {
        let line_span = Span { start: line_start, end };
        let line_length = text_width(slice_range(source, line_start, end));
        if line_length > diag_ctx.config.line_length_threshold {
            let d = line_too_long.build(line_span, line_length);
            diags.push(d);
            assert(diagnostics_view(diags@) =~= before + seq![d@]);
        }
    }
    assert(diagnostics_view(diags@) =~= before + line_length_reports(diag_ctx, source@, line_start as int, end as int));
}

/// `spans` with the byte at `at` added: the last span extended when it ends there, else a new
/// span for that byte.
pub open spec fn extended_spans(spans: Seq<Span>, at: int) -> Seq<Span> {
    if spans.len() > 0 && spans.last().end == at {
        spans.update(spans.len() - 1, Span { start: spans.last().start, end: (at + 1) as usize })
    } else {
        spans.push(Span { start: at as usize, end: (at + 1) as usize })
    }
}

/// Extends the last span of `spans` by the byte at `at` when it ends there, else adds a span
/// for that byte.
fn extend_spans(spans: &mut Vec<Span>, at: usize)
    requires
        at < usize::MAX,
    ensures
        final(spans)@ == extended_spans(old(spans)@, at as int),
        final(spans)@.len() > 0,
{
    let n = spans.len();
    if n > 0 && spans[n - 1].end == at {
        let last = spans[n - 1];
        spans.set(n - 1, Span { start: last.start, end: at + 1 });
    } else {
        spans.push(Span { start: at, end: at + 1 });
    }
}

/// Extending spans that end by `at` by the byte at `at` keeps them ending by `at + 1`.
proof fn lemma_extended_spans_by(spans: Seq<Span>, at: int)
    requires
        0 <= at < usize::MAX,
        forall|k: int| 0 <= k < spans.len() ==> #[trigger] spans[k].start <= at && spans[k].end <= at,
    ensures
        forall|k: int| 0 <= k < extended_spans(spans, at).len() ==> #[trigger] extended_spans(spans, at)[k].start <= at + 1
            && extended_spans(spans, at)[k].end <= at + 1,
{
    let e = extended_spans(spans, at);
    if spans.len() > 0 && spans.last().end == at {
        let last = Span { start: spans.last().start, end: (at + 1) as usize };
        assert(e == spans.update(spans.len() - 1, last));
        assert(spans[spans.len() - 1].start <= at);
        assert forall|k: int| 0 <= k < e.len() implies #[trigger] e[k].start <= at + 1 && e[k].end <= at + 1 by {
            if k != spans.len() - 1 {
                assert(e[k] == spans[k]);
            } else {
                assert(e[k] == last);
            }
        }
    } else {
        let next = Span { start: at as usize, end: (at + 1) as usize };
        assert(e == spans.push(next));
        assert forall|k: int| 0 <= k < e.len() implies #[trigger] e[k].start <= at + 1 && e[k].end <= at + 1 by {
            if k < spans.len() {
                assert(e[k] == spans[k]);
            } else {
                assert(e[k] == next);
            }
        }
    }
}

/// The report of mixed indentation points into a source of length `len` when the tab and
/// space spans do.
proof fn lemma_indentation_within(ctx: &DiagnosticContext, tabs: Seq<Span>, spaces: Seq<Span>, len: int)
    requires
        forall|k: int| 0 <= k < tabs.len() ==> span_within(#[trigger] tabs[k], len),
        forall|k: int| 0 <= k < spaces.len() ==> span_within(#[trigger] spaces[k], len),
    ensures
        forall|k: int| 0 <= k < indentation_reports(ctx, tabs, spaces).len() ==> crate::lints::diagnostic_within(#[trigger] indentation_reports(ctx, tabs, spaces)[k], len),
{
    if ctx.levels@[INCONSISTENT_INDENTATION as int] != Severity::Allow && tabs.len() > 0 && spaces.len() > 0 {
        lemma_annotations_within(tabs, AnnotationKind::Primary, "tab"@, len);
        lemma_annotations_within(spaces, AnnotationKind::Context, "space"@, len);
        let a = counted_spans_annotations(tabs, AnnotationKind::Primary, "tab"@);
        let b = counted_spans_annotations(spaces, AnnotationKind::Context, "space"@);
        assert forall|i: int| 0 <= i < (a + b).len() implies span_within(#[trigger] (a + b)[i].span, len) by {
            if i < a.len() {
                assert((a + b)[i] == a[i]);
            } else {
                assert((a + b)[i] == b[i - a.len()]);
            }
        }
        lemma_lint_diagnostic_within(ctx, INCONSISTENT_INDENTATION, a + b, Seq::empty(), len);
    }
}

/// The report of a line indented with tabs after spaces, where the lint is not allowed.
pub open spec fn indentation_reports(ctx: &DiagnosticContext, tabs: Seq<Span>, spaces: Seq<Span>) -> Seq<DiagnosticView> {
    if ctx.levels@[INCONSISTENT_INDENTATION as int] != Severity::Allow && tabs.len() > 0 && spaces.len() > 0 {
        seq![lint_diagnostic(ctx, INCONSISTENT_INDENTATION, counted_spans_annotations(tabs, AnnotationKind::Primary, "tab"@) + counted_spans_annotations(spaces, AnnotationKind::Context, "space"@), Seq::empty())]
    } else {
        Seq::empty()
    }
}

/// The report of whitespace from `start` to `end` before a line break, where the lint is not
/// allowed: trailing whitespace after code when `trailing`, else a line of whitespace only.
pub open spec fn blank_reports(ctx: &DiagnosticContext, start: int, end: int, trailing: bool) -> Seq<DiagnosticView> {
    let index = if trailing { TRAILING_WHITESPACE } else { ONLY_WHITESPACE };
    if ctx.levels@[index as int] != Severity::Allow {
        seq![lint_diagnostic(ctx, index, seq![ann(AnnotationKind::Primary, Span { start: start as usize, end: end as usize }, None)], Seq::empty())]
    } else {
        Seq::empty()
    }
}

/// The reports of the whitespace token `span` from its offset `i` on, and the start of the
/// line where it ends. `after_newline` is the offset after the last line break seen in the
/// token (0 before any), `tabs` and `spaces` are the runs of the current line's indentation
/// (tabs count only after a space), and `last` is the start of the current line.
pub open spec fn ws_reports_from(
    ctx: &DiagnosticContext,
    s: Seq<u8>,
    span: Span,
    i: int,
    after_newline: int,
    tabs: Seq<Span>,
    spaces: Seq<Span>,
    last: int,
) -> (Seq<DiagnosticView>, int)
    decreases span.end - span.start - i,
{
    if i < 0 || i >= span.end - span.start {
        (indentation_reports(ctx, tabs, spaces), last)
    } else {
        let p = span.start + i;
        let c = s[p];
        if c == 10u8 || c == 13u8 {
            let blank = if after_newline != i {
                blank_reports(ctx, span.start + after_newline, p, after_newline == 0)
            } else {
                Seq::empty()
            };
            let rest = ws_reports_from(ctx, s, span, i + 1, i + 1, Seq::empty(), Seq::empty(), p + 1);
            (blank + line_length_reports(ctx, s, last, p) + indentation_reports(ctx, tabs, spaces) + rest.0, rest.1)
        } else if c == 32u8 {
            ws_reports_from(ctx, s, span, i + 1, after_newline, tabs, extended_spans(spaces, p), last)
        } else if c == 9u8 && spaces.len() > 0 {
            ws_reports_from(ctx, s, span, i + 1, after_newline, extended_spans(tabs, p), spaces, last)
        } else {
            ws_reports_from(ctx, s, span, i + 1, after_newline, tabs, spaces, last)
        }
    }
}

/// The reports of the whitespace token `span` on a line that starts at `last`: trailing
/// whitespace, lines of whitespace only, lines that are too long, and indentation that mixes
/// tabs after spaces; and the start of the line where the token ends.
pub open spec fn whitespace_reports(ctx: &DiagnosticContext, s: Seq<u8>, span: Span, last: int) -> (Seq<DiagnosticView>, int) {
    ws_reports_from(ctx, s, span, 0, 0, Seq::empty(), Seq::empty(), last)
}

/// Checks a whitespace token at `span`: trailing whitespace, lines of whitespace only, lines
/// that are too long, and indentation that mixes tabs after spaces. `last_after_newline` is
/// the start of the current line.
#[verifier::spinoff_prover]
#[verifier::rlimit(40)]
fn check_whitespace(
    diag_ctx: &DiagnosticContext,
    source: &[u8],
    span: Span,
    diags: &mut Vec<Diagnostic>,
    last_after_newline: &mut usize,
)
    requires
        diag_ctx.levels@.len() == LINT_COUNT,
        span_in(source@, span),
        *old(last_after_newline) <= span.start,
    ensures
        diagnostics_view(final(diags)@) == diagnostics_view(old(diags)@) + whitespace_reports(diag_ctx, source@, span, *old(last_after_newline) as int).0,
        *final(last_after_newline) == whitespace_reports(diag_ctx, source@, span, *old(last_after_newline) as int).1,
        *final(last_after_newline) <= span.end,
        *old(last_after_newline) <= *final(last_after_newline),
        reported(diag_ctx, source@.len() as int, old(diags)@, final(diags)@),
{
    let ghost total = whitespace_reports(diag_ctx, source@, span, *last_after_newline as int);
    let ghost base = diagnostics_view(diags@);
    let mut after_newline: usize = 0;
    let mut tab_spans: Vec<Span> = Vec::new();
    let mut space_spans: Vec<Span> = Vec::new();
    let len = span.end - span.start;
    let mut i: usize = 0;
    assert(tab_spans@ =~= Seq::<Span>::empty() && space_spans@ =~= Seq::<Span>::empty());
    while i < len
        invariant
            diag_ctx.levels@.len() == LINT_COUNT,
            span_in(source@, span),
            len == span.end - span.start,
            i <= len,
            after_newline <= i,
            *old(last_after_newline) <= *last_after_newline <= span.start + i,
            reported(diag_ctx, source@.len() as int, old(diags)@, diags@),
            diagnostics_view(diags@) + ws_reports_from(diag_ctx, source@, span, i as int, after_newline as int, tab_spans@, space_spans@, *last_after_newline as int).0 == base + total.0,
            ws_reports_from(diag_ctx, source@, span, i as int, after_newline as int, tab_spans@, space_spans@, *last_after_newline as int).1 == total.1,
            base == diagnostics_view(old(diags)@),
            total == whitespace_reports(diag_ctx, source@, span, *old(last_after_newline) as int),
            forall|k: int| 0 <= k < tab_spans@.len() ==> #[trigger] tab_spans@[k].start <= span.start + i && tab_spans@[k].end <= span.start + i,
            forall|k: int| 0 <= k < space_spans@.len() ==> #[trigger] space_spans@[k].start <= span.start + i && space_spans@[k].end <= span.start + i,
        decreases len - i,
    {
        let c = source[span.start + i];
        let ghost before = diagnostics_view(diags@);
        if c == 10u8 || c == 13u8 {
            if after_newline != i {
                if after_newline != 0 {
                    if let Some(only_whitespace) = diag_ctx.active::<OnlyWhitespace>() {
                        diags.push(only_whitespace.build(Span { start: span.start + after_newline, end: span.start + i }));
                    }
                } else {
                    if let Some(trailing_whitespace) = diag_ctx.active::<TrailingWhitespace>() {
                        diags.push(trailing_whitespace.build(Span { start: span.start + after_newline, end: span.start + i }));
                    }
                }
            }
            let ghost blank = if after_newline != i {
                blank_reports(diag_ctx, span.start + after_newline, span.start + i, after_newline == 0)
            } else {
                Seq::empty()
            };
            assert(diagnostics_view(diags@) =~= before + blank);
            let ghost old_tabs = tab_spans@;
            let ghost old_spaces = space_spans@;
            let ghost old_last = *last_after_newline as int;
            after_newline = i + 1;
            check_line_length(diag_ctx, source, *last_after_newline, span.start + i, diags);
            *last_after_newline = span.start + after_newline;
            let ghost before_indent = diagnostics_view(diags@);
            if let Some(inconsistent_indentation) = diag_ctx.active::<InconsistentIndentation>() {
                if tab_spans.len() > 0 && space_spans.len() > 0 {
                    let d = inconsistent_indentation.build(&tab_spans, &space_spans);
                    proof {
                        lemma_indentation_within(diag_ctx, old_tabs, old_spaces, source@.len() as int);
                        assert(d@ == indentation_reports(diag_ctx, old_tabs, old_spaces)[0]);
                    }
                    diags.push(d);
                    assert(diagnostics_view(diags@) =~= before_indent + seq![d@]);
                }
            }
            assert(diagnostics_view(diags@) =~= before_indent + indentation_reports(diag_ctx, old_tabs, old_spaces));
            tab_spans = Vec::new();
            space_spans = Vec::new();
            assert(tab_spans@ =~= Seq::<Span>::empty() && space_spans@ =~= Seq::<Span>::empty());
            assert(diagnostics_view(diags@) =~= before + (blank + line_length_reports(diag_ctx, source@, old_last, span.start + i) + indentation_reports(diag_ctx, old_tabs, old_spaces)));
        } else if c == 32u8 {
            proof { lemma_extended_spans_by(space_spans@, span.start + i); }
            extend_spans(&mut space_spans, span.start + i);
            assert(forall|k: int| 0 <= k < space_spans@.len() ==> #[trigger] space_spans@[k].start <= span.start + i + 1 && space_spans@[k].end <= span.start + i + 1);
        } else if c == 9u8 && space_spans.len() > 0 {
            proof { lemma_extended_spans_by(tab_spans@, span.start + i); }
            extend_spans(&mut tab_spans, span.start + i);
            assert(forall|k: int| 0 <= k < tab_spans@.len() ==> #[trigger] tab_spans@[k].start <= span.start + i + 1 && tab_spans@[k].end <= span.start + i + 1);
        }
        assert(forall|k: int| 0 <= k < tab_spans@.len() ==> #[trigger] tab_spans@[k].start <= span.start + i + 1 && tab_spans@[k].end <= span.start + i + 1);
        i = i + 1;
    }
    let ghost before_end = diagnostics_view(diags@);
    if let Some(inconsistent_indentation) = diag_ctx.active::<InconsistentIndentation>() {
        if tab_spans.len() > 0 && space_spans.len() > 0 {
            let d = inconsistent_indentation.build(&tab_spans, &space_spans);
            proof {
                lemma_indentation_within(diag_ctx, tab_spans@, space_spans@, source@.len() as int);
                assert(d@ == indentation_reports(diag_ctx, tab_spans@, space_spans@)[0]);
            }
            diags.push(d);
            assert(diagnostics_view(diags@) =~= before_end + seq![d@]);
        }
    }
    assert(diagnostics_view(diags@) =~= before_end + indentation_reports(diag_ctx, tab_spans@, space_spans@));
}

/// The span of a character of a string or comment at `i`, of length `l`, for the checks.
pub open spec fn char_span(i: int, l: int) -> Span {
    Span { start: i as usize, end: (i + l) as usize }
}

/// The report of an invisible character `c` at `span`, where the lint is not allowed.
pub open spec fn invisible_reports(ctx: &DiagnosticContext, c: u32, span: Span) -> Seq<DiagnosticView> {
    if ctx.levels@[INVISIBLE_CHARACTERS as int] != Severity::Allow && invisible(c) {
        seq![lint_diagnostic(ctx, INVISIBLE_CHARACTERS, seq![ann(AnnotationKind::Primary, span, Some("character "@ + char_debug(c as char) + " at this position"@))], seq![note(Level::Note, "there is no good reason for using such characters in code"@)])]
    } else {
        Seq::empty()
    }
}

/// The reports of the string or comment token `span` from `i` on, and the start of the line
/// where it ends: invisible characters, and the lines it ends that are too long; `last` is
/// the start of the current line.
pub open spec fn text_reports_from(ctx: &DiagnosticContext, s: Seq<u8>, span: Span, i: int, last: int) -> (Seq<DiagnosticView>, int)
    decreases span.end - i,
{
    let (c, l) = token_char(s, span, i);
    if i < span.start || i >= span.end || l < 1 || i + l > span.end {
        (Seq::empty(), last)
    } else {
        let newline = c == 10u32 || c == 13u32;
        let rest = text_reports_from(ctx, s, span, i + l, if newline { i + 1 } else { last });
        (invisible_reports(ctx, c, char_span(i, l)) + (if newline {
            line_length_reports(ctx, s, last, i)
        } else {
            Seq::empty()
        }) + rest.0, rest.1)
    }
}

/// Checks a string or comment token at `span` for invisible characters, and the lines it ends
/// for their length.
fn check_invisible_unicode(
    diag_ctx: &DiagnosticContext,
    source: &[u8],
    span: Span,
    diags: &mut Vec<Diagnostic>,
    last_after_newline: &mut usize,
)
    requires
        diag_ctx.levels@.len() == LINT_COUNT,
        span_in(source@, span),
        *old(last_after_newline) <= span.start,
    ensures
        diagnostics_view(final(diags)@) == diagnostics_view(old(diags)@) + text_reports_from(diag_ctx, source@, span, span.start as int, *old(last_after_newline) as int).0,
        *final(last_after_newline) == text_reports_from(diag_ctx, source@, span, span.start as int, *old(last_after_newline) as int).1,
        *final(last_after_newline) <= span.end,
        *old(last_after_newline) <= *final(last_after_newline),
        reported(diag_ctx, source@.len() as int, old(diags)@, final(diags)@),
{
    let ghost total = text_reports_from(diag_ctx, source@, span, span.start as int, *last_after_newline as int);
    let ghost base = diagnostics_view(diags@);
    let mut i = span.start;
    while i < span.end
        invariant
            diag_ctx.levels@.len() == LINT_COUNT,
            span_in(source@, span),
            span.start <= i <= span.end,
            *old(last_after_newline) <= *last_after_newline <= i,
            reported(diag_ctx, source@.len() as int, old(diags)@, diags@),
            diagnostics_view(diags@) + text_reports_from(diag_ctx, source@, span, i as int, *last_after_newline as int).0 == base + total.0,
            text_reports_from(diag_ctx, source@, span, i as int, *last_after_newline as int).1 == total.1,
            base == diagnostics_view(old(diags)@),
            total == text_reports_from(diag_ctx, source@, span, span.start as int, *old(last_after_newline) as int),
        decreases span.end - i,
    {
        let (c, l) = char_at(source, span, i);
        let ghost before = diagnostics_view(diags@);
        let ghost old_last = *last_after_newline as int;
        if let Some(invisible_characters) = diag_ctx.active::<InvisibleCharacters>() {
            if c == 0x200Bu32 || c == 0xADu32 || c == 0x2060u32 || (0xE000u32 <= c && c <= 0xF8FFu32)
                || (0x100000u32 <= c && c <= 0x10FFFDu32) {
                let d = invisible_characters.build(Span { start: i, end: i + l }, scalar_char(c));
                diags.push(d);
                assert(diagnostics_view(diags@) =~= before + seq![d@]);
            }
        }
        assert(diagnostics_view(diags@) =~= before + invisible_reports(diag_ctx, c, char_span(i as int, l as int)));
        let ghost mid = diagnostics_view(diags@);
        if c == 10u32 || c == 13u32 {
            check_line_length(diag_ctx, source, *last_after_newline, i, diags);
            *last_after_newline = i + 1;
        }
        assert(diagnostics_view(diags@) =~= mid + (if c == 10u32 || c == 13u32 {
            line_length_reports(diag_ctx, source@, old_last, i as int)
        } else {
            Seq::empty()
        }));
        i = i + l;
    }
}

/// The value of a hexadecimal number as `u32::from_str_radix(_, 16)` reads it: an optional
/// `+`, then at least one hexadecimal digit, and no overflow.
pub open spec fn hex_u32(s: Seq<u8>) -> Option<u32> {
    let digits = unsigned_digits(s);
    if digits.len() > 0 && (forall|k: int| 0 <= k < digits.len() ==> is_hex_byte(#[trigger] digits[k]))
        && crate::sema::hex_value(digits) <= u32::MAX {
        Some(crate::sema::hex_value(digits) as u32)
    } else {
        None
    }
}

/// The digits of a number: the number without an optional leading `+`.
pub open spec fn unsigned_digits(s: Seq<u8>) -> Seq<u8> {
    if s.len() > 0 && s[0] == 43u8 {
        s.drop_first()
    } else {
        s
    }
}

/// The value of the hexadecimal number `s` as `u32::from_str_radix(_, 16)` reads it.
fn parse_hex_u32(s: &[u8]) -> (r: Option<u32>)
    ensures
        r == hex_u32(s@),
{
    let start: usize = if s.len() > 0 && s[0] == 43u8 { 1 } else { 0 };
    let digits = slice_range(s, start, s.len());
    assert(digits@ =~= unsigned_digits(s@));
    if digits.len() == 0 {
        return None;
    }
    let mut v: u64 = 0;
    let mut i: usize = 0;
    while i < digits.len()
        invariant
            i <= digits@.len(),
            digits@ == unsigned_digits(s@),
            forall|k: int| 0 <= k < i ==> is_hex_byte(#[trigger] digits@[k]),
            v == crate::sema::hex_value(digits@.subrange(0, i as int)),
            v <= u32::MAX,
        decreases digits@.len() - i,
    {
        let b = digits[i];
        let d: u64 = if 48u8 <= b && b <= 57u8 {
            (b - 48u8) as u64
        } else if 97u8 <= b && b <= 102u8 {
            (b - 87u8) as u64
        } else if 65u8 <= b && b <= 70u8 {
            (b - 55u8) as u64
        } else {
            assert(!is_hex_byte(digits@[i as int]));
            assert(!(forall|k: int| 0 <= k < digits@.len() ==> is_hex_byte(#[trigger] digits@[k])));
            return None;
        };
        assert(digits@.subrange(0, i + 1).drop_last() =~= digits@.subrange(0, i as int));
        assert(digits@.subrange(0, i + 1).last() == b);
        let next = v * 16 + d;
        if next > 0xffff_ffffu64 {
            proof {
                lemma_hex_value_grows(digits@, i as int + 1);
                assert(crate::sema::hex_value(digits@.subrange(0, i + 1)) == next);
            }
            return None;
        }
        v = next;
        i = i + 1;
    }
    assert(digits@.subrange(0, digits@.len() as int) =~= digits@);
    Some(v as u32)
}

/// A hexadecimal number only grows as digits are appended.
proof fn lemma_hex_value_grows(s: Seq<u8>, i: int)
    requires
        0 <= i <= s.len(),
    ensures
        crate::sema::hex_value(s.subrange(0, i)) <= crate::sema::hex_value(s),
    decreases s.len() - i,
{
    if i < s.len() {
        lemma_hex_value_grows(s, i + 1);
        assert(s.subrange(0, i + 1).drop_last() =~= s.subrange(0, i));
    } else {
        assert(s.subrange(0, i) =~= s);
    }
}

/// The character at `j` of the token `span` of `s` and its length in bytes, as the checks of
/// strings and comments read it: a valid UTF-8 sequence (cut at the token's end), or an
/// invalid byte as U+FFFD.
pub open spec fn token_char(s: Seq<u8>, span: Span, j: int) -> (u32, int) {
    if vstd::utf8::valid_first_scalar(s.skip(j)) {
        let l = vstd::utf8::length_of_first_scalar(s.skip(j));
        (vstd::utf8::decode_first_scalar(s.skip(j)), if l <= span.end - j {
            l
        } else {
            span.end - j
        })
    } else {
        (0xFFFDu32, 1)
    }
}

/// The character at `j` of the token `span` of `source`, with its length in bytes; an
/// invalid byte counts as a character of its own.
fn char_at(source: &[u8], span: Span, j: usize) -> (r: (u32, usize))
    requires
        span_in(source@, span),
        span.start <= j < span.end,
    ensures
        r.0 == token_char(source@, span, j as int).0,
        r.1 == token_char(source@, span, j as int).1,
        1 <= r.1 <= span.end - j,
{
    match decode_at(source, j) {
        Some((c, l)) => (c, if l <= span.end - j { l } else { span.end - j }),
        None => (0xFFFDu32, 1),
    }
}

/// The span from the byte before offset `off` of a token at `base` through the byte at it.
pub open spec fn back_span(base: int, off: int) -> Span {
    Span { start: (base + off - if off > 0 { 1int } else { 0int }) as usize, end: (base + off + 1) as usize }
}

/// `x + y`, saturated at the largest `usize`.
pub open spec fn saturated(x: int, y: int) -> usize {
    if x + y > usize::MAX {
        usize::MAX
    } else {
        (x + y) as usize
    }
}

/// The error for an invalid escape sequence at `span`.
pub open spec fn escape_report(span: Span) -> DiagnosticView {
    DiagnosticView { error: true, groups: seq![annotated(Level::Error, "invalid escape sequence"@, seq![ann(AnnotationKind::Primary, span, None)])] }
}

/// The error for an invalid `\x` escape sequence at `span`.
pub open spec fn hex_escape_report(span: Span) -> DiagnosticView {
    DiagnosticView { error: true, groups: seq![annotated(Level::Error, "invalid hexadecimal escape sequence"@, seq![ann(AnnotationKind::Primary, span, None)])] + seq![note(Level::Note, "expected exactly two hexadecimal digits"@)] }
}

/// The error for an invalid `\u` escape sequence at `span`.
pub open spec fn unicode_escape_report(span: Span) -> DiagnosticView {
    DiagnosticView { error: true, groups: seq![annotated(Level::Error, "invalid unicode escape sequence"@, seq![ann(AnnotationKind::Primary, span, None)])] }
}

/// The reports of the `\x` escape whose backslash is at offset `i_off` of the token `span`,
/// reading its digits from `j`, `k` of them read already; and where the scan goes on.
pub open spec fn hex_escape(s: Seq<u8>, span: Span, i_off: int, j: int, k: int) -> (Seq<DiagnosticView>, int)
    decreases 2 - k,
{
    if k >= 2 {
        (Seq::empty(), j)
    } else if j < span.end {
        let (h, hl) = token_char(s, span, j);
        if !(h < 128 && is_hex_byte(h as u8)) {
            (seq![hex_escape_report(Span { start: (span.start + i_off) as usize, end: saturated(span.start + i_off, k + 2) })], j + hl)
        } else {
            hex_escape(s, span, i_off, j + hl, k + 1)
        }
    } else {
        hex_escape(s, span, i_off, j, k + 1)
    }
}

/// The scan of the digits of a `\u{...}` escape whose `u` is at offset `ei`, from `j`, `k`
/// characters read already and the digits ending at offset `num_end`: the report of a bad
/// digit or a missing `}`, where the scan goes on, and the end of the digits.
pub open spec fn brace_scan(s: Seq<u8>, span: Span, ei: int, j: int, k: int, num_end: int) -> (Option<DiagnosticView>, int, int)
    decreases 9 - k,
{
    if k >= 9 {
        (None, j, num_end)
    } else if j < span.end {
        let (h, hl) = token_char(s, span, j);
        if h == 125u32 {
            (None, j + hl, num_end)
        } else if !(h < 128 && is_hex_byte(h as u8)) || k == 8 {
            (Some(unicode_escape_report(Span { start: (span.start + ei - if ei > 0 { 1int } else { 0int }) as usize, end: saturated(span.start + ei, k + 2) })), j + hl, num_end)
        } else {
            brace_scan(s, span, ei, j + hl, k + 1, num_end + 1)
        }
    } else {
        brace_scan(s, span, ei, j, k + 1, num_end)
    }
}

/// The reports of the code point of a `\u{...}` escape, whose digits run from offset
/// `num_start` of the token `span` to offset `num_end`: a value that UTF-8 cannot encode, or,
/// where their lints are not allowed, one above U+10FFFF or a surrogate.
pub open spec fn code_point_reports(ctx: &DiagnosticContext, s: Seq<u8>, span: Span, num_start: int, num_end: int) -> Seq<DiagnosticView> {
    let base = span.start as int;
    if 0 <= num_start <= num_end <= span.end - span.start {
        match hex_u32(s.subrange(base + num_start, base + num_end)) {
            Some(num) => {
                let num_span = Span { start: (base + num_start) as usize, end: (base + num_end) as usize };
                if num >= 0x8000_0000u32 {
                    seq![DiagnosticView { error: true, groups: seq![annotated(Level::Error, "UTF-8 value is too large"@, seq![ann(AnnotationKind::Primary, num_span, None)])] + seq![note(Level::Note, "the code point can be any value less than 0x80000000"@)] + seq![note(Level::Note, "the original UTF-8 specification is not restricted to valid Unicode code points"@)] }]
                } else if num > 0x10FFFFu32 && ctx.levels@[UNICODE_CODE_POINT_TOO_LARGE as int] != Severity::Allow {
                    seq![lint_diagnostic(ctx, UNICODE_CODE_POINT_TOO_LARGE, seq![ann(AnnotationKind::Primary, num_span, None)], seq![note(Level::Note, "Lua allows invalid Unicode code points larger than 0x10FFFF"@)])]
                } else if 0xD800u32 <= num < 0xE000u32 && ctx.levels@[UNICODE_CODE_POINT_IS_SURROGATE as int] != Severity::Allow {
                    seq![lint_diagnostic(ctx, UNICODE_CODE_POINT_IS_SURROGATE, seq![ann(AnnotationKind::Primary, num_span, None)], seq![note(Level::Note, "Lua allows invalid Unicode code points between 0xD800 and 0xDFFF"@)])]
                } else {
                    Seq::empty()
                }
            },
            None => Seq::empty(),
        }
    } else {
        Seq::empty()
    }
}

/// The reports of the `\u` escape whose `u` is at offset `ei` of the token `span`, reading on
/// from `j`; and where the scan goes on.
pub open spec fn unicode_escape(ctx: &DiagnosticContext, s: Seq<u8>, span: Span, ei: int, j: int) -> (Seq<DiagnosticView>, int) {
    let base = span.start as int;
    if j < span.end && token_char(s, span, j).0 != 123u32 {
        (seq![unicode_escape_report(back_span(base, j - base))], j + token_char(s, span, j).1)
    } else {
        let j1 = if j < span.end { j + token_char(s, span, j).1 } else { j };
        let scan = brace_scan(s, span, ei, j1, 0, ei + 2);
        match scan.0 {
            Some(r) => (seq![r], scan.1),
            None => (code_point_reports(ctx, s, span, ei + 2, scan.2), scan.1),
        }
    }
}

/// Whether `e` completes a backslash escape on its own.
pub open spec fn simple_escape(e: u32) -> bool {
    e == 97u32 || e == 98u32 || e == 102u32 || e == 110u32 || e == 114u32 || e == 116u32 || e == 118u32
        || e == 92u32 || e == 34u32 || e == 39u32 || e == 122u32 || e == 10u32
}

/// The report of the non-ASCII character at `j` of length `l`, where the lint is not allowed
/// and the bytes there encode a Unicode scalar value.
pub open spec fn non_ascii_reports(ctx: &DiagnosticContext, s: Seq<u8>, j: int, l: int) -> Seq<DiagnosticView> {
    let v = vstd::utf8::decode_first_scalar(s.skip(j));
    if ctx.levels@[NON_ASCII_LITERAL as int] != Severity::Allow && vstd::utf8::valid_first_scalar(s.skip(j))
        && v <= 0x10FFFFu32 && !(0xD800u32 <= v <= 0xDFFFu32) {
        let span = char_span(j, l);
        seq![lint_diagnostic(ctx, NON_ASCII_LITERAL, seq![ann(AnnotationKind::Primary, span, None)], seq![patches(Level::Help, "rewrite the character with an escape sequence"@, seq![patch(span, "\\u{"@ + hexadecimal((v as char) as nat) + "}"@)])])]
    } else {
        Seq::empty()
    }
}

/// The reports of the escape sequence whose backslash, of length `l`, is at `j` in the token
/// `span`, and where the scan goes on after it.
pub open spec fn escape_step(ctx: &DiagnosticContext, s: Seq<u8>, span: Span, j: int, l: int) -> (Seq<DiagnosticView>, int) {
    let base = span.start as int;
    let j1 = j + l;
    let (e, el) = token_char(s, span, j1);
    let j2 = j1 + el;
    if j1 >= span.end {
        (Seq::empty(), j1)
    } else if simple_escape(e) || (48u32 <= e <= 57u32) {
        (Seq::empty(), j2)
    } else if e == 13u32 {
        if j2 < span.end {
            let (f, fl) = token_char(s, span, j2);
            (if f != 10u32 {
                seq![escape_report(back_span(base, j - base))]
            } else {
                Seq::empty()
            }, j2 + fl)
        } else {
            (Seq::empty(), j2)
        }
    } else if e == 120u32 {
        hex_escape(s, span, j - base, j2, 0)
    } else if e == 117u32 {
        unicode_escape(ctx, s, span, j1 - base, j2)
    } else {
        (seq![escape_report(back_span(base, j1 - base))], j2)
    }
}

/// The reports of the escape sequences and non-ASCII characters of the short string token
/// `span` from `j` on.
pub open spec fn string_reports_from(ctx: &DiagnosticContext, s: Seq<u8>, span: Span, j: int) -> Seq<DiagnosticView>
    decreases span.end - j,
{
    let (c, l) = token_char(s, span, j);
    if j < span.start || j >= span.end || l < 1 || j + l > span.end {
        Seq::empty()
    } else if c == 92u32 {
        let st = escape_step(ctx, s, span, j, l);
        if st.1 <= j || st.1 > span.end {
            st.0
        } else {
            st.0 + string_reports_from(ctx, s, span, st.1)
        }
    } else if c >= 128u32 {
        non_ascii_reports(ctx, s, j, l) + string_reports_from(ctx, s, span, j + l)
    } else {
        string_reports_from(ctx, s, span, j + l)
    }
}

/// The reports of the escape sequences and non-ASCII characters of the string token `span`;
/// a long string has no escape sequences.
pub open spec fn string_reports(ctx: &DiagnosticContext, s: Seq<u8>, span: Span) -> Seq<DiagnosticView> {
    if s[span.start as int] == 91u8 {
        Seq::empty()
    } else {
        string_reports_from(ctx, s, span, span.start as int)
    }
}

/// Bounds of the scan of a `\x` escape.
proof fn lemma_hex_escape_bounds(s: Seq<u8>, span: Span, i_off: int, j: int, k: int)
    requires
        span_in(s, span),
        span.start <= j <= span.end,
    ensures
        j <= hex_escape(s, span, i_off, j, k).1 <= span.end,
    decreases 2 - k,
{
    if k < 2 {
        if j < span.end {
            let (h, hl) = token_char(s, span, j);
            lemma_token_char_len(s, span, j);
            lemma_hex_escape_bounds(s, span, i_off, j + hl, k + 1);
        } else {
            lemma_hex_escape_bounds(s, span, i_off, j, k + 1);
        }
    }
}

/// Bounds of the scan of the digits of a `\u{...}` escape.
proof fn lemma_brace_scan_bounds(s: Seq<u8>, span: Span, ei: int, j: int, k: int, num_start: int, num_end: int)
    requires
        span_in(s, span),
        span.start <= j <= span.end,
        0 <= k <= 9,
        num_start <= num_end <= num_start + k,
    ensures
        j <= brace_scan(s, span, ei, j, k, num_end).1 <= span.end,
        num_start <= brace_scan(s, span, ei, j, k, num_end).2 <= num_start + 9,
    decreases 9 - k,
{
    if k < 9 {
        if j < span.end {
            lemma_token_char_len(s, span, j);
            let (h, hl) = token_char(s, span, j);
            lemma_brace_scan_bounds(s, span, ei, j + hl, k + 1, num_start, num_end + 1);
        } else {
            lemma_brace_scan_bounds(s, span, ei, j, k + 1, num_start, num_end);
        }
    }
}

/// A character of a token has a length of at least one byte and ends within the token.
proof fn lemma_token_char_len(s: Seq<u8>, span: Span, j: int)
    requires
        span_in(s, span),
        span.start <= j < span.end,
    ensures
        1 <= token_char(s, span, j).1 <= span.end - j,
{
    if vstd::utf8::valid_first_scalar(s.skip(j)) {
        assert(1 <= vstd::utf8::length_of_first_scalar(s.skip(j)));
    }
}

/// Checks a `\x` escape whose backslash is at offset `i_off`, reading its digits from `j`;
/// returns where the scan goes on.
fn check_hex_escape(diag_ctx: &DiagnosticContext, source: &[u8], span: Span, i_off: usize, j: usize, diags: &mut Vec<Diagnostic>) -> (r: usize)
    requires
        diag_ctx.levels@.len() == LINT_COUNT,
        span_in(source@, span),
        span.start <= j <= span.end,
        i_off <= span.end - span.start,
        span.start + i_off + 2 <= j,
    ensures
        diagnostics_view(final(diags)@) == diagnostics_view(old(diags)@) + hex_escape(source@, span, i_off as int, j as int, 0).0,
        r == hex_escape(source@, span, i_off as int, j as int, 0).1,
        j <= r <= span.end,
        reported(diag_ctx, source@.len() as int, old(diags)@, final(diags)@),
{
    proof {
        lemma_hex_escape_bounds(source@, span, i_off as int, j as int, 0);
    }
    let ghost total = hex_escape(source@, span, i_off as int, j as int, 0);
    let mut pos = j;
    let mut k: usize = 0;
    while k < 2
        invariant
            diag_ctx.levels@.len() == LINT_COUNT,
            span_in(source@, span),
            span.start <= pos <= span.end,
            i_off <= span.end - span.start,
            k <= 2,
            hex_escape(source@, span, i_off as int, pos as int, k as int) == total,
            total == hex_escape(source@, span, i_off as int, j as int, 0),
            j <= pos,
            pos < span.end ==> span.start + i_off + 2 + k <= pos,
            diags@ == old(diags)@,
        decreases 2 - k,
    {
        if pos < span.end {
            let (h, hl) = char_at(source, span, pos);
            if !(h < 128u32 && hex_byte(h as u8)) {
                let end = (span.start + i_off).saturating_add(k + 2);
                assert(end == saturated(span.start + i_off, k + 2));
                let d = diag_ctx.invalid_hex_escape_sequence(Span { start: span.start + i_off, end });
                assert(hex_escape(source@, span, i_off as int, pos as int, k as int) == (seq![hex_escape_report(Span { start: (span.start + i_off) as usize, end })], pos + hl));
                diags.push(d);
                assert(diagnostics_view(diags@) =~= diagnostics_view(old(diags)@) + seq![d@]);
                return pos + hl;
            }
            pos = pos + hl;
        }
        k = k + 1;
    }
    assert(diagnostics_view(diags@) =~= diagnostics_view(old(diags)@) + Seq::<DiagnosticView>::empty());
    pos
}

/// Checks the code point of a `\u{...}` escape whose `u` is at offset `ei` of the token, with
/// `count` digits after its brace.
fn check_code_point(diag_ctx: &DiagnosticContext, source: &[u8], span: Span, ei: usize, count: usize, diags: &mut Vec<Diagnostic>)
    requires
        diag_ctx.levels@.len() == LINT_COUNT,
        span_in(source@, span),
    ensures
        diagnostics_view(final(diags)@) == diagnostics_view(old(diags)@) + code_point_reports(diag_ctx, source@, span, ei + 2, ei + 2 + count),
        reported(diag_ctx, source@.len() as int, old(diags)@, final(diags)@),
{
    let ghost before = diagnostics_view(diags@);
    let base = span.start;
    let len = span.end - span.start;
    if len >= 2 && ei <= len - 2 && count <= len - 2 - ei {
        let num_start = ei + 2;
        let num_end = num_start + count;
        let digits = slice_range(source, base + num_start, base + num_end);
        if let Some(num) = parse_hex_u32(digits) {
            let num_span = Span { start: base + num_start, end: base + num_end };
            if num >= 0x8000_0000u32 {
                let d = diag_ctx.invalid_utf8_value(num_span);
                diags.push(d);
                assert(diagnostics_view(diags@) =~= before + seq![d@]);
            } else if num > 0x10FFFFu32 && diag_ctx.active::<UnicodeCodePointTooLarge>().is_some() {
                let too_large = UnicodeCodePointTooLarge(diag_ctx);
                let d = too_large.build(num_span);
                diags.push(d);
                assert(diagnostics_view(diags@) =~= before + seq![d@]);
            } else if 0xD800u32 <= num && num < 0xE000u32 && diag_ctx.active::<UnicodeCodePointIsSurrogate>().is_some() {
                let surrogate = UnicodeCodePointIsSurrogate(diag_ctx);
                let d = surrogate.build(num_span);
                diags.push(d);
                assert(diagnostics_view(diags@) =~= before + seq![d@]);
            }
        }
    }
    assert(diagnostics_view(diags@) =~= before + code_point_reports(diag_ctx, source@, span, ei + 2, ei + 2 + count));
}

/// Checks a `\u` escape whose `u` is at offset `ei`, reading on from `j`; returns where the
/// scan goes on.
fn check_unicode_escape(diag_ctx: &DiagnosticContext, source: &[u8], span: Span, ei: usize, j: usize, diags: &mut Vec<Diagnostic>) -> (r: usize)
    requires
        diag_ctx.levels@.len() == LINT_COUNT,
        span_in(source@, span),
        span.start <= j <= span.end,
        ei <= span.end - span.start,
        span.start + ei + 1 <= j,
    ensures
        diagnostics_view(final(diags)@) == diagnostics_view(old(diags)@) + unicode_escape(diag_ctx, source@, span, ei as int, j as int).0,
        r == unicode_escape(diag_ctx, source@, span, ei as int, j as int).1,
        j <= r <= span.end,
        reported(diag_ctx, source@.len() as int, old(diags)@, final(diags)@),
{
    let ghost before = diagnostics_view(diags@);
    let base = span.start;
    let mut pos = j;
    if pos < span.end {
        let (b, bl) = char_at(source, span, pos);
        let bi = pos - base;
        pos = pos + bl;
        if b != 123u32 {
            let d = diag_ctx.invalid_unicode_escape_sequence(Span {
                start: (base + bi) - if bi > 0 { 1 } else { 0 },
                end: base + bi + 1,
            });
            diags.push(d);
            assert(diagnostics_view(diags@) =~= before + seq![d@]);
            return pos;
        }
    }
    proof {
        lemma_brace_scan_bounds(source@, span, ei as int, pos as int, 0, ei + 2, ei + 2);
    }
    let ghost scan = brace_scan(source@, span, ei as int, pos as int, 0, ei + 2);
    assert(unicode_escape(diag_ctx, source@, span, ei as int, j as int) == (match scan.0 {
        Some(r) => (seq![r], scan.1),
        None => (code_point_reports(diag_ctx, source@, span, ei + 2, scan.2), scan.1),
    }));
    let mut count: usize = 0;
    let mut k: usize = 0;
    let mut closed = false;
    while k < 9 && !closed
        invariant
            diag_ctx.levels@.len() == LINT_COUNT,
            span_in(source@, span),
            span.start <= pos <= span.end,
            ei <= span.end - span.start,
            k <= 9,
            base == span.start,
            before == diagnostics_view(old(diags)@),
            count <= k,
            !closed ==> brace_scan(source@, span, ei as int, pos as int, k as int, ei + 2 + count) == scan,
            closed ==> scan == (None::<DiagnosticView>, pos as int, ei + 2 + count),
            j <= pos,
            pos < span.end ==> span.start + ei + 2 + k <= pos,
            unicode_escape(diag_ctx, source@, span, ei as int, j as int) == (match scan.0 {
                Some(r) => (seq![r], scan.1),
                None => (code_point_reports(diag_ctx, source@, span, ei + 2, scan.2), scan.1),
            }),
            diags@ == old(diags)@,
        decreases 9 - k,
    {
        if pos < span.end {
            let (h, hl) = char_at(source, span, pos);
            pos = pos + hl;
            if h == 125u32 {
                closed = true;
            } else if !(h < 128u32 && hex_byte(h as u8)) || k == 8 {
                let d = diag_ctx.invalid_unicode_escape_sequence(Span {
                    start: (base + ei) - if ei > 0 { 1 } else { 0 },
                    end: (base + ei).saturating_add(k + 2),
                });
                diags.push(d);
                assert(diagnostics_view(diags@) =~= before + seq![d@]);
                return pos;
            } else {
                count = count + 1;
            }
        }
        k = k + 1;
    }
    check_code_point(diag_ctx, source, span, ei, count, diags);
    pos
}

/// Checks the escape sequence whose backslash, of length `l`, is at `j`; returns where the
/// scan goes on after it.
fn check_escape(diag_ctx: &DiagnosticContext, source: &[u8], span: Span, j: usize, l: usize, diags: &mut Vec<Diagnostic>) -> (r: usize)
    requires
        diag_ctx.levels@.len() == LINT_COUNT,
        span_in(source@, span),
        span.start <= j < span.end,
        1 <= l <= span.end - j,
    ensures
        diagnostics_view(final(diags)@) == diagnostics_view(old(diags)@) + escape_step(diag_ctx, source@, span, j as int, l as int).0,
        r == escape_step(diag_ctx, source@, span, j as int, l as int).1,
        j < r <= span.end,
        reported(diag_ctx, source@.len() as int, old(diags)@, final(diags)@),
{
    let ghost before = diagnostics_view(diags@);
    let base = span.start;
    let i = j - base;
    let j1 = j + l;
    if j1 >= span.end {
        assert(diagnostics_view(diags@) =~= before + Seq::<DiagnosticView>::empty());
        return j1;
    }
    let (e, el) = char_at(source, span, j1);
    let ei = j1 - base;
    let j2 = j1 + el;
    if e == 97u32 || e == 98u32 || e == 102u32 || e == 110u32 || e == 114u32 || e == 116u32 || e == 118u32
        || e == 92u32 || e == 34u32 || e == 39u32 || e == 122u32 || e == 10u32 || (48u32 <= e && e <= 57u32) {
        assert(diagnostics_view(diags@) =~= before + Seq::<DiagnosticView>::empty());
        j2
    } else if e == 13u32 {
        // `\r` may be followed by a line feed only
        if j2 < span.end {
            let (f, fl) = char_at(source, span, j2);
            if f != 10u32 {
                let d = diag_ctx.invalid_escape_sequence(Span {
                    start: (base + i) - if i > 0 { 1 } else { 0 },
                    end: base + i + 1,
                });
                diags.push(d);
                assert(diagnostics_view(diags@) =~= before + seq![d@]);
            } else {
                assert(diagnostics_view(diags@) =~= before + Seq::<DiagnosticView>::empty());
            }
            j2 + fl
        } else {
            assert(diagnostics_view(diags@) =~= before + Seq::<DiagnosticView>::empty());
            j2
        }
    } else if e == 120u32 {
        // `\x` takes exactly two hexadecimal digits
        check_hex_escape(diag_ctx, source, span, i, j2, diags)
    } else if e == 117u32 {
        // `\u{XXX}`
        check_unicode_escape(diag_ctx, source, span, ei, j2, diags)
    } else {
        let d = diag_ctx.invalid_escape_sequence(Span {
            start: (base + ei) - if ei > 0 { 1 } else { 0 },
            end: base + ei + 1,
        });
        diags.push(d);
        assert(diagnostics_view(diags@) =~= before + seq![d@]);
        j2
    }
}

/// Checks the non-ASCII character of length `l` at `j` of a string token.
fn check_non_ascii(diag_ctx: &DiagnosticContext, source: &[u8], span: Span, j: usize, l: usize, diags: &mut Vec<Diagnostic>)
    requires
        diag_ctx.levels@.len() == LINT_COUNT,
        span_in(source@, span),
        span.start <= j < span.end,
        1 <= l <= span.end - j,
    ensures
        diagnostics_view(final(diags)@) == diagnostics_view(old(diags)@) + non_ascii_reports(diag_ctx, source@, j as int, l as int),
        reported(diag_ctx, source@.len() as int, old(diags)@, final(diags)@),
{
    let ghost before = diagnostics_view(diags@);
    if let Some(non_ascii_literal) = diag_ctx.active::<NonAsciiLiteral>() {
        if let Some((v, _)) = decode_at(source, j) {
            if v <= 0x10FFFFu32 && !(0xD800u32 <= v && v <= 0xDFFFu32) {
                let d = non_ascii_literal.build(Span { start: j, end: j + l }, scalar_char(v));
                diags.push(d);
                assert(diagnostics_view(diags@) =~= before + seq![d@]);
            }
        }
    }
    assert(diagnostics_view(diags@) =~= before + non_ascii_reports(diag_ctx, source@, j as int, l as int));
}

/// Checks the escape sequences and the non-ASCII characters of a string token at `span`.
fn check_string(diag_ctx: &DiagnosticContext, source: &[u8], span: Span, diags: &mut Vec<Diagnostic>)
    requires
        diag_ctx.levels@.len() == LINT_COUNT,
        span_in(source@, span),
        span.start < span.end,
    ensures
        diagnostics_view(final(diags)@) == diagnostics_view(old(diags)@) + string_reports(diag_ctx, source@, span),
        reported(diag_ctx, source@.len() as int, old(diags)@, final(diags)@),
{
    if source[span.start] == 91u8 {
        // long strings have no escape sequences
        assert(diagnostics_view(diags@) =~= diagnostics_view(old(diags)@) + string_reports(diag_ctx, source@, span));
        return;
    }
    let ghost total = string_reports(diag_ctx, source@, span);
    let ghost base_view = diagnostics_view(diags@);
    let mut j = span.start;
    while j < span.end
        invariant
            diag_ctx.levels@.len() == LINT_COUNT,
            span_in(source@, span),
            span.start <= j <= span.end,
            reported(diag_ctx, source@.len() as int, old(diags)@, diags@),
            diagnostics_view(diags@) + string_reports_from(diag_ctx, source@, span, j as int) == base_view + total,
            base_view == diagnostics_view(old(diags)@),
            total == string_reports_from(diag_ctx, source@, span, span.start as int),
        decreases span.end - j,
    {
        let (c, l) = char_at(source, span, j);
        let ghost before = diagnostics_view(diags@);
        let ghost here = string_reports_from(diag_ctx, source@, span, j as int);
        let next: usize;
        if c == 92u32 {
            next = check_escape(diag_ctx, source, span, j, l, diags);
        } else {
            if c >= 128u32 {
                check_non_ascii(diag_ctx, source, span, j, l, diags);
            }
            next = j + l;
        }
        assert(diagnostics_view(diags@) + string_reports_from(diag_ctx, source@, span, next as int) =~= before + here);
        j = next;
    }
    assert(string_reports_from(diag_ctx, source@, span, j as int) == Seq::<DiagnosticView>::empty());
    assert(diagnostics_view(diags@) =~= base_view + total);
}

/// The reports of the token at `span` that the scan `r` found, where the current line starts
/// at `last`, and the start of the line where the token ends: the lexer error, or what the
/// checks of whitespace, strings and comments report.
pub open spec fn token_reports(ctx: &DiagnosticContext, s: Seq<u8>, r: Result<Token, LexerError>, span: Span, last: int) -> (Seq<DiagnosticView>, int) {
    match r {
        Ok(Token::Whitespace) => whitespace_reports(ctx, s, span, last),
        Ok(Token::LiteralString) => {
            let t = text_reports_from(ctx, s, span, span.start as int, last);
            (string_reports(ctx, s, span) + t.0, t.1)
        },
        Ok(Token::Comment) => text_reports_from(ctx, s, span, span.start as int, last),
        Ok(_) => (Seq::empty(), last),
        Err(err) => (seq![DiagnosticView {
            error: true,
            groups: seq![annotated(Level::Error, lexer_error_title(err), seq![ann(AnnotationKind::Primary, span, None)])],
        }], last),
    }
}

/// The reports of the tokens of `s` from `i` on, where the current line starts at `last`.
pub open spec fn lex_reports(ctx: &DiagnosticContext, s: Seq<u8>, i: int, last: int) -> Seq<DiagnosticView>
    decreases s.len() - i,
{
    let v = ctx.config.lua_minor_version;
    let e = token_at(s, i, v).1;
    if i < 0 || i >= s.len() || e <= i || e > s.len() {
        Seq::empty()
    } else {
        let t = token_reports(ctx, s, token_at(s, i, v).0, Span { start: i as usize, end: e as usize }, last);
        t.0 + lex_reports(ctx, s, e, t.1)
    }
}

/// Checks the token at `span` that the scan `r` found; `last_after_newline` is the start of the
/// current line.
fn check_token(
    diag_ctx: &DiagnosticContext,
    source: &[u8],
    r: Result<Token, LexerError>,
    span: Span,
    diags: &mut Vec<Diagnostic>,
    last_after_newline: &mut usize,
)
    requires
        diag_ctx.levels@.len() == LINT_COUNT,
        span_in(source@, span),
        span.start < span.end,
        *old(last_after_newline) <= span.start,
    ensures
        diagnostics_view(final(diags)@) == diagnostics_view(old(diags)@) + token_reports(diag_ctx, source@, r, span, *old(last_after_newline) as int).0,
        *final(last_after_newline) == token_reports(diag_ctx, source@, r, span, *old(last_after_newline) as int).1,
        *final(last_after_newline) <= span.end,
        reported(diag_ctx, source@.len() as int, old(diags)@, final(diags)@),
{
    let ghost before = diagnostics_view(diags@);
    match r {
        Ok(token) => {
            if token == Token::Whitespace {
                check_whitespace(diag_ctx, source, span, diags, last_after_newline);
            } else if token == Token::LiteralString {
                check_string(diag_ctx, source, span, diags);
                check_invisible_unicode(diag_ctx, source, span, diags, last_after_newline);
                assert(diagnostics_view(diags@) =~= before + token_reports(diag_ctx, source@, r, span, *old(last_after_newline) as int).0);
            } else if token == Token::Comment {
                check_invisible_unicode(diag_ctx, source, span, diags, last_after_newline);
            } else {
                assert(diagnostics_view(diags@) =~= before + Seq::<DiagnosticView>::empty());
            }
        },
        Err(err) => {
            let d = err.into_diagnostic(diag_ctx, span);
            diags.push(d);
            assert(diagnostics_view(diags@) =~= before + seq![d@]);
        },
    }
}

/// The kind of token that a scan gives: the token, or `Error` for a lexer error.
pub open spec fn lexed_token(r: Result<Token, LexerError>) -> Token {
    match r {
        Ok(t) => t,
        Err(_) => Token::Error,
    }
}

/// The kinds of the tokens of `s` from `i` on, scanned one after the other.
pub open spec fn lex_tokens(s: Seq<u8>, i: int, v: usize) -> Seq<Token>
    decreases s.len() - i,
{
    if i < 0 || i >= s.len() || token_at(s, i, v).1 <= i || token_at(s, i, v).1 > s.len() {
        Seq::empty()
    } else {
        seq![lexed_token(token_at(s, i, v).0)] + lex_tokens(s, token_at(s, i, v).1, v)
    }
}

/// The spans of the tokens of `s` from `i` on, scanned one after the other.
pub open spec fn lex_spans(s: Seq<u8>, i: int, v: usize) -> Seq<Span>
    decreases s.len() - i,
{
    if i < 0 || i >= s.len() || token_at(s, i, v).1 <= i || token_at(s, i, v).1 > s.len() {
        Seq::empty()
    } else {
        seq![Span { start: i as usize, end: token_at(s, i, v).1 as usize }] + lex_spans(
            s,
            token_at(s, i, v).1,
            v,
        )
    }
}

/// The tokens of `source` cover it without gaps or overlaps: each span is nonempty and
/// starts where the previous one ends, the first at 0 and the last ending at the end.
pub open spec fn tokens_cover(spans: Seq<Span>, len: int) -> bool {
    &&& forall|k: int| 0 <= k < spans.len() ==> (#[trigger] spans[k]).start < spans[k].end
    &&& forall|k: int| 0 < k < spans.len() ==> (#[trigger] spans[k]).start == spans[k - 1].end
    &&& (spans.len() == 0 <==> len == 0)
    &&& spans.len() > 0 ==> spans[0].start == 0 && spans.last().end == len
}

/// Splits `source` into tokens of Lua 5.`version`: the token kinds and their spans. Invalid
/// tokens become `Error` tokens and are reported; whitespace, strings and comments are checked
/// by the lints that look at the source text.
pub fn tokenize(diag_ctx: &DiagnosticContext, source: &[u8], diags: &mut Vec<Diagnostic>) -> (r: (Vec<Token>, Vec<Span>))
    requires
        diag_ctx.levels@.len() == LINT_COUNT,
    ensures
        r.0@ == lex_tokens(source@, 0, diag_ctx.config.lua_minor_version),
        r.1@ == lex_spans(source@, 0, diag_ctx.config.lua_minor_version),
        r.0@.len() == r.1@.len(),
        tokens_cover(r.1@, source@.len() as int),
        forall|k: int| 0 <= k < r.0@.len() ==> (#[trigger] r.0@[k] == Token::Whitespace) ==> forall|m: int|
            r.1@[k].start <= m < r.1@[k].end ==> is_space(#[trigger] source@[m]),
        forall|k: int| 0 <= k < r.0@.len() ==> (#[trigger] r.0@[k] == Token::Name) ==> forall|m: int|
            r.1@[k].start <= m < r.1@[k].end ==> is_name_byte(#[trigger] source@[m]),
        diagnostics_view(final(diags)@) == diagnostics_view(old(diags)@) + lex_reports(diag_ctx, source@, 0, 0),
        reported(diag_ctx, source@.len() as int, old(diags)@, final(diags)@),
{
    let ghost base_view = diagnostics_view(diags@);
    let ghost total = lex_reports(diag_ctx, source@, 0, 0);
    let mut tokens: Vec<Token> = Vec::new();
    let mut spans: Vec<Span> = Vec::new();
    let mut last_after_newline: usize = 0;
    let mut i: usize = 0;
    let version = diag_ctx.config.lua_minor_version;
    assert(tokens@ + lex_tokens(source@, 0, version) =~= lex_tokens(source@, 0, version));
    assert(spans@ + lex_spans(source@, 0, version) =~= lex_spans(source@, 0, version));
    while i < source.len()
        invariant
            diag_ctx.levels@.len() == LINT_COUNT,
            i <= source@.len(),
            tokens@.len() == spans@.len(),
            version == diag_ctx.config.lua_minor_version,
            tokens@ + lex_tokens(source@, i as int, version) == lex_tokens(source@, 0, version),
            spans@ + lex_spans(source@, i as int, version) == lex_spans(source@, 0, version),
            last_after_newline <= i,
            spans@.len() == 0 ==> i == 0,
            spans@.len() > 0 ==> spans@.last().end == i,
            forall|k: int| 0 <= k < spans@.len() ==> (#[trigger] spans@[k]).start < spans@[k].end,
            forall|k: int| 0 < k < spans@.len() ==> (#[trigger] spans@[k]).start == spans@[k - 1].end,
            spans@.len() > 0 ==> spans@[0].start == 0,
            forall|k: int| 0 <= k < tokens@.len() ==> (#[trigger] tokens@[k] == Token::Whitespace) ==> forall|m: int|
                spans@[k].start <= m < spans@[k].end ==> is_space(#[trigger] source@[m]),
            forall|k: int| 0 <= k < tokens@.len() ==> (#[trigger] tokens@[k] == Token::Name) ==> forall|m: int|
                spans@[k].start <= m < spans@[k].end ==> is_name_byte(#[trigger] source@[m]),
            reported(diag_ctx, source@.len() as int, old(diags)@, diags@),
            diagnostics_view(diags@) + lex_reports(diag_ctx, source@, i as int, last_after_newline as int) == base_view + total,
            base_view == diagnostics_view(old(diags)@),
            total == lex_reports(diag_ctx, source@, 0, 0),
        decreases source@.len() - i,
    {
        let (res, end) = next_token(source, i, version);
        let span = Span { start: i, end };
        let ghost before = diagnostics_view(diags@);
        let ghost here = lex_reports(diag_ctx, source@, i as int, last_after_newline as int);
        let ghost old_tokens = tokens@;
        let ghost old_spans = spans@;
        assert(lex_tokens(source@, i as int, version) == seq![lexed_token(res)] + lex_tokens(source@, end as int, version));
        assert(lex_spans(source@, i as int, version) == seq![span] + lex_spans(source@, end as int, version));
        check_token(diag_ctx, source, res, span, diags, &mut last_after_newline);
        match res {
            Ok(token) => {
                tokens.push(token);
            },
            Err(_) => {
                tokens.push(Token::Error);
            },
        }
        assert(diagnostics_view(diags@) + lex_reports(diag_ctx, source@, end as int, last_after_newline as int) =~= before + here);
        spans.push(span);
        assert(tokens@ =~= old_tokens.push(lexed_token(res)));
        assert(old_tokens + lex_tokens(source@, i as int, version) =~= tokens@ + lex_tokens(source@, end as int, version));
        assert(old_spans + lex_spans(source@, i as int, version) =~= spans@ + lex_spans(source@, end as int, version));
        i = end;
    }
    assert(tokens@ + lex_tokens(source@, i as int, version) =~= tokens@);
    assert(spans@ + lex_spans(source@, i as int, version) =~= spans@);
    assert(diagnostics_view(diags@) + lex_reports(diag_ctx, source@, i as int, last_after_newline as int) =~= diagnostics_view(diags@));
    (tokens, spans)
}

} // verus!
