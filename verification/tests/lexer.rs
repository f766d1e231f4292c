use yutu::config::Config;
use yutu::lexer::{next_token, tokenize, LexerError, Token};
use yutu::lints::{
    INCONSISTENT_INDENTATION, INVISIBLE_CHARACTERS, LINE_TOO_LONG, NON_ASCII_LITERAL, ONLY_WHITESPACE,
    TRAILING_WHITESPACE,
};
use yutu::parser::{Diagnostic, DiagnosticContext, Element, Level, Severity, Span};

fn lex(config: &Config, source: &str) -> (Vec<Token>, Vec<Span>, Vec<Diagnostic>) {
    let ctx = DiagnosticContext::new(config);
    let mut diags = Vec::new();
    let (tokens, spans) = tokenize(&ctx, source.as_bytes(), &mut diags);
    (tokens, spans, diags)
}

fn lints(diags: &[Diagnostic]) -> Vec<Option<usize>> {
    diags.iter().map(|d| d.groups[0].lint).collect()
}

fn primary_span(d: &Diagnostic) -> Span {
    match &d.groups[0].element {
        Some(Element::Annotations(a)) => a[0].span,
        _ => panic!("no annotations"),
    }
}

#[test]
fn local_statement_tokens() {
    let c = Config::default();
    let (tokens, spans, diags) = lex(&c, "local x = 1\n");
    let expected = vec![
        Token::Local,
        Token::Whitespace,
        Token::Name,
        Token::Whitespace,
        Token::Equal,
        Token::Whitespace,
        Token::DecIntNumeral,
        Token::Whitespace,
    ];
    assert_eq!(tokens, expected);
    assert_eq!(spans[0], Span::new(0, 5));
    assert_eq!(spans[2], Span::new(6, 7));
    assert_eq!(spans.last().unwrap().end, 12);
    assert!(diags.is_empty());
}

#[test]
fn empty_source_has_no_tokens() {
    let c = Config::default();
    let (tokens, spans, diags) = lex(&c, "");
    assert!(tokens.is_empty() && spans.is_empty() && diags.is_empty());
}

#[test]
fn tokens_cover_the_source() {
    let c = Config::default();
    let src = "for i = 1, #t do print(t[i] .. 'x') end -- done\n";
    let (tokens, spans, _) = lex(&c, src);
    assert_eq!(tokens.len(), spans.len());
    assert_eq!(spans[0].start, 0);
    for w in spans.windows(2) {
        assert_eq!(w[0].end, w[1].start);
    }
    assert_eq!(spans.last().unwrap().end, src.len());
    assert!(tokens.contains(&Token::Dot2));
    assert!(tokens.contains(&Token::Hash));
    assert!(tokens.contains(&Token::Comment));
    assert!(tokens.contains(&Token::LiteralString));
}

#[test]
fn longest_match_and_keywords() {
    assert_eq!(next_token(b"...", 0, 5), (Ok(Token::Dot3), 3));
    assert_eq!(next_token(b"..", 0, 5), (Ok(Token::Dot2), 2));
    assert_eq!(next_token(b"//", 0, 5), (Ok(Token::SlashSlash), 2));
    assert_eq!(next_token(b"~= ", 0, 5), (Ok(Token::TildeEqual), 2));
    assert_eq!(next_token(b"::", 0, 5), (Ok(Token::ColonColon), 2));
    assert_eq!(next_token(b"local", 0, 5), (Ok(Token::Local), 5));
    assert_eq!(next_token(b"locals", 0, 5), (Ok(Token::Name), 6));
    assert_eq!(next_token(b"0x1F ", 0, 5), (Ok(Token::HexIntNumeral), 4));
    assert_eq!(next_token(b"3.25e2", 0, 5), (Ok(Token::DecFloatNumeral), 6));
    assert_eq!(next_token(b"0x1p4", 0, 5), (Ok(Token::HexFloatNumeral), 5));
    assert_eq!(next_token(b"42)", 0, 5), (Ok(Token::DecIntNumeral), 2));
}

#[test]
fn global_is_a_keyword_only_in_lua_5_5() {
    assert_eq!(next_token(b"global", 0, 5), (Ok(Token::Global), 6));
    assert_eq!(next_token(b"global", 0, 4), (Ok(Token::Name), 6));
}

#[test]
fn strings_and_comments() {
    assert_eq!(next_token(b"'a\\'b' x", 0, 5), (Ok(Token::LiteralString), 6));
    assert_eq!(next_token(b"[==[ ]] ]==]x", 0, 5), (Ok(Token::LiteralString), 12));
    assert_eq!(next_token(b"--[[ a\nb ]] x", 0, 5), (Ok(Token::Comment), 11));
    assert_eq!(next_token(b"-- line\nx", 0, 5), (Ok(Token::Comment), 7));
    assert_eq!(next_token(b"#!/usr/bin/lua\nx", 0, 5), (Ok(Token::FirstLineComment), 15));
}

#[test]
fn lexer_errors() {
    assert_eq!(next_token(b"'abc", 0, 5).0, Err(LexerError::UnterminatedString));
    assert_eq!(next_token(b"'ab\ncd'", 0, 5), (Ok(Token::LiteralString), 7));
    assert_eq!(next_token(b"--[[ never closed", 0, 5).0, Err(LexerError::UnterminatedComment));
    assert_eq!(next_token(b"$", 0, 5), (Err(LexerError::Invalid), 1));
}

#[test]
fn invalid_token_is_reported() {
    let c = Config::default();
    let (tokens, spans, diags) = lex(&c, "x = $");
    assert_eq!(tokens.last(), Some(&Token::Error));
    assert_eq!(spans.last(), Some(&Span::new(4, 5)));
    assert_eq!(diags.len(), 1);
    assert!(diags[0].error);
    assert_eq!(diags[0].groups[0].title, "invalid token");
    assert_eq!(diags[0].groups[0].level, Level::Error);
    assert_eq!(primary_span(&diags[0]), Span::new(4, 5));
}

#[test]
fn unterminated_string_is_reported() {
    let c = Config::default();
    let (_, _, diags) = lex(&c, "x = 'abc");
    assert_eq!(diags.len(), 1);
    assert_eq!(diags[0].groups[0].title, "unterminated string");
}

#[test]
fn trailing_and_only_whitespace() {
    let mut c = Config::default();
    c.levels.push((b"trailing-whitespace".to_vec(), Severity::Warn));
    let (_, _, diags) = lex(&c, "x = 1  \n   \ny = 2\n");
    assert_eq!(lints(&diags), vec![Some(TRAILING_WHITESPACE), Some(ONLY_WHITESPACE)]);
    assert_eq!(primary_span(&diags[0]), Span::new(5, 7));
    assert_eq!(primary_span(&diags[1]), Span::new(8, 11));
    assert!(!diags[0].error);
    assert_eq!(diags[0].groups[0].level, Level::Warning);
    assert_eq!(diags[1].groups[0].level, Level::Info);
}

#[test]
fn allowed_lint_is_not_reported() {
    let mut c = Config::default();
    c.levels.push((b"trailing-whitespace".to_vec(), Severity::Allow));
    c.levels.push((b"only-whitespace".to_vec(), Severity::Allow));
    let (_, _, diags) = lex(&c, "x = 1  \n   \n");
    assert!(diags.is_empty());
}

#[test]
fn denied_lint_is_an_error() {
    let mut c = Config::default();
    c.levels.push((b"trailing-whitespace".to_vec(), Severity::Deny));
    let (_, _, diags) = lex(&c, "x = 1 \n");
    assert_eq!(diags.len(), 1);
    assert!(diags[0].error);
    assert_eq!(diags[0].groups[0].level, Level::Error);
}

#[test]
fn long_line_is_measured_in_columns() {
    let mut c = Config::default();
    c.line_length_threshold = 8;
    let (_, _, diags) = lex(&c, "x = '日本語'\ny = 1\n");
    assert_eq!(lints(&diags), vec![Some(LINE_TOO_LONG)]);
    assert_eq!(diags[0].groups[1].title, "line has 12 columns and the threshold is set to 8");
    assert_eq!(primary_span(&diags[0]), Span::new(0, 15));
}

#[test]
fn short_lines_pass() {
    let mut c = Config::default();
    c.line_length_threshold = 12;
    let (_, _, diags) = lex(&c, "x = '日本語'\n");
    assert!(diags.is_empty());
}

#[test]
fn invisible_character_in_string() {
    let c = Config::default();
    let (_, _, diags) = lex(&c, "x = 'a\u{200B}b'\n");
    assert_eq!(lints(&diags), vec![Some(INVISIBLE_CHARACTERS)]);
    assert!(diags[0].error);
    assert_eq!(primary_span(&diags[0]), Span::new(6, 9));
}

#[test]
fn non_ascii_literal_when_enabled() {
    let mut c = Config::default();
    c.levels.push((b"non-ascii-literal".to_vec(), Severity::Warn));
    let (_, _, diags) = lex(&c, "x = 'é'\n");
    assert_eq!(lints(&diags), vec![Some(NON_ASCII_LITERAL)]);
}

#[test]
fn invalid_escape_in_string() {
    let c = Config::default();
    let (_, _, diags) = lex(&c, "x = 'a\\qb'\n");
    assert_eq!(diags.len(), 1);
    assert_eq!(diags[0].groups[0].title, "invalid escape sequence");
    assert!(diags[0].error);
}

#[test]
fn mixed_indentation() {
    let c = Config::default();
    let (_, _, diags) = lex(&c, "do\n  \tx = 1\nend\n");
    assert_eq!(lints(&diags), vec![Some(INCONSISTENT_INDENTATION)]);
}

fn titles(diags: &[Diagnostic]) -> Vec<String> {
    diags.iter().map(|d| d.groups[0].title.clone()).collect()
}

#[test]
fn hex_escape_needs_two_digits() {
    let c = Config::default();
    let (_, _, diags) = lex(&c, "x = '\\x4g'\n");
    assert_eq!(titles(&diags), vec!["invalid hexadecimal escape sequence"]);
    assert_eq!(primary_span(&diags[0]), Span::new(5, 8));
    assert_eq!(diags[0].groups[1].title, "expected exactly two hexadecimal digits");
    let (_, _, diags) = lex(&c, "x = '\\x4F'\n");
    assert!(diags.is_empty());
}

#[test]
fn unicode_escapes() {
    let c = Config::default();
    let (_, _, diags) = lex(&c, "x = '\\u{48}'\n");
    assert!(diags.is_empty());
    let (_, _, diags) = lex(&c, "'\\u{110000}'");
    assert_eq!(lints(&diags), vec![Some(yutu::lints::UNICODE_CODE_POINT_TOO_LARGE)]);
    assert_eq!(primary_span(&diags[0]), Span::new(4, 10));
    let (_, _, diags) = lex(&c, "'\\u{D800}'");
    assert_eq!(lints(&diags), vec![Some(yutu::lints::UNICODE_CODE_POINT_IS_SURROGATE)]);
    let (_, _, diags) = lex(&c, "'\\u{80000000}'");
    assert_eq!(titles(&diags), vec!["UTF-8 value is too large"]);
    assert!(diags[0].error);
    let (_, _, diags) = lex(&c, "'\\u48'");
    assert_eq!(titles(&diags), vec!["invalid unicode escape sequence"]);
    assert_eq!(primary_span(&diags[0]), Span::new(2, 4));
    let (_, _, diags) = lex(&c, "'\\u{12'");
    assert_eq!(titles(&diags), vec!["invalid unicode escape sequence"]);
}

#[test]
fn escapes_that_are_fine() {
    let c = Config::default();
    let (_, _, diags) = lex(&c, "x = 'a\\n\\t\\\\\\\"\\'\\z\\065'\n");
    assert!(diags.is_empty());
    let (_, _, diags) = lex(&c, "x = 'a\\\r\nb'\n");
    assert!(diags.is_empty());
    let (_, _, diags) = lex(&c, "x = [[\\q]]\n");
    assert!(diags.is_empty());
}

#[test]
fn carriage_return_escape_needs_line_feed() {
    let c = Config::default();
    let (_, _, diags) = lex(&c, "x = 'a\\\rb'\n");
    assert_eq!(titles(&diags), vec!["invalid escape sequence"]);
    assert_eq!(primary_span(&diags[0]), Span::new(5, 7));
}

#[test]
fn non_ascii_literal_suggests_escape() {
    let mut c = Config::default();
    c.levels.push((b"non-ascii-literal".to_vec(), Severity::Warn));
    let (_, _, diags) = lex(&c, "x = 'é'\n");
    match &diags[0].groups[1].element {
        Some(Element::Patches(p)) => {
            assert_eq!(p[0].replacement, "\\u{e9}");
            assert_eq!(p[0].span, Span::new(5, 7));
        }
        _ => panic!("no patch"),
    }
}

#[test]
fn invisible_character_in_comment() {
    let c = Config::default();
    let (_, _, diags) = lex(&c, "-- a\u{2060}b\nx = 1\n");
    assert_eq!(lints(&diags), vec![Some(INVISIBLE_CHARACTERS)]);
    match &diags[0].groups[0].element {
        Some(Element::Annotations(a)) => {
            assert_eq!(a[0].label.as_deref(), Some("character '\\u{2060}' at this position"));
        }
        _ => panic!("no annotation"),
    }
}

#[test]
fn long_comment_line_is_measured() {
    let mut c = Config::default();
    c.line_length_threshold = 4;
    let (_, _, diags) = lex(&c, "--[[ long\nx ]]\n");
    assert_eq!(lints(&diags), vec![Some(LINE_TOO_LONG)]);
    assert_eq!(primary_span(&diags[0]), Span::new(0, 9));
    assert_eq!(diags[0].groups[1].title, "line has 9 columns and the threshold is set to 4");
    let (_, _, diags) = lex(&c, "--[[ long\nxy ]]\n");
    assert_eq!(lints(&diags), vec![Some(LINE_TOO_LONG), Some(LINE_TOO_LONG)]);
    assert_eq!(primary_span(&diags[1]), Span::new(10, 15));
}

#[test]
fn unicode_escape_after_other_characters() {
    let c = Config::default();
    let (_, _, diags) = lex(&c, "\"a\\u{D800}\"");
    assert_eq!(lints(&diags), vec![Some(yutu::lints::UNICODE_CODE_POINT_IS_SURROGATE)]);
    assert_eq!(primary_span(&diags[0]), Span::new(5, 9));
    let (_, _, diags) = lex(&c, "x = 'ab\\u{48}\\u{110000}'\n");
    assert_eq!(lints(&diags), vec![Some(yutu::lints::UNICODE_CODE_POINT_TOO_LARGE)]);
    assert_eq!(primary_span(&diags[0]), Span::new(16, 22));
}
