use yutu::decode_source;
use yutu::parser::{Severity, Span};
use yutu::scopes::{bytes_less, is_underscore, underscore_prefixed, NameMap};
use yutu::sema::{
    count_line_feeds, decimal_overflows, hex_overflow_value, integer_digits, is_env, is_environment_name,
    lower_case_start, slice_range, TypeSet,
};

#[test]
fn severity_names_round_trip() {
    for s in [Severity::Allow, Severity::Warn, Severity::Deny, Severity::Hint] {
        assert_eq!(Severity::try_from(s.to_str().as_bytes()), Ok(s));
    }
    assert_eq!(Severity::try_from(b"warn"), Ok(Severity::Warn));
    assert_eq!(Severity::try_from(b"Warn"), Err(()));
    assert_eq!(Severity::try_from(b""), Err(()));
    assert_eq!(Severity::Deny.to_str(), "deny");
}

#[test]
fn span_lengths() {
    assert_eq!(Span::new(3, 7).len(), 4);
    assert_eq!(Span::new(7, 7).len(), 0);
    assert_eq!(Span::new(9, 2).len(), 0);
}

#[test]
fn utf8_source_is_kept() {
    let text = "local é = 'ü'".as_bytes().to_vec();
    assert_eq!(decode_source(text.clone()), text);
}

#[test]
fn latin1_source_is_converted() {
    let bytes = vec![b'a', 0xE9, b'b', 0xFF];
    let out = decode_source(bytes);
    assert_eq!(String::from_utf8(out).unwrap(), "aébÿ");
}

#[test]
fn decimal_overflow() {
    assert!(!decimal_overflows(b"9223372036854775807"));
    assert!(decimal_overflows(b"9223372036854775808"));
    assert!(decimal_overflows(b"100000000000000000000"));
    assert!(!decimal_overflows(b"0"));
    assert!(!decimal_overflows(b"12a"));
}

#[test]
fn hex_overflow() {
    assert_eq!(hex_overflow_value(b"7fffffffffffffff"), None);
    assert_eq!(hex_overflow_value(b"8000000000000000"), Some(i64::MIN));
    assert_eq!(hex_overflow_value(b"ffffffffffffffff"), Some(-1));
    assert_eq!(hex_overflow_value(b"10000000000000001"), Some(1));
    assert_eq!(hex_overflow_value(b"fffffffffffffffffg"), None);
}

#[test]
fn float_integer_digits() {
    assert_eq!(integer_digits(b"123.5"), Some(&b"123"[..]));
    assert_eq!(integer_digits(b".5"), None);
    assert_eq!(integer_digits(b"1.5e3"), None);
    assert_eq!(integer_digits(b"15"), None);
    assert_eq!(slice_range(b"abcdef", 1, 4), b"bcd");
}

#[test]
fn name_predicates() {
    assert_eq!(count_line_feeds(b"a\nb\n\nc"), 3);
    assert_eq!(count_line_feeds(b""), 0);
    assert!(lower_case_start(b"foo"));
    assert!(!lower_case_start(b"Foo"));
    assert!(!lower_case_start(b""));
    assert!(is_environment_name(b"_G"));
    assert!(is_environment_name(b"_ENV"));
    assert!(!is_environment_name(b"G"));
    assert!(is_env(b"_ENV"));
    assert!(!is_env(b"_G"));
    assert!(underscore_prefixed(b"_x"));
    assert!(!underscore_prefixed(b"x_"));
    assert!(is_underscore(b"_"));
    assert!(!is_underscore(b"__"));
}

#[test]
fn type_sets() {
    let n = TypeSet::integer().union(TypeSet::float());
    assert_eq!(n.intersection(TypeSet::integer()).0, TypeSet::integer().0);
    assert_eq!(n.union(TypeSet::empty()).0, n.0);
    assert_eq!(n.union(TypeSet::string()).0, TypeSet::string().union(n).0);
    assert_eq!(TypeSet::nil().intersection(TypeSet::table()).0, TypeSet::empty().0);
}

#[test]
fn byte_order() {
    assert!(bytes_less(b"abc", b"abd"));
    assert!(bytes_less(b"ab", b"abc"));
    assert!(!bytes_less(b"abc", b"abc"));
    assert!(!bytes_less(b"b", b"abc"));
    assert!(bytes_less(b"", b"a"));
}

#[test]
fn name_map_operations() {
    let mut m: NameMap<u32> = NameMap::new();
    assert_eq!(m.len(), 0);
    m.insert(b"zeta", 1);
    m.insert(b"alpha", 2);
    m.insert(b"mid", 3);
    assert_eq!(m.len(), 3);
    assert_eq!(m.key_at(0), b"alpha");
    assert_eq!(m.key_at(2), b"zeta");
    assert_eq!(m.get(b"mid"), Some(&3));
    m.insert(b"mid", 4);
    assert_eq!(m.len(), 3);
    assert_eq!(m.get(b"mid"), Some(&4));
    assert_eq!(m.remove(b"alpha"), Some(2));
    assert_eq!(m.remove(b"alpha"), None);
    assert_eq!(m.get(b"alpha"), None);
    assert_eq!(m.find(b"zeta"), Some(1));
    assert_eq!(*m.value_at(0), 4);
}

#[test]
fn hex_float_exactness() {
    assert!(yutu::sema::hex_float_exact(b"0x1.8"));
    assert!(yutu::sema::hex_float_exact(b"0x1p-1"));
    assert!(yutu::sema::hex_float_exact(b"0xA.8P2"));
    assert!(!yutu::sema::hex_float_exact(b"0x1.000000000000001"));
    assert!(!yutu::sema::hex_float_exact(b"0x1.000000000000001p0"));
}

#[test]
fn lint_documentation_in_markdown() {
    let i = yutu::lints::info(yutu::lints::INVISIBLE_CHARACTERS);
    assert_eq!(
        i.to_markdown(),
        "## invisible-characters\n❌ `deny` - `suspicious`\n### What it does\nChecks for invisible Unicode characters in the code.\n\n### Why restrict this?\nThere is no valid use case for invisible Unicode characters in your code.\n"
    );
}
