use yutu::lints::{info, LINT_COUNT};
use yutu::parser::{Diagnostic, Level};
use yutu::report::{lints_by_code, lua_version, summary_level, summary_text, tally};

#[test]
fn command_line_versions() {
    assert_eq!(lua_version(b"5.5"), Some(5));
    assert_eq!(lua_version(b"5.4"), Some(4));
    assert_eq!(lua_version(b"5.3"), None);
    assert_eq!(lua_version(b""), None);
}

#[test]
fn summary_plurals() {
    assert_eq!(summary_text(0, 0, 0), "found 0 errors and 0 warnings in 0 files");
    assert_eq!(summary_text(1, 1, 1), "found 1 error and 1 warning in 1 file");
    assert_eq!(summary_text(2, 10, 123), "found 2 errors and 10 warnings in 123 files");
}

#[test]
fn summary_levels() {
    assert_eq!(summary_level(1, 5), Level::Error);
    assert_eq!(summary_level(0, 5), Level::Warning);
    assert_eq!(summary_level(0, 0), Level::Note);
}

#[test]
fn tally_counts_errors_and_warnings() {
    let diags = vec![
        Diagnostic { error: true, groups: vec![] },
        Diagnostic { error: false, groups: vec![] },
        Diagnostic { error: false, groups: vec![] },
    ];
    let t = tally(&diags);
    assert_eq!(t.errors, 1);
    assert_eq!(t.warnings, 2);
    let t = tally(&vec![]);
    assert_eq!((t.errors, t.warnings), (0, 0));
}

#[test]
fn lints_listed_by_code() {
    let order = lints_by_code();
    assert_eq!(order.len(), LINT_COUNT);
    let codes: Vec<&str> = order.iter().map(|&i| info(i).code).collect();
    let mut sorted = codes.clone();
    sorted.sort();
    assert_eq!(codes, sorted);
    let mut seen = order.clone();
    seen.sort();
    assert_eq!(seen, (0..LINT_COUNT).collect::<Vec<_>>());
    assert_eq!(codes[0], "almost-swap");
}
