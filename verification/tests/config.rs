use yutu::config::{Config, ConfigError, ConfigFile, Global, TomlValue};
use yutu::parser::Severity;

fn s(text: &str) -> Vec<u8> {
    text.as_bytes().to_vec()
}

fn table(entries: Vec<(&str, TomlValue)>) -> TomlValue {
    TomlValue::Table(entries.into_iter().map(|(k, v)| (s(k), v)).collect())
}

fn string(text: &str) -> TomlValue {
    TomlValue::String(s(text))
}

fn parsed(doc: TomlValue, version: Option<usize>) -> Result<Config, ConfigError> {
    Config::new(version, ConfigFile::Parsed(doc))
}

#[test]
fn default_config_values() {
    let c = Config::default();
    assert_eq!(c.lua_minor_version, 5);
    assert!(c.levels.is_empty());
    assert_eq!(c.parameter_threshold, 8);
    assert_eq!(c.function_line_threshold, 300);
    assert_eq!(c.nesting_threshold, 6);
    assert_eq!(c.cyclomatic_complexity_threshold, 50);
    assert_eq!(c.line_length_threshold, 120);
    assert!(c.allow_local_unused_hint);
    assert!(c.allow_loopvar_unused_hint);
}

#[test]
fn default_globals_kinds() {
    let c = Config::default();
    assert_eq!(c.global_of(b"print"), Some(Global::ReadOnly));
    assert_eq!(c.global_of(b"_G"), Some(Global::ReadWrite));
    assert_eq!(c.global_of(b"_ENV"), Some(Global::ReadWrite));
    assert_eq!(c.global_of(b"warn"), Some(Global::ReadWrite));
    assert_eq!(c.global_of(b"utf8"), Some(Global::ReadOnly));
    assert_eq!(c.global_of(b"foo"), None);
    assert_eq!(c.globals.len(), 45);
}

#[test]
fn missing_file_gives_defaults_with_requested_version() {
    let c = Config::new(Some(4), ConfigFile::Missing).unwrap();
    assert_eq!(c.lua_minor_version, 4);
    assert_eq!(c.parameter_threshold, 8);
    let c = Config::new(None, ConfigFile::Missing).unwrap();
    assert_eq!(c.lua_minor_version, 5);
}

#[test]
fn unreadable_file_keeps_requested_version() {
    let c = Config::new(Some(4), ConfigFile::Unreadable).unwrap();
    assert_eq!(c.lua_minor_version, 4);
    let c = Config::new(None, ConfigFile::Unreadable).unwrap();
    assert_eq!(c.lua_minor_version, 5);
}

#[test]
fn invalid_file_is_parse_error() {
    match Config::new(None, ConfigFile::Invalid("bad key".to_string())) {
        Err(ConfigError::Parse(m)) => assert_eq!(m, "bad key"),
        other => panic!("unexpected {:?}", other.err()),
    }
}

#[test]
fn empty_document_gives_requested_version() {
    let c = parsed(table(vec![]), Some(4)).unwrap();
    assert_eq!(c.lua_minor_version, 4);
    assert_eq!(c.line_length_threshold, 120);
}

#[test]
fn lua_std_overrides_requested_version() {
    let doc = table(vec![("lua", table(vec![("std", string("5.4"))]))]);
    assert_eq!(parsed(doc, Some(5)).unwrap().lua_minor_version, 4);
    let doc = table(vec![("lua", table(vec![("std", string("5.5"))]))]);
    assert_eq!(parsed(doc, Some(4)).unwrap().lua_minor_version, 5);
}

#[test]
fn unsupported_lua_version() {
    let doc = table(vec![("lua", table(vec![("std", string("5.3"))]))]);
    assert!(matches!(parsed(doc, None), Err(ConfigError::UnsupportedLuaVersion)));
    let doc = table(vec![("lua", table(vec![("std", TomlValue::Integer(5))]))]);
    assert!(matches!(parsed(doc, None), Err(ConfigError::UnsupportedLuaVersion)));
}

#[test]
fn thresholds_and_flags_are_read() {
    let doc = table(vec![(
        "config",
        table(vec![
            ("parameter_threshold", TomlValue::Integer(3)),
            ("function_line_threshold", TomlValue::Integer(10)),
            ("nesting_threshold", TomlValue::Integer(0)),
            ("cyclomatic_complexity_threshold", TomlValue::Integer(7)),
            ("line_length_threshold", TomlValue::Integer(80)),
            ("allow_local_unused_hint", TomlValue::Boolean(false)),
            ("allow_loopvar_unused_hint", TomlValue::Boolean(false)),
        ]),
    )]);
    let c = parsed(doc, None).unwrap();
    assert_eq!(c.parameter_threshold, 3);
    assert_eq!(c.function_line_threshold, 10);
    assert_eq!(c.nesting_threshold, 0);
    assert_eq!(c.cyclomatic_complexity_threshold, 7);
    assert_eq!(c.line_length_threshold, 80);
    assert!(!c.allow_local_unused_hint);
    assert!(!c.allow_loopvar_unused_hint);
}

#[test]
fn negative_count_is_error() {
    let doc = table(vec![("config", table(vec![("nesting_threshold", TomlValue::Integer(-1))]))]);
    match parsed(doc, None) {
        Err(ConfigError::ExpectedPositiveInteger(n)) => assert_eq!(n, "nesting_threshold"),
        other => panic!("unexpected {:?}", other.err()),
    }
}

#[test]
fn count_of_wrong_kind_is_error() {
    let doc = table(vec![("config", table(vec![("line_length_threshold", string("80"))]))]);
    match parsed(doc, None) {
        Err(ConfigError::ExpectedPositiveInteger(n)) => assert_eq!(n, "line_length_threshold"),
        other => panic!("unexpected {:?}", other.err()),
    }
}

#[test]
fn flag_of_wrong_kind_is_error() {
    let doc = table(vec![("config", table(vec![("allow_local_unused_hint", TomlValue::Integer(1))]))]);
    match parsed(doc, None) {
        Err(ConfigError::ExpectedBoolean(n)) => assert_eq!(n, "allow_local_unused_hint"),
        other => panic!("unexpected {:?}", other.err()),
    }
}

#[test]
fn first_bad_setting_in_reading_order_is_reported() {
    let doc = table(vec![(
        "config",
        table(vec![
            ("allow_loopvar_unused_hint", TomlValue::Integer(1)),
            ("parameter_threshold", TomlValue::Boolean(true)),
        ]),
    )]);
    match parsed(doc, None) {
        Err(ConfigError::ExpectedPositiveInteger(n)) => assert_eq!(n, "parameter_threshold"),
        other => panic!("unexpected {:?}", other.err()),
    }
}

#[test]
fn globals_are_added() {
    let doc = table(vec![(
        "globals",
        table(vec![
            ("read_only", TomlValue::Array(vec![string("love"), TomlValue::Integer(3)])),
            ("read_write", TomlValue::Array(vec![string("print"), string("state")])),
        ]),
    )]);
    let c = parsed(doc, None).unwrap();
    assert_eq!(c.global_of(b"love"), Some(Global::ReadOnly));
    assert_eq!(c.global_of(b"state"), Some(Global::ReadWrite));
    assert_eq!(c.global_of(b"print"), Some(Global::ReadWrite));
    assert_eq!(c.globals.len(), 48);
}

#[test]
fn lint_levels_are_read_with_underscores_as_dashes() {
    let doc = table(vec![(
        "lints",
        table(vec![
            ("unused_local", string("deny")),
            ("empty_statement", string("allow")),
            ("trailing_whitespace", string("loud")),
            ("only_whitespace", TomlValue::Boolean(true)),
        ]),
    )]);
    let c = parsed(doc, None).unwrap();
    assert_eq!(c.level_of("unused-local"), Some(Severity::Deny));
    assert_eq!(c.level_of("empty-statement"), Some(Severity::Allow));
    assert_eq!(c.level_of("trailing-whitespace"), None);
    assert_eq!(c.level_of("only-whitespace"), None);
    assert_eq!(c.levels.len(), 2);
}

#[test]
fn later_level_wins() {
    let doc = table(vec![(
        "lints",
        table(vec![("unused_local", string("deny")), ("unused-local", string("hint"))]),
    )]);
    let c = parsed(doc, None).unwrap();
    assert_eq!(c.level_of("unused-local"), Some(Severity::Hint));
}

#[test]
fn error_messages() {
    assert_eq!(
        ConfigError::Parse("oops".to_string()).message(""),
        "failed to parse yutu.toml\n\noops"
    );
    assert_eq!(ConfigError::UnsupportedLuaVersion.message("\"5.3\""), "unsupported lua version `\"5.3\"`");
    assert_eq!(
        ConfigError::ExpectedPositiveInteger("nesting_threshold".to_string()).message(""),
        "expected positive integer value for `nesting_threshold`"
    );
    assert_eq!(
        ConfigError::ExpectedBoolean("allow_local_unused_hint".to_string()).message(""),
        "expected boolean value for `allow_local_unused_hint`"
    );
}

#[test]
fn default_config_as_toml() {
    let text = Config::default().to_toml();
    assert!(text.starts_with(
        "[lua]\nstd = \"5.5\"\n\n[globals]\nread_only = []\nread_write = []\n\n[lints]\nempty_statement = \"warn\"\nunused_local = \"warn\"\n"
    ));
    assert!(text.ends_with(
        "\n\n[config]\nparameter_threshold = 8\nfunction_line_threshold = 300\nnesting_threshold = 6\ncyclomatic_complexity_threshold = 50\nline_length_threshold = 120\nallow_local_unused_hint = true\nallow_loopvar_unused_hint = true\n"
    ));
    let lint_lines = text.lines().filter(|l| l.ends_with('"') && !l.starts_with("std")).count();
    assert_eq!(lint_lines, 38);
    assert!(!text.contains("-"));
}

#[test]
fn changed_config_as_toml() {
    let mut c = Config::default();
    c.lua_minor_version = 4;
    c.line_length_threshold = 99;
    c.allow_loopvar_unused_hint = false;
    let text = c.to_toml();
    assert!(text.starts_with("[lua]\nstd = \"5.4\"\n"));
    assert!(text.contains("\nline_length_threshold = 99\n"));
    assert!(text.ends_with("allow_loopvar_unused_hint = false\n"));
}

#[test]
fn configuration_text_is_parsed() {
    let c = yutu::config::config_from_text(None, "[lua]\nstd = \"5.4\"\n").unwrap();
    assert_eq!(c.lua_minor_version, 4);
    let c = yutu::config::config_from_text(Some(4), "").unwrap();
    assert_eq!(c.lua_minor_version, 4);
    let c = yutu::config::config_from_text(None, "[config]\nparameter_threshold = 3\n").unwrap();
    assert_eq!(c.parameter_threshold, 3);
    match yutu::config::config_from_text(None, "[lua]\nstd = \"5.1\"\n") {
        Err(e) => assert_eq!(e, "unsupported lua version `\"5.1\"`"),
        Ok(_) => panic!("accepted"),
    }
    match yutu::config::config_from_text(None, "x = ") {
        Err(e) => assert!(e.starts_with("failed to parse yutu.toml\n\n")),
        Ok(_) => panic!("accepted"),
    }
}
