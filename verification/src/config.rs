//! The configuration of the linter.
use crate::lints::{decimal, decimal_string, info, lint_code, lint_level, lossy_text, utf8_lossy, LINT_COUNT};
use crate::parser::{severity_name, severity_named, Severity};
use vstd::prelude::*;
use vstd::string::{StringExecFns, StringSliceAdditionalSpecFns};

verus! {

/// Whether a predefined global may be assigned.
#[derive(Debug, Clone, Copy, PartialEq, Eq, Structural)]
pub enum Global {
    ReadOnly,
    ReadWrite,
}

/// The settings of the linter.
pub struct Config {
    pub lua_minor_version: usize,
    /// Configured severities by lint code; a later entry overrides an earlier one.
    pub levels: Vec<(Vec<u8>, Severity)>,
    pub parameter_threshold: usize,
    pub function_line_threshold: usize,
    pub nesting_threshold: usize,
    pub cyclomatic_complexity_threshold: usize,
    pub line_length_threshold: usize,
    pub allow_local_unused_hint: bool,
    pub allow_loopvar_unused_hint: bool,
    /// Known globals; a later entry overrides an earlier one.
    pub globals: Vec<(Vec<u8>, Global)>,
}

/// The severity bound to `code`, the last binding winning.
pub open spec fn lookup_level(levels: Seq<(Vec<u8>, Severity)>, code: Seq<u8>) -> Option<Severity>
    decreases levels.len(),
{
    if levels.len() == 0 {
        None
    } else if levels.last().0@ == code {
        Some(levels.last().1)
    } else {
        lookup_level(levels.drop_last(), code)
    }
}

/// The global bound to `name`, the last binding winning.
pub open spec fn lookup_global(globals: Seq<(Vec<u8>, Global)>, name: Seq<u8>) -> Option<Global>
    decreases globals.len(),
{
    if globals.len() == 0 {
        None
    } else if globals.last().0@ == name {
        Some(globals.last().1)
    } else {
        lookup_global(globals.drop_last(), name)
    }
}

/// The globals as names and kinds.
pub open spec fn globals_view(globals: Seq<(Vec<u8>, Global)>) -> Seq<(Seq<u8>, Global)> {
    globals.map_values(|e: (Vec<u8>, Global)| (e.0@, e.1))
}

/// The configured severities as codes and severities.
pub open spec fn levels_view(levels: Seq<(Vec<u8>, Severity)>) -> Seq<(Seq<u8>, Severity)> {
    levels.map_values(|e: (Vec<u8>, Severity)| (e.0@, e.1))
}

/// The globals of the Lua standard libraries of all supported versions.
pub open spec fn default_globals() -> Seq<(Seq<u8>, Global)> {
    seq![
        ("_G".spec_bytes(), Global::ReadWrite),
        ("_VERSION".spec_bytes(), Global::ReadOnly),
        ("arg".spec_bytes(), Global::ReadOnly),
        ("assert".spec_bytes(), Global::ReadOnly),
        ("collectgarbage".spec_bytes(), Global::ReadOnly),
        ("coroutine".spec_bytes(), Global::ReadOnly),
        ("debug".spec_bytes(), Global::ReadOnly),
        ("dofile".spec_bytes(), Global::ReadOnly),
        ("error".spec_bytes(), Global::ReadOnly),
        ("getmetatable".spec_bytes(), Global::ReadOnly),
        ("io".spec_bytes(), Global::ReadOnly),
        ("ipairs".spec_bytes(), Global::ReadOnly),
        ("load".spec_bytes(), Global::ReadOnly),
        ("loadfile".spec_bytes(), Global::ReadOnly),
        ("math".spec_bytes(), Global::ReadOnly),
        ("next".spec_bytes(), Global::ReadOnly),
        ("os".spec_bytes(), Global::ReadOnly),
        ("package".spec_bytes(), Global::ReadOnly),
        ("pairs".spec_bytes(), Global::ReadOnly),
        ("pcall".spec_bytes(), Global::ReadOnly),
        ("print".spec_bytes(), Global::ReadOnly),
        ("rawequal".spec_bytes(), Global::ReadOnly),
        ("rawget".spec_bytes(), Global::ReadOnly),
        ("rawset".spec_bytes(), Global::ReadOnly),
        ("require".spec_bytes(), Global::ReadOnly),
        ("select".spec_bytes(), Global::ReadOnly),
        ("setmetatable".spec_bytes(), Global::ReadOnly),
        ("string".spec_bytes(), Global::ReadOnly),
        ("table".spec_bytes(), Global::ReadOnly),
        ("tonumber".spec_bytes(), Global::ReadOnly),
        ("tostring".spec_bytes(), Global::ReadOnly),
        ("type".spec_bytes(), Global::ReadOnly),
        ("xpcall".spec_bytes(), Global::ReadOnly),
        ("getfenv".spec_bytes(), Global::ReadOnly),
        ("loadstring".spec_bytes(), Global::ReadOnly),
        ("module".spec_bytes(), Global::ReadOnly),
        ("newproxy".spec_bytes(), Global::ReadOnly),
        ("setfenv".spec_bytes(), Global::ReadOnly),
        ("unpack".spec_bytes(), Global::ReadOnly),
        ("gcinfo".spec_bytes(), Global::ReadOnly),
        ("_ENV".spec_bytes(), Global::ReadWrite),
        ("bit32".spec_bytes(), Global::ReadOnly),
        ("rawlen".spec_bytes(), Global::ReadOnly),
        ("utf8".spec_bytes(), Global::ReadOnly),
        ("warn".spec_bytes(), Global::ReadWrite)
    ]
}

/// The default settings apart from the globals.
pub open spec fn has_default_settings(c: Config) -> bool {
    &&& c.lua_minor_version == 5
    &&& has_default_thresholds(c)
}

/// The default settings apart from the globals and the Lua version.
pub open spec fn has_default_thresholds(c: Config) -> bool {
    &&& c.levels@.len() == 0
    &&& c.parameter_threshold == 8
    &&& c.function_line_threshold == 300
    &&& c.nesting_threshold == 6
    &&& c.cyclomatic_complexity_threshold == 50
    &&& c.line_length_threshold == 120
    &&& c.allow_local_unused_hint
    &&& c.allow_loopvar_unused_hint
}

impl Config {
    /// The default configuration: Lua 5.5, no configured severities, the default thresholds,
    /// and the standard library globals.
    pub fn default() -> (r: Config)
        ensures
            has_default_settings(r),
            globals_view(r.globals@) == default_globals(),
    {
        let mut config = Config {
            lua_minor_version: 5,
            levels: Vec::new(),
            parameter_threshold: 8,
            function_line_threshold: 300,
            nesting_threshold: 6,
            cyclomatic_complexity_threshold: 50,
            line_length_threshold: 120,
            allow_local_unused_hint: true,
            allow_loopvar_unused_hint: true,
            globals: Vec::new(),
        };
        config.add_globals();
        config
    }

    fn insert_global(&mut self, name: &[u8], global: Global)
        ensures
            globals_view(final(self).globals@) == globals_view(old(self).globals@).push(
                (name@, global),
            ),
            final(self).lua_minor_version == old(self).lua_minor_version,
            final(self).levels == old(self).levels,
            final(self).parameter_threshold == old(self).parameter_threshold,
            final(self).function_line_threshold == old(self).function_line_threshold,
            final(self).nesting_threshold == old(self).nesting_threshold,
            final(self).cyclomatic_complexity_threshold == old(self).cyclomatic_complexity_threshold,
            final(self).line_length_threshold == old(self).line_length_threshold,
            final(self).allow_local_unused_hint == old(self).allow_local_unused_hint,
            final(self).allow_loopvar_unused_hint == old(self).allow_loopvar_unused_hint,
    {
        let ghost before = self.globals@;
        self.globals.push((vstd::slice::slice_to_vec(name), global));
        assert(globals_view(self.globals@) =~= globals_view(before).push((name@, global)));
    }

    /// Adds the globals of the Lua standard libraries.
    fn add_globals(&mut self)
        requires
            old(self).globals@.len() == 0,
        ensures
            globals_view(final(self).globals@) == default_globals(),
            final(self).lua_minor_version == old(self).lua_minor_version,
            final(self).levels == old(self).levels,
            final(self).parameter_threshold == old(self).parameter_threshold,
            final(self).function_line_threshold == old(self).function_line_threshold,
            final(self).nesting_threshold == old(self).nesting_threshold,
            final(self).cyclomatic_complexity_threshold == old(self).cyclomatic_complexity_threshold,
            final(self).line_length_threshold == old(self).line_length_threshold,
            final(self).allow_local_unused_hint == old(self).allow_local_unused_hint,
            final(self).allow_loopvar_unused_hint == old(self).allow_loopvar_unused_hint,
    {
        assert(globals_view(self.globals@) =~= Seq::<(Seq<u8>, Global)>::empty());
        self.insert_global("_G".as_bytes(), Global::ReadWrite);
        self.insert_global("_VERSION".as_bytes(), Global::ReadOnly);
        self.insert_global("arg".as_bytes(), Global::ReadOnly);
        self.insert_global("assert".as_bytes(), Global::ReadOnly);
        self.insert_global("collectgarbage".as_bytes(), Global::ReadOnly);
        self.insert_global("coroutine".as_bytes(), Global::ReadOnly);
        self.insert_global("debug".as_bytes(), Global::ReadOnly);
        self.insert_global("dofile".as_bytes(), Global::ReadOnly);
        self.insert_global("error".as_bytes(), Global::ReadOnly);
        self.insert_global("getmetatable".as_bytes(), Global::ReadOnly);
        self.insert_global("io".as_bytes(), Global::ReadOnly);
        self.insert_global("ipairs".as_bytes(), Global::ReadOnly);
        self.insert_global("load".as_bytes(), Global::ReadOnly);
        self.insert_global("loadfile".as_bytes(), Global::ReadOnly);
        self.insert_global("math".as_bytes(), Global::ReadOnly);
        self.insert_global("next".as_bytes(), Global::ReadOnly);
        self.insert_global("os".as_bytes(), Global::ReadOnly);
        self.insert_global("package".as_bytes(), Global::ReadOnly);
        self.insert_global("pairs".as_bytes(), Global::ReadOnly);
        self.insert_global("pcall".as_bytes(), Global::ReadOnly);
        self.insert_global("print".as_bytes(), Global::ReadOnly);
        self.insert_global("rawequal".as_bytes(), Global::ReadOnly);
        self.insert_global("rawget".as_bytes(), Global::ReadOnly);
        self.insert_global("rawset".as_bytes(), Global::ReadOnly);
        self.insert_global("require".as_bytes(), Global::ReadOnly);
        self.insert_global("select".as_bytes(), Global::ReadOnly);
        self.insert_global("setmetatable".as_bytes(), Global::ReadOnly);
        self.insert_global("string".as_bytes(), Global::ReadOnly);
        self.insert_global("table".as_bytes(), Global::ReadOnly);
        self.insert_global("tonumber".as_bytes(), Global::ReadOnly);
        self.insert_global("tostring".as_bytes(), Global::ReadOnly);
        self.insert_global("type".as_bytes(), Global::ReadOnly);
        self.insert_global("xpcall".as_bytes(), Global::ReadOnly);
        self.insert_global("getfenv".as_bytes(), Global::ReadOnly);
        self.insert_global("loadstring".as_bytes(), Global::ReadOnly);
        self.insert_global("module".as_bytes(), Global::ReadOnly);
        self.insert_global("newproxy".as_bytes(), Global::ReadOnly);
        self.insert_global("setfenv".as_bytes(), Global::ReadOnly);
        self.insert_global("unpack".as_bytes(), Global::ReadOnly);
        self.insert_global("gcinfo".as_bytes(), Global::ReadOnly);
        self.insert_global("_ENV".as_bytes(), Global::ReadWrite);
        self.insert_global("bit32".as_bytes(), Global::ReadOnly);
        self.insert_global("rawlen".as_bytes(), Global::ReadOnly);
        self.insert_global("utf8".as_bytes(), Global::ReadOnly);
        self.insert_global("warn".as_bytes(), Global::ReadWrite);
        assert(globals_view(self.globals@) =~= default_globals());
    }

    /// The configured severity of the lint with code `code`.
    pub fn level_of(&self, code: &str) -> (r: Option<Severity>)
        ensures
            r == lookup_level(self.levels@, code.spec_bytes()),
    {
        let key = code.as_bytes();
        let mut i = self.levels.len();
        assert(self.levels@.take(i as int) =~= self.levels@);
        while i > 0
            invariant
                i <= self.levels@.len(),
                key@ == code.spec_bytes(),
                lookup_level(self.levels@.take(i as int), key@) == lookup_level(self.levels@, key@),
            decreases i,
        {
            assert(self.levels@.take(i as int).drop_last() =~= self.levels@.take(i - 1));
            if crate::ast::bytes_eq(self.levels[i - 1].0.as_slice(), key) {
                return Some(self.levels[i - 1].1);
            }
            i = i - 1;
        }
        None
    }

    /// The kind of the known global `name`.
    pub fn global_of(&self, name: &[u8]) -> (r: Option<Global>)
        ensures
            r == lookup_global(self.globals@, name@),
    {
        let mut i = self.globals.len();
        assert(self.globals@.take(i as int) =~= self.globals@);
        while i > 0
            invariant
                i <= self.globals@.len(),
                lookup_global(self.globals@.take(i as int), name@) == lookup_global(self.globals@, name@),
            decreases i,
        {
            assert(self.globals@.take(i as int).drop_last() =~= self.globals@.take(i - 1));
            if crate::ast::bytes_eq(self.globals[i - 1].0.as_slice(), name) {
                return Some(self.globals[i - 1].1);
            }
            i = i - 1;
        }
        None
    }
}


/// A value of a TOML document, as far as the configuration reads it.
#[derive(Debug)]
pub enum TomlValue {
    String(Vec<u8>),
    Integer(i64),
    Boolean(bool),
    Array(Vec<TomlValue>),
    /// The entries of a table, in the order the document's table walks them.
    Table(Vec<(Vec<u8>, TomlValue)>),
    /// Any other value: a float or a date.
    Other,
}

/// How the `toml` crate writes a value (its `Display` text), with the same for each entry
/// where the value is a table.
#[derive(Debug)]
pub struct TomlShown {
    pub text: String,
    pub entries: Vec<(Vec<u8>, TomlShown)>,
}

/// The configuration file `yutu.toml`, as found and read.
pub enum ConfigFile {
    /// No `yutu.toml` in the current directory or above it.
    Missing,
    /// The file was found but could not be read.
    Unreadable,
    /// The file is no TOML document; the parser's message.
    Invalid(String),
    /// The document.
    Parsed(TomlValue),
}

/// Why a configuration cannot be used.
#[derive(Debug)]
pub enum ConfigError {
    /// The file is no TOML document; the parser's message.
    Parse(String),
    /// `lua.std` names no supported Lua version.
    UnsupportedLuaVersion,
    /// The setting must be a non-negative integer.
    ExpectedPositiveInteger(String),
    /// The setting must be a boolean.
    ExpectedBoolean(String),
}

/// The value of `key` in the table `v`: the first entry with that key; nothing for a value
/// that is no table.
pub open spec fn toml_get(v: TomlValue, key: Seq<u8>) -> Option<TomlValue> {
    match v {
        TomlValue::Table(entries) => entry_value(entries@, key),
        _ => None,
    }
}

/// The value of the first entry of `entries` with key `key`.
pub open spec fn entry_value(entries: Seq<(Vec<u8>, TomlValue)>, key: Seq<u8>) -> Option<TomlValue>
    decreases entries.len(),
{
    if entries.len() == 0 {
        None
    } else if entries[0].0@ == key {
        Some(entries[0].1)
    } else {
        entry_value(entries.drop_first(), key)
    }
}

/// The value of `key` in `sec`, when `sec` is present.
pub open spec fn section_get(sec: Option<TomlValue>, key: Seq<u8>) -> Option<TomlValue> {
    match sec {
        Some(s) => toml_get(s, key),
        None => None,
    }
}

/// The value of `key` in the table `v`.
fn get<'v>(v: &'v TomlValue, key: &[u8]) -> (r: Option<&'v TomlValue>)
    ensures
        match r {
            Some(x) => toml_get(*v, key@) == Some(*x),
            None => toml_get(*v, key@) is None,
        },
{
    match v {
        TomlValue::Table(entries) => {
            let mut i: usize = 0;
            assert(entries@.skip(0) =~= entries@);
            while i < entries.len()
                invariant
                    i <= entries@.len(),
                    *v == TomlValue::Table(*entries),
                    entry_value(entries@, key@) == entry_value(entries@.skip(i as int), key@),
                decreases entries@.len() - i,
            {
                assert(entries@.skip(i as int).drop_first() =~= entries@.skip(i + 1));
                if crate::ast::bytes_eq(entries[i].0.as_slice(), key) {
                    assert(entries@.skip(i as int)[0] == entries@[i as int]);
                    assert(entry_value(entries@, key@) == Some(entries@[i as int].1));
                    assert(toml_get(*v, key@) == Some(entries@[i as int].1));
                    return Some(&entries[i].1);
                }
                i = i + 1;
            }
            None
        },
        _ => None,
    }
}

/// The Lua minor version that `lua.std` selects: `Some(5)` for `"5.5"`, `Some(4)` for
/// `"5.4"`, and `None` for any other value.
pub open spec fn std_version(v: TomlValue) -> Option<usize> {
    match v {
        TomlValue::String(s) => if s@ == "5.5".spec_bytes() {
            Some(5usize)
        } else if s@ == "5.4".spec_bytes() {
            Some(4usize)
        } else {
            None
        },
        _ => None,
    }
}

/// The strings of an array value, in order; other elements are skipped.
pub open spec fn array_strings(v: Option<TomlValue>) -> Seq<Seq<u8>> {
    match v {
        Some(TomlValue::Array(items)) => strings_of(items@),
        _ => Seq::empty(),
    }
}

/// The strings among `items`, in order.
pub open spec fn strings_of(items: Seq<TomlValue>) -> Seq<Seq<u8>>
    decreases items.len(),
{
    if items.len() == 0 {
        Seq::empty()
    } else {
        (match items[0] {
            TomlValue::String(s) => seq![s@],
            _ => Seq::empty(),
        }) + strings_of(items.drop_first())
    }
}

/// The table of globals, when `globals` is a table.
pub open spec fn globals_section(doc: TomlValue) -> Option<TomlValue> {
    match toml_get(doc, "globals".spec_bytes()) {
        Some(TomlValue::Table(t)) => Some(TomlValue::Table(t)),
        _ => None,
    }
}

/// The globals that the document adds: the read-only ones, then the read-write ones.
pub open spec fn document_globals(doc: TomlValue) -> Seq<(Seq<u8>, Global)> {
    array_strings(section_get(globals_section(doc), "read_only".spec_bytes())).map_values(
        |n: Seq<u8>| (n, Global::ReadOnly),
    ) + array_strings(section_get(globals_section(doc), "read_write".spec_bytes())).map_values(
        |n: Seq<u8>| (n, Global::ReadWrite),
    )
}

/// A lint code as written in the `lints` table, with `_` in place of `-`, turned back.
pub open spec fn lint_code_of(key: Seq<u8>) -> Seq<u8> {
    key.map_values(|b: u8| if b == 95u8 { 45u8 } else { b })
}

/// The severities that the entries of the `lints` table set: each entry whose value names a
/// severity, in order.
pub open spec fn entry_levels(entries: Seq<(Vec<u8>, TomlValue)>) -> Seq<(Seq<u8>, Severity)>
    decreases entries.len(),
{
    if entries.len() == 0 {
        Seq::empty()
    } else {
        (match entries[0].1 {
            TomlValue::String(s) => match severity_named(s@) {
                Some(level) => seq![(lint_code_of(entries[0].0@), level)],
                None => Seq::empty(),
            },
            _ => Seq::empty(),
        }) + entry_levels(entries.drop_first())
    }
}

/// The severities that the document sets.
pub open spec fn document_levels(doc: TomlValue) -> Seq<(Seq<u8>, Severity)> {
    match toml_get(doc, "lints".spec_bytes()) {
        Some(TomlValue::Table(entries)) => entry_levels(entries@),
        _ => Seq::empty(),
    }
}

/// The value of a count setting: absent keeps `default`, a non-negative integer replaces it,
/// anything else is an error (`None`).
pub open spec fn count_setting(sec: Option<TomlValue>, key: Seq<u8>, default: usize) -> Option<usize> {
    match section_get(sec, key) {
        None => Some(default),
        Some(TomlValue::Integer(i)) => if i >= 0 {
            Some(i as usize)
        } else {
            None
        },
        Some(_) => None,
    }
}

/// The value of a flag setting: absent keeps `default`, a boolean replaces it, anything else
/// is an error (`None`).
pub open spec fn flag_setting(sec: Option<TomlValue>, key: Seq<u8>, default: bool) -> Option<bool> {
    match section_get(sec, key) {
        None => Some(default),
        Some(TomlValue::Boolean(b)) => Some(b),
        Some(_) => None,
    }
}

/// Reads the count setting `name` of `sec` into `value`.
fn read_usize(sec: &TomlValue, name: &str, value: &mut usize) -> (r: Result<(), ConfigError>)
    ensures
        match count_setting(Some(*sec), name.spec_bytes(), *old(value)) {
            Some(v) => r is Ok && *final(value) == v,
            None => r matches Err(ConfigError::ExpectedPositiveInteger(n)) && n@ == name@ && *final(value) == *old(value),
        },
{
    match get(sec, name.as_bytes()) {
        Some(val) => match val {
            TomlValue::Integer(i) => {
                if *i >= 0 {
                    *value = *i as usize;
                    Ok(())
                } else {
                    Err(ConfigError::ExpectedPositiveInteger(name.to_owned()))
                }
            },
            _ => Err(ConfigError::ExpectedPositiveInteger(name.to_owned())),
        },
        None => Ok(()),
    }
}

/// Reads the flag setting `name` of `sec` into `value`.
fn read_bool(sec: &TomlValue, name: &str, value: &mut bool) -> (r: Result<(), ConfigError>)
    ensures
        match flag_setting(Some(*sec), name.spec_bytes(), *old(value)) {
            Some(v) => r is Ok && *final(value) == v,
            None => r matches Err(ConfigError::ExpectedBoolean(n)) && n@ == name@ && *final(value) == *old(value),
        },
{
    match get(sec, name.as_bytes()) {
        Some(val) => match val {
            TomlValue::Boolean(b) => {
                *value = *b;
                Ok(())
            },
            _ => Err(ConfigError::ExpectedBoolean(name.to_owned())),
        },
        None => Ok(()),
    }
}

/// The thresholds and flags of a configuration.
pub ghost struct Settings {
    pub parameter_threshold: usize,
    pub function_line_threshold: usize,
    pub nesting_threshold: usize,
    pub cyclomatic_complexity_threshold: usize,
    pub line_length_threshold: usize,
    pub allow_local_unused_hint: bool,
    pub allow_loopvar_unused_hint: bool,
}

/// The thresholds and flags of `c`.
pub open spec fn settings_of(c: Config) -> Settings {
    Settings {
        parameter_threshold: c.parameter_threshold,
        function_line_threshold: c.function_line_threshold,
        nesting_threshold: c.nesting_threshold,
        cyclomatic_complexity_threshold: c.cyclomatic_complexity_threshold,
        line_length_threshold: c.line_length_threshold,
        allow_local_unused_hint: c.allow_local_unused_hint,
        allow_loopvar_unused_hint: c.allow_loopvar_unused_hint,
    }
}

/// The default thresholds and flags.
pub open spec fn default_settings() -> Settings {
    Settings {
        parameter_threshold: 8,
        function_line_threshold: 300,
        nesting_threshold: 6,
        cyclomatic_complexity_threshold: 50,
        line_length_threshold: 120,
        allow_local_unused_hint: true,
        allow_loopvar_unused_hint: true,
    }
}

/// A setting of the wrong kind: a count or a flag, by name.
pub ghost enum SettingError {
    Count(Seq<char>),
    Flag(Seq<char>),
}

/// The error `e` is the setting error `s`.
pub open spec fn error_is(e: ConfigError, s: SettingError) -> bool {
    match (e, s) {
        (ConfigError::ExpectedPositiveInteger(n), SettingError::Count(m)) => n@ == m,
        (ConfigError::ExpectedBoolean(n), SettingError::Flag(m)) => n@ == m,
        _ => false,
    }
}

/// The settings `o` with those of the `config` section `sec` read in order, or the first
/// setting of the wrong kind.
pub open spec fn read_settings_spec(sec: Option<TomlValue>, o: Settings) -> Result<Settings, SettingError> {
    match (
        count_setting(sec, "parameter_threshold".spec_bytes(), o.parameter_threshold),
        count_setting(sec, "function_line_threshold".spec_bytes(), o.function_line_threshold),
        count_setting(sec, "nesting_threshold".spec_bytes(), o.nesting_threshold),
        count_setting(sec, "cyclomatic_complexity_threshold".spec_bytes(), o.cyclomatic_complexity_threshold),
        count_setting(sec, "line_length_threshold".spec_bytes(), o.line_length_threshold),
        flag_setting(sec, "allow_local_unused_hint".spec_bytes(), o.allow_local_unused_hint),
        flag_setting(sec, "allow_loopvar_unused_hint".spec_bytes(), o.allow_loopvar_unused_hint),
    ) {
        (None, _, _, _, _, _, _) => Err(SettingError::Count("parameter_threshold"@)),
        (_, None, _, _, _, _, _) => Err(SettingError::Count("function_line_threshold"@)),
        (_, _, None, _, _, _, _) => Err(SettingError::Count("nesting_threshold"@)),
        (_, _, _, None, _, _, _) => Err(SettingError::Count("cyclomatic_complexity_threshold"@)),
        (_, _, _, _, None, _, _) => Err(SettingError::Count("line_length_threshold"@)),
        (_, _, _, _, _, None, _) => Err(SettingError::Flag("allow_local_unused_hint"@)),
        (_, _, _, _, _, _, None) => Err(SettingError::Flag("allow_loopvar_unused_hint"@)),
        (Some(p), Some(f), Some(n), Some(c), Some(l), Some(a), Some(b)) => Ok(Settings {
            parameter_threshold: p,
            function_line_threshold: f,
            nesting_threshold: n,
            cyclomatic_complexity_threshold: c,
            line_length_threshold: l,
            allow_local_unused_hint: a,
            allow_loopvar_unused_hint: b,
        }),
    }
}

/// What `Config::new` gives for the document `doc` and the version requested on the command
/// line: the first error, in the order the file is read, or the configuration.
pub open spec fn parsed_outcome(version: Option<usize>, doc: TomlValue, r: Result<Config, ConfigError>) -> bool {
    let std = section_get(toml_get(doc, "lua".spec_bytes()), "std".spec_bytes());
    let sec = toml_get(doc, "config".spec_bytes());
    if std matches Some(v) && std_version(v) is None {
        r matches Err(ConfigError::UnsupportedLuaVersion)
    } else {
        match read_settings_spec(sec, default_settings()) {
            Err(e) => r matches Err(x) && error_is(x, e),
            Ok(settings) => r matches Ok(c) && {
                &&& settings_of(c) == settings
                &&& c.lua_minor_version == (match std {
                    Some(v) => std_version(v)->0,
                    None => match version {
                        Some(v) => v,
                        None => 5usize,
                    },
                })
                &&& levels_view(c.levels@) == document_levels(doc)
                &&& globals_view(c.globals@) == default_globals() + document_globals(doc)
            },
        }
    }
}

impl Config {
    /// Adds the names of `array` that are strings as globals of kind `global`.
    fn add_document_globals(&mut self, array: Option<&TomlValue>, global: Global)
        ensures
            globals_view(final(self).globals@) == globals_view(old(self).globals@) + array_strings(
                match array { Some(a) => Some(*a), None => None },
            ).map_values(|n: Seq<u8>| (n, global)),
            final(self).lua_minor_version == old(self).lua_minor_version,
            final(self).levels == old(self).levels,
            final(self).parameter_threshold == old(self).parameter_threshold,
            final(self).function_line_threshold == old(self).function_line_threshold,
            final(self).nesting_threshold == old(self).nesting_threshold,
            final(self).cyclomatic_complexity_threshold == old(self).cyclomatic_complexity_threshold,
            final(self).line_length_threshold == old(self).line_length_threshold,
            final(self).allow_local_unused_hint == old(self).allow_local_unused_hint,
            final(self).allow_loopvar_unused_hint == old(self).allow_loopvar_unused_hint,
    {
        match array {
            Some(TomlValue::Array(items)) => {
                let mut i: usize = 0;
                assert(items@.skip(0) =~= items@);
                assert(strings_of(items@.take(0)) =~= Seq::<Seq<u8>>::empty());
                while i < items.len()
                    invariant
                        i <= items@.len(),
                        globals_view(self.globals@) == globals_view(old(self).globals@) + strings_of(items@.take(i as int)).map_values(
                            |n: Seq<u8>| (n, global),
                        ),
                        self.lua_minor_version == old(self).lua_minor_version,
                        self.levels == old(self).levels,
                        self.parameter_threshold == old(self).parameter_threshold,
                        self.function_line_threshold == old(self).function_line_threshold,
                        self.nesting_threshold == old(self).nesting_threshold,
                        self.cyclomatic_complexity_threshold == old(self).cyclomatic_complexity_threshold,
                        self.line_length_threshold == old(self).line_length_threshold,
                        self.allow_local_unused_hint == old(self).allow_local_unused_hint,
                        self.allow_loopvar_unused_hint == old(self).allow_loopvar_unused_hint,
                    decreases items@.len() - i,
                {
                    proof {
                        lemma_strings_of_take(items@, i as int);
                    }
                    match &items[i] {
                        TomlValue::String(name) => {
                            self.insert_global(name.as_slice(), global);
                        },
                        _ => {},
                    }
                    assert(globals_view(self.globals@) =~= globals_view(old(self).globals@) + strings_of(items@.take(i + 1)).map_values(
                        |n: Seq<u8>| (n, global),
                    ));
                    i = i + 1;
                }
                assert(items@.take(items@.len() as int) =~= items@);
            },
            _ => {
                assert(globals_view(self.globals@) =~= globals_view(old(self).globals@) + Seq::<(Seq<u8>, Global)>::empty());
            },
        }
    }

    /// Sets the severities of the entries of the `lints` table that name one, in order.
    fn add_document_levels(&mut self, lints: Option<&TomlValue>)
        ensures
            levels_view(final(self).levels@) == levels_view(old(self).levels@) + match lints {
                Some(TomlValue::Table(entries)) => entry_levels(entries@),
                _ => Seq::empty(),
            },
            final(self).lua_minor_version == old(self).lua_minor_version,
            final(self).globals == old(self).globals,
            final(self).parameter_threshold == old(self).parameter_threshold,
            final(self).function_line_threshold == old(self).function_line_threshold,
            final(self).nesting_threshold == old(self).nesting_threshold,
            final(self).cyclomatic_complexity_threshold == old(self).cyclomatic_complexity_threshold,
            final(self).line_length_threshold == old(self).line_length_threshold,
            final(self).allow_local_unused_hint == old(self).allow_local_unused_hint,
            final(self).allow_loopvar_unused_hint == old(self).allow_loopvar_unused_hint,
    {
        match lints {
            Some(TomlValue::Table(entries)) => {
                let mut i: usize = 0;
                assert(entry_levels(entries@.take(0)) =~= Seq::<(Seq<u8>, Severity)>::empty());
                assert(levels_view(self.levels@) =~= levels_view(old(self).levels@) + Seq::<(Seq<u8>, Severity)>::empty());
                while i < entries.len()
                    invariant
                        i <= entries@.len(),
                        levels_view(self.levels@) == levels_view(old(self).levels@) + entry_levels(entries@.take(i as int)),
                        self.lua_minor_version == old(self).lua_minor_version,
                        self.globals == old(self).globals,
                        self.parameter_threshold == old(self).parameter_threshold,
                        self.function_line_threshold == old(self).function_line_threshold,
                        self.nesting_threshold == old(self).nesting_threshold,
                        self.cyclomatic_complexity_threshold == old(self).cyclomatic_complexity_threshold,
                        self.line_length_threshold == old(self).line_length_threshold,
                        self.allow_local_unused_hint == old(self).allow_local_unused_hint,
                        self.allow_loopvar_unused_hint == old(self).allow_loopvar_unused_hint,
                    decreases entries@.len() - i,
                {
                    proof {
                        lemma_entry_levels_take(entries@, i as int);
                    }
                    let ghost before = self.levels@;
                    match &entries[i].1 {
                        TomlValue::String(value) => {
                            match Severity::try_from(value.as_slice()) {
                                Ok(severity) => {
                                    let code = lint_code_bytes(entries[i].0.as_slice());
                                    self.levels.push((code, severity));
                                    assert(levels_view(self.levels@) =~= levels_view(before).push((lint_code_of(entries@[i as int].0@), severity)));
                                },
                                Err(_) => {},
                            }
                        },
                        _ => {},
                    }
                    assert(levels_view(self.levels@) =~= levels_view(old(self).levels@) + entry_levels(entries@.take(i + 1)));
                    i = i + 1;
                }
                assert(entries@.take(entries@.len() as int) =~= entries@);
            },
            _ => {
                assert(levels_view(self.levels@) =~= levels_view(old(self).levels@) + Seq::<(Seq<u8>, Severity)>::empty());
            },
        }
    }

    /// The configuration: the defaults with the Lua version asked for on the command line,
    /// then what `yutu.toml` sets. Without a readable `yutu.toml` the defaults stand, with
    /// the version asked for.
    #[verifier::spinoff_prover]
    #[verifier::rlimit(60)]
    pub fn new(lua_minor_version: Option<usize>, file: ConfigFile) -> (r: Result<Config, ConfigError>)
        ensures
            file is Missing || file is Unreadable ==> (r matches Ok(c) && c.lua_minor_version == (match lua_minor_version {
                Some(v) => v,
                None => 5usize,
            }) && has_default_thresholds(c) && globals_view(c.globals@) == default_globals()),
            file matches ConfigFile::Invalid(m) ==> r matches Err(ConfigError::Parse(e)) && e@ == m@,
            file matches ConfigFile::Parsed(doc) ==> parsed_outcome(lua_minor_version, doc, r),
    {
        let mut config = Config::default();
        if let Some(v) = lua_minor_version {
            config.lua_minor_version = v;
        }
        let doc = match file {
            ConfigFile::Missing | ConfigFile::Unreadable => {
                return Ok(config);
            },
            ConfigFile::Invalid(message) => {
                return Err(ConfigError::Parse(message));
            },
            ConfigFile::Parsed(doc) => doc,
        };
        match lua_std(&doc) {
            Ok(Some(v)) => {
                config.lua_minor_version = v;
            },
            Ok(None) => {},
            Err(e) => {
                return Err(e);
            },
        }
        config.add_document(&doc);
        match get(&doc, "config".as_bytes()) {
            Some(config_sec) => {
                match config.read_settings(config_sec) {
                    Ok(()) => {},
                    Err(e) => {
                        return Err(e);
                    },
                }
            },
            None => {},
        }
        Ok(config)
    }
}


impl Config {
    /// Reads the settings of the `config` section `sec`, stopping at the first error.
    fn read_settings(&mut self, sec: &TomlValue) -> (r: Result<(), ConfigError>)
        ensures
            match read_settings_spec(Some(*sec), settings_of(*old(self))) {
                Ok(settings) => r is Ok && settings_of(*final(self)) == settings,
                Err(e) => r matches Err(x) && error_is(x, e),
            },
            final(self).lua_minor_version == old(self).lua_minor_version,
            final(self).levels == old(self).levels,
            final(self).globals == old(self).globals,
    {
        read_usize(sec, "parameter_threshold", &mut self.parameter_threshold)?;
        read_usize(sec, "function_line_threshold", &mut self.function_line_threshold)?;
        read_usize(sec, "nesting_threshold", &mut self.nesting_threshold)?;
        read_usize(sec, "cyclomatic_complexity_threshold", &mut self.cyclomatic_complexity_threshold)?;
        read_usize(sec, "line_length_threshold", &mut self.line_length_threshold)?;
        read_bool(sec, "allow_local_unused_hint", &mut self.allow_local_unused_hint)?;
        read_bool(sec, "allow_loopvar_unused_hint", &mut self.allow_loopvar_unused_hint)?;
        Ok(())
    }
}


/// The Lua version that `lua.std` of the document selects, if it sets one.
fn lua_std(doc: &TomlValue) -> (r: Result<Option<usize>, ConfigError>)
    ensures
        match section_get(toml_get(*doc, "lua".spec_bytes()), "std".spec_bytes()) {
            Some(v) => match std_version(v) {
                Some(n) => r == Ok::<Option<usize>, ConfigError>(Some(n)),
                None => r matches Err(ConfigError::UnsupportedLuaVersion),
            },
            None => r == Ok::<Option<usize>, ConfigError>(None),
        },
{
    if let Some(lua_sec) = get(doc, "lua".as_bytes()) {
        if let Some(val) = get(lua_sec, "std".as_bytes()) {
            let five = "5.5".as_bytes();
            let four = "5.4".as_bytes();
            return match val {
                TomlValue::String(s) => {
                    if crate::ast::bytes_eq(s.as_slice(), five) {
                        Ok(Some(5))
                    } else if crate::ast::bytes_eq(s.as_slice(), four) {
                        Ok(Some(4))
                    } else {
                        Err(ConfigError::UnsupportedLuaVersion)
                    }
                },
                _ => Err(ConfigError::UnsupportedLuaVersion),
            };
        }
    }
    Ok(None)
}

impl Config {
    /// Adds the globals and the severities that the document sets.
    fn add_document(&mut self, doc: &TomlValue)
        ensures
            globals_view(final(self).globals@) == globals_view(old(self).globals@) + document_globals(*doc),
            levels_view(final(self).levels@) == levels_view(old(self).levels@) + document_levels(*doc),
            final(self).lua_minor_version == old(self).lua_minor_version,
            settings_of(*final(self)) == settings_of(*old(self)),
    {
        let globals_table = get(doc, "globals".as_bytes());
        let (read_only, read_write) = match globals_table {
            Some(t) => match t {
                TomlValue::Table(_) => (get(t, "read_only".as_bytes()), get(t, "read_write".as_bytes())),
                _ => (None, None),
            },
            None => (None, None),
        };
        self.add_document_globals(read_only, Global::ReadOnly);
        self.add_document_globals(read_write, Global::ReadWrite);
        self.add_document_levels(get(doc, "lints".as_bytes()));
    }
}

/// The lint code of a key of the `lints` table: its `_` turned into `-`.
fn lint_code_bytes(key: &[u8]) -> (r: Vec<u8>)
    ensures
        r@ == lint_code_of(key@),
{
    let mut r: Vec<u8> = Vec::new();
    let mut i: usize = 0;
    while i < key.len()
        invariant
            i <= key@.len(),
            r@ == lint_code_of(key@.take(i as int)),
        decreases key@.len() - i,
    {
        r.push(if key[i] == 95u8 { 45u8 } else { key[i] });
        assert(lint_code_of(key@.take(i + 1)) =~= lint_code_of(key@.take(i as int)).push(if key@[i as int] == 95u8 { 45u8 } else { key@[i as int] }));
        i = i + 1;
    }
    assert(key@.take(key@.len() as int) =~= key@);
    r
}

proof fn lemma_strings_of_take(items: Seq<TomlValue>, i: int)
    requires
        0 <= i < items.len(),
    ensures
        strings_of(items.take(i + 1)) == strings_of(items.take(i)) + (match items[i] {
            TomlValue::String(s) => seq![s@],
            _ => Seq::empty(),
        }),
    decreases i,
{
    if i > 0 {
        lemma_strings_of_take(items.drop_first(), i - 1);
        assert(items.take(i + 1).drop_first() =~= items.drop_first().take(i));
        assert(items.take(i).drop_first() =~= items.drop_first().take(i - 1));
    } else {
        assert(items.take(1).drop_first() =~= Seq::<TomlValue>::empty());
        assert(items.take(0) =~= Seq::<TomlValue>::empty());
    }
}

proof fn lemma_entry_levels_take(entries: Seq<(Vec<u8>, TomlValue)>, i: int)
    requires
        0 <= i < entries.len(),
    ensures
        entry_levels(entries.take(i + 1)) == entry_levels(entries.take(i)) + (match entries[i].1 {
            TomlValue::String(s) => match severity_named(s@) {
                Some(level) => seq![(lint_code_of(entries[i].0@), level)],
                None => Seq::empty(),
            },
            _ => Seq::empty(),
        }),
    decreases i,
{
    if i > 0 {
        lemma_entry_levels_take(entries.drop_first(), i - 1);
        assert(entries.take(i + 1).drop_first() =~= entries.drop_first().take(i));
        assert(entries.take(i).drop_first() =~= entries.drop_first().take(i - 1));
    } else {
        assert(entries.take(1).drop_first() =~= Seq::<(Vec<u8>, TomlValue)>::empty());
        assert(entries.take(0) =~= Seq::<(Vec<u8>, TomlValue)>::empty());
    }
}


/// The message of the error `e`; `std_text` is how the document writes the value of `lua.std`.
pub open spec fn config_error_message(e: ConfigError, std_text: Seq<char>) -> Seq<char> {
    match e {
        ConfigError::Parse(m) => "failed to parse yutu.toml\n\n"@ + m@,
        ConfigError::UnsupportedLuaVersion => "unsupported lua version `"@ + std_text + "`"@,
        ConfigError::ExpectedPositiveInteger(n) => "expected positive integer value for `"@ + n@ + "`"@,
        ConfigError::ExpectedBoolean(n) => "expected boolean value for `"@ + n@ + "`"@,
    }
}

/// What the `toml` crate makes of the text of a configuration file: the document, with the
/// entries of each table in the order its table walks them, and how the crate writes it; or
/// the parser's error message.
pub uninterp spec fn toml_document(text: Seq<char>) -> Result<(TomlValue, TomlShown), Seq<char>>;

#[verifier::external_type_specification]
#[verifier::external_body]
pub struct ExTomlValue(toml::Value);

/// A value of the `toml` crate as the configuration sees it, variant by variant: a string by
/// its bytes, a float or a date as `Other`.
#[verifier::external_body]
fn toml_value(v: &toml::Value) -> TomlValue {
    match v {
        toml::Value::String(s) => TomlValue::String(s.as_bytes().to_vec()),
        toml::Value::Integer(i) => TomlValue::Integer(*i),
        toml::Value::Boolean(b) => TomlValue::Boolean(*b),
        toml::Value::Array(items) => TomlValue::Array(items.iter().map(toml_value).collect()),
        toml::Value::Table(t) => TomlValue::Table(t.iter().map(|(k, x)| (k.as_bytes().to_vec(), toml_value(x))).collect()),
        toml::Value::Float(_) | toml::Value::Datetime(_) => TomlValue::Other,
    }
}

/// A value of the `toml` crate by its `Display` text, a table with that of each entry.
#[verifier::external_body]
fn toml_shown(v: &toml::Value) -> TomlShown {
    match v {
        toml::Value::Table(t) => TomlShown { text: v.to_string(), entries: t.iter().map(|(k, x)| (k.as_bytes().to_vec(), toml_shown(x))).collect() },
        _ => TomlShown { text: v.to_string(), entries: Vec::new() },
    }
}

/// `text.parse::<toml::Table>()` of the `toml` crate, the table taken as a value, together
/// with its `Display` texts, and an error by its message: the result is `toml_document` of
/// the text. What the parser accepts, and its messages, are not stated.
#[verifier::external_body]
fn parse_toml(text: &str) -> (r: Result<(TomlValue, TomlShown), String>)
    ensures
        match r {
            Ok(v) => toml_document(text@) == Ok::<(TomlValue, TomlShown), Seq<char>>(v),
            Err(m) => toml_document(text@) == Err::<(TomlValue, TomlShown), Seq<char>>(m@),
        },
{
    match text.parse::<toml::Table>() {
        Ok(t) => {
            let doc = toml::Value::Table(t);
            Ok((toml_value(&doc), toml_shown(&doc)))
        },
        Err(e) => Err(e.to_string()),
    }
}

/// The first entry of `entries` under `key`.
pub open spec fn shown_entry(entries: Seq<(Vec<u8>, TomlShown)>, key: Seq<u8>) -> Option<TomlShown>
    decreases entries.len(),
{
    if entries.len() == 0 {
        None
    } else if entries[0].0@ == key {
        Some(entries[0].1)
    } else {
        shown_entry(entries.drop_first(), key)
    }
}

/// How the document `shown` writes the value of `lua.std`; empty where there is none.
pub open spec fn std_display(shown: TomlShown) -> Seq<char> {
    match shown_entry(shown.entries@, "lua".spec_bytes()) {
        Some(lua) => match shown_entry(lua.entries@, "std".spec_bytes()) {
            Some(v) => v.text@,
            None => Seq::empty(),
        },
        None => Seq::empty(),
    }
}

/// The entry of `entries` under `key`, if any.
fn find_shown<'v>(entries: &'v Vec<(Vec<u8>, TomlShown)>, key: &[u8]) -> (r: Option<&'v TomlShown>)
    ensures
        match r {
            Some(x) => shown_entry(entries@, key@) == Some(*x),
            None => shown_entry(entries@, key@) is None,
        },
{
    let mut i: usize = 0;
    assert(entries@.skip(0) =~= entries@);
    while i < entries.len()
        invariant
            i <= entries@.len(),
            shown_entry(entries@, key@) == shown_entry(entries@.skip(i as int), key@),
        decreases entries@.len() - i,
    {
        assert(entries@.skip(i as int).drop_first() =~= entries@.skip(i + 1));
        if crate::ast::bytes_eq(entries[i].0.as_slice(), key) {
            assert(entries@.skip(i as int)[0] == entries@[i as int]);
            return Some(&entries[i].1);
        }
        i = i + 1;
    }
    None
}

/// How the document `shown` writes the value of `lua.std`, or an empty text.
pub fn lua_std_text(shown: &TomlShown) -> (r: String)
    ensures
        r@ == std_display(*shown),
{
    if let Some(lua) = find_shown(&shown.entries, "lua".as_bytes()) {
        if let Some(v) = find_shown(&lua.entries, "std".as_bytes()) {
            return v.text.clone();
        }
    }
    String::new()
}

/// The configuration read from the text of `yutu.toml`, with the Lua version asked for on the
/// command line, or the message that explains why the file cannot be used.
pub fn config_from_text(lua_minor_version: Option<usize>, text: &str) -> (r: Result<Config, String>)
    ensures
        match toml_document(text@) {
            Err(m) => r matches Err(s) && s@ == "failed to parse yutu.toml\n\n"@ + m,
            Ok((doc, shown)) => exists|res: Result<Config, ConfigError>| #[trigger] parsed_outcome(lua_minor_version, doc, res) && match res {
                Ok(c) => r == Ok::<Config, String>(c),
                Err(e) => r matches Err(s) && s@ == config_error_message(e, std_display(shown)),
            },
        },
{
    match parse_toml(text) {
        Err(m) => {
            let e = ConfigError::Parse(m);
            Err(e.message(""))
        },
        Ok((doc, shown)) => {
            let res = Config::new(lua_minor_version, ConfigFile::Parsed(doc));
            match res {
                Ok(c) => Ok(c),
                Err(e) => Err(e.message(lua_std_text(&shown).as_str())),
            }
        },
    }
}

impl ConfigError {
    /// The message of the error; `std_text` is how the document writes the value of `lua.std`.
    pub fn message(&self, std_text: &str) -> (r: String)
        ensures
            r@ == config_error_message(*self, std_text@),
    {
        match self {
            ConfigError::Parse(m) => {
                let mut t = "failed to parse yutu.toml\n\n".to_owned();
                t.append(m.as_str());
                t
            },
            ConfigError::UnsupportedLuaVersion => {
                let mut t = "unsupported lua version `".to_owned();
                t.append(std_text);
                t.append("`");
                t
            },
            ConfigError::ExpectedPositiveInteger(n) => {
                let mut t = "expected positive integer value for `".to_owned();
                t.append(n.as_str());
                t.append("`");
                t
            },
            ConfigError::ExpectedBoolean(n) => {
                let mut t = "expected boolean value for `".to_owned();
                t.append(n.as_str());
                t.append("`");
                t
            },
        }
    }
}

/// The key of the `lints` table for a lint code: its `-` turned into `_`.
pub open spec fn table_key_of(code: Seq<u8>) -> Seq<u8> {
    code.map_values(|b: u8| if b == 45u8 { 95u8 } else { b })
}

/// The line of the `lints` table that gives lint `i` its default severity.
pub open spec fn lint_line(i: int) -> Seq<char> {
    utf8_lossy(table_key_of(lint_code(i as usize).spec_bytes())) + " = \""@ + severity_name(
        lint_level(i as usize),
    ) + "\"\n"@
}

/// The lines of the `lints` table for the first `n` lints.
pub open spec fn lint_lines(n: nat) -> Seq<char>
    decreases n,
{
    if n == 0 {
        Seq::empty()
    } else {
        lint_lines((n - 1) as nat) + lint_line(n - 1)
    }
}

/// How TOML writes a boolean.
pub open spec fn bool_text(b: bool) -> Seq<char> {
    if b {
        "true"@
    } else {
        "false"@
    }
}

/// The configuration written as a `yutu.toml` document: the Lua version, empty lists of
/// globals, the default severity of every lint and the thresholds and flags.
pub open spec fn config_toml(c: Config) -> Seq<char> {
    "[lua]\nstd = \"5."@ + decimal(c.lua_minor_version as nat)
        + "\"\n\n[globals]\nread_only = []\nread_write = []\n\n[lints]\n"@
        + lint_lines(LINT_COUNT as nat) + "\n[config]\nparameter_threshold = "@ + decimal(
        c.parameter_threshold as nat,
    ) + "\nfunction_line_threshold = "@ + decimal(c.function_line_threshold as nat)
        + "\nnesting_threshold = "@ + decimal(c.nesting_threshold as nat)
        + "\ncyclomatic_complexity_threshold = "@ + decimal(
        c.cyclomatic_complexity_threshold as nat,
    ) + "\nline_length_threshold = "@ + decimal(c.line_length_threshold as nat)
        + "\nallow_local_unused_hint = "@ + bool_text(c.allow_local_unused_hint)
        + "\nallow_loopvar_unused_hint = "@ + bool_text(c.allow_loopvar_unused_hint) + "\n"@
}

/// The key of the `lints` table for `code`.
fn table_key_bytes(code: &[u8]) -> (r: Vec<u8>)
    ensures
        r@ == table_key_of(code@),
{
    let mut r: Vec<u8> = Vec::new();
    let mut i: usize = 0;
    while i < code.len()
        invariant
            i <= code@.len(),
            r@ == table_key_of(code@.take(i as int)),
        decreases code@.len() - i,
    {
        r.push(if code[i] == 45u8 { 95u8 } else { code[i] });
        assert(table_key_of(code@.take(i + 1)) =~= table_key_of(code@.take(i as int)).push(if code@[i as int] == 45u8 { 95u8 } else { code@[i as int] }));
        i = i + 1;
    }
    assert(code@.take(code@.len() as int) =~= code@);
    r
}

fn bool_str(b: bool) -> (r: &'static str)
    ensures
        r@ == bool_text(b),
{
    if b {
        "true"
    } else {
        "false"
    }
}

fn usize_string(n: usize) -> (r: String)
    ensures
        r@ == decimal(n as nat),
{
    decimal_string(n as u64)
}

impl Config {
    /// The configuration as a `yutu.toml` document.
    pub fn to_toml(&self) -> (r: String)
        ensures
            r@ == config_toml(*self),
    {
        let mut lints = String::new();
        let mut i: usize = 0;
        while i < LINT_COUNT
            invariant
                i <= LINT_COUNT,
                lints@ == lint_lines(i as nat),
            decreases LINT_COUNT - i,
        {
            let inf = info(i);
            let key = table_key_bytes(inf.code.as_bytes());
            let key_text = lossy_text(key.as_slice());
            let ghost old_lints = lints@;
            lints.append(key_text.as_str());
            lints.append(" = \"");
            lints.append(inf.level.to_str());
            lints.append("\"\n");
            assert(lints@ =~= old_lints + lint_line(i as int));
            i = i + 1;
        }
        let mut t = "[lua]\nstd = \"5.".to_owned();
        t.append(usize_string(self.lua_minor_version).as_str());
        t.append("\"\n\n[globals]\nread_only = []\nread_write = []\n\n[lints]\n");
        t.append(lints.as_str());
        t.append("\n[config]\nparameter_threshold = ");
        t.append(usize_string(self.parameter_threshold).as_str());
        t.append("\nfunction_line_threshold = ");
        t.append(usize_string(self.function_line_threshold).as_str());
        t.append("\nnesting_threshold = ");
        t.append(usize_string(self.nesting_threshold).as_str());
        t.append("\ncyclomatic_complexity_threshold = ");
        t.append(usize_string(self.cyclomatic_complexity_threshold).as_str());
        t.append("\nline_length_threshold = ");
        t.append(usize_string(self.line_length_threshold).as_str());
        t.append("\nallow_local_unused_hint = ");
        t.append(bool_str(self.allow_local_unused_hint));
        t.append("\nallow_loopvar_unused_hint = ");
        t.append(bool_str(self.allow_loopvar_unused_hint));
        t.append("\n");
        t
    }
}

} // verus!
