//! The lints: their descriptions, their activation and the diagnostics they report.
use crate::ast::relational_tokens;
use crate::lexer::Token;
use crate::parser::{
    anns_view, diagnostic_lint, groups_view, patches_view, severity_name, Annotation, AnnotationKind,
    AnnotationView, Diagnostic, DiagnosticContext, DiagnosticView, Element, ElementView, Group,
    GroupView, Level, Patch, PatchView, Severity, Span,
};
use vstd::prelude::*;
use vstd::string::StringExecFns;

verus! {

/// The kind of problem a lint finds.
#[derive(Debug, Clone, Copy, PartialEq, Eq, Structural)]
pub enum Category {
    Complexity,
    Correctness,
    Pedantic,
    Style,
    Suspicious,
    Restriction,
}

/// The name of a category.
pub open spec fn category_name(c: Category) -> Seq<char> {
    match c {
        Category::Complexity => "complexity"@,
        Category::Correctness => "correctness"@,
        Category::Pedantic => "pedantic"@,
        Category::Style => "style"@,
        Category::Suspicious => "suspicious"@,
        Category::Restriction => "restriction"@,
    }
}

impl Category {
    pub fn to_str(&self) -> (r: &'static str)
        ensures
            r@ == category_name(*self),
    {
        match self {
            Category::Complexity => "complexity",
            Category::Correctness => "correctness",
            Category::Pedantic => "pedantic",
            Category::Style => "style",
            Category::Suspicious => "suspicious",
            Category::Restriction => "restriction",
        }
    }
}

/// The description of a lint.
pub struct Info {
    pub message: &'static str,
    pub code: &'static str,
    pub level: Severity,
    pub category: Category,
    pub doc_what: &'static str,
    pub doc_why: &'static str,
    pub doc_issues: &'static str,
    pub doc_example: &'static str,
}

/// The symbol that precedes a severity in the lint documentation.
pub open spec fn severity_symbol(s: Severity) -> Seq<char> {
    match s {
        Severity::Allow => "✅ `"@,
        Severity::Warn => "⚠️ `"@,
        Severity::Deny => "❌ `"@,
        Severity::Hint => "ℹ️ `"@,
    }
}

/// The markdown documentation of a lint.
pub open spec fn markdown(info: Info) -> Seq<char> {
    "## "@ + info.code@ + "\n"@ + severity_symbol(info.level) + severity_name(info.level)
        + "` - `"@ + category_name(info.category) + "`"@ + "\n### What it does\n"@
        + info.doc_what@ + "\n### Why restrict this?\n"@ + info.doc_why@ + (
    if info.doc_issues@.len() == 0 {
        Seq::empty()
    } else {
        "\n### Known problems\n"@ + info.doc_issues@
    }) + (if info.doc_example@.len() == 0 {
        Seq::empty()
    } else {
        "\n### Example\n"@ + info.doc_example@
    })
}

impl Info {
    /// The documentation of the lint in markdown.
    pub fn to_markdown(&self) -> (r: String)
        ensures
            r@ == markdown(*self),
    {
        let mut val = String::new();
        val.append("## ");
        val.append(self.code);
        val.append("\n");
        val.append(
            match self.level {
                Severity::Allow => "✅ `",
                Severity::Warn => "⚠️ `",
                Severity::Deny => "❌ `",
                Severity::Hint => "ℹ️ `",
            },
        );
        val.append(self.level.to_str());
        val.append("` - `");
        val.append(self.category.to_str());
        val.append("`");
        val.append("\n### What it does\n");
        val.append(self.doc_what);
        val.append("\n### Why restrict this?\n");
        val.append(self.doc_why);
        let ghost before_issues = val@;
        if !self.doc_issues.is_empty() {
            val.append("\n### Known problems\n");
            val.append(self.doc_issues);
        }
        let ghost before_example = val@;
        if !self.doc_example.is_empty() {
            val.append("\n### Example\n");
            val.append(self.doc_example);
        }
        assert(val@ =~= markdown(*self));
        val
    }

    /// The row of the lint in the markdown table of all lints: code, default level,
    /// category and message.
    pub fn to_markdown_table_line(&self) -> (r: String)
        ensures
            r@ == "| "@ + self.code@ + " | "@ + severity_name(self.level) + " | "@ + category_name(
                self.category,
            ) + " | "@ + self.message@ + " |"@,
    {
        let mut val = "| ".to_owned();
        val.append(self.code);
        val.append(" | ");
        val.append(self.level.to_str());
        val.append(" | ");
        val.append(self.category.to_str());
        val.append(" | ");
        val.append(self.message);
        val.append(" |");
        val
    }
}

/// A lint that can report through a diagnostic context.
pub trait Lint<'a, 'b>: Sized {
    /// The index of the lint.
    spec fn spec_index() -> usize;

    /// The context the lint reports through.
    spec fn spec_ctx(&self) -> &'b DiagnosticContext<'a>;

    fn info_index() -> (r: usize)
        ensures
            r == Self::spec_index(),
            r < LINT_COUNT,
    ;

    fn new(ctx: &'b DiagnosticContext<'a>) -> (r: Self)
        ensures
            r.spec_ctx() == ctx,
    ;
}

/// The title level of a lint reported with severity `s`.
pub open spec fn severity_level(s: Severity) -> Level {
    match s {
        Severity::Warn => Level::Warning,
        Severity::Deny => Level::Error,
        Severity::Hint => Level::Info,
        Severity::Allow => Level::Info,
    }
}

impl<'a> DiagnosticContext<'a> {
    /// The lint `T`, unless its severity is `allow`.
    pub fn active<'b, T: Lint<'a, 'b>>(&'b self) -> (r: Option<T>)
        requires
            self.levels@.len() == LINT_COUNT,
        ensures
            r is Some <==> self.levels@[T::spec_index() as int] != Severity::Allow,
            r matches Some(t) ==> t.spec_ctx() == self,
    {
        let i = T::info_index();
        if self.levels[i] == Severity::Allow {
            None
        } else {
            Some(T::new(self))
        }
    }

    /// Whether lint `info_index` is reported as an error.
    fn is_error(&self, info_index: usize) -> (r: bool)
        requires
            info_index < self.levels@.len(),
        ensures
            r == (self.levels@[info_index as int] == Severity::Deny),
    {
        self.levels[info_index] == Severity::Deny
    }

    /// The main group of a diagnostic of lint `info_index`.
    fn main_group(&self, info_index: usize, element: Option<Element>) -> (r: Group)
        requires
            info_index < LINT_COUNT,
            info_index < self.levels@.len(),
        ensures
            r.level == severity_level(self.levels@[info_index as int]),
            r.title@ == lint_message(info_index)@,
            r.lint == Some(info_index),
            r.element == element,
    {
        let level = match self.levels[info_index] {
            Severity::Warn => Level::Warning,
            Severity::Deny => Level::Error,
            Severity::Hint => Level::Info,
            Severity::Allow => Level::Info,
        };
        Group { level, title: info(info_index).message.to_owned(), lint: Some(info_index), element }
    }
}

/// `d` is a diagnostic as reported under `ctx`: a diagnostic of a lint reports a lint that
/// `ctx` does not allow, and is an error exactly when `ctx` denies that lint; any other
/// diagnostic is an error.
pub open spec fn diagnostic_ok(ctx: &DiagnosticContext, d: DiagnosticView) -> bool {
    &&& d.groups.len() > 0
    &&& match d.groups[0].lint {
        Some(i) => {
            &&& i < LINT_COUNT
            &&& ctx.levels@[i as int] != Severity::Allow
            &&& d.error == (ctx.levels@[i as int] == Severity::Deny)
        },
        None => d.error,
    }
}

/// The span starts and ends within a text of length `len`.
pub open spec fn span_within(s: Span, len: int) -> bool {
    s.start <= len && s.end <= len
}

/// Every span that the group annotates or patches lies within a text of length `len`.
pub open spec fn group_within(g: GroupView, len: int) -> bool {
    match g.element {
        Some(ElementView::Annotations(a)) => forall|i: int| 0 <= i < a.len() ==> span_within(#[trigger] a[i].span, len),
        Some(ElementView::Patches(p)) => forall|i: int| 0 <= i < p.len() ==> span_within(#[trigger] p[i].span, len),
        None => true,
    }
}

/// Every span that the diagnostic annotates or patches lies within a source of length `len`.
pub open spec fn diagnostic_within(d: DiagnosticView, len: int) -> bool {
    forall|g: int| 0 <= g < d.groups.len() ==> group_within(#[trigger] d.groups[g], len)
}

/// `new` is `old` with diagnostics appended, each as reported under `ctx` and pointing into
/// a source of length `len`.
pub open spec fn reported(ctx: &DiagnosticContext, len: int, old: Seq<Diagnostic>, new: Seq<Diagnostic>) -> bool {
    &&& old.len() <= new.len()
    &&& forall|i: int| 0 <= i < old.len() ==> #[trigger] new[i] == old[i]
    &&& forall|i: int| old.len() <= i < new.len() ==> diagnostic_ok(ctx, #[trigger] new[i]@)
    &&& forall|i: int| old.len() <= i < new.len() ==> diagnostic_within(#[trigger] new[i]@, len)
}

/// A diagnostic that is reported under `ctx` and reports a lint reports one that `ctx` does
/// not allow, as an error exactly when `ctx` denies it; one that reports no lint is an error.
pub proof fn lemma_reported_lint_active(ctx: &DiagnosticContext, len: int, old: Seq<Diagnostic>, new: Seq<Diagnostic>, k: int)
    requires
        reported(ctx, len, old, new),
        old.len() <= k < new.len(),
    ensures
        match diagnostic_lint(new[k]@) {
            Some(i) => i < LINT_COUNT && ctx.levels@[i as int] != Severity::Allow
                && (new[k]@.error <==> ctx.levels@[i as int] == Severity::Deny),
            None => new[k]@.error,
        },
{
    assert(diagnostic_ok(ctx, new[k]@));
}

/// Appending reported diagnostics twice appends reported diagnostics.
pub proof fn lemma_reported_trans(ctx: &DiagnosticContext, len: int, a: Seq<Diagnostic>, b: Seq<Diagnostic>, c: Seq<Diagnostic>)
    requires
        reported(ctx, len, a, b),
        reported(ctx, len, b, c),
    ensures
        reported(ctx, len, a, c),
{
    assert forall|i: int| a.len() <= i < c.len() implies diagnostic_ok(ctx, #[trigger] c[i]@) by {
        if i < b.len() {
            assert(c[i] == b[i]);
        }
    }
    assert forall|i: int| a.len() <= i < c.len() implies diagnostic_within(#[trigger] c[i]@, len) by {
        if i < b.len() {
            assert(c[i] == b[i]);
        }
    }
}

/// A diagnostic reported under `ctx` in a source of length `len` points into that source:
/// every span that it annotates or patches starts and ends within it.
pub proof fn lemma_reported_within(ctx: &DiagnosticContext, len: int, old: Seq<Diagnostic>, new: Seq<Diagnostic>, k: int)
    requires
        reported(ctx, len, old, new),
        old.len() <= k < new.len(),
    ensures
        diagnostic_within(new[k]@, len),
{
}

/// The diagnostic of a lint that `ctx` does not allow is reported under `ctx`: at the lint's
/// severity, an error exactly when the lint is denied.
pub proof fn lemma_lint_diagnostic_ok(
    ctx: &DiagnosticContext,
    index: usize,
    anns: Seq<AnnotationView>,
    rest: Seq<GroupView>,
)
    requires
        index < LINT_COUNT,
        ctx.levels@.len() == LINT_COUNT,
        ctx.levels@[index as int] != Severity::Allow,
    ensures
        diagnostic_ok(ctx, lint_diagnostic(ctx, index, anns, rest)),
        diagnostic_lint(lint_diagnostic(ctx, index, anns, rest)) == Some(index),
        lint_diagnostic(ctx, index, anns, rest).groups[0].level == severity_level(ctx.levels@[index as int]),
{
}


/// The diagnostic of a lint points into a source of length `len` when its annotations and
/// its further groups do.
pub proof fn lemma_lint_diagnostic_within(
    ctx: &DiagnosticContext,
    index: usize,
    anns: Seq<AnnotationView>,
    rest: Seq<GroupView>,
    len: int,
)
    requires
        forall|i: int| 0 <= i < anns.len() ==> span_within(#[trigger] anns[i].span, len),
        forall|g: int| 0 <= g < rest.len() ==> group_within(#[trigger] rest[g], len),
    ensures
        diagnostic_within(lint_diagnostic(ctx, index, anns, rest), len),
{
    let d = lint_diagnostic(ctx, index, anns, rest);
    assert forall|g: int| 0 <= g < d.groups.len() implies group_within(#[trigger] d.groups[g], len) by {
        if g > 0 {
            assert(d.groups[g] == rest[g - 1]);
        }
    }
}

/// Two sequences of annotations within `len` make one within `len`.
pub proof fn lemma_annotations_concat_within(a: Seq<AnnotationView>, b: Seq<AnnotationView>, len: int)
    requires
        forall|i: int| 0 <= i < a.len() ==> span_within(#[trigger] a[i].span, len),
        forall|i: int| 0 <= i < b.len() ==> span_within(#[trigger] b[i].span, len),
    ensures
        forall|i: int| 0 <= i < (a + b).len() ==> span_within(#[trigger] (a + b)[i].span, len),
{
    assert forall|i: int| 0 <= i < (a + b).len() implies span_within(#[trigger] (a + b)[i].span, len) by {
        if i < a.len() {
            assert((a + b)[i] == a[i]);
        } else {
            assert((a + b)[i] == b[i - a.len()]);
        }
    }
}

/// Annotations on spans that lie within `len` lie within `len`, whatever their labels.
pub proof fn lemma_annotations_within(spans: Seq<Span>, kind: AnnotationKind, word: Seq<char>, len: int)
    requires
        forall|i: int| 0 <= i < spans.len() ==> span_within(#[trigger] spans[i], len),
    ensures
        forall|i: int| 0 <= i < spans.len() ==> span_within(#[trigger] spans_annotations(spans, kind)[i].span, len),
        forall|i: int| 0 <= i < spans.len() ==> span_within(#[trigger] counted_spans_annotations(spans, kind, word)[i].span, len),
        forall|i: int| 0 <= i < spans.len() ==> span_within(#[trigger] labeled_spans_annotations(spans, kind, word)[i].span, len),
        spans_annotations(spans, kind).len() == spans.len(),
        counted_spans_annotations(spans, kind, word).len() == spans.len(),
        labeled_spans_annotations(spans, kind, word).len() == spans.len(),
{
}
/// The diagnostic of lint `index` under `ctx`: its main group with the annotations `anns`,
/// followed by `rest`.
pub open spec fn lint_diagnostic(
    ctx: &DiagnosticContext,
    index: usize,
    anns: Seq<AnnotationView>,
    rest: Seq<GroupView>,
) -> DiagnosticView {
    DiagnosticView {
        error: ctx.levels@[index as int] == Severity::Deny,
        groups: seq![
            GroupView {
                level: severity_level(ctx.levels@[index as int]),
                title: lint_message(index)@,
                lint: Some(index),
                element: Some(ElementView::Annotations(anns)),
            },
        ] + rest,
    }
}

/// An annotation.
pub open spec fn ann(kind: AnnotationKind, span: Span, label: Option<Seq<char>>) -> AnnotationView {
    AnnotationView { kind, span, label }
}

/// A patch.
pub open spec fn patch(span: Span, replacement: Seq<char>) -> PatchView {
    PatchView { span, replacement }
}

/// A group with a title only.
pub open spec fn note(level: Level, title: Seq<char>) -> GroupView {
    GroupView { level, title, lint: None, element: None }
}

/// A group that suggests patches.
pub open spec fn patches(level: Level, title: Seq<char>, ps: Seq<PatchView>) -> GroupView {
    GroupView { level, title, lint: None, element: Some(ElementView::Patches(ps)) }
}

/// A group that annotates the source.
pub open spec fn annotated(level: Level, title: Seq<char>, anns: Seq<AnnotationView>) -> GroupView {
    GroupView { level, title, lint: None, element: Some(ElementView::Annotations(anns)) }
}

/// The decimal digits of `n`.
pub open spec fn decimal(n: nat) -> Seq<char>
    decreases n,
{
    if n < 10 {
        seq![digit_char(n)]
    } else {
        decimal(n / 10) + seq![digit_char(n % 10)]
    }
}

/// The lower-case hexadecimal digits of `n`.
pub open spec fn hexadecimal(n: nat) -> Seq<char>
    decreases n,
{
    if n < 16 {
        seq![digit_char(n)]
    } else {
        hexadecimal(n / 16) + seq![digit_char(n % 16)]
    }
}

/// The digit of value `d`.
pub open spec fn digit_char(d: nat) -> char {
    if d < 10 {
        (48 + d) as char
    } else {
        (87 + d) as char
    }
}

fn digit_str(d: u64) -> (r: &'static str)
    requires
        d < 16,
    ensures
        r@ == seq![digit_char(d as nat)],
{
    proof {
        reveal_strlit("0");
        reveal_strlit("1");
        reveal_strlit("2");
        reveal_strlit("3");
        reveal_strlit("4");
        reveal_strlit("5");
        reveal_strlit("6");
        reveal_strlit("7");
        reveal_strlit("8");
        reveal_strlit("9");
        reveal_strlit("a");
        reveal_strlit("b");
        reveal_strlit("c");
        reveal_strlit("d");
        reveal_strlit("e");
        reveal_strlit("f");
    }
    let r = match d {
        0 => "0",
        1 => "1",
        2 => "2",
        3 => "3",
        4 => "4",
        5 => "5",
        6 => "6",
        7 => "7",
        8 => "8",
        9 => "9",
        10 => "a",
        11 => "b",
        12 => "c",
        13 => "d",
        14 => "e",
        _ => "f",
    };
    assert(r@ =~= seq![digit_char(d as nat)]);
    r
}

/// The decimal representation of `n`.
pub fn decimal_string(n: u64) -> (r: String)
    ensures
        r@ == decimal(n as nat),
    decreases n,
{
    if n < 10 {
        digit_str(n).to_owned()
    } else {
        let mut s = decimal_string(n / 10);
        s.append(digit_str(n % 10));
        s
    }
}

/// The lower-case hexadecimal representation of `n`.
pub fn hexadecimal_string(n: u64) -> (r: String)
    ensures
        r@ == hexadecimal(n as nat),
    decreases n,
{
    if n < 16 {
        digit_str(n).to_owned()
    } else {
        let mut s = hexadecimal_string(n / 16);
        s.append(digit_str(n % 16));
        s
    }
}

/// The decimal representation of a signed integer, with a minus sign when negative.
pub open spec fn signed_decimal(n: int) -> Seq<char> {
    if n < 0 {
        "-"@ + decimal((-n) as nat)
    } else {
        decimal(n as nat)
    }
}

pub fn signed_decimal_string(n: i64) -> (r: String)
    ensures
        r@ == signed_decimal(n as int),
{
    if n < 0 {
        let magnitude: u64 = ((-(n + 1)) as u64) + 1;
        let mut s = "-".to_owned();
        s.append(decimal_string(magnitude).as_str());
        s
    } else {
        decimal_string(n as u64)
    }
}

/// The number of lints.
pub const LINT_COUNT: usize = 38;

/// The index of lint `empty-statement`.
pub const EMPTY_STATEMENT: usize = 0;

/// The index of lint `unused-local`.
pub const UNUSED_LOCAL: usize = 1;

/// The index of lint `trailing-whitespace`.
pub const TRAILING_WHITESPACE: usize = 2;

/// The index of lint `only-whitespace`.
pub const ONLY_WHITESPACE: usize = 3;

/// The index of lint `lower-case-global`.
pub const LOWER_CASE_GLOBAL: usize = 4;

/// The index of lint `empty-block`.
pub const EMPTY_BLOCK: usize = 5;

/// The index of lint `unnecessary-negation`.
pub const UNNECESSARY_NEGATION: usize = 6;

/// The index of lint `error-prone-negation`.
pub const ERROR_PRONE_NEGATION: usize = 7;

/// The index of lint `unused-label`.
pub const UNUSED_LABEL: usize = 8;

/// The index of lint `used-despite-unused-hint`.
pub const USED_DESPITE_UNUSED_HINT: usize = 9;

/// The index of lint `unused-parameter`.
pub const UNUSED_PARAMETER: usize = 10;

/// The index of lint `unused-loopvar`.
pub const UNUSED_LOOPVAR: usize = 11;

/// The index of lint `redefined-local`.
pub const REDEFINED_LOCAL: usize = 12;

/// The index of lint `redundant-local`.
pub const REDUNDANT_LOCAL: usize = 13;

/// The index of lint `shadowing-local`.
pub const SHADOWING_LOCAL: usize = 14;

/// The index of lint `unused-vararg`.
pub const UNUSED_VARARG: usize = 15;

/// The index of lint `unbalanced-assignment`.
pub const UNBALANCED_ASSIGNMENT: usize = 16;

/// The index of lint `unbalanced-initialization`.
pub const UNBALANCED_INITIALIZATION: usize = 17;

/// The index of lint `too-many-parameters`.
pub const TOO_MANY_PARAMETERS: usize = 18;

/// The index of lint `too-many-lines`.
pub const TOO_MANY_LINES: usize = 19;

/// The index of lint `almost-swap`.
pub const ALMOST_SWAP: usize = 20;

/// The index of lint `approx-pi`.
pub const APPROX_PI: usize = 21;

/// The index of lint `rounds-to-inf`.
pub const ROUNDS_TO_INF: usize = 22;

/// The index of lint `rounds-int-part`.
pub const ROUNDS_INT_PART: usize = 23;

/// The index of lint `inexact-hex-float`.
pub const INEXACT_HEX_FLOAT: usize = 24;

/// The index of lint `octal-confusion`.
pub const OCTAL_CONFUSION: usize = 25;

/// The index of lint `hex-int-overflow`.
pub const HEX_INT_OVERFLOW: usize = 26;

/// The index of lint `bool-compare`.
pub const BOOL_COMPARE: usize = 27;

/// The index of lint `invisible-characters`.
pub const INVISIBLE_CHARACTERS: usize = 28;

/// The index of lint `unreachable-code`.
pub const UNREACHABLE_CODE: usize = 29;

/// The index of lint `next-line-args`.
pub const NEXT_LINE_ARGS: usize = 30;

/// The index of lint `unicode-code-point-too-large`.
pub const UNICODE_CODE_POINT_TOO_LARGE: usize = 31;

/// The index of lint `unicode-code-point-is-surrogate`.
pub const UNICODE_CODE_POINT_IS_SURROGATE: usize = 32;

/// The index of lint `non-ascii-literal`.
pub const NON_ASCII_LITERAL: usize = 33;

/// The index of lint `cyclomatic-complexity`.
pub const CYCLOMATIC_COMPLEXITY: usize = 34;

/// The index of lint `redundant-parentheses`.
pub const REDUNDANT_PARENTHESES: usize = 35;

/// The index of lint `line-too-long`.
pub const LINE_TOO_LONG: usize = 36;

/// The index of lint `inconsistent-indentation`.
pub const INCONSISTENT_INDENTATION: usize = 37;

/// The code of lint `i`.
pub open spec fn lint_code(i: usize) -> &'static str {
    match i {
        0 => "empty-statement",
        1 => "unused-local",
        2 => "trailing-whitespace",
        3 => "only-whitespace",
        4 => "lower-case-global",
        5 => "empty-block",
        6 => "unnecessary-negation",
        7 => "error-prone-negation",
        8 => "unused-label",
        9 => "used-despite-unused-hint",
        10 => "unused-parameter",
        11 => "unused-loopvar",
        12 => "redefined-local",
        13 => "redundant-local",
        14 => "shadowing-local",
        15 => "unused-vararg",
        16 => "unbalanced-assignment",
        17 => "unbalanced-initialization",
        18 => "too-many-parameters",
        19 => "too-many-lines",
        20 => "almost-swap",
        21 => "approx-pi",
        22 => "rounds-to-inf",
        23 => "rounds-int-part",
        24 => "inexact-hex-float",
        25 => "octal-confusion",
        26 => "hex-int-overflow",
        27 => "bool-compare",
        28 => "invisible-characters",
        29 => "unreachable-code",
        30 => "next-line-args",
        31 => "unicode-code-point-too-large",
        32 => "unicode-code-point-is-surrogate",
        33 => "non-ascii-literal",
        34 => "cyclomatic-complexity",
        35 => "redundant-parentheses",
        36 => "line-too-long",
        37 => "inconsistent-indentation",
        _ => "",
    }
}

/// The message of lint `i`.
pub open spec fn lint_message(i: usize) -> &'static str {
    match i {
        0 => "empty statement",
        1 => "unused local",
        2 => "line contains trailing whitespace",
        3 => "line contains only whitespace",
        4 => "global variable in lower-case initial",
        5 => "empty block in control flow statement",
        6 => "negation of relational expression can be simplified",
        7 => "negation is executed before relational operator",
        8 => "unused label",
        9 => "used declaration with unused hint",
        10 => "unused parameter",
        11 => "unused loop variable",
        12 => "redefined local",
        13 => "redundant redefinition of a local",
        14 => "shadowing local",
        15 => "unused variable length argument",
        16 => "unexpected number of expressions on right side of assignment",
        17 => "unexpected number of expressions on right side of initialization",
        18 => "function has too many parameters",
        19 => "function contains too many lines",
        20 => "code sequence almost implements a swap",
        21 => "numeric literal is approximatly pi",
        22 => "numeric literal rounds to infinity",
        23 => "integral part of numeric literal will be rounded",
        24 => "cannot exactly represent hexadecimal float in 64 bit",
        25 => "zero prefixed integer can be confused as octal number",
        26 => "overflow in integer literal",
        27 => "comparison with bool constant can be simplfied",
        28 => "code contains invisible Unicode characters",
        29 => "unreachable code",
        30 => "arguments of called function start in next line",
        31 => "Unicode code point is too large",
        32 => "Unicode code point is a surrogate",
        33 => "string literal contains non-ASCII character",
        34 => "cyclomatic complexity of function is too high",
        35 => "expression contains redundant parentheses",
        36 => "",
        37 => "indentation contains tabs after spaces",
        _ => "",
    }
}

/// The default severity of lint `i`.
pub open spec fn lint_level(i: usize) -> Severity {
    match i {
        0 => Severity::Warn,
        1 => Severity::Warn,
        2 => Severity::Hint,
        3 => Severity::Hint,
        4 => Severity::Warn,
        5 => Severity::Warn,
        6 => Severity::Warn,
        7 => Severity::Warn,
        8 => Severity::Warn,
        9 => Severity::Warn,
        10 => Severity::Warn,
        11 => Severity::Warn,
        12 => Severity::Allow,
        13 => Severity::Warn,
        14 => Severity::Allow,
        15 => Severity::Warn,
        16 => Severity::Warn,
        17 => Severity::Warn,
        18 => Severity::Warn,
        19 => Severity::Warn,
        20 => Severity::Deny,
        21 => Severity::Warn,
        22 => Severity::Warn,
        23 => Severity::Warn,
        24 => Severity::Warn,
        25 => Severity::Warn,
        26 => Severity::Warn,
        27 => Severity::Warn,
        28 => Severity::Deny,
        29 => Severity::Warn,
        30 => Severity::Warn,
        31 => Severity::Warn,
        32 => Severity::Warn,
        33 => Severity::Allow,
        34 => Severity::Warn,
        35 => Severity::Warn,
        36 => Severity::Warn,
        37 => Severity::Warn,
        _ => Severity::Allow,
    }
}

/// The category of lint `i`.
pub open spec fn lint_category(i: usize) -> Category {
    match i {
        0 => Category::Style,
        1 => Category::Suspicious,
        2 => Category::Style,
        3 => Category::Style,
        4 => Category::Suspicious,
        5 => Category::Suspicious,
        6 => Category::Complexity,
        7 => Category::Suspicious,
        8 => Category::Suspicious,
        9 => Category::Suspicious,
        10 => Category::Suspicious,
        11 => Category::Suspicious,
        12 => Category::Pedantic,
        13 => Category::Suspicious,
        14 => Category::Pedantic,
        15 => Category::Suspicious,
        16 => Category::Suspicious,
        17 => Category::Suspicious,
        18 => Category::Complexity,
        19 => Category::Complexity,
        20 => Category::Correctness,
        21 => Category::Correctness,
        22 => Category::Correctness,
        23 => Category::Correctness,
        24 => Category::Correctness,
        25 => Category::Complexity,
        26 => Category::Complexity,
        27 => Category::Complexity,
        28 => Category::Suspicious,
        29 => Category::Suspicious,
        30 => Category::Suspicious,
        31 => Category::Correctness,
        32 => Category::Correctness,
        33 => Category::Restriction,
        34 => Category::Restriction,
        35 => Category::Complexity,
        36 => Category::Restriction,
        37 => Category::Restriction,
        _ => Category::Restriction,
    }
}

/// The documentation of lint `i`: what it checks.
pub open spec fn lint_doc_what(i: usize) -> &'static str {
    match i {
        0 => "Checks for consecutive semicolons.\n",
        1 => "Checks for locals that are never used.\n",
        2 => "Checks for trailing whitespaces in a line.\n",
        3 => "Checks if a line only contains whitespaces.\n",
        4 => "Checks for global variables with lower-case initial letter.\n",
        5 => "Checks if a block contains no statements.\n",
        6 => "Checks for combinations of negations and relational expressions which can be simplified.\n",
        7 => "Checks for combinations of negations and relational expressions which are likely unintended.\n",
        8 => "Checks for labels that are never used by a `goto` statement.\n",
        9 => "Checks if a declaration with an unused hint (`_` prefix) was used.\n",
        10 => "Checks for parameters that are never used.\n",
        11 => "Checks for loop variables that are never used.\n",
        12 => "Checks for redefinitions of local variables.\n",
        13 => "Checks for redundant redefinitions of local variables.\n",
        14 => "Checks for locals that shadow locals in a surrounding scope.\n",
        15 => "Checks for unused variable length arguments.\n",
        16 => "Checks if the left and right side of an assignment have the same number of expressions.\n",
        17 => "Checks if the left and right side of an assignment have the same number of names and expressions.\n",
        18 => "Checks if the number of function parameters exceeds the threshold configured in `parameter_threshold`.\n",
        19 => "Checks if the number of lines in a function exceeds the threshold configured in `function_line_threshold`.\n",
        20 => "Checks for code that almost implements a swap operation.\n",
        21 => "Checks for floating point literals that approximate pi (π), which is already defined in `math`.\n",
        22 => "Checks if the value of a numeric literal is so large that it would be rounded to infinity.\n",
        23 => "Checks if the value of a numeric literal is too large for its integral part to be represented exactly as a 64 bit IEEE-754 float value.\n",
        24 => "Checks if a hexadecimal float literal can be represented exactly as a 64 bit IEEE-754 float value.\n",
        25 => "Checks if a decimal integer literal has a leading zero.\n",
        26 => "Checks if a hexadecimal integer literal is too large for a signed 64 bit integer value.\n",
        27 => "Checks if a boolean value is compared to a boolean literal.\n",
        28 => "Checks for invisible Unicode characters in the code.\n",
        29 => "Checks for code that can never be reached during execution.\n",
        30 => "Checks if the argument list of a function calls start in the next line.\n",
        31 => "Checks for Unicode escape sequences with values larger than `0x10FFFF`.\n",
        32 => "Checks for Unicode escape sequences with values between `0xD800` and `0xDFFF`.\n",
        33 => "Checks for non-ASCII characters in string literals.\n",
        34 => "Checks if the cyclomatic complexity of a function exceeds the threshold configured in `cyclomatic_complexity_threshold`.\n",
        35 => "Checks for parentheses inside of parentheses.\n",
        36 => "Checks if the number of columns in a line exceeds the threshold configured in `line_length_threshold `.\n",
        37 => "Checks for tabs after spaces.\n",
        _ => "",
    }
}

/// The documentation of lint `i`: why it is restricted.
pub open spec fn lint_doc_why(i: usize) -> &'static str {
    match i {
        0 => "This is most likely a typing mistake.\n",
        1 => "An unused local indicates, that it was either unknowingly unused or later became unused due to a refactoring. It can be safely be removed without changing the semantics of the code.\n\nThe warning can be locally ignored by adding a `_` prefix if `allow_local_unused_hint` is configured as `true`. Otherwise it can also be ignored by using `_` as the name.\n",
        2 => "Trailing whitespaces serve no purpose. They are most likely added due to a typing or editing mistake.\n",
        3 => "Lines with only whitespaces serve no purpose. They are most likely added due to a typing or editing mistake.\n",
        4 => "By convention in Lua globals start with an upper-case letter.\n",
        5 => "It usually makes sense to at least explain why a block is empty. Otherwise it could indicate that this was a mistake.\n\nThe warning can be suppressed by adding a comment inside the block.\n",
        6 => "This makes the code more readable.\n",
        7 => "Negation has a higher precedence than binary operators. Omitting parentheses is likely a mistake, as boolean expressions usually require no comparisons.\n",
        8 => "This is likely due to a mistake or refactoring. The label can be removed without changing the semantics of the code.\n",
        9 => "If a variable is actually used, the hint should be removed, so mistakes in later changes can be detected.\n",
        10 => "An unused parameter indicates, that it was either unknowingly unused or later became unused due to a refactoring.\n\nThe warning can be locally ignored by adding a `_` prefix.\n",
        11 => "An unused loop variable indicates, that it was either unknowingly unused or later became unused due to a refactoring.\n\nThe warning can be locally ignored by adding a `_` prefix if `allow_loopvar_unused_hint` is configured as `true`. Otherwise it can also be ignored by using `_` as the name.\n",
        12 => "Redefinitions of local variables can make it harder to understand the code.\n",
        13 => "Redundant redefinitions of local variables have no effect and are thus likely to be unintended.\n",
        14 => "This can lead to confusion, when one tries to change the other variable in the inner scope.\n",
        15 => "This is likely a mistake, as there is otherwise no reason to add the `...` parameter.\n",
        16 => "Extra left-hand side values will be assigned `nil` which might be unintended. Extra right-hand side values will be ignored which indicates a mistake.\n",
        17 => "Extra left-hand side values will be assigned `nil` which might be unintended. Extra right-hand side values will be ignored which indicates a mistake.\n",
        18 => "Functions with too many parameters can be hard to understand.\n",
        19 => "Functions with too many lines can be hard to understand.\n",
        20 => "This is most likely a mistake as the second assignment serves no purpose.\n",
        21 => "Usually the standard library definition is more precise.\n",
        22 => "Using the standard library definition is more clear.\n",
        23 => "This is very likely unintended behavior and may result in logic bugs.\n",
        24 => "This is very likely unintended behavior, as the main use case of hexadecimal float literals is to exactly specify values.\n",
        25 => "In C such literals are octal numbers, so some people may expect the same to be true in Lua. As there is no use for such a prefix, it can safely be removed to avoid confusion.\n",
        26 => "In Lua hexadecimal integer literals are truncated if they are too large.\n",
        27 => "It is usually clearer to just use the boolean value or its negation.\n",
        28 => "There is no valid use case for invisible Unicode characters in your code.\n",
        29 => "Unreachable code can be removed without changing the semantics of the code.\n",
        30 => "Lua requires no semicolons between statements, so some opening parentheses can unexpectedly be interpreted as the start of the argument list of a function call.\n",
        31 => "Lua allows such invalid Unicode code points. As these are however not mapped to a valid Unicode scalar value they should usually be avoided.\n",
        32 => "Lua allows unpaired surrogates. As these are invalid Unicode scalar values they should usually be avoided.\n",
        33 => "Some editors may not work well with certain Unicode symbols, so using escape sequences instead could be useful.\n",
        34 => "Functions with high cyclomatic complexity can be hard to understand and may be candidates for a refactoring.\n",
        35 => "Double parentheses indicate that there might be a mistake. They can be removed without changing the semantics of the code.\n",
        36 => "Lines that are to long are hard to understand.\n",
        37 => "Using tabs after spaces is not useful.\n",
        _ => "",
    }
}

/// The documentation of lint `i`: its known problems, if any.
pub open spec fn lint_doc_issues(i: usize) -> &'static str {
    match i {
        0 => "",
        1 => "",
        2 => "",
        3 => "",
        4 => "",
        5 => "",
        6 => "If one operand is a NaN value the simplification is not always correct.\n",
        7 => "",
        8 => "",
        9 => "",
        10 => "",
        11 => "",
        12 => "There are commonly used patterns that will result in warnings.\n\n```lua\nlocal val, err = foo();\nif err then\n    print(err)\nend\n\nlocal val, err = bar(); -- redefined local\nif err then\n    print(err)\nend\n```\n",
        13 => "",
        14 => "Like with [redefined-local](#redefined-local) there are some commonly used patterns that will result in warnings.\n",
        15 => "",
        16 => "",
        17 => "",
        18 => "",
        19 => "",
        20 => "",
        21 => "",
        22 => "",
        23 => "",
        24 => "",
        25 => "",
        26 => "",
        27 => "",
        28 => "",
        29 => "",
        30 => "",
        31 => "",
        32 => "",
        33 => "",
        34 => "Due to missing switch statements Lua code sometimes requires long `if`-`elseif` chains. Such chains can be easy to understand, if the structure is very regular, but they would still result in a high cyclomatic complexity.\n",
        35 => "",
        36 => "",
        37 => "",
        _ => "",
    }
}

/// The documentation of lint `i`: an example, if any.
pub open spec fn lint_doc_example(i: usize) -> &'static str {
    match i {
        0 => "```lua\nprint(\"hello\");;\n```\n",
        1 => "```lua\nlocal a = 42\n```\n",
        2 => "",
        3 => "",
        4 => "```lua\na = 42\n```\n",
        5 => "```lua\nif a then\nelse\n    print(42)\nend\n```\n",
        6 => "```lua\nif not (a > b) then\n    -- do something\nend\n```\nUse this code instead.\n```lua\nif a <= b then\n    -- do something\nend\n```\n",
        7 => "```lua\nif not a > b then\n    -- do something\nend\n```\n",
        8 => "```lua\nfunction loop()\n    local i = 0;\n    ::foo::\n    print(i)\n    i = i + 1\n    if i == 100 then\n        -- forgot to use label\n    end\n    goto foo\n    ::bar:: -- unused label\n    return\nend\n```\n",
        9 => "```lua\nlocal _a = 42\nprint(_a)\n```\n",
        10 => "```lua\nfunction foo(a, b)\n    print(a)\nend\n```\n",
        11 => "```lua\nfor i = 0, 10 do\n    print(42)\nend\n```\n",
        12 => "```lua\nlocal a = 42\nprint(a)\n\nlocal a = 100 -- redefined local\nprint(a)\n```\n",
        13 => "```lua\nlocal a = 0;\nlocal a = a;\n```\n",
        14 => "```lua\nlocal a = 0\nif b then\n    -- ...\n    local a = 0 -- shadowing local\n    -- ...\n    a = 100\nend\nprint(a)\n```\n",
        15 => "```lua\nfunction foo(a, ...)\n    print(a)\nend\n```\n",
        16 => "```lua\nA, B = 42 -- B is assigned nil\nC, D = 1, 2, 3 -- 3 is ignored\n```\n",
        17 => "```lua\nlocal a, b = 42 -- b is assigned nil\nlocal c, d = 1, 2, 3 -- 3 is ignored\n```\n",
        18 => "```lua\nfunction foo(a, b, c, d, e, f, g, h, i, j)\n    print(a, b, c, d, e, f, g, h, i, j)\nend\n```\n",
        19 => "```lua\nfunction foo()\n    local a\n    -- 1000 more lines which may modify a\n    print(a)\nend\n```\n",
        20 => "The following code does not swap `a` and `b`.\n```lua\na = b\nb = a\n```\nUse this code instead.\n```lua\na, b = b, a\n```\n",
        21 => "```lua\nlocal radius = 42\nlocal area = 3.141 * radius ^ 2\n```\nUse this code instead.\n```lua\nlocal radius = 42\nlocal area = math.pi * radius ^ 2\n```\n",
        22 => "```lua\nlocal inf = 2e1000\n```\nUse this code instead.\n```lua\nlocal inf = math.huge\n```\n",
        23 => "```lua\nlocal a = 100000000000000000000000 -- the actual value is 99999999999999991611392.0\nlocal b = 100000000000000000000001 -- rounded to same value\nprint(a < b) -- false\n```\n",
        24 => "```lua\nlocal _ = 0x1.p9999\n```\n",
        25 => "```lua\nlocal _ = 042\n```\n",
        26 => "```lua\nlocal _ = 0x10000000000000000 -- actual value is 0\n```\n",
        27 => "```lua\nlocal is_ok = true\nif is_ok == true then\n    -- do something\nend\n```\nUse this code instead.\n```lua\nlocal is_ok = true\nif is_ok then\n    -- do something\nend\n```\n",
        28 => "",
        29 => "```lua\ngoto bar\nprint(\"foo\") -- unreachable code\n::bar::\nprint(\"bar\")\n```\n",
        30 => "```lua\na = b + c\n(print or io.write)('done')\n```\n",
        31 => "```lua\nlocal _ = \"\\u{110000}\"\n```\n",
        32 => "```lua\nlocal _ = \"\\u{D800}\"\n```\n",
        33 => "```lua\nlocal _ = \"€\"\n```\nUse this code instead.\n```lua\nlocal _ = \"\\u{20ac}\"\n```\n",
        34 => "```lua\nfunction foo()\n    if x1 == 0 then\n        -- do something\n    end\n    if x2 == 0 then\n        -- do something\n    end\n    -- ...\n    if x100 == 0 then\n        -- do something\n    end\nend\n```\n",
        35 => "```lua\nlocal _ = ((20 + 1)) * 2\n```\n",
        36 => "",
        37 => "",
        _ => "",
    }
}

/// The description of lint `i`.
pub fn info(i: usize) -> (r: Info)
    requires
        i < LINT_COUNT,
    ensures
        r.code == lint_code(i),
        r.message == lint_message(i),
        r.level == lint_level(i),
        r.category == lint_category(i),
        r.doc_what == lint_doc_what(i),
        r.doc_why == lint_doc_why(i),
        r.doc_issues == lint_doc_issues(i),
        r.doc_example == lint_doc_example(i),
{
    match i {
        0 => Info {
            message: "empty statement",
            code: "empty-statement",
            level: Severity::Warn,
            category: Category::Style,
            doc_what: "Checks for consecutive semicolons.\n",
            doc_why: "This is most likely a typing mistake.\n",
            doc_issues: "",
            doc_example: "```lua\nprint(\"hello\");;\n```\n",
        },
        1 => Info {
            message: "unused local",
            code: "unused-local",
            level: Severity::Warn,
            category: Category::Suspicious,
            doc_what: "Checks for locals that are never used.\n",
            doc_why: "An unused local indicates, that it was either unknowingly unused or later became unused due to a refactoring. It can be safely be removed without changing the semantics of the code.\n\nThe warning can be locally ignored by adding a `_` prefix if `allow_local_unused_hint` is configured as `true`. Otherwise it can also be ignored by using `_` as the name.\n",
            doc_issues: "",
            doc_example: "```lua\nlocal a = 42\n```\n",
        },
        2 => Info {
            message: "line contains trailing whitespace",
            code: "trailing-whitespace",
            level: Severity::Hint,
            category: Category::Style,
            doc_what: "Checks for trailing whitespaces in a line.\n",
            doc_why: "Trailing whitespaces serve no purpose. They are most likely added due to a typing or editing mistake.\n",
            doc_issues: "",
            doc_example: "",
        },
        3 => Info {
            message: "line contains only whitespace",
            code: "only-whitespace",
            level: Severity::Hint,
            category: Category::Style,
            doc_what: "Checks if a line only contains whitespaces.\n",
            doc_why: "Lines with only whitespaces serve no purpose. They are most likely added due to a typing or editing mistake.\n",
            doc_issues: "",
            doc_example: "",
        },
        4 => Info {
            message: "global variable in lower-case initial",
            code: "lower-case-global",
            level: Severity::Warn,
            category: Category::Suspicious,
            doc_what: "Checks for global variables with lower-case initial letter.\n",
            doc_why: "By convention in Lua globals start with an upper-case letter.\n",
            doc_issues: "",
            doc_example: "```lua\na = 42\n```\n",
        },
        5 => Info {
            message: "empty block in control flow statement",
            code: "empty-block",
            level: Severity::Warn,
            category: Category::Suspicious,
            doc_what: "Checks if a block contains no statements.\n",
            doc_why: "It usually makes sense to at least explain why a block is empty. Otherwise it could indicate that this was a mistake.\n\nThe warning can be suppressed by adding a comment inside the block.\n",
            doc_issues: "",
            doc_example: "```lua\nif a then\nelse\n    print(42)\nend\n```\n",
        },
        6 => Info {
            message: "negation of relational expression can be simplified",
            code: "unnecessary-negation",
            level: Severity::Warn,
            category: Category::Complexity,
            doc_what: "Checks for combinations of negations and relational expressions which can be simplified.\n",
            doc_why: "This makes the code more readable.\n",
            doc_issues: "If one operand is a NaN value the simplification is not always correct.\n",
            doc_example: "```lua\nif not (a > b) then\n    -- do something\nend\n```\nUse this code instead.\n```lua\nif a <= b then\n    -- do something\nend\n```\n",
        },
        7 => Info {
            message: "negation is executed before relational operator",
            code: "error-prone-negation",
            level: Severity::Warn,
            category: Category::Suspicious,
            doc_what: "Checks for combinations of negations and relational expressions which are likely unintended.\n",
            doc_why: "Negation has a higher precedence than binary operators. Omitting parentheses is likely a mistake, as boolean expressions usually require no comparisons.\n",
            doc_issues: "",
            doc_example: "```lua\nif not a > b then\n    -- do something\nend\n```\n",
        },
        8 => Info {
            message: "unused label",
            code: "unused-label",
            level: Severity::Warn,
            category: Category::Suspicious,
            doc_what: "Checks for labels that are never used by a `goto` statement.\n",
            doc_why: "This is likely due to a mistake or refactoring. The label can be removed without changing the semantics of the code.\n",
            doc_issues: "",
            doc_example: "```lua\nfunction loop()\n    local i = 0;\n    ::foo::\n    print(i)\n    i = i + 1\n    if i == 100 then\n        -- forgot to use label\n    end\n    goto foo\n    ::bar:: -- unused label\n    return\nend\n```\n",
        },
        9 => Info {
            message: "used declaration with unused hint",
            code: "used-despite-unused-hint",
            level: Severity::Warn,
            category: Category::Suspicious,
            doc_what: "Checks if a declaration with an unused hint (`_` prefix) was used.\n",
            doc_why: "If a variable is actually used, the hint should be removed, so mistakes in later changes can be detected.\n",
            doc_issues: "",
            doc_example: "```lua\nlocal _a = 42\nprint(_a)\n```\n",
        },
        10 => Info {
            message: "unused parameter",
            code: "unused-parameter",
            level: Severity::Warn,
            category: Category::Suspicious,
            doc_what: "Checks for parameters that are never used.\n",
            doc_why: "An unused parameter indicates, that it was either unknowingly unused or later became unused due to a refactoring.\n\nThe warning can be locally ignored by adding a `_` prefix.\n",
            doc_issues: "",
            doc_example: "```lua\nfunction foo(a, b)\n    print(a)\nend\n```\n",
        },
        11 => Info {
            message: "unused loop variable",
            code: "unused-loopvar",
            level: Severity::Warn,
            category: Category::Suspicious,
            doc_what: "Checks for loop variables that are never used.\n",
            doc_why: "An unused loop variable indicates, that it was either unknowingly unused or later became unused due to a refactoring.\n\nThe warning can be locally ignored by adding a `_` prefix if `allow_loopvar_unused_hint` is configured as `true`. Otherwise it can also be ignored by using `_` as the name.\n",
            doc_issues: "",
            doc_example: "```lua\nfor i = 0, 10 do\n    print(42)\nend\n```\n",
        },
        12 => Info {
            message: "redefined local",
            code: "redefined-local",
            level: Severity::Allow,
            category: Category::Pedantic,
            doc_what: "Checks for redefinitions of local variables.\n",
            doc_why: "Redefinitions of local variables can make it harder to understand the code.\n",
            doc_issues: "There are commonly used patterns that will result in warnings.\n\n```lua\nlocal val, err = foo();\nif err then\n    print(err)\nend\n\nlocal val, err = bar(); -- redefined local\nif err then\n    print(err)\nend\n```\n",
            doc_example: "```lua\nlocal a = 42\nprint(a)\n\nlocal a = 100 -- redefined local\nprint(a)\n```\n",
        },
        13 => Info {
            message: "redundant redefinition of a local",
            code: "redundant-local",
            level: Severity::Warn,
            category: Category::Suspicious,
            doc_what: "Checks for redundant redefinitions of local variables.\n",
            doc_why: "Redundant redefinitions of local variables have no effect and are thus likely to be unintended.\n",
            doc_issues: "",
            doc_example: "```lua\nlocal a = 0;\nlocal a = a;\n```\n",
        },
        14 => Info {
            message: "shadowing local",
            code: "shadowing-local",
            level: Severity::Allow,
            category: Category::Pedantic,
            doc_what: "Checks for locals that shadow locals in a surrounding scope.\n",
            doc_why: "This can lead to confusion, when one tries to change the other variable in the inner scope.\n",
            doc_issues: "Like with [redefined-local](#redefined-local) there are some commonly used patterns that will result in warnings.\n",
            doc_example: "```lua\nlocal a = 0\nif b then\n    -- ...\n    local a = 0 -- shadowing local\n    -- ...\n    a = 100\nend\nprint(a)\n```\n",
        },
        15 => Info {
            message: "unused variable length argument",
            code: "unused-vararg",
            level: Severity::Warn,
            category: Category::Suspicious,
            doc_what: "Checks for unused variable length arguments.\n",
            doc_why: "This is likely a mistake, as there is otherwise no reason to add the `...` parameter.\n",
            doc_issues: "",
            doc_example: "```lua\nfunction foo(a, ...)\n    print(a)\nend\n```\n",
        },
        16 => Info {
            message: "unexpected number of expressions on right side of assignment",
            code: "unbalanced-assignment",
            level: Severity::Warn,
            category: Category::Suspicious,
            doc_what: "Checks if the left and right side of an assignment have the same number of expressions.\n",
            doc_why: "Extra left-hand side values will be assigned `nil` which might be unintended. Extra right-hand side values will be ignored which indicates a mistake.\n",
            doc_issues: "",
            doc_example: "```lua\nA, B = 42 -- B is assigned nil\nC, D = 1, 2, 3 -- 3 is ignored\n```\n",
        },
        17 => Info {
            message: "unexpected number of expressions on right side of initialization",
            code: "unbalanced-initialization",
            level: Severity::Warn,
            category: Category::Suspicious,
            doc_what: "Checks if the left and right side of an assignment have the same number of names and expressions.\n",
            doc_why: "Extra left-hand side values will be assigned `nil` which might be unintended. Extra right-hand side values will be ignored which indicates a mistake.\n",
            doc_issues: "",
            doc_example: "```lua\nlocal a, b = 42 -- b is assigned nil\nlocal c, d = 1, 2, 3 -- 3 is ignored\n```\n",
        },
        18 => Info {
            message: "function has too many parameters",
            code: "too-many-parameters",
            level: Severity::Warn,
            category: Category::Complexity,
            doc_what: "Checks if the number of function parameters exceeds the threshold configured in `parameter_threshold`.\n",
            doc_why: "Functions with too many parameters can be hard to understand.\n",
            doc_issues: "",
            doc_example: "```lua\nfunction foo(a, b, c, d, e, f, g, h, i, j)\n    print(a, b, c, d, e, f, g, h, i, j)\nend\n```\n",
        },
        19 => Info {
            message: "function contains too many lines",
            code: "too-many-lines",
            level: Severity::Warn,
            category: Category::Complexity,
            doc_what: "Checks if the number of lines in a function exceeds the threshold configured in `function_line_threshold`.\n",
            doc_why: "Functions with too many lines can be hard to understand.\n",
            doc_issues: "",
            doc_example: "```lua\nfunction foo()\n    local a\n    -- 1000 more lines which may modify a\n    print(a)\nend\n```\n",
        },
        20 => Info {
            message: "code sequence almost implements a swap",
            code: "almost-swap",
            level: Severity::Deny,
            category: Category::Correctness,
            doc_what: "Checks for code that almost implements a swap operation.\n",
            doc_why: "This is most likely a mistake as the second assignment serves no purpose.\n",
            doc_issues: "",
            doc_example: "The following code does not swap `a` and `b`.\n```lua\na = b\nb = a\n```\nUse this code instead.\n```lua\na, b = b, a\n```\n",
        },
        21 => Info {
            message: "numeric literal is approximatly pi",
            code: "approx-pi",
            level: Severity::Warn,
            category: Category::Correctness,
            doc_what: "Checks for floating point literals that approximate pi (π), which is already defined in `math`.\n",
            doc_why: "Usually the standard library definition is more precise.\n",
            doc_issues: "",
            doc_example: "```lua\nlocal radius = 42\nlocal area = 3.141 * radius ^ 2\n```\nUse this code instead.\n```lua\nlocal radius = 42\nlocal area = math.pi * radius ^ 2\n```\n",
        },
        22 => Info {
            message: "numeric literal rounds to infinity",
            code: "rounds-to-inf",
            level: Severity::Warn,
            category: Category::Correctness,
            doc_what: "Checks if the value of a numeric literal is so large that it would be rounded to infinity.\n",
            doc_why: "Using the standard library definition is more clear.\n",
            doc_issues: "",
            doc_example: "```lua\nlocal inf = 2e1000\n```\nUse this code instead.\n```lua\nlocal inf = math.huge\n```\n",
        },
        23 => Info {
            message: "integral part of numeric literal will be rounded",
            code: "rounds-int-part",
            level: Severity::Warn,
            category: Category::Correctness,
            doc_what: "Checks if the value of a numeric literal is too large for its integral part to be represented exactly as a 64 bit IEEE-754 float value.\n",
            doc_why: "This is very likely unintended behavior and may result in logic bugs.\n",
            doc_issues: "",
            doc_example: "```lua\nlocal a = 100000000000000000000000 -- the actual value is 99999999999999991611392.0\nlocal b = 100000000000000000000001 -- rounded to same value\nprint(a < b) -- false\n```\n",
        },
        24 => Info {
            message: "cannot exactly represent hexadecimal float in 64 bit",
            code: "inexact-hex-float",
            level: Severity::Warn,
            category: Category::Correctness,
            doc_what: "Checks if a hexadecimal float literal can be represented exactly as a 64 bit IEEE-754 float value.\n",
            doc_why: "This is very likely unintended behavior, as the main use case of hexadecimal float literals is to exactly specify values.\n",
            doc_issues: "",
            doc_example: "```lua\nlocal _ = 0x1.p9999\n```\n",
        },
        25 => Info {
            message: "zero prefixed integer can be confused as octal number",
            code: "octal-confusion",
            level: Severity::Warn,
            category: Category::Complexity,
            doc_what: "Checks if a decimal integer literal has a leading zero.\n",
            doc_why: "In C such literals are octal numbers, so some people may expect the same to be true in Lua. As there is no use for such a prefix, it can safely be removed to avoid confusion.\n",
            doc_issues: "",
            doc_example: "```lua\nlocal _ = 042\n```\n",
        },
        26 => Info {
            message: "overflow in integer literal",
            code: "hex-int-overflow",
            level: Severity::Warn,
            category: Category::Complexity,
            doc_what: "Checks if a hexadecimal integer literal is too large for a signed 64 bit integer value.\n",
            doc_why: "In Lua hexadecimal integer literals are truncated if they are too large.\n",
            doc_issues: "",
            doc_example: "```lua\nlocal _ = 0x10000000000000000 -- actual value is 0\n```\n",
        },
        27 => Info {
            message: "comparison with bool constant can be simplfied",
            code: "bool-compare",
            level: Severity::Warn,
            category: Category::Complexity,
            doc_what: "Checks if a boolean value is compared to a boolean literal.\n",
            doc_why: "It is usually clearer to just use the boolean value or its negation.\n",
            doc_issues: "",
            doc_example: "```lua\nlocal is_ok = true\nif is_ok == true then\n    -- do something\nend\n```\nUse this code instead.\n```lua\nlocal is_ok = true\nif is_ok then\n    -- do something\nend\n```\n",
        },
        28 => Info {
            message: "code contains invisible Unicode characters",
            code: "invisible-characters",
            level: Severity::Deny,
            category: Category::Suspicious,
            doc_what: "Checks for invisible Unicode characters in the code.\n",
            doc_why: "There is no valid use case for invisible Unicode characters in your code.\n",
            doc_issues: "",
            doc_example: "",
        },
        29 => Info {
            message: "unreachable code",
            code: "unreachable-code",
            level: Severity::Warn,
            category: Category::Suspicious,
            doc_what: "Checks for code that can never be reached during execution.\n",
            doc_why: "Unreachable code can be removed without changing the semantics of the code.\n",
            doc_issues: "",
            doc_example: "```lua\ngoto bar\nprint(\"foo\") -- unreachable code\n::bar::\nprint(\"bar\")\n```\n",
        },
        30 => Info {
            message: "arguments of called function start in next line",
            code: "next-line-args",
            level: Severity::Warn,
            category: Category::Suspicious,
            doc_what: "Checks if the argument list of a function calls start in the next line.\n",
            doc_why: "Lua requires no semicolons between statements, so some opening parentheses can unexpectedly be interpreted as the start of the argument list of a function call.\n",
            doc_issues: "",
            doc_example: "```lua\na = b + c\n(print or io.write)('done')\n```\n",
        },
        31 => Info {
            message: "Unicode code point is too large",
            code: "unicode-code-point-too-large",
            level: Severity::Warn,
            category: Category::Correctness,
            doc_what: "Checks for Unicode escape sequences with values larger than `0x10FFFF`.\n",
            doc_why: "Lua allows such invalid Unicode code points. As these are however not mapped to a valid Unicode scalar value they should usually be avoided.\n",
            doc_issues: "",
            doc_example: "```lua\nlocal _ = \"\\u{110000}\"\n```\n",
        },
        32 => Info {
            message: "Unicode code point is a surrogate",
            code: "unicode-code-point-is-surrogate",
            level: Severity::Warn,
            category: Category::Correctness,
            doc_what: "Checks for Unicode escape sequences with values between `0xD800` and `0xDFFF`.\n",
            doc_why: "Lua allows unpaired surrogates. As these are invalid Unicode scalar values they should usually be avoided.\n",
            doc_issues: "",
            doc_example: "```lua\nlocal _ = \"\\u{D800}\"\n```\n",
        },
        33 => Info {
            message: "string literal contains non-ASCII character",
            code: "non-ascii-literal",
            level: Severity::Allow,
            category: Category::Restriction,
            doc_what: "Checks for non-ASCII characters in string literals.\n",
            doc_why: "Some editors may not work well with certain Unicode symbols, so using escape sequences instead could be useful.\n",
            doc_issues: "",
            doc_example: "```lua\nlocal _ = \"€\"\n```\nUse this code instead.\n```lua\nlocal _ = \"\\u{20ac}\"\n```\n",
        },
        34 => Info {
            message: "cyclomatic complexity of function is too high",
            code: "cyclomatic-complexity",
            level: Severity::Warn,
            category: Category::Restriction,
            doc_what: "Checks if the cyclomatic complexity of a function exceeds the threshold configured in `cyclomatic_complexity_threshold`.\n",
            doc_why: "Functions with high cyclomatic complexity can be hard to understand and may be candidates for a refactoring.\n",
            doc_issues: "Due to missing switch statements Lua code sometimes requires long `if`-`elseif` chains. Such chains can be easy to understand, if the structure is very regular, but they would still result in a high cyclomatic complexity.\n",
            doc_example: "```lua\nfunction foo()\n    if x1 == 0 then\n        -- do something\n    end\n    if x2 == 0 then\n        -- do something\n    end\n    -- ...\n    if x100 == 0 then\n        -- do something\n    end\nend\n```\n",
        },
        35 => Info {
            message: "expression contains redundant parentheses",
            code: "redundant-parentheses",
            level: Severity::Warn,
            category: Category::Complexity,
            doc_what: "Checks for parentheses inside of parentheses.\n",
            doc_why: "Double parentheses indicate that there might be a mistake. They can be removed without changing the semantics of the code.\n",
            doc_issues: "",
            doc_example: "```lua\nlocal _ = ((20 + 1)) * 2\n```\n",
        },
        36 => Info {
            message: "",
            code: "line-too-long",
            level: Severity::Warn,
            category: Category::Restriction,
            doc_what: "Checks if the number of columns in a line exceeds the threshold configured in `line_length_threshold `.\n",
            doc_why: "Lines that are to long are hard to understand.\n",
            doc_issues: "",
            doc_example: "",
        },
        37 => Info {
            message: "indentation contains tabs after spaces",
            code: "inconsistent-indentation",
            level: Severity::Warn,
            category: Category::Restriction,
            doc_what: "Checks for tabs after spaces.\n",
            doc_why: "Using tabs after spaces is not useful.\n",
            doc_issues: "",
            doc_example: "",
        },
        _ => Info {
            message: "",
            code: "",
            level: Severity::Allow,
            category: Category::Restriction,
            doc_what: "",
            doc_why: "",
            doc_issues: "",
            doc_example: "",
        },
    }
}

/// Reports lint `empty-statement`.
pub struct EmptyStatement<'a, 'b>(pub &'b DiagnosticContext<'a>);

impl<'a, 'b> Lint<'a, 'b> for EmptyStatement<'a, 'b> {
    open spec fn spec_index() -> usize {
        EMPTY_STATEMENT
    }

    open spec fn spec_ctx(&self) -> &'b DiagnosticContext<'a> {
        self.0
    }

    fn info_index() -> (r: usize) {
        EMPTY_STATEMENT
    }

    fn new(ctx: &'b DiagnosticContext<'a>) -> (r: Self) {
        EmptyStatement(ctx)
    }
}

/// Reports lint `unused-local`.
pub struct UnusedLocal<'a, 'b>(pub &'b DiagnosticContext<'a>);

impl<'a, 'b> Lint<'a, 'b> for UnusedLocal<'a, 'b> {
    open spec fn spec_index() -> usize {
        UNUSED_LOCAL
    }

    open spec fn spec_ctx(&self) -> &'b DiagnosticContext<'a> {
        self.0
    }

    fn info_index() -> (r: usize) {
        UNUSED_LOCAL
    }

    fn new(ctx: &'b DiagnosticContext<'a>) -> (r: Self) {
        UnusedLocal(ctx)
    }
}

/// Reports lint `trailing-whitespace`.
pub struct TrailingWhitespace<'a, 'b>(pub &'b DiagnosticContext<'a>);

impl<'a, 'b> Lint<'a, 'b> for TrailingWhitespace<'a, 'b> {
    open spec fn spec_index() -> usize {
        TRAILING_WHITESPACE
    }

    open spec fn spec_ctx(&self) -> &'b DiagnosticContext<'a> {
        self.0
    }

    fn info_index() -> (r: usize) {
        TRAILING_WHITESPACE
    }

    fn new(ctx: &'b DiagnosticContext<'a>) -> (r: Self) {
        TrailingWhitespace(ctx)
    }
}

/// Reports lint `only-whitespace`.
pub struct OnlyWhitespace<'a, 'b>(pub &'b DiagnosticContext<'a>);

impl<'a, 'b> Lint<'a, 'b> for OnlyWhitespace<'a, 'b> {
    open spec fn spec_index() -> usize {
        ONLY_WHITESPACE
    }

    open spec fn spec_ctx(&self) -> &'b DiagnosticContext<'a> {
        self.0
    }

    fn info_index() -> (r: usize) {
        ONLY_WHITESPACE
    }

    fn new(ctx: &'b DiagnosticContext<'a>) -> (r: Self) {
        OnlyWhitespace(ctx)
    }
}

/// Reports lint `lower-case-global`.
pub struct LowerCaseGlobal<'a, 'b>(pub &'b DiagnosticContext<'a>);

impl<'a, 'b> Lint<'a, 'b> for LowerCaseGlobal<'a, 'b> {
    open spec fn spec_index() -> usize {
        LOWER_CASE_GLOBAL
    }

    open spec fn spec_ctx(&self) -> &'b DiagnosticContext<'a> {
        self.0
    }

    fn info_index() -> (r: usize) {
        LOWER_CASE_GLOBAL
    }

    fn new(ctx: &'b DiagnosticContext<'a>) -> (r: Self) {
        LowerCaseGlobal(ctx)
    }
}

/// Reports lint `empty-block`.
pub struct EmptyBlock<'a, 'b>(pub &'b DiagnosticContext<'a>);

impl<'a, 'b> Lint<'a, 'b> for EmptyBlock<'a, 'b> {
    open spec fn spec_index() -> usize {
        EMPTY_BLOCK
    }

    open spec fn spec_ctx(&self) -> &'b DiagnosticContext<'a> {
        self.0
    }

    fn info_index() -> (r: usize) {
        EMPTY_BLOCK
    }

    fn new(ctx: &'b DiagnosticContext<'a>) -> (r: Self) {
        EmptyBlock(ctx)
    }
}

/// Reports lint `unnecessary-negation`.
pub struct UnnecessaryNegation<'a, 'b>(pub &'b DiagnosticContext<'a>);

impl<'a, 'b> Lint<'a, 'b> for UnnecessaryNegation<'a, 'b> {
    open spec fn spec_index() -> usize {
        UNNECESSARY_NEGATION
    }

    open spec fn spec_ctx(&self) -> &'b DiagnosticContext<'a> {
        self.0
    }

    fn info_index() -> (r: usize) {
        UNNECESSARY_NEGATION
    }

    fn new(ctx: &'b DiagnosticContext<'a>) -> (r: Self) {
        UnnecessaryNegation(ctx)
    }
}

/// Reports lint `error-prone-negation`.
pub struct ErrorProneNegation<'a, 'b>(pub &'b DiagnosticContext<'a>);

impl<'a, 'b> Lint<'a, 'b> for ErrorProneNegation<'a, 'b> {
    open spec fn spec_index() -> usize {
        ERROR_PRONE_NEGATION
    }

    open spec fn spec_ctx(&self) -> &'b DiagnosticContext<'a> {
        self.0
    }

    fn info_index() -> (r: usize) {
        ERROR_PRONE_NEGATION
    }

    fn new(ctx: &'b DiagnosticContext<'a>) -> (r: Self) {
        ErrorProneNegation(ctx)
    }
}

/// Reports lint `unused-label`.
pub struct UnusedLabel<'a, 'b>(pub &'b DiagnosticContext<'a>);

impl<'a, 'b> Lint<'a, 'b> for UnusedLabel<'a, 'b> {
    open spec fn spec_index() -> usize {
        UNUSED_LABEL
    }

    open spec fn spec_ctx(&self) -> &'b DiagnosticContext<'a> {
        self.0
    }

    fn info_index() -> (r: usize) {
        UNUSED_LABEL
    }

    fn new(ctx: &'b DiagnosticContext<'a>) -> (r: Self) {
        UnusedLabel(ctx)
    }
}

/// Reports lint `used-despite-unused-hint`.
pub struct UsedDespiteUnusedHint<'a, 'b>(pub &'b DiagnosticContext<'a>);

impl<'a, 'b> Lint<'a, 'b> for UsedDespiteUnusedHint<'a, 'b> {
    open spec fn spec_index() -> usize {
        USED_DESPITE_UNUSED_HINT
    }

    open spec fn spec_ctx(&self) -> &'b DiagnosticContext<'a> {
        self.0
    }

    fn info_index() -> (r: usize) {
        USED_DESPITE_UNUSED_HINT
    }

    fn new(ctx: &'b DiagnosticContext<'a>) -> (r: Self) {
        UsedDespiteUnusedHint(ctx)
    }
}

/// Reports lint `unused-parameter`.
pub struct UnusedParameter<'a, 'b>(pub &'b DiagnosticContext<'a>);

impl<'a, 'b> Lint<'a, 'b> for UnusedParameter<'a, 'b> {
    open spec fn spec_index() -> usize {
        UNUSED_PARAMETER
    }

    open spec fn spec_ctx(&self) -> &'b DiagnosticContext<'a> {
        self.0
    }

    fn info_index() -> (r: usize) {
        UNUSED_PARAMETER
    }

    fn new(ctx: &'b DiagnosticContext<'a>) -> (r: Self) {
        UnusedParameter(ctx)
    }
}

/// Reports lint `unused-loopvar`.
pub struct UnusedLoopvar<'a, 'b>(pub &'b DiagnosticContext<'a>);

impl<'a, 'b> Lint<'a, 'b> for UnusedLoopvar<'a, 'b> {
    open spec fn spec_index() -> usize {
        UNUSED_LOOPVAR
    }

    open spec fn spec_ctx(&self) -> &'b DiagnosticContext<'a> {
        self.0
    }

    fn info_index() -> (r: usize) {
        UNUSED_LOOPVAR
    }

    fn new(ctx: &'b DiagnosticContext<'a>) -> (r: Self) {
        UnusedLoopvar(ctx)
    }
}

/// Reports lint `redefined-local`.
pub struct RedefinedLocal<'a, 'b>(pub &'b DiagnosticContext<'a>);

impl<'a, 'b> Lint<'a, 'b> for RedefinedLocal<'a, 'b> {
    open spec fn spec_index() -> usize {
        REDEFINED_LOCAL
    }

    open spec fn spec_ctx(&self) -> &'b DiagnosticContext<'a> {
        self.0
    }

    fn info_index() -> (r: usize) {
        REDEFINED_LOCAL
    }

    fn new(ctx: &'b DiagnosticContext<'a>) -> (r: Self) {
        RedefinedLocal(ctx)
    }
}

/// Reports lint `redundant-local`.
pub struct RedundantLocal<'a, 'b>(pub &'b DiagnosticContext<'a>);

impl<'a, 'b> Lint<'a, 'b> for RedundantLocal<'a, 'b> {
    open spec fn spec_index() -> usize {
        REDUNDANT_LOCAL
    }

    open spec fn spec_ctx(&self) -> &'b DiagnosticContext<'a> {
        self.0
    }

    fn info_index() -> (r: usize) {
        REDUNDANT_LOCAL
    }

    fn new(ctx: &'b DiagnosticContext<'a>) -> (r: Self) {
        RedundantLocal(ctx)
    }
}

/// Reports lint `shadowing-local`.
pub struct ShadowingLocal<'a, 'b>(pub &'b DiagnosticContext<'a>);

impl<'a, 'b> Lint<'a, 'b> for ShadowingLocal<'a, 'b> {
    open spec fn spec_index() -> usize {
        SHADOWING_LOCAL
    }

    open spec fn spec_ctx(&self) -> &'b DiagnosticContext<'a> {
        self.0
    }

    fn info_index() -> (r: usize) {
        SHADOWING_LOCAL
    }

    fn new(ctx: &'b DiagnosticContext<'a>) -> (r: Self) {
        ShadowingLocal(ctx)
    }
}

/// Reports lint `unused-vararg`.
pub struct UnusedVararg<'a, 'b>(pub &'b DiagnosticContext<'a>);

impl<'a, 'b> Lint<'a, 'b> for UnusedVararg<'a, 'b> {
    open spec fn spec_index() -> usize {
        UNUSED_VARARG
    }

    open spec fn spec_ctx(&self) -> &'b DiagnosticContext<'a> {
        self.0
    }

    fn info_index() -> (r: usize) {
        UNUSED_VARARG
    }

    fn new(ctx: &'b DiagnosticContext<'a>) -> (r: Self) {
        UnusedVararg(ctx)
    }
}

/// Reports lint `unbalanced-assignment`.
pub struct UnbalancedAssignment<'a, 'b>(pub &'b DiagnosticContext<'a>);

impl<'a, 'b> Lint<'a, 'b> for UnbalancedAssignment<'a, 'b> {
    open spec fn spec_index() -> usize {
        UNBALANCED_ASSIGNMENT
    }

    open spec fn spec_ctx(&self) -> &'b DiagnosticContext<'a> {
        self.0
    }

    fn info_index() -> (r: usize) {
        UNBALANCED_ASSIGNMENT
    }

    fn new(ctx: &'b DiagnosticContext<'a>) -> (r: Self) {
        UnbalancedAssignment(ctx)
    }
}

/// Reports lint `unbalanced-initialization`.
pub struct UnbalancedInitialization<'a, 'b>(pub &'b DiagnosticContext<'a>);

impl<'a, 'b> Lint<'a, 'b> for UnbalancedInitialization<'a, 'b> {
    open spec fn spec_index() -> usize {
        UNBALANCED_INITIALIZATION
    }

    open spec fn spec_ctx(&self) -> &'b DiagnosticContext<'a> {
        self.0
    }

    fn info_index() -> (r: usize) {
        UNBALANCED_INITIALIZATION
    }

    fn new(ctx: &'b DiagnosticContext<'a>) -> (r: Self) {
        UnbalancedInitialization(ctx)
    }
}

/// Reports lint `too-many-parameters`.
pub struct TooManyParameters<'a, 'b>(pub &'b DiagnosticContext<'a>);

impl<'a, 'b> Lint<'a, 'b> for TooManyParameters<'a, 'b> {
    open spec fn spec_index() -> usize {
        TOO_MANY_PARAMETERS
    }

    open spec fn spec_ctx(&self) -> &'b DiagnosticContext<'a> {
        self.0
    }

    fn info_index() -> (r: usize) {
        TOO_MANY_PARAMETERS
    }

    fn new(ctx: &'b DiagnosticContext<'a>) -> (r: Self) {
        TooManyParameters(ctx)
    }
}

/// Reports lint `too-many-lines`.
pub struct TooManyLines<'a, 'b>(pub &'b DiagnosticContext<'a>);

impl<'a, 'b> Lint<'a, 'b> for TooManyLines<'a, 'b> {
    open spec fn spec_index() -> usize {
        TOO_MANY_LINES
    }

    open spec fn spec_ctx(&self) -> &'b DiagnosticContext<'a> {
        self.0
    }

    fn info_index() -> (r: usize) {
        TOO_MANY_LINES
    }

    fn new(ctx: &'b DiagnosticContext<'a>) -> (r: Self) {
        TooManyLines(ctx)
    }
}

/// Reports lint `almost-swap`.
pub struct AlmostSwap<'a, 'b>(pub &'b DiagnosticContext<'a>);

impl<'a, 'b> Lint<'a, 'b> for AlmostSwap<'a, 'b> {
    open spec fn spec_index() -> usize {
        ALMOST_SWAP
    }

    open spec fn spec_ctx(&self) -> &'b DiagnosticContext<'a> {
        self.0
    }

    fn info_index() -> (r: usize) {
        ALMOST_SWAP
    }

    fn new(ctx: &'b DiagnosticContext<'a>) -> (r: Self) {
        AlmostSwap(ctx)
    }
}

/// Reports lint `approx-pi`.
pub struct ApproxPi<'a, 'b>(pub &'b DiagnosticContext<'a>);

impl<'a, 'b> Lint<'a, 'b> for ApproxPi<'a, 'b> {
    open spec fn spec_index() -> usize {
        APPROX_PI
    }

    open spec fn spec_ctx(&self) -> &'b DiagnosticContext<'a> {
        self.0
    }

    fn info_index() -> (r: usize) {
        APPROX_PI
    }

    fn new(ctx: &'b DiagnosticContext<'a>) -> (r: Self) {
        ApproxPi(ctx)
    }
}

/// Reports lint `rounds-to-inf`.
pub struct RoundsToInf<'a, 'b>(pub &'b DiagnosticContext<'a>);

impl<'a, 'b> Lint<'a, 'b> for RoundsToInf<'a, 'b> {
    open spec fn spec_index() -> usize {
        ROUNDS_TO_INF
    }

    open spec fn spec_ctx(&self) -> &'b DiagnosticContext<'a> {
        self.0
    }

    fn info_index() -> (r: usize) {
        ROUNDS_TO_INF
    }

    fn new(ctx: &'b DiagnosticContext<'a>) -> (r: Self) {
        RoundsToInf(ctx)
    }
}

/// Reports lint `rounds-int-part`.
pub struct RoundsIntPart<'a, 'b>(pub &'b DiagnosticContext<'a>);

impl<'a, 'b> Lint<'a, 'b> for RoundsIntPart<'a, 'b> {
    open spec fn spec_index() -> usize {
        ROUNDS_INT_PART
    }

    open spec fn spec_ctx(&self) -> &'b DiagnosticContext<'a> {
        self.0
    }

    fn info_index() -> (r: usize) {
        ROUNDS_INT_PART
    }

    fn new(ctx: &'b DiagnosticContext<'a>) -> (r: Self) {
        RoundsIntPart(ctx)
    }
}

/// Reports lint `inexact-hex-float`.
pub struct InexactHexFloat<'a, 'b>(pub &'b DiagnosticContext<'a>);

impl<'a, 'b> Lint<'a, 'b> for InexactHexFloat<'a, 'b> {
    open spec fn spec_index() -> usize {
        INEXACT_HEX_FLOAT
    }

    open spec fn spec_ctx(&self) -> &'b DiagnosticContext<'a> {
        self.0
    }

    fn info_index() -> (r: usize) {
        INEXACT_HEX_FLOAT
    }

    fn new(ctx: &'b DiagnosticContext<'a>) -> (r: Self) {
        InexactHexFloat(ctx)
    }
}

/// Reports lint `octal-confusion`.
pub struct OctalConfusion<'a, 'b>(pub &'b DiagnosticContext<'a>);

impl<'a, 'b> Lint<'a, 'b> for OctalConfusion<'a, 'b> {
    open spec fn spec_index() -> usize {
        OCTAL_CONFUSION
    }

    open spec fn spec_ctx(&self) -> &'b DiagnosticContext<'a> {
        self.0
    }

    fn info_index() -> (r: usize) {
        OCTAL_CONFUSION
    }

    fn new(ctx: &'b DiagnosticContext<'a>) -> (r: Self) {
        OctalConfusion(ctx)
    }
}

/// Reports lint `hex-int-overflow`.
pub struct HexIntOverflow<'a, 'b>(pub &'b DiagnosticContext<'a>);

impl<'a, 'b> Lint<'a, 'b> for HexIntOverflow<'a, 'b> {
    open spec fn spec_index() -> usize {
        HEX_INT_OVERFLOW
    }

    open spec fn spec_ctx(&self) -> &'b DiagnosticContext<'a> {
        self.0
    }

    fn info_index() -> (r: usize) {
        HEX_INT_OVERFLOW
    }

    fn new(ctx: &'b DiagnosticContext<'a>) -> (r: Self) {
        HexIntOverflow(ctx)
    }
}

/// Reports lint `bool-compare`.
pub struct BoolCompare<'a, 'b>(pub &'b DiagnosticContext<'a>);

impl<'a, 'b> Lint<'a, 'b> for BoolCompare<'a, 'b> {
    open spec fn spec_index() -> usize {
        BOOL_COMPARE
    }

    open spec fn spec_ctx(&self) -> &'b DiagnosticContext<'a> {
        self.0
    }

    fn info_index() -> (r: usize) {
        BOOL_COMPARE
    }

    fn new(ctx: &'b DiagnosticContext<'a>) -> (r: Self) {
        BoolCompare(ctx)
    }
}

/// Reports lint `invisible-characters`.
pub struct InvisibleCharacters<'a, 'b>(pub &'b DiagnosticContext<'a>);

impl<'a, 'b> Lint<'a, 'b> for InvisibleCharacters<'a, 'b> {
    open spec fn spec_index() -> usize {
        INVISIBLE_CHARACTERS
    }

    open spec fn spec_ctx(&self) -> &'b DiagnosticContext<'a> {
        self.0
    }

    fn info_index() -> (r: usize) {
        INVISIBLE_CHARACTERS
    }

    fn new(ctx: &'b DiagnosticContext<'a>) -> (r: Self) {
        InvisibleCharacters(ctx)
    }
}

/// Reports lint `unreachable-code`.
pub struct UnreachableCode<'a, 'b>(pub &'b DiagnosticContext<'a>);

impl<'a, 'b> Lint<'a, 'b> for UnreachableCode<'a, 'b> {
    open spec fn spec_index() -> usize {
        UNREACHABLE_CODE
    }

    open spec fn spec_ctx(&self) -> &'b DiagnosticContext<'a> {
        self.0
    }

    fn info_index() -> (r: usize) {
        UNREACHABLE_CODE
    }

    fn new(ctx: &'b DiagnosticContext<'a>) -> (r: Self) {
        UnreachableCode(ctx)
    }
}

/// Reports lint `next-line-args`.
pub struct NextLineArgs<'a, 'b>(pub &'b DiagnosticContext<'a>);

impl<'a, 'b> Lint<'a, 'b> for NextLineArgs<'a, 'b> {
    open spec fn spec_index() -> usize {
        NEXT_LINE_ARGS
    }

    open spec fn spec_ctx(&self) -> &'b DiagnosticContext<'a> {
        self.0
    }

    fn info_index() -> (r: usize) {
        NEXT_LINE_ARGS
    }

    fn new(ctx: &'b DiagnosticContext<'a>) -> (r: Self) {
        NextLineArgs(ctx)
    }
}

/// Reports lint `unicode-code-point-too-large`.
pub struct UnicodeCodePointTooLarge<'a, 'b>(pub &'b DiagnosticContext<'a>);

impl<'a, 'b> Lint<'a, 'b> for UnicodeCodePointTooLarge<'a, 'b> {
    open spec fn spec_index() -> usize {
        UNICODE_CODE_POINT_TOO_LARGE
    }

    open spec fn spec_ctx(&self) -> &'b DiagnosticContext<'a> {
        self.0
    }

    fn info_index() -> (r: usize) {
        UNICODE_CODE_POINT_TOO_LARGE
    }

    fn new(ctx: &'b DiagnosticContext<'a>) -> (r: Self) {
        UnicodeCodePointTooLarge(ctx)
    }
}

/// Reports lint `unicode-code-point-is-surrogate`.
pub struct UnicodeCodePointIsSurrogate<'a, 'b>(pub &'b DiagnosticContext<'a>);

impl<'a, 'b> Lint<'a, 'b> for UnicodeCodePointIsSurrogate<'a, 'b> {
    open spec fn spec_index() -> usize {
        UNICODE_CODE_POINT_IS_SURROGATE
    }

    open spec fn spec_ctx(&self) -> &'b DiagnosticContext<'a> {
        self.0
    }

    fn info_index() -> (r: usize) {
        UNICODE_CODE_POINT_IS_SURROGATE
    }

    fn new(ctx: &'b DiagnosticContext<'a>) -> (r: Self) {
        UnicodeCodePointIsSurrogate(ctx)
    }
}

/// Reports lint `non-ascii-literal`.
pub struct NonAsciiLiteral<'a, 'b>(pub &'b DiagnosticContext<'a>);

impl<'a, 'b> Lint<'a, 'b> for NonAsciiLiteral<'a, 'b> {
    open spec fn spec_index() -> usize {
        NON_ASCII_LITERAL
    }

    open spec fn spec_ctx(&self) -> &'b DiagnosticContext<'a> {
        self.0
    }

    fn info_index() -> (r: usize) {
        NON_ASCII_LITERAL
    }

    fn new(ctx: &'b DiagnosticContext<'a>) -> (r: Self) {
        NonAsciiLiteral(ctx)
    }
}

/// Reports lint `cyclomatic-complexity`.
pub struct CyclomaticComplexity<'a, 'b>(pub &'b DiagnosticContext<'a>);

impl<'a, 'b> Lint<'a, 'b> for CyclomaticComplexity<'a, 'b> {
    open spec fn spec_index() -> usize {
        CYCLOMATIC_COMPLEXITY
    }

    open spec fn spec_ctx(&self) -> &'b DiagnosticContext<'a> {
        self.0
    }

    fn info_index() -> (r: usize) {
        CYCLOMATIC_COMPLEXITY
    }

    fn new(ctx: &'b DiagnosticContext<'a>) -> (r: Self) {
        CyclomaticComplexity(ctx)
    }
}

/// Reports lint `redundant-parentheses`.
pub struct RedundantParentheses<'a, 'b>(pub &'b DiagnosticContext<'a>);

impl<'a, 'b> Lint<'a, 'b> for RedundantParentheses<'a, 'b> {
    open spec fn spec_index() -> usize {
        REDUNDANT_PARENTHESES
    }

    open spec fn spec_ctx(&self) -> &'b DiagnosticContext<'a> {
        self.0
    }

    fn info_index() -> (r: usize) {
        REDUNDANT_PARENTHESES
    }

    fn new(ctx: &'b DiagnosticContext<'a>) -> (r: Self) {
        RedundantParentheses(ctx)
    }
}

/// Reports lint `line-too-long`.
pub struct LineTooLong<'a, 'b>(pub &'b DiagnosticContext<'a>);

impl<'a, 'b> Lint<'a, 'b> for LineTooLong<'a, 'b> {
    open spec fn spec_index() -> usize {
        LINE_TOO_LONG
    }

    open spec fn spec_ctx(&self) -> &'b DiagnosticContext<'a> {
        self.0
    }

    fn info_index() -> (r: usize) {
        LINE_TOO_LONG
    }

    fn new(ctx: &'b DiagnosticContext<'a>) -> (r: Self) {
        LineTooLong(ctx)
    }
}

/// Reports lint `inconsistent-indentation`.
pub struct InconsistentIndentation<'a, 'b>(pub &'b DiagnosticContext<'a>);

impl<'a, 'b> Lint<'a, 'b> for InconsistentIndentation<'a, 'b> {
    open spec fn spec_index() -> usize {
        INCONSISTENT_INDENTATION
    }

    open spec fn spec_ctx(&self) -> &'b DiagnosticContext<'a> {
        self.0
    }

    fn info_index() -> (r: usize) {
        INCONSISTENT_INDENTATION
    }

    fn new(ctx: &'b DiagnosticContext<'a>) -> (r: Self) {
        InconsistentIndentation(ctx)
    }
}

pub(crate) fn new_anns() -> (r: Vec<Annotation>)
    ensures
        anns_view(r@) == Seq::<AnnotationView>::empty(),
{
    let r: Vec<Annotation> = Vec::new();
    assert(anns_view(r@) =~= Seq::<AnnotationView>::empty());
    r
}

pub(crate) fn new_patches() -> (r: Vec<Patch>)
    ensures
        patches_view(r@) == Seq::<PatchView>::empty(),
{
    let r: Vec<Patch> = Vec::new();
    assert(patches_view(r@) =~= Seq::<PatchView>::empty());
    r
}

pub(crate) fn new_groups() -> (r: Vec<Group>)
    ensures
        groups_view(r@) == Seq::<GroupView>::empty(),
{
    let r: Vec<Group> = Vec::new();
    assert(groups_view(r@) =~= Seq::<GroupView>::empty());
    r
}

pub(crate) fn push_ann(v: &mut Vec<Annotation>, a: Annotation)
    ensures
        anns_view(final(v)@) == anns_view(old(v)@).push(a@),
{
    v.push(a);
    assert(anns_view(v@) =~= anns_view(old(v)@).push(a@));
}

pub(crate) fn push_patch(v: &mut Vec<Patch>, p: Patch)
    ensures
        patches_view(final(v)@) == patches_view(old(v)@).push(p@),
{
    v.push(p);
    assert(patches_view(v@) =~= patches_view(old(v)@).push(p@));
}

pub(crate) fn push_group(v: &mut Vec<Group>, g: Group)
    ensures
        groups_view(final(v)@) == groups_view(old(v)@).push(g@),
{
    v.push(g);
    assert(groups_view(v@) =~= groups_view(old(v)@).push(g@));
}

/// Annotations of kind `kind` without label on each span of `spans`.
pub open spec fn spans_annotations(spans: Seq<Span>, kind: AnnotationKind) -> Seq<AnnotationView> {
    spans.map_values(|s: Span| ann(kind, s, None))
}

/// `word`, in the plural when the span covers more than one byte.
pub open spec fn counted_word(s: Span, word: Seq<char>) -> Seq<char> {
    if s.start <= s.end && s.end - s.start > 1 {
        word + "s"@
    } else {
        word
    }
}

/// Annotations of kind `kind` on each span of `spans`, labelled with `word`, in the plural
/// for spans that cover more than one byte.
pub open spec fn counted_spans_annotations(
    spans: Seq<Span>,
    kind: AnnotationKind,
    word: Seq<char>,
) -> Seq<AnnotationView> {
    spans.map_values(|s: Span| ann(kind, s, Some(counted_word(s, word))))
}

/// Annotations of kind `kind` on each span of `spans`, labelled with `label`.
pub open spec fn labeled_spans_annotations(
    spans: Seq<Span>,
    kind: AnnotationKind,
    label: Seq<char>,
) -> Seq<AnnotationView> {
    spans.map_values(|s: Span| ann(kind, s, Some(label)))
}

pub(crate) fn push_spans(v: &mut Vec<Annotation>, spans: &Vec<Span>, kind: AnnotationKind)
    ensures
        anns_view(final(v)@) == anns_view(old(v)@) + spans_annotations(spans@, kind),
{
    let mut i: usize = 0;
    while i < spans.len()
        invariant
            i <= spans@.len(),
            anns_view(v@) == anns_view(old(v)@) + spans_annotations(spans@.take(i as int), kind),
        decreases spans@.len() - i,
    {
        push_ann(v, Annotation { kind, span: spans[i], label: None });
        assert(spans_annotations(spans@.take(i + 1), kind) =~= spans_annotations(
            spans@.take(i as int),
            kind,
        ).push(ann(kind, spans@[i as int], None)));
        i = i + 1;
    }
    assert(spans@.take(i as int) =~= spans@);
}

pub(crate) fn push_counted_spans(v: &mut Vec<Annotation>, spans: &Vec<Span>, kind: AnnotationKind, word: &str)
    ensures
        anns_view(final(v)@) == anns_view(old(v)@) + counted_spans_annotations(spans@, kind, word@),
{
    let mut i: usize = 0;
    while i < spans.len()
        invariant
            i <= spans@.len(),
            anns_view(v@) == anns_view(old(v)@) + counted_spans_annotations(
                spans@.take(i as int),
                kind,
                word@,
            ),
        decreases spans@.len() - i,
    {
        let s = spans[i];
        let mut label = word.to_owned();
        if s.len() > 1 {
            label.append("s");
        }
        push_ann(v, Annotation { kind, span: s, label: Some(label) });
        assert(counted_spans_annotations(spans@.take(i + 1), kind, word@) =~= counted_spans_annotations(
            spans@.take(i as int),
            kind,
            word@,
        ).push(ann(kind, s, Some(counted_word(s, word@)))));
        i = i + 1;
    }
    assert(spans@.take(i as int) =~= spans@);
}

pub(crate) fn push_labeled_spans(v: &mut Vec<Annotation>, spans: &Vec<Span>, kind: AnnotationKind, label: &str)
    ensures
        anns_view(final(v)@) == anns_view(old(v)@) + labeled_spans_annotations(spans@, kind, label@),
{
    let mut i: usize = 0;
    while i < spans.len()
        invariant
            i <= spans@.len(),
            anns_view(v@) == anns_view(old(v)@) + labeled_spans_annotations(
                spans@.take(i as int),
                kind,
                label@,
            ),
        decreases spans@.len() - i,
    {
        push_ann(v, Annotation { kind, span: spans[i], label: Some(label.to_owned()) });
        assert(labeled_spans_annotations(spans@.take(i + 1), kind, label@) =~= labeled_spans_annotations(
            spans@.take(i as int),
            kind,
            label@,
        ).push(ann(kind, spans@[i as int], Some(label@))));
        i = i + 1;
    }
    assert(spans@.take(i as int) =~= spans@);
}

/// The relational operator that negates `tok`.
pub open spec fn inverse_operator_text(tok: Token) -> Seq<char> {
    match tok {
        Token::Less => ">="@,
        Token::Greater => "<="@,
        Token::LessEqual => ">"@,
        Token::GreaterEqual => "<"@,
        Token::TildeEqual => "=="@,
        _ => "~="@,
    }
}

fn inverse_operator(tok: Token) -> (r: &'static str)
    ensures
        r@ == inverse_operator_text(tok),
{
    match tok {
        Token::Less => ">=",
        Token::Greater => "<=",
        Token::LessEqual => ">",
        Token::GreaterEqual => "<",
        Token::TildeEqual => "==",
        _ => "~=",
    }
}

/// The statement `first, second = second, first`.
pub open spec fn swap_replacement(first: Seq<u8>, second: Seq<u8>) -> Seq<char> {
    utf8_lossy(first) + ", "@ + utf8_lossy(second) + " = "@ + utf8_lossy(second) + ", "@
        + utf8_lossy(first)
}

fn swap_text(first: &[u8], second: &[u8]) -> (r: String)
    ensures
        r@ == swap_replacement(first@, second@),
{
    let f = lossy_text(first);
    let s = lossy_text(second);
    let mut t = f.clone();
    t.append(", ");
    t.append(s.as_str());
    t.append(" = ");
    t.append(s.as_str());
    t.append(", ");
    t.append(f.as_str());
    t
}

/// The text of `bytes` decoded as UTF-8, with invalid sequences replaced.
pub uninterp spec fn utf8_lossy(bytes: Seq<u8>) -> Seq<char>;

/// `String::from_utf8_lossy`: decodes valid UTF-8 exactly, as its documentation states;
/// what replaces invalid sequences is left unstated.
#[verifier::external_body]
pub(crate) fn lossy_text(bytes: &[u8]) -> (r: String)
    ensures
        r@ == utf8_lossy(bytes@),
        vstd::utf8::valid_utf8(bytes@) ==> r@ == vstd::utf8::decode_utf8(bytes@),
{
    String::from_utf8_lossy(bytes).into_owned()
}

/// The `Debug` text of a character: quoted and escaped.
pub uninterp spec fn char_debug(c: char) -> Seq<char>;

/// Formats `c` with `{:?}`.
#[verifier::external_body]
fn char_debug_text(c: char) -> (r: String)
    ensures
        r@ == char_debug(c),
{
    format!("{:?}", c)
}

/// `found n word`, with `word` in the plural when `n > 1`.
pub open spec fn found_text(n: nat, word: Seq<char>) -> Seq<char> {
    "found "@ + decimal(n) + " "@ + word + (if n > 1 {
        "s"@
    } else {
        ""@
    })
}

fn found_string(n: usize, word: &str) -> (r: String)
    ensures
        r@ == found_text(n as nat, word@),
{
    let mut t = "found ".to_owned();
    t.append(decimal_string(n as u64).as_str());
    t.append(" ");
    t.append(word);
    t.append(if n > 1 {
        "s"
    } else {
        ""
    });
    t
}

/// The note of an unbalanced assignment or initialization.
pub open spec fn unbalanced_note(lhs_count: nat, rhs_count: nat, lhs_word: Seq<char>) -> Seq<char> {
    if lhs_count > rhs_count {
        "extra left-hand side "@ + lhs_word + (if lhs_count - rhs_count > 1 {
            "s"@
        } else {
            ""@
        }) + " will be assigned `nil`"@
    } else {
        "extra right-hand side value"@ + (if rhs_count - lhs_count > 1 {
            "s"@
        } else {
            ""@
        }) + " will be redundant"@
    }
}

fn unbalanced_note_string(lhs_count: usize, rhs_count: usize, lhs_word: &str) -> (r: String)
    ensures
        r@ == unbalanced_note(lhs_count as nat, rhs_count as nat, lhs_word@),
{
    if lhs_count > rhs_count {
        let mut t = "extra left-hand side ".to_owned();
        t.append(lhs_word);
        t.append(if lhs_count - rhs_count > 1 {
            "s"
        } else {
            ""
        });
        t.append(" will be assigned `nil`");
        t
    } else {
        let mut t = "extra right-hand side value".to_owned();
        t.append(if rhs_count - lhs_count > 1 {
            "s"
        } else {
            ""
        });
        t.append(" will be redundant");
        t
    }
}

/// The report of an unbalanced assignment points into a source of length `len` when the
/// spans it was given do.
pub proof fn lemma_unbalanced_within(
    ctx: &DiagnosticContext,
    lint: usize,
    lhs_spans: Seq<Span>,
    rhs_spans: Seq<Span>,
    equal_span: Span,
    lhs_item: Seq<char>,
    lhs_word: Seq<char>,
    len: int,
)
    requires
        lhs_spans.len() > 0,
        rhs_spans.len() > 0,
        forall|i: int| 0 <= i < lhs_spans.len() ==> span_within(#[trigger] lhs_spans[i], len),
        forall|i: int| 0 <= i < rhs_spans.len() ==> span_within(#[trigger] rhs_spans[i], len),
        span_within(equal_span, len),
    ensures
        diagnostic_within(unbalanced_diagnostic(ctx, lint, lhs_spans, rhs_spans, equal_span, lhs_item, lhs_word), len),
{
    let lhs_count = lhs_spans.len();
    let rhs_count = rhs_spans.len();
    assert(span_within(lhs_spans[0], len) && span_within(lhs_spans[lhs_count - 1], len));
    assert(span_within(rhs_spans[0], len) && span_within(rhs_spans[rhs_count - 1], len));
    let rest = if lhs_count > rhs_count { lhs_spans.skip(rhs_count as int) } else { rhs_spans.skip(lhs_count as int) };
    assert forall|i: int| 0 <= i < rest.len() implies span_within(#[trigger] rest[i], len) by {
        if lhs_count > rhs_count {
            assert(rest[i] == lhs_spans[i + rhs_count]);
        } else {
            assert(rest[i] == rhs_spans[i + lhs_count]);
        }
    }
    lemma_annotations_within(rest, AnnotationKind::Primary, Seq::empty(), len);
    let notes = seq![annotated(Level::Note, unbalanced_note(lhs_count, rhs_count, lhs_word), spans_annotations(rest, AnnotationKind::Primary))];
    assert(group_within(notes[0], len));
    let anns = seq![
        ann(AnnotationKind::Primary, equal_span, None),
        ann(AnnotationKind::Context, Span { start: lhs_spans[0].start, end: lhs_spans.last().end }, Some(found_text(lhs_count, lhs_item))),
        ann(AnnotationKind::Context, Span { start: rhs_spans[0].start, end: rhs_spans.last().end }, Some(found_text(rhs_count, "expression"@))),
    ];
    lemma_lint_diagnostic_within(ctx, lint, anns, notes, len);
}

/// The diagnostic of an unbalanced assignment (`lint` is `unbalanced-assignment`) or
/// initialization.
pub open spec fn unbalanced_diagnostic(
    ctx: &DiagnosticContext,
    lint: usize,
    lhs_spans: Seq<Span>,
    rhs_spans: Seq<Span>,
    equal_span: Span,
    lhs_item: Seq<char>,
    lhs_word: Seq<char>,
) -> DiagnosticView {
    let lhs_count = lhs_spans.len();
    let rhs_count = rhs_spans.len();
    lint_diagnostic(
        ctx,
        lint,
        seq![
            ann(AnnotationKind::Primary, equal_span, None),
            ann(
                AnnotationKind::Context,
                Span { start: lhs_spans[0].start, end: lhs_spans.last().end },
                Some(found_text(lhs_count, lhs_item)),
            ),
            ann(
                AnnotationKind::Context,
                Span { start: rhs_spans[0].start, end: rhs_spans.last().end },
                Some(found_text(rhs_count, "expression"@)),
            ),
        ],
        seq![
            annotated(
                Level::Note,
                unbalanced_note(lhs_count, rhs_count, lhs_word),
                if lhs_count > rhs_count {
                    spans_annotations(lhs_spans.skip(rhs_count as int), AnnotationKind::Primary)
                } else {
                    spans_annotations(rhs_spans.skip(lhs_count as int), AnnotationKind::Primary)
                },
            ),
        ],
    )
}

fn build_unbalanced(
    ctx: &DiagnosticContext,
    lint: usize,
    lhs_spans: &Vec<Span>,
    rhs_spans: &Vec<Span>,
    equal_span: Span,
    lhs_item: &str,
    lhs_word: &str,
) -> (r: Diagnostic)
    requires
        lint < LINT_COUNT,
        ctx.levels@.len() == LINT_COUNT,
        ctx.levels@[lint as int] != Severity::Allow,
        lhs_spans@.len() > 0,
        rhs_spans@.len() > 0,
    ensures
        r@ == unbalanced_diagnostic(
            ctx,
            lint,
            lhs_spans@,
            rhs_spans@,
            equal_span,
            lhs_item@,
            lhs_word@,
        ),
{
    let lhs_count = lhs_spans.len();
    let rhs_count = rhs_spans.len();
    let lhs_span = Span { start: lhs_spans[0].start, end: lhs_spans[lhs_count - 1].end };
    let rhs_span = Span { start: rhs_spans[0].start, end: rhs_spans[rhs_count - 1].end };
    let mut a0: Vec<Annotation> = new_anns();
    push_ann(&mut a0, Annotation { kind: AnnotationKind::Primary, span: equal_span, label: None });
    push_ann(
        &mut a0,
        Annotation {
            kind: AnnotationKind::Context,
            span: lhs_span,
            label: Some(found_string(lhs_count, lhs_item)),
        },
    );
    push_ann(
        &mut a0,
        Annotation {
            kind: AnnotationKind::Context,
            span: rhs_span,
            label: Some(found_string(rhs_count, "expression")),
        },
    );
    assert(anns_view(a0@) =~= seq![
        ann(AnnotationKind::Primary, equal_span, None),
        ann(AnnotationKind::Context, lhs_span, Some(found_text(lhs_count as nat, lhs_item@))),
        ann(AnnotationKind::Context, rhs_span, Some(found_text(rhs_count as nat, "expression"@))),
    ]);
    let g0 = ctx.main_group(lint, Some(Element::Annotations(a0)));
    let mut extra: Vec<Span> = Vec::new();
    let (spans, skip) = if lhs_count > rhs_count {
        (lhs_spans, rhs_count)
    } else {
        (rhs_spans, lhs_count)
    };
    let mut i = skip;
    while i < spans.len()
        invariant
            skip <= i <= spans@.len(),
            extra@ == spans@.subrange(skip as int, i as int),
        decreases spans@.len() - i,
    {
        extra.push(spans[i]);
        i = i + 1;
    }
    assert(extra@ =~= spans@.skip(skip as int));
    let mut a1: Vec<Annotation> = new_anns();
    push_spans(&mut a1, &extra, AnnotationKind::Primary);
    assert(anns_view(a1@) =~= (if lhs_count > rhs_count {
        spans_annotations(lhs_spans@.skip(rhs_count as int), AnnotationKind::Primary)
    } else {
        spans_annotations(rhs_spans@.skip(lhs_count as int), AnnotationKind::Primary)
    }));
    let g1 = Group {
        level: Level::Note,
        title: unbalanced_note_string(lhs_count, rhs_count, lhs_word),
        lint: None,
        element: Some(Element::Annotations(a1)),
    };
    let ghost d = unbalanced_diagnostic(
        ctx,
        lint,
        lhs_spans@,
        rhs_spans@,
        equal_span,
        lhs_item@,
        lhs_word@,
    );
    assert(g0@ == d.groups[0]);
    assert(g1@ == d.groups[1]);
    let mut groups: Vec<Group> = new_groups();
    push_group(&mut groups, g0);
    push_group(&mut groups, g1);
    assert(groups_view(groups@) =~= unbalanced_diagnostic(
        ctx,
        lint,
        lhs_spans@,
        rhs_spans@,
        equal_span,
        lhs_item@,
        lhs_word@,
    ).groups);
    let r = Diagnostic { error: ctx.is_error(lint), groups };
    assert(r@ =~~= unbalanced_diagnostic(
        ctx,
        lint,
        lhs_spans@,
        rhs_spans@,
        equal_span,
        lhs_item@,
        lhs_word@,
    ));
    r
}

impl<'a, 'b> UnbalancedAssignment<'a, 'b> {
    pub fn build(&self, lhs_spans: &Vec<Span>, rhs_spans: &Vec<Span>, equal_span: Span) -> (r:
        Diagnostic)
        requires
            self.0.levels@.len() == LINT_COUNT,
            self.0.levels@[UNBALANCED_ASSIGNMENT as int] != Severity::Allow,
            lhs_spans@.len() > 0,
            rhs_spans@.len() > 0,
        ensures
            r@ == unbalanced_diagnostic(
                self.0,
                UNBALANCED_ASSIGNMENT,
                lhs_spans@,
                rhs_spans@,
                equal_span,
                "expression"@,
                "value"@,
            ),
    {
        build_unbalanced(self.0, UNBALANCED_ASSIGNMENT, lhs_spans, rhs_spans, equal_span, "expression", "value")
    }
}

impl<'a, 'b> UnbalancedInitialization<'a, 'b> {
    pub fn build(&self, lhs_spans: &Vec<Span>, rhs_spans: &Vec<Span>, equal_span: Span) -> (r:
        Diagnostic)
        requires
            self.0.levels@.len() == LINT_COUNT,
            self.0.levels@[UNBALANCED_INITIALIZATION as int] != Severity::Allow,
            lhs_spans@.len() > 0,
            rhs_spans@.len() > 0,
        ensures
            r@ == unbalanced_diagnostic(
                self.0,
                UNBALANCED_INITIALIZATION,
                lhs_spans@,
                rhs_spans@,
                equal_span,
                "name"@,
                "variable"@,
            ),
    {
        build_unbalanced(self.0, UNBALANCED_INITIALIZATION, lhs_spans, rhs_spans, equal_span, "name", "variable")
    }
}

impl<'a, 'b> TrailingWhitespace<'a, 'b> {
    pub fn build(&self, span: Span) -> (r: Diagnostic)
        requires
            self.0.levels@.len() == LINT_COUNT,
            self.0.levels@[TRAILING_WHITESPACE as int] != Severity::Allow,
        ensures
            r@ == (lint_diagnostic(self.0, TRAILING_WHITESPACE, seq![ann(AnnotationKind::Primary, span, None)], Seq::<GroupView>::empty())),
    {
        let mut groups: Vec<Group> = new_groups();
        let mut a0: Vec<Annotation> = new_anns();
        push_ann(&mut a0, Annotation { kind: AnnotationKind::Primary, span: span, label: None });
        assert(anns_view(a0@) =~= seq![ann(AnnotationKind::Primary, span, None)]);
        let g0 = self.0.main_group(TRAILING_WHITESPACE, Some(Element::Annotations(a0)));
        assert(g0@ == GroupView { level: severity_level(self.0.levels@[TRAILING_WHITESPACE as int]), title: lint_message(TRAILING_WHITESPACE)@, lint: Some(TRAILING_WHITESPACE), element: Some(ElementView::Annotations(seq![ann(AnnotationKind::Primary, span, None)])) });
        push_group(&mut groups, g0);
        assert(groups_view(groups@) =~= seq![GroupView { level: severity_level(self.0.levels@[TRAILING_WHITESPACE as int]), title: lint_message(TRAILING_WHITESPACE)@, lint: Some(TRAILING_WHITESPACE), element: Some(ElementView::Annotations(seq![ann(AnnotationKind::Primary, span, None)])) }] + (Seq::<GroupView>::empty()));
        assert(groups_view(groups@) =~= (lint_diagnostic(self.0, TRAILING_WHITESPACE, seq![ann(AnnotationKind::Primary, span, None)], Seq::<GroupView>::empty())).groups);
        let r = Diagnostic { error: self.0.is_error(TRAILING_WHITESPACE), groups };
        r
    }
}

impl<'a, 'b> OnlyWhitespace<'a, 'b> {
    pub fn build(&self, span: Span) -> (r: Diagnostic)
        requires
            self.0.levels@.len() == LINT_COUNT,
            self.0.levels@[ONLY_WHITESPACE as int] != Severity::Allow,
        ensures
            r@ == (lint_diagnostic(self.0, ONLY_WHITESPACE, seq![ann(AnnotationKind::Primary, span, None)], Seq::<GroupView>::empty())),
    {
        let mut groups: Vec<Group> = new_groups();
        let mut a0: Vec<Annotation> = new_anns();
        push_ann(&mut a0, Annotation { kind: AnnotationKind::Primary, span: span, label: None });
        assert(anns_view(a0@) =~= seq![ann(AnnotationKind::Primary, span, None)]);
        let g0 = self.0.main_group(ONLY_WHITESPACE, Some(Element::Annotations(a0)));
        assert(g0@ == GroupView { level: severity_level(self.0.levels@[ONLY_WHITESPACE as int]), title: lint_message(ONLY_WHITESPACE)@, lint: Some(ONLY_WHITESPACE), element: Some(ElementView::Annotations(seq![ann(AnnotationKind::Primary, span, None)])) });
        push_group(&mut groups, g0);
        assert(groups_view(groups@) =~= seq![GroupView { level: severity_level(self.0.levels@[ONLY_WHITESPACE as int]), title: lint_message(ONLY_WHITESPACE)@, lint: Some(ONLY_WHITESPACE), element: Some(ElementView::Annotations(seq![ann(AnnotationKind::Primary, span, None)])) }] + (Seq::<GroupView>::empty()));
        assert(groups_view(groups@) =~= (lint_diagnostic(self.0, ONLY_WHITESPACE, seq![ann(AnnotationKind::Primary, span, None)], Seq::<GroupView>::empty())).groups);
        let r = Diagnostic { error: self.0.is_error(ONLY_WHITESPACE), groups };
        r
    }
}

impl<'a, 'b> LowerCaseGlobal<'a, 'b> {
    pub fn build(&self, span: Span, sub_exp: bool, explict: bool) -> (r: Diagnostic)
        requires
            self.0.levels@.len() == LINT_COUNT,
            self.0.levels@[LOWER_CASE_GLOBAL as int] != Severity::Allow,
        ensures
            r@ == (lint_diagnostic(self.0, LOWER_CASE_GLOBAL, seq![ann(AnnotationKind::Primary, span, if !sub_exp { Some("did you miss a `local` or misspell it?"@) } else { None })], seq![note(Level::Help, "start name with upper-case letter"@)] + (if !explict { seq![note(Level::Help, "mark variable as global in yutu.toml"@)] } else { Seq::empty() }))),
    {
        let mut groups: Vec<Group> = new_groups();
        let mut a0: Vec<Annotation> = new_anns();
        push_ann(&mut a0, Annotation { kind: AnnotationKind::Primary, span: span, label: if !sub_exp { Some("did you miss a `local` or misspell it?".to_owned()) } else { None } });
        assert(anns_view(a0@) =~= seq![ann(AnnotationKind::Primary, span, if !sub_exp { Some("did you miss a `local` or misspell it?"@) } else { None })]);
        let g0 = self.0.main_group(LOWER_CASE_GLOBAL, Some(Element::Annotations(a0)));
        assert(g0@ == GroupView { level: severity_level(self.0.levels@[LOWER_CASE_GLOBAL as int]), title: lint_message(LOWER_CASE_GLOBAL)@, lint: Some(LOWER_CASE_GLOBAL), element: Some(ElementView::Annotations(seq![ann(AnnotationKind::Primary, span, if !sub_exp { Some("did you miss a `local` or misspell it?"@) } else { None })])) });
        push_group(&mut groups, g0);
        let g1 = Group { level: Level::Help, title: "start name with upper-case letter".to_owned(), lint: None, element: None };
        assert(g1@ == note(Level::Help, "start name with upper-case letter"@));
        push_group(&mut groups, g1);
        if !explict {
        let g2 = Group { level: Level::Help, title: "mark variable as global in yutu.toml".to_owned(), lint: None, element: None };
        assert(g2@ == note(Level::Help, "mark variable as global in yutu.toml"@));
            push_group(&mut groups, g2);
        }
        assert(groups_view(groups@) =~= seq![GroupView { level: severity_level(self.0.levels@[LOWER_CASE_GLOBAL as int]), title: lint_message(LOWER_CASE_GLOBAL)@, lint: Some(LOWER_CASE_GLOBAL), element: Some(ElementView::Annotations(seq![ann(AnnotationKind::Primary, span, if !sub_exp { Some("did you miss a `local` or misspell it?"@) } else { None })])) }] + (seq![note(Level::Help, "start name with upper-case letter"@)] + (if !explict { seq![note(Level::Help, "mark variable as global in yutu.toml"@)] } else { Seq::empty() })));
        assert(groups_view(groups@) =~= (lint_diagnostic(self.0, LOWER_CASE_GLOBAL, seq![ann(AnnotationKind::Primary, span, if !sub_exp { Some("did you miss a `local` or misspell it?"@) } else { None })], seq![note(Level::Help, "start name with upper-case letter"@)] + (if !explict { seq![note(Level::Help, "mark variable as global in yutu.toml"@)] } else { Seq::empty() }))).groups);
        let r = Diagnostic { error: self.0.is_error(LOWER_CASE_GLOBAL), groups };
        r
    }
}

impl<'a, 'b> EmptyBlock<'a, 'b> {
    pub fn build(&self, span: Span, block_span: Span) -> (r: Diagnostic)
        requires
            self.0.levels@.len() == LINT_COUNT,
            self.0.levels@[EMPTY_BLOCK as int] != Severity::Allow,
        ensures
            r@ == (lint_diagnostic(self.0, EMPTY_BLOCK, seq![ann(AnnotationKind::Primary, span, None)], seq![patches(Level::Help, "add a comment inside the block to suppress this warning"@, seq![patch(block_span, " --[[ TODO: explain why this block is empty ]] "@)])])),
    {
        let mut groups: Vec<Group> = new_groups();
        let mut a0: Vec<Annotation> = new_anns();
        push_ann(&mut a0, Annotation { kind: AnnotationKind::Primary, span: span, label: None });
        assert(anns_view(a0@) =~= seq![ann(AnnotationKind::Primary, span, None)]);
        let g0 = self.0.main_group(EMPTY_BLOCK, Some(Element::Annotations(a0)));
        assert(g0@ == GroupView { level: severity_level(self.0.levels@[EMPTY_BLOCK as int]), title: lint_message(EMPTY_BLOCK)@, lint: Some(EMPTY_BLOCK), element: Some(ElementView::Annotations(seq![ann(AnnotationKind::Primary, span, None)])) });
        push_group(&mut groups, g0);
        let mut p1: Vec<Patch> = new_patches();
        push_patch(&mut p1, Patch { span: block_span, replacement: " --[[ TODO: explain why this block is empty ]] ".to_owned() });
        assert(patches_view(p1@) =~= seq![patch(block_span, " --[[ TODO: explain why this block is empty ]] "@)]);
        let g1 = Group { level: Level::Help, title: "add a comment inside the block to suppress this warning".to_owned(), lint: None, element: Some(Element::Patches(p1)) };
        assert(g1@ == patches(Level::Help, "add a comment inside the block to suppress this warning"@, seq![patch(block_span, " --[[ TODO: explain why this block is empty ]] "@)]));
        push_group(&mut groups, g1);
        assert(groups_view(groups@) =~= seq![GroupView { level: severity_level(self.0.levels@[EMPTY_BLOCK as int]), title: lint_message(EMPTY_BLOCK)@, lint: Some(EMPTY_BLOCK), element: Some(ElementView::Annotations(seq![ann(AnnotationKind::Primary, span, None)])) }] + (seq![patches(Level::Help, "add a comment inside the block to suppress this warning"@, seq![patch(block_span, " --[[ TODO: explain why this block is empty ]] "@)])]));
        assert(groups_view(groups@) =~= (lint_diagnostic(self.0, EMPTY_BLOCK, seq![ann(AnnotationKind::Primary, span, None)], seq![patches(Level::Help, "add a comment inside the block to suppress this warning"@, seq![patch(block_span, " --[[ TODO: explain why this block is empty ]] "@)])])).groups);
        let r = Diagnostic { error: self.0.is_error(EMPTY_BLOCK), groups };
        r
    }
}

impl<'a, 'b> EmptyStatement<'a, 'b> {
    pub fn build(&self, span: Span) -> (r: Diagnostic)
        requires
            self.0.levels@.len() == LINT_COUNT,
            self.0.levels@[EMPTY_STATEMENT as int] != Severity::Allow,
        ensures
            r@ == (lint_diagnostic(self.0, EMPTY_STATEMENT, seq![ann(AnnotationKind::Primary, span, None)], Seq::<GroupView>::empty())),
    {
        let mut groups: Vec<Group> = new_groups();
        let mut a0: Vec<Annotation> = new_anns();
        push_ann(&mut a0, Annotation { kind: AnnotationKind::Primary, span: span, label: None });
        assert(anns_view(a0@) =~= seq![ann(AnnotationKind::Primary, span, None)]);
        let g0 = self.0.main_group(EMPTY_STATEMENT, Some(Element::Annotations(a0)));
        assert(g0@ == GroupView { level: severity_level(self.0.levels@[EMPTY_STATEMENT as int]), title: lint_message(EMPTY_STATEMENT)@, lint: Some(EMPTY_STATEMENT), element: Some(ElementView::Annotations(seq![ann(AnnotationKind::Primary, span, None)])) });
        push_group(&mut groups, g0);
        assert(groups_view(groups@) =~= seq![GroupView { level: severity_level(self.0.levels@[EMPTY_STATEMENT as int]), title: lint_message(EMPTY_STATEMENT)@, lint: Some(EMPTY_STATEMENT), element: Some(ElementView::Annotations(seq![ann(AnnotationKind::Primary, span, None)])) }] + (Seq::<GroupView>::empty()));
        assert(groups_view(groups@) =~= (lint_diagnostic(self.0, EMPTY_STATEMENT, seq![ann(AnnotationKind::Primary, span, None)], Seq::<GroupView>::empty())).groups);
        let r = Diagnostic { error: self.0.is_error(EMPTY_STATEMENT), groups };
        r
    }
}

impl<'a, 'b> UnnecessaryNegation<'a, 'b> {
    pub fn build(&self, op_span: Span, bin_op_tok: Token, bin_op_span: Span, compared_span: Span, paren_span: Span) -> (r: Diagnostic)
        requires
            self.0.levels@.len() == LINT_COUNT,
            self.0.levels@[UNNECESSARY_NEGATION as int] != Severity::Allow,
            relational_tokens().contains(bin_op_tok),
        ensures
            r@ == (lint_diagnostic(self.0, UNNECESSARY_NEGATION, seq![ann(AnnotationKind::Primary, op_span, None), ann(AnnotationKind::Context, bin_op_span, Some("for this relational operator"@))], seq![patches(Level::Help, "use the inverse relational operator instead"@, seq![patch(bin_op_span, inverse_operator_text(bin_op_tok)), patch((Span { start: op_span.start, end: compared_span.start }), ""@), patch((Span { start: compared_span.end, end: paren_span.end }), ""@)])])),
    {
        let mut groups: Vec<Group> = new_groups();
        let mut a0: Vec<Annotation> = new_anns();
        push_ann(&mut a0, Annotation { kind: AnnotationKind::Primary, span: op_span, label: None });
        push_ann(&mut a0, Annotation { kind: AnnotationKind::Context, span: bin_op_span, label: Some("for this relational operator".to_owned()) });
        assert(anns_view(a0@) =~= seq![ann(AnnotationKind::Primary, op_span, None), ann(AnnotationKind::Context, bin_op_span, Some("for this relational operator"@))]);
        let g0 = self.0.main_group(UNNECESSARY_NEGATION, Some(Element::Annotations(a0)));
        assert(g0@ == GroupView { level: severity_level(self.0.levels@[UNNECESSARY_NEGATION as int]), title: lint_message(UNNECESSARY_NEGATION)@, lint: Some(UNNECESSARY_NEGATION), element: Some(ElementView::Annotations(seq![ann(AnnotationKind::Primary, op_span, None), ann(AnnotationKind::Context, bin_op_span, Some("for this relational operator"@))])) });
        push_group(&mut groups, g0);
        let mut p1: Vec<Patch> = new_patches();
        push_patch(&mut p1, Patch { span: bin_op_span, replacement: inverse_operator(bin_op_tok).to_owned() });
        push_patch(&mut p1, Patch { span: (Span { start: op_span.start, end: compared_span.start }), replacement: "".to_owned() });
        push_patch(&mut p1, Patch { span: (Span { start: compared_span.end, end: paren_span.end }), replacement: "".to_owned() });
        assert(patches_view(p1@) =~= seq![patch(bin_op_span, inverse_operator_text(bin_op_tok)), patch((Span { start: op_span.start, end: compared_span.start }), ""@), patch((Span { start: compared_span.end, end: paren_span.end }), ""@)]);
        let g1 = Group { level: Level::Help, title: "use the inverse relational operator instead".to_owned(), lint: None, element: Some(Element::Patches(p1)) };
        assert(g1@ == patches(Level::Help, "use the inverse relational operator instead"@, seq![patch(bin_op_span, inverse_operator_text(bin_op_tok)), patch((Span { start: op_span.start, end: compared_span.start }), ""@), patch((Span { start: compared_span.end, end: paren_span.end }), ""@)]));
        push_group(&mut groups, g1);
        assert(groups_view(groups@) =~= seq![GroupView { level: severity_level(self.0.levels@[UNNECESSARY_NEGATION as int]), title: lint_message(UNNECESSARY_NEGATION)@, lint: Some(UNNECESSARY_NEGATION), element: Some(ElementView::Annotations(seq![ann(AnnotationKind::Primary, op_span, None), ann(AnnotationKind::Context, bin_op_span, Some("for this relational operator"@))])) }] + (seq![patches(Level::Help, "use the inverse relational operator instead"@, seq![patch(bin_op_span, inverse_operator_text(bin_op_tok)), patch((Span { start: op_span.start, end: compared_span.start }), ""@), patch((Span { start: compared_span.end, end: paren_span.end }), ""@)])]));
        assert(groups_view(groups@) =~= (lint_diagnostic(self.0, UNNECESSARY_NEGATION, seq![ann(AnnotationKind::Primary, op_span, None), ann(AnnotationKind::Context, bin_op_span, Some("for this relational operator"@))], seq![patches(Level::Help, "use the inverse relational operator instead"@, seq![patch(bin_op_span, inverse_operator_text(bin_op_tok)), patch((Span { start: op_span.start, end: compared_span.start }), ""@), patch((Span { start: compared_span.end, end: paren_span.end }), ""@)])])).groups);
        let r = Diagnostic { error: self.0.is_error(UNNECESSARY_NEGATION), groups };
        r
    }
}

impl<'a, 'b> ErrorProneNegation<'a, 'b> {
    pub fn build(&self, un_span: Span, op_span: Span, bin_span: Span, bin_op_span: Span) -> (r: Diagnostic)
        requires
            self.0.levels@.len() == LINT_COUNT,
            self.0.levels@[ERROR_PRONE_NEGATION as int] != Severity::Allow,
        ensures
            r@ == (lint_diagnostic(self.0, ERROR_PRONE_NEGATION, seq![ann(AnnotationKind::Primary, op_span, None), ann(AnnotationKind::Context, bin_op_span, Some("for this relational operator"@))], seq![patches(Level::Help, "use parentheses to clarify your intent"@, seq![patch((Span { start: op_span.start, end: op_span.start }), "("@), patch((Span { start: op_span.end, end: op_span.end }), ")"@)])] + seq![patches(Level::Help, "invert the result of the relational operation"@, seq![patch((Span { start: un_span.start, end: un_span.start }), "("@), patch((Span { start: bin_span.end, end: bin_span.end }), ")"@)])])),
    {
        let mut groups: Vec<Group> = new_groups();
        let mut a0: Vec<Annotation> = new_anns();
        push_ann(&mut a0, Annotation { kind: AnnotationKind::Primary, span: op_span, label: None });
        push_ann(&mut a0, Annotation { kind: AnnotationKind::Context, span: bin_op_span, label: Some("for this relational operator".to_owned()) });
        assert(anns_view(a0@) =~= seq![ann(AnnotationKind::Primary, op_span, None), ann(AnnotationKind::Context, bin_op_span, Some("for this relational operator"@))]);
        let g0 = self.0.main_group(ERROR_PRONE_NEGATION, Some(Element::Annotations(a0)));
        assert(g0@ == GroupView { level: severity_level(self.0.levels@[ERROR_PRONE_NEGATION as int]), title: lint_message(ERROR_PRONE_NEGATION)@, lint: Some(ERROR_PRONE_NEGATION), element: Some(ElementView::Annotations(seq![ann(AnnotationKind::Primary, op_span, None), ann(AnnotationKind::Context, bin_op_span, Some("for this relational operator"@))])) });
        push_group(&mut groups, g0);
        let mut p1: Vec<Patch> = new_patches();
        push_patch(&mut p1, Patch { span: (Span { start: op_span.start, end: op_span.start }), replacement: "(".to_owned() });
        push_patch(&mut p1, Patch { span: (Span { start: op_span.end, end: op_span.end }), replacement: ")".to_owned() });
        assert(patches_view(p1@) =~= seq![patch((Span { start: op_span.start, end: op_span.start }), "("@), patch((Span { start: op_span.end, end: op_span.end }), ")"@)]);
        let g1 = Group { level: Level::Help, title: "use parentheses to clarify your intent".to_owned(), lint: None, element: Some(Element::Patches(p1)) };
        assert(g1@ == patches(Level::Help, "use parentheses to clarify your intent"@, seq![patch((Span { start: op_span.start, end: op_span.start }), "("@), patch((Span { start: op_span.end, end: op_span.end }), ")"@)]));
        push_group(&mut groups, g1);
        let mut p2: Vec<Patch> = new_patches();
        push_patch(&mut p2, Patch { span: (Span { start: un_span.start, end: un_span.start }), replacement: "(".to_owned() });
        push_patch(&mut p2, Patch { span: (Span { start: bin_span.end, end: bin_span.end }), replacement: ")".to_owned() });
        assert(patches_view(p2@) =~= seq![patch((Span { start: un_span.start, end: un_span.start }), "("@), patch((Span { start: bin_span.end, end: bin_span.end }), ")"@)]);
        let g2 = Group { level: Level::Help, title: "invert the result of the relational operation".to_owned(), lint: None, element: Some(Element::Patches(p2)) };
        assert(g2@ == patches(Level::Help, "invert the result of the relational operation"@, seq![patch((Span { start: un_span.start, end: un_span.start }), "("@), patch((Span { start: bin_span.end, end: bin_span.end }), ")"@)]));
        push_group(&mut groups, g2);
        assert(groups_view(groups@) =~= seq![GroupView { level: severity_level(self.0.levels@[ERROR_PRONE_NEGATION as int]), title: lint_message(ERROR_PRONE_NEGATION)@, lint: Some(ERROR_PRONE_NEGATION), element: Some(ElementView::Annotations(seq![ann(AnnotationKind::Primary, op_span, None), ann(AnnotationKind::Context, bin_op_span, Some("for this relational operator"@))])) }] + (seq![patches(Level::Help, "use parentheses to clarify your intent"@, seq![patch((Span { start: op_span.start, end: op_span.start }), "("@), patch((Span { start: op_span.end, end: op_span.end }), ")"@)])] + seq![patches(Level::Help, "invert the result of the relational operation"@, seq![patch((Span { start: un_span.start, end: un_span.start }), "("@), patch((Span { start: bin_span.end, end: bin_span.end }), ")"@)])]));
        assert(groups_view(groups@) =~= (lint_diagnostic(self.0, ERROR_PRONE_NEGATION, seq![ann(AnnotationKind::Primary, op_span, None), ann(AnnotationKind::Context, bin_op_span, Some("for this relational operator"@))], seq![patches(Level::Help, "use parentheses to clarify your intent"@, seq![patch((Span { start: op_span.start, end: op_span.start }), "("@), patch((Span { start: op_span.end, end: op_span.end }), ")"@)])] + seq![patches(Level::Help, "invert the result of the relational operation"@, seq![patch((Span { start: un_span.start, end: un_span.start }), "("@), patch((Span { start: bin_span.end, end: bin_span.end }), ")"@)])])).groups);
        let r = Diagnostic { error: self.0.is_error(ERROR_PRONE_NEGATION), groups };
        r
    }
}

impl<'a, 'b> UnusedLabel<'a, 'b> {
    pub fn build(&self, span: Span) -> (r: Diagnostic)
        requires
            self.0.levels@.len() == LINT_COUNT,
            self.0.levels@[UNUSED_LABEL as int] != Severity::Allow,
        ensures
            r@ == (lint_diagnostic(self.0, UNUSED_LABEL, seq![ann(AnnotationKind::Primary, span, None)], Seq::<GroupView>::empty())),
    {
        let mut groups: Vec<Group> = new_groups();
        let mut a0: Vec<Annotation> = new_anns();
        push_ann(&mut a0, Annotation { kind: AnnotationKind::Primary, span: span, label: None });
        assert(anns_view(a0@) =~= seq![ann(AnnotationKind::Primary, span, None)]);
        let g0 = self.0.main_group(UNUSED_LABEL, Some(Element::Annotations(a0)));
        assert(g0@ == GroupView { level: severity_level(self.0.levels@[UNUSED_LABEL as int]), title: lint_message(UNUSED_LABEL)@, lint: Some(UNUSED_LABEL), element: Some(ElementView::Annotations(seq![ann(AnnotationKind::Primary, span, None)])) });
        push_group(&mut groups, g0);
        assert(groups_view(groups@) =~= seq![GroupView { level: severity_level(self.0.levels@[UNUSED_LABEL as int]), title: lint_message(UNUSED_LABEL)@, lint: Some(UNUSED_LABEL), element: Some(ElementView::Annotations(seq![ann(AnnotationKind::Primary, span, None)])) }] + (Seq::<GroupView>::empty()));
        assert(groups_view(groups@) =~= (lint_diagnostic(self.0, UNUSED_LABEL, seq![ann(AnnotationKind::Primary, span, None)], Seq::<GroupView>::empty())).groups);
        let r = Diagnostic { error: self.0.is_error(UNUSED_LABEL), groups };
        r
    }
}

impl<'a, 'b> UnusedLocal<'a, 'b> {
    pub fn build(&self, span: Span, delete_span: Option<Span>) -> (r: Diagnostic)
        requires
            self.0.levels@.len() == LINT_COUNT,
            self.0.levels@[UNUSED_LOCAL as int] != Severity::Allow,
        ensures
            r@ == (lint_diagnostic(self.0, UNUSED_LOCAL, seq![ann(AnnotationKind::Primary, span, None)], seq![if delete_span.is_some() { patches(Level::Help, "delete the definition"@, seq![patch(delete_span.unwrap(), ""@)]) } else { if self.0.config.allow_local_unused_hint { patches(Level::Help, "use an underscore prefix to suppress this warning"@, seq![patch((Span { start: span.start, end: span.start }), "_"@)]) } else { patches(Level::Help, "use an underscore to suppress this warning"@, seq![patch(span, "_"@)]) } }])),
    {
        let mut groups: Vec<Group> = new_groups();
        let mut a0: Vec<Annotation> = new_anns();
        push_ann(&mut a0, Annotation { kind: AnnotationKind::Primary, span: span, label: None });
        assert(anns_view(a0@) =~= seq![ann(AnnotationKind::Primary, span, None)]);
        let g0 = self.0.main_group(UNUSED_LOCAL, Some(Element::Annotations(a0)));
        assert(g0@ == GroupView { level: severity_level(self.0.levels@[UNUSED_LOCAL as int]), title: lint_message(UNUSED_LOCAL)@, lint: Some(UNUSED_LOCAL), element: Some(ElementView::Annotations(seq![ann(AnnotationKind::Primary, span, None)])) });
        push_group(&mut groups, g0);
        if delete_span.is_some() {
        let mut p1: Vec<Patch> = new_patches();
        push_patch(&mut p1, Patch { span: delete_span.unwrap(), replacement: "".to_owned() });
        assert(patches_view(p1@) =~= seq![patch(delete_span.unwrap(), ""@)]);
        let g1 = Group { level: Level::Help, title: "delete the definition".to_owned(), lint: None, element: Some(Element::Patches(p1)) };
        assert(g1@ == patches(Level::Help, "delete the definition"@, seq![patch(delete_span.unwrap(), ""@)]));
            push_group(&mut groups, g1);
        } else if self.0.config.allow_local_unused_hint {
        let mut p2: Vec<Patch> = new_patches();
        push_patch(&mut p2, Patch { span: (Span { start: span.start, end: span.start }), replacement: "_".to_owned() });
        assert(patches_view(p2@) =~= seq![patch((Span { start: span.start, end: span.start }), "_"@)]);
        let g2 = Group { level: Level::Help, title: "use an underscore prefix to suppress this warning".to_owned(), lint: None, element: Some(Element::Patches(p2)) };
        assert(g2@ == patches(Level::Help, "use an underscore prefix to suppress this warning"@, seq![patch((Span { start: span.start, end: span.start }), "_"@)]));
            push_group(&mut groups, g2);
        } else {
        let mut p3: Vec<Patch> = new_patches();
        push_patch(&mut p3, Patch { span: span, replacement: "_".to_owned() });
        assert(patches_view(p3@) =~= seq![patch(span, "_"@)]);
        let g3 = Group { level: Level::Help, title: "use an underscore to suppress this warning".to_owned(), lint: None, element: Some(Element::Patches(p3)) };
        assert(g3@ == patches(Level::Help, "use an underscore to suppress this warning"@, seq![patch(span, "_"@)]));
            push_group(&mut groups, g3);
        }
        assert(groups_view(groups@) =~= seq![GroupView { level: severity_level(self.0.levels@[UNUSED_LOCAL as int]), title: lint_message(UNUSED_LOCAL)@, lint: Some(UNUSED_LOCAL), element: Some(ElementView::Annotations(seq![ann(AnnotationKind::Primary, span, None)])) }] + (seq![if delete_span.is_some() { patches(Level::Help, "delete the definition"@, seq![patch(delete_span.unwrap(), ""@)]) } else { if self.0.config.allow_local_unused_hint { patches(Level::Help, "use an underscore prefix to suppress this warning"@, seq![patch((Span { start: span.start, end: span.start }), "_"@)]) } else { patches(Level::Help, "use an underscore to suppress this warning"@, seq![patch(span, "_"@)]) } }]));
        assert(groups_view(groups@) =~= (lint_diagnostic(self.0, UNUSED_LOCAL, seq![ann(AnnotationKind::Primary, span, None)], seq![if delete_span.is_some() { patches(Level::Help, "delete the definition"@, seq![patch(delete_span.unwrap(), ""@)]) } else { if self.0.config.allow_local_unused_hint { patches(Level::Help, "use an underscore prefix to suppress this warning"@, seq![patch((Span { start: span.start, end: span.start }), "_"@)]) } else { patches(Level::Help, "use an underscore to suppress this warning"@, seq![patch(span, "_"@)]) } }])).groups);
        let r = Diagnostic { error: self.0.is_error(UNUSED_LOCAL), groups };
        r
    }
}

impl<'a, 'b> UsedDespiteUnusedHint<'a, 'b> {
    pub fn build(&self, span: Span, decl_span: Span) -> (r: Diagnostic)
        requires
            self.0.levels@.len() == LINT_COUNT,
            self.0.levels@[USED_DESPITE_UNUSED_HINT as int] != Severity::Allow,
        ensures
            r@ == (lint_diagnostic(self.0, USED_DESPITE_UNUSED_HINT, seq![ann(AnnotationKind::Primary, span, None), ann(AnnotationKind::Context, decl_span, Some("declared here"@))], seq![note(Level::Help, "remove the underscore prefix in the name"@)])),
    {
        let mut groups: Vec<Group> = new_groups();
        let mut a0: Vec<Annotation> = new_anns();
        push_ann(&mut a0, Annotation { kind: AnnotationKind::Primary, span: span, label: None });
        push_ann(&mut a0, Annotation { kind: AnnotationKind::Context, span: decl_span, label: Some("declared here".to_owned()) });
        assert(anns_view(a0@) =~= seq![ann(AnnotationKind::Primary, span, None), ann(AnnotationKind::Context, decl_span, Some("declared here"@))]);
        let g0 = self.0.main_group(USED_DESPITE_UNUSED_HINT, Some(Element::Annotations(a0)));
        assert(g0@ == GroupView { level: severity_level(self.0.levels@[USED_DESPITE_UNUSED_HINT as int]), title: lint_message(USED_DESPITE_UNUSED_HINT)@, lint: Some(USED_DESPITE_UNUSED_HINT), element: Some(ElementView::Annotations(seq![ann(AnnotationKind::Primary, span, None), ann(AnnotationKind::Context, decl_span, Some("declared here"@))])) });
        push_group(&mut groups, g0);
        let g1 = Group { level: Level::Help, title: "remove the underscore prefix in the name".to_owned(), lint: None, element: None };
        assert(g1@ == note(Level::Help, "remove the underscore prefix in the name"@));
        push_group(&mut groups, g1);
        assert(groups_view(groups@) =~= seq![GroupView { level: severity_level(self.0.levels@[USED_DESPITE_UNUSED_HINT as int]), title: lint_message(USED_DESPITE_UNUSED_HINT)@, lint: Some(USED_DESPITE_UNUSED_HINT), element: Some(ElementView::Annotations(seq![ann(AnnotationKind::Primary, span, None), ann(AnnotationKind::Context, decl_span, Some("declared here"@))])) }] + (seq![note(Level::Help, "remove the underscore prefix in the name"@)]));
        assert(groups_view(groups@) =~= (lint_diagnostic(self.0, USED_DESPITE_UNUSED_HINT, seq![ann(AnnotationKind::Primary, span, None), ann(AnnotationKind::Context, decl_span, Some("declared here"@))], seq![note(Level::Help, "remove the underscore prefix in the name"@)])).groups);
        let r = Diagnostic { error: self.0.is_error(USED_DESPITE_UNUSED_HINT), groups };
        r
    }
}

impl<'a, 'b> UnusedParameter<'a, 'b> {
    pub fn build(&self, span: Span) -> (r: Diagnostic)
        requires
            self.0.levels@.len() == LINT_COUNT,
            self.0.levels@[UNUSED_PARAMETER as int] != Severity::Allow,
        ensures
            r@ == (lint_diagnostic(self.0, UNUSED_PARAMETER, seq![ann(AnnotationKind::Primary, span, None)], seq![patches(Level::Help, "use an underscore prefix to suppress this warning"@, seq![patch((Span { start: span.start, end: span.start }), "_"@)])])),
    {
        let mut groups: Vec<Group> = new_groups();
        let mut a0: Vec<Annotation> = new_anns();
        push_ann(&mut a0, Annotation { kind: AnnotationKind::Primary, span: span, label: None });
        assert(anns_view(a0@) =~= seq![ann(AnnotationKind::Primary, span, None)]);
        let g0 = self.0.main_group(UNUSED_PARAMETER, Some(Element::Annotations(a0)));
        assert(g0@ == GroupView { level: severity_level(self.0.levels@[UNUSED_PARAMETER as int]), title: lint_message(UNUSED_PARAMETER)@, lint: Some(UNUSED_PARAMETER), element: Some(ElementView::Annotations(seq![ann(AnnotationKind::Primary, span, None)])) });
        push_group(&mut groups, g0);
        let mut p1: Vec<Patch> = new_patches();
        push_patch(&mut p1, Patch { span: (Span { start: span.start, end: span.start }), replacement: "_".to_owned() });
        assert(patches_view(p1@) =~= seq![patch((Span { start: span.start, end: span.start }), "_"@)]);
        let g1 = Group { level: Level::Help, title: "use an underscore prefix to suppress this warning".to_owned(), lint: None, element: Some(Element::Patches(p1)) };
        assert(g1@ == patches(Level::Help, "use an underscore prefix to suppress this warning"@, seq![patch((Span { start: span.start, end: span.start }), "_"@)]));
        push_group(&mut groups, g1);
        assert(groups_view(groups@) =~= seq![GroupView { level: severity_level(self.0.levels@[UNUSED_PARAMETER as int]), title: lint_message(UNUSED_PARAMETER)@, lint: Some(UNUSED_PARAMETER), element: Some(ElementView::Annotations(seq![ann(AnnotationKind::Primary, span, None)])) }] + (seq![patches(Level::Help, "use an underscore prefix to suppress this warning"@, seq![patch((Span { start: span.start, end: span.start }), "_"@)])]));
        assert(groups_view(groups@) =~= (lint_diagnostic(self.0, UNUSED_PARAMETER, seq![ann(AnnotationKind::Primary, span, None)], seq![patches(Level::Help, "use an underscore prefix to suppress this warning"@, seq![patch((Span { start: span.start, end: span.start }), "_"@)])])).groups);
        let r = Diagnostic { error: self.0.is_error(UNUSED_PARAMETER), groups };
        r
    }
}

impl<'a, 'b> UnusedLoopvar<'a, 'b> {
    pub fn build(&self, span: Span) -> (r: Diagnostic)
        requires
            self.0.levels@.len() == LINT_COUNT,
            self.0.levels@[UNUSED_LOOPVAR as int] != Severity::Allow,
        ensures
            r@ == (lint_diagnostic(self.0, UNUSED_LOOPVAR, seq![ann(AnnotationKind::Primary, span, None)], seq![if self.0.config.allow_loopvar_unused_hint { patches(Level::Help, "use an underscore prefix to suppress this warning"@, seq![patch((Span { start: span.start, end: span.start }), "_"@)]) } else { patches(Level::Help, "use an underscore to suppress this warning"@, seq![patch(span, "_"@)]) }])),
    {
        let mut groups: Vec<Group> = new_groups();
        let mut a0: Vec<Annotation> = new_anns();
        push_ann(&mut a0, Annotation { kind: AnnotationKind::Primary, span: span, label: None });
        assert(anns_view(a0@) =~= seq![ann(AnnotationKind::Primary, span, None)]);
        let g0 = self.0.main_group(UNUSED_LOOPVAR, Some(Element::Annotations(a0)));
        assert(g0@ == GroupView { level: severity_level(self.0.levels@[UNUSED_LOOPVAR as int]), title: lint_message(UNUSED_LOOPVAR)@, lint: Some(UNUSED_LOOPVAR), element: Some(ElementView::Annotations(seq![ann(AnnotationKind::Primary, span, None)])) });
        push_group(&mut groups, g0);
        if self.0.config.allow_loopvar_unused_hint {
        let mut p1: Vec<Patch> = new_patches();
        push_patch(&mut p1, Patch { span: (Span { start: span.start, end: span.start }), replacement: "_".to_owned() });
        assert(patches_view(p1@) =~= seq![patch((Span { start: span.start, end: span.start }), "_"@)]);
        let g1 = Group { level: Level::Help, title: "use an underscore prefix to suppress this warning".to_owned(), lint: None, element: Some(Element::Patches(p1)) };
        assert(g1@ == patches(Level::Help, "use an underscore prefix to suppress this warning"@, seq![patch((Span { start: span.start, end: span.start }), "_"@)]));
            push_group(&mut groups, g1);
        } else {
        let mut p2: Vec<Patch> = new_patches();
        push_patch(&mut p2, Patch { span: span, replacement: "_".to_owned() });
        assert(patches_view(p2@) =~= seq![patch(span, "_"@)]);
        let g2 = Group { level: Level::Help, title: "use an underscore to suppress this warning".to_owned(), lint: None, element: Some(Element::Patches(p2)) };
        assert(g2@ == patches(Level::Help, "use an underscore to suppress this warning"@, seq![patch(span, "_"@)]));
            push_group(&mut groups, g2);
        }
        assert(groups_view(groups@) =~= seq![GroupView { level: severity_level(self.0.levels@[UNUSED_LOOPVAR as int]), title: lint_message(UNUSED_LOOPVAR)@, lint: Some(UNUSED_LOOPVAR), element: Some(ElementView::Annotations(seq![ann(AnnotationKind::Primary, span, None)])) }] + (seq![if self.0.config.allow_loopvar_unused_hint { patches(Level::Help, "use an underscore prefix to suppress this warning"@, seq![patch((Span { start: span.start, end: span.start }), "_"@)]) } else { patches(Level::Help, "use an underscore to suppress this warning"@, seq![patch(span, "_"@)]) }]));
        assert(groups_view(groups@) =~= (lint_diagnostic(self.0, UNUSED_LOOPVAR, seq![ann(AnnotationKind::Primary, span, None)], seq![if self.0.config.allow_loopvar_unused_hint { patches(Level::Help, "use an underscore prefix to suppress this warning"@, seq![patch((Span { start: span.start, end: span.start }), "_"@)]) } else { patches(Level::Help, "use an underscore to suppress this warning"@, seq![patch(span, "_"@)]) }])).groups);
        let r = Diagnostic { error: self.0.is_error(UNUSED_LOOPVAR), groups };
        r
    }
}

impl<'a, 'b> RedefinedLocal<'a, 'b> {
    pub fn build(&self, span: Span, old_span: Span, is_self: bool) -> (r: Diagnostic)
        requires
            self.0.levels@.len() == LINT_COUNT,
            self.0.levels@[REDEFINED_LOCAL as int] != Severity::Allow,
        ensures
            r@ == (lint_diagnostic(self.0, REDEFINED_LOCAL, seq![ann(AnnotationKind::Primary, span, None), ann(AnnotationKind::Context, old_span, Some("previous definition in same scope"@))], (if is_self { seq![note(Level::Note, "methods define an implicit `self` parameter"@)] } else { Seq::empty() }))),
    {
        let mut groups: Vec<Group> = new_groups();
        let mut a0: Vec<Annotation> = new_anns();
        push_ann(&mut a0, Annotation { kind: AnnotationKind::Primary, span: span, label: None });
        push_ann(&mut a0, Annotation { kind: AnnotationKind::Context, span: old_span, label: Some("previous definition in same scope".to_owned()) });
        assert(anns_view(a0@) =~= seq![ann(AnnotationKind::Primary, span, None), ann(AnnotationKind::Context, old_span, Some("previous definition in same scope"@))]);
        let g0 = self.0.main_group(REDEFINED_LOCAL, Some(Element::Annotations(a0)));
        assert(g0@ == GroupView { level: severity_level(self.0.levels@[REDEFINED_LOCAL as int]), title: lint_message(REDEFINED_LOCAL)@, lint: Some(REDEFINED_LOCAL), element: Some(ElementView::Annotations(seq![ann(AnnotationKind::Primary, span, None), ann(AnnotationKind::Context, old_span, Some("previous definition in same scope"@))])) });
        push_group(&mut groups, g0);
        if is_self {
        let g1 = Group { level: Level::Note, title: "methods define an implicit `self` parameter".to_owned(), lint: None, element: None };
        assert(g1@ == note(Level::Note, "methods define an implicit `self` parameter"@));
            push_group(&mut groups, g1);
        }
        assert(groups_view(groups@) =~= seq![GroupView { level: severity_level(self.0.levels@[REDEFINED_LOCAL as int]), title: lint_message(REDEFINED_LOCAL)@, lint: Some(REDEFINED_LOCAL), element: Some(ElementView::Annotations(seq![ann(AnnotationKind::Primary, span, None), ann(AnnotationKind::Context, old_span, Some("previous definition in same scope"@))])) }] + ((if is_self { seq![note(Level::Note, "methods define an implicit `self` parameter"@)] } else { Seq::empty() })));
        assert(groups_view(groups@) =~= (lint_diagnostic(self.0, REDEFINED_LOCAL, seq![ann(AnnotationKind::Primary, span, None), ann(AnnotationKind::Context, old_span, Some("previous definition in same scope"@))], (if is_self { seq![note(Level::Note, "methods define an implicit `self` parameter"@)] } else { Seq::empty() }))).groups);
        let r = Diagnostic { error: self.0.is_error(REDEFINED_LOCAL), groups };
        r
    }
}

impl<'a, 'b> RedundantLocal<'a, 'b> {
    pub fn build(&self, span: Span, rhs_span: Span, old_span: Span) -> (r: Diagnostic)
        requires
            self.0.levels@.len() == LINT_COUNT,
            self.0.levels@[REDUNDANT_LOCAL as int] != Severity::Allow,
        ensures
            r@ == (lint_diagnostic(self.0, REDUNDANT_LOCAL, seq![ann(AnnotationKind::Primary, span, None), ann(AnnotationKind::Primary, rhs_span, None), ann(AnnotationKind::Context, old_span, Some("previous definition"@))], Seq::<GroupView>::empty())),
    {
        let mut groups: Vec<Group> = new_groups();
        let mut a0: Vec<Annotation> = new_anns();
        push_ann(&mut a0, Annotation { kind: AnnotationKind::Primary, span: span, label: None });
        push_ann(&mut a0, Annotation { kind: AnnotationKind::Primary, span: rhs_span, label: None });
        push_ann(&mut a0, Annotation { kind: AnnotationKind::Context, span: old_span, label: Some("previous definition".to_owned()) });
        assert(anns_view(a0@) =~= seq![ann(AnnotationKind::Primary, span, None), ann(AnnotationKind::Primary, rhs_span, None), ann(AnnotationKind::Context, old_span, Some("previous definition"@))]);
        let g0 = self.0.main_group(REDUNDANT_LOCAL, Some(Element::Annotations(a0)));
        assert(g0@ == GroupView { level: severity_level(self.0.levels@[REDUNDANT_LOCAL as int]), title: lint_message(REDUNDANT_LOCAL)@, lint: Some(REDUNDANT_LOCAL), element: Some(ElementView::Annotations(seq![ann(AnnotationKind::Primary, span, None), ann(AnnotationKind::Primary, rhs_span, None), ann(AnnotationKind::Context, old_span, Some("previous definition"@))])) });
        push_group(&mut groups, g0);
        assert(groups_view(groups@) =~= seq![GroupView { level: severity_level(self.0.levels@[REDUNDANT_LOCAL as int]), title: lint_message(REDUNDANT_LOCAL)@, lint: Some(REDUNDANT_LOCAL), element: Some(ElementView::Annotations(seq![ann(AnnotationKind::Primary, span, None), ann(AnnotationKind::Primary, rhs_span, None), ann(AnnotationKind::Context, old_span, Some("previous definition"@))])) }] + (Seq::<GroupView>::empty()));
        assert(groups_view(groups@) =~= (lint_diagnostic(self.0, REDUNDANT_LOCAL, seq![ann(AnnotationKind::Primary, span, None), ann(AnnotationKind::Primary, rhs_span, None), ann(AnnotationKind::Context, old_span, Some("previous definition"@))], Seq::<GroupView>::empty())).groups);
        let r = Diagnostic { error: self.0.is_error(REDUNDANT_LOCAL), groups };
        r
    }
}

impl<'a, 'b> ShadowingLocal<'a, 'b> {
    pub fn build(&self, span: Span, old_span: Span) -> (r: Diagnostic)
        requires
            self.0.levels@.len() == LINT_COUNT,
            self.0.levels@[SHADOWING_LOCAL as int] != Severity::Allow,
        ensures
            r@ == (lint_diagnostic(self.0, SHADOWING_LOCAL, seq![ann(AnnotationKind::Primary, span, None), ann(AnnotationKind::Context, old_span, Some("previous definition in outer scope"@))], Seq::<GroupView>::empty())),
    {
        let mut groups: Vec<Group> = new_groups();
        let mut a0: Vec<Annotation> = new_anns();
        push_ann(&mut a0, Annotation { kind: AnnotationKind::Primary, span: span, label: None });
        push_ann(&mut a0, Annotation { kind: AnnotationKind::Context, span: old_span, label: Some("previous definition in outer scope".to_owned()) });
        assert(anns_view(a0@) =~= seq![ann(AnnotationKind::Primary, span, None), ann(AnnotationKind::Context, old_span, Some("previous definition in outer scope"@))]);
        let g0 = self.0.main_group(SHADOWING_LOCAL, Some(Element::Annotations(a0)));
        assert(g0@ == GroupView { level: severity_level(self.0.levels@[SHADOWING_LOCAL as int]), title: lint_message(SHADOWING_LOCAL)@, lint: Some(SHADOWING_LOCAL), element: Some(ElementView::Annotations(seq![ann(AnnotationKind::Primary, span, None), ann(AnnotationKind::Context, old_span, Some("previous definition in outer scope"@))])) });
        push_group(&mut groups, g0);
        assert(groups_view(groups@) =~= seq![GroupView { level: severity_level(self.0.levels@[SHADOWING_LOCAL as int]), title: lint_message(SHADOWING_LOCAL)@, lint: Some(SHADOWING_LOCAL), element: Some(ElementView::Annotations(seq![ann(AnnotationKind::Primary, span, None), ann(AnnotationKind::Context, old_span, Some("previous definition in outer scope"@))])) }] + (Seq::<GroupView>::empty()));
        assert(groups_view(groups@) =~= (lint_diagnostic(self.0, SHADOWING_LOCAL, seq![ann(AnnotationKind::Primary, span, None), ann(AnnotationKind::Context, old_span, Some("previous definition in outer scope"@))], Seq::<GroupView>::empty())).groups);
        let r = Diagnostic { error: self.0.is_error(SHADOWING_LOCAL), groups };
        r
    }
}

impl<'a, 'b> UnusedVararg<'a, 'b> {
    pub fn build(&self, span: Span) -> (r: Diagnostic)
        requires
            self.0.levels@.len() == LINT_COUNT,
            self.0.levels@[UNUSED_VARARG as int] != Severity::Allow,
        ensures
            r@ == (lint_diagnostic(self.0, UNUSED_VARARG, seq![ann(AnnotationKind::Primary, span, None)], Seq::<GroupView>::empty())),
    {
        let mut groups: Vec<Group> = new_groups();
        let mut a0: Vec<Annotation> = new_anns();
        push_ann(&mut a0, Annotation { kind: AnnotationKind::Primary, span: span, label: None });
        assert(anns_view(a0@) =~= seq![ann(AnnotationKind::Primary, span, None)]);
        let g0 = self.0.main_group(UNUSED_VARARG, Some(Element::Annotations(a0)));
        assert(g0@ == GroupView { level: severity_level(self.0.levels@[UNUSED_VARARG as int]), title: lint_message(UNUSED_VARARG)@, lint: Some(UNUSED_VARARG), element: Some(ElementView::Annotations(seq![ann(AnnotationKind::Primary, span, None)])) });
        push_group(&mut groups, g0);
        assert(groups_view(groups@) =~= seq![GroupView { level: severity_level(self.0.levels@[UNUSED_VARARG as int]), title: lint_message(UNUSED_VARARG)@, lint: Some(UNUSED_VARARG), element: Some(ElementView::Annotations(seq![ann(AnnotationKind::Primary, span, None)])) }] + (Seq::<GroupView>::empty()));
        assert(groups_view(groups@) =~= (lint_diagnostic(self.0, UNUSED_VARARG, seq![ann(AnnotationKind::Primary, span, None)], Seq::<GroupView>::empty())).groups);
        let r = Diagnostic { error: self.0.is_error(UNUSED_VARARG), groups };
        r
    }
}

impl<'a, 'b> TooManyParameters<'a, 'b> {
    pub fn build(&self, span: Span, count: usize) -> (r: Diagnostic)
        requires
            self.0.levels@.len() == LINT_COUNT,
            self.0.levels@[TOO_MANY_PARAMETERS as int] != Severity::Allow,
        ensures
            r@ == (lint_diagnostic(self.0, TOO_MANY_PARAMETERS, seq![ann(AnnotationKind::Primary, span, None)], seq![note(Level::Note, "there are "@ + decimal(count as nat) + " parameters and the threshold is set to "@ + decimal(self.0.config.parameter_threshold as nat))])),
    {
        let mut groups: Vec<Group> = new_groups();
        let mut a0: Vec<Annotation> = new_anns();
        push_ann(&mut a0, Annotation { kind: AnnotationKind::Primary, span: span, label: None });
        assert(anns_view(a0@) =~= seq![ann(AnnotationKind::Primary, span, None)]);
        let g0 = self.0.main_group(TOO_MANY_PARAMETERS, Some(Element::Annotations(a0)));
        assert(g0@ == GroupView { level: severity_level(self.0.levels@[TOO_MANY_PARAMETERS as int]), title: lint_message(TOO_MANY_PARAMETERS)@, lint: Some(TOO_MANY_PARAMETERS), element: Some(ElementView::Annotations(seq![ann(AnnotationKind::Primary, span, None)])) });
        push_group(&mut groups, g0);
        let g1 = Group { level: Level::Note, title: { let mut t = "there are ".to_owned(); t.append(decimal_string(count as u64).as_str()); t.append(" parameters and the threshold is set to "); t.append(decimal_string(self.0.config.parameter_threshold as u64).as_str()); t }, lint: None, element: None };
        assert(g1@ == note(Level::Note, "there are "@ + decimal(count as nat) + " parameters and the threshold is set to "@ + decimal(self.0.config.parameter_threshold as nat)));
        push_group(&mut groups, g1);
        assert(groups_view(groups@) =~= seq![GroupView { level: severity_level(self.0.levels@[TOO_MANY_PARAMETERS as int]), title: lint_message(TOO_MANY_PARAMETERS)@, lint: Some(TOO_MANY_PARAMETERS), element: Some(ElementView::Annotations(seq![ann(AnnotationKind::Primary, span, None)])) }] + (seq![note(Level::Note, "there are "@ + decimal(count as nat) + " parameters and the threshold is set to "@ + decimal(self.0.config.parameter_threshold as nat))]));
        assert(groups_view(groups@) =~= (lint_diagnostic(self.0, TOO_MANY_PARAMETERS, seq![ann(AnnotationKind::Primary, span, None)], seq![note(Level::Note, "there are "@ + decimal(count as nat) + " parameters and the threshold is set to "@ + decimal(self.0.config.parameter_threshold as nat))])).groups);
        let r = Diagnostic { error: self.0.is_error(TOO_MANY_PARAMETERS), groups };
        r
    }
}

impl<'a, 'b> TooManyLines<'a, 'b> {
    pub fn build(&self, span: Span, count: usize) -> (r: Diagnostic)
        requires
            self.0.levels@.len() == LINT_COUNT,
            self.0.levels@[TOO_MANY_LINES as int] != Severity::Allow,
        ensures
            r@ == (lint_diagnostic(self.0, TOO_MANY_LINES, seq![ann(AnnotationKind::Primary, span, None)], seq![note(Level::Note, "there are "@ + decimal(count as nat) + " lines and the threshold is set to "@ + decimal(self.0.config.function_line_threshold as nat))])),
    {
        let mut groups: Vec<Group> = new_groups();
        let mut a0: Vec<Annotation> = new_anns();
        push_ann(&mut a0, Annotation { kind: AnnotationKind::Primary, span: span, label: None });
        assert(anns_view(a0@) =~= seq![ann(AnnotationKind::Primary, span, None)]);
        let g0 = self.0.main_group(TOO_MANY_LINES, Some(Element::Annotations(a0)));
        assert(g0@ == GroupView { level: severity_level(self.0.levels@[TOO_MANY_LINES as int]), title: lint_message(TOO_MANY_LINES)@, lint: Some(TOO_MANY_LINES), element: Some(ElementView::Annotations(seq![ann(AnnotationKind::Primary, span, None)])) });
        push_group(&mut groups, g0);
        let g1 = Group { level: Level::Note, title: { let mut t = "there are ".to_owned(); t.append(decimal_string(count as u64).as_str()); t.append(" lines and the threshold is set to "); t.append(decimal_string(self.0.config.function_line_threshold as u64).as_str()); t }, lint: None, element: None };
        assert(g1@ == note(Level::Note, "there are "@ + decimal(count as nat) + " lines and the threshold is set to "@ + decimal(self.0.config.function_line_threshold as nat)));
        push_group(&mut groups, g1);
        assert(groups_view(groups@) =~= seq![GroupView { level: severity_level(self.0.levels@[TOO_MANY_LINES as int]), title: lint_message(TOO_MANY_LINES)@, lint: Some(TOO_MANY_LINES), element: Some(ElementView::Annotations(seq![ann(AnnotationKind::Primary, span, None)])) }] + (seq![note(Level::Note, "there are "@ + decimal(count as nat) + " lines and the threshold is set to "@ + decimal(self.0.config.function_line_threshold as nat))]));
        assert(groups_view(groups@) =~= (lint_diagnostic(self.0, TOO_MANY_LINES, seq![ann(AnnotationKind::Primary, span, None)], seq![note(Level::Note, "there are "@ + decimal(count as nat) + " lines and the threshold is set to "@ + decimal(self.0.config.function_line_threshold as nat))])).groups);
        let r = Diagnostic { error: self.0.is_error(TOO_MANY_LINES), groups };
        r
    }
}

impl<'a, 'b> AlmostSwap<'a, 'b> {
    pub fn build(&self, span: Span, first: &[u8], second: &[u8]) -> (r: Diagnostic)
        requires
            self.0.levels@.len() == LINT_COUNT,
            self.0.levels@[ALMOST_SWAP as int] != Severity::Allow,
        ensures
            r@ == (lint_diagnostic(self.0, ALMOST_SWAP, seq![ann(AnnotationKind::Primary, span, None)], seq![patches(Level::Help, "use a single statement instead to implement a swap"@, seq![patch(span, swap_replacement(first@, second@))])])),
    {
        let mut groups: Vec<Group> = new_groups();
        let mut a0: Vec<Annotation> = new_anns();
        push_ann(&mut a0, Annotation { kind: AnnotationKind::Primary, span: span, label: None });
        assert(anns_view(a0@) =~= seq![ann(AnnotationKind::Primary, span, None)]);
        let g0 = self.0.main_group(ALMOST_SWAP, Some(Element::Annotations(a0)));
        assert(g0@ == GroupView { level: severity_level(self.0.levels@[ALMOST_SWAP as int]), title: lint_message(ALMOST_SWAP)@, lint: Some(ALMOST_SWAP), element: Some(ElementView::Annotations(seq![ann(AnnotationKind::Primary, span, None)])) });
        push_group(&mut groups, g0);
        let mut p1: Vec<Patch> = new_patches();
        push_patch(&mut p1, Patch { span: span, replacement: swap_text(first, second) });
        assert(patches_view(p1@) =~= seq![patch(span, swap_replacement(first@, second@))]);
        let g1 = Group { level: Level::Help, title: "use a single statement instead to implement a swap".to_owned(), lint: None, element: Some(Element::Patches(p1)) };
        assert(g1@ == patches(Level::Help, "use a single statement instead to implement a swap"@, seq![patch(span, swap_replacement(first@, second@))]));
        push_group(&mut groups, g1);
        assert(groups_view(groups@) =~= seq![GroupView { level: severity_level(self.0.levels@[ALMOST_SWAP as int]), title: lint_message(ALMOST_SWAP)@, lint: Some(ALMOST_SWAP), element: Some(ElementView::Annotations(seq![ann(AnnotationKind::Primary, span, None)])) }] + (seq![patches(Level::Help, "use a single statement instead to implement a swap"@, seq![patch(span, swap_replacement(first@, second@))])]));
        assert(groups_view(groups@) =~= (lint_diagnostic(self.0, ALMOST_SWAP, seq![ann(AnnotationKind::Primary, span, None)], seq![patches(Level::Help, "use a single statement instead to implement a swap"@, seq![patch(span, swap_replacement(first@, second@))])])).groups);
        let r = Diagnostic { error: self.0.is_error(ALMOST_SWAP), groups };
        r
    }
}

impl<'a, 'b> ApproxPi<'a, 'b> {
    pub fn build(&self, span: Span) -> (r: Diagnostic)
        requires
            self.0.levels@.len() == LINT_COUNT,
            self.0.levels@[APPROX_PI as int] != Severity::Allow,
        ensures
            r@ == (lint_diagnostic(self.0, APPROX_PI, seq![ann(AnnotationKind::Primary, span, None)], seq![patches(Level::Help, "use math.pi instead if this was intended"@, seq![patch(span, "math.pi"@)])])),
    {
        let mut groups: Vec<Group> = new_groups();
        let mut a0: Vec<Annotation> = new_anns();
        push_ann(&mut a0, Annotation { kind: AnnotationKind::Primary, span: span, label: None });
        assert(anns_view(a0@) =~= seq![ann(AnnotationKind::Primary, span, None)]);
        let g0 = self.0.main_group(APPROX_PI, Some(Element::Annotations(a0)));
        assert(g0@ == GroupView { level: severity_level(self.0.levels@[APPROX_PI as int]), title: lint_message(APPROX_PI)@, lint: Some(APPROX_PI), element: Some(ElementView::Annotations(seq![ann(AnnotationKind::Primary, span, None)])) });
        push_group(&mut groups, g0);
        let mut p1: Vec<Patch> = new_patches();
        push_patch(&mut p1, Patch { span: span, replacement: "math.pi".to_owned() });
        assert(patches_view(p1@) =~= seq![patch(span, "math.pi"@)]);
        let g1 = Group { level: Level::Help, title: "use math.pi instead if this was intended".to_owned(), lint: None, element: Some(Element::Patches(p1)) };
        assert(g1@ == patches(Level::Help, "use math.pi instead if this was intended"@, seq![patch(span, "math.pi"@)]));
        push_group(&mut groups, g1);
        assert(groups_view(groups@) =~= seq![GroupView { level: severity_level(self.0.levels@[APPROX_PI as int]), title: lint_message(APPROX_PI)@, lint: Some(APPROX_PI), element: Some(ElementView::Annotations(seq![ann(AnnotationKind::Primary, span, None)])) }] + (seq![patches(Level::Help, "use math.pi instead if this was intended"@, seq![patch(span, "math.pi"@)])]));
        assert(groups_view(groups@) =~= (lint_diagnostic(self.0, APPROX_PI, seq![ann(AnnotationKind::Primary, span, None)], seq![patches(Level::Help, "use math.pi instead if this was intended"@, seq![patch(span, "math.pi"@)])])).groups);
        let r = Diagnostic { error: self.0.is_error(APPROX_PI), groups };
        r
    }
}

impl<'a, 'b> RoundsToInf<'a, 'b> {
    pub fn build(&self, span: Span) -> (r: Diagnostic)
        requires
            self.0.levels@.len() == LINT_COUNT,
            self.0.levels@[ROUNDS_TO_INF as int] != Severity::Allow,
        ensures
            r@ == (lint_diagnostic(self.0, ROUNDS_TO_INF, seq![ann(AnnotationKind::Primary, span, None)], seq![patches(Level::Help, "use math.huge instead if this was intended"@, seq![patch(span, "math.huge"@)])])),
    {
        let mut groups: Vec<Group> = new_groups();
        let mut a0: Vec<Annotation> = new_anns();
        push_ann(&mut a0, Annotation { kind: AnnotationKind::Primary, span: span, label: None });
        assert(anns_view(a0@) =~= seq![ann(AnnotationKind::Primary, span, None)]);
        let g0 = self.0.main_group(ROUNDS_TO_INF, Some(Element::Annotations(a0)));
        assert(g0@ == GroupView { level: severity_level(self.0.levels@[ROUNDS_TO_INF as int]), title: lint_message(ROUNDS_TO_INF)@, lint: Some(ROUNDS_TO_INF), element: Some(ElementView::Annotations(seq![ann(AnnotationKind::Primary, span, None)])) });
        push_group(&mut groups, g0);
        let mut p1: Vec<Patch> = new_patches();
        push_patch(&mut p1, Patch { span: span, replacement: "math.huge".to_owned() });
        assert(patches_view(p1@) =~= seq![patch(span, "math.huge"@)]);
        let g1 = Group { level: Level::Help, title: "use math.huge instead if this was intended".to_owned(), lint: None, element: Some(Element::Patches(p1)) };
        assert(g1@ == patches(Level::Help, "use math.huge instead if this was intended"@, seq![patch(span, "math.huge"@)]));
        push_group(&mut groups, g1);
        assert(groups_view(groups@) =~= seq![GroupView { level: severity_level(self.0.levels@[ROUNDS_TO_INF as int]), title: lint_message(ROUNDS_TO_INF)@, lint: Some(ROUNDS_TO_INF), element: Some(ElementView::Annotations(seq![ann(AnnotationKind::Primary, span, None)])) }] + (seq![patches(Level::Help, "use math.huge instead if this was intended"@, seq![patch(span, "math.huge"@)])]));
        assert(groups_view(groups@) =~= (lint_diagnostic(self.0, ROUNDS_TO_INF, seq![ann(AnnotationKind::Primary, span, None)], seq![patches(Level::Help, "use math.huge instead if this was intended"@, seq![patch(span, "math.huge"@)])])).groups);
        let r = Diagnostic { error: self.0.is_error(ROUNDS_TO_INF), groups };
        r
    }
}

impl<'a, 'b> RoundsIntPart<'a, 'b> {
    pub fn build(&self, span: Span, value: &str) -> (r: Diagnostic)
        requires
            self.0.levels@.len() == LINT_COUNT,
            self.0.levels@[ROUNDS_INT_PART as int] != Severity::Allow,
        ensures
            r@ == (lint_diagnostic(self.0, ROUNDS_INT_PART, seq![ann(AnnotationKind::Primary, span, Some("the actual value will be "@ + value@))], Seq::<GroupView>::empty())),
    {
        let mut groups: Vec<Group> = new_groups();
        let mut a0: Vec<Annotation> = new_anns();
        push_ann(&mut a0, Annotation { kind: AnnotationKind::Primary, span: span, label: Some({ let mut t = "the actual value will be ".to_owned(); t.append(value); t }) });
        assert(anns_view(a0@) =~= seq![ann(AnnotationKind::Primary, span, Some("the actual value will be "@ + value@))]);
        let g0 = self.0.main_group(ROUNDS_INT_PART, Some(Element::Annotations(a0)));
        assert(g0@ == GroupView { level: severity_level(self.0.levels@[ROUNDS_INT_PART as int]), title: lint_message(ROUNDS_INT_PART)@, lint: Some(ROUNDS_INT_PART), element: Some(ElementView::Annotations(seq![ann(AnnotationKind::Primary, span, Some("the actual value will be "@ + value@))])) });
        push_group(&mut groups, g0);
        assert(groups_view(groups@) =~= seq![GroupView { level: severity_level(self.0.levels@[ROUNDS_INT_PART as int]), title: lint_message(ROUNDS_INT_PART)@, lint: Some(ROUNDS_INT_PART), element: Some(ElementView::Annotations(seq![ann(AnnotationKind::Primary, span, Some("the actual value will be "@ + value@))])) }] + (Seq::<GroupView>::empty()));
        assert(groups_view(groups@) =~= (lint_diagnostic(self.0, ROUNDS_INT_PART, seq![ann(AnnotationKind::Primary, span, Some("the actual value will be "@ + value@))], Seq::<GroupView>::empty())).groups);
        let r = Diagnostic { error: self.0.is_error(ROUNDS_INT_PART), groups };
        r
    }
}

impl<'a, 'b> InexactHexFloat<'a, 'b> {
    pub fn build(&self, span: Span) -> (r: Diagnostic)
        requires
            self.0.levels@.len() == LINT_COUNT,
            self.0.levels@[INEXACT_HEX_FLOAT as int] != Severity::Allow,
        ensures
            r@ == (lint_diagnostic(self.0, INEXACT_HEX_FLOAT, seq![ann(AnnotationKind::Primary, span, None)], Seq::<GroupView>::empty())),
    {
        let mut groups: Vec<Group> = new_groups();
        let mut a0: Vec<Annotation> = new_anns();
        push_ann(&mut a0, Annotation { kind: AnnotationKind::Primary, span: span, label: None });
        assert(anns_view(a0@) =~= seq![ann(AnnotationKind::Primary, span, None)]);
        let g0 = self.0.main_group(INEXACT_HEX_FLOAT, Some(Element::Annotations(a0)));
        assert(g0@ == GroupView { level: severity_level(self.0.levels@[INEXACT_HEX_FLOAT as int]), title: lint_message(INEXACT_HEX_FLOAT)@, lint: Some(INEXACT_HEX_FLOAT), element: Some(ElementView::Annotations(seq![ann(AnnotationKind::Primary, span, None)])) });
        push_group(&mut groups, g0);
        assert(groups_view(groups@) =~= seq![GroupView { level: severity_level(self.0.levels@[INEXACT_HEX_FLOAT as int]), title: lint_message(INEXACT_HEX_FLOAT)@, lint: Some(INEXACT_HEX_FLOAT), element: Some(ElementView::Annotations(seq![ann(AnnotationKind::Primary, span, None)])) }] + (Seq::<GroupView>::empty()));
        assert(groups_view(groups@) =~= (lint_diagnostic(self.0, INEXACT_HEX_FLOAT, seq![ann(AnnotationKind::Primary, span, None)], Seq::<GroupView>::empty())).groups);
        let r = Diagnostic { error: self.0.is_error(INEXACT_HEX_FLOAT), groups };
        r
    }
}

impl<'a, 'b> OctalConfusion<'a, 'b> {
    pub fn build(&self, span: Span) -> (r: Diagnostic)
        requires
            self.0.levels@.len() == LINT_COUNT,
            self.0.levels@[OCTAL_CONFUSION as int] != Severity::Allow,
            span.start < span.end,
        ensures
            r@ == (lint_diagnostic(self.0, OCTAL_CONFUSION, seq![ann(AnnotationKind::Primary, span, None)], seq![note(Level::Note, "Lua doesn't have the octal numbers syntax from C"@)] + seq![patches(Level::Help, "remove the prefix"@, seq![patch((Span { start: span.start, end: (span.start + 1) as usize }), ""@)])])),
    {
        let mut groups: Vec<Group> = new_groups();
        let mut a0: Vec<Annotation> = new_anns();
        push_ann(&mut a0, Annotation { kind: AnnotationKind::Primary, span: span, label: None });
        assert(anns_view(a0@) =~= seq![ann(AnnotationKind::Primary, span, None)]);
        let g0 = self.0.main_group(OCTAL_CONFUSION, Some(Element::Annotations(a0)));
        assert(g0@ == GroupView { level: severity_level(self.0.levels@[OCTAL_CONFUSION as int]), title: lint_message(OCTAL_CONFUSION)@, lint: Some(OCTAL_CONFUSION), element: Some(ElementView::Annotations(seq![ann(AnnotationKind::Primary, span, None)])) });
        push_group(&mut groups, g0);
        let g1 = Group { level: Level::Note, title: "Lua doesn't have the octal numbers syntax from C".to_owned(), lint: None, element: None };
        assert(g1@ == note(Level::Note, "Lua doesn't have the octal numbers syntax from C"@));
        push_group(&mut groups, g1);
        let mut p2: Vec<Patch> = new_patches();
        push_patch(&mut p2, Patch { span: (Span { start: span.start, end: (span.start + 1) as usize }), replacement: "".to_owned() });
        assert(patches_view(p2@) =~= seq![patch((Span { start: span.start, end: (span.start + 1) as usize }), ""@)]);
        let g2 = Group { level: Level::Help, title: "remove the prefix".to_owned(), lint: None, element: Some(Element::Patches(p2)) };
        assert(g2@ == patches(Level::Help, "remove the prefix"@, seq![patch((Span { start: span.start, end: (span.start + 1) as usize }), ""@)]));
        push_group(&mut groups, g2);
        assert(groups_view(groups@) =~= seq![GroupView { level: severity_level(self.0.levels@[OCTAL_CONFUSION as int]), title: lint_message(OCTAL_CONFUSION)@, lint: Some(OCTAL_CONFUSION), element: Some(ElementView::Annotations(seq![ann(AnnotationKind::Primary, span, None)])) }] + (seq![note(Level::Note, "Lua doesn't have the octal numbers syntax from C"@)] + seq![patches(Level::Help, "remove the prefix"@, seq![patch((Span { start: span.start, end: (span.start + 1) as usize }), ""@)])]));
        assert(groups_view(groups@) =~= (lint_diagnostic(self.0, OCTAL_CONFUSION, seq![ann(AnnotationKind::Primary, span, None)], seq![note(Level::Note, "Lua doesn't have the octal numbers syntax from C"@)] + seq![patches(Level::Help, "remove the prefix"@, seq![patch((Span { start: span.start, end: (span.start + 1) as usize }), ""@)])])).groups);
        let r = Diagnostic { error: self.0.is_error(OCTAL_CONFUSION), groups };
        r
    }
}

impl<'a, 'b> HexIntOverflow<'a, 'b> {
    pub fn build(&self, span: Span, value: i64) -> (r: Diagnostic)
        requires
            self.0.levels@.len() == LINT_COUNT,
            self.0.levels@[HEX_INT_OVERFLOW as int] != Severity::Allow,
        ensures
            r@ == (lint_diagnostic(self.0, HEX_INT_OVERFLOW, seq![ann(AnnotationKind::Primary, span, Some("the actual value will be "@ + signed_decimal(value as int)))], seq![note(Level::Note, "hexadecimal integer literals are not implicitly converted to float values"@)])),
    {
        let mut groups: Vec<Group> = new_groups();
        let mut a0: Vec<Annotation> = new_anns();
        push_ann(&mut a0, Annotation { kind: AnnotationKind::Primary, span: span, label: Some({ let mut t = "the actual value will be ".to_owned(); t.append(signed_decimal_string(value).as_str()); t }) });
        assert(anns_view(a0@) =~= seq![ann(AnnotationKind::Primary, span, Some("the actual value will be "@ + signed_decimal(value as int)))]);
        let g0 = self.0.main_group(HEX_INT_OVERFLOW, Some(Element::Annotations(a0)));
        assert(g0@ == GroupView { level: severity_level(self.0.levels@[HEX_INT_OVERFLOW as int]), title: lint_message(HEX_INT_OVERFLOW)@, lint: Some(HEX_INT_OVERFLOW), element: Some(ElementView::Annotations(seq![ann(AnnotationKind::Primary, span, Some("the actual value will be "@ + signed_decimal(value as int)))])) });
        push_group(&mut groups, g0);
        let g1 = Group { level: Level::Note, title: "hexadecimal integer literals are not implicitly converted to float values".to_owned(), lint: None, element: None };
        assert(g1@ == note(Level::Note, "hexadecimal integer literals are not implicitly converted to float values"@));
        push_group(&mut groups, g1);
        assert(groups_view(groups@) =~= seq![GroupView { level: severity_level(self.0.levels@[HEX_INT_OVERFLOW as int]), title: lint_message(HEX_INT_OVERFLOW)@, lint: Some(HEX_INT_OVERFLOW), element: Some(ElementView::Annotations(seq![ann(AnnotationKind::Primary, span, Some("the actual value will be "@ + signed_decimal(value as int)))])) }] + (seq![note(Level::Note, "hexadecimal integer literals are not implicitly converted to float values"@)]));
        assert(groups_view(groups@) =~= (lint_diagnostic(self.0, HEX_INT_OVERFLOW, seq![ann(AnnotationKind::Primary, span, Some("the actual value will be "@ + signed_decimal(value as int)))], seq![note(Level::Note, "hexadecimal integer literals are not implicitly converted to float values"@)])).groups);
        let r = Diagnostic { error: self.0.is_error(HEX_INT_OVERFLOW), groups };
        r
    }
}

impl<'a, 'b> BoolCompare<'a, 'b> {
    pub fn build(&self, span: Span, non_const_span: Span, inverse: bool, is_bin_exp: bool) -> (r: Diagnostic)
        requires
            self.0.levels@.len() == LINT_COUNT,
            self.0.levels@[BOOL_COMPARE as int] != Severity::Allow,
        ensures
            r@ == (lint_diagnostic(self.0, BOOL_COMPARE, seq![ann(AnnotationKind::Primary, span, None)], seq![patches(Level::Help, "remove the comparison"@, seq![patch((Span { start: span.start, end: span.start }), (if inverse { if is_bin_exp { "not ("@ } else { "not "@ } } else { ""@ })), patch((if span.start == non_const_span.start { (Span { start: non_const_span.end, end: span.end }) } else { (Span { start: span.start, end: non_const_span.start }) }), ""@), patch((Span { start: span.end, end: span.end }), (if inverse && is_bin_exp { ")"@ } else { ""@ }))])])),
    {
        let mut groups: Vec<Group> = new_groups();
        let mut a0: Vec<Annotation> = new_anns();
        push_ann(&mut a0, Annotation { kind: AnnotationKind::Primary, span: span, label: None });
        assert(anns_view(a0@) =~= seq![ann(AnnotationKind::Primary, span, None)]);
        let g0 = self.0.main_group(BOOL_COMPARE, Some(Element::Annotations(a0)));
        assert(g0@ == GroupView { level: severity_level(self.0.levels@[BOOL_COMPARE as int]), title: lint_message(BOOL_COMPARE)@, lint: Some(BOOL_COMPARE), element: Some(ElementView::Annotations(seq![ann(AnnotationKind::Primary, span, None)])) });
        push_group(&mut groups, g0);
        let mut p1: Vec<Patch> = new_patches();
        push_patch(&mut p1, Patch { span: (Span { start: span.start, end: span.start }), replacement: (if inverse { if is_bin_exp { "not (" } else { "not " } } else { "" }).to_owned() });
        push_patch(&mut p1, Patch { span: (if span.start == non_const_span.start { (Span { start: non_const_span.end, end: span.end }) } else { (Span { start: span.start, end: non_const_span.start }) }), replacement: "".to_owned() });
        push_patch(&mut p1, Patch { span: (Span { start: span.end, end: span.end }), replacement: (if inverse && is_bin_exp { ")" } else { "" }).to_owned() });
        assert(patches_view(p1@) =~= seq![patch((Span { start: span.start, end: span.start }), (if inverse { if is_bin_exp { "not ("@ } else { "not "@ } } else { ""@ })), patch((if span.start == non_const_span.start { (Span { start: non_const_span.end, end: span.end }) } else { (Span { start: span.start, end: non_const_span.start }) }), ""@), patch((Span { start: span.end, end: span.end }), (if inverse && is_bin_exp { ")"@ } else { ""@ }))]);
        let g1 = Group { level: Level::Help, title: "remove the comparison".to_owned(), lint: None, element: Some(Element::Patches(p1)) };
        assert(g1@ == patches(Level::Help, "remove the comparison"@, seq![patch((Span { start: span.start, end: span.start }), (if inverse { if is_bin_exp { "not ("@ } else { "not "@ } } else { ""@ })), patch((if span.start == non_const_span.start { (Span { start: non_const_span.end, end: span.end }) } else { (Span { start: span.start, end: non_const_span.start }) }), ""@), patch((Span { start: span.end, end: span.end }), (if inverse && is_bin_exp { ")"@ } else { ""@ }))]));
        push_group(&mut groups, g1);
        assert(groups_view(groups@) =~= seq![GroupView { level: severity_level(self.0.levels@[BOOL_COMPARE as int]), title: lint_message(BOOL_COMPARE)@, lint: Some(BOOL_COMPARE), element: Some(ElementView::Annotations(seq![ann(AnnotationKind::Primary, span, None)])) }] + (seq![patches(Level::Help, "remove the comparison"@, seq![patch((Span { start: span.start, end: span.start }), (if inverse { if is_bin_exp { "not ("@ } else { "not "@ } } else { ""@ })), patch((if span.start == non_const_span.start { (Span { start: non_const_span.end, end: span.end }) } else { (Span { start: span.start, end: non_const_span.start }) }), ""@), patch((Span { start: span.end, end: span.end }), (if inverse && is_bin_exp { ")"@ } else { ""@ }))])]));
        assert(groups_view(groups@) =~= (lint_diagnostic(self.0, BOOL_COMPARE, seq![ann(AnnotationKind::Primary, span, None)], seq![patches(Level::Help, "remove the comparison"@, seq![patch((Span { start: span.start, end: span.start }), (if inverse { if is_bin_exp { "not ("@ } else { "not "@ } } else { ""@ })), patch((if span.start == non_const_span.start { (Span { start: non_const_span.end, end: span.end }) } else { (Span { start: span.start, end: non_const_span.start }) }), ""@), patch((Span { start: span.end, end: span.end }), (if inverse && is_bin_exp { ")"@ } else { ""@ }))])])).groups);
        let r = Diagnostic { error: self.0.is_error(BOOL_COMPARE), groups };
        r
    }
}

impl<'a, 'b> InvisibleCharacters<'a, 'b> {
    pub fn build(&self, span: Span, c: char) -> (r: Diagnostic)
        requires
            self.0.levels@.len() == LINT_COUNT,
            self.0.levels@[INVISIBLE_CHARACTERS as int] != Severity::Allow,
        ensures
            r@ == (lint_diagnostic(self.0, INVISIBLE_CHARACTERS, seq![ann(AnnotationKind::Primary, span, Some("character "@ + char_debug(c) + " at this position"@))], seq![note(Level::Note, "there is no good reason for using such characters in code"@)])),
    {
        let mut groups: Vec<Group> = new_groups();
        let mut a0: Vec<Annotation> = new_anns();
        push_ann(&mut a0, Annotation { kind: AnnotationKind::Primary, span: span, label: Some({ let mut t = "character ".to_owned(); t.append(char_debug_text(c).as_str()); t.append(" at this position"); t }) });
        assert(anns_view(a0@) =~= seq![ann(AnnotationKind::Primary, span, Some("character "@ + char_debug(c) + " at this position"@))]);
        let g0 = self.0.main_group(INVISIBLE_CHARACTERS, Some(Element::Annotations(a0)));
        assert(g0@ == GroupView { level: severity_level(self.0.levels@[INVISIBLE_CHARACTERS as int]), title: lint_message(INVISIBLE_CHARACTERS)@, lint: Some(INVISIBLE_CHARACTERS), element: Some(ElementView::Annotations(seq![ann(AnnotationKind::Primary, span, Some("character "@ + char_debug(c) + " at this position"@))])) });
        push_group(&mut groups, g0);
        let g1 = Group { level: Level::Note, title: "there is no good reason for using such characters in code".to_owned(), lint: None, element: None };
        assert(g1@ == note(Level::Note, "there is no good reason for using such characters in code"@));
        push_group(&mut groups, g1);
        assert(groups_view(groups@) =~= seq![GroupView { level: severity_level(self.0.levels@[INVISIBLE_CHARACTERS as int]), title: lint_message(INVISIBLE_CHARACTERS)@, lint: Some(INVISIBLE_CHARACTERS), element: Some(ElementView::Annotations(seq![ann(AnnotationKind::Primary, span, Some("character "@ + char_debug(c) + " at this position"@))])) }] + (seq![note(Level::Note, "there is no good reason for using such characters in code"@)]));
        assert(groups_view(groups@) =~= (lint_diagnostic(self.0, INVISIBLE_CHARACTERS, seq![ann(AnnotationKind::Primary, span, Some("character "@ + char_debug(c) + " at this position"@))], seq![note(Level::Note, "there is no good reason for using such characters in code"@)])).groups);
        let r = Diagnostic { error: self.0.is_error(INVISIBLE_CHARACTERS), groups };
        r
    }
}

impl<'a, 'b> UnreachableCode<'a, 'b> {
    pub fn build(&self, spans: &Vec<Span>) -> (r: Diagnostic)
        requires
            self.0.levels@.len() == LINT_COUNT,
            self.0.levels@[UNREACHABLE_CODE as int] != Severity::Allow,
        ensures
            r@ == (lint_diagnostic(self.0, UNREACHABLE_CODE, spans_annotations(spans@, AnnotationKind::Primary), Seq::<GroupView>::empty())),
    {
        let mut groups: Vec<Group> = new_groups();
        let mut a0: Vec<Annotation> = new_anns();
        push_spans(&mut a0, spans, AnnotationKind::Primary);
        assert(anns_view(a0@) =~= spans_annotations(spans@, AnnotationKind::Primary));
        let g0 = self.0.main_group(UNREACHABLE_CODE, Some(Element::Annotations(a0)));
        assert(g0@ == GroupView { level: severity_level(self.0.levels@[UNREACHABLE_CODE as int]), title: lint_message(UNREACHABLE_CODE)@, lint: Some(UNREACHABLE_CODE), element: Some(ElementView::Annotations(spans_annotations(spans@, AnnotationKind::Primary))) });
        push_group(&mut groups, g0);
        assert(groups_view(groups@) =~= seq![GroupView { level: severity_level(self.0.levels@[UNREACHABLE_CODE as int]), title: lint_message(UNREACHABLE_CODE)@, lint: Some(UNREACHABLE_CODE), element: Some(ElementView::Annotations(spans_annotations(spans@, AnnotationKind::Primary))) }] + (Seq::<GroupView>::empty()));
        assert(groups_view(groups@) =~= (lint_diagnostic(self.0, UNREACHABLE_CODE, spans_annotations(spans@, AnnotationKind::Primary), Seq::<GroupView>::empty())).groups);
        let r = Diagnostic { error: self.0.is_error(UNREACHABLE_CODE), groups };
        r
    }
}

impl<'a, 'b> NextLineArgs<'a, 'b> {
    pub fn build(&self, span: Span, func_span: Span) -> (r: Diagnostic)
        requires
            self.0.levels@.len() == LINT_COUNT,
            self.0.levels@[NEXT_LINE_ARGS as int] != Severity::Allow,
        ensures
            r@ == (lint_diagnostic(self.0, NEXT_LINE_ARGS, seq![ann(AnnotationKind::Primary, span, None), ann(AnnotationKind::Context, func_span, Some("for call to this function"@))], seq![patches(Level::Help, "add a semicolon if this was not intended to be a function call"@, seq![patch((Span { start: span.start, end: span.start }), ";"@)])])),
    {
        let mut groups: Vec<Group> = new_groups();
        let mut a0: Vec<Annotation> = new_anns();
        push_ann(&mut a0, Annotation { kind: AnnotationKind::Primary, span: span, label: None });
        push_ann(&mut a0, Annotation { kind: AnnotationKind::Context, span: func_span, label: Some("for call to this function".to_owned()) });
        assert(anns_view(a0@) =~= seq![ann(AnnotationKind::Primary, span, None), ann(AnnotationKind::Context, func_span, Some("for call to this function"@))]);
        let g0 = self.0.main_group(NEXT_LINE_ARGS, Some(Element::Annotations(a0)));
        assert(g0@ == GroupView { level: severity_level(self.0.levels@[NEXT_LINE_ARGS as int]), title: lint_message(NEXT_LINE_ARGS)@, lint: Some(NEXT_LINE_ARGS), element: Some(ElementView::Annotations(seq![ann(AnnotationKind::Primary, span, None), ann(AnnotationKind::Context, func_span, Some("for call to this function"@))])) });
        push_group(&mut groups, g0);
        let mut p1: Vec<Patch> = new_patches();
        push_patch(&mut p1, Patch { span: (Span { start: span.start, end: span.start }), replacement: ";".to_owned() });
        assert(patches_view(p1@) =~= seq![patch((Span { start: span.start, end: span.start }), ";"@)]);
        let g1 = Group { level: Level::Help, title: "add a semicolon if this was not intended to be a function call".to_owned(), lint: None, element: Some(Element::Patches(p1)) };
        assert(g1@ == patches(Level::Help, "add a semicolon if this was not intended to be a function call"@, seq![patch((Span { start: span.start, end: span.start }), ";"@)]));
        push_group(&mut groups, g1);
        assert(groups_view(groups@) =~= seq![GroupView { level: severity_level(self.0.levels@[NEXT_LINE_ARGS as int]), title: lint_message(NEXT_LINE_ARGS)@, lint: Some(NEXT_LINE_ARGS), element: Some(ElementView::Annotations(seq![ann(AnnotationKind::Primary, span, None), ann(AnnotationKind::Context, func_span, Some("for call to this function"@))])) }] + (seq![patches(Level::Help, "add a semicolon if this was not intended to be a function call"@, seq![patch((Span { start: span.start, end: span.start }), ";"@)])]));
        assert(groups_view(groups@) =~= (lint_diagnostic(self.0, NEXT_LINE_ARGS, seq![ann(AnnotationKind::Primary, span, None), ann(AnnotationKind::Context, func_span, Some("for call to this function"@))], seq![patches(Level::Help, "add a semicolon if this was not intended to be a function call"@, seq![patch((Span { start: span.start, end: span.start }), ";"@)])])).groups);
        let r = Diagnostic { error: self.0.is_error(NEXT_LINE_ARGS), groups };
        r
    }
}

impl<'a, 'b> UnicodeCodePointTooLarge<'a, 'b> {
    pub fn build(&self, span: Span) -> (r: Diagnostic)
        requires
            self.0.levels@.len() == LINT_COUNT,
            self.0.levels@[UNICODE_CODE_POINT_TOO_LARGE as int] != Severity::Allow,
        ensures
            r@ == (lint_diagnostic(self.0, UNICODE_CODE_POINT_TOO_LARGE, seq![ann(AnnotationKind::Primary, span, None)], seq![note(Level::Note, "Lua allows invalid Unicode code points larger than 0x10FFFF"@)])),
    {
        let mut groups: Vec<Group> = new_groups();
        let mut a0: Vec<Annotation> = new_anns();
        push_ann(&mut a0, Annotation { kind: AnnotationKind::Primary, span: span, label: None });
        assert(anns_view(a0@) =~= seq![ann(AnnotationKind::Primary, span, None)]);
        let g0 = self.0.main_group(UNICODE_CODE_POINT_TOO_LARGE, Some(Element::Annotations(a0)));
        assert(g0@ == GroupView { level: severity_level(self.0.levels@[UNICODE_CODE_POINT_TOO_LARGE as int]), title: lint_message(UNICODE_CODE_POINT_TOO_LARGE)@, lint: Some(UNICODE_CODE_POINT_TOO_LARGE), element: Some(ElementView::Annotations(seq![ann(AnnotationKind::Primary, span, None)])) });
        push_group(&mut groups, g0);
        let g1 = Group { level: Level::Note, title: "Lua allows invalid Unicode code points larger than 0x10FFFF".to_owned(), lint: None, element: None };
        assert(g1@ == note(Level::Note, "Lua allows invalid Unicode code points larger than 0x10FFFF"@));
        push_group(&mut groups, g1);
        assert(groups_view(groups@) =~= seq![GroupView { level: severity_level(self.0.levels@[UNICODE_CODE_POINT_TOO_LARGE as int]), title: lint_message(UNICODE_CODE_POINT_TOO_LARGE)@, lint: Some(UNICODE_CODE_POINT_TOO_LARGE), element: Some(ElementView::Annotations(seq![ann(AnnotationKind::Primary, span, None)])) }] + (seq![note(Level::Note, "Lua allows invalid Unicode code points larger than 0x10FFFF"@)]));
        assert(groups_view(groups@) =~= (lint_diagnostic(self.0, UNICODE_CODE_POINT_TOO_LARGE, seq![ann(AnnotationKind::Primary, span, None)], seq![note(Level::Note, "Lua allows invalid Unicode code points larger than 0x10FFFF"@)])).groups);
        let r = Diagnostic { error: self.0.is_error(UNICODE_CODE_POINT_TOO_LARGE), groups };
        r
    }
}

impl<'a, 'b> UnicodeCodePointIsSurrogate<'a, 'b> {
    pub fn build(&self, span: Span) -> (r: Diagnostic)
        requires
            self.0.levels@.len() == LINT_COUNT,
            self.0.levels@[UNICODE_CODE_POINT_IS_SURROGATE as int] != Severity::Allow,
        ensures
            r@ == (lint_diagnostic(self.0, UNICODE_CODE_POINT_IS_SURROGATE, seq![ann(AnnotationKind::Primary, span, None)], seq![note(Level::Note, "Lua allows invalid Unicode code points between 0xD800 and 0xDFFF"@)])),
    {
        let mut groups: Vec<Group> = new_groups();
        let mut a0: Vec<Annotation> = new_anns();
        push_ann(&mut a0, Annotation { kind: AnnotationKind::Primary, span: span, label: None });
        assert(anns_view(a0@) =~= seq![ann(AnnotationKind::Primary, span, None)]);
        let g0 = self.0.main_group(UNICODE_CODE_POINT_IS_SURROGATE, Some(Element::Annotations(a0)));
        assert(g0@ == GroupView { level: severity_level(self.0.levels@[UNICODE_CODE_POINT_IS_SURROGATE as int]), title: lint_message(UNICODE_CODE_POINT_IS_SURROGATE)@, lint: Some(UNICODE_CODE_POINT_IS_SURROGATE), element: Some(ElementView::Annotations(seq![ann(AnnotationKind::Primary, span, None)])) });
        push_group(&mut groups, g0);
        let g1 = Group { level: Level::Note, title: "Lua allows invalid Unicode code points between 0xD800 and 0xDFFF".to_owned(), lint: None, element: None };
        assert(g1@ == note(Level::Note, "Lua allows invalid Unicode code points between 0xD800 and 0xDFFF"@));
        push_group(&mut groups, g1);
        assert(groups_view(groups@) =~= seq![GroupView { level: severity_level(self.0.levels@[UNICODE_CODE_POINT_IS_SURROGATE as int]), title: lint_message(UNICODE_CODE_POINT_IS_SURROGATE)@, lint: Some(UNICODE_CODE_POINT_IS_SURROGATE), element: Some(ElementView::Annotations(seq![ann(AnnotationKind::Primary, span, None)])) }] + (seq![note(Level::Note, "Lua allows invalid Unicode code points between 0xD800 and 0xDFFF"@)]));
        assert(groups_view(groups@) =~= (lint_diagnostic(self.0, UNICODE_CODE_POINT_IS_SURROGATE, seq![ann(AnnotationKind::Primary, span, None)], seq![note(Level::Note, "Lua allows invalid Unicode code points between 0xD800 and 0xDFFF"@)])).groups);
        let r = Diagnostic { error: self.0.is_error(UNICODE_CODE_POINT_IS_SURROGATE), groups };
        r
    }
}

impl<'a, 'b> NonAsciiLiteral<'a, 'b> {
    pub fn build(&self, span: Span, c: char) -> (r: Diagnostic)
        requires
            self.0.levels@.len() == LINT_COUNT,
            self.0.levels@[NON_ASCII_LITERAL as int] != Severity::Allow,
        ensures
            r@ == (lint_diagnostic(self.0, NON_ASCII_LITERAL, seq![ann(AnnotationKind::Primary, span, None)], seq![patches(Level::Help, "rewrite the character with an escape sequence"@, seq![patch(span, "\\u{"@ + hexadecimal(c as nat) + "}"@)])])),
    {
        let mut groups: Vec<Group> = new_groups();
        let mut a0: Vec<Annotation> = new_anns();
        push_ann(&mut a0, Annotation { kind: AnnotationKind::Primary, span: span, label: None });
        assert(anns_view(a0@) =~= seq![ann(AnnotationKind::Primary, span, None)]);
        let g0 = self.0.main_group(NON_ASCII_LITERAL, Some(Element::Annotations(a0)));
        assert(g0@ == GroupView { level: severity_level(self.0.levels@[NON_ASCII_LITERAL as int]), title: lint_message(NON_ASCII_LITERAL)@, lint: Some(NON_ASCII_LITERAL), element: Some(ElementView::Annotations(seq![ann(AnnotationKind::Primary, span, None)])) });
        push_group(&mut groups, g0);
        let mut p1: Vec<Patch> = new_patches();
        push_patch(&mut p1, Patch { span: span, replacement: { let mut t = "\\u{".to_owned(); t.append(hexadecimal_string(c as u64).as_str()); t.append("}"); t } });
        assert(patches_view(p1@) =~= seq![patch(span, "\\u{"@ + hexadecimal(c as nat) + "}"@)]);
        let g1 = Group { level: Level::Help, title: "rewrite the character with an escape sequence".to_owned(), lint: None, element: Some(Element::Patches(p1)) };
        assert(g1@ == patches(Level::Help, "rewrite the character with an escape sequence"@, seq![patch(span, "\\u{"@ + hexadecimal(c as nat) + "}"@)]));
        push_group(&mut groups, g1);
        assert(groups_view(groups@) =~= seq![GroupView { level: severity_level(self.0.levels@[NON_ASCII_LITERAL as int]), title: lint_message(NON_ASCII_LITERAL)@, lint: Some(NON_ASCII_LITERAL), element: Some(ElementView::Annotations(seq![ann(AnnotationKind::Primary, span, None)])) }] + (seq![patches(Level::Help, "rewrite the character with an escape sequence"@, seq![patch(span, "\\u{"@ + hexadecimal(c as nat) + "}"@)])]));
        assert(groups_view(groups@) =~= (lint_diagnostic(self.0, NON_ASCII_LITERAL, seq![ann(AnnotationKind::Primary, span, None)], seq![patches(Level::Help, "rewrite the character with an escape sequence"@, seq![patch(span, "\\u{"@ + hexadecimal(c as nat) + "}"@)])])).groups);
        let r = Diagnostic { error: self.0.is_error(NON_ASCII_LITERAL), groups };
        r
    }
}

impl<'a, 'b> CyclomaticComplexity<'a, 'b> {
    pub fn build(&self, span: Span, complexity: usize) -> (r: Diagnostic)
        requires
            self.0.levels@.len() == LINT_COUNT,
            self.0.levels@[CYCLOMATIC_COMPLEXITY as int] != Severity::Allow,
        ensures
            r@ == (lint_diagnostic(self.0, CYCLOMATIC_COMPLEXITY, seq![ann(AnnotationKind::Primary, span, None)], seq![note(Level::Note, "function has complexity "@ + decimal(complexity as nat) + " and the threshold is set to "@ + decimal(self.0.config.cyclomatic_complexity_threshold as nat))])),
    {
        let mut groups: Vec<Group> = new_groups();
        let mut a0: Vec<Annotation> = new_anns();
        push_ann(&mut a0, Annotation { kind: AnnotationKind::Primary, span: span, label: None });
        assert(anns_view(a0@) =~= seq![ann(AnnotationKind::Primary, span, None)]);
        let g0 = self.0.main_group(CYCLOMATIC_COMPLEXITY, Some(Element::Annotations(a0)));
        assert(g0@ == GroupView { level: severity_level(self.0.levels@[CYCLOMATIC_COMPLEXITY as int]), title: lint_message(CYCLOMATIC_COMPLEXITY)@, lint: Some(CYCLOMATIC_COMPLEXITY), element: Some(ElementView::Annotations(seq![ann(AnnotationKind::Primary, span, None)])) });
        push_group(&mut groups, g0);
        let g1 = Group { level: Level::Note, title: { let mut t = "function has complexity ".to_owned(); t.append(decimal_string(complexity as u64).as_str()); t.append(" and the threshold is set to "); t.append(decimal_string(self.0.config.cyclomatic_complexity_threshold as u64).as_str()); t }, lint: None, element: None };
        assert(g1@ == note(Level::Note, "function has complexity "@ + decimal(complexity as nat) + " and the threshold is set to "@ + decimal(self.0.config.cyclomatic_complexity_threshold as nat)));
        push_group(&mut groups, g1);
        assert(groups_view(groups@) =~= seq![GroupView { level: severity_level(self.0.levels@[CYCLOMATIC_COMPLEXITY as int]), title: lint_message(CYCLOMATIC_COMPLEXITY)@, lint: Some(CYCLOMATIC_COMPLEXITY), element: Some(ElementView::Annotations(seq![ann(AnnotationKind::Primary, span, None)])) }] + (seq![note(Level::Note, "function has complexity "@ + decimal(complexity as nat) + " and the threshold is set to "@ + decimal(self.0.config.cyclomatic_complexity_threshold as nat))]));
        assert(groups_view(groups@) =~= (lint_diagnostic(self.0, CYCLOMATIC_COMPLEXITY, seq![ann(AnnotationKind::Primary, span, None)], seq![note(Level::Note, "function has complexity "@ + decimal(complexity as nat) + " and the threshold is set to "@ + decimal(self.0.config.cyclomatic_complexity_threshold as nat))])).groups);
        let r = Diagnostic { error: self.0.is_error(CYCLOMATIC_COMPLEXITY), groups };
        r
    }
}

impl<'a, 'b> RedundantParentheses<'a, 'b> {
    pub fn build(&self, span: Span, inner_span: Span) -> (r: Diagnostic)
        requires
            self.0.levels@.len() == LINT_COUNT,
            self.0.levels@[REDUNDANT_PARENTHESES as int] != Severity::Allow,
        ensures
            r@ == (lint_diagnostic(self.0, REDUNDANT_PARENTHESES, seq![ann(AnnotationKind::Primary, span, None)], seq![patches(Level::Help, "remove extra parentheses"@, seq![patch((Span { start: span.start, end: inner_span.start }), ""@), patch((Span { start: inner_span.end, end: span.end }), ""@)])])),
    {
        let mut groups: Vec<Group> = new_groups();
        let mut a0: Vec<Annotation> = new_anns();
        push_ann(&mut a0, Annotation { kind: AnnotationKind::Primary, span: span, label: None });
        assert(anns_view(a0@) =~= seq![ann(AnnotationKind::Primary, span, None)]);
        let g0 = self.0.main_group(REDUNDANT_PARENTHESES, Some(Element::Annotations(a0)));
        assert(g0@ == GroupView { level: severity_level(self.0.levels@[REDUNDANT_PARENTHESES as int]), title: lint_message(REDUNDANT_PARENTHESES)@, lint: Some(REDUNDANT_PARENTHESES), element: Some(ElementView::Annotations(seq![ann(AnnotationKind::Primary, span, None)])) });
        push_group(&mut groups, g0);
        let mut p1: Vec<Patch> = new_patches();
        push_patch(&mut p1, Patch { span: (Span { start: span.start, end: inner_span.start }), replacement: "".to_owned() });
        push_patch(&mut p1, Patch { span: (Span { start: inner_span.end, end: span.end }), replacement: "".to_owned() });
        assert(patches_view(p1@) =~= seq![patch((Span { start: span.start, end: inner_span.start }), ""@), patch((Span { start: inner_span.end, end: span.end }), ""@)]);
        let g1 = Group { level: Level::Help, title: "remove extra parentheses".to_owned(), lint: None, element: Some(Element::Patches(p1)) };
        assert(g1@ == patches(Level::Help, "remove extra parentheses"@, seq![patch((Span { start: span.start, end: inner_span.start }), ""@), patch((Span { start: inner_span.end, end: span.end }), ""@)]));
        push_group(&mut groups, g1);
        assert(groups_view(groups@) =~= seq![GroupView { level: severity_level(self.0.levels@[REDUNDANT_PARENTHESES as int]), title: lint_message(REDUNDANT_PARENTHESES)@, lint: Some(REDUNDANT_PARENTHESES), element: Some(ElementView::Annotations(seq![ann(AnnotationKind::Primary, span, None)])) }] + (seq![patches(Level::Help, "remove extra parentheses"@, seq![patch((Span { start: span.start, end: inner_span.start }), ""@), patch((Span { start: inner_span.end, end: span.end }), ""@)])]));
        assert(groups_view(groups@) =~= (lint_diagnostic(self.0, REDUNDANT_PARENTHESES, seq![ann(AnnotationKind::Primary, span, None)], seq![patches(Level::Help, "remove extra parentheses"@, seq![patch((Span { start: span.start, end: inner_span.start }), ""@), patch((Span { start: inner_span.end, end: span.end }), ""@)])])).groups);
        let r = Diagnostic { error: self.0.is_error(REDUNDANT_PARENTHESES), groups };
        r
    }
}

impl<'a, 'b> LineTooLong<'a, 'b> {
    pub fn build(&self, span: Span, length: usize) -> (r: Diagnostic)
        requires
            self.0.levels@.len() == LINT_COUNT,
            self.0.levels@[LINE_TOO_LONG as int] != Severity::Allow,
        ensures
            r@ == (lint_diagnostic(self.0, LINE_TOO_LONG, seq![ann(AnnotationKind::Primary, span, None)], seq![note(Level::Note, "line has "@ + decimal(length as nat) + " columns and the threshold is set to "@ + decimal(self.0.config.line_length_threshold as nat))])),
    {
        let mut groups: Vec<Group> = new_groups();
        let mut a0: Vec<Annotation> = new_anns();
        push_ann(&mut a0, Annotation { kind: AnnotationKind::Primary, span: span, label: None });
        assert(anns_view(a0@) =~= seq![ann(AnnotationKind::Primary, span, None)]);
        let g0 = self.0.main_group(LINE_TOO_LONG, Some(Element::Annotations(a0)));
        assert(g0@ == GroupView { level: severity_level(self.0.levels@[LINE_TOO_LONG as int]), title: lint_message(LINE_TOO_LONG)@, lint: Some(LINE_TOO_LONG), element: Some(ElementView::Annotations(seq![ann(AnnotationKind::Primary, span, None)])) });
        push_group(&mut groups, g0);
        let g1 = Group { level: Level::Note, title: { let mut t = "line has ".to_owned(); t.append(decimal_string(length as u64).as_str()); t.append(" columns and the threshold is set to "); t.append(decimal_string(self.0.config.line_length_threshold as u64).as_str()); t }, lint: None, element: None };
        assert(g1@ == note(Level::Note, "line has "@ + decimal(length as nat) + " columns and the threshold is set to "@ + decimal(self.0.config.line_length_threshold as nat)));
        push_group(&mut groups, g1);
        assert(groups_view(groups@) =~= seq![GroupView { level: severity_level(self.0.levels@[LINE_TOO_LONG as int]), title: lint_message(LINE_TOO_LONG)@, lint: Some(LINE_TOO_LONG), element: Some(ElementView::Annotations(seq![ann(AnnotationKind::Primary, span, None)])) }] + (seq![note(Level::Note, "line has "@ + decimal(length as nat) + " columns and the threshold is set to "@ + decimal(self.0.config.line_length_threshold as nat))]));
        assert(groups_view(groups@) =~= (lint_diagnostic(self.0, LINE_TOO_LONG, seq![ann(AnnotationKind::Primary, span, None)], seq![note(Level::Note, "line has "@ + decimal(length as nat) + " columns and the threshold is set to "@ + decimal(self.0.config.line_length_threshold as nat))])).groups);
        let r = Diagnostic { error: self.0.is_error(LINE_TOO_LONG), groups };
        r
    }
}

impl<'a, 'b> InconsistentIndentation<'a, 'b> {
    pub fn build(&self, tab_spans: &Vec<Span>, space_spans: &Vec<Span>) -> (r: Diagnostic)
        requires
            self.0.levels@.len() == LINT_COUNT,
            self.0.levels@[INCONSISTENT_INDENTATION as int] != Severity::Allow,
        ensures
            r@ == (lint_diagnostic(self.0, INCONSISTENT_INDENTATION, counted_spans_annotations(tab_spans@, AnnotationKind::Primary, "tab"@) + counted_spans_annotations(space_spans@, AnnotationKind::Context, "space"@), Seq::<GroupView>::empty())),
    {
        let mut groups: Vec<Group> = new_groups();
        let mut a0: Vec<Annotation> = new_anns();
        push_counted_spans(&mut a0, tab_spans, AnnotationKind::Primary, "tab");
        push_counted_spans(&mut a0, space_spans, AnnotationKind::Context, "space");
        assert(anns_view(a0@) =~= counted_spans_annotations(tab_spans@, AnnotationKind::Primary, "tab"@) + counted_spans_annotations(space_spans@, AnnotationKind::Context, "space"@));
        let g0 = self.0.main_group(INCONSISTENT_INDENTATION, Some(Element::Annotations(a0)));
        assert(g0@ == GroupView { level: severity_level(self.0.levels@[INCONSISTENT_INDENTATION as int]), title: lint_message(INCONSISTENT_INDENTATION)@, lint: Some(INCONSISTENT_INDENTATION), element: Some(ElementView::Annotations(counted_spans_annotations(tab_spans@, AnnotationKind::Primary, "tab"@) + counted_spans_annotations(space_spans@, AnnotationKind::Context, "space"@))) });
        push_group(&mut groups, g0);
        assert(groups_view(groups@) =~= seq![GroupView { level: severity_level(self.0.levels@[INCONSISTENT_INDENTATION as int]), title: lint_message(INCONSISTENT_INDENTATION)@, lint: Some(INCONSISTENT_INDENTATION), element: Some(ElementView::Annotations(counted_spans_annotations(tab_spans@, AnnotationKind::Primary, "tab"@) + counted_spans_annotations(space_spans@, AnnotationKind::Context, "space"@))) }] + (Seq::<GroupView>::empty()));
        assert(groups_view(groups@) =~= (lint_diagnostic(self.0, INCONSISTENT_INDENTATION, counted_spans_annotations(tab_spans@, AnnotationKind::Primary, "tab"@) + counted_spans_annotations(space_spans@, AnnotationKind::Context, "space"@), Seq::<GroupView>::empty())).groups);
        let r = Diagnostic { error: self.0.is_error(INCONSISTENT_INDENTATION), groups };
        r
    }
}

} // verus!
