//! Semantic analysis: scopes, name resolution and the lints that need them.
use crate::ast::{
    after, bytes_eq, close_bytes, const_bytes, lemma_first_token_of, relational_tokens, AstNode,
    Attname, Attrib, Block, Chunk, Decfloatexp, Decintexp, Exp, Field, Funcname, Hexfloatexp,
    Loopvar, Par, Pars, Stat, Binexp, first_token_of, Unaryexp, Callexp, Args, unary_tokens,
    line_break_before, prev_ref, seq_get, ElifBranch, ElseBranch, Ifstat, Emptystat, Localvarstat, Globalvarstat, Assignstat, NumericForstat, GenericForstat,
};
use crate::cfg::{reachable, stats_step, BasicBlock, CfgBuilder, ControlFlowGraph};
use crate::config::lookup_global;
use crate::lexer::Token;
use crate::lints::{
    ann, annotated, decimal, lint_diagnostic, note, reported, AlmostSwap, ApproxPi, BoolCompare, EmptyBlock,
    EmptyStatement, ErrorProneNegation, HexIntOverflow, InexactHexFloat, LowerCaseGlobal,
    NextLineArgs, OctalConfusion, RedefinedLocal, RedundantLocal, RedundantParentheses,
    RoundsIntPart, RoundsToInf, ShadowingLocal, TooManyLines, TooManyParameters,
    UnbalancedAssignment, UnbalancedInitialization, UnnecessaryNegation, UnreachableCode,
    UsedDespiteUnusedHint, CyclomaticComplexity, spans_annotations, LINT_COUNT, TOO_MANY_LINES, BOOL_COMPARE,
    UNREACHABLE_CODE, CYCLOMATIC_COMPLEXITY, lemma_annotations_within, lemma_lint_diagnostic_within,
    lemma_annotations_concat_within, labeled_spans_annotations, lemma_unbalanced_within,
    UNBALANCED_ASSIGNMENT, UNBALANCED_INITIALIZATION, patch, patches, signed_decimal, APPROX_PI,
    HEX_INT_OVERFLOW, INEXACT_HEX_FLOAT, OCTAL_CONFUSION, ROUNDS_INT_PART, ROUNDS_TO_INF, span_within,
    unbalanced_diagnostic, ERROR_PRONE_NEGATION, LOWER_CASE_GLOBAL, USED_DESPITE_UNUSED_HINT, REDEFINED_LOCAL, SHADOWING_LOCAL, EMPTY_BLOCK, TOO_MANY_PARAMETERS, EMPTY_STATEMENT,
    REDUNDANT_PARENTHESES, UNNECESSARY_NEGATION, NEXT_LINE_ARGS, inverse_operator_text, ALMOST_SWAP, swap_replacement,
};
use crate::parser::{AnnotationKind, Cst, Diagnostic, DiagnosticContext, DiagnosticView, ElementView, Level, NodeRef, Severity, Span};
use crate::scopes::{
    declared_kept, scope_reports, lemma_declared_kept_trans, lemma_declared_kept_prefix, lemma_pop_declared_kept, diagnostics_view, global_below, label_below, varargs_below, is_underscore, lookup_var, underscore_prefixed, GlobalState, Local, NameMap, Scope,
    Scopes, Variable, lemma_lookup_var_other,
};
use std::collections::HashMap;
use vstd::prelude::*;

verus! {

broadcast use {vstd::std_specs::hash::group_hash_axioms, crate::ast::lemma_child_token_span, crate::ast::lemma_child_tokens_span};

/// A map from syntax nodes to syntax nodes.
pub struct NodeMap {
    map: HashMap<usize, usize>,
}

impl View for NodeMap {
    type V = Map<usize, usize>;

    closed spec fn view(&self) -> Map<usize, usize> {
        self.map@
    }
}

impl NodeMap {
    pub fn new() -> (r: NodeMap)
        ensures
            r@ == Map::<usize, usize>::empty(),
    {
        NodeMap { map: HashMap::new() }
    }

    /// Binds `key` to `value`, replacing an earlier binding of `key`.
    pub fn insert(&mut self, key: NodeRef, value: NodeRef)
        ensures
            final(self)@ == old(self)@.insert(key.0, value.0),
    {
        self.map.insert(key.0, value.0);
    }

    /// The node bound to `key`.
    pub fn get(&self, key: NodeRef) -> (r: Option<NodeRef>)
        ensures
            r is Some <==> self@.contains_key(key.0),
            r matches Some(v) ==> v.0 == self@[key.0],
    {
        match self.map.get(&key.0) {
            Some(v) => Some(NodeRef(*v)),
            None => None,
        }
    }
}

/// A set of Lua value types, one bit per type.
#[derive(Debug, PartialEq, Eq, Clone, Copy, Structural)]
pub struct TypeSet(pub u16);

impl TypeSet {
    /// No type.
    pub fn empty() -> (r: TypeSet)
        ensures
            r.0 == 0,
    {
        TypeSet(0)
    }

    pub fn nil() -> (r: TypeSet)
        ensures
            r.0 == 1,
    {
        TypeSet(1)
    }

    pub fn integer() -> (r: TypeSet)
        ensures
            r.0 == 2,
    {
        TypeSet(2)
    }

    pub fn float() -> (r: TypeSet)
        ensures
            r.0 == 4,
    {
        TypeSet(4)
    }

    pub fn boolean() -> (r: TypeSet)
        ensures
            r.0 == 8,
    {
        TypeSet(8)
    }

    pub fn string() -> (r: TypeSet)
        ensures
            r.0 == 16,
    {
        TypeSet(16)
    }

    pub fn function() -> (r: TypeSet)
        ensures
            r.0 == 32,
    {
        TypeSet(32)
    }

    pub fn table() -> (r: TypeSet)
        ensures
            r.0 == 64,
    {
        TypeSet(64)
    }

    /// The types in either set.
    pub fn union(self, rhs: TypeSet) -> (r: TypeSet)
        ensures
            r.0 == self.0 | rhs.0,
    {
        TypeSet(self.0 | rhs.0)
    }

    /// The types in both sets.
    pub fn intersection(self, rhs: TypeSet) -> (r: TypeSet)
        ensures
            r.0 == self.0 & rhs.0,
    {
        TypeSet(self.0 & rhs.0)
    }
}

/// Union of type sets is commutative and associative, and the empty set is its identity.
pub proof fn lemma_typeset_union(a: TypeSet, b: TypeSet, c: TypeSet)
    ensures
        a.0 | b.0 == b.0 | a.0,
        (a.0 | b.0) | c.0 == a.0 | (b.0 | c.0),
        a.0 | 0u16 == a.0,
        a.0 | a.0 == a.0,
{
    let (x, y, z) = (a.0, b.0, c.0);
    assert(x | y == y | x) by (bit_vector);
    assert((x | y) | z == x | (y | z)) by (bit_vector);
    assert(x | 0u16 == x) by (bit_vector);
    assert(x | x == x) by (bit_vector);
}

/// Intersection of type sets is commutative, and a set meets its union with another set in
/// itself.
pub proof fn lemma_typeset_intersection(a: TypeSet, b: TypeSet)
    ensures
        a.0 & b.0 == b.0 & a.0,
        a.0 & (a.0 | b.0) == a.0,
        a.0 & 0u16 == 0u16,
{
    let (x, y) = (a.0, b.0);
    assert(x & y == y & x) by (bit_vector);
    assert(x & (x | y) == x) by (bit_vector);
    assert(x & 0u16 == 0u16) by (bit_vector);
}

/// What semantic analysis learns about names and jumps.
pub struct SemanticData {
    /// Binds uses of names to their declarations, and `goto` statements to their labels.
    pub decl_bindings: NodeMap,
    /// Binds `break` statements to the loops they leave.
    pub break_bindings: NodeMap,
}

impl SemanticData {
    pub fn new() -> (r: SemanticData)
        ensures
            r.decl_bindings@ == Map::<usize, usize>::empty(),
            r.break_bindings@ == Map::<usize, usize>::empty(),
    {
        SemanticData { decl_bindings: NodeMap::new(), break_bindings: NodeMap::new() }
    }
}


/// Every value bound by `m` lies below `n`.
pub open spec fn node_map_below(m: Map<usize, usize>, n: int) -> bool {
    forall|k: usize| #[trigger] m.contains_key(k) ==> m[k] < n
}

/// The number of bytes `b` in `s`.
pub open spec fn count_byte(s: Seq<u8>, b: u8) -> nat
    decreases s.len(),
{
    if s.len() == 0 {
        0
    } else {
        count_byte(s.drop_last(), b) + if s.last() == b { 1nat } else { 0nat }
    }
}

/// The number of line feeds in `s`.
pub fn count_line_feeds(s: &[u8]) -> (r: usize)
    ensures
        r == count_byte(s@, 10u8),
{
    let mut r: usize = 0;
    let mut i: usize = 0;
    while i < s.len()
        invariant
            i <= s@.len(),
            r == count_byte(s@.subrange(0, i as int), 10u8),
            r <= i,
        decreases s@.len() - i,
    {
        assert(s@.subrange(0, i + 1).drop_last() =~= s@.subrange(0, i as int));
        if s[i] == 10u8 {
            r = r + 1;
        }
        i = i + 1;
    }
    assert(s@.subrange(0, s@.len() as int) =~= s@);
    r
}

/// Whether the name starts with a lower-case letter.
pub fn lower_case_start(name: &[u8]) -> (r: bool)
    ensures
        r == (name@.len() > 0 && 97u8 <= name@[0] <= 122u8),
{
    name.len() > 0 && 97u8 <= name[0] && name[0] <= 122u8
}

/// Whether the name is `_G` or `_ENV`.
pub fn is_environment_name(name: &[u8]) -> (r: bool)
    ensures
        r == (name@ == seq![95u8, 71u8] || name@ == seq![95u8, 69u8, 78u8, 86u8]),
{
    let g = vec![95u8, 71u8];
    let env = vec![95u8, 69u8, 78u8, 86u8];
    bytes_eq(name, g.as_slice()) || bytes_eq(name, env.as_slice())
}

/// Whether the name is `_ENV`.
pub fn is_env(name: &[u8]) -> (r: bool)
    ensures
        r == (name@ == seq![95u8, 69u8, 78u8, 86u8]),
{
    let env = vec![95u8, 69u8, 78u8, 86u8];
    bytes_eq(name, env.as_slice())
}

/// What the platform's floating-point arithmetic makes of a decimal numeral.
pub struct NumberFact {
    /// The value rounds to infinity.
    pub infinite: bool,
    /// The integer digits of the value printed with 17 decimals.
    pub int_part: Vec<u8>,
    /// The value as printed for a reader.
    pub value_text: String,
    /// The value lies within 0.001 of π.
    pub near_pi: bool,
}

/// Whether `hexf-parse` reads the text as an `f64`: a hexadecimal float whose value an `f64`
/// holds exactly.
pub uninterp spec fn hexf64_parses(text: Seq<u8>) -> bool;

/// `hexf_parse::parse_hexf64(text, false)` on the text read as UTF-8, which changes nothing
/// for the ASCII of a numeral: whether it returns a value rather than an error. The result
/// is a function of the text alone.
#[verifier::external_body]
fn parse_hexf64_ok(text: &[u8]) -> (r: bool)
    ensures
        r == hexf64_parses(text@),
{
    hexf_parse::parse_hexf64(&String::from_utf8_lossy(text), false).is_ok()
}

/// A hexadecimal float numeral with its binary exponent: `p0` is appended when it has none.
pub open spec fn with_binary_exponent(s: Seq<u8>) -> Seq<u8> {
    if s.contains(112u8) || s.contains(80u8) {
        s
    } else {
        s + seq![112u8, 48u8]
    }
}

/// Whether a hexadecimal float numeral denotes its value exactly as an `f64`.
pub fn hex_float_exact(num: &[u8]) -> (r: bool)
    ensures
        r == hexf64_parses(with_binary_exponent(num@)),
{
    let mut i: usize = 0;
    while i < num.len()
        invariant
            i <= num@.len(),
            forall|k: int| 0 <= k < i ==> num@[k] != 112u8 && num@[k] != 80u8,
        decreases num@.len() - i,
    {
        if num[i] == 112u8 || num[i] == 80u8 {
            assert(num@.contains(num@[i as int]));
            return parse_hexf64_ok(num);
        }
        i = i + 1;
    }
    let mut text = vstd::slice::slice_to_vec(num);
    text.push(112u8);
    text.push(48u8);
    assert(text@ =~= num@ + seq![112u8, 48u8]);
    parse_hexf64_ok(text.as_slice())
}

/// The locals that a block binds before its statements, besides its parameters.
pub enum BlockLocals {
    Nothing,
    /// The implicit `self` of a method, declared by the function name.
    SelfParam(Funcname),
    /// The variable of a numeric `for` loop, read-only when the flag is set.
    Loopvar(Loopvar, bool),
    /// The variables of a generic `for` loop, the first read-only when the flag is set.
    Loopvars(Vec<Loopvar>, bool),
}

/// The report of an assignment at `span` to the read-only variable declared at `decl_span`.
pub open spec fn write_const_report(span: Span, decl_span: Span, loopvar: bool) -> DiagnosticView {
    DiagnosticView {
        error: true,
        groups: seq![annotated(Level::Error, "attempt to assign to read-only variable"@, seq![ann(AnnotationKind::Primary, span, None), ann(AnnotationKind::Context, decl_span, Some("defined as read-only here"@))])] + (if loopvar {
            seq![note(Level::Note, "since Lua 5.5 for-loop variables are read-only"@)]
        } else {
            Seq::empty()
        }),
    }
}

/// Whether a read of the local `l` named `name` goes against the underscore prefix that marks
/// it unused: a parameter, or a local or loop variable where the configuration reads the
/// prefix so.
pub open spec fn against_unused_hint(ctx: &DiagnosticContext, cst: &Cst, l: Local, name: Seq<u8>) -> bool {
    &&& (Par::spec_cast(cst, l.decl) is Some || (Attname::spec_cast(cst, l.decl) is Some && ctx.config.allow_local_unused_hint)
        || (Loopvar::spec_cast(cst, l.decl) is Some && ctx.config.allow_loopvar_unused_hint))
    &&& !(name == seq![95u8, 71u8] || name == seq![95u8, 69u8, 78u8, 86u8])
    &&& name.len() > 0 && name[0] == 95u8
}

/// The reports of the use of `name` at `name_span` under the scopes `scopes`: an assignment
/// (`lhs`) to a read-only variable, a read of a local against its unused hint, and for a
/// global, a use that an explicit global declaration forbids or a lower-case name that the
/// configuration does not list; `sub` tells whether the use is part of a larger expression.
pub open spec fn name_reports(ctx: &DiagnosticContext, cst: &Cst, scopes: Seq<Scope>, name: Seq<u8>, name_span: Span, lhs: bool, sub: bool) -> Seq<DiagnosticView> {
    match lookup_var(scopes, name) {
        Some((Variable::Local(l), _)) => (if lhs && l.constant {
            seq![write_const_report(name_span, cst.node_span(l.decl), Loopvar::spec_cast(cst, l.decl) is Some)]
        } else {
            Seq::empty()
        }) + (if ctx.levels@[USED_DESPITE_UNUSED_HINT as int] != Severity::Allow && !lhs && against_unused_hint(ctx, cst, l, name) {
            seq![lint_diagnostic(ctx, USED_DESPITE_UNUSED_HINT, seq![ann(AnnotationKind::Primary, name_span, None), ann(AnnotationKind::Context, cst.node_span(l.decl), Some("declared here"@))], seq![note(Level::Help, "remove the underscore prefix in the name"@)])]
        } else {
            Seq::empty()
        }),
        Some((Variable::Global(g), _)) => if lhs && g.constant {
            seq![write_const_report(name_span, cst.node_span(g.decl), false)]
        } else {
            Seq::empty()
        },
        Some((Variable::Vararg(_), _)) => Seq::empty(),
        None => match global_below(scopes, scopes.len() as int) {
            Some(d) => if name != seq![95u8, 69u8, 78u8, 86u8] {
                seq![DiagnosticView {
                    error: true,
                    groups: seq![annotated(Level::Error, "global variable was not declared"@, seq![ann(AnnotationKind::Primary, name_span, None), ann(AnnotationKind::Context, cst.node_span(d), Some("global declaration in surrounding scope"@))])] + seq![note(Level::Note, "explicit globals prevent use of implicit globals"@)],
                }]
            } else {
                Seq::empty()
            },
            None => if ctx.levels@[LOWER_CASE_GLOBAL as int] != Severity::Allow && name.len() > 0 && 97u8 <= name[0] <= 122u8
                && lookup_global(ctx.config.globals@, name) is None {
                seq![lint_diagnostic(ctx, LOWER_CASE_GLOBAL, seq![ann(AnnotationKind::Primary, name_span, if !sub { Some("did you miss a `local` or misspell it?"@) } else { None })], seq![note(Level::Help, "start name with upper-case letter"@)] + seq![note(Level::Help, "mark variable as global in yutu.toml"@)])]
            } else {
                Seq::empty()
            },
        },
    }
}

/// The reports of a local named `name` declared at `span` under the scopes `scopes`: one that
/// redefines a local of the innermost scope, or that shadows a local of an enclosing scope;
/// a local named `_` is never reported.
pub open spec fn local_binding_reports(ctx: &DiagnosticContext, cst: &Cst, scopes: Seq<Scope>, name: Seq<u8>, span: Span) -> Seq<DiagnosticView> {
    match lookup_var(scopes, name) {
        Some((Variable::Local(l), same_scope)) => if name == seq![95u8] {
            Seq::empty()
        } else if same_scope {
            if ctx.levels@[REDEFINED_LOCAL as int] != Severity::Allow {
                seq![lint_diagnostic(ctx, REDEFINED_LOCAL, seq![ann(AnnotationKind::Primary, span, None), ann(AnnotationKind::Context, cst.node_span(l.decl), Some("previous definition in same scope"@))], (if Funcname::spec_cast(cst, l.decl) is Some {
                    seq![note(Level::Note, "methods define an implicit `self` parameter"@)]
                } else {
                    Seq::empty()
                }))]
            } else {
                Seq::empty()
            }
        } else if ctx.levels@[SHADOWING_LOCAL as int] != Severity::Allow {
            seq![lint_diagnostic(ctx, SHADOWING_LOCAL, seq![ann(AnnotationKind::Primary, span, None), ann(AnnotationKind::Context, cst.node_span(l.decl), Some("previous definition in outer scope"@))], Seq::empty())]
        } else {
            Seq::empty()
        },
        _ => Seq::empty(),
    }
}

/// The name of the loop variable `v`, if it has one.
pub open spec fn loopvar_name(cst: &Cst, v: Loopvar) -> Option<Seq<u8>> {
    match cst.spec_child_token(v.syntax, Token::Name) {
        Some(t) => Some(cst.text(cst.node_span(t))),
        None => None,
    }
}

/// Whether a loop variable of `vs` after index `k` and before `end` has the name of `vs[k]`.
pub open spec fn named_after(cst: &Cst, vs: Seq<Loopvar>, k: int, end: int) -> bool {
    exists|j: int| k < j < end && #[trigger] loopvar_name(cst, vs[j]) == loopvar_name(cst, vs[k])
}

/// Whether statement `j` of `stats` is an empty statement that follows another one.
pub open spec fn empty_after_empty(stats: Seq<Stat>, j: int) -> bool {
    1 <= j < stats.len() && stats[j - 1] is Emptystat && stats[j] is Emptystat
}

/// Whether some diagnostic of `diags` from index `from` on reports the empty statement
/// `stat` under `ctx`.
pub open spec fn empty_statement_reported(ctx: &DiagnosticContext, cst: &Cst, stat: Stat, diags: Seq<Diagnostic>, from: int) -> bool {
    exists|k: int| from <= k < diags.len() && #[trigger] diags[k]@ == lint_diagnostic(
        ctx,
        EMPTY_STATEMENT,
        seq![ann(AnnotationKind::Primary, cst.node_span(stat.spec_syntax()), None)],
        Seq::empty(),
    )
}

/// The spans of the expressions `exps`.
pub open spec fn exp_spans(cst: &Cst, exps: Seq<Exp>) -> Seq<Span> {
    exps.map_values(|e: Exp| cst.node_span(e.spec_syntax()))
}

/// The spans of the names of the first `k` declared names `names` that have one.
pub open spec fn attname_spans(cst: &Cst, names: Seq<Attname>, k: int) -> Seq<Span>
    decreases k,
{
    if k <= 0 {
        Seq::empty()
    } else {
        attname_spans(cst, names, k - 1) + match cst.spec_child_token(names[k - 1].syntax, Token::Name) {
            Some(n) => seq![cst.node_span(n)],
            None => Seq::empty(),
        }
    }
}

/// The report of lint `lint` on a statement that assigns the values `rhs`, at `rhs_spans`, to
/// the targets at `lhs_spans`, with its `=` token `equal`: where the lint is not allowed and
/// both sides are there but differ in length, unless the right side is shorter and ends in a
/// call or `...`, which may give the missing values.
pub open spec fn unbalanced_reports(
    ctx: &DiagnosticContext,
    cst: &Cst,
    lint: usize,
    lhs_spans: Seq<Span>,
    rhs: Seq<Exp>,
    equal: Option<NodeRef>,
    lhs_item: Seq<char>,
    lhs_word: Seq<char>,
) -> Seq<DiagnosticView> {
    let rhs_spans = exp_spans(cst, rhs);
    let multi = rhs.len() > 0 && (rhs.last() is Callexp || rhs.last() is Varargexp);
    if ctx.levels@[lint as int] != Severity::Allow && lhs_spans.len() > 0 && rhs.len() > 0
        && ((lhs_spans.len() > rhs.len() && !multi) || lhs_spans.len() < rhs.len()) && equal is Some {
        seq![unbalanced_diagnostic(ctx, lint, lhs_spans, rhs_spans, cst.node_span(equal->0), lhs_item, lhs_word)]
    } else {
        Seq::empty()
    }
}

/// The diagnostics `new` are `old` followed by reports under `ctx` and then by `tail`.
pub open spec fn ends_with_reports(ctx: &DiagnosticContext, len: int, old: Seq<Diagnostic>, new: Seq<Diagnostic>, tail: Seq<DiagnosticView>) -> bool {
    exists|mid: Seq<Diagnostic>| #[trigger] reported(ctx, len, old, mid) && diagnostics_view(new) == diagnostics_view(mid) + tail
}

/// The report of the comparison `be` whose left operand is a negation `not x` and whose
/// right operand is not one, where the lint is not allowed: `not` binds tighter than the
/// comparison, which the reader may not expect. `None` for any other expression.
pub open spec fn error_prone_negation_report(ctx: &DiagnosticContext, cst: &Cst, be: Binexp) -> Option<DiagnosticView> {
    let ops = cst.spec_child_nodes::<Exp>(be.syntax);
    let rel = first_token_of(cst, cst.spec_children(be.syntax), relational_tokens());
    if ctx.levels@[ERROR_PRONE_NEGATION as int] != Severity::Allow && ops.len() >= 2 && rel is Some
        && !(ops[1] matches Exp::Unaryexp(u) && cst.spec_child_token(u.syntax, Token::Not) is Some) {
        match ops[0] {
            Exp::Unaryexp(operand) => match (cst.spec_child_token(operand.syntax, Token::Not), cst.spec_child_node::<Exp>(operand.syntax)) {
                (Some(_), Some(x)) => {
                    let un_span = cst.node_span(x.spec_syntax());
                    let op_span = cst.node_span(operand.syntax);
                    let bin_span = cst.node_span(be.syntax);
                    let bin_op_span = cst.node_span(rel->0);
                    Some(lint_diagnostic(ctx, ERROR_PRONE_NEGATION, seq![ann(AnnotationKind::Primary, op_span, None), ann(AnnotationKind::Context, bin_op_span, Some("for this relational operator"@))], seq![patches(Level::Help, "use parentheses to clarify your intent"@, seq![patch((Span { start: op_span.start, end: op_span.start }), "("@), patch((Span { start: op_span.end, end: op_span.end }), ")"@)])] + seq![patches(Level::Help, "invert the result of the relational operation"@, seq![patch((Span { start: un_span.start, end: un_span.start }), "("@), patch((Span { start: bin_span.end, end: bin_span.end }), ")"@)])]))
                },
                _ => None,
            },
            _ => None,
        }
    } else {
        None
    }
}

/// The `bool-compare` diagnostic on the comparison at `span`, whose operand other than the
/// literal is at `kept`: the fix removes the literal and the operator, and negates the kept
/// operand (in parentheses if it is a binary expression) where `inverse` says so.
pub open spec fn bool_compare_view(ctx: &DiagnosticContext, span: Span, kept: Span, inverse: bool, kept_is_bin: bool) -> DiagnosticView {
    lint_diagnostic(ctx, BOOL_COMPARE, seq![ann(AnnotationKind::Primary, span, None)], seq![patches(Level::Help, "remove the comparison"@, seq![
        patch((Span { start: span.start, end: span.start }), (if inverse { if kept_is_bin { "not ("@ } else { "not "@ } } else { ""@ })),
        patch((if span.start == kept.start { (Span { start: kept.end, end: span.end }) } else { (Span { start: span.start, end: kept.start }) }), ""@),
        patch((Span { start: span.end, end: span.end }), (if inverse && kept_is_bin { ")"@ } else { ""@ })),
    ])])
}

/// The report of `bool-compare` on the binary expression `be`, whose operands have the types
/// `lhs_ty` and `rhs_ty`, if it gives one: an `==` or `~=` between a literal `true` or
/// `false` and a boolean, tried with the literal on the left first.
pub open spec fn bool_compare_report(ctx: &DiagnosticContext, cst: &Cst, be: Binexp, lhs_ty: TypeSet, rhs_ty: TypeSet) -> Option<DiagnosticView> {
    let ops = cst.spec_child_nodes::<Exp>(be.syntax);
    let rel = first_token_of(cst, cst.spec_children(be.syntax), relational_tokens());
    if ctx.levels@[BOOL_COMPARE as int] != Severity::Allow && ops.len() >= 2 && rel is Some
        && (cst.token_at(rel->0) == Some(Token::EqualEqual) || cst.token_at(rel->0) == Some(Token::TildeEqual)) {
        let not_equal = cst.token_at(rel->0) == Some(Token::TildeEqual);
        let span = cst.node_span(be.syntax);
        let l = ops[0];
        let r = ops[1];
        if l is Trueexp && rhs_ty == TypeSet(8) {
            Some(bool_compare_view(ctx, span, cst.node_span(r.spec_syntax()), not_equal, r is Binexp))
        } else if l is Falseexp && rhs_ty == TypeSet(8) {
            Some(bool_compare_view(ctx, span, cst.node_span(r.spec_syntax()), !not_equal, r is Binexp))
        } else if r is Trueexp && lhs_ty == TypeSet(8) {
            Some(bool_compare_view(ctx, span, cst.node_span(l.spec_syntax()), not_equal, l is Binexp))
        } else if r is Falseexp && lhs_ty == TypeSet(8) {
            Some(bool_compare_view(ctx, span, cst.node_span(l.spec_syntax()), !not_equal, l is Binexp))
        } else {
            None
        }
    } else {
        None
    }
}

/// Comparing a boolean with a literal `true` or `false` by `==` or `~=` is reported as
/// `bool-compare`, whichever side the literal stands on. Where the lint is on and the
/// comparison has both operands, a report comes exactly when one operand is such a literal
/// and the other has the boolean type alone; it annotates the whole comparison, keeps the
/// other operand, and negates it exactly when the comparison asks for `true` by `~=` or for
/// `false` by `==`. No other binary expression is reported.
pub proof fn lemma_bool_compare_law(ctx: &DiagnosticContext, cst: &Cst, be: Binexp, lhs_ty: TypeSet, rhs_ty: TypeSet)
    ensures
        ({
            let ops = cst.spec_child_nodes::<Exp>(be.syntax);
            let rel = first_token_of(cst, cst.spec_children(be.syntax), relational_tokens());
            let compares = ctx.levels@[BOOL_COMPARE as int] != Severity::Allow && ops.len() >= 2 && rel is Some
                && (cst.token_at(rel->0) == Some(Token::EqualEqual) || cst.token_at(rel->0) == Some(Token::TildeEqual));
            let left_literal = (ops[0] is Trueexp || ops[0] is Falseexp) && rhs_ty == TypeSet(8);
            let right_literal = (ops[1] is Trueexp || ops[1] is Falseexp) && lhs_ty == TypeSet(8);
            let literal = if left_literal { ops[0] } else { ops[1] };
            let kept = if left_literal { ops[1] } else { ops[0] };
            &&& (bool_compare_report(ctx, cst, be, lhs_ty, rhs_ty) is Some <==> compares && (left_literal || right_literal))
            &&& bool_compare_report(ctx, cst, be, lhs_ty, rhs_ty) matches Some(d) ==> {
                &&& d.groups[0].lint == Some(BOOL_COMPARE)
                &&& d.groups[0].element == Some(ElementView::Annotations(seq![ann(AnnotationKind::Primary, cst.node_span(be.syntax), None)]))
                &&& d.groups[1].element matches Some(ElementView::Patches(ps)) && {
                    let span = cst.node_span(be.syntax);
                    let k = cst.node_span(kept.spec_syntax());
                    &&& ps[1].span == (if span.start == k.start { Span { start: k.end, end: span.end } } else { Span { start: span.start, end: k.start } })
                    &&& (ps[0].replacement.len() > 0 <==> ((literal is Trueexp) == (cst.token_at(rel->0) == Some(Token::TildeEqual))))
                }
            }
        }),
{
    reveal_strlit("not (");
    reveal_strlit("not ");
    reveal_strlit("");
}

/// The report of `unnecessary-negation` on the unary expression `u`, if it gives one: `not`
/// applied to a comparison in parentheses, which the inverse comparison can replace.
pub open spec fn unnecessary_negation_report(ctx: &DiagnosticContext, cst: &Cst, u: Unaryexp) -> Option<DiagnosticView> {
    let op = first_token_of(cst, cst.spec_children(u.syntax), unary_tokens());
    if ctx.levels@[UNNECESSARY_NEGATION as int] != Severity::Allow && op is Some
        && cst.spec_child_token(u.syntax, Token::Not) is Some {
        match cst.spec_child_node::<Exp>(u.syntax) {
            Some(Exp::Parenexp(p)) => match cst.spec_child_node::<Exp>(p.syntax) {
                Some(Exp::Binexp(be)) => match first_token_of(cst, cst.spec_children(be.syntax), relational_tokens()) {
                    Some(rel) => {
                        let op_span = cst.node_span(op->0);
                        let bin_op_span = cst.node_span(rel);
                        let compared_span = cst.node_span(be.syntax);
                        let paren_span = cst.node_span(p.syntax);
                        Some(lint_diagnostic(ctx, UNNECESSARY_NEGATION, seq![ann(AnnotationKind::Primary, op_span, None), ann(AnnotationKind::Context, bin_op_span, Some("for this relational operator"@))], seq![patches(Level::Help, "use the inverse relational operator instead"@, seq![patch(bin_op_span, inverse_operator_text(cst.token_at(rel)->0)), patch((Span { start: op_span.start, end: compared_span.start }), ""@), patch((Span { start: compared_span.end, end: paren_span.end }), ""@)])]))
                    },
                    None => None,
                },
                _ => None,
            },
            _ => None,
        }
    } else {
        None
    }
}

/// The report of `next-line-args` on the call `c`, if it gives one: its arguments start on
/// a line after the function it calls.
pub open spec fn next_line_args_report(ctx: &DiagnosticContext, cst: &Cst, c: Callexp) -> Option<DiagnosticView> {
    match (cst.spec_child_node::<Exp>(c.syntax), cst.spec_child_node::<Args>(c.syntax)) {
        (Some(base), Some(args)) => if ctx.levels@[NEXT_LINE_ARGS as int] != Severity::Allow
            && line_break_before(cst, prev_ref(args.spec_syntax())) {
            let span = cst.node_span(args.spec_syntax());
            Some(lint_diagnostic(ctx, NEXT_LINE_ARGS, seq![ann(AnnotationKind::Primary, span, None), ann(AnnotationKind::Context, cst.node_span(base.spec_syntax()), Some("for call to this function"@))], seq![patches(Level::Help, "add a semicolon if this was not intended to be a function call"@, seq![patch((Span { start: span.start, end: span.start }), ";"@)])]))
        } else {
            None
        },
        _ => None,
    }
}

/// The report of `too-many-parameters` on the parameter list `p`: one where the lint is not
/// allowed and the parameters outnumber the threshold, none otherwise.
pub open spec fn par_reports(ctx: &DiagnosticContext, cst: &Cst, p: Pars) -> Seq<DiagnosticView> {
    let count = cst.spec_child_nodes::<Par>(p.syntax).len();
    if ctx.levels@[TOO_MANY_PARAMETERS as int] != Severity::Allow && count > ctx.config.parameter_threshold {
        seq![lint_diagnostic(
            ctx,
            TOO_MANY_PARAMETERS,
            seq![ann(AnnotationKind::Primary, cst.node_span(p.syntax), None)],
            seq![note(Level::Note, "there are "@ + decimal(count) + " parameters and the threshold is set to "@ + decimal(ctx.config.parameter_threshold as nat))],
        )]
    } else {
        Seq::empty()
    }
}

/// The name that the declared name `a` gives, if any.
pub open spec fn attname_name(cst: &Cst, a: Attname) -> Option<Seq<u8>> {
    match cst.spec_child_token(a.syntax, Token::Name) {
        Some(n) => Some(cst.text(cst.node_span(n))),
        None => None,
    }
}

/// The name of the parameter `p`, if any.
pub open spec fn par_name(cst: &Cst, p: Par) -> Option<Seq<u8>> {
    match cst.spec_child_token(p.syntax, Token::Name) {
        Some(n) => Some(cst.text(cst.node_span(n))),
        None => None,
    }
}

/// The scope `s` binds the name of each parameter of `pars`.
pub open spec fn pars_declared(cst: &Cst, pars: Option<Pars>, s: Scope) -> bool {
    match pars {
        Some(p) => forall|k: int| 0 <= k < cst.spec_child_nodes::<Par>(p.syntax).len() ==> match par_name(cst, #[trigger] cst.spec_child_nodes::<Par>(p.syntax)[k]) {
            Some(n) => s.vars.map().contains_key(n),
            None => true,
        },
        None => true,
    }
}

/// The scope `s` binds each name that the statement `stat` declares in it: the names of a
/// local or global declaration and of a local function.
pub open spec fn stat_declared(cst: &Cst, stat: Stat, s: Scope) -> bool {
    match stat {
        Stat::Localvarstat(l) => forall|k: int| 0 <= k < cst.spec_child_nodes::<Attname>(l.syntax).len() ==> match attname_name(cst, #[trigger] cst.spec_child_nodes::<Attname>(l.syntax)[k]) {
            Some(n) => s.vars.map().contains_key(n),
            None => true,
        },
        Stat::Globalvarstat(g) => forall|k: int| 0 <= k < cst.spec_child_nodes::<Attname>(g.syntax).len() ==> match attname_name(cst, #[trigger] cst.spec_child_nodes::<Attname>(g.syntax)[k]) {
            Some(n) => s.vars.map().contains_key(n),
            None => true,
        },
        Stat::Localfuncstat(f) => match cst.spec_child_token(f.syntax, Token::Name) {
            Some(t) => s.vars.map().contains_key(cst.text(cst.node_span(t))),
            None => true,
        },
        _ => true,
    }
}

/// The diagnostics `diags` end, after `before`, which starts at or after index `from`, with
/// the reports of the scope `s` as it closes with `depth` scopes around it.
pub open spec fn scope_closed(ctx: &DiagnosticContext, cst: &Cst, from: int, before: Seq<Diagnostic>, diags: Seq<Diagnostic>, s: Scope, depth: int) -> bool {
    &&& from <= before.len()
    &&& diagnostics_view(diags) == diagnostics_view(before) + scope_reports(ctx, cst, s, depth == 0)
}

/// What the innermost of scopes `a` binds, the innermost of `b` binds where `b` keeps what
/// `a` declares.
pub proof fn lemma_declared_last(cst: &Cst, pars: Option<Pars>, stat: Stat, a: Seq<Scope>, b: Seq<Scope>)
    requires
        declared_kept(a, b),
        a.len() > 0,
    ensures
        pars_declared(cst, pars, a.last()) ==> pars_declared(cst, pars, b.last()),
        stat_declared(cst, stat, a.last()) ==> stat_declared(cst, stat, b.last()),
        b.last().func == a.last().func,
{
    let k = a.len() - 1;
    assert(a.last() == a[k]);
    assert(b.last() == b[k]);
    assert(b[k].func == a[k].func);
}

/// Whether some diagnostic of `diags` from index `from` on is `d`.
pub open spec fn reported_at_or_after(diags: Seq<Diagnostic>, from: int, d: DiagnosticView) -> bool {
    exists|k: int| from <= k < diags.len() && #[trigger] diags[k]@ == d
}

/// The error for a `break` statement at `span` that is not inside a loop.
pub open spec fn break_outside_view(span: Span) -> DiagnosticView {
    DiagnosticView {
        error: true,
        groups: seq![annotated(Level::Error, "break not inside a loop"@, seq![ann(AnnotationKind::Primary, span, None)])],
    }
}

/// The semantic checks of a chunk.
pub struct Checks<'a> {
    pub diag_ctx: DiagnosticContext<'a>,
    pub scopes: Scopes,
    /// The loops that enclose the statement being checked, innermost last.
    pub loops: Vec<NodeRef>,
}

impl<'a> Checks<'a> {
    /// The lint severities are complete and the scopes and loops refer to nodes of `cst`.
    pub open spec fn wf(&self, cst: &Cst) -> bool {
        &&& self.diag_ctx.levels@.len() == LINT_COUNT
        &&& self.scopes.wf()
        &&& self.scopes.refs_below(cst.spec_len())
        &&& forall|i: int| 0 <= i < self.loops@.len() ==> (#[trigger] self.loops@[i]).0 < cst.spec_len()
        &&& cst.spans_in_source()
    }

    /// The context and the loops are those of `o`, with as many scopes.
    pub open spec fn keeps(&self, o: &Checks) -> bool {
        &&& self.diag_ctx == o.diag_ctx
        &&& self.scopes.scopes@.len() == o.scopes.scopes@.len()
        &&& self.loops@ == o.loops@
        &&& declared_kept(o.scopes.scopes@, self.scopes.scopes@)
    }

    /// Reports a function of `cst` whose source spans too many lines.
    fn check_func_lines(&self, cst: &Cst, diags: &mut Vec<Diagnostic>, node_ref: NodeRef)
        requires
            self.diag_ctx.levels@.len() == LINT_COUNT,
            cst.valid_ref(node_ref),
        ensures
            final(diags)@ == old(diags)@ + (if self.diag_ctx.levels@[TOO_MANY_LINES as int] != Severity::Allow
                && count_byte(cst.text(cst.node_span(node_ref)), 10u8) > self.diag_ctx.config.function_line_threshold {
                seq![final(diags)@.last()]
            } else {
                Seq::empty()
            }),
            final(diags)@.len() > old(diags)@.len() ==> final(diags)@.last()@ == lint_diagnostic(
                &self.diag_ctx,
                TOO_MANY_LINES,
                seq![ann(AnnotationKind::Primary, cst.node_span(node_ref), None)],
                seq![note(Level::Note, "there are "@ + decimal(count_byte(cst.text(cst.node_span(node_ref)), 10u8))
                    + " lines and the threshold is set to "@ + decimal(self.diag_ctx.config.function_line_threshold as nat))],
            ),
            reported(&self.diag_ctx, cst.source_view().len() as int, old(diags)@, final(diags)@),
    {
        if let Some(too_many_lines) = self.diag_ctx.active::<TooManyLines>() {
            let span = cst.span(node_ref);
            let lines = count_line_feeds(cst.slice(span));
            if lines > self.diag_ctx.config.function_line_threshold {
                diags.push(too_many_lines.build(span, lines));
                assert(diags@ =~= old(diags)@ + seq![diags@.last()]);
            } else {
                assert(diags@ =~= old(diags)@ + Seq::<Diagnostic>::empty());
            }
        } else {
            assert(diags@ =~= old(diags)@ + Seq::<Diagnostic>::empty());
        }
    }

    /// Checks the attribute of a declaration and returns whether the declared variable is
    /// to-be-closed and whether it is constant; without an attribute these are the defaults.
    fn check_attrib(
        &self,
        cst: &Cst,
        diags: &mut Vec<Diagnostic>,
        attrib: Option<Attrib>,
        global: bool,
        default_close: bool,
        default_const: bool,
    ) -> (r: (bool, bool))
        requires
            self.diag_ctx.levels@.len() == LINT_COUNT,
            cst.spans_in_source(),
        ensures
            r == (match attrib {
                Some(a) => (
                    cst.spec_child_token(a.syntax, Token::Name) matches Some(n) && cst.text(cst.node_span(n)) == close_bytes(),
                    cst.spec_child_token(a.syntax, Token::Name) matches Some(n) && cst.text(cst.node_span(n)) == const_bytes(),
                ),
                None => (default_close, default_const),
            }),
            final(diags)@ == old(diags)@ + (match attrib {
                Some(a) => match cst.spec_child_token(a.syntax, Token::Name) {
                    Some(n) => if cst.text(cst.node_span(n)) != const_bytes() && (global || cst.text(cst.node_span(n)) != close_bytes()) {
                        seq![final(diags)@.last()]
                    } else {
                        Seq::empty()
                    },
                    None => Seq::empty(),
                },
                None => Seq::empty(),
            }),
            final(diags)@.len() > old(diags)@.len() ==> {
                let span = cst.node_span(cst.spec_child_token(attrib->0.syntax, Token::Name)->0);
                final(diags)@.last()@ == (DiagnosticView { error: true, groups: seq![annotated(Level::Error, "unexpected attribute name"@, seq![ann(AnnotationKind::Primary, span, Some((if global { "expected `const`"@ } else { "expected `const` or `close`"@ })))])] + seq![patches(Level::Help, "replace it with `const`"@, seq![patch(span, "const"@)])] + (if !global { seq![patches(Level::Help, "replace it with `close`"@, seq![patch(span, "close"@)])] } else { Seq::empty() }) })
            },
            reported(&self.diag_ctx, cst.source_view().len() as int, old(diags)@, final(diags)@),
    {
        match attrib {
            Some(attrib) => {
                if let Some((value, span)) = attrib.value(cst) {
                    let cv = vec![99u8, 111u8, 110u8, 115u8, 116u8];
                    let cl = vec![99u8, 108u8, 111u8, 115u8, 101u8];
                    assert(cv@ =~= const_bytes());
                    assert(cl@ =~= close_bytes());
                    if !bytes_eq(value, cv.as_slice()) && (global || !bytes_eq(value, cl.as_slice())) {
                        diags.push(self.diag_ctx.unexpected_attribute(span, global));
                        assert(diags@ =~= old(diags)@ + seq![diags@.last()]);
                    } else {
                        assert(diags@ =~= old(diags)@ + Seq::<Diagnostic>::empty());
                    }
                } else {
                    assert(diags@ =~= old(diags)@ + Seq::<Diagnostic>::empty());
                }
                (attrib.is_close(cst), attrib.is_const(cst))
            },
            None => {
                assert(diags@ =~= old(diags)@ + Seq::<Diagnostic>::empty());
                (default_close, default_const)
            },
        }
    }

    /// Reports a local that redefines a local of the same scope or shadows one of an
    /// enclosing scope.
    fn check_local_binding(&mut self, cst: &Cst, diags: &mut Vec<Diagnostic>, name: &[u8], span: Span)
        requires
            old(self).wf(cst),
            span.start <= cst.source_view().len(),
            span.end <= cst.source_view().len(),
        ensures
            final(self).wf(cst),
            final(self).keeps(old(self)),
            reported(&old(self).diag_ctx, cst.source_view().len() as int, old(diags)@, final(diags)@),
            diagnostics_view(final(diags)@) == diagnostics_view(old(diags)@) + local_binding_reports(&old(self).diag_ctx, cst, old(self).scopes.scopes@, name@, span),
    {
        let ghost before = diagnostics_view(diags@);
        let redefined_local = self.diag_ctx.active::<RedefinedLocal>();
        let shadowing_local = self.diag_ctx.active::<ShadowingLocal>();
        if redefined_local.is_some() || shadowing_local.is_some() {
            if let Some((Variable::Local(local), same_scope)) = self.scopes.get_var(name, true) {
                if !is_underscore(name) {
                    if same_scope {
                        if let Some(redefined_local) = redefined_local {
                            let d = redefined_local.build(
                                span,
                                cst.span(local.decl),
                                Funcname::cast(cst, local.decl).is_some(),
                            );
                            diags.push(d);
                            assert(diagnostics_view(diags@) =~= before + seq![d@]);
                        }
                    } else if let Some(shadowing_local) = shadowing_local {
                        let d = shadowing_local.build(span, cst.span(local.decl));
                        diags.push(d);
                        assert(diagnostics_view(diags@) =~= before + seq![d@]);
                    }
                }
            }
            assert(self.scopes.refs_below(cst.spec_len()));
        }
        assert(diagnostics_view(diags@) =~= before + local_binding_reports(&old(self).diag_ctx, cst, old(self).scopes.scopes@, name@, span));
    }

    /// Resolves the name `name` used at `node_ref` and returns the types it may hold: binds
    /// a use of a local to its declaration, reports assignments to read-only variables and
    /// uses of undeclared or lower-case globals.
    fn check_name(
        &mut self,
        cst: &Cst,
        diags: &mut Vec<Diagnostic>,
        sema: &mut SemanticData,
        node_ref: NodeRef,
        name: &[u8],
        name_span: Span,
        lhs: bool,
        sub: bool,
    ) -> (r: TypeSet)
        requires
            old(self).wf(cst),
            node_map_below(old(sema).decl_bindings@, cst.spec_len()),
            name_span.start <= cst.source_view().len(),
            name_span.end <= cst.source_view().len(),
        ensures
            final(self).wf(cst),
            final(self).keeps(old(self)),
            reported(&old(self).diag_ctx, cst.source_view().len() as int, old(diags)@, final(diags)@),
            node_map_below(final(sema).decl_bindings@, cst.spec_len()),
            final(sema).break_bindings@ == old(sema).break_bindings@,
            diagnostics_view(final(diags)@) == diagnostics_view(old(diags)@) + name_reports(&old(self).diag_ctx, cst, old(self).scopes.scopes@, name@, name_span, lhs, sub),
            r == (match lookup_var(old(self).scopes.scopes@, name@) {
                Some((Variable::Local(l), _)) => l.ty,
                Some((Variable::Vararg(_), _)) => TypeSet(64),
                _ => TypeSet(0),
            }),
            match lookup_var(old(self).scopes.scopes@, name@) {
                Some((Variable::Local(l), _)) => final(sema).decl_bindings@ == old(sema).decl_bindings@.insert(node_ref.0, l.decl.0),
                _ => final(sema).decl_bindings@ == old(sema).decl_bindings@,
            },
    {
        let found = self.scopes.get_var(name, lhs);
        assert(self.scopes.refs_below(cst.spec_len()));
        match found {
            Some((Variable::Local(local), _)) => {
                if lhs && local.constant {
                    diags.push(self.diag_ctx.write_const_variable(
                        name_span,
                        cst.span(local.decl),
                        Loopvar::cast(cst, local.decl).is_some(),
                    ));
                }
                if let Some(used_despite_unused_hint) = self.diag_ctx.active::<UsedDespiteUnusedHint>() {
                    if !lhs && (Par::cast(cst, local.decl).is_some() || (Attname::cast(cst, local.decl).is_some()
                        && self.diag_ctx.config.allow_local_unused_hint) || (Loopvar::cast(cst, local.decl).is_some()
                        && self.diag_ctx.config.allow_loopvar_unused_hint)) && !is_environment_name(name)
                        && underscore_prefixed(name) {
                        diags.push(used_despite_unused_hint.build(name_span, cst.span(local.decl)));
                    }
                }
                sema.decl_bindings.insert(node_ref, NodeRef(local.decl.0));
                local.ty
            },
            Some((Variable::Global(global), _)) => {
                if lhs && global.constant {
                    diags.push(self.diag_ctx.write_const_variable(name_span, cst.span(global.decl), false));
                }
                TypeSet::empty()
            },
            Some((Variable::Vararg(varargpar), _)) => {
                self.scopes.use_named_vararg(varargpar);
                TypeSet::table()
            },
            None => {
                match self.scopes.get_global_state() {
                    GlobalState::Explicit(decl) => {
                        if !is_env(name) {
                            diags.push(self.diag_ctx.undeclared_global(name_span, cst.span(decl)));
                        }
                    },
                    GlobalState::Implicit => {
                        if let Some(lower_case_global) = self.diag_ctx.active::<LowerCaseGlobal>() {
                            if lower_case_start(name) && self.diag_ctx.config.global_of(name).is_none() {
                                diags.push(lower_case_global.build(name_span, sub, false));
                            }
                        }
                    },
                }
                TypeSet::empty()
            },
        }
    }
}


/// Whether the byte is a decimal digit.
pub open spec fn is_digit(b: u8) -> bool {
    48u8 <= b <= 57u8
}

/// The value of a decimal digit string.
pub open spec fn digits_value(s: Seq<u8>) -> nat
    decreases s.len(),
{
    if s.len() == 0 {
        0
    } else {
        digits_value(s.drop_last()) * 10 + (s.last() - 48u8) as nat
    }
}

/// Whether the byte is a hexadecimal digit.
pub open spec fn is_hex_digit(b: u8) -> bool {
    (48u8 <= b <= 57u8) || (97u8 <= b <= 102u8) || (65u8 <= b <= 70u8)
}

/// The value of a hexadecimal digit.
pub open spec fn hex_digit_value(b: u8) -> nat {
    if 48u8 <= b <= 57u8 {
        (b - 48u8) as nat
    } else if 97u8 <= b <= 102u8 {
        (b - 87u8) as nat
    } else {
        (b - 55u8) as nat
    }
}

/// The value of a hexadecimal digit string.
pub open spec fn hex_value(s: Seq<u8>) -> nat
    decreases s.len(),
{
    if s.len() == 0 {
        0
    } else {
        hex_value(s.drop_last()) * 16 + hex_digit_value(s.last())
    }
}

/// The 64-bit two's complement integer whose bits are the low 64 bits of `v`.
pub open spec fn wrapped_i64(v: nat) -> int {
    let w = v % 0x1_0000_0000_0000_0000;
    if w >= 0x8000_0000_0000_0000 {
        w - 0x1_0000_0000_0000_0000
    } else {
        w as int
    }
}

/// Whether a decimal integer numeral exceeds the range of 64-bit integers.
pub fn decimal_overflows(s: &[u8]) -> (r: bool)
    ensures
        r == ((forall|i: int| 0 <= i < s@.len() ==> is_digit(#[trigger] s@[i])) && digits_value(s@) > i64::MAX),
{
    let mut value: u64 = 0;
    let mut big = false;
    let mut i: usize = 0;
    while i < s.len()
        invariant
            i <= s@.len(),
            forall|k: int| 0 <= k < i ==> is_digit(#[trigger] s@[k]),
            big == (digits_value(s@.subrange(0, i as int)) > i64::MAX),
            !big ==> value == digits_value(s@.subrange(0, i as int)),
        decreases s@.len() - i,
    {
        let b = s[i];
        if b < 48u8 || b > 57u8 {
            return false;
        }
        assert(s@.subrange(0, i + 1).drop_last() =~= s@.subrange(0, i as int));
        assert(s@.subrange(0, i + 1).last() == b);
        if !big {
            let next: u128 = (value as u128) * 10 + (b - 48u8) as u128;
            if next > 0x7fff_ffff_ffff_ffffu128 {
                big = true;
            } else {
                value = next as u64;
            }
        }
        i = i + 1;
    }
    assert(s@.subrange(0, s@.len() as int) =~= s@);
    big
}

proof fn lemma_wrapped_step(x: nat, d: nat)
    requires
        d < 16,
    ensures
        ((x % 0x1_0000_0000_0000_0000) * 16 + d) % 0x1_0000_0000_0000_0000 == (x * 16 + d) % 0x1_0000_0000_0000_0000,
{
    let m: int = 0x1_0000_0000_0000_0000;
    vstd::arithmetic::div_mod::lemma_mul_mod_noop_left(x as int, 16, m);
    let xi: int = x as int;
    vstd::arithmetic::div_mod::lemma_add_mod_noop((xi % m) * 16, d as int, m);
    vstd::arithmetic::div_mod::lemma_add_mod_noop(xi * 16, d as int, m);
    vstd::arithmetic::div_mod::lemma_small_mod(d as nat, m as nat);
}

/// For a hexadecimal integer numeral's digits that exceed the range of 64-bit integers, the
/// value that Lua gives it instead: the integer of its low 64 bits.
pub fn hex_overflow_value(digits: &[u8]) -> (r: Option<i64>)
    ensures
        r == (if (forall|i: int| 0 <= i < digits@.len() ==> is_hex_digit(#[trigger] digits@[i]))
            && hex_value(digits@) > i64::MAX {
            Some(wrapped_i64(hex_value(digits@)) as i64)
        } else {
            None
        }),
{
    let mut low: u64 = 0;
    let mut big = false;
    let mut i: usize = 0;
    while i < digits.len()
        invariant
            i <= digits@.len(),
            forall|k: int| 0 <= k < i ==> is_hex_digit(#[trigger] digits@[k]),
            big == (hex_value(digits@.subrange(0, i as int)) > i64::MAX),
            low == hex_value(digits@.subrange(0, i as int)) % 0x1_0000_0000_0000_0000,
        decreases digits@.len() - i,
    {
        let b = digits[i];
        let d: u8 = if 48u8 <= b && b <= 57u8 {
            b - 48u8
        } else if 97u8 <= b && b <= 102u8 {
            b - 87u8
        } else if 65u8 <= b && b <= 70u8 {
            b - 55u8
        } else {
            return None;
        };
        let ghost prefix = digits@.subrange(0, i as int);
        assert(digits@.subrange(0, i + 1).drop_last() =~= prefix);
        assert(digits@.subrange(0, i + 1).last() == b);
        proof {
            lemma_wrapped_step(hex_value(prefix), d as nat);
            if !big {
                vstd::arithmetic::div_mod::lemma_small_mod(hex_value(prefix), 0x1_0000_0000_0000_0000nat);
            }
        }
        let wide: u128 = (low as u128) * 16 + d as u128;
        low = (wide % 0x1_0000_0000_0000_0000u128) as u64;
        if !big && (low as u128) != wide {
            big = true;
        } else if !big && low > 0x7fff_ffff_ffff_ffffu64 {
            big = true;
        }
        i = i + 1;
    }
    assert(digits@.subrange(0, digits@.len() as int) =~= digits@);
    if big {
        let v: i64 = if low >= 0x8000_0000_0000_0000u64 {
            ((low - 0x8000_0000_0000_0000u64) as i64) - 0x7fff_ffff_ffff_ffffi64 - 1
        } else {
            low as i64
        };
        Some(v)
    } else {
        None
    }
}


/// Whether a decimal integer numeral exceeds the range of 64-bit integers.
pub open spec fn decimal_overflow(s: Seq<u8>) -> bool {
    (forall|i: int| 0 <= i < s.len() ==> is_digit(#[trigger] s[i])) && digits_value(s) > i64::MAX
}

/// The reports of a numeral at `span` whose value as a float `fact` describes: one that
/// rounds to infinity; else, when `int_part_differs`, one whose integer digits change; else,
/// when `pi` holds, one close to π.
pub open spec fn rounding_reports(ctx: &DiagnosticContext, fact: NumberFact, int_part_differs: bool, pi: bool, span: Span) -> Seq<DiagnosticView> {
    if fact.infinite && ctx.levels@[ROUNDS_TO_INF as int] != Severity::Allow {
        seq![lint_diagnostic(ctx, ROUNDS_TO_INF, seq![ann(AnnotationKind::Primary, span, None)], seq![patches(Level::Help, "use math.huge instead if this was intended"@, seq![patch(span, "math.huge"@)])])]
    } else if int_part_differs && ctx.levels@[ROUNDS_INT_PART as int] != Severity::Allow {
        seq![lint_diagnostic(ctx, ROUNDS_INT_PART, seq![ann(AnnotationKind::Primary, span, Some("the actual value will be "@ + fact.value_text@))], Seq::empty())]
    } else if pi && fact.near_pi && ctx.levels@[APPROX_PI as int] != Severity::Allow {
        seq![lint_diagnostic(ctx, APPROX_PI, seq![ann(AnnotationKind::Primary, span, None)], seq![patches(Level::Help, "use math.pi instead if this was intended"@, seq![patch(span, "math.pi"@)])])]
    } else {
        Seq::empty()
    }
}

/// The reports of the decimal integer numeral `text` at `span`, `facts` holding what the
/// platform makes of numerals as floats: a leading zero, and a value beyond the 64-bit
/// integers, which Lua reads as a float, that rounds to infinity or changes its digits.
pub open spec fn decint_reports(ctx: &DiagnosticContext, facts: Map<Seq<u8>, NumberFact>, text: Seq<u8>, span: Span) -> Seq<DiagnosticView> {
    (if ctx.levels@[OCTAL_CONFUSION as int] != Severity::Allow && text.len() > 1 && text[0] == 48u8 {
        seq![lint_diagnostic(ctx, OCTAL_CONFUSION, seq![ann(AnnotationKind::Primary, span, None)], seq![note(Level::Note, "Lua doesn't have the octal numbers syntax from C"@)] + seq![patches(Level::Help, "remove the prefix"@, seq![patch((Span { start: span.start, end: (span.start + 1) as usize }), ""@)])])]
    } else {
        Seq::empty()
    }) + (if decimal_overflow(text) && facts.contains_key(text) {
        rounding_reports(ctx, facts[text], text != facts[text].int_part@, false, span)
    } else {
        Seq::empty()
    })
}

/// The type of the decimal integer numeral `text`: a float when it exceeds the 64-bit
/// integers and the platform reads it as one, else an integer.
pub open spec fn decint_type(facts: Map<Seq<u8>, NumberFact>, text: Seq<u8>) -> u16 {
    if decimal_overflow(text) && facts.contains_key(text) {
        4
    } else {
        2
    }
}

/// The reports of the hexadecimal integer numeral `text` at `span`: a value beyond the
/// 64-bit integers, which wraps around.
pub open spec fn hexint_reports(ctx: &DiagnosticContext, text: Seq<u8>, span: Span) -> Seq<DiagnosticView> {
    let digits = text.subrange(2, text.len() as int);
    if text.len() >= 2 && (forall|i: int| 0 <= i < digits.len() ==> is_hex_digit(#[trigger] digits[i]))
        && hex_value(digits) > i64::MAX && ctx.levels@[HEX_INT_OVERFLOW as int] != Severity::Allow {
        seq![lint_diagnostic(ctx, HEX_INT_OVERFLOW, seq![ann(AnnotationKind::Primary, span, Some("the actual value will be "@ + signed_decimal(wrapped_i64(hex_value(digits)))))], seq![note(Level::Note, "hexadecimal integer literals are not implicitly converted to float values"@)])]
    } else {
        Seq::empty()
    }
}

/// Whether the integer digits of the decimal float numeral `text`, written without an
/// exponent, differ from `int_part`.
pub open spec fn int_part_differs(text: Seq<u8>, int_part: Seq<u8>) -> bool {
    &&& !text.contains(101u8) && !text.contains(69u8) && text.contains(46u8)
    &&& first_index_of(text, 46u8)->0 > 0
    &&& text.subrange(0, first_index_of(text, 46u8)->0) != int_part
}

/// The reports of the decimal float numeral `text` at `span`: a value that rounds to
/// infinity, whose integer digits change, or that is close to π.
pub open spec fn decfloat_reports(ctx: &DiagnosticContext, facts: Map<Seq<u8>, NumberFact>, text: Seq<u8>, span: Span) -> Seq<DiagnosticView> {
    if facts.contains_key(text) {
        rounding_reports(ctx, facts[text], int_part_differs(text, facts[text].int_part@), true, span)
    } else {
        Seq::empty()
    }
}

/// The reports of the hexadecimal float numeral `text` at `span`: a value that an `f64`
/// does not hold exactly.
pub open spec fn hexfloat_reports(ctx: &DiagnosticContext, text: Seq<u8>, span: Span) -> Seq<DiagnosticView> {
    if !hexf64_parses(with_binary_exponent(text)) && ctx.levels@[INEXACT_HEX_FLOAT as int] != Severity::Allow {
        seq![lint_diagnostic(ctx, INEXACT_HEX_FLOAT, seq![ann(AnnotationKind::Primary, span, None)], Seq::empty())]
    } else {
        Seq::empty()
    }
}

/// The reports of the numeral token `tok` of kind `kind`, if there is one.
pub open spec fn numeral_token_reports(ctx: &DiagnosticContext, facts: Map<Seq<u8>, NumberFact>, cst: &Cst, tok: Option<NodeRef>, kind: Token) -> Seq<DiagnosticView> {
    match tok {
        Some(n) => {
            let span = cst.node_span(n);
            let text = cst.text(span);
            if kind == Token::DecIntNumeral {
                decint_reports(ctx, facts, text, span)
            } else if kind == Token::HexIntNumeral {
                hexint_reports(ctx, text, span)
            } else if kind == Token::DecFloatNumeral {
                decfloat_reports(ctx, facts, text, span)
            } else {
                hexfloat_reports(ctx, text, span)
            }
        },
        None => Seq::empty(),
    }
}

/// The reports of a numeral expression, and `None` for any other expression.
pub open spec fn numeral_exp_reports(ctx: &DiagnosticContext, facts: Map<Seq<u8>, NumberFact>, cst: &Cst, exp: Exp) -> Option<Seq<DiagnosticView>> {
    match exp {
        Exp::Decintexp(e) => Some(numeral_token_reports(ctx, facts, cst, cst.spec_child_token(e.syntax, Token::DecIntNumeral), Token::DecIntNumeral)),
        Exp::Hexintexp(e) => Some(numeral_token_reports(ctx, facts, cst, cst.spec_child_token(e.syntax, Token::HexIntNumeral), Token::HexIntNumeral)),
        Exp::Decfloatexp(e) => Some(numeral_token_reports(ctx, facts, cst, cst.spec_child_token(e.syntax, Token::DecFloatNumeral), Token::DecFloatNumeral)),
        Exp::Hexfloatexp(e) => Some(numeral_token_reports(ctx, facts, cst, cst.spec_child_token(e.syntax, Token::HexFloatNumeral), Token::HexFloatNumeral)),
        _ => None,
    }
}

/// The type of a numeral or constant expression: `None` for any other expression.
pub open spec fn leaf_exp_type(facts: Map<Seq<u8>, NumberFact>, cst: &Cst, exp: Exp) -> Option<u16> {
    match exp {
        Exp::Decintexp(e) => Some(match cst.spec_child_token(e.syntax, Token::DecIntNumeral) {
            Some(n) => decint_type(facts, cst.text(cst.node_span(n))),
            None => 2,
        }),
        Exp::Hexintexp(_) => Some(2),
        Exp::Decfloatexp(_) => Some(4),
        Exp::Hexfloatexp(_) => Some(4),
        Exp::Nilexp(_) => Some(1),
        Exp::Trueexp(_) => Some(8),
        Exp::Falseexp(_) => Some(8),
        Exp::Stringexp(_) => Some(16),
        _ => None,
    }
}

/// The type set of the expression `exp` where the scopes are `scopes`: that of a literal or
/// numeral, of the variable a name refers to, a table for a table constructor, the type of
/// the expression inside parentheses, and no type known for any other expression.
pub open spec fn exp_type(facts: Map<Seq<u8>, NumberFact>, cst: &Cst, scopes: Seq<Scope>, exp: Exp) -> TypeSet
    decreases cst.spec_len() - exp.spec_syntax().0,
{
    match leaf_exp_type(facts, cst, exp) {
        Some(t) => TypeSet(t),
        None => match exp {
            Exp::Tableconstructor(_) => TypeSet(64),
            Exp::Nameexp(e) => match cst.spec_child_token(e.syntax, Token::Name) {
                Some(n) => match lookup_var(scopes, cst.text(cst.node_span(n))) {
                    Some((Variable::Local(l), _)) => l.ty,
                    Some((Variable::Vararg(_), _)) => TypeSet(64),
                    _ => TypeSet(0),
                },
                None => TypeSet(0),
            },
            Exp::Parenexp(p) => match cst.spec_child_node::<Exp>(p.syntax) {
                Some(x) => if after(cst, x.spec_syntax(), p.syntax) {
                    exp_type(facts, cst, scopes, x)
                } else {
                    TypeSet(0)
                },
                None => TypeSet(0),
            },
            _ => TypeSet(0),
        },
    }
}

/// The reports that checking the expression `exp` under `ctx`, where the scopes are
/// `scopes`, makes between the diagnostics `old_diags` and `new_diags`: the report of the
/// lint that `exp` itself raises, and for a name, a numeral or a literal, exactly the
/// reports appended.
pub open spec fn exp_reports_hold(ctx: &DiagnosticContext, facts: Map<Seq<u8>, NumberFact>, cst: &Cst, scopes: Seq<Scope>, old_diags: Seq<Diagnostic>, new_diags: Seq<Diagnostic>, exp: Exp, lhs: bool, sub: bool) -> bool {
    &&& (exp matches Exp::Binexp(be) ==> match error_prone_negation_report(ctx, cst, be) {
        Some(d) => reported_at_or_after(new_diags, old_diags.len() as int, d),
        None => true,
    })
    &&& (exp matches Exp::Unaryexp(u) ==> match unnecessary_negation_report(ctx, cst, u) {
        Some(d) => reported_at_or_after(new_diags, old_diags.len() as int, d),
        None => true,
    })
    &&& (exp matches Exp::Callexp(c) ==> match next_line_args_report(ctx, cst, c) {
        Some(d) => reported_at_or_after(new_diags, old_diags.len() as int, d),
        None => true,
    })
    &&& (numeral_exp_reports(ctx, facts, cst, exp) matches Some(reps)
        ==> diagnostics_view(new_diags) == diagnostics_view(old_diags) + reps)
    &&& (exp is Nilexp || exp is Trueexp || exp is Falseexp || exp is Stringexp ==> new_diags == old_diags)
    &&& (exp matches Exp::Nameexp(e) ==> diagnostics_view(new_diags) == diagnostics_view(old_diags) + match cst.spec_child_token(e.syntax, Token::Name) {
        Some(n) => name_reports(ctx, cst, scopes, cst.text(cst.node_span(n)), cst.node_span(n), lhs, sub),
        None => Seq::empty(),
    })
    &&& (exp matches Exp::Parenexp(e) ==> match cst.spec_child_node::<Exp>(e.syntax) {
        Some(Exp::Parenexp(inner)) => ctx.levels@[REDUNDANT_PARENTHESES as int] != Severity::Allow
            ==> new_diags.len() > old_diags.len() && new_diags.last()@ == lint_diagnostic(
            ctx,
            REDUNDANT_PARENTHESES,
            seq![ann(AnnotationKind::Primary, cst.node_span(e.syntax), None)],
            seq![patches(Level::Help, "remove extra parentheses"@, seq![
                patch((Span { start: cst.node_span(e.syntax).start, end: cst.node_span(inner.syntax).start }), ""@),
                patch((Span { start: cst.node_span(inner.syntax).end, end: cst.node_span(e.syntax).end }), ""@),
            ])],
        ),
        _ => true,
    })
    &&& (exp matches Exp::Varargexp(e) ==> diagnostics_view(new_diags) == diagnostics_view(old_diags) + if varargs_below(scopes, scopes.len() as int) {
        Seq::empty()
    } else {
        seq![DiagnosticView { error: true, groups: seq![annotated(Level::Error, "cannot use `...` outside a vararg function"@, seq![ann(AnnotationKind::Primary, cst.node_span(e.syntax), None)])] }]
    })
}

/// Some check of the expression `exp`, from some scopes, appended the reports that
/// `exp_reports_hold` gives to diagnostics that, from index `from` on, `diags` keeps.
pub open spec fn exp_checked_within(ctx: &DiagnosticContext, facts: Map<Seq<u8>, NumberFact>, cst: &Cst, from: int, diags: Seq<Diagnostic>, exp: Exp, lhs: bool, sub: bool) -> bool {
    exists|scopes: Seq<Scope>, d1: Seq<Diagnostic>, d2: Seq<Diagnostic>|
        #[trigger] exp_reports_hold(ctx, facts, cst, scopes, d1, d2, exp, lhs, sub)
        && from <= d1.len()
        && d2.len() <= diags.len()
        && forall|j: int| 0 <= j < d2.len() ==> #[trigger] diags[j] == d2[j]
}

/// Each of the expressions `exps` was checked, as `exp_checked_within` says.
pub open spec fn all_checked(ctx: &DiagnosticContext, facts: Map<Seq<u8>, NumberFact>, cst: &Cst, from: int, diags: Seq<Diagnostic>, exps: Seq<Exp>, lhs: bool, sub: bool) -> bool {
    forall|k: int| 0 <= k < exps.len() ==> exp_checked_within(ctx, facts, cst, from, diags, #[trigger] exps[k], lhs, sub)
}

/// The expression `o`, if any, as a sequence.
pub open spec fn opt_exps(o: Option<Exp>) -> Seq<Exp> {
    match o {
        Some(x) => seq![x],
        None => Seq::empty(),
    }
}

/// A check that appended its reports between `d1` and `d2` is one that `d2` keeps.
pub proof fn lemma_checked_here(ctx: &DiagnosticContext, facts: Map<Seq<u8>, NumberFact>, cst: &Cst, from: int, scopes: Seq<Scope>, d1: Seq<Diagnostic>, d2: Seq<Diagnostic>, exp: Exp, lhs: bool, sub: bool)
    requires
        exp_reports_hold(ctx, facts, cst, scopes, d1, d2, exp, lhs, sub),
        from <= d1.len(),
    ensures
        exp_checked_within(ctx, facts, cst, from, d2, exp, lhs, sub),
{
}

/// Checks that `diags` keeps are kept by any extension of `diags`.
pub proof fn lemma_all_checked_extend(ctx: &DiagnosticContext, facts: Map<Seq<u8>, NumberFact>, cst: &Cst, from: int, diags: Seq<Diagnostic>, more: Seq<Diagnostic>, exps: Seq<Exp>, lhs: bool, sub: bool)
    requires
        all_checked(ctx, facts, cst, from, diags, exps, lhs, sub),
        diags.len() <= more.len(),
        forall|j: int| 0 <= j < diags.len() ==> #[trigger] more[j] == diags[j],
    ensures
        all_checked(ctx, facts, cst, from, more, exps, lhs, sub),
{
    assert forall|k: int| 0 <= k < exps.len() implies exp_checked_within(ctx, facts, cst, from, more, #[trigger] exps[k], lhs, sub) by {
        let (sc, d1, d2) = choose|sc: Seq<Scope>, d1: Seq<Diagnostic>, d2: Seq<Diagnostic>|
            #[trigger] exp_reports_hold(ctx, facts, cst, sc, d1, d2, exps[k], lhs, sub)
            && from <= d1.len() && d2.len() <= diags.len()
            && forall|j: int| 0 <= j < d2.len() ==> #[trigger] diags[j] == d2[j];
        assert forall|j: int| 0 <= j < d2.len() implies #[trigger] more[j] == d2[j] by {
            assert(more[j] == diags[j]);
        }
    }
}

/// Adding a checked expression to checked ones.
pub proof fn lemma_all_checked_push(ctx: &DiagnosticContext, facts: Map<Seq<u8>, NumberFact>, cst: &Cst, from: int, diags: Seq<Diagnostic>, exps: Seq<Exp>, i: int, lhs: bool, sub: bool)
    requires
        0 <= i < exps.len(),
        all_checked(ctx, facts, cst, from, diags, exps.take(i), lhs, sub),
        exp_checked_within(ctx, facts, cst, from, diags, exps[i], lhs, sub),
    ensures
        all_checked(ctx, facts, cst, from, diags, exps.take(i + 1), lhs, sub),
{
    assert forall|k: int| 0 <= k < exps.take(i + 1).len() implies exp_checked_within(ctx, facts, cst, from, diags, #[trigger] exps.take(i + 1)[k], lhs, sub) by {
        if k < i {
            assert(exps.take(i + 1)[k] == exps.take(i)[k]);
        }
    }
}

/// A check of `exps` that `diags` keeps from index `from1` on is one that a longer `more`
/// keeps from any earlier index `from2` on.
pub proof fn lemma_all_checked_move(ctx: &DiagnosticContext, facts: Map<Seq<u8>, NumberFact>, cst: &Cst, from1: int, from2: int, diags: Seq<Diagnostic>, more: Seq<Diagnostic>, exps: Seq<Exp>, lhs: bool, sub: bool)
    requires
        all_checked(ctx, facts, cst, from1, diags, exps, lhs, sub),
        from2 <= from1,
        diags.len() <= more.len(),
        forall|j: int| 0 <= j < diags.len() ==> #[trigger] more[j] == diags[j],
    ensures
        all_checked(ctx, facts, cst, from2, more, exps, lhs, sub),
{
    assert forall|k: int| 0 <= k < exps.len() implies exp_checked_within(ctx, facts, cst, from2, more, #[trigger] exps[k], lhs, sub) by {
        let (sc, d1, d2) = choose|sc: Seq<Scope>, d1: Seq<Diagnostic>, d2: Seq<Diagnostic>|
            #[trigger] exp_reports_hold(ctx, facts, cst, sc, d1, d2, exps[k], lhs, sub)
            && from1 <= d1.len() && d2.len() <= diags.len()
            && forall|j: int| 0 <= j < d2.len() ==> #[trigger] diags[j] == d2[j];
        assert forall|j: int| 0 <= j < d2.len() implies #[trigger] more[j] == d2[j] by {
            assert(more[j] == diags[j]);
        }
    }
}

/// The expressions that the check of statement `stat` checks directly, each as
/// `exp_checked_within` says: the expression of an expression statement, the values of a
/// `return`, the conditions of `while`, `repeat` and `if`, the expressions of a `for`
/// header, and the values and targets of an assignment or declaration.
pub open spec fn stat_exps_checked(ctx: &DiagnosticContext, facts: Map<Seq<u8>, NumberFact>, cst: &Cst, from: int, diags: Seq<Diagnostic>, stat: Stat) -> bool {
    match stat {
        Stat::Expstat(es) => all_checked(ctx, facts, cst, from, diags, opt_exps(cst.spec_child_node::<Exp>(es.syntax)), false, false),
        Stat::Retstat(rs) => all_checked(ctx, facts, cst, from, diags, cst.spec_explist_exps(rs.syntax), false, false),
        Stat::Whilestat(w) => all_checked(ctx, facts, cst, from, diags, opt_exps(cst.spec_child_node::<Exp>(w.syntax)), false, false),
        Stat::Repeatstat(w) => all_checked(ctx, facts, cst, from, diags, opt_exps(cst.spec_child_node::<Exp>(w.syntax)), false, false),
        Stat::Ifstat(w) => all_checked(ctx, facts, cst, from, diags, opt_exps(cst.spec_child_node::<Exp>(w.syntax)), false, false),
        Stat::NumericForstat(f) => {
            &&& all_checked(ctx, facts, cst, from, diags, opt_exps(seq_get(cst.spec_child_nodes::<Exp>(f.syntax), 0)), false, false)
            &&& all_checked(ctx, facts, cst, from, diags, opt_exps(seq_get(cst.spec_child_nodes::<Exp>(f.syntax), 1)), false, false)
            &&& all_checked(ctx, facts, cst, from, diags, opt_exps(seq_get(cst.spec_child_nodes::<Exp>(f.syntax), 2)), false, false)
        },
        Stat::GenericForstat(f) => all_checked(ctx, facts, cst, from, diags, cst.spec_explist_exps(f.syntax), false, false),
        Stat::Assignstat(a) => {
            &&& all_checked(ctx, facts, cst, from, diags, cst.spec_explist_exps(a.syntax), false, true)
            &&& all_checked(ctx, facts, cst, from, diags, cst.spec_child_nodes::<Exp>(a.syntax), true, false)
        },
        Stat::Localvarstat(l) => all_checked(ctx, facts, cst, from, diags, cst.spec_explist_exps(l.syntax), false, true),
        Stat::Globalvarstat(g) => all_checked(ctx, facts, cst, from, diags, cst.spec_explist_exps(g.syntax), false, true),
        _ => true,
    }
}

/// What `diags` keeps of the check of a statement from index `from1` on, a longer `more`
/// keeps from any earlier index `from2` on.
pub proof fn lemma_stat_checked_move(ctx: &DiagnosticContext, facts: Map<Seq<u8>, NumberFact>, cst: &Cst, from1: int, from2: int, diags: Seq<Diagnostic>, more: Seq<Diagnostic>, stat: Stat)
    requires
        stat_exps_checked(ctx, facts, cst, from1, diags, stat),
        from2 <= from1,
        diags.len() <= more.len(),
        forall|j: int| 0 <= j < diags.len() ==> #[trigger] more[j] == diags[j],
    ensures
        stat_exps_checked(ctx, facts, cst, from2, more, stat),
{
    match stat {
        Stat::Expstat(es) => lemma_all_checked_move(ctx, facts, cst, from1, from2, diags, more, opt_exps(cst.spec_child_node::<Exp>(es.syntax)), false, false),
        Stat::Retstat(rs) => lemma_all_checked_move(ctx, facts, cst, from1, from2, diags, more, cst.spec_explist_exps(rs.syntax), false, false),
        Stat::Whilestat(w) => lemma_all_checked_move(ctx, facts, cst, from1, from2, diags, more, opt_exps(cst.spec_child_node::<Exp>(w.syntax)), false, false),
        Stat::Repeatstat(w) => lemma_all_checked_move(ctx, facts, cst, from1, from2, diags, more, opt_exps(cst.spec_child_node::<Exp>(w.syntax)), false, false),
        Stat::Ifstat(w) => lemma_all_checked_move(ctx, facts, cst, from1, from2, diags, more, opt_exps(cst.spec_child_node::<Exp>(w.syntax)), false, false),
        Stat::NumericForstat(f) => {
            lemma_all_checked_move(ctx, facts, cst, from1, from2, diags, more, opt_exps(seq_get(cst.spec_child_nodes::<Exp>(f.syntax), 0)), false, false);
            lemma_all_checked_move(ctx, facts, cst, from1, from2, diags, more, opt_exps(seq_get(cst.spec_child_nodes::<Exp>(f.syntax), 1)), false, false);
            lemma_all_checked_move(ctx, facts, cst, from1, from2, diags, more, opt_exps(seq_get(cst.spec_child_nodes::<Exp>(f.syntax), 2)), false, false);
        },
        Stat::GenericForstat(f) => lemma_all_checked_move(ctx, facts, cst, from1, from2, diags, more, cst.spec_explist_exps(f.syntax), false, false),
        Stat::Assignstat(a) => {
            lemma_all_checked_move(ctx, facts, cst, from1, from2, diags, more, cst.spec_explist_exps(a.syntax), false, true);
            lemma_all_checked_move(ctx, facts, cst, from1, from2, diags, more, cst.spec_child_nodes::<Exp>(a.syntax), true, false);
        },
        Stat::Localvarstat(l) => lemma_all_checked_move(ctx, facts, cst, from1, from2, diags, more, cst.spec_explist_exps(l.syntax), false, true),
        Stat::Globalvarstat(g) => lemma_all_checked_move(ctx, facts, cst, from1, from2, diags, more, cst.spec_explist_exps(g.syntax), false, true),
        _ => {},
    }
}

/// The blocks that the statement `stat` owns, each with the parameters of the function it is
/// the body of: the body of `do`, of a loop and of a named function, and the block of each
/// branch of an `if`.
pub open spec fn stat_blocks(cst: &Cst, stat: Stat) -> Seq<(Option<Block>, Option<Pars>)> {
    match stat {
        Stat::Dostat(s) => seq![(cst.spec_child_node::<Block>(s.syntax), None)],
        Stat::Whilestat(s) => seq![(cst.spec_child_node::<Block>(s.syntax), None)],
        Stat::Repeatstat(s) => seq![(cst.spec_child_node::<Block>(s.syntax), None)],
        Stat::NumericForstat(s) => seq![(cst.spec_child_node::<Block>(s.syntax), None)],
        Stat::GenericForstat(s) => seq![(cst.spec_child_node::<Block>(s.syntax), None)],
        Stat::Ifstat(s) => seq![(cst.spec_child_node::<Block>(s.syntax), None)]
            + cst.spec_child_nodes::<ElifBranch>(s.syntax).map_values(|br: ElifBranch| (cst.spec_child_node::<Block>(br.syntax), None::<Pars>))
            + seq![(match cst.spec_child_node::<ElseBranch>(s.syntax) {
                Some(e) => cst.spec_child_node::<Block>(e.syntax),
                None => None,
            }, None)],
        Stat::Funcstat(s) => seq![(if cst.spec_child_node::<Funcname>(s.syntax) is Some {
            cst.spec_child_node::<Block>(s.syntax)
        } else {
            None
        }, cst.spec_child_node::<Pars>(s.syntax))],
        Stat::Localfuncstat(s) => seq![(cst.spec_child_node::<Block>(s.syntax), cst.spec_child_node::<Pars>(s.syntax))],
        Stat::Globalfuncstat(s) => seq![(cst.spec_child_node::<Block>(s.syntax), cst.spec_child_node::<Pars>(s.syntax))],
        _ => Seq::empty(),
    }
}

/// The reports that checking the block `block`, the body of a function with parameters
/// `pars` if any, makes between the diagnostics `old_d` and `new_d`, inside no loop where
/// `loops_empty`: its parameter report first, each empty statement after another, each
/// `break` outside a loop, the reports of the expressions of each statement and those of the
/// blocks each statement owns, and at its end the reports of its scope as it closes with
/// `depth` scopes around it, a scope that binds the parameters and the names that the
/// block's statements declare.
pub open spec fn block_reports_hold(ctx: &DiagnosticContext, facts: Map<Seq<u8>, NumberFact>, cst: &Cst, loops_empty: bool, depth: int, old_d: Seq<Diagnostic>, new_d: Seq<Diagnostic>, block: Block, pars: Option<Pars>) -> bool
    decreases cst.spec_len() - block.syntax.0, 1int,
{
    let stats = cst.spec_child_nodes::<Stat>(block.syntax);
    &&& reported(ctx, cst.source_view().len() as int, old_d, new_d)
    &&& (pars matches Some(p) ==> diagnostics_view(new_d.take((old_d.len() + par_reports(ctx, cst, p).len()) as int))
        == diagnostics_view(old_d) + par_reports(ctx, cst, p))
    &&& (ctx.levels@[EMPTY_STATEMENT as int] != Severity::Allow ==> forall|j: int|
        #[trigger] empty_after_empty(stats, j) ==> empty_statement_reported(ctx, cst, stats[j], new_d, old_d.len() as int))
    &&& (loops_empty ==> forall|j: int| 0 <= j < stats.len() && (#[trigger] stats[j]) is Breakstat
        ==> reported_at_or_after(new_d, old_d.len() as int, break_outside_view(cst.node_span(stats[j].spec_syntax()))))
    &&& forall|j: int| 0 <= j < stats.len() ==> stat_exps_checked(ctx, facts, cst, old_d.len() as int, new_d, #[trigger] stats[j])
    &&& forall|j: int| 0 <= j < stats.len() && after(cst, stats[j].spec_syntax(), block.syntax)
        ==> stat_bodies_checked(ctx, facts, cst, old_d.len() as int, new_d, #[trigger] stats[j])
    &&& exists|s: Scope, before: Seq<Diagnostic>|
        #[trigger] scope_closed(ctx, cst, old_d.len() as int, before, new_d, s, depth)
        && s.func == pars is Some
        && pars_declared(cst, pars, s)
        && forall|j: int| 0 <= j < stats.len() ==> stat_declared(cst, #[trigger] stats[j], s)
}

/// Each block that the statement `stat` owns was checked, as `block_checked_within` says.
pub open spec fn stat_bodies_checked(ctx: &DiagnosticContext, facts: Map<Seq<u8>, NumberFact>, cst: &Cst, from: int, diags: Seq<Diagnostic>, stat: Stat) -> bool
    decreases cst.spec_len() - stat.spec_syntax().0, 3int,
{
    let bs = stat_blocks(cst, stat);
    forall|k: int| #![trigger bs[k]] 0 <= k < bs.len() ==> match bs[k].0 {
        Some(b) => after(cst, b.syntax, stat.spec_syntax()) ==> block_checked_within(ctx, facts, cst, from, diags, b, bs[k].1),
        None => true,
    }
}

/// Some check of the block `block` appended the reports that `block_reports_hold` gives, to
/// diagnostics that, from index `from` on, `diags` keeps.
pub open spec fn block_checked_within(ctx: &DiagnosticContext, facts: Map<Seq<u8>, NumberFact>, cst: &Cst, from: int, diags: Seq<Diagnostic>, block: Block, pars: Option<Pars>) -> bool
    decreases cst.spec_len() - block.syntax.0, 2int,
{
    exists|le: bool, depth: int, d1: Seq<Diagnostic>, d2: Seq<Diagnostic>|
        #[trigger] check_window(le, depth, from, d1, d2, diags)
        && block_reports_hold(ctx, facts, cst, le, depth, d1, d2, block, pars)
}

/// The diagnostics `d1` to `d2` of a check, inside no loop where `le` and with `depth`
/// scopes around the one it closes, start at or after
/// index `from`, and `diags` keeps `d2`.
pub open spec fn check_window(le: bool, depth: int, from: int, d1: Seq<Diagnostic>, d2: Seq<Diagnostic>, diags: Seq<Diagnostic>) -> bool {
    &&& from <= d1.len()
    &&& d2.len() <= diags.len()
    &&& forall|j: int| 0 <= j < d2.len() ==> #[trigger] diags[j] == d2[j]
}

/// A check of a block that appended its reports between `d1` and `d2` is one that `d2` keeps.
pub proof fn lemma_block_checked_here(ctx: &DiagnosticContext, facts: Map<Seq<u8>, NumberFact>, cst: &Cst, from: int, le: bool, depth: int, d1: Seq<Diagnostic>, d2: Seq<Diagnostic>, block: Block, pars: Option<Pars>)
    requires
        block_reports_hold(ctx, facts, cst, le, depth, d1, d2, block, pars),
        from <= d1.len(),
    ensures
        block_checked_within(ctx, facts, cst, from, d2, block, pars),
{
    assert(check_window(le, depth, from, d1, d2, d2));
}

/// A check of a block that `diags` keeps from `from1` on, a longer `more` keeps from any
/// earlier `from2` on.
pub proof fn lemma_block_checked_move(ctx: &DiagnosticContext, facts: Map<Seq<u8>, NumberFact>, cst: &Cst, from1: int, from2: int, diags: Seq<Diagnostic>, more: Seq<Diagnostic>, block: Block, pars: Option<Pars>)
    requires
        block_checked_within(ctx, facts, cst, from1, diags, block, pars),
        from2 <= from1,
        diags.len() <= more.len(),
        forall|j: int| 0 <= j < diags.len() ==> #[trigger] more[j] == diags[j],
    ensures
        block_checked_within(ctx, facts, cst, from2, more, block, pars),
{
    let (le, depth, d1, d2) = choose|le: bool, depth: int, d1: Seq<Diagnostic>, d2: Seq<Diagnostic>|
        #[trigger] check_window(le, depth, from1, d1, d2, diags)
        && block_reports_hold(ctx, facts, cst, le, depth, d1, d2, block, pars);
    assert forall|j: int| 0 <= j < d2.len() implies #[trigger] more[j] == d2[j] by {
        assert(more[j] == diags[j]);
    }
    assert(check_window(le, depth, from2, d1, d2, more));
}

/// The checks of the blocks a statement owns that `diags` keeps from `from1` on, a longer
/// `more` keeps from any earlier `from2` on.
pub proof fn lemma_bodies_checked_move(ctx: &DiagnosticContext, facts: Map<Seq<u8>, NumberFact>, cst: &Cst, from1: int, from2: int, diags: Seq<Diagnostic>, more: Seq<Diagnostic>, stat: Stat)
    requires
        stat_bodies_checked(ctx, facts, cst, from1, diags, stat),
        from2 <= from1,
        diags.len() <= more.len(),
        forall|j: int| 0 <= j < diags.len() ==> #[trigger] more[j] == diags[j],
    ensures
        stat_bodies_checked(ctx, facts, cst, from2, more, stat),
{
    let bs = stat_blocks(cst, stat);
    assert forall|k: int| #![trigger bs[k]] 0 <= k < bs.len() implies match bs[k].0 {
        Some(b) => after(cst, b.syntax, stat.spec_syntax()) ==> block_checked_within(ctx, facts, cst, from2, more, b, bs[k].1),
        None => true,
    } by {
        if let Some(b) = bs[k].0 {
            if after(cst, b.syntax, stat.spec_syntax()) {
                lemma_block_checked_move(ctx, facts, cst, from1, from2, diags, more, b, bs[k].1);
            }
        }
    }
}

impl<'a> Checks<'a> {
    /// Checks the decimal integer numeral `text` at `span` and returns its type.
    fn check_decint(&self, cst: &Cst, numbers: &NameMap<NumberFact>, diags: &mut Vec<Diagnostic>, text: &[u8], span: Span) -> (r: TypeSet)
        requires
            self.diag_ctx.levels@.len() == LINT_COUNT,
            numbers.wf(),
            text@ == cst.text(span),
            span.start <= span.end <= cst.source_view().len(),
        ensures
            diagnostics_view(final(diags)@) == diagnostics_view(old(diags)@) + decint_reports(&self.diag_ctx, numbers.map(), text@, span),
            r.0 == decint_type(numbers.map(), text@),
            reported(&self.diag_ctx, cst.source_view().len() as int, old(diags)@, final(diags)@),
    {
        let ghost before = diagnostics_view(diags@);
        if let Some(octal_confusion) = self.diag_ctx.active::<OctalConfusion>() {
            if text.len() > 1 && text[0] == 48u8 {
                let d = octal_confusion.build(span);
                diags.push(d);
                assert(diagnostics_view(diags@) =~= before + seq![d@]);
            }
        }
        let ghost oct: Seq<DiagnosticView> = if self.diag_ctx.levels@[OCTAL_CONFUSION as int] != Severity::Allow && text@.len() > 1 && text@[0] == 48u8 {
            seq![lint_diagnostic(&self.diag_ctx, OCTAL_CONFUSION, seq![ann(AnnotationKind::Primary, span, None)], seq![note(Level::Note, "Lua doesn't have the octal numbers syntax from C"@)] + seq![patches(Level::Help, "remove the prefix"@, seq![patch((Span { start: span.start, end: (span.start + 1) as usize }), ""@)])])]
        } else {
            Seq::empty()
        };
        assert(diagnostics_view(diags@) =~= before + oct);
        let ghost mid = diagnostics_view(diags@);
        if decimal_overflows(text) {
            if let Some(fact) = numbers.get(text) {
                if fact.infinite && self.diag_ctx.active::<RoundsToInf>().is_some() {
                    let rounds_to_inf = RoundsToInf(&self.diag_ctx);
                    let d = rounds_to_inf.build(span);
                    diags.push(d);
                    assert(diagnostics_view(diags@) =~= mid + seq![d@]);
                } else if let Some(rounds_int_part) = self.diag_ctx.active::<RoundsIntPart>() {
                    if !bytes_eq(text, fact.int_part.as_slice()) {
                        let d = rounds_int_part.build(span, fact.value_text.as_str());
                        diags.push(d);
                        assert(diagnostics_view(diags@) =~= mid + seq![d@]);
                    }
                }
                assert(diagnostics_view(diags@) =~= before + decint_reports(&self.diag_ctx, numbers.map(), text@, span));
                return TypeSet::float();
            }
        }
        assert(diagnostics_view(diags@) =~= before + decint_reports(&self.diag_ctx, numbers.map(), text@, span));
        TypeSet::integer()
    }

    /// Checks the hexadecimal integer numeral `text` at `span`.
    fn check_hexint(&self, cst: &Cst, diags: &mut Vec<Diagnostic>, text: &[u8], span: Span)
        requires
            self.diag_ctx.levels@.len() == LINT_COUNT,
            text@ == cst.text(span),
            span.start <= span.end <= cst.source_view().len(),
        ensures
            diagnostics_view(final(diags)@) == diagnostics_view(old(diags)@) + hexint_reports(&self.diag_ctx, text@, span),
            reported(&self.diag_ctx, cst.source_view().len() as int, old(diags)@, final(diags)@),
    {
        let ghost before = diagnostics_view(diags@);
        if text.len() >= 2 {
            let digits = slice_range(text, 2, text.len());
            if let Some(actual_val) = hex_overflow_value(digits) {
                if let Some(hex_int_overflow) = self.diag_ctx.active::<HexIntOverflow>() {
                    let d = hex_int_overflow.build(span, actual_val);
                    diags.push(d);
                    assert(diagnostics_view(diags@) =~= before + seq![d@]);
                }
            }
        }
        assert(diagnostics_view(diags@) =~= before + hexint_reports(&self.diag_ctx, text@, span));
    }

    /// Checks the decimal float numeral `text` at `span`.
    fn check_decfloat(&self, cst: &Cst, numbers: &NameMap<NumberFact>, diags: &mut Vec<Diagnostic>, text: &[u8], span: Span)
        requires
            self.diag_ctx.levels@.len() == LINT_COUNT,
            numbers.wf(),
            text@ == cst.text(span),
            span.start <= span.end <= cst.source_view().len(),
        ensures
            diagnostics_view(final(diags)@) == diagnostics_view(old(diags)@) + decfloat_reports(&self.diag_ctx, numbers.map(), text@, span),
            reported(&self.diag_ctx, cst.source_view().len() as int, old(diags)@, final(diags)@),
    {
        let ghost before = diagnostics_view(diags@);
        if let Some(fact) = numbers.get(text) {
            let differs = match integer_digits(text) {
                Some(digits) => !bytes_eq(digits, fact.int_part.as_slice()),
                None => false,
            };
            assert(differs == int_part_differs(text@, fact.int_part@));
            if fact.infinite && self.diag_ctx.active::<RoundsToInf>().is_some() {
                let rounds_to_inf = RoundsToInf(&self.diag_ctx);
                let d = rounds_to_inf.build(span);
                diags.push(d);
                assert(diagnostics_view(diags@) =~= before + seq![d@]);
            } else if differs && self.diag_ctx.active::<RoundsIntPart>().is_some() {
                let rounds_int_part = RoundsIntPart(&self.diag_ctx);
                let d = rounds_int_part.build(span, fact.value_text.as_str());
                diags.push(d);
                assert(diagnostics_view(diags@) =~= before + seq![d@]);
            } else if let Some(approx_pi) = self.diag_ctx.active::<ApproxPi>() {
                if fact.near_pi {
                    let d = approx_pi.build(span);
                    diags.push(d);
                    assert(diagnostics_view(diags@) =~= before + seq![d@]);
                }
            }
        }
        assert(diagnostics_view(diags@) =~= before + decfloat_reports(&self.diag_ctx, numbers.map(), text@, span));
    }

    /// Checks the hexadecimal float numeral `text` at `span`.
    fn check_hexfloat(&self, cst: &Cst, diags: &mut Vec<Diagnostic>, text: &[u8], span: Span)
        requires
            self.diag_ctx.levels@.len() == LINT_COUNT,
            text@ == cst.text(span),
            span.start <= span.end <= cst.source_view().len(),
        ensures
            diagnostics_view(final(diags)@) == diagnostics_view(old(diags)@) + hexfloat_reports(&self.diag_ctx, text@, span),
            reported(&self.diag_ctx, cst.source_view().len() as int, old(diags)@, final(diags)@),
    {
        let ghost before = diagnostics_view(diags@);
        if !hex_float_exact(text) {
            if let Some(inexact_hex_float) = self.diag_ctx.active::<InexactHexFloat>() {
                let d = inexact_hex_float.build(span);
                diags.push(d);
                assert(diagnostics_view(diags@) =~= before + seq![d@]);
            }
        }
        assert(diagnostics_view(diags@) =~= before + hexfloat_reports(&self.diag_ctx, text@, span));
    }
}

impl<'a> Checks<'a> {
    /// Checks an expression and returns the types its value may have.
    #[verifier::spinoff_prover]
    #[verifier::rlimit(80)]
    fn check_exp(
        &mut self,
        cst: &Cst,
        numbers: &NameMap<NumberFact>,
        diags: &mut Vec<Diagnostic>,
        sema: &mut SemanticData,
        exp: Exp,
        lhs: bool,
        sub: bool,
    ) -> (r: TypeSet)
        requires
            old(self).wf(cst),
            old(self).scopes.scopes@.len() > 0,
            numbers.wf(),
            exp.spec_syntax().0 < cst.spec_len(),
            node_map_below(old(sema).decl_bindings@, cst.spec_len()),
            node_map_below(old(sema).break_bindings@, cst.spec_len()),
        ensures
            final(self).wf(cst),
            final(self).keeps(old(self)),
            reported(&old(self).diag_ctx, cst.source_view().len() as int, old(diags)@, final(diags)@),
            node_map_below(final(sema).decl_bindings@, cst.spec_len()),
            node_map_below(final(sema).break_bindings@, cst.spec_len()),
            r == exp_type(numbers.map(), cst, old(self).scopes.scopes@, exp),
            leaf_exp_type(numbers.map(), cst, exp) matches Some(t) ==> r == TypeSet(t),
            exp matches Exp::Binexp(be) ==> match error_prone_negation_report(&old(self).diag_ctx, cst, be) {
                Some(d) => reported_at_or_after(final(diags)@, old(diags)@.len() as int, d),
                None => true,
            },
            exp matches Exp::Binexp(be) ==> match bool_compare_report(&old(self).diag_ctx, cst, be,
                exp_type(numbers.map(), cst, old(self).scopes.scopes@, cst.spec_child_nodes::<Exp>(be.syntax)[0]),
                exp_type(numbers.map(), cst, old(self).scopes.scopes@, cst.spec_child_nodes::<Exp>(be.syntax)[1])) {
                Some(d) => reported_at_or_after(final(diags)@, old(diags)@.len() as int, d),
                None => true,
            },
            exp is Trueexp || exp is Falseexp ==> final(self).scopes == old(self).scopes,
            exp matches Exp::Unaryexp(u) ==> match unnecessary_negation_report(&old(self).diag_ctx, cst, u) {
                Some(d) => reported_at_or_after(final(diags)@, old(diags)@.len() as int, d),
                None => true,
            },
            exp matches Exp::Callexp(c) ==> match next_line_args_report(&old(self).diag_ctx, cst, c) {
                Some(d) => reported_at_or_after(final(diags)@, old(diags)@.len() as int, d),
                None => true,
            },
            exp matches Exp::Functiondef(f) ==> match cst.spec_child_node::<Block>(f.syntax) {
                Some(b) => block_checked_within(&old(self).diag_ctx, numbers.map(), cst, old(diags)@.len() as int, final(diags)@, b, cst.spec_child_node::<Pars>(f.syntax)),
                None => true,
            },
            exp is Tableconstructor ==> r == TypeSet(64),
            numeral_exp_reports(&old(self).diag_ctx, numbers.map(), cst, exp) matches Some(reps)
                ==> diagnostics_view(final(diags)@) == diagnostics_view(old(diags)@) + reps,
            exp is Nilexp || exp is Trueexp || exp is Falseexp || exp is Stringexp ==> final(diags)@ == old(diags)@,
            exp matches Exp::Nameexp(e) ==> diagnostics_view(final(diags)@) == diagnostics_view(old(diags)@) + match cst.spec_child_token(e.syntax, Token::Name) {
                Some(n) => name_reports(&old(self).diag_ctx, cst, old(self).scopes.scopes@, cst.text(cst.node_span(n)), cst.node_span(n), lhs, sub),
                None => Seq::empty(),
            },
            exp matches Exp::Parenexp(e) ==> match cst.spec_child_node::<Exp>(e.syntax) {
                Some(Exp::Parenexp(inner)) => old(self).diag_ctx.levels@[REDUNDANT_PARENTHESES as int] != Severity::Allow
                ==> final(diags)@.len() > old(diags)@.len() && final(diags)@.last()@ == lint_diagnostic(
                &old(self).diag_ctx,
                REDUNDANT_PARENTHESES,
                seq![ann(AnnotationKind::Primary, cst.node_span(e.syntax), None)],
                seq![patches(Level::Help, "remove extra parentheses"@, seq![
                    patch((Span { start: cst.node_span(e.syntax).start, end: cst.node_span(inner.syntax).start }), ""@),
                    patch((Span { start: cst.node_span(inner.syntax).end, end: cst.node_span(e.syntax).end }), ""@),
                ])],
            ),
                _ => true,
            },
            exp matches Exp::Varargexp(e) ==> diagnostics_view(final(diags)@) == diagnostics_view(old(diags)@) + if varargs_below(old(self).scopes.scopes@, old(self).scopes.scopes@.len() as int) {
                Seq::empty()
            } else {
                seq![DiagnosticView { error: true, groups: seq![annotated(Level::Error, "cannot use `...` outside a vararg function"@, seq![ann(AnnotationKind::Primary, cst.node_span(e.syntax), None)])] }]
            },
            exp is Nameexp ==> r == (match cst.spec_child_token(exp->Nameexp_0.syntax, Token::Name) {
                Some(n) => match lookup_var(old(self).scopes.scopes@, cst.text(cst.node_span(n))) {
                    Some((Variable::Local(l), _)) => l.ty,
                    Some((Variable::Vararg(_), _)) => TypeSet(64),
                    _ => TypeSet(0),
                },
                None => TypeSet(0),
            }),
            exp is Binexp || exp is Unaryexp || exp is Fieldexp || exp is Indexexp || exp is Callexp
                || exp is Functiondef || exp is Varargexp ==> r == TypeSet(0),
        decreases cst.spec_len() - exp.spec_syntax().0, 0int,
    {
        match exp {
            Exp::Binexp(binexp) => {
                let ops = binexp.operands(cst);
                let lhs_exp: Option<Exp> = if ops.len() > 0 { Some(ops[0]) } else { None };
                let rhs_exp: Option<Exp> = if ops.len() > 1 { Some(ops[1]) } else { None };
                let mut lhs_ty = TypeSet::empty();
                let span = binexp.span(cst);
                if let Some(l) = lhs_exp {
                    lhs_ty = self.check_exp(cst, numbers, diags, sema, l, false, true);
                }
                let ghost mid_scopes = self.scopes.scopes@;
                if let Some(r) = rhs_exp {
                    let rhs_ty = self.check_exp(cst, numbers, diags, sema, r, false, true);
                    if let Some(error_prone_negation) = self.diag_ctx.active::<ErrorProneNegation>() {
                        let rhs_negation = match r {
                            Exp::Unaryexp(u) => u.is_negation(cst),
                            _ => false,
                        };
                        if !rhs_negation {
                            if let (Some(Exp::Unaryexp(operand)), Some((_, bin_op_span))) = (lhs_exp, binexp.relational_operator(cst)) {
                                if operand.is_negation(cst) {
                                    if let Some(un_operand) = operand.operand(cst) {
                                        let d = error_prone_negation.build(
                                            un_operand.span(cst),
                                            operand.span(cst),
                                            span,
                                            bin_op_span,
                                        );
                                        diags.push(d);
                                        assert(diags@[diags@.len() - 1]@ == d@);
                                    }
                                }
                            }
                        }
                    }
                    let ghost after_neg = diags@;
                    proof {
                        if let Some(d) = error_prone_negation_report(&old(self).diag_ctx, cst, binexp) {
                            assert(ops@.len() >= 2);
                            let k = after_neg.len() - 1;
                            assert(old(diags)@.len() <= k < after_neg.len() && after_neg[k]@ == d);
                        }
                    }
                    if let Some(bool_compare) = self.diag_ctx.active::<BoolCompare>() {
                        if let (Some((bin_op, _)), Some(l)) = (binexp.relational_operator(cst), lhs_exp) {
                            if bin_op == Token::EqualEqual || bin_op == Token::TildeEqual {
                                let l_true = match l { Exp::Trueexp(_) => true, _ => false };
                                let l_false = match l { Exp::Falseexp(_) => true, _ => false };
                                let r_true = match r { Exp::Trueexp(_) => true, _ => false };
                                let r_false = match r { Exp::Falseexp(_) => true, _ => false };
                                let l_bin = match l { Exp::Binexp(_) => true, _ => false };
                                let r_bin = match r { Exp::Binexp(_) => true, _ => false };
                                if l_true && rhs_ty == TypeSet::boolean() {
                                    diags.push(bool_compare.build(span, r.span(cst), bin_op == Token::TildeEqual, r_bin));
                                } else if l_false && rhs_ty == TypeSet::boolean() {
                                    diags.push(bool_compare.build(span, r.span(cst), bin_op == Token::EqualEqual, r_bin));
                                } else if r_true && lhs_ty == TypeSet::boolean() {
                                    diags.push(bool_compare.build(span, l.span(cst), bin_op == Token::TildeEqual, l_bin));
                                } else if r_false && lhs_ty == TypeSet::boolean() {
                                    diags.push(bool_compare.build(span, l.span(cst), bin_op == Token::EqualEqual, l_bin));
                                }
                            }
                        }
                    }
                    proof {
                        if let Some(d) = error_prone_negation_report(&old(self).diag_ctx, cst, binexp) {
                            let k = choose|k: int| old(diags)@.len() <= k < after_neg.len() && #[trigger] after_neg[k]@ == d;
                            assert(diags@[k] == after_neg[k]);
                        }
                        if ops@[0] is Trueexp || ops@[0] is Falseexp {
                            assert(mid_scopes == old(self).scopes.scopes@);
                        }
                        if let Some(d) = bool_compare_report(&old(self).diag_ctx, cst, binexp,
                            exp_type(numbers.map(), cst, old(self).scopes.scopes@, ops@[0]),
                            exp_type(numbers.map(), cst, old(self).scopes.scopes@, ops@[1])) {
                            let k = diags@.len() - 1;
                            assert(old(diags)@.len() <= k && diags@[k]@ == d);
                        }
                    }
                }
                TypeSet::empty()
            },
            Exp::Unaryexp(unaryexp) => {
                if let Some(operand) = unaryexp.operand(cst) {
                    if let Some(unnecessary_negation) = self.diag_ctx.active::<UnnecessaryNegation>() {
                        if let (Some((_, operator_span)), Exp::Parenexp(parenexp)) = (unaryexp.operator(cst), operand) {
                            if unaryexp.is_negation(cst) {
                                if let Some(Exp::Binexp(binexp)) = parenexp.inner(cst) {
                                    if let Some((bin_op_tok, bin_op_span)) = binexp.relational_operator(cst) {
                                        proof {
                                            lemma_first_token_of(cst, cst.spec_children(binexp.syntax), relational_tokens());
                                        }
                                        diags.push(unnecessary_negation.build(
                                            operator_span,
                                            bin_op_tok,
                                            bin_op_span,
                                            binexp.span(cst),
                                            parenexp.span(cst),
                                        ));
                                    }
                                }
                            }
                        }
                    }
                    let ghost pushed = diags@;
                    proof {
                        if let Some(d) = unnecessary_negation_report(&old(self).diag_ctx, cst, unaryexp) {
                            let k = old(diags)@.len() as int;
                            assert(k < pushed.len() && pushed[k]@ == d);
                        }
                    }
                    self.check_exp(cst, numbers, diags, sema, operand, false, true);
                    proof {
                        if let Some(d) = unnecessary_negation_report(&old(self).diag_ctx, cst, unaryexp) {
                            let k = old(diags)@.len() as int;
                            assert(diags@[k] == pushed[k]);
                        }
                    }
                }
                TypeSet::empty()
            },
            Exp::Nameexp(nameexp) => {
                if let Some((name, name_span)) = nameexp.name(cst) {
                    return self.check_name(cst, diags, sema, nameexp.syntax(), name, name_span, lhs, sub);
                }
                TypeSet::empty()
            },
            Exp::Parenexp(parenexp) => {
                if let Some(inner) = parenexp.inner(cst) {
                    let res = self.check_exp(cst, numbers, diags, sema, inner, lhs, true);
                    if let Some(redundant_parentheses) = self.diag_ctx.active::<RedundantParentheses>() {
                        if let Exp::Parenexp(inner_parenexp) = inner {
                            diags.push(redundant_parentheses.build(parenexp.span(cst), inner_parenexp.span(cst)));
                        }
                    }
                    return res;
                }
                TypeSet::empty()
            },
            Exp::Fieldexp(fieldexp) => {
                if let Some(base) = fieldexp.base(cst) {
                    self.check_exp(cst, numbers, diags, sema, base, false, true);
                }
                TypeSet::empty()
            },
            Exp::Indexexp(indexexp) => {
                let (base, index) = indexexp.base_and_index(cst);
                if let Some(base) = base {
                    self.check_exp(cst, numbers, diags, sema, base, false, true);
                }
                if let Some(index) = index {
                    self.check_exp(cst, numbers, diags, sema, index, false, true);
                }
                TypeSet::empty()
            },
            Exp::Callexp(callexp) => {
                if let Some(base) = callexp.base(cst) {
                    self.check_exp(cst, numbers, diags, sema, base, false, true);
                    if let Some(args) = callexp.args(cst) {
                        if let Some(next_line_args) = self.diag_ctx.active::<NextLineArgs>() {
                            if args.in_next_line(cst) {
                                let d = next_line_args.build(args.span(cst), base.span(cst));
                                diags.push(d);
                                assert(diags@[diags@.len() - 1]@ == d@);
                            }
                        }
                        let ghost mid = diags@;
                        proof {
                            if let Some(d) = next_line_args_report(&old(self).diag_ctx, cst, callexp) {
                                let k = mid.len() - 1;
                                assert(old(diags)@.len() <= k < mid.len() && mid[k]@ == d);
                            }
                        }
                        let argexps = args.expressions(cst);
                        let mut i: usize = 0;
                        while i < argexps.len()
                            invariant
                                self.wf(cst),
                                self.keeps(old(self)),
                                old(self).scopes.scopes@.len() > 0,
                                numbers.wf(),
                                reported(&old(self).diag_ctx, cst.source_view().len() as int, old(diags)@, diags@),
                                node_map_below(sema.decl_bindings@, cst.spec_len()),
                                node_map_below(sema.break_bindings@, cst.spec_len()),
                                forall|k: int| 0 <= k < argexps@.len() ==> after(cst, #[trigger] argexps@[k].spec_syntax(), args.spec_syntax()),
                                after(cst, args.spec_syntax(), callexp.syntax),
                                exp == Exp::Callexp(callexp),
                                mid.len() <= diags@.len(),
                                forall|j: int| 0 <= j < mid.len() ==> #[trigger] diags@[j] == mid[j],
                            decreases argexps@.len() - i,
                        {
                            self.check_exp(cst, numbers, diags, sema, argexps[i], false, true);
                            i = i + 1;
                        }
                        proof {
                            if let Some(d) = next_line_args_report(&old(self).diag_ctx, cst, callexp) {
                                let k = choose|k: int| old(diags)@.len() <= k < mid.len() && #[trigger] mid[k]@ == d;
                                assert(diags@[k] == mid[k]);
                            }
                        }
                    }
                }
                TypeSet::empty()
            },
            Exp::Functiondef(functiondef) => {
                let ghost mut b_done = diags@;
                if let Some(block) = functiondef.block(cst) {
                    let ghost le = self.loops@.len() == 0;
                    let ghost depth = self.scopes.scopes@.len() as int;
                    self.check_block(cst, numbers, diags, sema, block, functiondef.pars(cst), BlockLocals::Nothing);
                    proof {
                        lemma_block_checked_here(&old(self).diag_ctx, numbers.map(), cst, old(diags)@.len() as int, le, depth, old(diags)@, diags@, block, cst.spec_child_node::<Pars>(functiondef.syntax));
                        b_done = diags@;
                    }
                }
                self.check_func_lines(cst, diags, functiondef.syntax());
                proof {
                    if let Some(b) = cst.spec_child_node::<Block>(functiondef.syntax) {
                        lemma_block_checked_move(&old(self).diag_ctx, numbers.map(), cst, old(diags)@.len() as int, old(diags)@.len() as int, b_done, diags@, b, cst.spec_child_node::<Pars>(functiondef.syntax));
                    }
                }
                TypeSet::empty()
            },
            Exp::Tableconstructor(tableconstructor) => {
                let fields = tableconstructor.fields(cst);
                let mut i: usize = 0;
                while i < fields.len()
                    invariant
                        self.wf(cst),
                        self.keeps(old(self)),
                        old(self).scopes.scopes@.len() > 0,
                        numbers.wf(),
                        reported(&old(self).diag_ctx, cst.source_view().len() as int, old(diags)@, diags@),
                        node_map_below(sema.decl_bindings@, cst.spec_len()),
                        node_map_below(sema.break_bindings@, cst.spec_len()),
                        forall|k: int| 0 <= k < fields@.len() ==> after(cst, #[trigger] fields@[k].spec_syntax(), tableconstructor.syntax),
                        exp == Exp::Tableconstructor(tableconstructor),
                    decreases fields@.len() - i,
                {
                    assert(after(cst, fields@[i as int].spec_syntax(), tableconstructor.syntax));
                    match fields[i] {
                        Field::KeyvalField(keyval_field) => {
                            let (key, val) = keyval_field.key_val(cst);
                            if let Some(key) = key {
                                self.check_exp(cst, numbers, diags, sema, key, false, true);
                            }
                            if let Some(val) = val {
                                self.check_exp(cst, numbers, diags, sema, val, false, true);
                            }
                        },
                        Field::NamedField(named_field) => {
                            if let Some(val) = named_field.val(cst) {
                                self.check_exp(cst, numbers, diags, sema, val, false, true);
                            }
                        },
                        Field::CountedField(counted_field) => {
                            if let Some(val) = counted_field.val(cst) {
                                self.check_exp(cst, numbers, diags, sema, val, false, true);
                            }
                        },
                    }
                    i = i + 1;
                }
                TypeSet::table()
            },
            Exp::Varargexp(varargexp) => {
                if !self.scopes.has_varargs() {
                    diags.push(self.diag_ctx.invalid_vararg(varargexp.span(cst)));
                }
                TypeSet::empty()
            },
            Exp::Decintexp(numexp) => {
                if let Some((num_str, num_span)) = numexp.val(cst) {
                    return self.check_decint(cst, numbers, diags, num_str, num_span);
                }
                assert(diags@ =~= old(diags)@);
                TypeSet::integer()
            },
            Exp::Hexintexp(numexp) => {
                if let Some((num_str, num_span)) = numexp.val(cst) {
                    self.check_hexint(cst, diags, num_str, num_span);
                }
                assert(diagnostics_view(diags@) =~= diagnostics_view(old(diags)@) + numeral_exp_reports(&old(self).diag_ctx, numbers.map(), cst, exp)->0);
                TypeSet::integer()
            },
            Exp::Decfloatexp(numexp) => {
                if let Some((num_str, num_span)) = numexp.val(cst) {
                    self.check_decfloat(cst, numbers, diags, num_str, num_span);
                }
                assert(diagnostics_view(diags@) =~= diagnostics_view(old(diags)@) + numeral_exp_reports(&old(self).diag_ctx, numbers.map(), cst, exp)->0);
                TypeSet::float()
            },
            Exp::Hexfloatexp(numexp) => {
                if let Some((num_str, num_span)) = numexp.val(cst) {
                    self.check_hexfloat(cst, diags, num_str, num_span);
                }
                assert(diagnostics_view(diags@) =~= diagnostics_view(old(diags)@) + numeral_exp_reports(&old(self).diag_ctx, numbers.map(), cst, exp)->0);
                TypeSet::float()
            },
            Exp::Nilexp(_) => TypeSet::nil(),
            Exp::Trueexp(_) => TypeSet::boolean(),
            Exp::Falseexp(_) => TypeSet::boolean(),
            Exp::Stringexp(_) => TypeSet::string(),
        }
    }
}

/// The index of the first byte `b` in `s`, if any.
pub open spec fn first_index_of(s: Seq<u8>, b: u8) -> Option<int> {
    if s.contains(b) {
        Some(choose|i: int| 0 <= i < s.len() && s[i] == b && forall|k: int| 0 <= k < i ==> s[k] != b)
    } else {
        None
    }
}

/// The integer digits of a decimal float numeral without exponent: the bytes before its
/// first `.`, when there are any.
pub fn integer_digits(s: &[u8]) -> (r: Option<&[u8]>)
    ensures
        r is Some <==> !s@.contains(101u8) && !s@.contains(69u8) && s@.contains(46u8) && first_index_of(s@, 46u8)->0 > 0,
        r matches Some(d) ==> d@ == s@.subrange(0, first_index_of(s@, 46u8)->0),
{
    let mut i: usize = 0;
    let mut dot: Option<usize> = None;
    while i < s.len()
        invariant
            i <= s@.len(),
            forall|k: int| 0 <= k < i ==> s@[k] != 101u8 && s@[k] != 69u8,
            dot matches Some(d) ==> d < i && s@[d as int] == 46u8 && forall|k: int| 0 <= k < d ==> s@[k] != 46u8,
            dot is None ==> forall|k: int| 0 <= k < i ==> s@[k] != 46u8,
        decreases s@.len() - i,
    {
        if s[i] == 101u8 || s[i] == 69u8 {
            assert(s@.contains(s@[i as int]));
            return None;
        }
        if s[i] == 46u8 && dot.is_none() {
            dot = Some(i);
        }
        i = i + 1;
    }
    match dot {
        Some(d) => {
            assert(s@.contains(46u8));
            let ghost f = first_index_of(s@, 46u8)->0;
            assert(f == d) by {
                if f < d {
                } else if f > d {
                }
            }
            if d > 0 {
                Some(slice_range(s, 0, d))
            } else {
                None
            }
        },
        None => None,
    }
}

/// The bytes of `s` from `i` to `j`.
pub fn slice_range(s: &[u8], i: usize, j: usize) -> (r: &[u8])
    requires
        i <= j <= s@.len(),
    ensures
        r@ == s@.subrange(i as int, j as int),
{
    &s[i..j]
}

/// The name that a name expression holds, and `None` for any other expression.
pub open spec fn exp_name(cst: &Cst, e: Exp) -> Option<Seq<u8>> {
    match e {
        Exp::Nameexp(n) => match cst.spec_child_token(n.syntax, Token::Name) {
            Some(t) => Some(cst.text(cst.node_span(t))),
            None => None,
        },
        _ => None,
    }
}

/// The pairs of names among the first `k` pairs of `lhs` and `rhs` where both are names.
pub open spec fn renames_of(cst: &Cst, lhs: Seq<Exp>, rhs: Seq<Exp>, k: int) -> Seq<(Seq<u8>, Seq<u8>)>
    decreases k,
{
    if k <= 0 {
        Seq::empty()
    } else {
        renames_of(cst, lhs, rhs, k - 1) + match (exp_name(cst, lhs[k - 1]), exp_name(cst, rhs[k - 1])) {
            (Some(a), Some(b)) => seq![(a, b)],
            _ => Seq::empty(),
        }
    }
}

/// The names that a statement `lhs = rhs` assigns from one name to another, pairwise.
fn renames<'c>(cst: &'c Cst, lhs: &Vec<Exp>, rhs: &Vec<Exp>) -> (r: Vec<(&'c [u8], &'c [u8])>)
    ensures
        r@.map_values(|p: (&[u8], &[u8])| (p.0@, p.1@)) == renames_of(
            cst,
            lhs@,
            rhs@,
            if lhs@.len() < rhs@.len() { lhs@.len() as int } else { rhs@.len() as int },
        ),
{
    let mut r: Vec<(&'c [u8], &'c [u8])> = Vec::new();
    let mut i: usize = 0;
    while i < lhs.len() && i < rhs.len()
        invariant
            i <= lhs@.len() && i <= rhs@.len(),
            r@.map_values(|p: (&[u8], &[u8])| (p.0@, p.1@)) == renames_of(cst, lhs@, rhs@, i as int),
        decreases lhs@.len() - i,
    {
        let ghost before = r@;
        if let (Exp::Nameexp(l), Exp::Nameexp(rh)) = (lhs[i], rhs[i]) {
            if let (Some((lhs_name, _)), Some((rhs_name, _))) = (l.name(cst), rh.name(cst)) {
                r.push((lhs_name, rhs_name));
                assert(r@.map_values(|p: (&[u8], &[u8])| (p.0@, p.1@)) =~= before.map_values(|p: (&[u8], &[u8])| (p.0@, p.1@)) + seq![(lhs_name@, rhs_name@)]);
            }
        }
        assert(r@.map_values(|p: (&[u8], &[u8])| (p.0@, p.1@)) =~= renames_of(cst, lhs@, rhs@, i + 1));
        i = i + 1;
    }
    r
}

/// The names that the assignment `a` assigns from one name to another, pairwise, as
/// (target, source).
pub open spec fn assign_renames(cst: &Cst, a: Assignstat) -> Seq<(Seq<u8>, Seq<u8>)> {
    let lhs = cst.spec_child_nodes::<Exp>(a.syntax);
    let rhs = cst.spec_explist_exps(a.syntax);
    renames_of(cst, lhs, rhs, if lhs.len() < rhs.len() { lhs.len() as int } else { rhs.len() as int })
}

/// The report of `almost-swap` on the assignment `cur` followed by the assignment `next`, if
/// it gives one: each assigns one name to another and nothing else of that kind, and `next`
/// assigns back what `cur` assigned; the fix is one statement that swaps the two names.
pub open spec fn almost_swap_report(ctx: &DiagnosticContext, cst: &Cst, cur: Assignstat, next: Assignstat) -> Option<DiagnosticView> {
    let c = assign_renames(cst, cur);
    let n = assign_renames(cst, next);
    if ctx.levels@[ALMOST_SWAP as int] != Severity::Allow && c.len() == 1 && n.len() == 1
        && n[0].0 == c[0].1 && n[0].1 == c[0].0 {
        let span = Span { start: cst.node_span(cur.syntax).start, end: cst.node_span(next.syntax).end };
        Some(lint_diagnostic(ctx, ALMOST_SWAP, seq![ann(AnnotationKind::Primary, span, None)], seq![patches(Level::Help,
            "use a single statement instead to implement a swap"@, seq![patch(span, swap_replacement(n[0].1, n[0].0))])]))
    } else {
        None
    }
}

/// The index of the first statement of `stats` from `from` on that is neither a label nor
/// an empty statement.
pub open spec fn next_significant(stats: Seq<Stat>, from: int) -> Option<int>
    decreases stats.len() - from,
{
    if from < 0 || from >= stats.len() {
        None
    } else if !(stats[from] is Label || stats[from] is Emptystat) {
        Some(from)
    } else {
        next_significant(stats, from + 1)
    }
}

/// The report of `almost-swap` on the statement at `j` of a block whose statements are
/// `stats`: an assignment and the next statement that is neither a label nor empty, when that
/// is an assignment too.
pub open spec fn almost_swap_at(ctx: &DiagnosticContext, cst: &Cst, stats: Seq<Stat>, j: int) -> Option<DiagnosticView> {
    match (stats[j], next_significant(stats, j + 1)) {
        (Stat::Assignstat(a), Some(m)) => match stats[m] {
            Stat::Assignstat(b) => almost_swap_report(ctx, cst, a, b),
            _ => None,
        },
        _ => None,
    }
}

/// How many reports the parameters `pars` of a function body get, none where there are none.
pub open spec fn par_report_count(ctx: &DiagnosticContext, cst: &Cst, pars: Option<Pars>) -> int {
    match pars {
        Some(p) => par_reports(ctx, cst, p).len() as int,
        None => 0,
    }
}

/// The `almost-swap` reports on the statements of `stats` from `k` on, from the last
/// statement back.
pub open spec fn almost_swaps(ctx: &DiagnosticContext, cst: &Cst, stats: Seq<Stat>, k: int) -> Seq<DiagnosticView>
    decreases stats.len() - k,
{
    if k < 0 || k >= stats.len() {
        Seq::empty()
    } else {
        almost_swaps(ctx, cst, stats, k + 1) + match almost_swap_at(ctx, cst, stats, k) {
            Some(d) => seq![d],
            None => Seq::empty(),
        }
    }
}

/// Two assignments, one after the other, are reported as `almost-swap` exactly when they
/// swap two names halfway: where the lint is on and `cur` is `x = y` and `next` is `u = v`,
/// with names alone on each side, a report comes exactly when `u` is `y` and `v` is `x`. Any
/// report at all needs each statement to assign exactly one name to another, the second
/// assigning back what the first assigned; it spans both statements.
pub proof fn lemma_almost_swap_law(ctx: &DiagnosticContext, cst: &Cst, cur: Assignstat, next: Assignstat)
    ensures
        almost_swap_report(ctx, cst, cur, next) matches Some(d) ==> {
            let c = assign_renames(cst, cur);
            let n = assign_renames(cst, next);
            &&& ctx.levels@[ALMOST_SWAP as int] != Severity::Allow
            &&& c.len() == 1 && n.len() == 1
            &&& n[0] == (c[0].1, c[0].0)
            &&& d.groups[0].lint == Some(ALMOST_SWAP)
            &&& d.groups[0].element == Some(ElementView::Annotations(seq![ann(AnnotationKind::Primary,
                Span { start: cst.node_span(cur.syntax).start, end: cst.node_span(next.syntax).end }, None)]))
        },
        ({
            let cl = cst.spec_child_nodes::<Exp>(cur.syntax);
            let cr = cst.spec_explist_exps(cur.syntax);
            let nl = cst.spec_child_nodes::<Exp>(next.syntax);
            let nr = cst.spec_explist_exps(next.syntax);
            ctx.levels@[ALMOST_SWAP as int] != Severity::Allow
                && cl.len() == 1 && cr.len() == 1 && nl.len() == 1 && nr.len() == 1
                && exp_name(cst, cl[0]) is Some && exp_name(cst, cr[0]) is Some
                && exp_name(cst, nl[0]) is Some && exp_name(cst, nr[0]) is Some
                ==> (almost_swap_report(ctx, cst, cur, next) is Some
                    <==> exp_name(cst, nl[0]) == exp_name(cst, cr[0]) && exp_name(cst, nr[0]) == exp_name(cst, cl[0]))
        }),
{
    reveal_with_fuel(renames_of, 2);
}

/// The `almost-swap` reports of a block are exactly those of its pairs of assignments: each
/// pair that `almost_swap_at` reports has its report among them, and each of them is the
/// report of such a pair.
pub proof fn lemma_almost_swaps_members(ctx: &DiagnosticContext, cst: &Cst, stats: Seq<Stat>, k: int)
    requires
        0 <= k <= stats.len(),
    ensures
        forall|j: int| k <= j < stats.len() ==> (#[trigger] almost_swap_at(ctx, cst, stats, j) matches Some(d)
            ==> almost_swaps(ctx, cst, stats, k).contains(d)),
        forall|i: int| 0 <= i < almost_swaps(ctx, cst, stats, k).len() ==> exists|j: int| k <= j < stats.len()
            && #[trigger] almost_swap_at(ctx, cst, stats, j) == Some(#[trigger] almost_swaps(ctx, cst, stats, k)[i]),
    decreases stats.len() - k,
{
    if k < stats.len() {
        lemma_almost_swaps_members(ctx, cst, stats, k + 1);
        let rest = almost_swaps(ctx, cst, stats, k + 1);
        let all = almost_swaps(ctx, cst, stats, k);
        assert(all == rest + match almost_swap_at(ctx, cst, stats, k) { Some(d) => seq![d], None => Seq::<DiagnosticView>::empty() });
        assert forall|j: int| k <= j < stats.len() implies (#[trigger] almost_swap_at(ctx, cst, stats, j) matches Some(d) ==> all.contains(d)) by {
            if let Some(d) = almost_swap_at(ctx, cst, stats, j) {
                if j > k {
                    let i = choose|i: int| 0 <= i < rest.len() && rest[i] == d;
                    assert(all[i] == d);
                } else {
                    assert(all[all.len() - 1] == d);
                }
            }
        }
        assert forall|i: int| 0 <= i < all.len() implies exists|j: int| k <= j < stats.len()
            && #[trigger] almost_swap_at(ctx, cst, stats, j) == Some(#[trigger] all[i]) by {
            if i < rest.len() {
                assert(all[i] == rest[i]);
            } else {
                assert(almost_swap_at(ctx, cst, stats, k) == Some(all[i]));
            }
        }
    }
}

impl<'a> Checks<'a> {
    /// Checks the expressions on the right of an assignment or declaration; returns whether
    /// the last is a vararg expression, whether it is a call, their spans and their types.
    fn check_rhs_exps(
        &mut self,
        cst: &Cst,
        numbers: &NameMap<NumberFact>,
        diags: &mut Vec<Diagnostic>,
        sema: &mut SemanticData,
        parent: NodeRef,
        exps: &Vec<Exp>,
    ) -> (r: (bool, bool, Vec<Span>, Vec<TypeSet>))
        requires
            old(self).wf(cst),
            old(self).scopes.scopes@.len() > 0,
            numbers.wf(),
            forall|k: int| 0 <= k < exps@.len() ==> after(cst, #[trigger] exps@[k].spec_syntax(), parent),
            node_map_below(old(sema).decl_bindings@, cst.spec_len()),
            node_map_below(old(sema).break_bindings@, cst.spec_len()),
        ensures
            final(self).wf(cst),
            final(self).keeps(old(self)),
            reported(&old(self).diag_ctx, cst.source_view().len() as int, old(diags)@, final(diags)@),
            node_map_below(final(sema).decl_bindings@, cst.spec_len()),
            node_map_below(final(sema).break_bindings@, cst.spec_len()),
            r.0 == (exps@.len() > 0 && exps@.last() is Varargexp),
            r.1 == (exps@.len() > 0 && exps@.last() is Callexp),
            r.2@.len() == exps@.len(),
            r.3@.len() == exps@.len(),
            forall|k: int| 0 <= k < exps@.len() ==> #[trigger] r.2@[k] == cst.node_span(exps@[k].spec_syntax()),
            spans_in(r.2@, cst.source_view().len() as int),
            all_checked(&old(self).diag_ctx, numbers.map(), cst, old(diags)@.len() as int, final(diags)@, exps@, false, true),
        decreases cst.spec_len() - parent.0, 0int,
    {
        let mut rhs_vararg = false;
        let mut rhs_call = false;
        let mut rhs_spans: Vec<Span> = Vec::new();
        let mut rhs_tys: Vec<TypeSet> = Vec::new();
        let mut i: usize = 0;
        while i < exps.len()
            invariant
                i <= exps@.len(),
                self.wf(cst),
                self.keeps(old(self)),
                old(self).scopes.scopes@.len() > 0,
                numbers.wf(),
                reported(&old(self).diag_ctx, cst.source_view().len() as int, old(diags)@, diags@),
                node_map_below(sema.decl_bindings@, cst.spec_len()),
                node_map_below(sema.break_bindings@, cst.spec_len()),
                forall|k: int| 0 <= k < exps@.len() ==> after(cst, #[trigger] exps@[k].spec_syntax(), parent),
                rhs_vararg == (i > 0 && exps@[i - 1] is Varargexp),
                rhs_call == (i > 0 && exps@[i - 1] is Callexp),
                rhs_spans@.len() == i,
                rhs_tys@.len() == i,
                forall|k: int| 0 <= k < i ==> #[trigger] rhs_spans@[k] == cst.node_span(exps@[k].spec_syntax()),
                spans_in(rhs_spans@, cst.source_view().len() as int),
                all_checked(&old(self).diag_ctx, numbers.map(), cst, old(diags)@.len() as int, diags@, exps@.take(i as int), false, true),
            decreases exps@.len() - i,
        {
            let exp = exps[i];
            assert(after(cst, exps@[i as int].spec_syntax(), parent));
            rhs_spans.push(exp.span(cst));
            let ghost before = diags@;
            let ghost scopes = self.scopes.scopes@;
            let ty = self.check_exp(cst, numbers, diags, sema, exp, false, true);
            proof {
                let ctx = &old(self).diag_ctx;
                assert(exp_reports_hold(ctx, numbers.map(), cst, scopes, before, diags@, exp, false, true));
                lemma_checked_here(ctx, numbers.map(), cst, old(diags)@.len() as int, scopes, before, diags@, exp, false, true);
                lemma_all_checked_extend(ctx, numbers.map(), cst, old(diags)@.len() as int, before, diags@, exps@.take(i as int), false, true);
                lemma_all_checked_push(ctx, numbers.map(), cst, old(diags)@.len() as int, diags@, exps@, i as int, false, true);
            }
            rhs_tys.push(ty);
            rhs_vararg = match exp {
                Exp::Varargexp(_) => true,
                _ => false,
            };
            rhs_call = match exp {
                Exp::Callexp(_) => true,
                _ => false,
            };
            i = i + 1;
        }
        assert(exps@.take(exps@.len() as int) =~= exps@);
        (rhs_vararg, rhs_call, rhs_spans, rhs_tys)
    }
}

impl<'a> Checks<'a> {
    /// The invariant of the statement and expression checks: the checks stay well formed,
    /// keep their context, loops and scope depth, only append diagnostics as reported, and bind
    /// nodes to nodes of `cst`.
    pub open spec fn check_post(
        &self,
        old_self: &Checks,
        cst: &Cst,
        old_diags: Seq<Diagnostic>,
        diags: Seq<Diagnostic>,
        sema: &SemanticData,
    ) -> bool {
        &&& self.wf(cst)
        &&& self.keeps(old_self)
        &&& reported(&old_self.diag_ctx, cst.source_view().len() as int, old_diags, diags)
        &&& node_map_below(sema.decl_bindings@, cst.spec_len())
        &&& node_map_below(sema.break_bindings@, cst.spec_len())
    }

    /// Binds the locals that `locals` describes in the innermost scope.
    fn add_locals(&mut self, cst: &Cst, locals: &BlockLocals)
        requires
            old(self).wf(cst),
            old(self).scopes.scopes@.len() > 0,
            match *locals {
                BlockLocals::Nothing => true,
                BlockLocals::SelfParam(f) => f.syntax.0 < cst.spec_len(),
                BlockLocals::Loopvar(v, _) => v.syntax.0 < cst.spec_len(),
                BlockLocals::Loopvars(vs, _) => forall|k: int| 0 <= k < vs@.len() ==> (#[trigger] vs@[k].spec_syntax()).0 < cst.spec_len(),
            },
        ensures
            final(self).wf(cst),
            final(self).keeps(old(self)),
            match *locals {
                BlockLocals::Nothing => final(self).scopes == old(self).scopes,
                BlockLocals::SelfParam(f) => lookup_var(final(self).scopes.scopes@, seq![115u8, 101u8, 108u8, 102u8])
                    == Some((Variable::Local(Local { decl: f.syntax, used: true, constant: false, ty: TypeSet(0) }), true)),
                BlockLocals::Loopvar(v, constant) => match loopvar_name(cst, v) {
                    Some(n) => lookup_var(final(self).scopes.scopes@, n)
                        == Some((Variable::Local(Local { decl: v.syntax, used: false, constant, ty: TypeSet(0) }), true)),
                    None => final(self).scopes == old(self).scopes,
                },
                BlockLocals::Loopvars(vs, constant) => forall|k: int| 0 <= k < vs@.len() && #[trigger] loopvar_name(cst, vs@[k]) is Some
                    && !named_after(cst, vs@, k, vs@.len() as int) ==> lookup_var(final(self).scopes.scopes@, loopvar_name(cst, vs@[k])->0)
                    == Some((Variable::Local(Local { decl: vs@[k].syntax, used: false, constant: constant && k == 0, ty: TypeSet(0) }), true)),
            },
    {
        match locals {
            BlockLocals::Nothing => {},
            BlockLocals::SelfParam(funcname) => {
                let name = vec![115u8, 101u8, 108u8, 102u8];
                self.scopes.insert_local(name.as_slice(), funcname.syntax(), true, false, TypeSet::empty());
            },
            BlockLocals::Loopvar(loopvar, constant) => {
                if let Some((name, _)) = loopvar.name(cst) {
                    self.scopes.insert_local(name, loopvar.syntax(), false, *constant, TypeSet::empty());
                }
            },
            BlockLocals::Loopvars(loopvars, constant) => {
                let mut i: usize = 0;
                while i < loopvars.len()
                    invariant
                        self.wf(cst),
                        self.keeps(old(self)),
                        old(self).scopes.scopes@.len() > 0,
                        i <= loopvars@.len(),
                        forall|k: int| 0 <= k < loopvars@.len() ==> (#[trigger] loopvars@[k].spec_syntax()).0 < cst.spec_len(),
                        forall|k: int| 0 <= k < i && #[trigger] loopvar_name(cst, loopvars@[k]) is Some
                            && !named_after(cst, loopvars@, k, i as int) ==> lookup_var(self.scopes.scopes@, loopvar_name(cst, loopvars@[k])->0)
                            == Some((Variable::Local(Local { decl: loopvars@[k].syntax, used: false, constant: *constant && k == 0, ty: TypeSet(0) }), true)),
                    decreases loopvars@.len() - i,
                {
                    let loopvar = loopvars[i];
                    assert(loopvars@[i as int].spec_syntax().0 < cst.spec_len());
                    let ghost before = self.scopes.scopes@;
                    if let Some((name, _)) = loopvar.name(cst) {
                        self.scopes.insert_local(name, loopvar.syntax(), false, *constant && i == 0, TypeSet::empty());
                        proof {
                            assert forall|k: int| 0 <= k < i && #[trigger] loopvar_name(cst, loopvars@[k]) is Some
                                && loopvar_name(cst, loopvars@[k])->0 != name@ implies lookup_var(self.scopes.scopes@, loopvar_name(cst, loopvars@[k])->0)
                                == lookup_var(before, loopvar_name(cst, loopvars@[k])->0) by {
                                lemma_lookup_var_other(before, self.scopes.scopes@, name@, loopvar_name(cst, loopvars@[k])->0);
                            }
                        }
                    }
                    assert forall|k: int| 0 <= k < i + 1 && #[trigger] loopvar_name(cst, loopvars@[k]) is Some
                        && !named_after(cst, loopvars@, k, i + 1) implies lookup_var(self.scopes.scopes@, loopvar_name(cst, loopvars@[k])->0)
                        == Some((Variable::Local(Local { decl: loopvars@[k].syntax, used: false, constant: *constant && k == 0, ty: TypeSet(0) }), true)) by {
                        if k < i {
                            assert(!named_after(cst, loopvars@, k, i as int));
                            assert(loopvar_name(cst, loopvars@[i as int]) != loopvar_name(cst, loopvars@[k]));
                        }
                    }
                    i = i + 1;
                }
            },
        }
    }

    /// Binds the parameters `pars` in the innermost scope and reports them when there are
    /// too many.
    fn check_pars(&mut self, cst: &Cst, diags: &mut Vec<Diagnostic>, pars: Pars)
        requires
            old(self).wf(cst),
            old(self).scopes.scopes@.len() > 0,
            pars.syntax.0 < cst.spec_len(),
        ensures
            final(self).wf(cst),
            final(self).keeps(old(self)),
            diagnostics_view(final(diags)@) == diagnostics_view(old(diags)@) + par_reports(&old(self).diag_ctx, cst, pars),
            final(diags)@ == old(diags)@ || (final(diags)@.len() == old(diags)@.len() + 1 && final(diags)@.drop_last() == old(diags)@),
            reported(&old(self).diag_ctx, cst.source_view().len() as int, old(diags)@, final(diags)@),
            forall|k: int| 0 <= k < cst.spec_child_nodes::<Par>(pars.syntax).len() ==> match par_name(cst, #[trigger] cst.spec_child_nodes::<Par>(pars.syntax)[k]) {
                Some(n) => final(self).scopes.scopes@.last().vars.map().contains_key(n),
                None => true,
            },
    {
        let ps = pars.pars(cst);
        let mut count: usize = 0;
        let mut i: usize = 0;
        while i < ps.len()
            invariant
                self.wf(cst),
                self.diag_ctx == old(self).diag_ctx,
                self.loops@ == old(self).loops@,
                self.scopes.scopes@.len() == old(self).scopes.scopes@.len(),
                old(self).scopes.scopes@.len() > 0,
                count == i,
                i <= ps@.len(),
                forall|k: int| 0 <= k < ps@.len() ==> after(cst, #[trigger] ps@[k].spec_syntax(), pars.syntax),
                declared_kept(old(self).scopes.scopes@, self.scopes.scopes@),
                ps@ == cst.spec_child_nodes::<Par>(pars.syntax),
                forall|k: int| 0 <= k < i ==> match par_name(cst, #[trigger] ps@[k]) {
                    Some(n) => self.scopes.scopes@.last().vars.map().contains_key(n),
                    None => true,
                },
            decreases ps@.len() - i,
        {
            let par = ps[i];
            assert(after(cst, ps@[i as int].spec_syntax(), pars.syntax));
            count = count + 1;
            let ghost before = self.scopes.scopes@;
            if let Some((name, _)) = par.name(cst) {
                self.scopes.insert_local(name, par.syntax(), false, false, TypeSet::empty());
                proof {
                    lemma_declared_kept_trans(old(self).scopes.scopes@, before, self.scopes.scopes@);
                }
            }
            proof {
                assert forall|k: int| 0 <= k < i + 1 implies match par_name(cst, #[trigger] ps@[k]) {
                    Some(n) => self.scopes.scopes@.last().vars.map().contains_key(n),
                    None => true,
                } by {
                    if k == i {
                        assert(ps@[k] == par);
                    }
                }
            }
            i = i + 1;
        }
        let ghost before_vararg = self.scopes.scopes@;
        if let Some(vararg) = pars.vararg(cst) {
            if let Some((name, _)) = vararg.name(cst) {
                self.scopes.insert_vararg(name, vararg);
                proof {
                    lemma_declared_kept_trans(old(self).scopes.scopes@, before_vararg, self.scopes.scopes@);
                }
            }
        }
        if let Some(too_many_parameters) = self.diag_ctx.active::<TooManyParameters>() {
            if count > self.diag_ctx.config.parameter_threshold {
                diags.push(too_many_parameters.build(pars.span(cst), count));
            }
        }
        assert(diagnostics_view(diags@) =~= diagnostics_view(old(diags)@) + par_reports(&old(self).diag_ctx, cst, pars));
    }

    /// Checks a block in a new scope: its parameters when it is a function body, the locals
    /// `locals`, the labels that end it, two assignments in a row that almost swap two
    /// variables, empty statements in a row, and its statements.
    fn check_block(
        &mut self,
        cst: &Cst,
        numbers: &NameMap<NumberFact>,
        diags: &mut Vec<Diagnostic>,
        sema: &mut SemanticData,
        block: Block,
        pars: Option<Pars>,
        locals: BlockLocals,
    )
        requires
            old(self).wf(cst),
            numbers.wf(),
            block.syntax.0 < cst.spec_len(),
            pars matches Some(p) ==> p.syntax.0 < cst.spec_len(),
            match locals {
                BlockLocals::Nothing => true,
                BlockLocals::SelfParam(f) => f.syntax.0 < cst.spec_len(),
                BlockLocals::Loopvar(v, _) => v.syntax.0 < cst.spec_len(),
                BlockLocals::Loopvars(vs, _) => forall|k: int| 0 <= k < vs@.len() ==> (#[trigger] vs@[k].spec_syntax()).0 < cst.spec_len(),
            },
            node_map_below(old(sema).decl_bindings@, cst.spec_len()),
            node_map_below(old(sema).break_bindings@, cst.spec_len()),
        ensures
            final(self).check_post(old(self), cst, old(diags)@, final(diags)@, final(sema)),
            pars matches Some(p) ==> diagnostics_view(final(diags)@.take((old(diags)@.len() + par_reports(&old(self).diag_ctx, cst, p).len()) as int))
                == diagnostics_view(old(diags)@) + par_reports(&old(self).diag_ctx, cst, p),
            old(self).diag_ctx.levels@[EMPTY_STATEMENT as int] != Severity::Allow ==> forall|j: int|
                #[trigger] empty_after_empty(cst.spec_child_nodes::<Stat>(block.syntax), j) ==> empty_statement_reported(
                    &old(self).diag_ctx,
                    cst,
                    cst.spec_child_nodes::<Stat>(block.syntax)[j],
                    final(diags)@,
                    old(diags)@.len() as int,
                ),
            forall|j: int| 0 <= j < cst.spec_child_nodes::<Stat>(block.syntax).len() ==> stat_exps_checked(&old(self).diag_ctx, numbers.map(), cst, old(diags)@.len() as int, final(diags)@, #[trigger] cst.spec_child_nodes::<Stat>(block.syntax)[j]),
            block_reports_hold(&old(self).diag_ctx, numbers.map(), cst, old(self).loops@.len() == 0, old(self).scopes.scopes@.len() as int, old(diags)@, final(diags)@, block, pars),
            final(diags)@.len() >= old(diags)@.len() + par_report_count(&old(self).diag_ctx, cst, pars)
                + almost_swaps(&old(self).diag_ctx, cst, cst.spec_child_nodes::<Stat>(block.syntax), 0).len(),
            diagnostics_view(final(diags)@).subrange(
                old(diags)@.len() + par_report_count(&old(self).diag_ctx, cst, pars),
                old(diags)@.len() + par_report_count(&old(self).diag_ctx, cst, pars)
                    + almost_swaps(&old(self).diag_ctx, cst, cst.spec_child_nodes::<Stat>(block.syntax), 0).len(),
            ) == almost_swaps(&old(self).diag_ctx, cst, cst.spec_child_nodes::<Stat>(block.syntax), 0),
            exists|s: Scope, before: Seq<Diagnostic>|
                #[trigger] scope_closed(&old(self).diag_ctx, cst, old(diags)@.len() as int, before, final(diags)@, s, old(self).scopes.scopes@.len() as int)
                && s.func == pars.is_some()
                && pars_declared(cst, pars, s)
                && forall|j: int| 0 <= j < cst.spec_child_nodes::<Stat>(block.syntax).len() ==> stat_declared(cst, #[trigger] cst.spec_child_nodes::<Stat>(block.syntax)[j], s),
            old(self).loops@.len() == 0 ==> forall|j: int|
                0 <= j < cst.spec_child_nodes::<Stat>(block.syntax).len()
                && (#[trigger] cst.spec_child_nodes::<Stat>(block.syntax)[j]) is Breakstat ==> reported_at_or_after(
                    final(diags)@,
                    old(diags)@.len() as int,
                    break_outside_view(cst.node_span(cst.spec_child_nodes::<Stat>(block.syntax)[j].spec_syntax())),
                ),
        decreases cst.spec_len() - block.syntax.0, 2int,
    {
        let vararg = match pars {
            Some(p) => p.vararg(cst),
            None => None,
        };
        let scope = Scope::new(pars.is_some(), match vararg {
            Some(v) => Some((v, false)),
            None => None,
        });
        self.scopes.push(scope);
        let ghost pushed_scopes = self.scopes.scopes@;
        assert(self.scopes.refs_below(cst.spec_len()));
        self.add_locals(cst, &locals);
        if let Some(pars) = pars {
            self.check_pars(cst, diags, pars);
        }
        let ghost base = self.scopes.scopes@;
        proof {
            lemma_declared_last(cst, pars, Stat::Emptystat(Emptystat { syntax: block.syntax }), pushed_scopes, base);
            assert(pushed_scopes.last() == scope);
            assert(pars_declared(cst, pars, base.last()));
            assert(base.last().func == pars.is_some());
        }
        let ghost pushed = diags@;
        assert(pushed == old(diags)@ || (pushed.len() == old(diags)@.len() + 1 && pushed.drop_last() == old(diags)@));
        let stats = block.stats(cst);
        // the statement that follows each label, skipping empty statements and labels
        let mut last_stat: Option<Stat> = None;
        let mut k = stats.len();
        assert(diagnostics_view(diags@) =~= diagnostics_view(pushed) + almost_swaps(&old(self).diag_ctx, cst, stats@, k as int));
        while k > 0
            invariant
                k <= stats@.len(),
                stats@ == cst.spec_child_nodes::<Stat>(block.syntax),
                last_stat == (match next_significant(stats@, k as int) {
                    Some(m) => Some(stats@[m]),
                    None => None::<Stat>,
                }),
                diagnostics_view(diags@) == diagnostics_view(pushed) + almost_swaps(&old(self).diag_ctx, cst, stats@, k as int),
                self.wf(cst),
                self.diag_ctx == old(self).diag_ctx,
                self.loops@ == old(self).loops@,
                self.scopes.scopes@.len() == old(self).scopes.scopes@.len() + 1,
                declared_kept(pushed_scopes, self.scopes.scopes@),
                declared_kept(base, self.scopes.scopes@),
                reported(&old(self).diag_ctx, cst.source_view().len() as int, old(diags)@, diags@),
                pushed.len() <= diags@.len(),
                forall|j: int| 0 <= j < pushed.len() ==> #[trigger] diags@[j] == pushed[j],
                forall|j: int| 0 <= j < stats@.len() ==> after(cst, #[trigger] stats@[j].spec_syntax(), block.syntax),
                last_stat matches Some(s) ==> s.spec_syntax().0 < cst.spec_len(),
            decreases k,
        {
            k = k - 1;
            let stat = stats[k];
            let ghost before_k = diags@;
            assert(after(cst, stats@[k as int].spec_syntax(), block.syntax));
            let non_empty_stat = match stat {
                Stat::Label(label) => {
                    if let Some(last) = last_stat {
                        self.scopes.insert_entry(label, last);
                    }
                    false
                },
                Stat::Emptystat(_) => false,
                Stat::Assignstat(assignstat) => {
                    if let Some(almost_swap) = self.diag_ctx.active::<AlmostSwap>() {
                        if let Some(Stat::Assignstat(last_assignstat)) = last_stat {
                            let last_renames = renames(cst, &last_assignstat.lhs_exps(cst), &last_assignstat.rhs_exps(cst));
                            let cur_renames = renames(cst, &assignstat.lhs_exps(cst), &assignstat.rhs_exps(cst));
                            if last_renames.len() == 1 && cur_renames.len() == 1 {
                                let (last_to, last_from) = last_renames[0];
                                let (cur_to, cur_from) = cur_renames[0];
                                assert(last_renames@.map_values(|p: (&[u8], &[u8])| (p.0@, p.1@))[0] == (last_to@, last_from@));
                                assert(cur_renames@.map_values(|p: (&[u8], &[u8])| (p.0@, p.1@))[0] == (cur_to@, cur_from@));
                                if bytes_eq(last_to, cur_from) && bytes_eq(last_from, cur_to) {
                                    let span = Span {
                                        start: assignstat.span(cst).start,
                                        end: last_assignstat.span(cst).end,
                                    };
                                    diags.push(almost_swap.build(span, last_from, last_to));
                                    assert(diagnostics_view(diags@) =~= diagnostics_view(before_k) + seq![diags@.last()@]);
                                }
                            }
                        }
                    }
                    true
                },
                _ => true,
            };
            proof {
                let ctx = &old(self).diag_ctx;
                let opt = match almost_swap_at(ctx, cst, stats@, k as int) {
                    Some(d) => seq![d],
                    None => Seq::<DiagnosticView>::empty(),
                };
                assert(diagnostics_view(diags@) =~= diagnostics_view(before_k) + opt);
                assert(almost_swaps(ctx, cst, stats@, k as int) == almost_swaps(ctx, cst, stats@, k + 1) + opt);
                assert(diagnostics_view(diags@) =~= diagnostics_view(pushed) + almost_swaps(ctx, cst, stats@, k as int));
            }
            if non_empty_stat {
                last_stat = Some(stat);
            }
        }
        let ghost swapped = diags@;
        let mut last_stat_empty = false;
        let mut i: usize = 0;
        while i < stats.len()
            invariant
                i <= stats@.len(),
                self.wf(cst),
                self.diag_ctx == old(self).diag_ctx,
                self.loops@ == old(self).loops@,
                self.scopes.scopes@.len() == old(self).scopes.scopes@.len() + 1,
                declared_kept(pushed_scopes, self.scopes.scopes@),
                declared_kept(base, self.scopes.scopes@),
                numbers.wf(),
                reported(&old(self).diag_ctx, cst.source_view().len() as int, old(diags)@, diags@),
                pushed.len() <= diags@.len(),
                forall|j: int| 0 <= j < pushed.len() ==> #[trigger] diags@[j] == pushed[j],
                swapped.len() <= diags@.len(),
                forall|j: int| 0 <= j < swapped.len() ==> #[trigger] diags@[j] == swapped[j],
                node_map_below(sema.decl_bindings@, cst.spec_len()),
                node_map_below(sema.break_bindings@, cst.spec_len()),
                forall|j: int| 0 <= j < stats@.len() ==> after(cst, #[trigger] stats@[j].spec_syntax(), block.syntax),
                stats@ == cst.spec_child_nodes::<Stat>(block.syntax),
                old(self).diag_ctx.levels@[EMPTY_STATEMENT as int] != Severity::Allow ==> last_stat_empty == (i > 0 && stats@[i - 1] is Emptystat),
                old(self).diag_ctx.levels@[EMPTY_STATEMENT as int] != Severity::Allow ==> forall|j: int|
                    #[trigger] empty_after_empty(stats@, j) && j < i ==> empty_statement_reported(&old(self).diag_ctx, cst, stats@[j], diags@, old(diags)@.len() as int),
                old(self).loops@.len() == 0 ==> forall|j: int|
                    0 <= j < i && (#[trigger] stats@[j]) is Breakstat ==> reported_at_or_after(diags@, old(diags)@.len() as int, break_outside_view(cst.node_span(stats@[j].spec_syntax()))),
                forall|j: int| 0 <= j < i ==> stat_exps_checked(&old(self).diag_ctx, numbers.map(), cst, old(diags)@.len() as int, diags@, #[trigger] stats@[j]),
                forall|j: int| 0 <= j < i ==> stat_declared(cst, #[trigger] stats@[j], self.scopes.scopes@.last()),
                forall|j: int| 0 <= j < i ==> stat_bodies_checked(&old(self).diag_ctx, numbers.map(), cst, old(diags)@.len() as int, diags@, #[trigger] stats@[j]),
            decreases stats@.len() - i,
        {
            let stat = stats[i];
            let ghost at_top = diags@;
            assert(after(cst, stats@[i as int].spec_syntax(), block.syntax));
            if let Some(empty_statement) = self.diag_ctx.active::<EmptyStatement>() {
                let stat_empty = match stat {
                    Stat::Emptystat(_) => true,
                    _ => false,
                };
                if stat_empty && last_stat_empty {
                    let d = empty_statement.build(stat.span(cst));
                    diags.push(d);
                    assert(diags@[diags@.len() - 1]@ == d@);
                }
                last_stat_empty = stat_empty;
            }
            let ghost before_stat = diags@;
            proof {
                if old(self).diag_ctx.levels@[EMPTY_STATEMENT as int] != Severity::Allow {
                    assert forall|j: int| #[trigger] empty_after_empty(stats@, j) && j < i + 1 implies empty_statement_reported(&old(self).diag_ctx, cst, stats@[j], before_stat, old(diags)@.len() as int) by {
                        let want = lint_diagnostic(&old(self).diag_ctx, EMPTY_STATEMENT, seq![ann(AnnotationKind::Primary, cst.node_span(stats@[j].spec_syntax()), None)], Seq::empty());
                        if j == i {
                            let k = before_stat.len() - 1;
                            assert(old(diags)@.len() <= k < before_stat.len() && before_stat[k]@ == want);
                        } else {
                            let k = choose|k: int| old(diags)@.len() <= k < at_top.len() && #[trigger] at_top[k]@ == want;
                            assert(before_stat[k] == at_top[k]);
                            assert(old(diags)@.len() <= k < before_stat.len() && before_stat[k]@ == want);
                        }
                    }
                }
            }
            proof {
                if old(self).loops@.len() == 0 {
                    assert forall|j: int| 0 <= j < i && (#[trigger] stats@[j]) is Breakstat implies reported_at_or_after(before_stat, old(diags)@.len() as int, break_outside_view(cst.node_span(stats@[j].spec_syntax()))) by {
                        let want = break_outside_view(cst.node_span(stats@[j].spec_syntax()));
                        let k = choose|k: int| old(diags)@.len() <= k < at_top.len() && #[trigger] at_top[k]@ == want;
                        assert(before_stat[k] == at_top[k]);
                    }
                }
            }
            let ghost scopes_before = self.scopes.scopes@;
            self.check_statement(cst, numbers, diags, sema, stat);
            proof {
                assert forall|j: int| 0 <= j < i + 1 implies stat_declared(cst, #[trigger] stats@[j], self.scopes.scopes@.last()) by {
                    lemma_declared_last(cst, pars, stats@[j], scopes_before, self.scopes.scopes@);
                }
            }
            proof {
                let ctx = &old(self).diag_ctx;
                if let Stat::Expstat(es) = stat {
                    if let Some(x) = cst.spec_child_node::<Exp>(es.syntax) {
                        lemma_checked_here(ctx, numbers.map(), cst, before_stat.len() as int, scopes_before, before_stat, diags@, x, false, false);
                    }
                }
                assert(stat_exps_checked(ctx, numbers.map(), cst, before_stat.len() as int, diags@, stat));
                lemma_bodies_checked_move(ctx, numbers.map(), cst, before_stat.len() as int, old(diags)@.len() as int, diags@, diags@, stat);
                assert forall|j: int| 0 <= j < i + 1 implies stat_bodies_checked(&old(self).diag_ctx, numbers.map(), cst, old(diags)@.len() as int, diags@, #[trigger] stats@[j]) by {
                    if j < i {
                        lemma_bodies_checked_move(ctx, numbers.map(), cst, old(diags)@.len() as int, old(diags)@.len() as int, at_top, diags@, stats@[j]);
                    }
                }
                lemma_stat_checked_move(ctx, numbers.map(), cst, before_stat.len() as int, old(diags)@.len() as int, diags@, diags@, stat);
                assert forall|j: int| 0 <= j < i + 1 implies stat_exps_checked(&old(self).diag_ctx, numbers.map(), cst, old(diags)@.len() as int, diags@, #[trigger] stats@[j]) by {
                    if j < i {
                        lemma_stat_checked_move(ctx, numbers.map(), cst, old(diags)@.len() as int, old(diags)@.len() as int, at_top, diags@, stats@[j]);
                    }
                }
                if old(self).loops@.len() == 0 {
                    assert forall|j: int| 0 <= j < i + 1 && (#[trigger] stats@[j]) is Breakstat implies reported_at_or_after(diags@, old(diags)@.len() as int, break_outside_view(cst.node_span(stats@[j].spec_syntax()))) by {
                        let want = break_outside_view(cst.node_span(stats@[j].spec_syntax()));
                        if j == i {
                            let k = before_stat.len() as int;
                            assert(diagnostics_view(diags@).len() == diags@.len());
                            assert(diagnostics_view(diags@)[k] == want);
                            assert(diags@[k]@ == want);
                        } else {
                            let k = choose|k: int| old(diags)@.len() <= k < before_stat.len() && #[trigger] before_stat[k]@ == want;
                            assert(diags@[k] == before_stat[k]);
                        }
                    }
                }
                if old(self).diag_ctx.levels@[EMPTY_STATEMENT as int] != Severity::Allow {
                    assert forall|j: int| #[trigger] empty_after_empty(stats@, j) && j < i + 1 implies empty_statement_reported(&old(self).diag_ctx, cst, stats@[j], diags@, old(diags)@.len() as int) by {
                        let k = choose|k: int| old(diags)@.len() <= k < before_stat.len() && #[trigger] before_stat[k]@ == lint_diagnostic(&old(self).diag_ctx, EMPTY_STATEMENT, seq![ann(AnnotationKind::Primary, cst.node_span(stats@[j].spec_syntax()), None)], Seq::empty());
                        assert(diags@[k] == before_stat[k]);
                    }
                }
            }
            i = i + 1;
        }
        let ghost before_pop = diags@;
        let ghost popped_from = self.scopes.scopes@;
        self.scopes.pop(&self.diag_ctx, cst, diags);
        proof {
            lemma_pop_declared_kept(popped_from, self.scopes.scopes@);
            let m = old(self).scopes.scopes@.len() as int;
            lemma_declared_kept_prefix(pushed_scopes, popped_from, m);
            assert(pushed_scopes.take(m) =~= old(self).scopes.scopes@);
            assert(popped_from.take(m) =~= popped_from.drop_last());
            lemma_declared_kept_trans(old(self).scopes.scopes@, popped_from.drop_last(), self.scopes.scopes@);
        }
        proof {
            lemma_declared_last(cst, pars, Stat::Emptystat(Emptystat { syntax: block.syntax }), base, popped_from);
            assert forall|j: int| 0 <= j < stats@.len() implies stat_declared(cst, #[trigger] stats@[j], popped_from.last()) by {}
            assert(scope_closed(&old(self).diag_ctx, cst, old(diags)@.len() as int, before_pop, diags@, popped_from.last(), old(self).scopes.scopes@.len() as int));
        }
        assert(forall|j: int| 0 <= j < before_pop.len() ==> #[trigger] diags@[j] == before_pop[j]);
        proof {
            let p = old(diags)@.len() + par_report_count(&old(self).diag_ctx, cst, pars);
            let sw = almost_swaps(&old(self).diag_ctx, cst, stats@, 0);
            assert(diagnostics_view(pushed).len() == p);
            assert(diagnostics_view(diags@).subrange(p, p + sw.len()) =~= sw) by {
                assert forall|i: int| 0 <= i < sw.len() implies diagnostics_view(diags@).subrange(p, p + sw.len())[i] == sw[i] by {
                    assert(diags@[p + i] == swapped[p + i]);
                    assert(diagnostics_view(swapped)[p + i] == sw[i]);
                }
            }
        }
        proof {
            assert forall|j: int| 0 <= j < stats@.len() implies stat_bodies_checked(&old(self).diag_ctx, numbers.map(), cst, old(diags)@.len() as int, diags@, #[trigger] stats@[j]) by {
                lemma_bodies_checked_move(&old(self).diag_ctx, numbers.map(), cst, old(diags)@.len() as int, old(diags)@.len() as int, before_pop, diags@, stats@[j]);
            }
            assert forall|j: int| 0 <= j < stats@.len() implies stat_exps_checked(&old(self).diag_ctx, numbers.map(), cst, old(diags)@.len() as int, diags@, #[trigger] stats@[j]) by {
                lemma_stat_checked_move(&old(self).diag_ctx, numbers.map(), cst, old(diags)@.len() as int, old(diags)@.len() as int, before_pop, diags@, stats@[j]);
            }
            if let Some(p) = pars {
                assert(diagnostics_view(pushed).len() == pushed.len());
                assert(diags@.take(pushed.len() as int) =~= pushed);
            }
            if old(self).loops@.len() == 0 {
                assert forall|j: int| 0 <= j < stats@.len() && (#[trigger] stats@[j]) is Breakstat implies reported_at_or_after(diags@, old(diags)@.len() as int, break_outside_view(cst.node_span(stats@[j].spec_syntax()))) by {
                    let want = break_outside_view(cst.node_span(stats@[j].spec_syntax()));
                    let k = choose|k: int| old(diags)@.len() <= k < before_pop.len() && #[trigger] before_pop[k]@ == want;
                    assert(diags@[k] == before_pop[k]);
                }
            }
            if old(self).diag_ctx.levels@[EMPTY_STATEMENT as int] != Severity::Allow {
                assert forall|j: int| #[trigger] empty_after_empty(stats@, j) implies empty_statement_reported(&old(self).diag_ctx, cst, stats@[j], diags@, old(diags)@.len() as int) by {
                    let k = choose|k: int| old(diags)@.len() <= k < before_pop.len() && #[trigger] before_pop[k]@ == lint_diagnostic(&old(self).diag_ctx, EMPTY_STATEMENT, seq![ann(AnnotationKind::Primary, cst.node_span(stats@[j].spec_syntax()), None)], Seq::empty());
                    assert(diags@[k] == before_pop[k]);
                }
            }
        }
    }
}

impl<'a> Checks<'a> {
    /// Checks a block that a statement owns, first reporting it when it is empty; `span` is
    /// what the report points at.
    fn check_owned_block(
        &mut self,
        cst: &Cst,
        numbers: &NameMap<NumberFact>,
        diags: &mut Vec<Diagnostic>,
        sema: &mut SemanticData,
        block: Block,
        span: Span,
        locals: BlockLocals,
    )
        requires
            old(self).wf(cst),
            numbers.wf(),
            block.syntax.0 < cst.spec_len(),
            span.start <= cst.source_view().len(),
            span.end <= cst.source_view().len(),
            match locals {
                BlockLocals::Nothing => true,
                BlockLocals::SelfParam(f) => f.syntax.0 < cst.spec_len(),
                BlockLocals::Loopvar(v, _) => v.syntax.0 < cst.spec_len(),
                BlockLocals::Loopvars(vs, _) => forall|k: int| 0 <= k < vs@.len() ==> (#[trigger] vs@[k].spec_syntax()).0 < cst.spec_len(),
            },
            node_map_below(old(sema).decl_bindings@, cst.spec_len()),
            node_map_below(old(sema).break_bindings@, cst.spec_len()),
        ensures
            final(self).check_post(old(self), cst, old(diags)@, final(diags)@, final(sema)),
            old(self).diag_ctx.levels@[EMPTY_BLOCK as int] != Severity::Allow && block.spec_empty_block_span(cst) is Some
                ==> final(diags)@.len() > old(diags)@.len() && final(diags)@[old(diags)@.len() as int]@ == lint_diagnostic(
                &old(self).diag_ctx,
                EMPTY_BLOCK,
                seq![ann(AnnotationKind::Primary, span, None)],
                seq![patches(Level::Help, "add a comment inside the block to suppress this warning"@, seq![patch(block.spec_empty_block_span(cst)->0, " --[[ TODO: explain why this block is empty ]] "@)])],
            ),
            block_checked_within(&old(self).diag_ctx, numbers.map(), cst, old(diags)@.len() as int, final(diags)@, block, None),
        decreases cst.spec_len() - block.syntax.0, 3int,
    {
        if let Some(empty_block) = self.diag_ctx.active::<EmptyBlock>() {
            if let Some(block_span) = block.empty_block_span(cst) {
                diags.push(empty_block.build(span, block_span));
            }
        }
        let ghost pushed = diags@;
        let ghost le = self.loops@.len() == 0;
        let ghost depth = self.scopes.scopes@.len() as int;
        self.check_block(cst, numbers, diags, sema, block, None, locals);
        assert(diags@[old(diags)@.len() as int] == pushed[old(diags)@.len() as int] || pushed.len() == old(diags)@.len());
        proof {
            lemma_block_checked_here(&old(self).diag_ctx, numbers.map(), cst, old(diags)@.len() as int, le, depth, pushed, diags@, block, None);
        }
    }

    /// Reports a statement whose targets at `lhs_spans` and values `rhs`, at `rhs_spans`, differ
    /// in number, as an unbalanced assignment or else initialization; `equal` is the span of
    /// its `=` token `equal_tok`.
    fn report_unbalanced(
        &self,
        cst: &Cst,
        diags: &mut Vec<Diagnostic>,
        assignment: bool,
        lhs_spans: &Vec<Span>,
        rhs: &Vec<Exp>,
        rhs_spans: &Vec<Span>,
        equal: Option<Span>,
        Ghost(equal_tok): Ghost<Option<NodeRef>>,
    )
        requires
            self.diag_ctx.levels@.len() == LINT_COUNT,
            spans_in(lhs_spans@, cst.source_view().len() as int),
            spans_in(rhs_spans@, cst.source_view().len() as int),
            rhs_spans@ == exp_spans(cst, rhs@),
            equal is Some <==> equal_tok is Some,
            equal matches Some(e) ==> e == cst.node_span(equal_tok->0) && e.start <= e.end <= cst.source_view().len(),
        ensures
            diagnostics_view(final(diags)@) == diagnostics_view(old(diags)@) + if assignment {
                unbalanced_reports(&self.diag_ctx, cst, UNBALANCED_ASSIGNMENT, lhs_spans@, rhs@, equal_tok, "expression"@, "value"@)
            } else {
                unbalanced_reports(&self.diag_ctx, cst, UNBALANCED_INITIALIZATION, lhs_spans@, rhs@, equal_tok, "name"@, "variable"@)
            },
            reported(&self.diag_ctx, cst.source_view().len() as int, old(diags)@, final(diags)@),
    {
        let ghost before = diagnostics_view(diags@);
        let n = rhs.len();
        let multi = n > 0 && match rhs[n - 1] {
            Exp::Callexp(_) | Exp::Varargexp(_) => true,
            _ => false,
        };
        let unbalanced = lhs_spans.len() > 0 && rhs_spans.len() > 0 && ((lhs_spans.len() > rhs_spans.len() && !multi)
            || lhs_spans.len() < rhs_spans.len());
        if let Some(equal_span) = equal {
            if unbalanced {
                if assignment {
                    if let Some(unbalanced_assignment) = self.diag_ctx.active::<UnbalancedAssignment>() {
                        let d = unbalanced_assignment.build(lhs_spans, rhs_spans, equal_span);
                        proof {
                            lemma_unbalanced_within(&self.diag_ctx, UNBALANCED_ASSIGNMENT, lhs_spans@, rhs_spans@, equal_span, "expression"@, "value"@, cst.source_view().len() as int);
                        }
                        diags.push(d);
                        assert(diagnostics_view(diags@) =~= before + seq![d@]);
                    }
                } else if let Some(unbalanced_initialization) = self.diag_ctx.active::<UnbalancedInitialization>() {
                    let d = unbalanced_initialization.build(lhs_spans, rhs_spans, equal_span);
                    proof {
                        lemma_unbalanced_within(&self.diag_ctx, UNBALANCED_INITIALIZATION, lhs_spans@, rhs_spans@, equal_span, "name"@, "variable"@, cst.source_view().len() as int);
                    }
                    diags.push(d);
                    assert(diagnostics_view(diags@) =~= before + seq![d@]);
                }
            }
        }
        assert(diagnostics_view(diags@) =~= before + if assignment {
            unbalanced_reports(&self.diag_ctx, cst, UNBALANCED_ASSIGNMENT, lhs_spans@, rhs@, equal_tok, "expression"@, "value"@)
        } else {
            unbalanced_reports(&self.diag_ctx, cst, UNBALANCED_INITIALIZATION, lhs_spans@, rhs@, equal_tok, "name"@, "variable"@)
        });
    }

    /// Checks an `if` statement: its conditions and the blocks of its branches.
    #[verifier::loop_isolation(false)]
    fn check_if(
        &mut self,
        cst: &Cst,
        numbers: &NameMap<NumberFact>,
        diags: &mut Vec<Diagnostic>,
        sema: &mut SemanticData,
        ifstat: Ifstat,
    )
        requires
            old(self).wf(cst),
            old(self).scopes.scopes@.len() > 0,
            numbers.wf(),
            ifstat.syntax.0 < cst.spec_len(),
            node_map_below(old(sema).decl_bindings@, cst.spec_len()),
            node_map_below(old(sema).break_bindings@, cst.spec_len()),
        ensures
            final(self).check_post(old(self), cst, old(diags)@, final(diags)@, final(sema)),
            all_checked(&old(self).diag_ctx, numbers.map(), cst, old(diags)@.len() as int, final(diags)@, opt_exps(cst.spec_child_node::<Exp>(ifstat.syntax)), false, false),
            stat_bodies_checked(&old(self).diag_ctx, numbers.map(), cst, old(diags)@.len() as int, final(diags)@, Stat::Ifstat(ifstat)),
        decreases cst.spec_len() - ifstat.syntax.0, 0int,
    {
        if let Some(cond) = ifstat.cond(cst) {
            self.check_exp(cst, numbers, diags, sema, cond, false, false);
        }
        let ghost mid = diags@;
        proof {
            if let Some(c) = cst.spec_child_node::<Exp>(ifstat.syntax) {
                lemma_checked_here(&old(self).diag_ctx, numbers.map(), cst, old(diags)@.len() as int, old(self).scopes.scopes@, old(diags)@, mid, c, false, false);
            }
            assert(all_checked(&old(self).diag_ctx, numbers.map(), cst, old(diags)@.len() as int, mid, opt_exps(cst.spec_child_node::<Exp>(ifstat.syntax)), false, false));
        }
        if let Some(block) = ifstat.then_block(cst) {
            let if_span = ifstat.span(cst);
            let span = match block.empty_block_span(cst) {
                Some(block_span) => Span { start: if_span.start, end: block_span.end },
                None => if_span,
            };
            let ghost before_body = diags@;
            self.check_owned_block(cst, numbers, diags, sema, block, span, BlockLocals::Nothing);
            proof {
                lemma_block_checked_move(&old(self).diag_ctx, numbers.map(), cst, before_body.len() as int, old(diags)@.len() as int, diags@, diags@, block, None);
            }
        }
        let elif_branches = ifstat.elif_branches(cst);
        let mut i: usize = 0;
        while i < elif_branches.len()
            invariant
                i <= elif_branches@.len(),
                elif_branches@ == cst.spec_child_nodes::<ElifBranch>(ifstat.syntax),
                mid.len() <= diags@.len(),
                forall|j: int| 0 <= j < mid.len() ==> #[trigger] diags@[j] == mid[j],
                self.check_post(old(self), cst, old(diags)@, diags@, sema),
                old(self).scopes.scopes@.len() > 0,
                numbers.wf(),
                forall|k: int| 0 <= k < elif_branches@.len() ==> after(cst, #[trigger] elif_branches@[k].spec_syntax(), ifstat.syntax),
                cst.spec_child_node::<Block>(ifstat.syntax) matches Some(b) ==> block_checked_within(&old(self).diag_ctx, numbers.map(), cst, old(diags)@.len() as int, diags@, b, None),
                forall|k: int| #![trigger elif_branches@[k]] 0 <= k < i ==> match cst.spec_child_node::<Block>(elif_branches@[k].syntax) {
                    Some(b) => block_checked_within(&old(self).diag_ctx, numbers.map(), cst, old(diags)@.len() as int, diags@, b, None),
                    None => true,
                },
            decreases elif_branches@.len() - i,
        {
            let elif_branch = elif_branches[i];
            let ghost before_iter = diags@;
            assert(after(cst, elif_branches@[i as int].spec_syntax(), ifstat.syntax));
            if let Some(cond) = elif_branch.cond(cst) {
                self.check_exp(cst, numbers, diags, sema, cond, false, false);
            }
            if let Some(block) = elif_branch.block(cst) {
                let ghost before_body = diags@;
                self.check_owned_block(cst, numbers, diags, sema, block, elif_branch.span(cst), BlockLocals::Nothing);
                proof {
                    lemma_block_checked_move(&old(self).diag_ctx, numbers.map(), cst, before_body.len() as int, old(diags)@.len() as int, diags@, diags@, block, None);
                }
            }
            proof {
                if let Some(b) = cst.spec_child_node::<Block>(ifstat.syntax) {
                    lemma_block_checked_move(&old(self).diag_ctx, numbers.map(), cst, old(diags)@.len() as int, old(diags)@.len() as int, before_iter, diags@, b, None);
                }
                assert forall|k: int| #![trigger elif_branches@[k]] 0 <= k < i + 1 implies match cst.spec_child_node::<Block>(elif_branches@[k].syntax) {
                    Some(b) => block_checked_within(&old(self).diag_ctx, numbers.map(), cst, old(diags)@.len() as int, diags@, b, None),
                    None => true,
                } by {
                    if k < i {
                        if let Some(b) = cst.spec_child_node::<Block>(elif_branches@[k].syntax) {
                            lemma_block_checked_move(&old(self).diag_ctx, numbers.map(), cst, old(diags)@.len() as int, old(diags)@.len() as int, before_iter, diags@, b, None);
                        }
                    }
                }
            }
            i = i + 1;
        }
        let ghost before_else = diags@;
        if let Some(else_branch) = ifstat.else_branch(cst) {
            if let Some(block) = else_branch.block(cst) {
                self.check_owned_block(cst, numbers, diags, sema, block, else_branch.span(cst), BlockLocals::Nothing);
                proof {
                    lemma_block_checked_move(&old(self).diag_ctx, numbers.map(), cst, before_else.len() as int, old(diags)@.len() as int, diags@, diags@, block, None);
                }
            }
        }
        proof {
            lemma_all_checked_extend(&old(self).diag_ctx, numbers.map(), cst, old(diags)@.len() as int, mid, diags@, opt_exps(cst.spec_child_node::<Exp>(ifstat.syntax)), false, false);
            let stat = Stat::Ifstat(ifstat);
            let bs = stat_blocks(cst, stat);
            let brs = cst.spec_child_nodes::<ElifBranch>(ifstat.syntax);
            assert forall|k: int| #![trigger bs[k]] 0 <= k < bs.len() implies match bs[k].0 {
                Some(b) => after(cst, b.syntax, stat.spec_syntax()) ==> block_checked_within(&old(self).diag_ctx, numbers.map(), cst, old(diags)@.len() as int, diags@, b, bs[k].1),
                None => true,
            } by {
                if k == 0 {
                    if let Some(b) = cst.spec_child_node::<Block>(ifstat.syntax) {
                        lemma_block_checked_move(&old(self).diag_ctx, numbers.map(), cst, old(diags)@.len() as int, old(diags)@.len() as int, before_else, diags@, b, None);
                    }
                } else if k <= brs.len() {
                    assert(bs[k] == (cst.spec_child_node::<Block>(brs[k - 1].syntax), None::<Pars>));
                    assert(brs[k - 1] == elif_branches@[k - 1]);
                    if let Some(b) = cst.spec_child_node::<Block>(brs[k - 1].syntax) {
                        lemma_block_checked_move(&old(self).diag_ctx, numbers.map(), cst, old(diags)@.len() as int, old(diags)@.len() as int, before_else, diags@, b, None);
                    }
                } else {
                    assert(bs[k] == (match cst.spec_child_node::<ElseBranch>(ifstat.syntax) {
                        Some(e) => cst.spec_child_node::<Block>(e.syntax),
                        None => None,
                    }, None::<Pars>));
                }
            }
        }
    }

    /// Checks a local declaration: its values, attributes and names.
    fn check_localvarstat(
        &mut self,
        cst: &Cst,
        numbers: &NameMap<NumberFact>,
        diags: &mut Vec<Diagnostic>,
        sema: &mut SemanticData,
        localvarstat: Localvarstat,
    )
        requires
            old(self).wf(cst),
            old(self).scopes.scopes@.len() > 0,
            numbers.wf(),
            localvarstat.syntax.0 < cst.spec_len(),
            node_map_below(old(sema).decl_bindings@, cst.spec_len()),
            node_map_below(old(sema).break_bindings@, cst.spec_len()),
        ensures
            final(self).check_post(old(self), cst, old(diags)@, final(diags)@, final(sema)),
            ends_with_reports(&old(self).diag_ctx, cst.source_view().len() as int, old(diags)@, final(diags)@,
                unbalanced_reports(&old(self).diag_ctx, cst, UNBALANCED_INITIALIZATION,
                    attname_spans(cst, cst.spec_child_nodes::<Attname>(localvarstat.syntax), cst.spec_child_nodes::<Attname>(localvarstat.syntax).len() as int),
                    cst.spec_explist_exps(localvarstat.syntax), cst.spec_child_token(localvarstat.syntax, Token::Equal), "name"@, "variable"@)),
            all_checked(&old(self).diag_ctx, numbers.map(), cst, old(diags)@.len() as int, final(diags)@, cst.spec_explist_exps(localvarstat.syntax), false, true),
            forall|k: int| 0 <= k < cst.spec_child_nodes::<Attname>(localvarstat.syntax).len() ==> match attname_name(cst, #[trigger] cst.spec_child_nodes::<Attname>(localvarstat.syntax)[k]) {
                Some(n) => final(self).scopes.scopes@.last().vars.map().contains_key(n),
                None => true,
            },
        decreases cst.spec_len() - localvarstat.syntax.0, 1int,
    {
        let inits = localvarstat.rhs_exps(cst);
        let (rhs_vararg, rhs_call, rhs_spans, rhs_tys) = self.check_rhs_exps(cst, numbers, diags, sema, localvarstat.syntax, &inits);
        let ghost mid = diags@;
        let (prefix_is_close, prefix_is_const) = self.check_attrib(cst, diags, localvarstat.prefix_attrib(cst), false, false, false);
        let attnames = localvarstat.attnames(cst);
        let mut lhs_spans: Vec<Span> = Vec::new();
        let mut i: usize = 0;
        while i < attnames.len()
            invariant
                mid.len() <= diags@.len(),
                forall|j: int| 0 <= j < mid.len() ==> #[trigger] diags@[j] == mid[j],
                all_checked(&old(self).diag_ctx, numbers.map(), cst, old(diags)@.len() as int, mid, cst.spec_explist_exps(localvarstat.syntax), false, true),
                self.check_post(old(self), cst, old(diags)@, diags@, sema),
                old(self).scopes.scopes@.len() > 0,
                lhs_spans@ == attname_spans(cst, attnames@, i as int),
                i <= attnames@.len(),
                spans_in(lhs_spans@, cst.source_view().len() as int),
                forall|k: int| 0 <= k < attnames@.len() ==> after(cst, #[trigger] attnames@[k].spec_syntax(), localvarstat.syntax),
                forall|k: int| 0 <= k < inits@.len() ==> after(cst, #[trigger] inits@[k].spec_syntax(), localvarstat.syntax),
                attnames@ == cst.spec_child_nodes::<Attname>(localvarstat.syntax),
                forall|k: int| 0 <= k < i ==> match attname_name(cst, #[trigger] attnames@[k]) {
                    Some(n) => self.scopes.scopes@.last().vars.map().contains_key(n),
                    None => true,
                },
            decreases attnames@.len() - i,
        {
            let attname = attnames[i];
            assert(after(cst, attnames@[i as int].spec_syntax(), localvarstat.syntax));
            let (is_close, is_const) = self.check_attrib(cst, diags, attname.attrib(cst), false, prefix_is_close, prefix_is_const);
            if let Some((name, span)) = attname.name(cst) {
                lhs_spans.push(span);
                assert(attname_spans(cst, attnames@, i + 1) =~= attname_spans(cst, attnames@, i as int).push(span));
                self.check_local_binding(cst, diags, name, span);
                if let Some(redundant_local) = self.diag_ctx.active::<RedundantLocal>() {
                    if i < inits.len() {
                        if let Exp::Nameexp(nameexp) = inits[i] {
                            if let Some((rhs_name, rhs_span)) = nameexp.name(cst) {
                                if bytes_eq(name, rhs_name) {
                                    if let Some(old_decl) = sema.decl_bindings.get(nameexp.syntax()) {
                                        diags.push(redundant_local.build(span, rhs_span, cst.span(old_decl)));
                                    }
                                }
                            }
                        }
                    }
                }
                let ty = if i < rhs_tys.len() {
                    rhs_tys[i]
                } else {
                    TypeSet::nil()
                };
                self.scopes.insert_local(name, attname.syntax(), is_close, is_const, ty);
            }
            proof {
                assert forall|k: int| 0 <= k < i + 1 implies match attname_name(cst, #[trigger] attnames@[k]) {
                    Some(n) => self.scopes.scopes@.last().vars.map().contains_key(n),
                    None => true,
                } by {
                    if k == i {
                        assert(attnames@[k] == attname);
                    }
                }
            }
            i = i + 1;
        }
        let ghost mid = diags@;
        assert(rhs_spans@ =~= exp_spans(cst, inits@));
        let equal = localvarstat.equal_span(cst);
        self.report_unbalanced(cst, diags, false, &lhs_spans, &inits, &rhs_spans, equal, Ghost(cst.spec_child_token(localvarstat.syntax, Token::Equal)));
        assert(reported(&self.diag_ctx, cst.source_view().len() as int, old(diags)@, mid));
        proof {
            lemma_all_checked_extend(&old(self).diag_ctx, numbers.map(), cst, old(diags)@.len() as int, mid, diags@, cst.spec_explist_exps(localvarstat.syntax), false, true);
        }
    }

    /// Checks a global declaration: its values, attributes and names.
    fn check_globalvarstat(
        &mut self,
        cst: &Cst,
        numbers: &NameMap<NumberFact>,
        diags: &mut Vec<Diagnostic>,
        sema: &mut SemanticData,
        globalvarstat: Globalvarstat,
    )
        requires
            old(self).wf(cst),
            old(self).scopes.scopes@.len() > 0,
            numbers.wf(),
            globalvarstat.syntax.0 < cst.spec_len(),
            node_map_below(old(sema).decl_bindings@, cst.spec_len()),
            node_map_below(old(sema).break_bindings@, cst.spec_len()),
        ensures
            final(self).check_post(old(self), cst, old(diags)@, final(diags)@, final(sema)),
            ends_with_reports(&old(self).diag_ctx, cst.source_view().len() as int, old(diags)@, final(diags)@,
                unbalanced_reports(&old(self).diag_ctx, cst, UNBALANCED_INITIALIZATION,
                    attname_spans(cst, cst.spec_child_nodes::<Attname>(globalvarstat.syntax), cst.spec_child_nodes::<Attname>(globalvarstat.syntax).len() as int),
                    cst.spec_explist_exps(globalvarstat.syntax), cst.spec_child_token(globalvarstat.syntax, Token::Equal), "name"@, "variable"@)),
            all_checked(&old(self).diag_ctx, numbers.map(), cst, old(diags)@.len() as int, final(diags)@, cst.spec_explist_exps(globalvarstat.syntax), false, true),
            forall|k: int| 0 <= k < cst.spec_child_nodes::<Attname>(globalvarstat.syntax).len() ==> match attname_name(cst, #[trigger] cst.spec_child_nodes::<Attname>(globalvarstat.syntax)[k]) {
                Some(n) => final(self).scopes.scopes@.last().vars.map().contains_key(n),
                None => true,
            },
        decreases cst.spec_len() - globalvarstat.syntax.0, 1int,
    {
        let inits = globalvarstat.rhs_exps(cst);
        let (rhs_vararg, rhs_call, rhs_spans, _) = self.check_rhs_exps(cst, numbers, diags, sema, globalvarstat.syntax, &inits);
        let ghost mid = diags@;
        let (_, prefix_is_const) = self.check_attrib(cst, diags, globalvarstat.prefix_attrib(cst), true, false, false);
        let attnames = globalvarstat.attnames(cst);
        let mut lhs_spans: Vec<Span> = Vec::new();
        let mut i: usize = 0;
        while i < attnames.len()
            invariant
                mid.len() <= diags@.len(),
                forall|j: int| 0 <= j < mid.len() ==> #[trigger] diags@[j] == mid[j],
                all_checked(&old(self).diag_ctx, numbers.map(), cst, old(diags)@.len() as int, mid, cst.spec_explist_exps(globalvarstat.syntax), false, true),
                self.check_post(old(self), cst, old(diags)@, diags@, sema),
                old(self).scopes.scopes@.len() > 0,
                lhs_spans@ == attname_spans(cst, attnames@, i as int),
                i <= attnames@.len(),
                spans_in(lhs_spans@, cst.source_view().len() as int),
                forall|k: int| 0 <= k < attnames@.len() ==> after(cst, #[trigger] attnames@[k].spec_syntax(), globalvarstat.syntax),
                attnames@ == cst.spec_child_nodes::<Attname>(globalvarstat.syntax),
                forall|k: int| 0 <= k < i ==> match attname_name(cst, #[trigger] attnames@[k]) {
                    Some(n) => self.scopes.scopes@.last().vars.map().contains_key(n),
                    None => true,
                },
            decreases attnames@.len() - i,
        {
            let attname = attnames[i];
            assert(after(cst, attnames@[i as int].spec_syntax(), globalvarstat.syntax));
            let (_, is_const) = self.check_attrib(cst, diags, attname.attrib(cst), true, false, prefix_is_const);
            if let Some((name, span)) = attname.name(cst) {
                lhs_spans.push(span);
                assert(attname_spans(cst, attnames@, i + 1) =~= attname_spans(cst, attnames@, i as int).push(span));
                self.scopes.insert_global(name, attname.syntax(), is_const);
            }
            proof {
                assert forall|k: int| 0 <= k < i + 1 implies match attname_name(cst, #[trigger] attnames@[k]) {
                    Some(n) => self.scopes.scopes@.last().vars.map().contains_key(n),
                    None => true,
                } by {
                    if k == i {
                        assert(attnames@[k] == attname);
                    }
                }
            }
            i = i + 1;
        }
        let ghost mid = diags@;
        assert(rhs_spans@ =~= exp_spans(cst, inits@));
        let equal = globalvarstat.equal_span(cst);
        self.report_unbalanced(cst, diags, false, &lhs_spans, &inits, &rhs_spans, equal, Ghost(cst.spec_child_token(globalvarstat.syntax, Token::Equal)));
        assert(reported(&self.diag_ctx, cst.source_view().len() as int, old(diags)@, mid));
        proof {
            lemma_all_checked_extend(&old(self).diag_ctx, numbers.map(), cst, old(diags)@.len() as int, mid, diags@, cst.spec_explist_exps(globalvarstat.syntax), false, true);
        }
    }

    /// Checks an assignment: its values, its targets and their number.
    #[verifier::spinoff_prover]
    #[verifier::rlimit(30)]
    fn check_assignstat(
        &mut self,
        cst: &Cst,
        numbers: &NameMap<NumberFact>,
        diags: &mut Vec<Diagnostic>,
        sema: &mut SemanticData,
        assignstat: Assignstat,
    )
        requires
            old(self).wf(cst),
            old(self).scopes.scopes@.len() > 0,
            numbers.wf(),
            assignstat.syntax.0 < cst.spec_len(),
            node_map_below(old(sema).decl_bindings@, cst.spec_len()),
            node_map_below(old(sema).break_bindings@, cst.spec_len()),
        ensures
            final(self).check_post(old(self), cst, old(diags)@, final(diags)@, final(sema)),
            stat_bodies_checked(&old(self).diag_ctx, numbers.map(), cst, old(diags)@.len() as int, final(diags)@, Stat::Assignstat(assignstat)),
            ends_with_reports(&old(self).diag_ctx, cst.source_view().len() as int, old(diags)@, final(diags)@,
                unbalanced_reports(&old(self).diag_ctx, cst, UNBALANCED_ASSIGNMENT, exp_spans(cst, cst.spec_child_nodes::<Exp>(assignstat.syntax)),
                    cst.spec_explist_exps(assignstat.syntax), cst.spec_child_token(assignstat.syntax, Token::Equal), "expression"@, "value"@)),
            all_checked(&old(self).diag_ctx, numbers.map(), cst, old(diags)@.len() as int, final(diags)@, cst.spec_explist_exps(assignstat.syntax), false, true),
            all_checked(&old(self).diag_ctx, numbers.map(), cst, old(diags)@.len() as int, final(diags)@, cst.spec_child_nodes::<Exp>(assignstat.syntax), true, false),
        decreases cst.spec_len() - assignstat.syntax.0, 1int,
    {
        let rhs = assignstat.rhs_exps(cst);
        let (rhs_vararg, rhs_call, rhs_spans, _) = self.check_rhs_exps(cst, numbers, diags, sema, assignstat.syntax, &rhs);
        let ghost rhs_done = diags@;
        let lhs = assignstat.lhs_exps(cst);
        let mut lhs_spans: Vec<Span> = Vec::new();
        let mut i: usize = 0;
        while i < lhs.len()
            invariant
                rhs_done.len() <= diags@.len(),
                forall|j: int| 0 <= j < rhs_done.len() ==> #[trigger] diags@[j] == rhs_done[j],
                all_checked(&old(self).diag_ctx, numbers.map(), cst, old(diags)@.len() as int, rhs_done, cst.spec_explist_exps(assignstat.syntax), false, true),
                lhs@ == cst.spec_child_nodes::<Exp>(assignstat.syntax),
                all_checked(&old(self).diag_ctx, numbers.map(), cst, old(diags)@.len() as int, diags@, lhs@.take(i as int), true, false),
                i <= lhs@.len(),
                lhs_spans@.len() == i,
                lhs_spans@ == exp_spans(cst, lhs@.take(i as int)),
                spans_in(lhs_spans@, cst.source_view().len() as int),
                self.check_post(old(self), cst, old(diags)@, diags@, sema),
                old(self).scopes.scopes@.len() > 0,
                numbers.wf(),
                forall|k: int| 0 <= k < lhs@.len() ==> after(cst, #[trigger] lhs@[k].spec_syntax(), assignstat.syntax),
            decreases lhs@.len() - i,
        {
            let exp = lhs[i];
            assert(after(cst, lhs@[i as int].spec_syntax(), assignstat.syntax));
            lhs_spans.push(exp.span(cst));
            assert(exp_spans(cst, lhs@.take(i + 1)) =~= exp_spans(cst, lhs@.take(i as int)).push(cst.node_span(exp.spec_syntax())));
            let ghost before = diags@;
            let ghost scopes = self.scopes.scopes@;
            self.check_exp(cst, numbers, diags, sema, exp, true, false);
            proof {
                lemma_checked_here(&old(self).diag_ctx, numbers.map(), cst, old(diags)@.len() as int, scopes, before, diags@, exp, true, false);
                lemma_all_checked_extend(&old(self).diag_ctx, numbers.map(), cst, old(diags)@.len() as int, before, diags@, lhs@.take(i as int), true, false);
                lemma_all_checked_push(&old(self).diag_ctx, numbers.map(), cst, old(diags)@.len() as int, diags@, lhs@, i as int, true, false);
            }
            i = i + 1;
        }
        let ghost mid = diags@;
        assert(lhs@.take(lhs@.len() as int) =~= lhs@);
        assert(rhs_spans@ =~= exp_spans(cst, rhs@));
        let equal = assignstat.equal_span(cst);
        self.report_unbalanced(cst, diags, true, &lhs_spans, &rhs, &rhs_spans, equal, Ghost(cst.spec_child_token(assignstat.syntax, Token::Equal)));
        assert(reported(&self.diag_ctx, cst.source_view().len() as int, old(diags)@, mid));
        proof {
            lemma_all_checked_extend(&old(self).diag_ctx, numbers.map(), cst, old(diags)@.len() as int, rhs_done, diags@, cst.spec_explist_exps(assignstat.syntax), false, true);
            lemma_all_checked_extend(&old(self).diag_ctx, numbers.map(), cst, old(diags)@.len() as int, mid, diags@, lhs@, true, false);
        }
    }

    /// Checks a numeric `for` loop: its header and its body.
    fn check_numeric_for(
        &mut self,
        cst: &Cst,
        numbers: &NameMap<NumberFact>,
        diags: &mut Vec<Diagnostic>,
        sema: &mut SemanticData,
        forstat: NumericForstat,
    )
        requires
            old(self).wf(cst),
            old(self).scopes.scopes@.len() > 0,
            numbers.wf(),
            forstat.syntax.0 < cst.spec_len(),
            node_map_below(old(sema).decl_bindings@, cst.spec_len()),
            node_map_below(old(sema).break_bindings@, cst.spec_len()),
        ensures
            final(self).check_post(old(self), cst, old(diags)@, final(diags)@, final(sema)),
            stat_bodies_checked(&old(self).diag_ctx, numbers.map(), cst, old(diags)@.len() as int, final(diags)@, Stat::NumericForstat(forstat)),
            all_checked(&old(self).diag_ctx, numbers.map(), cst, old(diags)@.len() as int, final(diags)@, opt_exps(seq_get(cst.spec_child_nodes::<Exp>(forstat.syntax), 0)), false, false),
            all_checked(&old(self).diag_ctx, numbers.map(), cst, old(diags)@.len() as int, final(diags)@, opt_exps(seq_get(cst.spec_child_nodes::<Exp>(forstat.syntax), 1)), false, false),
            all_checked(&old(self).diag_ctx, numbers.map(), cst, old(diags)@.len() as int, final(diags)@, opt_exps(seq_get(cst.spec_child_nodes::<Exp>(forstat.syntax), 2)), false, false),
        decreases cst.spec_len() - forstat.syntax.0, 1int,
    {
        let (from, to, stride) = forstat.exp_from_to_stride(cst);
        let ghost s0 = self.scopes.scopes@;
        if let Some(x) = from {
            self.check_exp(cst, numbers, diags, sema, x, false, false);
        }
        let ghost m1 = diags@;
        let ghost s1 = self.scopes.scopes@;
        if let Some(x) = to {
            self.check_exp(cst, numbers, diags, sema, x, false, false);
        }
        let ghost m2 = diags@;
        let ghost s2 = self.scopes.scopes@;
        if let Some(x) = stride {
            self.check_exp(cst, numbers, diags, sema, x, false, false);
        }
        let ghost m3 = diags@;
        proof {
            if let Some(x) = from {
                lemma_checked_here(&old(self).diag_ctx, numbers.map(), cst, old(diags)@.len() as int, s0, old(diags)@, m1, x, false, false);
            }
            assert(all_checked(&old(self).diag_ctx, numbers.map(), cst, old(diags)@.len() as int, m1, opt_exps(from), false, false));
            if let Some(x) = to {
                lemma_checked_here(&old(self).diag_ctx, numbers.map(), cst, old(diags)@.len() as int, s1, m1, m2, x, false, false);
            }
            assert(all_checked(&old(self).diag_ctx, numbers.map(), cst, old(diags)@.len() as int, m2, opt_exps(to), false, false));
            if let Some(x) = stride {
                lemma_checked_here(&old(self).diag_ctx, numbers.map(), cst, old(diags)@.len() as int, s2, m2, m3, x, false, false);
            }
            assert(all_checked(&old(self).diag_ctx, numbers.map(), cst, old(diags)@.len() as int, m3, opt_exps(stride), false, false));
            lemma_all_checked_extend(&old(self).diag_ctx, numbers.map(), cst, old(diags)@.len() as int, m1, m3, opt_exps(from), false, false);
            lemma_all_checked_extend(&old(self).diag_ctx, numbers.map(), cst, old(diags)@.len() as int, m2, m3, opt_exps(to), false, false);
        }
        self.loops.push(forstat.syntax());
        let ghost before_body = diags@;
        if let Some(block) = forstat.block(cst) {
            let const_loop_var = self.diag_ctx.config.lua_minor_version == 5;
            let locals = match forstat.loopvar(cst) {
                Some(loopvar) => BlockLocals::Loopvar(loopvar, const_loop_var),
                None => BlockLocals::Nothing,
            };
            self.check_owned_block(cst, numbers, diags, sema, block, forstat.span(cst), locals);
            proof {
                lemma_block_checked_move(&old(self).diag_ctx, numbers.map(), cst, before_body.len() as int, old(diags)@.len() as int, diags@, diags@, block, None);
            }
        }
        self.loops.pop();
        assert(self.loops@ =~= old(self).loops@);
        proof {
            lemma_all_checked_extend(&old(self).diag_ctx, numbers.map(), cst, old(diags)@.len() as int, m3, diags@, opt_exps(from), false, false);
            lemma_all_checked_extend(&old(self).diag_ctx, numbers.map(), cst, old(diags)@.len() as int, m3, diags@, opt_exps(to), false, false);
            lemma_all_checked_extend(&old(self).diag_ctx, numbers.map(), cst, old(diags)@.len() as int, m3, diags@, opt_exps(stride), false, false);
        }
        proof {
            assert(stat_blocks(cst, Stat::NumericForstat(forstat))[0] == (cst.spec_child_node::<Block>(forstat.syntax), None::<Pars>));
        }
    }

    /// Checks a generic `for` loop: its expressions and its body.
    fn check_generic_for(
        &mut self,
        cst: &Cst,
        numbers: &NameMap<NumberFact>,
        diags: &mut Vec<Diagnostic>,
        sema: &mut SemanticData,
        forstat: GenericForstat,
    )
        requires
            old(self).wf(cst),
            old(self).scopes.scopes@.len() > 0,
            numbers.wf(),
            forstat.syntax.0 < cst.spec_len(),
            node_map_below(old(sema).decl_bindings@, cst.spec_len()),
            node_map_below(old(sema).break_bindings@, cst.spec_len()),
        ensures
            final(self).check_post(old(self), cst, old(diags)@, final(diags)@, final(sema)),
            stat_bodies_checked(&old(self).diag_ctx, numbers.map(), cst, old(diags)@.len() as int, final(diags)@, Stat::GenericForstat(forstat)),
            all_checked(&old(self).diag_ctx, numbers.map(), cst, old(diags)@.len() as int, final(diags)@, cst.spec_explist_exps(forstat.syntax), false, false),
        decreases cst.spec_len() - forstat.syntax.0, 1int,
    {
        let exps = forstat.exps(cst);
        let mut i: usize = 0;
        while i < exps.len()
            invariant
                self.check_post(old(self), cst, old(diags)@, diags@, sema),
                old(self).scopes.scopes@.len() > 0,
                numbers.wf(),
                forall|k: int| 0 <= k < exps@.len() ==> after(cst, #[trigger] exps@[k].spec_syntax(), forstat.syntax),
                i <= exps@.len(),
                exps@ == cst.spec_explist_exps(forstat.syntax),
                all_checked(&old(self).diag_ctx, numbers.map(), cst, old(diags)@.len() as int, diags@, exps@.take(i as int), false, false),
            decreases exps@.len() - i,
        {
            assert(after(cst, exps@[i as int].spec_syntax(), forstat.syntax));
            let ghost before = diags@;
            let ghost scopes = self.scopes.scopes@;
            self.check_exp(cst, numbers, diags, sema, exps[i], false, false);
            proof {
                lemma_checked_here(&old(self).diag_ctx, numbers.map(), cst, old(diags)@.len() as int, scopes, before, diags@, exps@[i as int], false, false);
                lemma_all_checked_extend(&old(self).diag_ctx, numbers.map(), cst, old(diags)@.len() as int, before, diags@, exps@.take(i as int), false, false);
                lemma_all_checked_push(&old(self).diag_ctx, numbers.map(), cst, old(diags)@.len() as int, diags@, exps@, i as int, false, false);
            }
            i = i + 1;
        }
        assert(exps@.take(exps@.len() as int) =~= exps@);
        let ghost mid = diags@;
        self.loops.push(forstat.syntax());
        let ghost before_body = diags@;
        if let Some(block) = forstat.block(cst) {
            let const_loop_var = self.diag_ctx.config.lua_minor_version == 5;
            let loopvars = forstat.loopvars(cst);
            self.check_owned_block(cst, numbers, diags, sema, block, forstat.span(cst), BlockLocals::Loopvars(loopvars, const_loop_var));
            proof {
                lemma_block_checked_move(&old(self).diag_ctx, numbers.map(), cst, before_body.len() as int, old(diags)@.len() as int, diags@, diags@, block, None);
            }
        }
        self.loops.pop();
        assert(self.loops@ =~= old(self).loops@);
        proof {
            lemma_all_checked_extend(&old(self).diag_ctx, numbers.map(), cst, old(diags)@.len() as int, mid, diags@, cst.spec_explist_exps(forstat.syntax), false, false);
        }
        proof {
            assert(stat_blocks(cst, Stat::GenericForstat(forstat))[0] == (cst.spec_child_node::<Block>(forstat.syntax), None::<Pars>));
        }
    }

    /// Checks a statement.
    #[verifier::spinoff_prover]
    #[verifier::rlimit(100)]
    fn check_statement(
        &mut self,
        cst: &Cst,
        numbers: &NameMap<NumberFact>,
        diags: &mut Vec<Diagnostic>,
        sema: &mut SemanticData,
        stat: Stat,
    )
        requires
            old(self).wf(cst),
            old(self).scopes.scopes@.len() > 0,
            numbers.wf(),
            stat.spec_syntax().0 < cst.spec_len(),
            node_map_below(old(sema).decl_bindings@, cst.spec_len()),
            node_map_below(old(sema).break_bindings@, cst.spec_len()),
        ensures
            final(self).check_post(old(self), cst, old(diags)@, final(diags)@, final(sema)),
            stat is Emptystat || stat is Gotostat ==> final(diags)@ == old(diags)@,
            stat matches Stat::Assignstat(a) ==> ends_with_reports(&old(self).diag_ctx, cst.source_view().len() as int, old(diags)@, final(diags)@,
                unbalanced_reports(&old(self).diag_ctx, cst, UNBALANCED_ASSIGNMENT, exp_spans(cst, cst.spec_child_nodes::<Exp>(a.syntax)),
                    cst.spec_explist_exps(a.syntax), cst.spec_child_token(a.syntax, Token::Equal), "expression"@, "value"@)),
            stat matches Stat::Localvarstat(l) ==> ends_with_reports(&old(self).diag_ctx, cst.source_view().len() as int, old(diags)@, final(diags)@,
                unbalanced_reports(&old(self).diag_ctx, cst, UNBALANCED_INITIALIZATION,
                    attname_spans(cst, cst.spec_child_nodes::<Attname>(l.syntax), cst.spec_child_nodes::<Attname>(l.syntax).len() as int),
                    cst.spec_explist_exps(l.syntax), cst.spec_child_token(l.syntax, Token::Equal), "name"@, "variable"@)),
            stat matches Stat::Globalvarstat(g) ==> ends_with_reports(&old(self).diag_ctx, cst.source_view().len() as int, old(diags)@, final(diags)@,
                unbalanced_reports(&old(self).diag_ctx, cst, UNBALANCED_INITIALIZATION,
                    attname_spans(cst, cst.spec_child_nodes::<Attname>(g.syntax), cst.spec_child_nodes::<Attname>(g.syntax).len() as int),
                    cst.spec_explist_exps(g.syntax), cst.spec_child_token(g.syntax, Token::Equal), "name"@, "variable"@)),
            stat matches Stat::Breakstat(b) ==> diagnostics_view(final(diags)@) == diagnostics_view(old(diags)@) + if old(self).loops@.len() > 0 {
                Seq::empty()
            } else {
                seq![DiagnosticView { error: true, groups: seq![annotated(Level::Error, "break not inside a loop"@, seq![ann(AnnotationKind::Primary, cst.node_span(b.syntax), None)])] }]
            },
            stat matches Stat::Label(l) ==> match cst.spec_child_token(l.syntax, Token::Name) {
                Some(n) => match label_below(old(self).scopes.scopes@, old(self).scopes.scopes@.len() as int, cst.text(cst.node_span(n))) {
                    Some(k) => diagnostics_view(final(diags)@) == diagnostics_view(old(diags)@) + seq![DiagnosticView {
                        error: true,
                        groups: seq![annotated(Level::Error, "redefined label"@, seq![
                            ann(AnnotationKind::Primary, cst.node_span(l.syntax), None),
                            ann(AnnotationKind::Context, cst.node_span(old(self).scopes.scopes@[k].label.map()[cst.text(cst.node_span(n))].0.syntax), Some("previous definition"@)),
                        ])],
                    }],
                    None => true,
                },
                None => final(diags)@ == old(diags)@,
            },
            stat matches Stat::Breakstat(b) ==> final(sema).break_bindings@ == if old(self).loops@.len() > 0 {
                old(sema).break_bindings@.insert(b.syntax.0, old(self).loops@.last().0)
            } else {
                old(sema).break_bindings@
            },
            stat matches Stat::Expstat(es) ==> match cst.spec_child_node::<Exp>(es.syntax) {
                Some(x) => exp_reports_hold(&old(self).diag_ctx, numbers.map(), cst, old(self).scopes.scopes@, old(diags)@, final(diags)@, x, false, false),
                None => final(diags)@ == old(diags)@,
            },
            stat matches Stat::Retstat(rs) ==> all_checked(&old(self).diag_ctx, numbers.map(), cst, old(diags)@.len() as int, final(diags)@, cst.spec_explist_exps(rs.syntax), false, false),
            stat matches Stat::Whilestat(w) ==> all_checked(&old(self).diag_ctx, numbers.map(), cst, old(diags)@.len() as int, final(diags)@, opt_exps(cst.spec_child_node::<Exp>(w.syntax)), false, false),
            stat matches Stat::Repeatstat(w) ==> all_checked(&old(self).diag_ctx, numbers.map(), cst, old(diags)@.len() as int, final(diags)@, opt_exps(cst.spec_child_node::<Exp>(w.syntax)), false, false),
            stat matches Stat::Ifstat(w) ==> all_checked(&old(self).diag_ctx, numbers.map(), cst, old(diags)@.len() as int, final(diags)@, opt_exps(cst.spec_child_node::<Exp>(w.syntax)), false, false),
            stat matches Stat::NumericForstat(f) ==> all_checked(&old(self).diag_ctx, numbers.map(), cst, old(diags)@.len() as int, final(diags)@, opt_exps(seq_get(cst.spec_child_nodes::<Exp>(f.syntax), 0)), false, false),
            stat matches Stat::NumericForstat(f) ==> all_checked(&old(self).diag_ctx, numbers.map(), cst, old(diags)@.len() as int, final(diags)@, opt_exps(seq_get(cst.spec_child_nodes::<Exp>(f.syntax), 1)), false, false),
            stat matches Stat::NumericForstat(f) ==> all_checked(&old(self).diag_ctx, numbers.map(), cst, old(diags)@.len() as int, final(diags)@, opt_exps(seq_get(cst.spec_child_nodes::<Exp>(f.syntax), 2)), false, false),
            stat matches Stat::GenericForstat(f) ==> all_checked(&old(self).diag_ctx, numbers.map(), cst, old(diags)@.len() as int, final(diags)@, cst.spec_explist_exps(f.syntax), false, false),
            stat matches Stat::Assignstat(a) ==> all_checked(&old(self).diag_ctx, numbers.map(), cst, old(diags)@.len() as int, final(diags)@, cst.spec_explist_exps(a.syntax), false, true),
            stat matches Stat::Assignstat(a) ==> all_checked(&old(self).diag_ctx, numbers.map(), cst, old(diags)@.len() as int, final(diags)@, cst.spec_child_nodes::<Exp>(a.syntax), true, false),
            stat matches Stat::Localvarstat(l) ==> all_checked(&old(self).diag_ctx, numbers.map(), cst, old(diags)@.len() as int, final(diags)@, cst.spec_explist_exps(l.syntax), false, true),
            stat matches Stat::Globalvarstat(g) ==> all_checked(&old(self).diag_ctx, numbers.map(), cst, old(diags)@.len() as int, final(diags)@, cst.spec_explist_exps(g.syntax), false, true),
            stat_declared(cst, stat, final(self).scopes.scopes@.last()),
            stat_bodies_checked(&old(self).diag_ctx, numbers.map(), cst, old(diags)@.len() as int, final(diags)@, stat),
        decreases cst.spec_len() - stat.spec_syntax().0, 2int,
    {
        match stat {
            Stat::Emptystat(_) => {},
            Stat::Expstat(expstat) => {
                if let Some(exp) = expstat.exp(cst) {
                    self.check_exp(cst, numbers, diags, sema, exp, false, false);
                }
            },
            Stat::Assignstat(assignstat) => {
                self.check_assignstat(cst, numbers, diags, sema, assignstat);
            },
            Stat::Label(label) => {
                let label_span = label.span(cst);
                let name = label.name(cst);
                let decl = match name {
                    Some((n, _)) => self.scopes.get_label(n),
                    None => None,
                };
                assert(self.scopes.refs_below(cst.spec_len()));
                if let Some(decl) = decl {
                    diags.push(self.diag_ctx.redefined_label(label_span, decl.span(cst)));
                } else if let Some((name, _)) = name {
                    let pending_gotos = self.scopes.remove_pending_goto(name);
                    assert(self.scopes.refs_below(cst.spec_len()));
                    if pending_gotos.len() > 0 {
                        let mut i: usize = 0;
                        while i < pending_gotos.len()
                            invariant
                                self.check_post(old(self), cst, old(diags)@, diags@, sema),
                                old(self).scopes.scopes@.len() > 0,
                                label.syntax.0 < cst.spec_len(),
                                label_span.start <= label_span.end <= cst.source_view().len(),
                                forall|k: int| 0 <= k < pending_gotos@.len() ==> (#[trigger] pending_gotos@[k]).syntax.0 < cst.spec_len(),
                            decreases pending_gotos@.len() - i,
                        {
                            let gotostat = pending_gotos[i];
                            assert(pending_gotos@[i as int].syntax.0 < cst.spec_len());
                            self.scopes.insert_label(name, label, true);
                            sema.decl_bindings.insert(gotostat.syntax(), label.syntax());
                            assert(self.scopes.refs_below(cst.spec_len()));
                            if let Some(entry) = self.scopes.get_entry(label) {
                                let skipped = self.scopes.get_skipped(gotostat);
                                let mut local_spans: Vec<Span> = Vec::new();
                                let mut j: usize = 0;
                                while j < skipped.len()
                                    invariant
                                        forall|m: int| 0 <= m < skipped@.len() ==> (#[trigger] skipped@[m]).0 < cst.spec_len(),
                                        spans_in(local_spans@, cst.source_view().len() as int),
                                    decreases skipped@.len() - j,
                                {
                                    assert(skipped@[j as int].0 < cst.spec_len());
                                    local_spans.push(cst.span(skipped[j]));
                                    j = j + 1;
                                }
                                if local_spans.len() > 0 {
                                    let goto_span = gotostat.span(cst);
                                    let skipped_span = Span { start: goto_span.start, end: label_span.end };
                                    let entry_span = entry.span(cst);
                                    let d = self.diag_ctx.goto_skips_local(goto_span, skipped_span, &local_spans, entry_span);
                                    proof {
                                        let len = cst.source_view().len() as int;
                                        lemma_annotations_within(local_spans@, AnnotationKind::Context, "local declaration"@, len);
                                        lemma_annotations_concat_within(
                                            seq![ann(AnnotationKind::Primary, goto_span, None), ann(AnnotationKind::Context, skipped_span, Some("jumped code"@))],
                                            labeled_spans_annotations(local_spans@, AnnotationKind::Context, "local declaration"@),
                                            len,
                                        );
                                    }
                                    diags.push(d);
                                }
                            }
                            i = i + 1;
                        }
                    } else {
                        self.scopes.insert_label(name, label, false);
                    }
                }
            },
            Stat::Breakstat(breakstat) => {
                if self.loops.len() > 0 {
                    let loopstat = self.loops[self.loops.len() - 1];
                    sema.break_bindings.insert(breakstat.syntax(), loopstat);
                } else {
                    diags.push(self.diag_ctx.break_outside_loop(breakstat.span(cst)));
                }
            },
            Stat::Gotostat(gotostat) => {
                if let Some((name, _)) = gotostat.name(cst) {
                    if let Some(decl) = self.scopes.get_label(name) {
                        sema.decl_bindings.insert(gotostat.syntax(), decl.syntax());
                    } else {
                        self.scopes.insert_pending_goto(name, gotostat);
                    }
                }
            },
            Stat::Dostat(dostat) => {
                let ghost before_body = diags@;
                if let Some(block) = dostat.block(cst) {
                    self.check_owned_block(cst, numbers, diags, sema, block, dostat.span(cst), BlockLocals::Nothing);
                    proof {
                        lemma_block_checked_move(&old(self).diag_ctx, numbers.map(), cst, before_body.len() as int, old(diags)@.len() as int, diags@, diags@, block, None);
                    }
                }
                proof {
                    assert(stat_blocks(cst, stat)[0] == (cst.spec_child_node::<Block>(dostat.syntax), None::<Pars>));
                }
            },
            Stat::Whilestat(whilestat) => {
                if let Some(cond) = whilestat.cond(cst) {
                    self.check_exp(cst, numbers, diags, sema, cond, false, false);
                }
                let ghost mid = diags@;
                proof {
                    if let Some(c) = cst.spec_child_node::<Exp>(whilestat.syntax) {
                        lemma_checked_here(&old(self).diag_ctx, numbers.map(), cst, old(diags)@.len() as int, old(self).scopes.scopes@, old(diags)@, mid, c, false, false);
                    }
                    assert(all_checked(&old(self).diag_ctx, numbers.map(), cst, old(diags)@.len() as int, mid, opt_exps(cst.spec_child_node::<Exp>(whilestat.syntax)), false, false));
                }
                self.loops.push(whilestat.syntax());
                let ghost before_body = diags@;
                if let Some(block) = whilestat.block(cst) {
                    self.check_owned_block(cst, numbers, diags, sema, block, whilestat.span(cst), BlockLocals::Nothing);
                    proof {
                        lemma_block_checked_move(&old(self).diag_ctx, numbers.map(), cst, before_body.len() as int, old(diags)@.len() as int, diags@, diags@, block, None);
                    }
                }
                self.loops.pop();
                assert(self.loops@ =~= old(self).loops@);
                proof {
                    lemma_all_checked_extend(&old(self).diag_ctx, numbers.map(), cst, old(diags)@.len() as int, mid, diags@, opt_exps(cst.spec_child_node::<Exp>(whilestat.syntax)), false, false);
                }
                proof {
                    assert(stat_blocks(cst, stat)[0] == (cst.spec_child_node::<Block>(whilestat.syntax), None::<Pars>));
                }
            },
            Stat::Repeatstat(repeatstat) => {
                if let Some(cond) = repeatstat.cond(cst) {
                    self.check_exp(cst, numbers, diags, sema, cond, false, false);
                }
                let ghost mid = diags@;
                proof {
                    if let Some(c) = cst.spec_child_node::<Exp>(repeatstat.syntax) {
                        lemma_checked_here(&old(self).diag_ctx, numbers.map(), cst, old(diags)@.len() as int, old(self).scopes.scopes@, old(diags)@, mid, c, false, false);
                    }
                    assert(all_checked(&old(self).diag_ctx, numbers.map(), cst, old(diags)@.len() as int, mid, opt_exps(cst.spec_child_node::<Exp>(repeatstat.syntax)), false, false));
                }
                self.loops.push(repeatstat.syntax());
                let ghost before_body = diags@;
                if let Some(block) = repeatstat.block(cst) {
                    self.check_owned_block(cst, numbers, diags, sema, block, repeatstat.span(cst), BlockLocals::Nothing);
                    proof {
                        lemma_block_checked_move(&old(self).diag_ctx, numbers.map(), cst, before_body.len() as int, old(diags)@.len() as int, diags@, diags@, block, None);
                    }
                }
                self.loops.pop();
                assert(self.loops@ =~= old(self).loops@);
                proof {
                    lemma_all_checked_extend(&old(self).diag_ctx, numbers.map(), cst, old(diags)@.len() as int, mid, diags@, opt_exps(cst.spec_child_node::<Exp>(repeatstat.syntax)), false, false);
                }
                proof {
                    assert(stat_blocks(cst, stat)[0] == (cst.spec_child_node::<Block>(repeatstat.syntax), None::<Pars>));
                }
            },
            Stat::Ifstat(ifstat) => {
                self.check_if(cst, numbers, diags, sema, ifstat);
            },
            Stat::NumericForstat(forstat) => {
                self.check_numeric_for(cst, numbers, diags, sema, forstat);
            },
            Stat::GenericForstat(forstat) => {
                self.check_generic_for(cst, numbers, diags, sema, forstat);
            },
            Stat::Funcstat(funcstat) => {
                let ghost mut b_done = diags@;
                if let (Some(block), Some(funcname)) = (funcstat.block(cst), funcstat.funcname(cst)) {
                    let qualname = funcname.qualname(cst);
                    let methodname = funcname.methodname(cst);
                    let locals = if methodname.is_some() {
                        BlockLocals::SelfParam(funcname)
                    } else {
                        BlockLocals::Nothing
                    };
                    let ghost le = self.loops@.len() == 0;
                    let ghost depth = self.scopes.scopes@.len() as int;
                    let ghost before_b = diags@;
                    self.check_block(cst, numbers, diags, sema, block, funcstat.pars(cst), locals);
                    proof {
                        lemma_block_checked_here(&old(self).diag_ctx, numbers.map(), cst, old(diags)@.len() as int, le, depth, before_b, diags@, block, cst.spec_child_node::<Pars>(funcstat.syntax));
                        b_done = diags@;
                    }
                    if let Some(qualname) = qualname {
                        let names = qualname.names(cst);
                        if names.len() > 0 {
                            let (name, name_span) = names[0];
                            let unqual_name = names.len() == 1 && methodname.is_none();
                            self.check_name(cst, diags, sema, qualname.syntax(), name, name_span, unqual_name, !unqual_name);
                        }
                    }
                }
                self.check_func_lines(cst, diags, funcstat.syntax());
                proof {
                    let bs = stat_blocks(cst, stat);
                    assert(bs[0] == stat_blocks(cst, stat)[0]);
                    if let Some(b) = bs[0].0 {
                        lemma_block_checked_move(&old(self).diag_ctx, numbers.map(), cst, old(diags)@.len() as int, old(diags)@.len() as int, b_done, diags@, b, bs[0].1);
                    }
                }
            },
            Stat::Localvarstat(localvarstat) => {
                self.check_localvarstat(cst, numbers, diags, sema, localvarstat);
            },
            Stat::Localfuncstat(localfuncstat) => {
                let ghost mut b_done = diags@;
                if let Some((name, name_span)) = localfuncstat.name(cst) {
                    self.check_local_binding(cst, diags, name, name_span);
                    self.scopes.insert_local(name, localfuncstat.syntax(), false, false, TypeSet::function());
                }
                let ghost declared = self.scopes.scopes@;
                if let Some(block) = localfuncstat.block(cst) {
                    let ghost le = self.loops@.len() == 0;
                    let ghost depth = self.scopes.scopes@.len() as int;
                    let ghost before_b = diags@;
                    self.check_block(cst, numbers, diags, sema, block, localfuncstat.pars(cst), BlockLocals::Nothing);
                    proof {
                        lemma_block_checked_here(&old(self).diag_ctx, numbers.map(), cst, old(diags)@.len() as int, le, depth, before_b, diags@, block, cst.spec_child_node::<Pars>(localfuncstat.syntax));
                        b_done = diags@;
                    }
                }
                self.check_func_lines(cst, diags, localfuncstat.syntax());
                proof {
                    let bs = stat_blocks(cst, stat);
                    assert(bs[0] == stat_blocks(cst, stat)[0]);
                    if let Some(b) = bs[0].0 {
                        lemma_block_checked_move(&old(self).diag_ctx, numbers.map(), cst, old(diags)@.len() as int, old(diags)@.len() as int, b_done, diags@, b, bs[0].1);
                    }
                }
                proof {
                    lemma_declared_last(cst, None, stat, declared, self.scopes.scopes@);
                }
            },
            Stat::Globalvarstat(globalvarstat) => {
                self.check_globalvarstat(cst, numbers, diags, sema, globalvarstat);
            },
            Stat::Globalfuncstat(globalfuncstat) => {
                let ghost mut b_done = diags@;
                if let Some((name, name_span)) = globalfuncstat.name(cst) {
                    self.check_local_binding(cst, diags, name, name_span);
                    self.scopes.insert_global(name, globalfuncstat.syntax(), false);
                }
                if let Some(block) = globalfuncstat.block(cst) {
                    let ghost le = self.loops@.len() == 0;
                    let ghost depth = self.scopes.scopes@.len() as int;
                    let ghost before_b = diags@;
                    self.check_block(cst, numbers, diags, sema, block, globalfuncstat.pars(cst), BlockLocals::Nothing);
                    proof {
                        lemma_block_checked_here(&old(self).diag_ctx, numbers.map(), cst, old(diags)@.len() as int, le, depth, before_b, diags@, block, cst.spec_child_node::<Pars>(globalfuncstat.syntax));
                        b_done = diags@;
                    }
                }
                self.check_func_lines(cst, diags, globalfuncstat.syntax());
                proof {
                    let bs = stat_blocks(cst, stat);
                    assert(bs[0] == stat_blocks(cst, stat)[0]);
                    if let Some(b) = bs[0].0 {
                        lemma_block_checked_move(&old(self).diag_ctx, numbers.map(), cst, old(diags)@.len() as int, old(diags)@.len() as int, b_done, diags@, b, bs[0].1);
                    }
                }
            },
            Stat::CollectiveGlobalvarstat(collective_globalvarstat) => {
                let (_, is_const) = self.check_attrib(cst, diags, collective_globalvarstat.attrib(cst), true, false, false);
                self.scopes.set_collective_global(collective_globalvarstat.syntax(), is_const);
            },
            Stat::Retstat(retstat) => {
                let exps = retstat.exps(cst);
                let mut i: usize = 0;
                while i < exps.len()
                    invariant
                        self.check_post(old(self), cst, old(diags)@, diags@, sema),
                        old(self).scopes.scopes@.len() > 0,
                        numbers.wf(),
                        forall|k: int| 0 <= k < exps@.len() ==> after(cst, #[trigger] exps@[k].spec_syntax(), retstat.syntax),
                        stat == Stat::Retstat(retstat),
                        i <= exps@.len(),
                        exps@ == cst.spec_explist_exps(retstat.syntax),
                        all_checked(&old(self).diag_ctx, numbers.map(), cst, old(diags)@.len() as int, diags@, exps@.take(i as int), false, false),
                    decreases exps@.len() - i,
                {
                    assert(after(cst, exps@[i as int].spec_syntax(), retstat.syntax));
                    let ghost before = diags@;
                    let ghost scopes = self.scopes.scopes@;
                    self.check_exp(cst, numbers, diags, sema, exps[i], false, false);
                    proof {
                        lemma_checked_here(&old(self).diag_ctx, numbers.map(), cst, old(diags)@.len() as int, scopes, before, diags@, exps@[i as int], false, false);
                        lemma_all_checked_extend(&old(self).diag_ctx, numbers.map(), cst, old(diags)@.len() as int, before, diags@, exps@.take(i as int), false, false);
                        lemma_all_checked_push(&old(self).diag_ctx, numbers.map(), cst, old(diags)@.len() as int, diags@, exps@, i as int, false, false);
                    }
                    i = i + 1;
                }
                assert(exps@.take(exps@.len() as int) =~= exps@);
                let ghost mid = diags@;
            },
        }
    }
}


/// The index of the last span of `spans` that starts at or before `x`, or -1.
pub open spec fn last_starting_by(spans: Seq<Span>, x: usize) -> int
    decreases spans.len(),
{
    if spans.len() == 0 {
        -1
    } else if spans.last().start <= x {
        spans.len() - 1
    } else {
        last_starting_by(spans.drop_last(), x)
    }
}

/// The unreachable spans `spans` with the span `s` of another unreachable block: merged into
/// the last span that starts at or before it when the two overlap or touch, else added after
/// it unless the block holds only a semicolon.
pub open spec fn add_unreachable(spans: Seq<Span>, s: Span, semicolon: bool) -> Seq<Span> {
    let p = last_starting_by(spans, s.start);
    if p >= 0 && (spans[p].start == s.start || spans[p].end >= s.start) {
        spans.update(p, Span { start: spans[p].start, end: if spans[p].end >= s.end { spans[p].end } else { s.end } })
    } else if semicolon {
        spans
    } else {
        spans.insert(p + 1, s)
    }
}

/// Whether the bytes `s` of `source` are a single semicolon.
pub open spec fn is_semicolon(source: Seq<u8>, s: Span) -> bool {
    s.start <= s.end <= source.len() && source.subrange(s.start as int, s.end as int) == seq![59u8]
}

/// The spans of unreachable code among the first `k` blocks of `bbs`.
pub open spec fn unreachable_spans(bbs: Seq<BasicBlock>, k: int, source: Seq<u8>) -> Seq<Span>
    decreases k,
{
    if k <= 0 {
        Seq::empty()
    } else {
        let prev = unreachable_spans(bbs, k - 1, source);
        let bb = bbs[k - 1];
        if !bb.reachable && bb.span.start != bb.span.end {
            add_unreachable(prev, bb.span, is_semicolon(source, bb.span))
        } else {
            prev
        }
    }
}

/// Every span of `spans` starts and ends within a text of length `len`.
pub open spec fn spans_in(spans: Seq<Span>, len: int) -> bool {
    forall|m: int| 0 <= m < spans.len() ==> #[trigger] spans[m].start <= len && spans[m].end <= len
}

/// `last_starting_by` is an index of the spans, or -1.
proof fn lemma_last_starting_by_range(spans: Seq<Span>, x: usize)
    ensures
        -1 <= last_starting_by(spans, x) < spans.len(),
    decreases spans.len(),
{
    if spans.len() > 0 && !(spans.last().start <= x) {
        lemma_last_starting_by_range(spans.drop_last(), x);
    }
}

/// Adding the span of an unreachable block keeps the spans within `len` when the block's
/// span lies within it.
proof fn lemma_add_unreachable_within(spans: Seq<Span>, s: Span, semicolon: bool, len: int)
    requires
        spans_in(spans, len),
        s.start <= len && s.end <= len,
    ensures
        spans_in(add_unreachable(spans, s, semicolon), len),
{
    let p = last_starting_by(spans, s.start);
    lemma_last_starting_by_range(spans, s.start);
    let r = add_unreachable(spans, s, semicolon);
    if p >= 0 && (spans[p].start == s.start || spans[p].end >= s.start) {
        let merged = Span { start: spans[p].start, end: if spans[p].end >= s.end { spans[p].end } else { s.end } };
        assert(r == spans.update(p, merged));
        assert(spans[p].start <= len && spans[p].end <= len);
        assert(merged.start <= len && merged.end <= len);
        assert forall|i: int| 0 <= i < r.len() implies #[trigger] r[i].start <= len && r[i].end <= len by {
            if i == p {
                assert(r[i] == merged);
            } else {
                assert(r[i] == spans[i]);
                assert(spans[i].start <= len && spans[i].end <= len);
            }
        }
    } else if !semicolon {
        assert(r == spans.insert(p + 1, s));
        assert forall|i: int| 0 <= i < r.len() implies #[trigger] r[i].start <= len && r[i].end <= len by {
            if i < p + 1 {
                assert(r[i] == spans[i]);
                assert(spans[i].start <= len && spans[i].end <= len);
            } else if i == p + 1 {
                assert(r[i] == s);
            } else {
                assert(r[i] == spans[i - 1]);
                assert(spans[i - 1].start <= len && spans[i - 1].end <= len);
            }
        }
    }
}

/// The spans of unreachable code lie within the source when the blocks' spans do.
proof fn lemma_unreachable_spans_within(bbs: Seq<BasicBlock>, k: int, source: Seq<u8>, len: int)
    requires
        k <= bbs.len(),
        forall|i: int| 0 <= i < bbs.len() ==> #[trigger] bbs[i].span.start <= len && bbs[i].span.end <= len,
    ensures
        forall|i: int| 0 <= i < unreachable_spans(bbs, k, source).len() ==> #[trigger] unreachable_spans(bbs, k, source)[i].start <= len
            && unreachable_spans(bbs, k, source)[i].end <= len,
    decreases k,
{
    if k > 0 {
        lemma_unreachable_spans_within(bbs, k - 1, source, len);
        let prev = unreachable_spans(bbs, k - 1, source);
        let bb = bbs[k - 1];
        assert(spans_in(prev, len));
        if !bb.reachable && bb.span.start != bb.span.end {
            assert(bb.span.start <= len && bb.span.end <= len);
            lemma_add_unreachable_within(prev, bb.span, is_semicolon(source, bb.span), len);
        }
        assert(spans_in(unreachable_spans(bbs, k, source), len));
    }
}

/// The index of the last span of `spans` that starts at or before `x`.
fn last_starting_by_index(spans: &Vec<Span>, x: usize) -> (r: Option<usize>)
    ensures
        match r {
            Some(p) => p as int == last_starting_by(spans@, x) && p < spans@.len(),
            None => last_starting_by(spans@, x) == -1,
        },
{
    let mut p = spans.len();
    assert(spans@.take(p as int) =~= spans@);
    while p > 0
        invariant
            p <= spans@.len(),
            last_starting_by(spans@, x) == last_starting_by(spans@.take(p as int), x),
        decreases p,
    {
        assert(spans@.take(p as int).drop_last() =~= spans@.take(p - 1));
        if spans[p - 1].start <= x {
            return Some(p - 1);
        }
        p = p - 1;
    }
    None
}

/// Whether the span of `source` holds a single semicolon.
fn semicolon_at(source: &[u8], s: Span) -> (r: bool)
    ensures
        r == is_semicolon(source@, s),
{
    if s.start <= s.end && s.end <= source.len() {
        let sub = slice_range(source, s.start, s.end);
        let r = sub.len() == 1 && sub[0] == 59u8;
        proof {
            if r {
                assert(sub@ =~= seq![59u8]);
            } else if sub@ == seq![59u8] {
                assert(sub@.len() == 1);
                assert(sub@[0] == 59u8);
            }
        }
        r
    } else {
        false
    }
}

/// The complexity of a control flow graph: edges plus exits plus one, minus blocks, and
/// zero when that would be negative.
pub open spec fn complexity(cfg: &ControlFlowGraph) -> int {
    let e = if cfg.edges + cfg.exits <= usize::MAX { cfg.edges + cfg.exits } else { usize::MAX as int };
    let e1 = if e + 1 <= usize::MAX { e + 1 } else { usize::MAX as int };
    if e1 >= cfg.bbs@.len() { e1 - cfg.bbs@.len() } else { 0 }
}

/// McCabe's measure: the complexity of a graph is its edges plus its exits plus one, minus
/// its blocks, wherever that neither overflows nor falls below zero; so one more edge, with
/// the same exits and blocks, raises it by exactly one, and one more block lowers it by one.
pub proof fn lemma_complexity_counts_edges(cfg: &ControlFlowGraph, other: &ControlFlowGraph)
    ensures
        cfg.edges + cfg.exits + 1 <= usize::MAX && cfg.edges + cfg.exits + 1 >= cfg.bbs@.len()
            ==> complexity(cfg) == cfg.edges + cfg.exits + 1 - cfg.bbs@.len(),
        other.edges == cfg.edges + 1 && other.exits == cfg.exits && other.bbs@.len() == cfg.bbs@.len()
            && other.edges + other.exits + 1 <= usize::MAX && cfg.edges + cfg.exits + 1 >= cfg.bbs@.len()
            ==> complexity(other) == complexity(cfg) + 1,
        other.edges == cfg.edges && other.exits == cfg.exits && other.bbs@.len() == cfg.bbs@.len() + 1
            && cfg.edges + cfg.exits + 1 <= usize::MAX && cfg.edges + cfg.exits + 1 > cfg.bbs@.len()
            ==> complexity(other) == complexity(cfg) - 1,
{
}

impl<'a> Checks<'a> {
    /// Marks the reachable blocks of `cfg` and reports its unreachable code.
    fn report_unreachable(&self, cst: &Cst, diags: &mut Vec<Diagnostic>, cfg: &mut ControlFlowGraph)
        requires
            self.diag_ctx.levels@.len() == LINT_COUNT,
            self.diag_ctx.levels@[UNREACHABLE_CODE as int] != Severity::Allow,
            old(cfg).wf(),
            old(cfg).spans_within(cst.source_view().len() as int),
        ensures
            final(cfg).wf(),
            final(cfg).spans_within(cst.source_view().len() as int),
            final(cfg).span == old(cfg).span,
            final(cfg).bbs@.len() == old(cfg).bbs@.len(),
            forall|j: int| 0 <= j < final(cfg).bbs@.len() ==> (#[trigger] final(cfg).bbs@[j]).reachable == (
                old(cfg).bbs@[j].reachable || reachable(old(cfg).bbs@, j)),
            marked_reachable(old(cfg), final(cfg)),
            final(diags)@ == old(diags)@ + (if unreachable_spans(final(cfg).bbs@, final(cfg).bbs@.len() as int, cst.source_view()).len() > 0 {
                seq![final(diags)@.last()]
            } else {
                Seq::empty()
            }),
            final(diags)@.len() > old(diags)@.len() ==> final(diags)@.last()@ == lint_diagnostic(
                &self.diag_ctx,
                UNREACHABLE_CODE,
                spans_annotations(unreachable_spans(final(cfg).bbs@, final(cfg).bbs@.len() as int, cst.source_view()), AnnotationKind::Primary),
                Seq::empty(),
            ),
            reported(&self.diag_ctx, cst.source_view().len() as int, old(diags)@, final(diags)@),
    {
        cfg.mark_reachable();
        let source = cst.source();
        let mut spans: Vec<Span> = Vec::new();
        let mut i: usize = 0;
        while i < cfg.bbs.len()
            invariant
                i <= cfg.bbs@.len(),
                spans@ == unreachable_spans(cfg.bbs@, i as int, source@),
                source@ == cst.source_view(),
            decreases cfg.bbs@.len() - i,
        {
            let bb_span = cfg.bbs[i].span;
            if !cfg.bbs[i].reachable && bb_span.start != bb_span.end {
                let found = last_starting_by_index(&spans, bb_span.start);
                let merge = match found {
                    Some(p) => spans[p].start == bb_span.start || spans[p].end >= bb_span.start,
                    None => false,
                };
                if merge {
                    let p = found.unwrap();
                    let end = if spans[p].end >= bb_span.end { spans[p].end } else { bb_span.end };
                    let merged = Span { start: spans[p].start, end };
                    spans.set(p, merged);
                } else if !semicolon_at(source, bb_span) {
                    let at = match found {
                        Some(p) => {
                            let n = spans.len();
                            assert(p < n);
                            p + 1
                        },
                        None => 0,
                    };
                    spans.insert(at, bb_span);
                }
            }
            i = i + 1;
        }
        proof {
            lemma_unreachable_spans_within(cfg.bbs@, cfg.bbs@.len() as int, source@, cst.source_view().len() as int);
        }
        if spans.len() > 0 {
            let unreachable_code = UnreachableCode(&self.diag_ctx);
            let d = unreachable_code.build(&spans);
            proof {
                let len = cst.source_view().len() as int;
                let all = unreachable_spans(cfg.bbs@, cfg.bbs@.len() as int, source@);
                assert(spans@ == all);
                assert forall|k: int| 0 <= k < spans@.len() implies span_within(#[trigger] spans@[k], len) by {
                    assert(all[k].start <= len && all[k].end <= len);
                }
                lemma_annotations_within(spans@, AnnotationKind::Primary, Seq::empty(), len);
                lemma_lint_diagnostic_within(&self.diag_ctx, UNREACHABLE_CODE, spans_annotations(spans@, AnnotationKind::Primary), Seq::empty(), len);
            }
            diags.push(d);
            assert(diags@ =~= old(diags)@ + seq![diags@.last()]);
        } else {
            assert(diags@ =~= old(diags)@ + Seq::<Diagnostic>::empty());
        }
    }

    /// Reports unreachable code in each control flow graph.
    fn check_unreachable(&self, cst: &Cst, diags: &mut Vec<Diagnostic>, cfgs: &mut Vec<ControlFlowGraph>)
        requires
            self.diag_ctx.levels@.len() == LINT_COUNT,
            forall|i: int| 0 <= i < old(cfgs)@.len() ==> (#[trigger] old(cfgs)@[i]).wf(),
            forall|i: int| 0 <= i < old(cfgs)@.len() ==> (#[trigger] old(cfgs)@[i]).spans_within(cst.source_view().len() as int),
        ensures
            final(cfgs)@.len() == old(cfgs)@.len(),
            forall|i: int| 0 <= i < final(cfgs)@.len() ==> (#[trigger] final(cfgs)@[i]).wf(),
            forall|i: int| 0 <= i < final(cfgs)@.len() ==> (#[trigger] final(cfgs)@[i]).spans_within(cst.source_view().len() as int),
            reported(&self.diag_ctx, cst.source_view().len() as int, old(diags)@, final(diags)@),
            self.diag_ctx.levels@[UNREACHABLE_CODE as int] == Severity::Allow ==> final(cfgs)@ == old(cfgs)@ && final(diags)@ == old(diags)@,
            self.diag_ctx.levels@[UNREACHABLE_CODE as int] != Severity::Allow ==> {
                &&& forall|i: int| 0 <= i < final(cfgs)@.len() ==> marked_reachable(&old(cfgs)@[i], #[trigger] &final(cfgs)@[i])
                &&& diagnostics_view(final(diags)@) == diagnostics_view(old(diags)@) + unreachable_reports(
                    &self.diag_ctx,
                    final(cfgs)@,
                    cst.source_view(),
                    final(cfgs)@.len() as int,
                )
            },
    {
        if self.diag_ctx.active::<UnreachableCode>().is_some() {
            let mut i: usize = 0;
            while i < cfgs.len()
                invariant
                    i <= cfgs@.len(),
                    cfgs@.len() == old(cfgs)@.len(),
                    self.diag_ctx.levels@.len() == LINT_COUNT,
                    self.diag_ctx.levels@[UNREACHABLE_CODE as int] != Severity::Allow,
                    forall|k: int| 0 <= k < cfgs@.len() ==> (#[trigger] cfgs@[k]).wf(),
                    forall|k: int| 0 <= k < cfgs@.len() ==> (#[trigger] cfgs@[k]).spans_within(cst.source_view().len() as int),
                    reported(&self.diag_ctx, cst.source_view().len() as int, old(diags)@, diags@),
                    forall|k: int| 0 <= k < i ==> marked_reachable(&old(cfgs)@[k], #[trigger] &cfgs@[k]),
                    forall|k: int| i <= k < cfgs@.len() ==> #[trigger] cfgs@[k] == old(cfgs)@[k],
                    diagnostics_view(diags@) == diagnostics_view(old(diags)@) + unreachable_reports(&self.diag_ctx, cfgs@, cst.source_view(), i as int),
                decreases cfgs@.len() - i,
            {
                let ghost before = cfgs@;
                let ghost before_diags = diags@;
                let mut cfg = cfgs.remove(i);
                assert(cfg == before[i as int]);
                self.report_unreachable(cst, diags, &mut cfg);
                cfgs.insert(i, cfg);
                assert forall|k: int| 0 <= k < cfgs@.len() implies (#[trigger] cfgs@[k]).wf() && cfgs@[k].spans_within(cst.source_view().len() as int) by {
                    if k < i {
                        assert(cfgs@[k] == before[k]);
                    } else if k > i {
                        assert(cfgs@[k] == before[k]);
                    }
                }
                proof {
                    assert forall|k: int| 0 <= k < i implies #[trigger] cfgs@[k] == before[k] by {}
                    lemma_unreachable_reports_prefix(&self.diag_ctx, cfgs@, before, cst.source_view(), i as int);
                    assert(cfgs@[i as int] == cfg);
                    let spans = unreachable_spans(cfg.bbs@, cfg.bbs@.len() as int, cst.source_view());
                    assert(unreachable_reports(&self.diag_ctx, cfgs@, cst.source_view(), i + 1)
                        == unreachable_reports(&self.diag_ctx, cfgs@, cst.source_view(), i as int) + if spans.len() > 0 {
                            seq![lint_diagnostic(&self.diag_ctx, UNREACHABLE_CODE, spans_annotations(spans, AnnotationKind::Primary), Seq::empty())]
                        } else {
                            Seq::empty()
                        });
                    if spans.len() > 0 {
                        assert(diagnostics_view(diags@) =~= diagnostics_view(before_diags) + seq![diags@.last()@]);
                    } else {
                        assert(diagnostics_view(diags@) =~= diagnostics_view(before_diags));
                    }
                    assert forall|k: int| 0 <= k < i + 1 implies marked_reachable(&old(cfgs)@[k], #[trigger] &cfgs@[k]) by {
                        if k < i {
                            assert(cfgs@[k] == before[k]);
                        }
                    }
                    assert forall|k: int| i + 1 <= k < cfgs@.len() implies #[trigger] cfgs@[k] == old(cfgs)@[k] by {
                        assert(cfgs@[k] == before[k]);
                    }
                }
                i = i + 1;
            }
        }
    }

    /// Reports each function whose control flow graph is too complex.
    fn check_cyclomatic_complexity(&self, cst: &Cst, diags: &mut Vec<Diagnostic>, cfgs: &Vec<ControlFlowGraph>)
        requires
            self.diag_ctx.levels@.len() == LINT_COUNT,
            forall|i: int| 0 <= i < cfgs@.len() ==> (#[trigger] cfgs@[i]).spans_within(cst.source_view().len() as int),
        ensures
            reported(&self.diag_ctx, cst.source_view().len() as int, old(diags)@, final(diags)@),
            final(diags)@.len() - old(diags)@.len() == complexity_reports(
                cfgs@,
                cfgs@.len() as int,
                self.diag_ctx.config.cyclomatic_complexity_threshold as int,
                self.diag_ctx.levels@[CYCLOMATIC_COMPLEXITY as int] != Severity::Allow,
            ),
            diagnostics_view(final(diags)@) == diagnostics_view(old(diags)@) + complexity_diagnostics(&self.diag_ctx, cfgs@, cfgs@.len() as int),
    {
        let active = self.diag_ctx.active::<CyclomaticComplexity>();
        let mut i: usize = 0;
        while i < cfgs.len()
            invariant
                i <= cfgs@.len(),
                self.diag_ctx.levels@.len() == LINT_COUNT,
                active is Some <==> self.diag_ctx.levels@[CYCLOMATIC_COMPLEXITY as int] != Severity::Allow,
                active matches Some(c) ==> c.0 == &self.diag_ctx,
                forall|i: int| 0 <= i < cfgs@.len() ==> (#[trigger] cfgs@[i]).spans_within(cst.source_view().len() as int),
                reported(&self.diag_ctx, cst.source_view().len() as int, old(diags)@, diags@),
                diags@.len() - old(diags)@.len() == complexity_reports(
                    cfgs@,
                    i as int,
                    self.diag_ctx.config.cyclomatic_complexity_threshold as int,
                    self.diag_ctx.levels@[CYCLOMATIC_COMPLEXITY as int] != Severity::Allow,
                ),
                diagnostics_view(diags@) == diagnostics_view(old(diags)@) + complexity_diagnostics(&self.diag_ctx, cfgs@, i as int),
            decreases cfgs@.len() - i,
        {
            let ghost before = diagnostics_view(diags@);
            let cfg = &cfgs[i];
            if let Some(cyclomatic_complexity) = &active {
                if let Some(span) = cfg.span {
                    let e = cfg.edges.saturating_add(cfg.exits).saturating_add(1);
                    let cc = if e >= cfg.bbs.len() { e - cfg.bbs.len() } else { 0 };
                    assert(cc == complexity(&cfgs@[i as int]));
                    if cc > self.diag_ctx.config.cyclomatic_complexity_threshold {
                        let d = cyclomatic_complexity.build(span, cc);
                        diags.push(d);
                        assert(diagnostics_view(diags@) =~= before + seq![d@]);
                    }
                }
            }
            assert(diagnostics_view(diags@) =~= diagnostics_view(old(diags)@) + complexity_diagnostics(&self.diag_ctx, cfgs@, i + 1));
            i = i + 1;
        }
    }
}

/// `new` is the graph `old` with every block that control reaches from the entry marked
/// reachable, and nothing else changed.
pub open spec fn marked_reachable(old: &ControlFlowGraph, new: &ControlFlowGraph) -> bool {
    &&& new.span == old.span
    &&& new.edges == old.edges
    &&& new.exits == old.exits
    &&& new.bbs@.len() == old.bbs@.len()
    &&& forall|j: int| 0 <= j < new.bbs@.len() ==> (#[trigger] new.bbs@[j]).successor == old.bbs@[j].successor
        && new.bbs@[j].span == old.bbs@[j].span
        && new.bbs@[j].reachable == (old.bbs@[j].reachable || reachable(old.bbs@, j))
}

/// The reports of unreachable code in the first `k` of the graphs `cfgs`, whose blocks are
/// marked reachable already: one for each graph with unreachable code.
pub open spec fn unreachable_reports(ctx: &DiagnosticContext, cfgs: Seq<ControlFlowGraph>, source: Seq<u8>, k: int) -> Seq<DiagnosticView>
    decreases k,
{
    if k <= 0 {
        Seq::empty()
    } else {
        let spans = unreachable_spans(cfgs[k - 1].bbs@, cfgs[k - 1].bbs@.len() as int, source);
        unreachable_reports(ctx, cfgs, source, k - 1) + if spans.len() > 0 {
            seq![lint_diagnostic(ctx, UNREACHABLE_CODE, spans_annotations(spans, AnnotationKind::Primary), Seq::empty())]
        } else {
            Seq::empty()
        }
    }
}

/// The reports of the first `k` graphs depend on those graphs alone.
proof fn lemma_unreachable_reports_prefix(ctx: &DiagnosticContext, a: Seq<ControlFlowGraph>, b: Seq<ControlFlowGraph>, source: Seq<u8>, k: int)
    requires
        k <= a.len(),
        k <= b.len(),
        forall|i: int| 0 <= i < k ==> #[trigger] a[i] == b[i],
    ensures
        unreachable_reports(ctx, a, source, k) == unreachable_reports(ctx, b, source, k),
    decreases k,
{
    if k > 0 {
        assert(a[k - 1] == b[k - 1]);
        lemma_unreachable_reports_prefix(ctx, a, b, source, k - 1);
    }
}

/// The reports of the functions among the first `k` graphs of `cfgs` whose complexity
/// reaches the configured threshold, where the lint is not allowed.
pub open spec fn complexity_diagnostics(ctx: &DiagnosticContext, cfgs: Seq<ControlFlowGraph>, k: int) -> Seq<DiagnosticView>
    decreases k,
{
    if k <= 0 {
        Seq::empty()
    } else {
        complexity_diagnostics(ctx, cfgs, k - 1) + match cfgs[k - 1].span {
            Some(span) => if ctx.levels@[CYCLOMATIC_COMPLEXITY as int] != Severity::Allow
                && complexity(&cfgs[k - 1]) > ctx.config.cyclomatic_complexity_threshold {
                seq![lint_diagnostic(ctx, CYCLOMATIC_COMPLEXITY, seq![ann(AnnotationKind::Primary, span, None)], seq![note(Level::Note, "function has complexity "@ + decimal(complexity(&cfgs[k - 1]) as nat) + " and the threshold is set to "@ + decimal(ctx.config.cyclomatic_complexity_threshold as nat))])]
            } else {
                Seq::empty()
            },
            None => Seq::empty(),
        }
    }
}

/// The number of the first `k` control flow graphs that are functions whose complexity
/// reaches `threshold`, when the lint is `active`.
pub open spec fn complexity_reports(cfgs: Seq<ControlFlowGraph>, k: int, threshold: int, active: bool) -> int
    decreases k,
{
    if k <= 0 {
        0
    } else {
        complexity_reports(cfgs, k - 1, threshold, active) + if active && cfgs[k - 1].span is Some
            && complexity(&cfgs[k - 1]) > threshold {
            1int
        } else {
            0int
        }
    }
}

/// The text of node `n` of `cst` when it is a decimal integer or decimal float numeral.
pub open spec fn numeral_text(cst: &Cst, n: int) -> Option<Seq<u8>> {
    let node = NodeRef(n as usize);
    let tok = if Decintexp::spec_cast(cst, node) is Some {
        cst.spec_child_token(node, Token::DecIntNumeral)
    } else if Decfloatexp::spec_cast(cst, node) is Some {
        cst.spec_child_token(node, Token::DecFloatNumeral)
    } else {
        None
    };
    match tok {
        Some(x) => Some(cst.text(cst.node_span(x))),
        None => None,
    }
}

/// The texts of the decimal numerals among the first `k` nodes of `cst`, in order.
pub open spec fn numeral_texts(cst: &Cst, k: int) -> Seq<Seq<u8>>
    decreases k,
{
    if k <= 0 {
        Seq::empty()
    } else {
        numeral_texts(cst, k - 1) + match numeral_text(cst, k - 1) {
            Some(t) => seq![t],
            None => Seq::empty(),
        }
    }
}

/// The texts of the decimal integer and decimal float numerals of `cst`, in order: the
/// numerals whose values the checks need to know from the platform.
pub fn numerals(cst: &Cst) -> (r: Vec<Vec<u8>>)
    ensures
        r@.map_values(|v: Vec<u8>| v@) == numeral_texts(cst, cst.spec_len()),
{
    let mut r: Vec<Vec<u8>> = Vec::new();
    let mut k: usize = 0;
    while k < cst.len()
        invariant
            k <= cst.spec_len(),
            r@.map_values(|v: Vec<u8>| v@) == numeral_texts(cst, k as int),
        decreases cst.spec_len() - k,
    {
        let node = NodeRef(k);
        let text = if let Some(e) = Decintexp::cast(cst, node) {
            e.val(cst)
        } else if let Some(e) = Decfloatexp::cast(cst, node) {
            e.val(cst)
        } else {
            None
        };
        let ghost before = r@;
        if let Some((t, _)) = text {
            let v = vstd::slice::slice_to_vec(t);
            r.push(v);
            assert(r@.map_values(|v: Vec<u8>| v@) =~= before.map_values(|v: Vec<u8>| v@) + seq![v@]);
        } else {
            assert(numeral_text(cst, k as int) is None);
        }
        k = k + 1;
    }
    r
}

/// The outcome of the checks of the chunk whose statements are `stats`, through the
/// diagnostics `checked` of the checks by scope, which bound names as `sema` holds, and the
/// control flow graphs that the builder `end` built from a fresh start, `marked` once their
/// reachable blocks are marked: `new` is `old` followed by the diagnostics of the checks by
/// scope, then those of unreachable code, then those of functions that are too complex.
pub open spec fn run_outcome(
    ctx: &DiagnosticContext,
    cst: &Cst,
    stats: Seq<Stat>,
    old: Seq<Diagnostic>,
    new: Seq<Diagnostic>,
    checked: Seq<Diagnostic>,
    sema: SemanticData,
    end: CfgBuilder,
    marked: Seq<ControlFlowGraph>,
) -> bool {
    let graphs = end.graphs();
    let unreachable_active = ctx.levels@[UNREACHABLE_CODE as int] != Severity::Allow;
    &&& reported(ctx, cst.source_view().len() as int, old, checked)
    &&& exists|start: CfgBuilder| #[trigger] CfgBuilder::fresh(start, None, cst) && stats_step(start, end, cst, &sema, stats)
    &&& marked.len() == graphs.len()
    &&& forall|i: int| 0 <= i < marked.len() ==> #[trigger] marked[i] == graphs[i] || (unreachable_active && marked_reachable(&graphs[i], &marked[i]))
    &&& !unreachable_active ==> marked == graphs
    &&& diagnostics_view(new) == diagnostics_view(checked) + (if unreachable_active {
        unreachable_reports(ctx, marked, cst.source_view(), marked.len() as int)
    } else {
        Seq::empty()
    }) + complexity_diagnostics(ctx, marked, marked.len() as int)
}

impl<'a> Checks<'a> {
    /// Runs the semantic checks on the chunk of `cst`, with `numbers` holding what the
    /// platform makes of its float numerals, and appends the diagnostics to `diags`.
    pub fn run(diag_ctx: DiagnosticContext<'a>, cst: &Cst, numbers: &NameMap<NumberFact>, diags: &mut Vec<Diagnostic>)
        requires
            diag_ctx.levels@.len() == LINT_COUNT,
            numbers.wf(),
        ensures
            reported(&diag_ctx, cst.source_view().len() as int, old(diags)@, final(diags)@),
            cst.spec_len() == 0 ==> final(diags)@ == old(diags)@,
            match Chunk::spec_cast(cst, NodeRef(0)) {
                Some(chunk) => cst.spec_child_node::<Block>(chunk.syntax) is None ==> final(diags)@ == old(diags)@,
                None => final(diags)@ == old(diags)@,
            },
            match Chunk::spec_cast(cst, NodeRef(0)) {
                Some(chunk) => match cst.spec_child_node::<Block>(chunk.syntax) {
                    Some(block) => cst.spec_len() > 0 && diag_ctx.levels@[EMPTY_STATEMENT as int] != Severity::Allow ==> forall|j: int|
                        #[trigger] empty_after_empty(cst.spec_child_nodes::<Stat>(block.syntax), j) ==> empty_statement_reported(
                            &diag_ctx,
                            cst,
                            cst.spec_child_nodes::<Stat>(block.syntax)[j],
                            final(diags)@,
                            old(diags)@.len() as int,
                        ),
                    None => true,
                },
                None => true,
            },
            match Chunk::spec_cast(cst, NodeRef(0)) {
                Some(chunk) => match cst.spec_child_node::<Block>(chunk.syntax) {
                    Some(block) => cst.spec_len() > 0 ==> exists|checked: Seq<Diagnostic>, sema: SemanticData, end: CfgBuilder, marked: Seq<ControlFlowGraph>|
                        #[trigger] run_outcome(&diag_ctx, cst, cst.spec_child_nodes::<Stat>(block.syntax), old(diags)@, final(diags)@, checked, sema, end, marked),
                    None => true,
                },
                None => true,
            },
            match Chunk::spec_cast(cst, NodeRef(0)) {
                Some(chunk) => match cst.spec_child_node::<Block>(chunk.syntax) {
                    Some(block) => cst.spec_len() > 0 ==> forall|j: int|
                        0 <= j < cst.spec_child_nodes::<Stat>(block.syntax).len()
                        && (#[trigger] cst.spec_child_nodes::<Stat>(block.syntax)[j]) is Breakstat ==> reported_at_or_after(
                            final(diags)@,
                            old(diags)@.len() as int,
                            break_outside_view(cst.node_span(cst.spec_child_nodes::<Stat>(block.syntax)[j].spec_syntax())),
                        ),
                    None => true,
                },
                None => true,
            },
            match Chunk::spec_cast(cst, NodeRef(0)) {
                Some(chunk) => match cst.spec_child_node::<Block>(chunk.syntax) {
                    Some(block) => cst.spec_len() > 0 ==> forall|j: int|
                        0 <= j < cst.spec_child_nodes::<Stat>(block.syntax).len() ==> stat_exps_checked(
                            &diag_ctx,
                            numbers.map(),
                            cst,
                            old(diags)@.len() as int,
                            final(diags)@,
                            #[trigger] cst.spec_child_nodes::<Stat>(block.syntax)[j],
                        ),
                    None => true,
                },
                None => true,
            },
            match Chunk::spec_cast(cst, NodeRef(0)) {
                Some(chunk) => match cst.spec_child_node::<Block>(chunk.syntax) {
                    Some(block) => cst.spec_len() > 0 ==> block_checked_within(&diag_ctx, numbers.map(), cst, old(diags)@.len() as int, final(diags)@, block, None),
                    None => true,
                },
                None => true,
            },
    {
        if cst.len() == 0 {
            return;
        }
        let chunk = match Chunk::cast(cst, NodeRef(0)) {
            Some(c) => c,
            None => {
                return;
            },
        };
        let block = match chunk.block(cst) {
            Some(b) => b,
            None => {
                return;
            },
        };
        let mut sema = SemanticData::new();
        let mut checks = Checks { diag_ctx, scopes: Scopes::new(), loops: Vec::new() };
        assert(checks.scopes.refs_below(cst.spec_len()));
        checks.check_block(cst, numbers, diags, &mut sema, block, None, BlockLocals::Nothing);
        let ghost checked = diags@;
        proof {
            lemma_block_checked_here(&checks.diag_ctx, numbers.map(), cst, old(diags)@.len() as int, true, 0, old(diags)@, checked, block, None);
        }
        let mut cfgs = CfgBuilder::build(cst, &sema, block, None);
        let ghost built = cfgs@;
        checks.check_unreachable(cst, diags, &mut cfgs);
        let ghost after_unreachable = diags@;
        checks.check_cyclomatic_complexity(cst, diags, &cfgs);
        proof {
            let stats = cst.spec_child_nodes::<Stat>(block.syntax);
            let (start, end): (CfgBuilder, CfgBuilder) = choose|start: CfgBuilder, end: CfgBuilder|
                #![trigger CfgBuilder::fresh(start, None, cst), stats_step(start, end, cst, &sema, stats)]
                CfgBuilder::fresh(start, None, cst) && stats_step(start, end, cst, &sema, stats) && built == end.graphs();
            assert(CfgBuilder::fresh(start, None, cst) && stats_step(start, end, cst, &sema, stats));
            let marked = cfgs@;
            let graphs = end.graphs();
            assert forall|i: int| 0 <= i < marked.len() implies #[trigger] marked[i] == graphs[i]
                || (checks.diag_ctx.levels@[UNREACHABLE_CODE as int] != Severity::Allow && marked_reachable(&graphs[i], &marked[i])) by {
                if checks.diag_ctx.levels@[UNREACHABLE_CODE as int] != Severity::Allow {
                    assert(marked_reachable(&built[i], &cfgs@[i]));
                }
            }
            assert(diagnostics_view(diags@) =~= diagnostics_view(checked) + (if checks.diag_ctx.levels@[UNREACHABLE_CODE as int] != Severity::Allow {
                unreachable_reports(&checks.diag_ctx, marked, cst.source_view(), marked.len() as int)
            } else {
                Seq::empty()
            }) + complexity_diagnostics(&checks.diag_ctx, marked, marked.len() as int));
            assert(run_outcome(&checks.diag_ctx, cst, stats, old(diags)@, diags@, checked, sema, end, marked));
            lemma_block_checked_move(&checks.diag_ctx, numbers.map(), cst, old(diags)@.len() as int, old(diags)@.len() as int, checked, diags@, block, None);
            assert forall|j: int| 0 <= j < stats.len() implies stat_exps_checked(&checks.diag_ctx, numbers.map(), cst, old(diags)@.len() as int, diags@, #[trigger] stats[j]) by {
                lemma_stat_checked_move(&checks.diag_ctx, numbers.map(), cst, old(diags)@.len() as int, old(diags)@.len() as int, checked, diags@, stats[j]);
            }
            assert forall|j: int| 0 <= j < stats.len() && (#[trigger] stats[j]) is Breakstat implies reported_at_or_after(diags@, old(diags)@.len() as int, break_outside_view(cst.node_span(stats[j].spec_syntax()))) by {
                let want = break_outside_view(cst.node_span(stats[j].spec_syntax()));
                let k = choose|k: int| old(diags)@.len() <= k < checked.len() && #[trigger] checked[k]@ == want;
                assert(diags@[k] == checked[k]);
            }
            if checks.diag_ctx.levels@[EMPTY_STATEMENT as int] != Severity::Allow {
                assert forall|j: int| #[trigger] empty_after_empty(stats, j) implies empty_statement_reported(&checks.diag_ctx, cst, stats[j], diags@, old(diags)@.len() as int) by {
                    let want = lint_diagnostic(&checks.diag_ctx, EMPTY_STATEMENT, seq![ann(AnnotationKind::Primary, cst.node_span(stats[j].spec_syntax()), None)], Seq::empty());
                    let k = choose|k: int| old(diags)@.len() <= k < checked.len() && #[trigger] checked[k]@ == want;
                    assert(diags@[k] == checked[k]);
                }
            }
        }
    }
}

} // verus!
