//! The concrete syntax tree, severities and the diagnostic data model.
use crate::config::Config;
use crate::lexer::Token;
use crate::lints::LINT_COUNT;
use vstd::prelude::*;
use vstd::string::StringSliceAdditionalSpecFns;

verus! {

/// A byte range `start..end` of the source.
#[derive(Debug, Clone, Copy, PartialEq, Eq, Structural)]
pub struct Span {
    pub start: usize,
    pub end: usize,
}

impl Span {
    pub fn new(start: usize, end: usize) -> (r: Span)
        ensures
            r.start == start,
            r.end == end,
    {
        Span { start, end }
    }

    /// The number of bytes the span covers (zero for an inverted span).
    pub fn len(&self) -> (r: usize)
        ensures
            r == if self.start <= self.end { self.end - self.start } else { 0 },
    {
        if self.start <= self.end {
            self.end - self.start
        } else {
            0
        }
    }
}

/// The index of a node in the preorder sequence of the syntax tree.
#[derive(Debug, Clone, Copy, PartialEq, Eq, Hash, PartialOrd, Ord, Structural)]
pub struct NodeRef(pub usize);

/// The grammar rules whose instances are inner nodes of the syntax tree.
#[derive(Debug, Clone, Copy, PartialEq, Eq, Structural)]
pub enum Rule {
    Chunk,
    Block,
    Emptystat,
    Expstat,
    Assignstat,
    Label,
    Breakstat,
    Gotostat,
    Dostat,
    Whilestat,
    Repeatstat,
    Ifstat,
    ElifBranch,
    ElseBranch,
    NumericForstat,
    GenericForstat,
    Loopvar,
    Funcstat,
    Funcname,
    Pars,
    Par,
    Varargpar,
    Qualname,
    Localvarstat,
    Localfuncstat,
    Globalvarstat,
    Globalfuncstat,
    CollectiveGlobalvarstat,
    Attname,
    Attrib,
    Retstat,
    Explist,
    Binexp,
    Unaryexp,
    Nameexp,
    Parenexp,
    Fieldexp,
    Indexexp,
    Callexp,
    ArgsExplist,
    ArgsSingle,
    Functiondef,
    Tableconstructor,
    KeyvalField,
    NamedField,
    CountedField,
    Varargexp,
    Nilexp,
    Trueexp,
    Falseexp,
    Stringexp,
    Decintexp,
    Hexintexp,
    Decfloatexp,
    Hexfloatexp,
    Error,
}

/// A node of the syntax tree: a rule with the number of its descendants, or a token.
#[derive(Debug, Clone, Copy, PartialEq, Eq, Structural)]
pub enum Node {
    Rule(Rule, usize),
    Token(Token),
}

/// Whether `text` can be the text of a token of kind `tok`, as the lexer yields it: a
/// decimal integer numeral is a non-empty run of decimal digits and `=` is itself; the
/// other kinds are not constrained here.
pub open spec fn token_text_ok(tok: Token, text: Seq<u8>) -> bool {
    match tok {
        Token::DecIntNumeral => text.len() > 0 && forall|i: int| 0 <= i < text.len() ==> 48 <= #[trigger] text[i] <= 57,
        Token::Equal => text == seq![61u8],
        _ => true,
    }
}

/// Whether the node `n`, a token, has a text `text` fit for its kind.
pub open spec fn node_text_ok(n: Node, text: Seq<u8>) -> bool {
    match n {
        Node::Token(t) => token_text_ok(t, text),
        Node::Rule(_, _) => true,
    }
}

/// Every token among `nodes` has, where `spans` places it in `source`, a text fit for its
/// kind.
pub open spec fn tokens_ok(source: Seq<u8>, nodes: Seq<Node>, spans: Seq<Span>) -> bool {
    forall|i: int| 0 <= i < nodes.len() ==> node_text_ok(#[trigger] nodes[i], source.subrange(spans[i].start as int, spans[i].end as int))
}

/// One past the last preorder index of the subtree rooted at `i`.
pub open spec fn node_end(nodes: Seq<Node>, i: int) -> int {
    i + 1 + match nodes[i] {
        Node::Rule(_, n) => n as int,
        Node::Token(_) => 0,
    }
}

/// The roots of the consecutive subtrees that start at `j` and end before `end`.
pub open spec fn children_from(nodes: Seq<Node>, j: int, end: int) -> Seq<NodeRef>
    decreases end - j,
{
    if j < 0 || j >= end || j >= nodes.len() {
        Seq::empty()
    } else if node_end(nodes, j) <= end {
        seq![NodeRef(j as usize)] + children_from(nodes, node_end(nodes, j), end)
    } else {
        seq![NodeRef(j as usize)]
    }
}

/// The nodes form a forest in preorder whose subtrees nest properly.
pub open spec fn nodes_nested(nodes: Seq<Node>) -> bool {
    &&& forall|i: int| 0 <= i < nodes.len() ==> #[trigger] node_end(nodes, i) <= nodes.len()
    &&& forall|i: int, j: int|
        0 <= i < nodes.len() && i < j < node_end(nodes, i) ==> #[trigger] node_end(nodes, j) <= #[trigger] node_end(
            nodes,
            i,
        )
}

/// The concrete syntax tree: rule and token nodes in preorder, with the byte span of each
/// node, over the source they were read from.
pub struct Cst {
    source: Vec<u8>,
    nodes: Vec<Node>,
    spans: Vec<Span>,
}

impl Cst {
    /// The structural invariant of every syntax tree.
    #[verifier::type_invariant]
    spec fn inv(&self) -> bool {
        &&& self.nodes@.len() == self.spans@.len()
        &&& nodes_nested(self.nodes@)
        &&& forall|i: int|
            0 <= i < self.spans@.len() ==> #[trigger] self.spans@[i].start <= self.spans@[i].end
                <= self.source@.len()
        &&& tokens_ok(self.source@, self.nodes@, self.spans@)
    }

    /// Every token of the tree has a text fit for its kind.
    pub closed spec fn tokens_fit(&self) -> bool {
        tokens_ok(self.source@, self.nodes@, self.spans@)
    }

    /// A token of a tree whose tokens fit has a text fit for its kind.
    pub proof fn lemma_token_text(&self, n: NodeRef)
        requires
            self.tokens_fit(),
            self.valid_ref(n),
        ensures
            self.token_at(n) matches Some(t) ==> token_text_ok(t, self.text(self.node_span(n))),
    {
        assert(node_text_ok(self.nodes@[n.0 as int], self.source@.subrange(self.spans@[n.0 as int].start as int, self.spans@[n.0 as int].end as int)));
    }

    pub closed spec fn source_view(&self) -> Seq<u8> {
        self.source@
    }

    pub closed spec fn nodes_view(&self) -> Seq<Node> {
        self.nodes@
    }

    pub closed spec fn spans_view(&self) -> Seq<Span> {
        self.spans@
    }

    /// The spans of the nodes lie within the source, as the type invariant guarantees.
    pub open spec fn spans_in_source(&self) -> bool {
        &&& self.nodes_view().len() == self.spans_view().len()
        &&& forall|n: NodeRef| self.valid_ref(n) ==> #[trigger] self.node_span(n).start <= self.node_span(n).end
            <= self.source_view().len()
    }

    pub open spec fn spec_len(&self) -> int {
        self.nodes_view().len() as int
    }

    pub open spec fn valid_ref(&self, n: NodeRef) -> bool {
        n.0 < self.nodes_view().len()
    }

    pub open spec fn node(&self, n: NodeRef) -> Node {
        self.nodes_view()[n.0 as int]
    }

    pub open spec fn node_span(&self, n: NodeRef) -> Span {
        self.spans_view()[n.0 as int]
    }

    /// The rule of node `n`, if `n` is a rule node.
    pub open spec fn rule_at(&self, n: NodeRef) -> Option<Rule> {
        if self.valid_ref(n) {
            match self.node(n) {
                Node::Rule(r, _) => Some(r),
                Node::Token(_) => None,
            }
        } else {
            None
        }
    }

    /// The token of node `n`, if `n` is a token node.
    pub open spec fn token_at(&self, n: NodeRef) -> Option<Token> {
        if self.valid_ref(n) {
            match self.node(n) {
                Node::Token(t) => Some(t),
                Node::Rule(_, _) => None,
            }
        } else {
            None
        }
    }

    /// The direct children of node `n`, in order.
    pub open spec fn spec_children(&self, n: NodeRef) -> Seq<NodeRef> {
        if self.valid_ref(n) {
            children_from(self.nodes_view(), n.0 + 1, node_end(self.nodes_view(), n.0 as int))
        } else {
            Seq::empty()
        }
    }

    /// The source text covered by span `s`.
    pub open spec fn text(&self, s: Span) -> Seq<u8> {
        self.source_view().subrange(s.start as int, s.end as int)
    }

    /// Builds a syntax tree from its parts; `None` when the parts do not form a well-formed
    /// tree over the source.
    pub fn new(source: Vec<u8>, nodes: Vec<Node>, spans: Vec<Span>) -> (r: Option<Cst>)
        ensures
            r is Some <==> (nodes@.len() == spans@.len() && nodes_nested(nodes@) && (forall|i: int|
                0 <= i < spans@.len() ==> #[trigger] spans@[i].start <= spans@[i].end
                    <= source@.len()) && tokens_ok(source@, nodes@, spans@)),
            r matches Some(c) ==> c.source_view() == source@ && c.nodes_view() == nodes@
                && c.spans_view() == spans@,
    {
        if nodes.len() != spans.len() {
            return None;
        }
        let len = nodes.len();
        let mut k: usize = 0;
        while k < len
            invariant
                k <= len,
                len == spans@.len(),
                forall|i: int|
                    0 <= i < k ==> #[trigger] spans@[i].start <= spans@[i].end <= source@.len(),
            decreases len - k,
        {
            if !(spans[k].start <= spans[k].end && spans[k].end <= source.len()) {
                return None;
            }
            k = k + 1;
        }
        let mut i: usize = 0;
        while i < len
            invariant
                i <= len,
                len == nodes@.len(),
                forall|a: int| 0 <= a < i ==> #[trigger] node_end(nodes@, a) <= len,
            decreases len - i,
        {
            let extra = match nodes[i] {
                Node::Rule(_, n) => n,
                Node::Token(_) => 0,
            };
            if extra >= len - i {
                assert(node_end(nodes@, i as int) > len);
                return None;
            }
            i = i + 1;
        }
        let mut a: usize = 0;
        while a < len
            invariant
                a <= len,
                len == nodes@.len(),
                forall|x: int| 0 <= x < len ==> #[trigger] node_end(nodes@, x) <= len,
                forall|x: int, y: int|
                    0 <= x < a && x < y < node_end(nodes@, x) ==> #[trigger] node_end(nodes@, y)
                        <= #[trigger] node_end(nodes@, x),
            decreases len - a,
        {
            assert(node_end(nodes@, a as int) <= len);
            let end_a = Self::exec_node_end(&nodes, a);
            let mut b: usize = a + 1;
            while b < end_a
                invariant
                    a < len,
                    a + 1 <= b <= end_a,
                    end_a == node_end(nodes@, a as int),
                    end_a <= len,
                    len == nodes@.len(),
                    forall|x: int| 0 <= x < len ==> #[trigger] node_end(nodes@, x) <= len,
                    forall|y: int| a < y < b ==> #[trigger] node_end(nodes@, y) <= end_a,
                decreases end_a - b,
            {
                assert(node_end(nodes@, b as int) <= len);
                let end_b = Self::exec_node_end(&nodes, b);
                if end_b > end_a {
                    return None;
                }
                b = b + 1;
            }
            assert forall|x: int, y: int|
                0 <= x < a + 1 && x < y < node_end(nodes@, x) implies #[trigger] node_end(nodes@, y)
                <= #[trigger] node_end(nodes@, x) by {
                if x == a {
                    assert(node_end(nodes@, y) <= end_a);
                }
            }
            a = a + 1;
        }
        assert(nodes_nested(nodes@));
        let mut t: usize = 0;
        while t < len
            invariant
                t <= len,
                len == nodes@.len(),
                len == spans@.len(),
                forall|i: int| 0 <= i < spans@.len() ==> #[trigger] spans@[i].start <= spans@[i].end <= source@.len(),
                forall|i: int| 0 <= i < t ==> node_text_ok(#[trigger] nodes@[i], source@.subrange(spans@[i].start as int, spans@[i].end as int)),
            decreases len - t,
        {
            let sp = spans[t];
            assert(spans@[t as int].start <= spans@[t as int].end <= source@.len());
            let fits = match nodes[t] {
                Node::Token(Token::DecIntNumeral) => Self::digits_only(&source, sp.start, sp.end),
                Node::Token(Token::Equal) => {
                    let one = sp.start < sp.end && sp.end - sp.start == 1 && source[sp.start] == 61u8;
                    proof {
                        if one {
                            assert(source@.subrange(sp.start as int, sp.end as int) =~= seq![61u8]);
                        } else if sp.start < sp.end && sp.end - sp.start == 1 {
                            assert(source@.subrange(sp.start as int, sp.end as int)[0] == source@[sp.start as int]);
                        }
                    }
                    one
                },
                _ => true,
            };
            if !fits {
                assert(!node_text_ok(nodes@[t as int], source@.subrange(spans@[t as int].start as int, spans@[t as int].end as int)));
                return None;
            }
            t = t + 1;
        }
        Some(Cst { source, nodes, spans })
    }

    /// Whether the bytes of `source` from `start` to `end` are a non-empty run of decimal
    /// digits.
    fn digits_only(source: &Vec<u8>, start: usize, end: usize) -> (r: bool)
        requires
            start <= end <= source@.len(),
        ensures
            r == token_text_ok(Token::DecIntNumeral, source@.subrange(start as int, end as int)),
    {
        let ghost text = source@.subrange(start as int, end as int);
        if start == end {
            return false;
        }
        let mut q: usize = start;
        while q < end
            invariant
                start <= q <= end <= source@.len(),
                text == source@.subrange(start as int, end as int),
                forall|i: int| 0 <= i < q - start ==> 48 <= #[trigger] text[i] <= 57,
            decreases end - q,
        {
            if source[q] < 48u8 || source[q] > 57u8 {
                assert(!(48 <= text[q - start] <= 57));
                return false;
            }
            q = q + 1;
        }
        true
    }

    fn exec_node_end(nodes: &Vec<Node>, i: usize) -> (r: usize)
        requires
            i < nodes@.len(),
            node_end(nodes@, i as int) <= usize::MAX,
        ensures
            r == node_end(nodes@, i as int),
    {
        match nodes[i] {
            Node::Rule(_, n) => i + 1 + n,
            Node::Token(_) => i + 1,
        }
    }

    /// The number of nodes.
    pub fn len(&self) -> (r: usize)
        ensures
            r == self.spec_len(),
            self.spans_in_source(),
            self.tokens_fit(),
    {
        proof {
            use_type_invariant(self);
        }
        self.nodes.len()
    }

    /// The whole source text.
    pub fn source(&self) -> (r: &[u8])
        ensures
            r@ == self.source_view(),
    {
        self.source.as_slice()
    }

    /// The node at `n`.
    pub fn get(&self, n: NodeRef) -> (r: Node)
        requires
            self.valid_ref(n),
        ensures
            r == self.node(n),
    {
        self.nodes[n.0]
    }

    /// The byte span of node `n`.
    pub fn span(&self, n: NodeRef) -> (r: Span)
        requires
            self.valid_ref(n),
        ensures
            r == self.node_span(n),
            r.start <= r.end <= self.source_view().len(),
    {
        proof {
            use_type_invariant(self);
            assert(self.spans@[n.0 as int].start <= self.spans@[n.0 as int].end);
        }
        self.spans[n.0]
    }

    /// The source text of span `s`.
    pub fn slice(&self, s: Span) -> (r: &[u8])
        requires
            s.start <= s.end <= self.source_view().len(),
        ensures
            r@ == self.text(s),
    {
        let src = self.source.as_slice();
        &src[s.start..s.end]
    }

    /// Whether node `n` is an instance of `rule`.
    pub fn match_rule(&self, n: NodeRef, rule: Rule) -> (r: bool)
        ensures
            r == (self.rule_at(n) == Some(rule)),
    {
        if n.0 < self.nodes.len() {
            match self.nodes[n.0] {
                Node::Rule(r, _) => r == rule,
                Node::Token(_) => false,
            }
        } else {
            false
        }
    }

    /// The text and span of node `n` if it is a `token` node.
    pub fn match_token(&self, n: NodeRef, token: Token) -> (r: Option<(&[u8], Span)>)
        ensures
            r is Some <==> self.token_at(n) == Some(token),
            r matches Some((t, s)) ==> s == self.node_span(n) && t@ == self.text(s),
            r matches Some((t, s)) ==> s.start <= s.end <= self.source_view().len(),
    {
        proof {
            use_type_invariant(self);
        }
        if n.0 < self.nodes.len() {
            match self.nodes[n.0] {
                Node::Token(t) => {
                    if t == token {
                        assert(self.spans@[n.0 as int].start <= self.spans@[n.0 as int].end);
                        let s = self.spans[n.0];
                        Some((self.slice(s), s))
                    } else {
                        None
                    }
                },
                Node::Rule(_, _) => None,
            }
        } else {
            None
        }
    }

    /// The direct children of node `n`, in order.
    pub fn children(&self, n: NodeRef) -> (r: Vec<NodeRef>)
        ensures
            r@ == self.spec_children(n),
            forall|i: int| 0 <= i < r@.len() ==> n.0 < #[trigger] r@[i].0 < self.spec_len(),
    {
        proof {
            use_type_invariant(self);
        }
        let mut res: Vec<NodeRef> = Vec::new();
        if n.0 >= self.nodes.len() {
            return res;
        }
        let ghost nodes = self.nodes@;
        assert(node_end(nodes, n.0 as int) <= nodes.len());
        let end = Self::exec_node_end(&self.nodes, n.0);
        let mut j: usize = n.0 + 1;
        while j < end
            invariant
                nodes == self.nodes@,
                nodes_nested(nodes),
                n.0 < nodes.len(),
                end == node_end(nodes, n.0 as int),
                end <= nodes.len(),
                n.0 < j <= end,
                res@ + children_from(nodes, j as int, end as int) == children_from(
                    nodes,
                    n.0 + 1,
                    end as int,
                ),
                forall|i: int| 0 <= i < res@.len() ==> n.0 < #[trigger] res@[i].0 < nodes.len(),
            decreases end - j,
        {
            assert(node_end(nodes, j as int) <= node_end(nodes, n.0 as int));
            let next = Self::exec_node_end(&self.nodes, j);
            proof {
                assert(children_from(nodes, j as int, end as int) == seq![NodeRef(j)]
                    + children_from(nodes, next as int, end as int));
                assert(res@.push(NodeRef(j)) + children_from(nodes, next as int, end as int)
                    =~= res@ + children_from(nodes, j as int, end as int));
            }
            res.push(NodeRef(j));
            j = next;
        }
        assert(res@ + children_from(nodes, j as int, end as int) =~= res@);
        res
    }
}

/// How a lint is reported.
#[derive(Debug, Clone, Copy, PartialEq, Eq, Structural)]
pub enum Severity {
    Allow,
    Warn,
    Deny,
    Hint,
}

/// The severity named `value`: `allow`, `warn`, `deny` or `hint`.
pub open spec fn severity_named(value: Seq<u8>) -> Option<Severity> {
    if value == seq![97u8, 108u8, 108u8, 111u8, 119u8] {
        Some(Severity::Allow)
    } else if value == seq![119u8, 97u8, 114u8, 110u8] {
        Some(Severity::Warn)
    } else if value == seq![100u8, 101u8, 110u8, 121u8] {
        Some(Severity::Deny)
    } else if value == seq![104u8, 105u8, 110u8, 116u8] {
        Some(Severity::Hint)
    } else {
        None
    }
}

impl Severity {
    /// Reads a severity from its name.
    pub fn try_from(value: &[u8]) -> (r: Result<Severity, ()>)
        ensures
            r matches Ok(s) ==> severity_named(value@) == Some(s),
            r is Err ==> severity_named(value@) is None,
    {
        let allow = vec![97u8, 108u8, 108u8, 111u8, 119u8];
        let warn = vec![119u8, 97u8, 114u8, 110u8];
        let deny = vec![100u8, 101u8, 110u8, 121u8];
        let hint = vec![104u8, 105u8, 110u8, 116u8];
        if crate::ast::bytes_eq(value, allow.as_slice()) {
            Ok(Severity::Allow)
        } else if crate::ast::bytes_eq(value, warn.as_slice()) {
            Ok(Severity::Warn)
        } else if crate::ast::bytes_eq(value, deny.as_slice()) {
            Ok(Severity::Deny)
        } else if crate::ast::bytes_eq(value, hint.as_slice()) {
            Ok(Severity::Hint)
        } else {
            Err(())
        }
    }

    /// The name of the severity.
    pub fn to_str(&self) -> (r: &'static str)
        ensures
            r@ == severity_name(*self),
    {
        match self {
            Severity::Allow => "allow",
            Severity::Warn => "warn",
            Severity::Deny => "deny",
            Severity::Hint => "hint",
        }
    }
}

/// The name of a severity.
pub open spec fn severity_name(s: Severity) -> Seq<char> {
    match s {
        Severity::Allow => "allow"@,
        Severity::Warn => "warn"@,
        Severity::Deny => "deny"@,
        Severity::Hint => "hint"@,
    }
}

/// The bytes of an ASCII text.
pub open spec fn ascii_bytes(text: Seq<char>) -> Seq<u8> {
    text.map_values(|c: char| c as u8)
}

/// Reading back the name of a severity gives that severity.
pub proof fn lemma_severity_name_roundtrip(s: Severity)
    ensures
        severity_named(ascii_bytes(severity_name(s))) == Some(s),
{
    reveal_strlit("allow");
    reveal_strlit("warn");
    reveal_strlit("deny");
    reveal_strlit("hint");
    match s {
        Severity::Allow => {
            assert(ascii_bytes("allow"@) =~= seq![97u8, 108u8, 108u8, 111u8, 119u8]);
        },
        Severity::Warn => {
            assert(ascii_bytes("warn"@) =~= seq![119u8, 97u8, 114u8, 110u8]);
        },
        Severity::Deny => {
            assert(ascii_bytes("deny"@) =~= seq![100u8, 101u8, 110u8, 121u8]);
        },
        Severity::Hint => {
            assert(ascii_bytes("hint"@) =~= seq![104u8, 105u8, 110u8, 116u8]);
        },
    }
}

/// The level of a diagnostic group's title.
#[derive(Debug, Clone, Copy, PartialEq, Eq, Structural)]
pub enum Level {
    Error,
    Warning,
    Info,
    Note,
    Help,
}

/// Whether an annotation marks the place of the problem or its context.
#[derive(Debug, Clone, Copy, PartialEq, Eq, Structural)]
pub enum AnnotationKind {
    Primary,
    Context,
}

/// A marked span of the source, with an optional label.
pub struct Annotation {
    pub kind: AnnotationKind,
    pub span: Span,
    pub label: Option<String>,
}

/// A suggested replacement of a span of the source.
pub struct Patch {
    pub span: Span,
    pub replacement: String,
}

/// The source excerpt that a group shows: annotations or suggested patches.
pub enum Element {
    Annotations(Vec<Annotation>),
    Patches(Vec<Patch>),
}

/// A titled part of a diagnostic.
pub struct Group {
    pub level: Level,
    pub title: String,
    /// The index of the lint that the group reports, for the main group of a lint.
    pub lint: Option<usize>,
    pub element: Option<Element>,
}

/// A reported problem: whether it is an error, and its groups (the first is the main one).
pub struct Diagnostic {
    pub error: bool,
    pub groups: Vec<Group>,
}

pub ghost struct AnnotationView {
    pub kind: AnnotationKind,
    pub span: Span,
    pub label: Option<Seq<char>>,
}

pub ghost struct PatchView {
    pub span: Span,
    pub replacement: Seq<char>,
}

pub ghost enum ElementView {
    Annotations(Seq<AnnotationView>),
    Patches(Seq<PatchView>),
}

pub ghost struct GroupView {
    pub level: Level,
    pub title: Seq<char>,
    pub lint: Option<usize>,
    pub element: Option<ElementView>,
}

pub ghost struct DiagnosticView {
    pub error: bool,
    pub groups: Seq<GroupView>,
}

pub open spec fn opt_string_view(s: Option<String>) -> Option<Seq<char>> {
    match s {
        Some(t) => Some(t@),
        None => None,
    }
}

impl View for Annotation {
    type V = AnnotationView;

    open spec fn view(&self) -> AnnotationView {
        AnnotationView { kind: self.kind, span: self.span, label: opt_string_view(self.label) }
    }
}

impl View for Patch {
    type V = PatchView;

    open spec fn view(&self) -> PatchView {
        PatchView { span: self.span, replacement: self.replacement@ }
    }
}

pub open spec fn anns_view(v: Seq<Annotation>) -> Seq<AnnotationView> {
    v.map_values(|a: Annotation| a@)
}

pub open spec fn patches_view(v: Seq<Patch>) -> Seq<PatchView> {
    v.map_values(|p: Patch| p@)
}

pub open spec fn groups_view(v: Seq<Group>) -> Seq<GroupView> {
    v.map_values(|g: Group| g@)
}

impl View for Element {
    type V = ElementView;

    open spec fn view(&self) -> ElementView {
        match self {
            Element::Annotations(v) => ElementView::Annotations(anns_view(v@)),
            Element::Patches(v) => ElementView::Patches(patches_view(v@)),
        }
    }
}

impl View for Group {
    type V = GroupView;

    open spec fn view(&self) -> GroupView {
        GroupView {
            level: self.level,
            title: self.title@,
            lint: self.lint,
            element: match self.element {
                Some(e) => Some(e@),
                None => None,
            },
        }
    }
}

impl View for Diagnostic {
    type V = DiagnosticView;

    open spec fn view(&self) -> DiagnosticView {
        DiagnosticView { error: self.error, groups: groups_view(self.groups@) }
    }
}

/// The lint that a diagnostic reports, if it reports one.
pub open spec fn diagnostic_lint(d: DiagnosticView) -> Option<usize> {
    if d.groups.len() > 0 {
        d.groups[0].lint
    } else {
        None
    }
}

/// The settings that diagnostics are produced under: the severity of each lint and the
/// configuration.
pub struct DiagnosticContext<'a> {
    pub levels: Vec<Severity>,
    pub config: &'a Config,
}

impl<'a> DiagnosticContext<'a> {
    /// The severity of each lint is the configured one, or the lint's default.
    pub fn new(config: &'a Config) -> (r: Self)
        ensures
            r.config == config,
            r.levels@.len() == LINT_COUNT,
            forall|i: int|
                0 <= i < LINT_COUNT ==> r.levels@[i] == match crate::config::lookup_level(
                    config.levels@,
                    crate::lints::lint_code(i as usize).spec_bytes(),
                ) {
                    Some(level) => level,
                    None => crate::lints::lint_level(i as usize),
                },
    {
        let mut levels: Vec<Severity> = Vec::new();
        let mut i: usize = 0;
        while i < LINT_COUNT
            invariant
                i <= LINT_COUNT,
                levels@.len() == i,
                forall|k: int|
                    0 <= k < i ==> levels@[k] == match crate::config::lookup_level(
                        config.levels@,
                        crate::lints::lint_code(k as usize).spec_bytes(),
                    ) {
                        Some(level) => level,
                        None => crate::lints::lint_level(k as usize),
                    },
            decreases LINT_COUNT - i,
        {
            let info = crate::lints::info(i);
            let level = match config.level_of(info.code) {
                Some(level) => level,
                None => info.level,
            };
            levels.push(level);
            i = i + 1;
        }
        Self { levels, config }
    }
}

} // verus!
