//! Typed views of the syntax tree nodes.
use crate::lexer::Token;
use crate::parser::{children_from, node_end, Cst, Node, NodeRef, Rule, Span};
use vstd::prelude::*;

verus! {

/// A typed view of a syntax node.
pub trait AstNode: Sized {
    /// The typed node for `syntax`, if `syntax` is a node of the right kind.
    spec fn spec_cast(cst: &Cst, syntax: NodeRef) -> Option<Self>;

    /// The syntax node that this typed node views.
    spec fn spec_syntax(&self) -> NodeRef;

    /// A cast succeeds only on an existing node, and views that node.
    proof fn lemma_cast(cst: &Cst, syntax: NodeRef)
        ensures
            Self::spec_cast(cst, syntax) matches Some(x) ==> x.spec_syntax() == syntax
                && cst.valid_ref(syntax),
    ;

    fn cast(cst: &Cst, syntax: NodeRef) -> (r: Option<Self>)
        ensures
            r == Self::spec_cast(cst, syntax),
    ;

    fn syntax(&self) -> (r: NodeRef)
        ensures
            r == self.spec_syntax(),
    ;

    /// The byte span of the node.
    fn span(&self, cst: &Cst) -> (r: Span)
        requires
            cst.valid_ref(self.spec_syntax()),
        ensures
            r == cst.node_span(self.spec_syntax()),
            r.start <= r.end <= cst.source_view().len(),
    {
        cst.span(self.syntax())
    }
}

/// The first node of `cs` that casts to `T`.
pub open spec fn first_cast<T: AstNode>(cst: &Cst, cs: Seq<NodeRef>) -> Option<T>
    decreases cs.len(),
{
    if cs.len() == 0 {
        None
    } else {
        match T::spec_cast(cst, cs[0]) {
            Some(t) => Some(t),
            None => first_cast::<T>(cst, cs.drop_first()),
        }
    }
}

/// The casts to `T` of the nodes of `cs` that cast to `T`, in order.
pub open spec fn all_casts<T: AstNode>(cst: &Cst, cs: Seq<NodeRef>) -> Seq<T>
    decreases cs.len(),
{
    if cs.len() == 0 {
        Seq::empty()
    } else {
        (match T::spec_cast(cst, cs[0]) {
            Some(t) => seq![t],
            None => Seq::empty(),
        }) + all_casts::<T>(cst, cs.drop_first())
    }
}

/// The first node of `cs` that is a token of one of the kinds `toks`.
pub open spec fn first_token_of(cst: &Cst, cs: Seq<NodeRef>, toks: Seq<Token>) -> Option<NodeRef>
    decreases cs.len(),
{
    if cs.len() == 0 {
        None
    } else if cst.token_at(cs[0]) matches Some(t) && toks.contains(t) {
        Some(cs[0])
    } else {
        first_token_of(cst, cs.drop_first(), toks)
    }
}

/// The node that `first_token_of` finds is a token of one of the kinds asked for.
pub proof fn lemma_first_token_of(cst: &Cst, cs: Seq<NodeRef>, toks: Seq<Token>)
    ensures
        first_token_of(cst, cs, toks) matches Some(n) ==> (cst.token_at(n) matches Some(t) && toks.contains(t)),
    decreases cs.len(),
{
    if cs.len() > 0 {
        lemma_first_token_of(cst, cs.drop_first(), toks);
    }
}

/// A token child of a node lies within the source, like every node of a syntax tree.
pub broadcast proof fn lemma_child_token_span(cst: &Cst, syntax: NodeRef, tok: Token)
    requires
        cst.spans_in_source(),
    ensures
        #[trigger] cst.spec_child_token(syntax, tok) matches Some(n) ==> cst.valid_ref(n)
            && cst.node_span(n).start <= cst.node_span(n).end <= cst.source_view().len(),
{
    lemma_first_token_of(cst, cst.spec_children(syntax), seq![tok]);
}

/// The nodes that `all_tokens` finds are tokens of the kind asked for.
pub proof fn lemma_all_tokens(cst: &Cst, cs: Seq<NodeRef>, tok: Token)
    ensures
        forall|i: int| 0 <= i < all_tokens(cst, cs, tok).len() ==> cst.token_at(#[trigger] all_tokens(cst, cs, tok)[i]) == Some(tok),
    decreases cs.len(),
{
    if cs.len() > 0 {
        lemma_all_tokens(cst, cs.drop_first(), tok);
    }
}

/// Every node of `ns` is a node of `cst` whose span lies within the source.
pub open spec fn nodes_within(cst: &Cst, ns: Seq<NodeRef>) -> bool {
    forall|i: int| 0 <= i < ns.len() ==> cst.valid_ref(#[trigger] ns[i])
        && cst.node_span(ns[i]).start <= cst.node_span(ns[i]).end <= cst.source_view().len()
}

/// The token children of a node lie within the source, like every node of a syntax tree.
pub broadcast proof fn lemma_child_tokens_span(cst: &Cst, syntax: NodeRef, tok: Token)
    requires
        cst.spans_in_source(),
    ensures
        nodes_within(cst, #[trigger] cst.spec_child_tokens(syntax, tok)),
{
    lemma_all_tokens(cst, cst.spec_children(syntax), tok);
    assert forall|i: int| 0 <= i < cst.spec_child_tokens(syntax, tok).len() implies cst.valid_ref(cst.spec_child_tokens(syntax, tok)[i]) by {
        assert(cst.token_at(all_tokens(cst, cst.spec_children(syntax), tok)[i]) == Some(tok));
    }
}

/// The nodes of `cs` that are tokens of kind `tok`, in order.
pub open spec fn all_tokens(cst: &Cst, cs: Seq<NodeRef>, tok: Token) -> Seq<NodeRef>
    decreases cs.len(),
{
    if cs.len() == 0 {
        Seq::empty()
    } else {
        (if cst.token_at(cs[0]) == Some(tok) {
            seq![cs[0]]
        } else {
            Seq::empty()
        }) + all_tokens(cst, cs.drop_first(), tok)
    }
}

/// The first node of `cs` that is an instance of `rule`.
pub open spec fn first_rule(cst: &Cst, cs: Seq<NodeRef>, rule: Rule) -> Option<NodeRef>
    decreases cs.len(),
{
    if cs.len() == 0 {
        None
    } else if cst.rule_at(cs[0]) == Some(rule) {
        Some(cs[0])
    } else {
        first_rule(cst, cs.drop_first(), rule)
    }
}

/// A comment is found walking backwards from node `k` over whitespace tokens; the walk
/// stops at the first node that is neither, and at the first node.
pub open spec fn comment_before(cst: &Cst, k: int) -> bool
    decreases k,
{
    if k < 0 {
        false
    } else if cst.token_at(NodeRef(k as usize)) == Some(Token::Comment) {
        true
    } else if cst.token_at(NodeRef(k as usize)) != Some(Token::Whitespace) || k == 0 {
        false
    } else {
        comment_before(cst, k - 1)
    }
}

/// Walking backwards from node `k` over comment tokens, the first whitespace token reached
/// contains a line break; the walk stops with `false` at the first node that is neither,
/// and at the first node.
pub open spec fn line_break_before(cst: &Cst, k: int) -> bool
    decreases k,
{
    if k < 0 {
        false
    } else if cst.token_at(NodeRef(k as usize)) == Some(Token::Whitespace) {
        cst.text(cst.node_span(NodeRef(k as usize))).contains(10u8)
    } else if cst.token_at(NodeRef(k as usize)) != Some(Token::Comment) || k == 0 {
        false
    } else {
        line_break_before(cst, k - 1)
    }
}

/// The node before `n` in preorder, or the first node when `n` is the first.
pub open spec fn prev_ref(n: NodeRef) -> int {
    if n.0 == 0 {
        0
    } else {
        n.0 - 1
    }
}

/// The relational operator tokens.
pub open spec fn relational_tokens() -> Seq<Token> {
    seq![
        Token::Less,
        Token::Greater,
        Token::LessEqual,
        Token::GreaterEqual,
        Token::TildeEqual,
        Token::EqualEqual,
    ]
}

/// The unary operator tokens.
pub open spec fn unary_tokens() -> Seq<Token> {
    seq![Token::Not, Token::Minus, Token::Hash, Token::Tilde]
}

/// Where no node of `cs` is a token `tok`, `first_token_of` finds none; so where it finds
/// none, node `i` is no such token.
pub proof fn lemma_first_token_absent(cst: &Cst, cs: Seq<NodeRef>, tok: Token, i: int)
    requires
        0 <= i < cs.len(),
        first_token_of(cst, cs, seq![tok]) is None,
    ensures
        cst.token_at(cs[i]) != Some(tok),
    decreases cs.len(),
{
    assert(seq![tok].contains(tok)) by {
        assert(seq![tok][0] == tok);
    }
    if i > 0 {
        assert(cs.drop_first()[i - 1] == cs[i]);
        lemma_first_token_absent(cst, cs.drop_first(), tok, i - 1);
    }
}

/// The first unary operator among the nodes `cs` is `not` only where `cs` has a `not`; and
/// where `cs` has a `not` but no other unary operator, the first one is that `not`.
pub proof fn lemma_unary_not(cst: &Cst, cs: Seq<NodeRef>)
    ensures
        (first_token_of(cst, cs, unary_tokens()) matches Some(n) && cst.token_at(n) == Some(Token::Not))
            ==> first_token_of(cst, cs, seq![Token::Not]) is Some,
        first_token_of(cst, cs, seq![Token::Not]) is Some
            && (forall|i: int| 0 <= i < cs.len() ==> !(cst.token_at(#[trigger] cs[i]) matches Some(t)
                && (t == Token::Minus || t == Token::Hash || t == Token::Tilde)))
            ==> (first_token_of(cst, cs, unary_tokens()) matches Some(n) && cst.token_at(n) == Some(Token::Not)),
    decreases cs.len(),
{
    if cs.len() > 0 {
        lemma_unary_not(cst, cs.drop_first());
        assert(unary_tokens().contains(Token::Not)) by {
            assert(unary_tokens()[0] == Token::Not);
        }
        assert forall|t: Token| seq![Token::Not].contains(t) implies t == Token::Not by {
            let i = choose|i: int| 0 <= i < 1 && seq![Token::Not][i] == t;
        }
        assert forall|t: Token| #[trigger] unary_tokens().contains(t) implies t == Token::Not || t == Token::Minus
            || t == Token::Hash || t == Token::Tilde by {
            let i = choose|i: int| 0 <= i < 4 && unary_tokens()[i] == t;
        }
        assert(seq![Token::Not].contains(Token::Not)) by {
            assert(seq![Token::Not][0] == Token::Not);
        }
        if forall|i: int| 0 <= i < cs.len() ==> !(cst.token_at(#[trigger] cs[i]) matches Some(t)
            && (t == Token::Minus || t == Token::Hash || t == Token::Tilde)) {
            assert forall|i: int| 0 <= i < cs.drop_first().len() implies !(cst.token_at(#[trigger] cs.drop_first()[i]) matches Some(t)
                && (t == Token::Minus || t == Token::Hash || t == Token::Tilde)) by {
                assert(cs.drop_first()[i] == cs[i + 1]);
            }
            assert(!(cst.token_at(cs[0]) matches Some(t) && (t == Token::Minus || t == Token::Hash || t == Token::Tilde)));
        }
    }
}

/// Whether `tok` occurs in `tokens`.
pub fn token_in(tokens: &[Token], tok: Token) -> (r: bool)
    ensures
        r == tokens@.contains(tok),
{
    let mut j: usize = 0;
    while j < tokens.len()
        invariant
            j <= tokens@.len(),
            forall|k: int| 0 <= k < j ==> tokens@[k] != tok,
        decreases tokens@.len() - j,
    {
        if tokens[j] == tok {
            assert(tokens@[j as int] == tok);
            return true;
        }
        j = j + 1;
    }
    false
}

/// Whether two byte strings are equal.
pub fn bytes_eq(a: &[u8], b: &[u8]) -> (r: bool)
    ensures
        r == (a@ == b@),
{
    if a.len() != b.len() {
        return false;
    }
    let mut i: usize = 0;
    while i < a.len()
        invariant
            i <= a@.len(),
            a@.len() == b@.len(),
            forall|k: int| 0 <= k < i ==> a@[k] == b@[k],
        decreases a@.len() - i,
    {
        if a[i] != b[i] {
            return false;
        }
        i = i + 1;
    }
    assert(a@ =~= b@);
    true
}

/// Node `x` lies strictly after node `n` in preorder and inside the tree.
pub open spec fn after(cst: &Cst, x: NodeRef, n: NodeRef) -> bool {
    n.0 < x.0 < cst.spec_len()
}

impl Cst {
    pub open spec fn spec_child_node<T: AstNode>(&self, syntax: NodeRef) -> Option<T> {
        first_cast::<T>(self, self.spec_children(syntax))
    }

    pub open spec fn spec_child_nodes<T: AstNode>(&self, syntax: NodeRef) -> Seq<T> {
        all_casts::<T>(self, self.spec_children(syntax))
    }

    pub open spec fn spec_child_token(&self, syntax: NodeRef, tok: Token) -> Option<NodeRef> {
        first_token_of(self, self.spec_children(syntax), seq![tok])
    }

    pub open spec fn spec_child_tokens(&self, syntax: NodeRef, tok: Token) -> Seq<NodeRef> {
        all_tokens(self, self.spec_children(syntax), tok)
    }

    /// The expressions of the first expression list among the children of `syntax`.
    pub open spec fn spec_explist_exps(&self, syntax: NodeRef) -> Seq<Exp> {
        match first_rule(self, self.spec_children(syntax), Rule::Explist) {
            Some(e) => self.spec_child_nodes::<Exp>(e),
            None => Seq::empty(),
        }
    }

    /// The first child of `syntax` that casts to `T`.
    pub fn child_node<T: AstNode>(&self, syntax: NodeRef) -> (r: Option<T>)
        ensures
            r == self.spec_child_node::<T>(syntax),
            r matches Some(x) ==> after(self, x.spec_syntax(), syntax),
    {
        let cs = self.children(syntax);
        let mut i: usize = 0;
        assert(cs@.skip(0) =~= cs@);
        while i < cs.len()
            invariant
                i <= cs@.len(),
                cs@ == self.spec_children(syntax),
                forall|k: int| 0 <= k < cs@.len() ==> syntax.0 < #[trigger] cs@[k].0 < self.spec_len(),
                first_cast::<T>(self, cs@.skip(i as int)) == first_cast::<T>(self, cs@),
            decreases cs@.len() - i,
        {
            assert(cs@.skip(i as int).drop_first() =~= cs@.skip(i + 1));
            proof {
                T::lemma_cast(self, cs@[i as int]);
            }
            if let Some(t) = T::cast(self, cs[i]) {
                return Some(t);
            }
            i = i + 1;
        }
        None
    }

    /// The children of `syntax` that cast to `T`, in order.
    pub fn child_node_iter<T: AstNode>(&self, syntax: NodeRef) -> (r: Vec<T>)
        ensures
            r@ == self.spec_child_nodes::<T>(syntax),
            forall|i: int| 0 <= i < r@.len() ==> after(self, #[trigger] r@[i].spec_syntax(), syntax),
    {
        let cs = self.children(syntax);
        let mut res: Vec<T> = Vec::new();
        let mut i: usize = 0;
        assert(cs@.skip(0) =~= cs@);
        while i < cs.len()
            invariant
                i <= cs@.len(),
                cs@ == self.spec_children(syntax),
                res@ + all_casts::<T>(self, cs@.skip(i as int)) == all_casts::<T>(self, cs@),
                forall|k: int| 0 <= k < cs@.len() ==> syntax.0 < #[trigger] cs@[k].0 < self.spec_len(),
                forall|k: int| 0 <= k < res@.len() ==> after(self, #[trigger] res@[k].spec_syntax(), syntax),
            decreases cs@.len() - i,
        {
            proof {
                T::lemma_cast(self, cs@[i as int]);
            }
            assert(cs@.skip(i as int).drop_first() =~= cs@.skip(i + 1));
            let ghost before = res@;
            match T::cast(self, cs[i]) {
                Some(t) => {
                    res.push(t);
                    assert(before + all_casts::<T>(self, cs@.skip(i as int)) =~= res@
                        + all_casts::<T>(self, cs@.skip(i + 1)));
                },
                None => {
                    assert(before + all_casts::<T>(self, cs@.skip(i as int)) =~= res@
                        + all_casts::<T>(self, cs@.skip(i + 1)));
                },
            }
            i = i + 1;
        }
        assert(res@ + all_casts::<T>(self, cs@.skip(i as int)) =~= res@);
        res
    }

    /// The first child of `syntax` that is a token of one of the kinds `tokens`.
    pub fn any_child_token(&self, syntax: NodeRef, tokens: &[Token]) -> (r: Option<(Token, Span)>)
        ensures
            r is Some <==> first_token_of(self, self.spec_children(syntax), tokens@) is Some,
            r matches Some((t, s)) ==> {
                let n = first_token_of(self, self.spec_children(syntax), tokens@)->0;
                &&& self.token_at(n) == Some(t)
                &&& s == self.node_span(n)
                &&& s.start <= s.end <= self.source_view().len()
            },
    {
        let cs = self.children(syntax);
        let mut i: usize = 0;
        assert(cs@.skip(0) =~= cs@);
        while i < cs.len()
            invariant
                i <= cs@.len(),
                cs@ == self.spec_children(syntax),
                forall|k: int| 0 <= k < cs@.len() ==> #[trigger] self.valid_ref(cs@[k]),
                first_token_of(self, cs@.skip(i as int), tokens@) == first_token_of(
                    self,
                    cs@,
                    tokens@,
                ),
            decreases cs@.len() - i,
        {
            assert(cs@.skip(i as int).drop_first() =~= cs@.skip(i + 1));
            let c = cs[i];
            assert(self.valid_ref(cs@[i as int]));
            assert(cs@.skip(i as int)[0] == c);
            match self.get(c) {
                Node::Token(tok) => {
                    if token_in(tokens, tok) {
                        return Some((tok, self.span(c)));
                    }
                },
                Node::Rule(_, _) => {},
            }
            i = i + 1;
        }
        None
    }

    /// The text and span of the first child of `syntax` that is a `token` node.
    pub fn child_token<'c>(&'c self, syntax: NodeRef, token: Token) -> (r: Option<(&'c [u8], Span)>)
        ensures
            r is Some <==> self.spec_child_token(syntax, token) is Some,
            r matches Some((t, s)) ==> s == self.node_span(self.spec_child_token(syntax, token)->0)
                && t@ == self.text(s),
    {
        let cs = self.children(syntax);
        let mut i: usize = 0;
        assert(cs@.skip(0) =~= cs@);
        while i < cs.len()
            invariant
                i <= cs@.len(),
                cs@ == self.spec_children(syntax),
                first_token_of(self, cs@.skip(i as int), seq![token]) == first_token_of(
                    self,
                    cs@,
                    seq![token],
                ),
            decreases cs@.len() - i,
        {
            assert(cs@.skip(i as int).drop_first() =~= cs@.skip(i + 1));
            assert(seq![token][0] == token);
            let m = self.match_token(cs[i], token);
            if m.is_some() {
                return m;
            }
            i = i + 1;
        }
        None
    }

    /// The texts and spans of the children of `syntax` that are `token` nodes, in order.
    pub fn child_token_iter<'c>(&'c self, syntax: NodeRef, token: Token) -> (r: Vec<(&'c [u8], Span)>)
        ensures
            r@.len() == self.spec_child_tokens(syntax, token).len(),
            forall|i: int|
                0 <= i < r@.len() ==> #[trigger] r@[i].1 == self.node_span(
                    self.spec_child_tokens(syntax, token)[i],
                ) && r@[i].0@ == self.text(r@[i].1),
    {
        let cs = self.children(syntax);
        let mut res: Vec<(&'c [u8], Span)> = Vec::new();
        let mut i: usize = 0;
        assert(cs@.skip(0) =~= cs@);
        while i < cs.len()
            invariant
                i <= cs@.len(),
                cs@ == self.spec_children(syntax),
                ({
                    let done = all_tokens(self, cs@.take(i as int), token);
                    &&& done + all_tokens(self, cs@.skip(i as int), token) == all_tokens(
                        self,
                        cs@,
                        token,
                    )
                    &&& res@.len() == done.len()
                    &&& forall|k: int|
                        0 <= k < res@.len() ==> #[trigger] res@[k].1 == self.node_span(done[k])
                            && res@[k].0@ == self.text(res@[k].1)
                }),
            decreases cs@.len() - i,
        {
            assert(cs@.skip(i as int).drop_first() =~= cs@.skip(i + 1));
            let ghost done = all_tokens(self, cs@.take(i as int), token);
            proof {
                lemma_all_tokens_push(self, cs@.take(i as int), cs@[i as int], token);
                assert(cs@.take(i as int).push(cs@[i as int]) =~= cs@.take(i + 1));
            }
            match self.match_token(cs[i], token) {
                Some(m) => {
                    res.push(m);
                    assert(all_tokens(self, cs@.skip(i as int), token) =~= seq![cs@[i as int]]
                        + all_tokens(self, cs@.skip(i + 1), token));
                },
                None => {
                    assert(all_tokens(self, cs@.skip(i as int), token) =~= all_tokens(
                        self,
                        cs@.skip(i + 1),
                        token,
                    ));
                },
            }
            i = i + 1;
        }
        assert(cs@.take(i as int) =~= cs@);
        assert(all_tokens(self, cs@.skip(i as int), token) =~= Seq::<NodeRef>::empty());
        res
    }

    /// The expressions of the first expression list among the children of `syntax`.
    pub fn explist_exps(&self, syntax: NodeRef) -> (r: Vec<Exp>)
        ensures
            r@ == self.spec_explist_exps(syntax),
            forall|i: int| 0 <= i < r@.len() ==> after(self, #[trigger] r@[i].spec_syntax(), syntax),
    {
        let cs = self.children(syntax);
        let mut i: usize = 0;
        assert(cs@.skip(0) =~= cs@);
        while i < cs.len()
            invariant
                i <= cs@.len(),
                cs@ == self.spec_children(syntax),
                first_rule(self, cs@.skip(i as int), Rule::Explist) == first_rule(
                    self,
                    cs@,
                    Rule::Explist,
                ),
                forall|k: int| 0 <= k < cs@.len() ==> syntax.0 < #[trigger] cs@[k].0 < self.spec_len(),
            decreases cs@.len() - i,
        {
            assert(cs@.skip(i as int).drop_first() =~= cs@.skip(i + 1));
            if self.match_rule(cs[i], Rule::Explist) {
                return self.child_node_iter(cs[i]);
            }
            i = i + 1;
        }
        Vec::new()
    }
}

/// Adding a node at the end of a sequence adds it to the tokens of the sequence if it is one.
pub proof fn lemma_all_tokens_push(cst: &Cst, cs: Seq<NodeRef>, c: NodeRef, tok: Token)
    ensures
        all_tokens(cst, cs.push(c), tok) == all_tokens(cst, cs, tok) + (if cst.token_at(c) == Some(
            tok,
        ) {
            seq![c]
        } else {
            Seq::empty()
        }),
    decreases cs.len(),
{
    if cs.len() == 0 {
        assert(cs.push(c).drop_first() =~= Seq::<NodeRef>::empty());
        assert(cs.push(c)[0] == c);
        assert(all_tokens(cst, cs.push(c).drop_first(), tok) =~= Seq::<NodeRef>::empty());
        assert(all_tokens(cst, cs, tok) =~= Seq::<NodeRef>::empty());
        assert(all_tokens(cst, cs.push(c), tok) =~= all_tokens(cst, cs, tok) + (if cst.token_at(
            c,
        ) == Some(tok) {
            seq![c]
        } else {
            Seq::empty()
        }));
    } else {
        lemma_all_tokens_push(cst, cs.drop_first(), c, tok);
        assert(cs.push(c).drop_first() =~= cs.drop_first().push(c));
        assert(cs.push(c)[0] == cs[0]);
        assert(all_tokens(cst, cs.push(c), tok) =~= all_tokens(cst, cs, tok) + (if cst.token_at(
            c,
        ) == Some(tok) {
            seq![c]
        } else {
            Seq::empty()
        }));
    }
}

/// A syntax node of rule `Chunk`.
#[derive(Debug, Clone, Copy, PartialEq, Eq, Hash, PartialOrd, Ord, Structural)]
pub struct Chunk {
    pub syntax: NodeRef,
}

impl AstNode for Chunk {
    open spec fn spec_cast(cst: &Cst, syntax: NodeRef) -> Option<Self> {
        if cst.rule_at(syntax) == Some(Rule::Chunk) {
            Some(Chunk { syntax })
        } else {
            None
        }
    }

    open spec fn spec_syntax(&self) -> NodeRef {
        self.syntax
    }

    proof fn lemma_cast(cst: &Cst, syntax: NodeRef) {
    }

    fn cast(cst: &Cst, syntax: NodeRef) -> (r: Option<Self>) {
        if cst.match_rule(syntax, Rule::Chunk) {
            Some(Chunk { syntax })
        } else {
            None
        }
    }

    fn syntax(&self) -> (r: NodeRef) {
        self.syntax
    }
}

/// A syntax node of rule `Block`.
#[derive(Debug, Clone, Copy, PartialEq, Eq, Hash, PartialOrd, Ord, Structural)]
pub struct Block {
    pub syntax: NodeRef,
}

impl AstNode for Block {
    open spec fn spec_cast(cst: &Cst, syntax: NodeRef) -> Option<Self> {
        if cst.rule_at(syntax) == Some(Rule::Block) {
            Some(Block { syntax })
        } else {
            None
        }
    }

    open spec fn spec_syntax(&self) -> NodeRef {
        self.syntax
    }

    proof fn lemma_cast(cst: &Cst, syntax: NodeRef) {
    }

    fn cast(cst: &Cst, syntax: NodeRef) -> (r: Option<Self>) {
        if cst.match_rule(syntax, Rule::Block) {
            Some(Block { syntax })
        } else {
            None
        }
    }

    fn syntax(&self) -> (r: NodeRef) {
        self.syntax
    }
}

/// A syntax node of rule `Emptystat`.
#[derive(Debug, Clone, Copy, PartialEq, Eq, Hash, PartialOrd, Ord, Structural)]
pub struct Emptystat {
    pub syntax: NodeRef,
}

impl AstNode for Emptystat {
    open spec fn spec_cast(cst: &Cst, syntax: NodeRef) -> Option<Self> {
        if cst.rule_at(syntax) == Some(Rule::Emptystat) {
            Some(Emptystat { syntax })
        } else {
            None
        }
    }

    open spec fn spec_syntax(&self) -> NodeRef {
        self.syntax
    }

    proof fn lemma_cast(cst: &Cst, syntax: NodeRef) {
    }

    fn cast(cst: &Cst, syntax: NodeRef) -> (r: Option<Self>) {
        if cst.match_rule(syntax, Rule::Emptystat) {
            Some(Emptystat { syntax })
        } else {
            None
        }
    }

    fn syntax(&self) -> (r: NodeRef) {
        self.syntax
    }
}

/// A syntax node of rule `Expstat`.
#[derive(Debug, Clone, Copy, PartialEq, Eq, Hash, PartialOrd, Ord, Structural)]
pub struct Expstat {
    pub syntax: NodeRef,
}

impl AstNode for Expstat {
    open spec fn spec_cast(cst: &Cst, syntax: NodeRef) -> Option<Self> {
        if cst.rule_at(syntax) == Some(Rule::Expstat) {
            Some(Expstat { syntax })
        } else {
            None
        }
    }

    open spec fn spec_syntax(&self) -> NodeRef {
        self.syntax
    }

    proof fn lemma_cast(cst: &Cst, syntax: NodeRef) {
    }

    fn cast(cst: &Cst, syntax: NodeRef) -> (r: Option<Self>) {
        if cst.match_rule(syntax, Rule::Expstat) {
            Some(Expstat { syntax })
        } else {
            None
        }
    }

    fn syntax(&self) -> (r: NodeRef) {
        self.syntax
    }
}

/// A syntax node of rule `Assignstat`.
#[derive(Debug, Clone, Copy, PartialEq, Eq, Hash, PartialOrd, Ord, Structural)]
pub struct Assignstat {
    pub syntax: NodeRef,
}

impl AstNode for Assignstat {
    open spec fn spec_cast(cst: &Cst, syntax: NodeRef) -> Option<Self> {
        if cst.rule_at(syntax) == Some(Rule::Assignstat) {
            Some(Assignstat { syntax })
        } else {
            None
        }
    }

    open spec fn spec_syntax(&self) -> NodeRef {
        self.syntax
    }

    proof fn lemma_cast(cst: &Cst, syntax: NodeRef) {
    }

    fn cast(cst: &Cst, syntax: NodeRef) -> (r: Option<Self>) {
        if cst.match_rule(syntax, Rule::Assignstat) {
            Some(Assignstat { syntax })
        } else {
            None
        }
    }

    fn syntax(&self) -> (r: NodeRef) {
        self.syntax
    }
}

/// A syntax node of rule `Label`.
#[derive(Debug, Clone, Copy, PartialEq, Eq, Hash, PartialOrd, Ord, Structural)]
pub struct Label {
    pub syntax: NodeRef,
}

impl AstNode for Label {
    open spec fn spec_cast(cst: &Cst, syntax: NodeRef) -> Option<Self> {
        if cst.rule_at(syntax) == Some(Rule::Label) {
            Some(Label { syntax })
        } else {
            None
        }
    }

    open spec fn spec_syntax(&self) -> NodeRef {
        self.syntax
    }

    proof fn lemma_cast(cst: &Cst, syntax: NodeRef) {
    }

    fn cast(cst: &Cst, syntax: NodeRef) -> (r: Option<Self>) {
        if cst.match_rule(syntax, Rule::Label) {
            Some(Label { syntax })
        } else {
            None
        }
    }

    fn syntax(&self) -> (r: NodeRef) {
        self.syntax
    }
}

/// A syntax node of rule `Breakstat`.
#[derive(Debug, Clone, Copy, PartialEq, Eq, Hash, PartialOrd, Ord, Structural)]
pub struct Breakstat {
    pub syntax: NodeRef,
}

impl AstNode for Breakstat {
    open spec fn spec_cast(cst: &Cst, syntax: NodeRef) -> Option<Self> {
        if cst.rule_at(syntax) == Some(Rule::Breakstat) {
            Some(Breakstat { syntax })
        } else {
            None
        }
    }

    open spec fn spec_syntax(&self) -> NodeRef {
        self.syntax
    }

    proof fn lemma_cast(cst: &Cst, syntax: NodeRef) {
    }

    fn cast(cst: &Cst, syntax: NodeRef) -> (r: Option<Self>) {
        if cst.match_rule(syntax, Rule::Breakstat) {
            Some(Breakstat { syntax })
        } else {
            None
        }
    }

    fn syntax(&self) -> (r: NodeRef) {
        self.syntax
    }
}

/// A syntax node of rule `Gotostat`.
#[derive(Debug, Clone, Copy, PartialEq, Eq, Hash, PartialOrd, Ord, Structural)]
pub struct Gotostat {
    pub syntax: NodeRef,
}

impl AstNode for Gotostat {
    open spec fn spec_cast(cst: &Cst, syntax: NodeRef) -> Option<Self> {
        if cst.rule_at(syntax) == Some(Rule::Gotostat) {
            Some(Gotostat { syntax })
        } else {
            None
        }
    }

    open spec fn spec_syntax(&self) -> NodeRef {
        self.syntax
    }

    proof fn lemma_cast(cst: &Cst, syntax: NodeRef) {
    }

    fn cast(cst: &Cst, syntax: NodeRef) -> (r: Option<Self>) {
        if cst.match_rule(syntax, Rule::Gotostat) {
            Some(Gotostat { syntax })
        } else {
            None
        }
    }

    fn syntax(&self) -> (r: NodeRef) {
        self.syntax
    }
}

/// A syntax node of rule `Dostat`.
#[derive(Debug, Clone, Copy, PartialEq, Eq, Hash, PartialOrd, Ord, Structural)]
pub struct Dostat {
    pub syntax: NodeRef,
}

impl AstNode for Dostat {
    open spec fn spec_cast(cst: &Cst, syntax: NodeRef) -> Option<Self> {
        if cst.rule_at(syntax) == Some(Rule::Dostat) {
            Some(Dostat { syntax })
        } else {
            None
        }
    }

    open spec fn spec_syntax(&self) -> NodeRef {
        self.syntax
    }

    proof fn lemma_cast(cst: &Cst, syntax: NodeRef) {
    }

    fn cast(cst: &Cst, syntax: NodeRef) -> (r: Option<Self>) {
        if cst.match_rule(syntax, Rule::Dostat) {
            Some(Dostat { syntax })
        } else {
            None
        }
    }

    fn syntax(&self) -> (r: NodeRef) {
        self.syntax
    }
}

/// A syntax node of rule `Whilestat`.
#[derive(Debug, Clone, Copy, PartialEq, Eq, Hash, PartialOrd, Ord, Structural)]
pub struct Whilestat {
    pub syntax: NodeRef,
}

impl AstNode for Whilestat {
    open spec fn spec_cast(cst: &Cst, syntax: NodeRef) -> Option<Self> {
        if cst.rule_at(syntax) == Some(Rule::Whilestat) {
            Some(Whilestat { syntax })
        } else {
            None
        }
    }

    open spec fn spec_syntax(&self) -> NodeRef {
        self.syntax
    }

    proof fn lemma_cast(cst: &Cst, syntax: NodeRef) {
    }

    fn cast(cst: &Cst, syntax: NodeRef) -> (r: Option<Self>) {
        if cst.match_rule(syntax, Rule::Whilestat) {
            Some(Whilestat { syntax })
        } else {
            None
        }
    }

    fn syntax(&self) -> (r: NodeRef) {
        self.syntax
    }
}

/// A syntax node of rule `Repeatstat`.
#[derive(Debug, Clone, Copy, PartialEq, Eq, Hash, PartialOrd, Ord, Structural)]
pub struct Repeatstat {
    pub syntax: NodeRef,
}

impl AstNode for Repeatstat {
    open spec fn spec_cast(cst: &Cst, syntax: NodeRef) -> Option<Self> {
        if cst.rule_at(syntax) == Some(Rule::Repeatstat) {
            Some(Repeatstat { syntax })
        } else {
            None
        }
    }

    open spec fn spec_syntax(&self) -> NodeRef {
        self.syntax
    }

    proof fn lemma_cast(cst: &Cst, syntax: NodeRef) {
    }

    fn cast(cst: &Cst, syntax: NodeRef) -> (r: Option<Self>) {
        if cst.match_rule(syntax, Rule::Repeatstat) {
            Some(Repeatstat { syntax })
        } else {
            None
        }
    }

    fn syntax(&self) -> (r: NodeRef) {
        self.syntax
    }
}

/// A syntax node of rule `Ifstat`.
#[derive(Debug, Clone, Copy, PartialEq, Eq, Hash, PartialOrd, Ord, Structural)]
pub struct Ifstat {
    pub syntax: NodeRef,
}

impl AstNode for Ifstat {
    open spec fn spec_cast(cst: &Cst, syntax: NodeRef) -> Option<Self> {
        if cst.rule_at(syntax) == Some(Rule::Ifstat) {
            Some(Ifstat { syntax })
        } else {
            None
        }
    }

    open spec fn spec_syntax(&self) -> NodeRef {
        self.syntax
    }

    proof fn lemma_cast(cst: &Cst, syntax: NodeRef) {
    }

    fn cast(cst: &Cst, syntax: NodeRef) -> (r: Option<Self>) {
        if cst.match_rule(syntax, Rule::Ifstat) {
            Some(Ifstat { syntax })
        } else {
            None
        }
    }

    fn syntax(&self) -> (r: NodeRef) {
        self.syntax
    }
}

/// A syntax node of rule `ElifBranch`.
#[derive(Debug, Clone, Copy, PartialEq, Eq, Hash, PartialOrd, Ord, Structural)]
pub struct ElifBranch {
    pub syntax: NodeRef,
}

impl AstNode for ElifBranch {
    open spec fn spec_cast(cst: &Cst, syntax: NodeRef) -> Option<Self> {
        if cst.rule_at(syntax) == Some(Rule::ElifBranch) {
            Some(ElifBranch { syntax })
        } else {
            None
        }
    }

    open spec fn spec_syntax(&self) -> NodeRef {
        self.syntax
    }

    proof fn lemma_cast(cst: &Cst, syntax: NodeRef) {
    }

    fn cast(cst: &Cst, syntax: NodeRef) -> (r: Option<Self>) {
        if cst.match_rule(syntax, Rule::ElifBranch) {
            Some(ElifBranch { syntax })
        } else {
            None
        }
    }

    fn syntax(&self) -> (r: NodeRef) {
        self.syntax
    }
}

/// A syntax node of rule `ElseBranch`.
#[derive(Debug, Clone, Copy, PartialEq, Eq, Hash, PartialOrd, Ord, Structural)]
pub struct ElseBranch {
    pub syntax: NodeRef,
}

impl AstNode for ElseBranch {
    open spec fn spec_cast(cst: &Cst, syntax: NodeRef) -> Option<Self> {
        if cst.rule_at(syntax) == Some(Rule::ElseBranch) {
            Some(ElseBranch { syntax })
        } else {
            None
        }
    }

    open spec fn spec_syntax(&self) -> NodeRef {
        self.syntax
    }

    proof fn lemma_cast(cst: &Cst, syntax: NodeRef) {
    }

    fn cast(cst: &Cst, syntax: NodeRef) -> (r: Option<Self>) {
        if cst.match_rule(syntax, Rule::ElseBranch) {
            Some(ElseBranch { syntax })
        } else {
            None
        }
    }

    fn syntax(&self) -> (r: NodeRef) {
        self.syntax
    }
}

/// A syntax node of rule `NumericForstat`.
#[derive(Debug, Clone, Copy, PartialEq, Eq, Hash, PartialOrd, Ord, Structural)]
pub struct NumericForstat {
    pub syntax: NodeRef,
}

impl AstNode for NumericForstat {
    open spec fn spec_cast(cst: &Cst, syntax: NodeRef) -> Option<Self> {
        if cst.rule_at(syntax) == Some(Rule::NumericForstat) {
            Some(NumericForstat { syntax })
        } else {
            None
        }
    }

    open spec fn spec_syntax(&self) -> NodeRef {
        self.syntax
    }

    proof fn lemma_cast(cst: &Cst, syntax: NodeRef) {
    }

    fn cast(cst: &Cst, syntax: NodeRef) -> (r: Option<Self>) {
        if cst.match_rule(syntax, Rule::NumericForstat) {
            Some(NumericForstat { syntax })
        } else {
            None
        }
    }

    fn syntax(&self) -> (r: NodeRef) {
        self.syntax
    }
}

/// A syntax node of rule `GenericForstat`.
#[derive(Debug, Clone, Copy, PartialEq, Eq, Hash, PartialOrd, Ord, Structural)]
pub struct GenericForstat {
    pub syntax: NodeRef,
}

impl AstNode for GenericForstat {
    open spec fn spec_cast(cst: &Cst, syntax: NodeRef) -> Option<Self> {
        if cst.rule_at(syntax) == Some(Rule::GenericForstat) {
            Some(GenericForstat { syntax })
        } else {
            None
        }
    }

    open spec fn spec_syntax(&self) -> NodeRef {
        self.syntax
    }

    proof fn lemma_cast(cst: &Cst, syntax: NodeRef) {
    }

    fn cast(cst: &Cst, syntax: NodeRef) -> (r: Option<Self>) {
        if cst.match_rule(syntax, Rule::GenericForstat) {
            Some(GenericForstat { syntax })
        } else {
            None
        }
    }

    fn syntax(&self) -> (r: NodeRef) {
        self.syntax
    }
}

/// A syntax node of rule `Loopvar`.
#[derive(Debug, Clone, Copy, PartialEq, Eq, Hash, PartialOrd, Ord, Structural)]
pub struct Loopvar {
    pub syntax: NodeRef,
}

impl AstNode for Loopvar {
    open spec fn spec_cast(cst: &Cst, syntax: NodeRef) -> Option<Self> {
        if cst.rule_at(syntax) == Some(Rule::Loopvar) {
            Some(Loopvar { syntax })
        } else {
            None
        }
    }

    open spec fn spec_syntax(&self) -> NodeRef {
        self.syntax
    }

    proof fn lemma_cast(cst: &Cst, syntax: NodeRef) {
    }

    fn cast(cst: &Cst, syntax: NodeRef) -> (r: Option<Self>) {
        if cst.match_rule(syntax, Rule::Loopvar) {
            Some(Loopvar { syntax })
        } else {
            None
        }
    }

    fn syntax(&self) -> (r: NodeRef) {
        self.syntax
    }
}

/// A syntax node of rule `Funcstat`.
#[derive(Debug, Clone, Copy, PartialEq, Eq, Hash, PartialOrd, Ord, Structural)]
pub struct Funcstat {
    pub syntax: NodeRef,
}

impl AstNode for Funcstat {
    open spec fn spec_cast(cst: &Cst, syntax: NodeRef) -> Option<Self> {
        if cst.rule_at(syntax) == Some(Rule::Funcstat) {
            Some(Funcstat { syntax })
        } else {
            None
        }
    }

    open spec fn spec_syntax(&self) -> NodeRef {
        self.syntax
    }

    proof fn lemma_cast(cst: &Cst, syntax: NodeRef) {
    }

    fn cast(cst: &Cst, syntax: NodeRef) -> (r: Option<Self>) {
        if cst.match_rule(syntax, Rule::Funcstat) {
            Some(Funcstat { syntax })
        } else {
            None
        }
    }

    fn syntax(&self) -> (r: NodeRef) {
        self.syntax
    }
}

/// A syntax node of rule `Funcname`.
#[derive(Debug, Clone, Copy, PartialEq, Eq, Hash, PartialOrd, Ord, Structural)]
pub struct Funcname {
    pub syntax: NodeRef,
}

impl AstNode for Funcname {
    open spec fn spec_cast(cst: &Cst, syntax: NodeRef) -> Option<Self> {
        if cst.rule_at(syntax) == Some(Rule::Funcname) {
            Some(Funcname { syntax })
        } else {
            None
        }
    }

    open spec fn spec_syntax(&self) -> NodeRef {
        self.syntax
    }

    proof fn lemma_cast(cst: &Cst, syntax: NodeRef) {
    }

    fn cast(cst: &Cst, syntax: NodeRef) -> (r: Option<Self>) {
        if cst.match_rule(syntax, Rule::Funcname) {
            Some(Funcname { syntax })
        } else {
            None
        }
    }

    fn syntax(&self) -> (r: NodeRef) {
        self.syntax
    }
}

/// A syntax node of rule `Pars`.
#[derive(Debug, Clone, Copy, PartialEq, Eq, Hash, PartialOrd, Ord, Structural)]
pub struct Pars {
    pub syntax: NodeRef,
}

impl AstNode for Pars {
    open spec fn spec_cast(cst: &Cst, syntax: NodeRef) -> Option<Self> {
        if cst.rule_at(syntax) == Some(Rule::Pars) {
            Some(Pars { syntax })
        } else {
            None
        }
    }

    open spec fn spec_syntax(&self) -> NodeRef {
        self.syntax
    }

    proof fn lemma_cast(cst: &Cst, syntax: NodeRef) {
    }

    fn cast(cst: &Cst, syntax: NodeRef) -> (r: Option<Self>) {
        if cst.match_rule(syntax, Rule::Pars) {
            Some(Pars { syntax })
        } else {
            None
        }
    }

    fn syntax(&self) -> (r: NodeRef) {
        self.syntax
    }
}

/// A syntax node of rule `Par`.
#[derive(Debug, Clone, Copy, PartialEq, Eq, Hash, PartialOrd, Ord, Structural)]
pub struct Par {
    pub syntax: NodeRef,
}

impl AstNode for Par {
    open spec fn spec_cast(cst: &Cst, syntax: NodeRef) -> Option<Self> {
        if cst.rule_at(syntax) == Some(Rule::Par) {
            Some(Par { syntax })
        } else {
            None
        }
    }

    open spec fn spec_syntax(&self) -> NodeRef {
        self.syntax
    }

    proof fn lemma_cast(cst: &Cst, syntax: NodeRef) {
    }

    fn cast(cst: &Cst, syntax: NodeRef) -> (r: Option<Self>) {
        if cst.match_rule(syntax, Rule::Par) {
            Some(Par { syntax })
        } else {
            None
        }
    }

    fn syntax(&self) -> (r: NodeRef) {
        self.syntax
    }
}

/// A syntax node of rule `Varargpar`.
#[derive(Debug, Clone, Copy, PartialEq, Eq, Hash, PartialOrd, Ord, Structural)]
pub struct Varargpar {
    pub syntax: NodeRef,
}

impl AstNode for Varargpar {
    open spec fn spec_cast(cst: &Cst, syntax: NodeRef) -> Option<Self> {
        if cst.rule_at(syntax) == Some(Rule::Varargpar) {
            Some(Varargpar { syntax })
        } else {
            None
        }
    }

    open spec fn spec_syntax(&self) -> NodeRef {
        self.syntax
    }

    proof fn lemma_cast(cst: &Cst, syntax: NodeRef) {
    }

    fn cast(cst: &Cst, syntax: NodeRef) -> (r: Option<Self>) {
        if cst.match_rule(syntax, Rule::Varargpar) {
            Some(Varargpar { syntax })
        } else {
            None
        }
    }

    fn syntax(&self) -> (r: NodeRef) {
        self.syntax
    }
}

/// A syntax node of rule `Qualname`.
#[derive(Debug, Clone, Copy, PartialEq, Eq, Hash, PartialOrd, Ord, Structural)]
pub struct Qualname {
    pub syntax: NodeRef,
}

impl AstNode for Qualname {
    open spec fn spec_cast(cst: &Cst, syntax: NodeRef) -> Option<Self> {
        if cst.rule_at(syntax) == Some(Rule::Qualname) {
            Some(Qualname { syntax })
        } else {
            None
        }
    }

    open spec fn spec_syntax(&self) -> NodeRef {
        self.syntax
    }

    proof fn lemma_cast(cst: &Cst, syntax: NodeRef) {
    }

    fn cast(cst: &Cst, syntax: NodeRef) -> (r: Option<Self>) {
        if cst.match_rule(syntax, Rule::Qualname) {
            Some(Qualname { syntax })
        } else {
            None
        }
    }

    fn syntax(&self) -> (r: NodeRef) {
        self.syntax
    }
}

/// A syntax node of rule `Localvarstat`.
#[derive(Debug, Clone, Copy, PartialEq, Eq, Hash, PartialOrd, Ord, Structural)]
pub struct Localvarstat {
    pub syntax: NodeRef,
}

impl AstNode for Localvarstat {
    open spec fn spec_cast(cst: &Cst, syntax: NodeRef) -> Option<Self> {
        if cst.rule_at(syntax) == Some(Rule::Localvarstat) {
            Some(Localvarstat { syntax })
        } else {
            None
        }
    }

    open spec fn spec_syntax(&self) -> NodeRef {
        self.syntax
    }

    proof fn lemma_cast(cst: &Cst, syntax: NodeRef) {
    }

    fn cast(cst: &Cst, syntax: NodeRef) -> (r: Option<Self>) {
        if cst.match_rule(syntax, Rule::Localvarstat) {
            Some(Localvarstat { syntax })
        } else {
            None
        }
    }

    fn syntax(&self) -> (r: NodeRef) {
        self.syntax
    }
}

/// A syntax node of rule `Localfuncstat`.
#[derive(Debug, Clone, Copy, PartialEq, Eq, Hash, PartialOrd, Ord, Structural)]
pub struct Localfuncstat {
    pub syntax: NodeRef,
}

impl AstNode for Localfuncstat {
    open spec fn spec_cast(cst: &Cst, syntax: NodeRef) -> Option<Self> {
        if cst.rule_at(syntax) == Some(Rule::Localfuncstat) {
            Some(Localfuncstat { syntax })
        } else {
            None
        }
    }

    open spec fn spec_syntax(&self) -> NodeRef {
        self.syntax
    }

    proof fn lemma_cast(cst: &Cst, syntax: NodeRef) {
    }

    fn cast(cst: &Cst, syntax: NodeRef) -> (r: Option<Self>) {
        if cst.match_rule(syntax, Rule::Localfuncstat) {
            Some(Localfuncstat { syntax })
        } else {
            None
        }
    }

    fn syntax(&self) -> (r: NodeRef) {
        self.syntax
    }
}

/// A syntax node of rule `Globalvarstat`.
#[derive(Debug, Clone, Copy, PartialEq, Eq, Hash, PartialOrd, Ord, Structural)]
pub struct Globalvarstat {
    pub syntax: NodeRef,
}

impl AstNode for Globalvarstat {
    open spec fn spec_cast(cst: &Cst, syntax: NodeRef) -> Option<Self> {
        if cst.rule_at(syntax) == Some(Rule::Globalvarstat) {
            Some(Globalvarstat { syntax })
        } else {
            None
        }
    }

    open spec fn spec_syntax(&self) -> NodeRef {
        self.syntax
    }

    proof fn lemma_cast(cst: &Cst, syntax: NodeRef) {
    }

    fn cast(cst: &Cst, syntax: NodeRef) -> (r: Option<Self>) {
        if cst.match_rule(syntax, Rule::Globalvarstat) {
            Some(Globalvarstat { syntax })
        } else {
            None
        }
    }

    fn syntax(&self) -> (r: NodeRef) {
        self.syntax
    }
}

/// A syntax node of rule `Globalfuncstat`.
#[derive(Debug, Clone, Copy, PartialEq, Eq, Hash, PartialOrd, Ord, Structural)]
pub struct Globalfuncstat {
    pub syntax: NodeRef,
}

impl AstNode for Globalfuncstat {
    open spec fn spec_cast(cst: &Cst, syntax: NodeRef) -> Option<Self> {
        if cst.rule_at(syntax) == Some(Rule::Globalfuncstat) {
            Some(Globalfuncstat { syntax })
        } else {
            None
        }
    }

    open spec fn spec_syntax(&self) -> NodeRef {
        self.syntax
    }

    proof fn lemma_cast(cst: &Cst, syntax: NodeRef) {
    }

    fn cast(cst: &Cst, syntax: NodeRef) -> (r: Option<Self>) {
        if cst.match_rule(syntax, Rule::Globalfuncstat) {
            Some(Globalfuncstat { syntax })
        } else {
            None
        }
    }

    fn syntax(&self) -> (r: NodeRef) {
        self.syntax
    }
}

/// A syntax node of rule `CollectiveGlobalvarstat`.
#[derive(Debug, Clone, Copy, PartialEq, Eq, Hash, PartialOrd, Ord, Structural)]
pub struct CollectiveGlobalvarstat {
    pub syntax: NodeRef,
}

impl AstNode for CollectiveGlobalvarstat {
    open spec fn spec_cast(cst: &Cst, syntax: NodeRef) -> Option<Self> {
        if cst.rule_at(syntax) == Some(Rule::CollectiveGlobalvarstat) {
            Some(CollectiveGlobalvarstat { syntax })
        } else {
            None
        }
    }

    open spec fn spec_syntax(&self) -> NodeRef {
        self.syntax
    }

    proof fn lemma_cast(cst: &Cst, syntax: NodeRef) {
    }

    fn cast(cst: &Cst, syntax: NodeRef) -> (r: Option<Self>) {
        if cst.match_rule(syntax, Rule::CollectiveGlobalvarstat) {
            Some(CollectiveGlobalvarstat { syntax })
        } else {
            None
        }
    }

    fn syntax(&self) -> (r: NodeRef) {
        self.syntax
    }
}

/// A syntax node of rule `Attname`.
#[derive(Debug, Clone, Copy, PartialEq, Eq, Hash, PartialOrd, Ord, Structural)]
pub struct Attname {
    pub syntax: NodeRef,
}

impl AstNode for Attname {
    open spec fn spec_cast(cst: &Cst, syntax: NodeRef) -> Option<Self> {
        if cst.rule_at(syntax) == Some(Rule::Attname) {
            Some(Attname { syntax })
        } else {
            None
        }
    }

    open spec fn spec_syntax(&self) -> NodeRef {
        self.syntax
    }

    proof fn lemma_cast(cst: &Cst, syntax: NodeRef) {
    }

    fn cast(cst: &Cst, syntax: NodeRef) -> (r: Option<Self>) {
        if cst.match_rule(syntax, Rule::Attname) {
            Some(Attname { syntax })
        } else {
            None
        }
    }

    fn syntax(&self) -> (r: NodeRef) {
        self.syntax
    }
}

/// A syntax node of rule `Attrib`.
#[derive(Debug, Clone, Copy, PartialEq, Eq, Hash, PartialOrd, Ord, Structural)]
pub struct Attrib {
    pub syntax: NodeRef,
}

impl AstNode for Attrib {
    open spec fn spec_cast(cst: &Cst, syntax: NodeRef) -> Option<Self> {
        if cst.rule_at(syntax) == Some(Rule::Attrib) {
            Some(Attrib { syntax })
        } else {
            None
        }
    }

    open spec fn spec_syntax(&self) -> NodeRef {
        self.syntax
    }

    proof fn lemma_cast(cst: &Cst, syntax: NodeRef) {
    }

    fn cast(cst: &Cst, syntax: NodeRef) -> (r: Option<Self>) {
        if cst.match_rule(syntax, Rule::Attrib) {
            Some(Attrib { syntax })
        } else {
            None
        }
    }

    fn syntax(&self) -> (r: NodeRef) {
        self.syntax
    }
}

/// A syntax node of rule `Retstat`.
#[derive(Debug, Clone, Copy, PartialEq, Eq, Hash, PartialOrd, Ord, Structural)]
pub struct Retstat {
    pub syntax: NodeRef,
}

impl AstNode for Retstat {
    open spec fn spec_cast(cst: &Cst, syntax: NodeRef) -> Option<Self> {
        if cst.rule_at(syntax) == Some(Rule::Retstat) {
            Some(Retstat { syntax })
        } else {
            None
        }
    }

    open spec fn spec_syntax(&self) -> NodeRef {
        self.syntax
    }

    proof fn lemma_cast(cst: &Cst, syntax: NodeRef) {
    }

    fn cast(cst: &Cst, syntax: NodeRef) -> (r: Option<Self>) {
        if cst.match_rule(syntax, Rule::Retstat) {
            Some(Retstat { syntax })
        } else {
            None
        }
    }

    fn syntax(&self) -> (r: NodeRef) {
        self.syntax
    }
}

/// A syntax node of rule `Binexp`.
#[derive(Debug, Clone, Copy, PartialEq, Eq, Hash, PartialOrd, Ord, Structural)]
pub struct Binexp {
    pub syntax: NodeRef,
}

impl AstNode for Binexp {
    open spec fn spec_cast(cst: &Cst, syntax: NodeRef) -> Option<Self> {
        if cst.rule_at(syntax) == Some(Rule::Binexp) {
            Some(Binexp { syntax })
        } else {
            None
        }
    }

    open spec fn spec_syntax(&self) -> NodeRef {
        self.syntax
    }

    proof fn lemma_cast(cst: &Cst, syntax: NodeRef) {
    }

    fn cast(cst: &Cst, syntax: NodeRef) -> (r: Option<Self>) {
        if cst.match_rule(syntax, Rule::Binexp) {
            Some(Binexp { syntax })
        } else {
            None
        }
    }

    fn syntax(&self) -> (r: NodeRef) {
        self.syntax
    }
}

/// A syntax node of rule `Unaryexp`.
#[derive(Debug, Clone, Copy, PartialEq, Eq, Hash, PartialOrd, Ord, Structural)]
pub struct Unaryexp {
    pub syntax: NodeRef,
}

impl AstNode for Unaryexp {
    open spec fn spec_cast(cst: &Cst, syntax: NodeRef) -> Option<Self> {
        if cst.rule_at(syntax) == Some(Rule::Unaryexp) {
            Some(Unaryexp { syntax })
        } else {
            None
        }
    }

    open spec fn spec_syntax(&self) -> NodeRef {
        self.syntax
    }

    proof fn lemma_cast(cst: &Cst, syntax: NodeRef) {
    }

    fn cast(cst: &Cst, syntax: NodeRef) -> (r: Option<Self>) {
        if cst.match_rule(syntax, Rule::Unaryexp) {
            Some(Unaryexp { syntax })
        } else {
            None
        }
    }

    fn syntax(&self) -> (r: NodeRef) {
        self.syntax
    }
}

/// A syntax node of rule `Nameexp`.
#[derive(Debug, Clone, Copy, PartialEq, Eq, Hash, PartialOrd, Ord, Structural)]
pub struct Nameexp {
    pub syntax: NodeRef,
}

impl AstNode for Nameexp {
    open spec fn spec_cast(cst: &Cst, syntax: NodeRef) -> Option<Self> {
        if cst.rule_at(syntax) == Some(Rule::Nameexp) {
            Some(Nameexp { syntax })
        } else {
            None
        }
    }

    open spec fn spec_syntax(&self) -> NodeRef {
        self.syntax
    }

    proof fn lemma_cast(cst: &Cst, syntax: NodeRef) {
    }

    fn cast(cst: &Cst, syntax: NodeRef) -> (r: Option<Self>) {
        if cst.match_rule(syntax, Rule::Nameexp) {
            Some(Nameexp { syntax })
        } else {
            None
        }
    }

    fn syntax(&self) -> (r: NodeRef) {
        self.syntax
    }
}

/// A syntax node of rule `Parenexp`.
#[derive(Debug, Clone, Copy, PartialEq, Eq, Hash, PartialOrd, Ord, Structural)]
pub struct Parenexp {
    pub syntax: NodeRef,
}

impl AstNode for Parenexp {
    open spec fn spec_cast(cst: &Cst, syntax: NodeRef) -> Option<Self> {
        if cst.rule_at(syntax) == Some(Rule::Parenexp) {
            Some(Parenexp { syntax })
        } else {
            None
        }
    }

    open spec fn spec_syntax(&self) -> NodeRef {
        self.syntax
    }

    proof fn lemma_cast(cst: &Cst, syntax: NodeRef) {
    }

    fn cast(cst: &Cst, syntax: NodeRef) -> (r: Option<Self>) {
        if cst.match_rule(syntax, Rule::Parenexp) {
            Some(Parenexp { syntax })
        } else {
            None
        }
    }

    fn syntax(&self) -> (r: NodeRef) {
        self.syntax
    }
}

/// A syntax node of rule `Fieldexp`.
#[derive(Debug, Clone, Copy, PartialEq, Eq, Hash, PartialOrd, Ord, Structural)]
pub struct Fieldexp {
    pub syntax: NodeRef,
}

impl AstNode for Fieldexp {
    open spec fn spec_cast(cst: &Cst, syntax: NodeRef) -> Option<Self> {
        if cst.rule_at(syntax) == Some(Rule::Fieldexp) {
            Some(Fieldexp { syntax })
        } else {
            None
        }
    }

    open spec fn spec_syntax(&self) -> NodeRef {
        self.syntax
    }

    proof fn lemma_cast(cst: &Cst, syntax: NodeRef) {
    }

    fn cast(cst: &Cst, syntax: NodeRef) -> (r: Option<Self>) {
        if cst.match_rule(syntax, Rule::Fieldexp) {
            Some(Fieldexp { syntax })
        } else {
            None
        }
    }

    fn syntax(&self) -> (r: NodeRef) {
        self.syntax
    }
}

/// A syntax node of rule `Indexexp`.
#[derive(Debug, Clone, Copy, PartialEq, Eq, Hash, PartialOrd, Ord, Structural)]
pub struct Indexexp {
    pub syntax: NodeRef,
}

impl AstNode for Indexexp {
    open spec fn spec_cast(cst: &Cst, syntax: NodeRef) -> Option<Self> {
        if cst.rule_at(syntax) == Some(Rule::Indexexp) {
            Some(Indexexp { syntax })
        } else {
            None
        }
    }

    open spec fn spec_syntax(&self) -> NodeRef {
        self.syntax
    }

    proof fn lemma_cast(cst: &Cst, syntax: NodeRef) {
    }

    fn cast(cst: &Cst, syntax: NodeRef) -> (r: Option<Self>) {
        if cst.match_rule(syntax, Rule::Indexexp) {
            Some(Indexexp { syntax })
        } else {
            None
        }
    }

    fn syntax(&self) -> (r: NodeRef) {
        self.syntax
    }
}

/// A syntax node of rule `Callexp`.
#[derive(Debug, Clone, Copy, PartialEq, Eq, Hash, PartialOrd, Ord, Structural)]
pub struct Callexp {
    pub syntax: NodeRef,
}

impl AstNode for Callexp {
    open spec fn spec_cast(cst: &Cst, syntax: NodeRef) -> Option<Self> {
        if cst.rule_at(syntax) == Some(Rule::Callexp) {
            Some(Callexp { syntax })
        } else {
            None
        }
    }

    open spec fn spec_syntax(&self) -> NodeRef {
        self.syntax
    }

    proof fn lemma_cast(cst: &Cst, syntax: NodeRef) {
    }

    fn cast(cst: &Cst, syntax: NodeRef) -> (r: Option<Self>) {
        if cst.match_rule(syntax, Rule::Callexp) {
            Some(Callexp { syntax })
        } else {
            None
        }
    }

    fn syntax(&self) -> (r: NodeRef) {
        self.syntax
    }
}

/// A syntax node of rule `ArgsExplist`.
#[derive(Debug, Clone, Copy, PartialEq, Eq, Hash, PartialOrd, Ord, Structural)]
pub struct ArgsExplist {
    pub syntax: NodeRef,
}

impl AstNode for ArgsExplist {
    open spec fn spec_cast(cst: &Cst, syntax: NodeRef) -> Option<Self> {
        if cst.rule_at(syntax) == Some(Rule::ArgsExplist) {
            Some(ArgsExplist { syntax })
        } else {
            None
        }
    }

    open spec fn spec_syntax(&self) -> NodeRef {
        self.syntax
    }

    proof fn lemma_cast(cst: &Cst, syntax: NodeRef) {
    }

    fn cast(cst: &Cst, syntax: NodeRef) -> (r: Option<Self>) {
        if cst.match_rule(syntax, Rule::ArgsExplist) {
            Some(ArgsExplist { syntax })
        } else {
            None
        }
    }

    fn syntax(&self) -> (r: NodeRef) {
        self.syntax
    }
}

/// A syntax node of rule `ArgsSingle`.
#[derive(Debug, Clone, Copy, PartialEq, Eq, Hash, PartialOrd, Ord, Structural)]
pub struct ArgsSingle {
    pub syntax: NodeRef,
}

impl AstNode for ArgsSingle {
    open spec fn spec_cast(cst: &Cst, syntax: NodeRef) -> Option<Self> {
        if cst.rule_at(syntax) == Some(Rule::ArgsSingle) {
            Some(ArgsSingle { syntax })
        } else {
            None
        }
    }

    open spec fn spec_syntax(&self) -> NodeRef {
        self.syntax
    }

    proof fn lemma_cast(cst: &Cst, syntax: NodeRef) {
    }

    fn cast(cst: &Cst, syntax: NodeRef) -> (r: Option<Self>) {
        if cst.match_rule(syntax, Rule::ArgsSingle) {
            Some(ArgsSingle { syntax })
        } else {
            None
        }
    }

    fn syntax(&self) -> (r: NodeRef) {
        self.syntax
    }
}

/// A syntax node of rule `Functiondef`.
#[derive(Debug, Clone, Copy, PartialEq, Eq, Hash, PartialOrd, Ord, Structural)]
pub struct Functiondef {
    pub syntax: NodeRef,
}

impl AstNode for Functiondef {
    open spec fn spec_cast(cst: &Cst, syntax: NodeRef) -> Option<Self> {
        if cst.rule_at(syntax) == Some(Rule::Functiondef) {
            Some(Functiondef { syntax })
        } else {
            None
        }
    }

    open spec fn spec_syntax(&self) -> NodeRef {
        self.syntax
    }

    proof fn lemma_cast(cst: &Cst, syntax: NodeRef) {
    }

    fn cast(cst: &Cst, syntax: NodeRef) -> (r: Option<Self>) {
        if cst.match_rule(syntax, Rule::Functiondef) {
            Some(Functiondef { syntax })
        } else {
            None
        }
    }

    fn syntax(&self) -> (r: NodeRef) {
        self.syntax
    }
}

/// A syntax node of rule `Tableconstructor`.
#[derive(Debug, Clone, Copy, PartialEq, Eq, Hash, PartialOrd, Ord, Structural)]
pub struct Tableconstructor {
    pub syntax: NodeRef,
}

impl AstNode for Tableconstructor {
    open spec fn spec_cast(cst: &Cst, syntax: NodeRef) -> Option<Self> {
        if cst.rule_at(syntax) == Some(Rule::Tableconstructor) {
            Some(Tableconstructor { syntax })
        } else {
            None
        }
    }

    open spec fn spec_syntax(&self) -> NodeRef {
        self.syntax
    }

    proof fn lemma_cast(cst: &Cst, syntax: NodeRef) {
    }

    fn cast(cst: &Cst, syntax: NodeRef) -> (r: Option<Self>) {
        if cst.match_rule(syntax, Rule::Tableconstructor) {
            Some(Tableconstructor { syntax })
        } else {
            None
        }
    }

    fn syntax(&self) -> (r: NodeRef) {
        self.syntax
    }
}

/// A syntax node of rule `KeyvalField`.
#[derive(Debug, Clone, Copy, PartialEq, Eq, Hash, PartialOrd, Ord, Structural)]
pub struct KeyvalField {
    pub syntax: NodeRef,
}

impl AstNode for KeyvalField {
    open spec fn spec_cast(cst: &Cst, syntax: NodeRef) -> Option<Self> {
        if cst.rule_at(syntax) == Some(Rule::KeyvalField) {
            Some(KeyvalField { syntax })
        } else {
            None
        }
    }

    open spec fn spec_syntax(&self) -> NodeRef {
        self.syntax
    }

    proof fn lemma_cast(cst: &Cst, syntax: NodeRef) {
    }

    fn cast(cst: &Cst, syntax: NodeRef) -> (r: Option<Self>) {
        if cst.match_rule(syntax, Rule::KeyvalField) {
            Some(KeyvalField { syntax })
        } else {
            None
        }
    }

    fn syntax(&self) -> (r: NodeRef) {
        self.syntax
    }
}

/// A syntax node of rule `NamedField`.
#[derive(Debug, Clone, Copy, PartialEq, Eq, Hash, PartialOrd, Ord, Structural)]
pub struct NamedField {
    pub syntax: NodeRef,
}

impl AstNode for NamedField {
    open spec fn spec_cast(cst: &Cst, syntax: NodeRef) -> Option<Self> {
        if cst.rule_at(syntax) == Some(Rule::NamedField) {
            Some(NamedField { syntax })
        } else {
            None
        }
    }

    open spec fn spec_syntax(&self) -> NodeRef {
        self.syntax
    }

    proof fn lemma_cast(cst: &Cst, syntax: NodeRef) {
    }

    fn cast(cst: &Cst, syntax: NodeRef) -> (r: Option<Self>) {
        if cst.match_rule(syntax, Rule::NamedField) {
            Some(NamedField { syntax })
        } else {
            None
        }
    }

    fn syntax(&self) -> (r: NodeRef) {
        self.syntax
    }
}

/// A syntax node of rule `CountedField`.
#[derive(Debug, Clone, Copy, PartialEq, Eq, Hash, PartialOrd, Ord, Structural)]
pub struct CountedField {
    pub syntax: NodeRef,
}

impl AstNode for CountedField {
    open spec fn spec_cast(cst: &Cst, syntax: NodeRef) -> Option<Self> {
        if cst.rule_at(syntax) == Some(Rule::CountedField) {
            Some(CountedField { syntax })
        } else {
            None
        }
    }

    open spec fn spec_syntax(&self) -> NodeRef {
        self.syntax
    }

    proof fn lemma_cast(cst: &Cst, syntax: NodeRef) {
    }

    fn cast(cst: &Cst, syntax: NodeRef) -> (r: Option<Self>) {
        if cst.match_rule(syntax, Rule::CountedField) {
            Some(CountedField { syntax })
        } else {
            None
        }
    }

    fn syntax(&self) -> (r: NodeRef) {
        self.syntax
    }
}

/// A syntax node of rule `Varargexp`.
#[derive(Debug, Clone, Copy, PartialEq, Eq, Hash, PartialOrd, Ord, Structural)]
pub struct Varargexp {
    pub syntax: NodeRef,
}

impl AstNode for Varargexp {
    open spec fn spec_cast(cst: &Cst, syntax: NodeRef) -> Option<Self> {
        if cst.rule_at(syntax) == Some(Rule::Varargexp) {
            Some(Varargexp { syntax })
        } else {
            None
        }
    }

    open spec fn spec_syntax(&self) -> NodeRef {
        self.syntax
    }

    proof fn lemma_cast(cst: &Cst, syntax: NodeRef) {
    }

    fn cast(cst: &Cst, syntax: NodeRef) -> (r: Option<Self>) {
        if cst.match_rule(syntax, Rule::Varargexp) {
            Some(Varargexp { syntax })
        } else {
            None
        }
    }

    fn syntax(&self) -> (r: NodeRef) {
        self.syntax
    }
}

/// A syntax node of rule `Nilexp`.
#[derive(Debug, Clone, Copy, PartialEq, Eq, Hash, PartialOrd, Ord, Structural)]
pub struct Nilexp {
    pub syntax: NodeRef,
}

impl AstNode for Nilexp {
    open spec fn spec_cast(cst: &Cst, syntax: NodeRef) -> Option<Self> {
        if cst.rule_at(syntax) == Some(Rule::Nilexp) {
            Some(Nilexp { syntax })
        } else {
            None
        }
    }

    open spec fn spec_syntax(&self) -> NodeRef {
        self.syntax
    }

    proof fn lemma_cast(cst: &Cst, syntax: NodeRef) {
    }

    fn cast(cst: &Cst, syntax: NodeRef) -> (r: Option<Self>) {
        if cst.match_rule(syntax, Rule::Nilexp) {
            Some(Nilexp { syntax })
        } else {
            None
        }
    }

    fn syntax(&self) -> (r: NodeRef) {
        self.syntax
    }
}

/// A syntax node of rule `Trueexp`.
#[derive(Debug, Clone, Copy, PartialEq, Eq, Hash, PartialOrd, Ord, Structural)]
pub struct Trueexp {
    pub syntax: NodeRef,
}

impl AstNode for Trueexp {
    open spec fn spec_cast(cst: &Cst, syntax: NodeRef) -> Option<Self> {
        if cst.rule_at(syntax) == Some(Rule::Trueexp) {
            Some(Trueexp { syntax })
        } else {
            None
        }
    }

    open spec fn spec_syntax(&self) -> NodeRef {
        self.syntax
    }

    proof fn lemma_cast(cst: &Cst, syntax: NodeRef) {
    }

    fn cast(cst: &Cst, syntax: NodeRef) -> (r: Option<Self>) {
        if cst.match_rule(syntax, Rule::Trueexp) {
            Some(Trueexp { syntax })
        } else {
            None
        }
    }

    fn syntax(&self) -> (r: NodeRef) {
        self.syntax
    }
}

/// A syntax node of rule `Falseexp`.
#[derive(Debug, Clone, Copy, PartialEq, Eq, Hash, PartialOrd, Ord, Structural)]
pub struct Falseexp {
    pub syntax: NodeRef,
}

impl AstNode for Falseexp {
    open spec fn spec_cast(cst: &Cst, syntax: NodeRef) -> Option<Self> {
        if cst.rule_at(syntax) == Some(Rule::Falseexp) {
            Some(Falseexp { syntax })
        } else {
            None
        }
    }

    open spec fn spec_syntax(&self) -> NodeRef {
        self.syntax
    }

    proof fn lemma_cast(cst: &Cst, syntax: NodeRef) {
    }

    fn cast(cst: &Cst, syntax: NodeRef) -> (r: Option<Self>) {
        if cst.match_rule(syntax, Rule::Falseexp) {
            Some(Falseexp { syntax })
        } else {
            None
        }
    }

    fn syntax(&self) -> (r: NodeRef) {
        self.syntax
    }
}

/// A syntax node of rule `Stringexp`.
#[derive(Debug, Clone, Copy, PartialEq, Eq, Hash, PartialOrd, Ord, Structural)]
pub struct Stringexp {
    pub syntax: NodeRef,
}

impl AstNode for Stringexp {
    open spec fn spec_cast(cst: &Cst, syntax: NodeRef) -> Option<Self> {
        if cst.rule_at(syntax) == Some(Rule::Stringexp) {
            Some(Stringexp { syntax })
        } else {
            None
        }
    }

    open spec fn spec_syntax(&self) -> NodeRef {
        self.syntax
    }

    proof fn lemma_cast(cst: &Cst, syntax: NodeRef) {
    }

    fn cast(cst: &Cst, syntax: NodeRef) -> (r: Option<Self>) {
        if cst.match_rule(syntax, Rule::Stringexp) {
            Some(Stringexp { syntax })
        } else {
            None
        }
    }

    fn syntax(&self) -> (r: NodeRef) {
        self.syntax
    }
}

/// A syntax node of rule `Decintexp`.
#[derive(Debug, Clone, Copy, PartialEq, Eq, Hash, PartialOrd, Ord, Structural)]
pub struct Decintexp {
    pub syntax: NodeRef,
}

impl AstNode for Decintexp {
    open spec fn spec_cast(cst: &Cst, syntax: NodeRef) -> Option<Self> {
        if cst.rule_at(syntax) == Some(Rule::Decintexp) {
            Some(Decintexp { syntax })
        } else {
            None
        }
    }

    open spec fn spec_syntax(&self) -> NodeRef {
        self.syntax
    }

    proof fn lemma_cast(cst: &Cst, syntax: NodeRef) {
    }

    fn cast(cst: &Cst, syntax: NodeRef) -> (r: Option<Self>) {
        if cst.match_rule(syntax, Rule::Decintexp) {
            Some(Decintexp { syntax })
        } else {
            None
        }
    }

    fn syntax(&self) -> (r: NodeRef) {
        self.syntax
    }
}

/// A syntax node of rule `Hexintexp`.
#[derive(Debug, Clone, Copy, PartialEq, Eq, Hash, PartialOrd, Ord, Structural)]
pub struct Hexintexp {
    pub syntax: NodeRef,
}

impl AstNode for Hexintexp {
    open spec fn spec_cast(cst: &Cst, syntax: NodeRef) -> Option<Self> {
        if cst.rule_at(syntax) == Some(Rule::Hexintexp) {
            Some(Hexintexp { syntax })
        } else {
            None
        }
    }

    open spec fn spec_syntax(&self) -> NodeRef {
        self.syntax
    }

    proof fn lemma_cast(cst: &Cst, syntax: NodeRef) {
    }

    fn cast(cst: &Cst, syntax: NodeRef) -> (r: Option<Self>) {
        if cst.match_rule(syntax, Rule::Hexintexp) {
            Some(Hexintexp { syntax })
        } else {
            None
        }
    }

    fn syntax(&self) -> (r: NodeRef) {
        self.syntax
    }
}

/// A syntax node of rule `Decfloatexp`.
#[derive(Debug, Clone, Copy, PartialEq, Eq, Hash, PartialOrd, Ord, Structural)]
pub struct Decfloatexp {
    pub syntax: NodeRef,
}

impl AstNode for Decfloatexp {
    open spec fn spec_cast(cst: &Cst, syntax: NodeRef) -> Option<Self> {
        if cst.rule_at(syntax) == Some(Rule::Decfloatexp) {
            Some(Decfloatexp { syntax })
        } else {
            None
        }
    }

    open spec fn spec_syntax(&self) -> NodeRef {
        self.syntax
    }

    proof fn lemma_cast(cst: &Cst, syntax: NodeRef) {
    }

    fn cast(cst: &Cst, syntax: NodeRef) -> (r: Option<Self>) {
        if cst.match_rule(syntax, Rule::Decfloatexp) {
            Some(Decfloatexp { syntax })
        } else {
            None
        }
    }

    fn syntax(&self) -> (r: NodeRef) {
        self.syntax
    }
}

/// A syntax node of rule `Hexfloatexp`.
#[derive(Debug, Clone, Copy, PartialEq, Eq, Hash, PartialOrd, Ord, Structural)]
pub struct Hexfloatexp {
    pub syntax: NodeRef,
}

impl AstNode for Hexfloatexp {
    open spec fn spec_cast(cst: &Cst, syntax: NodeRef) -> Option<Self> {
        if cst.rule_at(syntax) == Some(Rule::Hexfloatexp) {
            Some(Hexfloatexp { syntax })
        } else {
            None
        }
    }

    open spec fn spec_syntax(&self) -> NodeRef {
        self.syntax
    }

    proof fn lemma_cast(cst: &Cst, syntax: NodeRef) {
    }

    fn cast(cst: &Cst, syntax: NodeRef) -> (r: Option<Self>) {
        if cst.match_rule(syntax, Rule::Hexfloatexp) {
            Some(Hexfloatexp { syntax })
        } else {
            None
        }
    }

    fn syntax(&self) -> (r: NodeRef) {
        self.syntax
    }
}

/// A syntax node of one of the rules that a `Stat` can be.
#[derive(Debug, Clone, Copy, PartialEq, Eq, Hash, PartialOrd, Ord, Structural)]
pub enum Stat {
    Emptystat(Emptystat),
    Expstat(Expstat),
    Assignstat(Assignstat),
    Label(Label),
    Breakstat(Breakstat),
    Gotostat(Gotostat),
    Dostat(Dostat),
    Whilestat(Whilestat),
    Repeatstat(Repeatstat),
    Ifstat(Ifstat),
    NumericForstat(NumericForstat),
    GenericForstat(GenericForstat),
    Funcstat(Funcstat),
    Localvarstat(Localvarstat),
    Localfuncstat(Localfuncstat),
    Globalvarstat(Globalvarstat),
    Globalfuncstat(Globalfuncstat),
    CollectiveGlobalvarstat(CollectiveGlobalvarstat),
    Retstat(Retstat),
}

impl AstNode for Stat {
    open spec fn spec_cast(cst: &Cst, syntax: NodeRef) -> Option<Self> {
        match cst.rule_at(syntax) {
            Some(Rule::Emptystat) => Some(Stat::Emptystat(Emptystat { syntax })),
            Some(Rule::Expstat) => Some(Stat::Expstat(Expstat { syntax })),
            Some(Rule::Assignstat) => Some(Stat::Assignstat(Assignstat { syntax })),
            Some(Rule::Label) => Some(Stat::Label(Label { syntax })),
            Some(Rule::Breakstat) => Some(Stat::Breakstat(Breakstat { syntax })),
            Some(Rule::Gotostat) => Some(Stat::Gotostat(Gotostat { syntax })),
            Some(Rule::Dostat) => Some(Stat::Dostat(Dostat { syntax })),
            Some(Rule::Whilestat) => Some(Stat::Whilestat(Whilestat { syntax })),
            Some(Rule::Repeatstat) => Some(Stat::Repeatstat(Repeatstat { syntax })),
            Some(Rule::Ifstat) => Some(Stat::Ifstat(Ifstat { syntax })),
            Some(Rule::NumericForstat) => Some(Stat::NumericForstat(NumericForstat { syntax })),
            Some(Rule::GenericForstat) => Some(Stat::GenericForstat(GenericForstat { syntax })),
            Some(Rule::Funcstat) => Some(Stat::Funcstat(Funcstat { syntax })),
            Some(Rule::Localvarstat) => Some(Stat::Localvarstat(Localvarstat { syntax })),
            Some(Rule::Localfuncstat) => Some(Stat::Localfuncstat(Localfuncstat { syntax })),
            Some(Rule::Globalvarstat) => Some(Stat::Globalvarstat(Globalvarstat { syntax })),
            Some(Rule::Globalfuncstat) => Some(Stat::Globalfuncstat(Globalfuncstat { syntax })),
            Some(Rule::CollectiveGlobalvarstat) => Some(Stat::CollectiveGlobalvarstat(CollectiveGlobalvarstat { syntax })),
            Some(Rule::Retstat) => Some(Stat::Retstat(Retstat { syntax })),
            _ => None,
        }
    }

    open spec fn spec_syntax(&self) -> NodeRef {
        match self {
            Stat::Emptystat(node) => node.syntax,
            Stat::Expstat(node) => node.syntax,
            Stat::Assignstat(node) => node.syntax,
            Stat::Label(node) => node.syntax,
            Stat::Breakstat(node) => node.syntax,
            Stat::Gotostat(node) => node.syntax,
            Stat::Dostat(node) => node.syntax,
            Stat::Whilestat(node) => node.syntax,
            Stat::Repeatstat(node) => node.syntax,
            Stat::Ifstat(node) => node.syntax,
            Stat::NumericForstat(node) => node.syntax,
            Stat::GenericForstat(node) => node.syntax,
            Stat::Funcstat(node) => node.syntax,
            Stat::Localvarstat(node) => node.syntax,
            Stat::Localfuncstat(node) => node.syntax,
            Stat::Globalvarstat(node) => node.syntax,
            Stat::Globalfuncstat(node) => node.syntax,
            Stat::CollectiveGlobalvarstat(node) => node.syntax,
            Stat::Retstat(node) => node.syntax,
        }
    }

    proof fn lemma_cast(cst: &Cst, syntax: NodeRef) {
    }

    fn cast(cst: &Cst, syntax: NodeRef) -> (r: Option<Self>) {
        if syntax.0 < cst.len() {
            match cst.get(syntax) {
                Node::Rule(Rule::Emptystat, _) => Some(Stat::Emptystat(Emptystat { syntax })),
                Node::Rule(Rule::Expstat, _) => Some(Stat::Expstat(Expstat { syntax })),
                Node::Rule(Rule::Assignstat, _) => Some(Stat::Assignstat(Assignstat { syntax })),
                Node::Rule(Rule::Label, _) => Some(Stat::Label(Label { syntax })),
                Node::Rule(Rule::Breakstat, _) => Some(Stat::Breakstat(Breakstat { syntax })),
                Node::Rule(Rule::Gotostat, _) => Some(Stat::Gotostat(Gotostat { syntax })),
                Node::Rule(Rule::Dostat, _) => Some(Stat::Dostat(Dostat { syntax })),
                Node::Rule(Rule::Whilestat, _) => Some(Stat::Whilestat(Whilestat { syntax })),
                Node::Rule(Rule::Repeatstat, _) => Some(Stat::Repeatstat(Repeatstat { syntax })),
                Node::Rule(Rule::Ifstat, _) => Some(Stat::Ifstat(Ifstat { syntax })),
                Node::Rule(Rule::NumericForstat, _) => Some(Stat::NumericForstat(NumericForstat { syntax })),
                Node::Rule(Rule::GenericForstat, _) => Some(Stat::GenericForstat(GenericForstat { syntax })),
                Node::Rule(Rule::Funcstat, _) => Some(Stat::Funcstat(Funcstat { syntax })),
                Node::Rule(Rule::Localvarstat, _) => Some(Stat::Localvarstat(Localvarstat { syntax })),
                Node::Rule(Rule::Localfuncstat, _) => Some(Stat::Localfuncstat(Localfuncstat { syntax })),
                Node::Rule(Rule::Globalvarstat, _) => Some(Stat::Globalvarstat(Globalvarstat { syntax })),
                Node::Rule(Rule::Globalfuncstat, _) => Some(Stat::Globalfuncstat(Globalfuncstat { syntax })),
                Node::Rule(Rule::CollectiveGlobalvarstat, _) => Some(Stat::CollectiveGlobalvarstat(CollectiveGlobalvarstat { syntax })),
                Node::Rule(Rule::Retstat, _) => Some(Stat::Retstat(Retstat { syntax })),
                _ => None,
            }
        } else {
            None
        }
    }

    fn syntax(&self) -> (r: NodeRef) {
        match self {
            Stat::Emptystat(node) => node.syntax,
            Stat::Expstat(node) => node.syntax,
            Stat::Assignstat(node) => node.syntax,
            Stat::Label(node) => node.syntax,
            Stat::Breakstat(node) => node.syntax,
            Stat::Gotostat(node) => node.syntax,
            Stat::Dostat(node) => node.syntax,
            Stat::Whilestat(node) => node.syntax,
            Stat::Repeatstat(node) => node.syntax,
            Stat::Ifstat(node) => node.syntax,
            Stat::NumericForstat(node) => node.syntax,
            Stat::GenericForstat(node) => node.syntax,
            Stat::Funcstat(node) => node.syntax,
            Stat::Localvarstat(node) => node.syntax,
            Stat::Localfuncstat(node) => node.syntax,
            Stat::Globalvarstat(node) => node.syntax,
            Stat::Globalfuncstat(node) => node.syntax,
            Stat::CollectiveGlobalvarstat(node) => node.syntax,
            Stat::Retstat(node) => node.syntax,
        }
    }
}

/// A syntax node of one of the rules that a `Args` can be.
#[derive(Debug, Clone, Copy, PartialEq, Eq, Hash, PartialOrd, Ord, Structural)]
pub enum Args {
    ArgsExplist(ArgsExplist),
    ArgsSingle(ArgsSingle),
}

impl AstNode for Args {
    open spec fn spec_cast(cst: &Cst, syntax: NodeRef) -> Option<Self> {
        match cst.rule_at(syntax) {
            Some(Rule::ArgsExplist) => Some(Args::ArgsExplist(ArgsExplist { syntax })),
            Some(Rule::ArgsSingle) => Some(Args::ArgsSingle(ArgsSingle { syntax })),
            _ => None,
        }
    }

    open spec fn spec_syntax(&self) -> NodeRef {
        match self {
            Args::ArgsExplist(node) => node.syntax,
            Args::ArgsSingle(node) => node.syntax,
        }
    }

    proof fn lemma_cast(cst: &Cst, syntax: NodeRef) {
    }

    fn cast(cst: &Cst, syntax: NodeRef) -> (r: Option<Self>) {
        if syntax.0 < cst.len() {
            match cst.get(syntax) {
                Node::Rule(Rule::ArgsExplist, _) => Some(Args::ArgsExplist(ArgsExplist { syntax })),
                Node::Rule(Rule::ArgsSingle, _) => Some(Args::ArgsSingle(ArgsSingle { syntax })),
                _ => None,
            }
        } else {
            None
        }
    }

    fn syntax(&self) -> (r: NodeRef) {
        match self {
            Args::ArgsExplist(node) => node.syntax,
            Args::ArgsSingle(node) => node.syntax,
        }
    }
}

/// A syntax node of one of the rules that a `Field` can be.
#[derive(Debug, Clone, Copy, PartialEq, Eq, Hash, PartialOrd, Ord, Structural)]
pub enum Field {
    KeyvalField(KeyvalField),
    NamedField(NamedField),
    CountedField(CountedField),
}

impl AstNode for Field {
    open spec fn spec_cast(cst: &Cst, syntax: NodeRef) -> Option<Self> {
        match cst.rule_at(syntax) {
            Some(Rule::KeyvalField) => Some(Field::KeyvalField(KeyvalField { syntax })),
            Some(Rule::NamedField) => Some(Field::NamedField(NamedField { syntax })),
            Some(Rule::CountedField) => Some(Field::CountedField(CountedField { syntax })),
            _ => None,
        }
    }

    open spec fn spec_syntax(&self) -> NodeRef {
        match self {
            Field::KeyvalField(node) => node.syntax,
            Field::NamedField(node) => node.syntax,
            Field::CountedField(node) => node.syntax,
        }
    }

    proof fn lemma_cast(cst: &Cst, syntax: NodeRef) {
    }

    fn cast(cst: &Cst, syntax: NodeRef) -> (r: Option<Self>) {
        if syntax.0 < cst.len() {
            match cst.get(syntax) {
                Node::Rule(Rule::KeyvalField, _) => Some(Field::KeyvalField(KeyvalField { syntax })),
                Node::Rule(Rule::NamedField, _) => Some(Field::NamedField(NamedField { syntax })),
                Node::Rule(Rule::CountedField, _) => Some(Field::CountedField(CountedField { syntax })),
                _ => None,
            }
        } else {
            None
        }
    }

    fn syntax(&self) -> (r: NodeRef) {
        match self {
            Field::KeyvalField(node) => node.syntax,
            Field::NamedField(node) => node.syntax,
            Field::CountedField(node) => node.syntax,
        }
    }
}

/// A syntax node of one of the rules that a `Exp` can be.
#[derive(Debug, Clone, Copy, PartialEq, Eq, Hash, PartialOrd, Ord, Structural)]
pub enum Exp {
    Binexp(Binexp),
    Unaryexp(Unaryexp),
    Nameexp(Nameexp),
    Parenexp(Parenexp),
    Fieldexp(Fieldexp),
    Indexexp(Indexexp),
    Callexp(Callexp),
    Functiondef(Functiondef),
    Tableconstructor(Tableconstructor),
    Varargexp(Varargexp),
    Nilexp(Nilexp),
    Trueexp(Trueexp),
    Falseexp(Falseexp),
    Stringexp(Stringexp),
    Decintexp(Decintexp),
    Hexintexp(Hexintexp),
    Decfloatexp(Decfloatexp),
    Hexfloatexp(Hexfloatexp),
}

impl AstNode for Exp {
    open spec fn spec_cast(cst: &Cst, syntax: NodeRef) -> Option<Self> {
        match cst.rule_at(syntax) {
            Some(Rule::Binexp) => Some(Exp::Binexp(Binexp { syntax })),
            Some(Rule::Unaryexp) => Some(Exp::Unaryexp(Unaryexp { syntax })),
            Some(Rule::Nameexp) => Some(Exp::Nameexp(Nameexp { syntax })),
            Some(Rule::Parenexp) => Some(Exp::Parenexp(Parenexp { syntax })),
            Some(Rule::Fieldexp) => Some(Exp::Fieldexp(Fieldexp { syntax })),
            Some(Rule::Indexexp) => Some(Exp::Indexexp(Indexexp { syntax })),
            Some(Rule::Callexp) => Some(Exp::Callexp(Callexp { syntax })),
            Some(Rule::Functiondef) => Some(Exp::Functiondef(Functiondef { syntax })),
            Some(Rule::Tableconstructor) => Some(Exp::Tableconstructor(Tableconstructor { syntax })),
            Some(Rule::Varargexp) => Some(Exp::Varargexp(Varargexp { syntax })),
            Some(Rule::Nilexp) => Some(Exp::Nilexp(Nilexp { syntax })),
            Some(Rule::Trueexp) => Some(Exp::Trueexp(Trueexp { syntax })),
            Some(Rule::Falseexp) => Some(Exp::Falseexp(Falseexp { syntax })),
            Some(Rule::Stringexp) => Some(Exp::Stringexp(Stringexp { syntax })),
            Some(Rule::Decintexp) => Some(Exp::Decintexp(Decintexp { syntax })),
            Some(Rule::Hexintexp) => Some(Exp::Hexintexp(Hexintexp { syntax })),
            Some(Rule::Decfloatexp) => Some(Exp::Decfloatexp(Decfloatexp { syntax })),
            Some(Rule::Hexfloatexp) => Some(Exp::Hexfloatexp(Hexfloatexp { syntax })),
            _ => None,
        }
    }

    open spec fn spec_syntax(&self) -> NodeRef {
        match self {
            Exp::Binexp(node) => node.syntax,
            Exp::Unaryexp(node) => node.syntax,
            Exp::Nameexp(node) => node.syntax,
            Exp::Parenexp(node) => node.syntax,
            Exp::Fieldexp(node) => node.syntax,
            Exp::Indexexp(node) => node.syntax,
            Exp::Callexp(node) => node.syntax,
            Exp::Functiondef(node) => node.syntax,
            Exp::Tableconstructor(node) => node.syntax,
            Exp::Varargexp(node) => node.syntax,
            Exp::Nilexp(node) => node.syntax,
            Exp::Trueexp(node) => node.syntax,
            Exp::Falseexp(node) => node.syntax,
            Exp::Stringexp(node) => node.syntax,
            Exp::Decintexp(node) => node.syntax,
            Exp::Hexintexp(node) => node.syntax,
            Exp::Decfloatexp(node) => node.syntax,
            Exp::Hexfloatexp(node) => node.syntax,
        }
    }

    proof fn lemma_cast(cst: &Cst, syntax: NodeRef) {
    }

    fn cast(cst: &Cst, syntax: NodeRef) -> (r: Option<Self>) {
        if syntax.0 < cst.len() {
            match cst.get(syntax) {
                Node::Rule(Rule::Binexp, _) => Some(Exp::Binexp(Binexp { syntax })),
                Node::Rule(Rule::Unaryexp, _) => Some(Exp::Unaryexp(Unaryexp { syntax })),
                Node::Rule(Rule::Nameexp, _) => Some(Exp::Nameexp(Nameexp { syntax })),
                Node::Rule(Rule::Parenexp, _) => Some(Exp::Parenexp(Parenexp { syntax })),
                Node::Rule(Rule::Fieldexp, _) => Some(Exp::Fieldexp(Fieldexp { syntax })),
                Node::Rule(Rule::Indexexp, _) => Some(Exp::Indexexp(Indexexp { syntax })),
                Node::Rule(Rule::Callexp, _) => Some(Exp::Callexp(Callexp { syntax })),
                Node::Rule(Rule::Functiondef, _) => Some(Exp::Functiondef(Functiondef { syntax })),
                Node::Rule(Rule::Tableconstructor, _) => Some(Exp::Tableconstructor(Tableconstructor { syntax })),
                Node::Rule(Rule::Varargexp, _) => Some(Exp::Varargexp(Varargexp { syntax })),
                Node::Rule(Rule::Nilexp, _) => Some(Exp::Nilexp(Nilexp { syntax })),
                Node::Rule(Rule::Trueexp, _) => Some(Exp::Trueexp(Trueexp { syntax })),
                Node::Rule(Rule::Falseexp, _) => Some(Exp::Falseexp(Falseexp { syntax })),
                Node::Rule(Rule::Stringexp, _) => Some(Exp::Stringexp(Stringexp { syntax })),
                Node::Rule(Rule::Decintexp, _) => Some(Exp::Decintexp(Decintexp { syntax })),
                Node::Rule(Rule::Hexintexp, _) => Some(Exp::Hexintexp(Hexintexp { syntax })),
                Node::Rule(Rule::Decfloatexp, _) => Some(Exp::Decfloatexp(Decfloatexp { syntax })),
                Node::Rule(Rule::Hexfloatexp, _) => Some(Exp::Hexfloatexp(Hexfloatexp { syntax })),
                _ => None,
            }
        } else {
            None
        }
    }

    fn syntax(&self) -> (r: NodeRef) {
        match self {
            Exp::Binexp(node) => node.syntax,
            Exp::Unaryexp(node) => node.syntax,
            Exp::Nameexp(node) => node.syntax,
            Exp::Parenexp(node) => node.syntax,
            Exp::Fieldexp(node) => node.syntax,
            Exp::Indexexp(node) => node.syntax,
            Exp::Callexp(node) => node.syntax,
            Exp::Functiondef(node) => node.syntax,
            Exp::Tableconstructor(node) => node.syntax,
            Exp::Varargexp(node) => node.syntax,
            Exp::Nilexp(node) => node.syntax,
            Exp::Trueexp(node) => node.syntax,
            Exp::Falseexp(node) => node.syntax,
            Exp::Stringexp(node) => node.syntax,
            Exp::Decintexp(node) => node.syntax,
            Exp::Hexintexp(node) => node.syntax,
            Exp::Decfloatexp(node) => node.syntax,
            Exp::Hexfloatexp(node) => node.syntax,
        }
    }
}
impl Chunk {
    /// The block of the chunk.
    pub fn block(&self, cst: &Cst) -> (r: Option<Block>)
        ensures
            r == cst.spec_child_node::<Block>(self.syntax),
            r matches Some(x) ==> after(cst, x.spec_syntax(), self.syntax),
    {
        cst.child_node(self.syntax)
    }
}

impl Block {
    /// The statements of the block, in order.
    pub fn stats(&self, cst: &Cst) -> (r: Vec<Stat>)
        ensures
            r@ == cst.spec_child_nodes::<Stat>(self.syntax),
            forall|i: int| 0 <= i < r@.len() ==> after(cst, #[trigger] r@[i].spec_syntax(), self.syntax),
    {
        cst.child_node_iter(self.syntax)
    }

    /// The return statement that ends the block.
    pub fn retstat(&self, cst: &Cst) -> (r: Option<Retstat>)
        ensures
            r == cst.spec_child_node::<Retstat>(self.syntax),
            r matches Some(x) ==> after(cst, x.spec_syntax(), self.syntax),
    {
        cst.child_node(self.syntax)
    }
}

impl Expstat {
    /// The expression of the statement.
    pub fn exp(&self, cst: &Cst) -> (r: Option<Exp>)
        ensures
            r == cst.spec_child_node::<Exp>(self.syntax),
            r matches Some(x) ==> after(cst, x.spec_syntax(), self.syntax),
    {
        cst.child_node(self.syntax)
    }
}

impl Ifstat {
    /// The condition of the `if` branch.
    pub fn cond(&self, cst: &Cst) -> (r: Option<Exp>)
        ensures
            r == cst.spec_child_node::<Exp>(self.syntax),
            r matches Some(x) ==> after(cst, x.spec_syntax(), self.syntax),
    {
        cst.child_node(self.syntax)
    }

    /// The block of the `if` branch.
    pub fn then_block(&self, cst: &Cst) -> (r: Option<Block>)
        ensures
            r == cst.spec_child_node::<Block>(self.syntax),
            r matches Some(x) ==> after(cst, x.spec_syntax(), self.syntax),
    {
        cst.child_node(self.syntax)
    }

    /// The `elseif` branches, in order.
    pub fn elif_branches(&self, cst: &Cst) -> (r: Vec<ElifBranch>)
        ensures
            r@ == cst.spec_child_nodes::<ElifBranch>(self.syntax),
            forall|i: int| 0 <= i < r@.len() ==> after(cst, #[trigger] r@[i].spec_syntax(), self.syntax),
    {
        cst.child_node_iter(self.syntax)
    }

    /// The `else` branch.
    pub fn else_branch(&self, cst: &Cst) -> (r: Option<ElseBranch>)
        ensures
            r == cst.spec_child_node::<ElseBranch>(self.syntax),
            r matches Some(x) ==> after(cst, x.spec_syntax(), self.syntax),
    {
        cst.child_node(self.syntax)
    }
}

impl ElifBranch {
    /// The condition of the branch.
    pub fn cond(&self, cst: &Cst) -> (r: Option<Exp>)
        ensures
            r == cst.spec_child_node::<Exp>(self.syntax),
            r matches Some(x) ==> after(cst, x.spec_syntax(), self.syntax),
    {
        cst.child_node(self.syntax)
    }

    /// The block of the branch.
    pub fn block(&self, cst: &Cst) -> (r: Option<Block>)
        ensures
            r == cst.spec_child_node::<Block>(self.syntax),
            r matches Some(x) ==> after(cst, x.spec_syntax(), self.syntax),
    {
        cst.child_node(self.syntax)
    }
}

impl ElseBranch {
    /// The block of the branch.
    pub fn block(&self, cst: &Cst) -> (r: Option<Block>)
        ensures
            r == cst.spec_child_node::<Block>(self.syntax),
            r matches Some(x) ==> after(cst, x.spec_syntax(), self.syntax),
    {
        cst.child_node(self.syntax)
    }
}

impl NumericForstat {
    /// The loop variable.
    pub fn loopvar(&self, cst: &Cst) -> (r: Option<Loopvar>)
        ensures
            r == cst.spec_child_node::<Loopvar>(self.syntax),
            r matches Some(x) ==> after(cst, x.spec_syntax(), self.syntax),
    {
        cst.child_node(self.syntax)
    }

    /// The loop body.
    pub fn block(&self, cst: &Cst) -> (r: Option<Block>)
        ensures
            r == cst.spec_child_node::<Block>(self.syntax),
            r matches Some(x) ==> after(cst, x.spec_syntax(), self.syntax),
    {
        cst.child_node(self.syntax)
    }
}

impl GenericForstat {
    /// The loop variables, in order.
    pub fn loopvars(&self, cst: &Cst) -> (r: Vec<Loopvar>)
        ensures
            r@ == cst.spec_child_nodes::<Loopvar>(self.syntax),
            forall|i: int| 0 <= i < r@.len() ==> after(cst, #[trigger] r@[i].spec_syntax(), self.syntax),
    {
        cst.child_node_iter(self.syntax)
    }

    /// The expressions of the `in` list.
    pub fn exps(&self, cst: &Cst) -> (r: Vec<Exp>)
        ensures
            r@ == cst.spec_explist_exps(self.syntax),
            forall|i: int| 0 <= i < r@.len() ==> after(cst, #[trigger] r@[i].spec_syntax(), self.syntax),
    {
        cst.explist_exps(self.syntax)
    }

    /// The loop body.
    pub fn block(&self, cst: &Cst) -> (r: Option<Block>)
        ensures
            r == cst.spec_child_node::<Block>(self.syntax),
            r matches Some(x) ==> after(cst, x.spec_syntax(), self.syntax),
    {
        cst.child_node(self.syntax)
    }
}

impl Loopvar {
    /// The name of the variable.
    pub fn name<'c>(&self, cst: &'c Cst) -> (r: Option<(&'c [u8], Span)>)
        ensures
            r is Some <==> cst.spec_child_token(self.syntax, Token::Name) is Some,
            r matches Some((t, s)) ==> s == cst.node_span(
                cst.spec_child_token(self.syntax, Token::Name)->0,
            ) && t@ == cst.text(s),
    {
        cst.child_token(self.syntax, Token::Name)
    }
}

impl Whilestat {
    /// The loop condition.
    pub fn cond(&self, cst: &Cst) -> (r: Option<Exp>)
        ensures
            r == cst.spec_child_node::<Exp>(self.syntax),
            r matches Some(x) ==> after(cst, x.spec_syntax(), self.syntax),
    {
        cst.child_node(self.syntax)
    }

    /// The loop body.
    pub fn block(&self, cst: &Cst) -> (r: Option<Block>)
        ensures
            r == cst.spec_child_node::<Block>(self.syntax),
            r matches Some(x) ==> after(cst, x.spec_syntax(), self.syntax),
    {
        cst.child_node(self.syntax)
    }
}

impl Repeatstat {
    /// The loop condition.
    pub fn cond(&self, cst: &Cst) -> (r: Option<Exp>)
        ensures
            r == cst.spec_child_node::<Exp>(self.syntax),
            r matches Some(x) ==> after(cst, x.spec_syntax(), self.syntax),
    {
        cst.child_node(self.syntax)
    }

    /// The loop body.
    pub fn block(&self, cst: &Cst) -> (r: Option<Block>)
        ensures
            r == cst.spec_child_node::<Block>(self.syntax),
            r matches Some(x) ==> after(cst, x.spec_syntax(), self.syntax),
    {
        cst.child_node(self.syntax)
    }
}

impl Dostat {
    /// The block of the statement.
    pub fn block(&self, cst: &Cst) -> (r: Option<Block>)
        ensures
            r == cst.spec_child_node::<Block>(self.syntax),
            r matches Some(x) ==> after(cst, x.spec_syntax(), self.syntax),
    {
        cst.child_node(self.syntax)
    }
}

impl Assignstat {
    /// The assigned expressions, in order.
    pub fn lhs_exps(&self, cst: &Cst) -> (r: Vec<Exp>)
        ensures
            r@ == cst.spec_child_nodes::<Exp>(self.syntax),
            forall|i: int| 0 <= i < r@.len() ==> after(cst, #[trigger] r@[i].spec_syntax(), self.syntax),
    {
        cst.child_node_iter(self.syntax)
    }

    /// The span of the `=` token.
    pub fn equal_span(&self, cst: &Cst) -> (r: Option<Span>)
        ensures
            r is Some <==> cst.spec_child_token(self.syntax, Token::Equal) is Some,
            r matches Some(s) ==> s == cst.node_span(cst.spec_child_token(self.syntax, Token::Equal)->0),
            r matches Some(s) ==> cst.text(s) == seq![61u8],
    {
        let _ = cst.len();
        proof {
            lemma_first_token_of(cst, cst.spec_children(self.syntax), seq![Token::Equal]);
            if let Some(n) = cst.spec_child_token(self.syntax, Token::Equal) {
                cst.lemma_token_text(n);
            }
        }
        match cst.child_token(self.syntax, Token::Equal) {
            Some((_, span)) => Some(span),
            None => None,
        }
    }

    /// The assigned values, in order.
    pub fn rhs_exps(&self, cst: &Cst) -> (r: Vec<Exp>)
        ensures
            r@ == cst.spec_explist_exps(self.syntax),
            forall|i: int| 0 <= i < r@.len() ==> after(cst, #[trigger] r@[i].spec_syntax(), self.syntax),
    {
        cst.explist_exps(self.syntax)
    }
}

impl Funcstat {
    /// The name of the function.
    pub fn funcname(&self, cst: &Cst) -> (r: Option<Funcname>)
        ensures
            r == cst.spec_child_node::<Funcname>(self.syntax),
            r matches Some(x) ==> after(cst, x.spec_syntax(), self.syntax),
    {
        cst.child_node(self.syntax)
    }

    /// The parameter list.
    pub fn pars(&self, cst: &Cst) -> (r: Option<Pars>)
        ensures
            r == cst.spec_child_node::<Pars>(self.syntax),
            r matches Some(x) ==> after(cst, x.spec_syntax(), self.syntax),
    {
        cst.child_node(self.syntax)
    }

    /// The function body.
    pub fn block(&self, cst: &Cst) -> (r: Option<Block>)
        ensures
            r == cst.spec_child_node::<Block>(self.syntax),
            r matches Some(x) ==> after(cst, x.spec_syntax(), self.syntax),
    {
        cst.child_node(self.syntax)
    }
}

impl Funcname {
    /// The qualified part of the name.
    pub fn qualname(&self, cst: &Cst) -> (r: Option<Qualname>)
        ensures
            r == cst.spec_child_node::<Qualname>(self.syntax),
            r matches Some(x) ==> after(cst, x.spec_syntax(), self.syntax),
    {
        cst.child_node(self.syntax)
    }

    /// The method name after `:`.
    pub fn methodname<'c>(&self, cst: &'c Cst) -> (r: Option<(&'c [u8], Span)>)
        ensures
            r is Some <==> cst.spec_child_token(self.syntax, Token::Name) is Some,
            r matches Some((t, s)) ==> s == cst.node_span(
                cst.spec_child_token(self.syntax, Token::Name)->0,
            ) && t@ == cst.text(s),
    {
        cst.child_token(self.syntax, Token::Name)
    }
}

impl Pars {
    /// The named parameters, in order.
    pub fn pars(&self, cst: &Cst) -> (r: Vec<Par>)
        ensures
            r@ == cst.spec_child_nodes::<Par>(self.syntax),
            forall|i: int| 0 <= i < r@.len() ==> after(cst, #[trigger] r@[i].spec_syntax(), self.syntax),
    {
        cst.child_node_iter(self.syntax)
    }

    /// The variable length parameter.
    pub fn vararg(&self, cst: &Cst) -> (r: Option<Varargpar>)
        ensures
            r == cst.spec_child_node::<Varargpar>(self.syntax),
            r matches Some(x) ==> after(cst, x.spec_syntax(), self.syntax),
    {
        cst.child_node(self.syntax)
    }
}

impl Par {
    /// The name of the parameter.
    pub fn name<'c>(&self, cst: &'c Cst) -> (r: Option<(&'c [u8], Span)>)
        ensures
            r is Some <==> cst.spec_child_token(self.syntax, Token::Name) is Some,
            r matches Some((t, s)) ==> s == cst.node_span(
                cst.spec_child_token(self.syntax, Token::Name)->0,
            ) && t@ == cst.text(s),
    {
        cst.child_token(self.syntax, Token::Name)
    }
}

impl Varargpar {
    /// The name given to the variable length parameter.
    pub fn name<'c>(&self, cst: &'c Cst) -> (r: Option<(&'c [u8], Span)>)
        ensures
            r is Some <==> cst.spec_child_token(self.syntax, Token::Name) is Some,
            r matches Some((t, s)) ==> s == cst.node_span(
                cst.spec_child_token(self.syntax, Token::Name)->0,
            ) && t@ == cst.text(s),
    {
        cst.child_token(self.syntax, Token::Name)
    }
}

impl Qualname {
    /// The names of the qualified name, in order.
    pub fn names<'c>(&self, cst: &'c Cst) -> (r: Vec<(&'c [u8], Span)>)
        ensures
            r@.len() == cst.spec_child_tokens(self.syntax, Token::Name).len(),
            forall|i: int|
                0 <= i < r@.len() ==> #[trigger] r@[i].1 == cst.node_span(
                    cst.spec_child_tokens(self.syntax, Token::Name)[i],
                ) && r@[i].0@ == cst.text(r@[i].1),
    {
        cst.child_token_iter(self.syntax, Token::Name)
    }
}

impl Localvarstat {
    /// The declared names, in order.
    pub fn attnames(&self, cst: &Cst) -> (r: Vec<Attname>)
        ensures
            r@ == cst.spec_child_nodes::<Attname>(self.syntax),
            forall|i: int| 0 <= i < r@.len() ==> after(cst, #[trigger] r@[i].spec_syntax(), self.syntax),
    {
        cst.child_node_iter(self.syntax)
    }

    /// The attribute that applies to all names.
    pub fn prefix_attrib(&self, cst: &Cst) -> (r: Option<Attrib>)
        ensures
            r == cst.spec_child_node::<Attrib>(self.syntax),
            r matches Some(x) ==> after(cst, x.spec_syntax(), self.syntax),
    {
        cst.child_node(self.syntax)
    }

    /// The span of the `=` token.
    pub fn equal_span(&self, cst: &Cst) -> (r: Option<Span>)
        ensures
            r is Some <==> cst.spec_child_token(self.syntax, Token::Equal) is Some,
            r matches Some(s) ==> s == cst.node_span(cst.spec_child_token(self.syntax, Token::Equal)->0),
            r matches Some(s) ==> cst.text(s) == seq![61u8],
    {
        let _ = cst.len();
        proof {
            lemma_first_token_of(cst, cst.spec_children(self.syntax), seq![Token::Equal]);
            if let Some(n) = cst.spec_child_token(self.syntax, Token::Equal) {
                cst.lemma_token_text(n);
            }
        }
        match cst.child_token(self.syntax, Token::Equal) {
            Some((_, span)) => Some(span),
            None => None,
        }
    }

    /// The initial values, in order.
    pub fn rhs_exps(&self, cst: &Cst) -> (r: Vec<Exp>)
        ensures
            r@ == cst.spec_explist_exps(self.syntax),
            forall|i: int| 0 <= i < r@.len() ==> after(cst, #[trigger] r@[i].spec_syntax(), self.syntax),
    {
        cst.explist_exps(self.syntax)
    }
}

impl Label {
    /// The name of the label.
    pub fn name<'c>(&self, cst: &'c Cst) -> (r: Option<(&'c [u8], Span)>)
        ensures
            r is Some <==> cst.spec_child_token(self.syntax, Token::Name) is Some,
            r matches Some((t, s)) ==> s == cst.node_span(
                cst.spec_child_token(self.syntax, Token::Name)->0,
            ) && t@ == cst.text(s),
    {
        cst.child_token(self.syntax, Token::Name)
    }
}

impl Gotostat {
    /// The name of the target label.
    pub fn name<'c>(&self, cst: &'c Cst) -> (r: Option<(&'c [u8], Span)>)
        ensures
            r is Some <==> cst.spec_child_token(self.syntax, Token::Name) is Some,
            r matches Some((t, s)) ==> s == cst.node_span(
                cst.spec_child_token(self.syntax, Token::Name)->0,
            ) && t@ == cst.text(s),
    {
        cst.child_token(self.syntax, Token::Name)
    }
}

impl Localfuncstat {
    /// The name of the function.
    pub fn name<'c>(&self, cst: &'c Cst) -> (r: Option<(&'c [u8], Span)>)
        ensures
            r is Some <==> cst.spec_child_token(self.syntax, Token::Name) is Some,
            r matches Some((t, s)) ==> s == cst.node_span(
                cst.spec_child_token(self.syntax, Token::Name)->0,
            ) && t@ == cst.text(s),
    {
        cst.child_token(self.syntax, Token::Name)
    }

    /// The parameter list.
    pub fn pars(&self, cst: &Cst) -> (r: Option<Pars>)
        ensures
            r == cst.spec_child_node::<Pars>(self.syntax),
            r matches Some(x) ==> after(cst, x.spec_syntax(), self.syntax),
    {
        cst.child_node(self.syntax)
    }

    /// The function body.
    pub fn block(&self, cst: &Cst) -> (r: Option<Block>)
        ensures
            r == cst.spec_child_node::<Block>(self.syntax),
            r matches Some(x) ==> after(cst, x.spec_syntax(), self.syntax),
    {
        cst.child_node(self.syntax)
    }
}

impl Globalvarstat {
    /// The declared names, in order.
    pub fn attnames(&self, cst: &Cst) -> (r: Vec<Attname>)
        ensures
            r@ == cst.spec_child_nodes::<Attname>(self.syntax),
            forall|i: int| 0 <= i < r@.len() ==> after(cst, #[trigger] r@[i].spec_syntax(), self.syntax),
    {
        cst.child_node_iter(self.syntax)
    }

    /// The attribute that applies to all names.
    pub fn prefix_attrib(&self, cst: &Cst) -> (r: Option<Attrib>)
        ensures
            r == cst.spec_child_node::<Attrib>(self.syntax),
            r matches Some(x) ==> after(cst, x.spec_syntax(), self.syntax),
    {
        cst.child_node(self.syntax)
    }

    /// The span of the `=` token.
    pub fn equal_span(&self, cst: &Cst) -> (r: Option<Span>)
        ensures
            r is Some <==> cst.spec_child_token(self.syntax, Token::Equal) is Some,
            r matches Some(s) ==> s == cst.node_span(cst.spec_child_token(self.syntax, Token::Equal)->0),
            r matches Some(s) ==> cst.text(s) == seq![61u8],
    {
        let _ = cst.len();
        proof {
            lemma_first_token_of(cst, cst.spec_children(self.syntax), seq![Token::Equal]);
            if let Some(n) = cst.spec_child_token(self.syntax, Token::Equal) {
                cst.lemma_token_text(n);
            }
        }
        match cst.child_token(self.syntax, Token::Equal) {
            Some((_, span)) => Some(span),
            None => None,
        }
    }

    /// The initial values, in order.
    pub fn rhs_exps(&self, cst: &Cst) -> (r: Vec<Exp>)
        ensures
            r@ == cst.spec_explist_exps(self.syntax),
            forall|i: int| 0 <= i < r@.len() ==> after(cst, #[trigger] r@[i].spec_syntax(), self.syntax),
    {
        cst.explist_exps(self.syntax)
    }
}

impl Globalfuncstat {
    /// The name of the function.
    pub fn name<'c>(&self, cst: &'c Cst) -> (r: Option<(&'c [u8], Span)>)
        ensures
            r is Some <==> cst.spec_child_token(self.syntax, Token::Name) is Some,
            r matches Some((t, s)) ==> s == cst.node_span(
                cst.spec_child_token(self.syntax, Token::Name)->0,
            ) && t@ == cst.text(s),
    {
        cst.child_token(self.syntax, Token::Name)
    }

    /// The parameter list.
    pub fn pars(&self, cst: &Cst) -> (r: Option<Pars>)
        ensures
            r == cst.spec_child_node::<Pars>(self.syntax),
            r matches Some(x) ==> after(cst, x.spec_syntax(), self.syntax),
    {
        cst.child_node(self.syntax)
    }

    /// The function body.
    pub fn block(&self, cst: &Cst) -> (r: Option<Block>)
        ensures
            r == cst.spec_child_node::<Block>(self.syntax),
            r matches Some(x) ==> after(cst, x.spec_syntax(), self.syntax),
    {
        cst.child_node(self.syntax)
    }
}

impl CollectiveGlobalvarstat {
    /// The attribute of the declaration.
    pub fn attrib(&self, cst: &Cst) -> (r: Option<Attrib>)
        ensures
            r == cst.spec_child_node::<Attrib>(self.syntax),
            r matches Some(x) ==> after(cst, x.spec_syntax(), self.syntax),
    {
        cst.child_node(self.syntax)
    }
}

impl Retstat {
    /// The returned expressions, in order.
    pub fn exps(&self, cst: &Cst) -> (r: Vec<Exp>)
        ensures
            r@ == cst.spec_explist_exps(self.syntax),
            forall|i: int| 0 <= i < r@.len() ==> after(cst, #[trigger] r@[i].spec_syntax(), self.syntax),
    {
        cst.explist_exps(self.syntax)
    }
}

impl Attname {
    /// The declared name.
    pub fn name<'c>(&self, cst: &'c Cst) -> (r: Option<(&'c [u8], Span)>)
        ensures
            r is Some <==> cst.spec_child_token(self.syntax, Token::Name) is Some,
            r matches Some((t, s)) ==> s == cst.node_span(
                cst.spec_child_token(self.syntax, Token::Name)->0,
            ) && t@ == cst.text(s),
    {
        cst.child_token(self.syntax, Token::Name)
    }

    /// The attribute of the name.
    pub fn attrib(&self, cst: &Cst) -> (r: Option<Attrib>)
        ensures
            r == cst.spec_child_node::<Attrib>(self.syntax),
            r matches Some(x) ==> after(cst, x.spec_syntax(), self.syntax),
    {
        cst.child_node(self.syntax)
    }
}

impl Attrib {
    /// The name inside the attribute.
    pub fn value<'c>(&self, cst: &'c Cst) -> (r: Option<(&'c [u8], Span)>)
        ensures
            r is Some <==> cst.spec_child_token(self.syntax, Token::Name) is Some,
            r matches Some((t, s)) ==> s == cst.node_span(
                cst.spec_child_token(self.syntax, Token::Name)->0,
            ) && t@ == cst.text(s),
    {
        cst.child_token(self.syntax, Token::Name)
    }
}

impl Binexp {
    /// The operands, in order.
    pub fn operands(&self, cst: &Cst) -> (r: Vec<Exp>)
        ensures
            r@ == cst.spec_child_nodes::<Exp>(self.syntax),
            forall|i: int| 0 <= i < r@.len() ==> after(cst, #[trigger] r@[i].spec_syntax(), self.syntax),
    {
        cst.child_node_iter(self.syntax)
    }

    /// Whether the operator is `and`.
    pub fn is_and(&self, cst: &Cst) -> (r: bool)
        ensures
            r == cst.spec_child_token(self.syntax, Token::And) is Some,
    {
        cst.child_token(self.syntax, Token::And).is_some()
    }

    /// Whether the operator is `or`.
    pub fn is_or(&self, cst: &Cst) -> (r: bool)
        ensures
            r == cst.spec_child_token(self.syntax, Token::Or) is Some,
    {
        cst.child_token(self.syntax, Token::Or).is_some()
    }

    /// Whether the operator is `..`.
    pub fn is_concat(&self, cst: &Cst) -> (r: bool)
        ensures
            r == cst.spec_child_token(self.syntax, Token::Dot2) is Some,
    {
        cst.child_token(self.syntax, Token::Dot2).is_some()
    }
}

impl Unaryexp {
    /// The operand.
    pub fn operand(&self, cst: &Cst) -> (r: Option<Exp>)
        ensures
            r == cst.spec_child_node::<Exp>(self.syntax),
            r matches Some(x) ==> after(cst, x.spec_syntax(), self.syntax),
    {
        cst.child_node(self.syntax)
    }

    /// Whether the operator is `not`.
    pub fn is_negation(&self, cst: &Cst) -> (r: bool)
        ensures
            r == cst.spec_child_token(self.syntax, Token::Not) is Some,
    {
        cst.child_token(self.syntax, Token::Not).is_some()
    }

    /// The operator of a unary expression is `not` only when the expression is a negation;
    /// and a negation without another unary operator token has `not` as its operator.
    pub proof fn lemma_operator_is_negation(&self, cst: &Cst)
        ensures
            (first_token_of(cst, cst.spec_children(self.syntax), unary_tokens()) matches Some(n)
                && cst.token_at(n) == Some(Token::Not)) ==> cst.spec_child_token(self.syntax, Token::Not) is Some,
            cst.spec_child_token(self.syntax, Token::Not) is Some
                && cst.spec_child_token(self.syntax, Token::Minus) is None
                && cst.spec_child_token(self.syntax, Token::Hash) is None
                && cst.spec_child_token(self.syntax, Token::Tilde) is None
                ==> (first_token_of(cst, cst.spec_children(self.syntax), unary_tokens()) matches Some(n)
                && cst.token_at(n) == Some(Token::Not)),
    {
        let cs = cst.spec_children(self.syntax);
        lemma_unary_not(cst, cs);
        if cst.spec_child_token(self.syntax, Token::Minus) is None && cst.spec_child_token(self.syntax, Token::Hash) is None
            && cst.spec_child_token(self.syntax, Token::Tilde) is None {
            assert forall|i: int| 0 <= i < cs.len() implies !(cst.token_at(#[trigger] cs[i]) matches Some(t)
                && (t == Token::Minus || t == Token::Hash || t == Token::Tilde)) by {
                lemma_first_token_absent(cst, cs, Token::Minus, i);
                lemma_first_token_absent(cst, cs, Token::Hash, i);
                lemma_first_token_absent(cst, cs, Token::Tilde, i);
            }
        }
    }
}

impl Nameexp {
    /// The name.
    pub fn name<'c>(&self, cst: &'c Cst) -> (r: Option<(&'c [u8], Span)>)
        ensures
            r is Some <==> cst.spec_child_token(self.syntax, Token::Name) is Some,
            r matches Some((t, s)) ==> s == cst.node_span(
                cst.spec_child_token(self.syntax, Token::Name)->0,
            ) && t@ == cst.text(s),
    {
        cst.child_token(self.syntax, Token::Name)
    }
}

impl Parenexp {
    /// The parenthesized expression.
    pub fn inner(&self, cst: &Cst) -> (r: Option<Exp>)
        ensures
            r == cst.spec_child_node::<Exp>(self.syntax),
            r matches Some(x) ==> after(cst, x.spec_syntax(), self.syntax),
    {
        cst.child_node(self.syntax)
    }
}

impl Fieldexp {
    /// The expression whose field is accessed.
    pub fn base(&self, cst: &Cst) -> (r: Option<Exp>)
        ensures
            r == cst.spec_child_node::<Exp>(self.syntax),
            r matches Some(x) ==> after(cst, x.spec_syntax(), self.syntax),
    {
        cst.child_node(self.syntax)
    }

    /// The name of the field.
    pub fn field<'c>(&self, cst: &'c Cst) -> (r: Option<(&'c [u8], Span)>)
        ensures
            r is Some <==> cst.spec_child_token(self.syntax, Token::Name) is Some,
            r matches Some((t, s)) ==> s == cst.node_span(
                cst.spec_child_token(self.syntax, Token::Name)->0,
            ) && t@ == cst.text(s),
    {
        cst.child_token(self.syntax, Token::Name)
    }
}

impl Callexp {
    /// The called expression.
    pub fn base(&self, cst: &Cst) -> (r: Option<Exp>)
        ensures
            r == cst.spec_child_node::<Exp>(self.syntax),
            r matches Some(x) ==> after(cst, x.spec_syntax(), self.syntax),
    {
        cst.child_node(self.syntax)
    }

    /// The arguments.
    pub fn args(&self, cst: &Cst) -> (r: Option<Args>)
        ensures
            r == cst.spec_child_node::<Args>(self.syntax),
            r matches Some(x) ==> after(cst, x.spec_syntax(), self.syntax),
    {
        cst.child_node(self.syntax)
    }
}

impl Functiondef {
    /// The parameter list.
    pub fn pars(&self, cst: &Cst) -> (r: Option<Pars>)
        ensures
            r == cst.spec_child_node::<Pars>(self.syntax),
            r matches Some(x) ==> after(cst, x.spec_syntax(), self.syntax),
    {
        cst.child_node(self.syntax)
    }

    /// The function body.
    pub fn block(&self, cst: &Cst) -> (r: Option<Block>)
        ensures
            r == cst.spec_child_node::<Block>(self.syntax),
            r matches Some(x) ==> after(cst, x.spec_syntax(), self.syntax),
    {
        cst.child_node(self.syntax)
    }
}

impl Tableconstructor {
    /// The fields, in order.
    pub fn fields(&self, cst: &Cst) -> (r: Vec<Field>)
        ensures
            r@ == cst.spec_child_nodes::<Field>(self.syntax),
            forall|i: int| 0 <= i < r@.len() ==> after(cst, #[trigger] r@[i].spec_syntax(), self.syntax),
    {
        cst.child_node_iter(self.syntax)
    }
}

impl NamedField {
    /// The name of the field.
    pub fn name<'c>(&self, cst: &'c Cst) -> (r: Option<(&'c [u8], Span)>)
        ensures
            r is Some <==> cst.spec_child_token(self.syntax, Token::Name) is Some,
            r matches Some((t, s)) ==> s == cst.node_span(
                cst.spec_child_token(self.syntax, Token::Name)->0,
            ) && t@ == cst.text(s),
    {
        cst.child_token(self.syntax, Token::Name)
    }

    /// The value of the field.
    pub fn val(&self, cst: &Cst) -> (r: Option<Exp>)
        ensures
            r == cst.spec_child_node::<Exp>(self.syntax),
            r matches Some(x) ==> after(cst, x.spec_syntax(), self.syntax),
    {
        cst.child_node(self.syntax)
    }
}

impl CountedField {
    /// The value of the field.
    pub fn val(&self, cst: &Cst) -> (r: Option<Exp>)
        ensures
            r == cst.spec_child_node::<Exp>(self.syntax),
            r matches Some(x) ==> after(cst, x.spec_syntax(), self.syntax),
    {
        cst.child_node(self.syntax)
    }
}

impl Decintexp {
    /// The numeral.
    pub fn val<'c>(&self, cst: &'c Cst) -> (r: Option<(&'c [u8], Span)>)
        ensures
            r is Some <==> cst.spec_child_token(self.syntax, Token::DecIntNumeral) is Some,
            r matches Some((t, s)) ==> s == cst.node_span(
                cst.spec_child_token(self.syntax, Token::DecIntNumeral)->0,
            ) && t@ == cst.text(s),
            r matches Some((t, _)) ==> t@.len() > 0 && forall|i: int| 0 <= i < t@.len() ==> 48 <= #[trigger] t@[i] <= 57,
    {
        let _ = cst.len();
        let r = cst.child_token(self.syntax, Token::DecIntNumeral);
        proof {
            lemma_first_token_of(cst, cst.spec_children(self.syntax), seq![Token::DecIntNumeral]);
            if let Some(n) = cst.spec_child_token(self.syntax, Token::DecIntNumeral) {
                cst.lemma_token_text(n);
            }
        }
        r
    }
}

impl Hexintexp {
    /// The numeral.
    pub fn val<'c>(&self, cst: &'c Cst) -> (r: Option<(&'c [u8], Span)>)
        ensures
            r is Some <==> cst.spec_child_token(self.syntax, Token::HexIntNumeral) is Some,
            r matches Some((t, s)) ==> s == cst.node_span(
                cst.spec_child_token(self.syntax, Token::HexIntNumeral)->0,
            ) && t@ == cst.text(s),
    {
        cst.child_token(self.syntax, Token::HexIntNumeral)
    }
}

impl Decfloatexp {
    /// The numeral.
    pub fn val<'c>(&self, cst: &'c Cst) -> (r: Option<(&'c [u8], Span)>)
        ensures
            r is Some <==> cst.spec_child_token(self.syntax, Token::DecFloatNumeral) is Some,
            r matches Some((t, s)) ==> s == cst.node_span(
                cst.spec_child_token(self.syntax, Token::DecFloatNumeral)->0,
            ) && t@ == cst.text(s),
    {
        cst.child_token(self.syntax, Token::DecFloatNumeral)
    }
}

impl Hexfloatexp {
    /// The numeral.
    pub fn val<'c>(&self, cst: &'c Cst) -> (r: Option<(&'c [u8], Span)>)
        ensures
            r is Some <==> cst.spec_child_token(self.syntax, Token::HexFloatNumeral) is Some,
            r matches Some((t, s)) ==> s == cst.node_span(
                cst.spec_child_token(self.syntax, Token::HexFloatNumeral)->0,
            ) && t@ == cst.text(s),
    {
        cst.child_token(self.syntax, Token::HexFloatNumeral)
    }
}
/// The element at index `i` of `s`, if there is one.
pub open spec fn seq_get<T>(s: Seq<T>, i: int) -> Option<T> {
    if 0 <= i < s.len() {
        Some(s[i])
    } else {
        None
    }
}

/// The bytes of the attribute name `close`.
pub open spec fn close_bytes() -> Seq<u8> {
    seq![99u8, 108u8, 111u8, 115u8, 101u8]
}

/// The bytes of the attribute name `const`.
pub open spec fn const_bytes() -> Seq<u8> {
    seq![99u8, 111u8, 110u8, 115u8, 116u8]
}

fn vec_get<T: Copy>(v: &Vec<T>, i: usize) -> (r: Option<T>)
    ensures
        r == seq_get(v@, i as int),
{
    if i < v.len() {
        Some(v[i])
    } else {
        None
    }
}

/// Whether the byte string contains a line feed.
pub fn contains_line_feed(s: &[u8]) -> (r: bool)
    ensures
        r == s@.contains(10u8),
{
    let mut i: usize = 0;
    while i < s.len()
        invariant
            i <= s@.len(),
            forall|k: int| 0 <= k < i ==> s@[k] != 10u8,
        decreases s@.len() - i,
    {
        if s[i] == 10u8 {
            assert(s@[i as int] == 10u8);
            return true;
        }
        i = i + 1;
    }
    false
}

impl Block {
    /// Whether a comment precedes the block, with only whitespace in between.
    fn contains_comment(&self, cst: &Cst) -> (r: bool)
        ensures
            r == comment_before(cst, prev_ref(self.syntax)),
    {
        let mut k: usize = if self.syntax.0 == 0 {
            0
        } else {
            self.syntax.0 - 1
        };
        loop
            invariant
                comment_before(cst, k as int) == comment_before(cst, prev_ref(self.syntax)),
            decreases k,
        {
            let n = NodeRef(k);
            if cst.match_token(n, Token::Comment).is_some() {
                return true;
            }
            if cst.match_token(n, Token::Whitespace).is_none() || k == 0 {
                return false;
            }
            k = k - 1;
        }
    }

    /// The span of the whitespace in a block without statements and without comments, where
    /// a fix can place an explanation; `None` for any other block.
    pub open spec fn spec_empty_block_span(&self, cst: &Cst) -> Option<Span> {
        if cst.spec_child_nodes::<Stat>(self.syntax).len() == 0 && !comment_before(cst, prev_ref(self.syntax))
            && prev_ref(self.syntax) != 0 && cst.token_at(NodeRef(prev_ref(self.syntax) as usize)) == Some(Token::Whitespace) {
            Some(cst.node_span(NodeRef(prev_ref(self.syntax) as usize)))
        } else {
            None
        }
    }

    /// The span of the whitespace inside a block without statements and without comments,
    /// where a fix can place an explanation.
    pub fn empty_block_span(&self, cst: &Cst) -> (r: Option<Span>)
        ensures
            r == self.spec_empty_block_span(cst),
            r matches Some(s) ==> s.start <= s.end <= cst.source_view().len(),
    {
        if self.stats(cst).len() == 0 && !self.contains_comment(cst) {
            let node_ref = NodeRef(
                if self.syntax.0 == 0 {
                    0
                } else {
                    self.syntax.0 - 1
                },
            );
            if node_ref.0 == 0 {
                return None;
            }
            if let Some((_, span)) = cst.match_token(node_ref, Token::Whitespace) {
                return Some(span);
            }
        }
        None
    }
}

impl NumericForstat {
    /// The start, limit and step expressions.
    pub fn exp_from_to_stride(&self, cst: &Cst) -> (r: (Option<Exp>, Option<Exp>, Option<Exp>))
        ensures
            r.0 == seq_get(cst.spec_child_nodes::<Exp>(self.syntax), 0),
            r.1 == seq_get(cst.spec_child_nodes::<Exp>(self.syntax), 1),
            r.2 == seq_get(cst.spec_child_nodes::<Exp>(self.syntax), 2),
            r.0 matches Some(x) ==> after(cst, x.spec_syntax(), self.syntax),
            r.1 matches Some(x) ==> after(cst, x.spec_syntax(), self.syntax),
            r.2 matches Some(x) ==> after(cst, x.spec_syntax(), self.syntax),
    {
        let exps: Vec<Exp> = cst.child_node_iter(self.syntax);
        (vec_get(&exps, 0), vec_get(&exps, 1), vec_get(&exps, 2))
    }
}

impl Indexexp {
    /// The indexed expression and the index.
    pub fn base_and_index(&self, cst: &Cst) -> (r: (Option<Exp>, Option<Exp>))
        ensures
            r.0 == seq_get(cst.spec_child_nodes::<Exp>(self.syntax), 0),
            r.1 == seq_get(cst.spec_child_nodes::<Exp>(self.syntax), 1),
            r.0 matches Some(x) ==> after(cst, x.spec_syntax(), self.syntax),
            r.1 matches Some(x) ==> after(cst, x.spec_syntax(), self.syntax),
    {
        let exps: Vec<Exp> = cst.child_node_iter(self.syntax);
        (vec_get(&exps, 0), vec_get(&exps, 1))
    }
}

impl KeyvalField {
    /// The key and the value.
    pub fn key_val(&self, cst: &Cst) -> (r: (Option<Exp>, Option<Exp>))
        ensures
            r.0 == seq_get(cst.spec_child_nodes::<Exp>(self.syntax), 0),
            r.1 == seq_get(cst.spec_child_nodes::<Exp>(self.syntax), 1),
            r.0 matches Some(x) ==> after(cst, x.spec_syntax(), self.syntax),
            r.1 matches Some(x) ==> after(cst, x.spec_syntax(), self.syntax),
    {
        let exps: Vec<Exp> = cst.child_node_iter(self.syntax);
        (vec_get(&exps, 0), vec_get(&exps, 1))
    }
}

impl Binexp {
    /// The relational operator token and its span, if the operator is relational.
    pub fn relational_operator(&self, cst: &Cst) -> (r: Option<(Token, Span)>)
        ensures
            r is Some <==> first_token_of(cst, cst.spec_children(self.syntax), relational_tokens())
                is Some,
            r matches Some((t, s)) ==> {
                let n = first_token_of(cst, cst.spec_children(self.syntax), relational_tokens())->0;
                &&& cst.token_at(n) == Some(t)
                &&& s == cst.node_span(n)
                &&& s.start <= s.end <= cst.source_view().len()
            },
    {
        let toks = vec![
            Token::Less,
            Token::Greater,
            Token::LessEqual,
            Token::GreaterEqual,
            Token::TildeEqual,
            Token::EqualEqual,
        ];
        assert(toks@ =~= relational_tokens());
        cst.any_child_token(self.syntax, toks.as_slice())
    }
}

impl Unaryexp {
    /// The operator token and its span.
    pub fn operator(&self, cst: &Cst) -> (r: Option<(Token, Span)>)
        ensures
            r is Some <==> first_token_of(cst, cst.spec_children(self.syntax), unary_tokens())
                is Some,
            r matches Some((t, s)) ==> {
                let n = first_token_of(cst, cst.spec_children(self.syntax), unary_tokens())->0;
                &&& cst.token_at(n) == Some(t)
                &&& s == cst.node_span(n)
                &&& s.start <= s.end <= cst.source_view().len()
            },
    {
        let toks = vec![Token::Not, Token::Minus, Token::Hash, Token::Tilde];
        assert(toks@ =~= unary_tokens());
        cst.any_child_token(self.syntax, toks.as_slice())
    }
}

impl Attrib {
    /// Whether the attribute is `<close>`.
    pub fn is_close(&self, cst: &Cst) -> (r: bool)
        ensures
            r == (cst.spec_child_token(self.syntax, Token::Name) matches Some(n) && cst.text(
                cst.node_span(n),
            ) == close_bytes()),
    {
        let word = vec![99u8, 108u8, 111u8, 115u8, 101u8];
        assert(word@ =~= close_bytes());
        match self.value(cst) {
            Some((value, _)) => bytes_eq(value, word.as_slice()),
            None => false,
        }
    }

    /// Whether the attribute is `<const>`.
    pub fn is_const(&self, cst: &Cst) -> (r: bool)
        ensures
            r == (cst.spec_child_token(self.syntax, Token::Name) matches Some(n) && cst.text(
                cst.node_span(n),
            ) == const_bytes()),
    {
        let word = vec![99u8, 111u8, 110u8, 115u8, 116u8];
        assert(word@ =~= const_bytes());
        match self.value(cst) {
            Some((value, _)) => bytes_eq(value, word.as_slice()),
            None => false,
        }
    }
}

impl Args {
    /// The argument expressions, in order.
    pub fn expressions(&self, cst: &Cst) -> (r: Vec<Exp>)
        ensures
            r@ == cst.spec_child_nodes::<Exp>(self.spec_syntax()),
            forall|i: int|
                0 <= i < r@.len() ==> after(cst, #[trigger] r@[i].spec_syntax(), self.spec_syntax()),
    {
        match self {
            Args::ArgsExplist(args_explist) => cst.child_node_iter(args_explist.syntax),
            Args::ArgsSingle(arg_single) => cst.child_node_iter(arg_single.syntax),
        }
    }

    /// Whether a line break separates the arguments from what precedes them, ignoring
    /// comments.
    pub fn in_next_line(&self, cst: &Cst) -> (r: bool)
        ensures
            r == line_break_before(cst, prev_ref(self.spec_syntax())),
    {
        let syntax = self.syntax();
        let mut k: usize = if syntax.0 == 0 {
            0
        } else {
            syntax.0 - 1
        };
        loop
            invariant
                line_break_before(cst, k as int) == line_break_before(cst, prev_ref(syntax)),
                syntax == self.spec_syntax(),
            decreases k,
        {
            let n = NodeRef(k);
            if let Some((ws, _)) = cst.match_token(n, Token::Whitespace) {
                return contains_line_feed(ws);
            }
            if cst.match_token(n, Token::Comment).is_none() || k == 0 {
                return false;
            }
            k = k - 1;
        }
    }
}

} // verus!
