//! Lexical scopes of a Lua chunk: the names they bind, in name order.
use crate::ast::{AstNode, Attname, Gotostat, Label, Localfuncstat, Loopvar, Par, Stat, Varargpar};
use crate::lexer::Token;
use crate::lints::{
    ann, annotated, lint_diagnostic, UNUSED_VARARG, patch, patches, reported, UNUSED_LOCAL, UNUSED_LOOPVAR, UNUSED_PARAMETER,
    UNUSED_LABEL, UnusedLabel, UnusedLocal, UnusedLoopvar, UnusedParameter, UnusedVararg, LINT_COUNT,
};
use crate::parser::{AnnotationKind, Cst, Diagnostic, DiagnosticContext, DiagnosticView, Level, NodeRef, Severity, Span};
use crate::sema::TypeSet;
use vstd::prelude::*;

verus! {

broadcast use crate::ast::lemma_child_token_span;

/// `a` comes before `b` in byte-wise lexicographic order (the order of `str`).
pub open spec fn bytes_lt(a: Seq<u8>, b: Seq<u8>) -> bool
    decreases a.len(),
{
    if a.len() == 0 {
        b.len() > 0
    } else if b.len() == 0 {
        false
    } else if a[0] != b[0] {
        a[0] < b[0]
    } else {
        bytes_lt(a.drop_first(), b.drop_first())
    }
}

/// No byte string comes before itself.
pub proof fn lemma_bytes_lt_irreflexive(a: Seq<u8>)
    ensures
        !bytes_lt(a, a),
    decreases a.len(),
{
    if a.len() > 0 {
        lemma_bytes_lt_irreflexive(a.drop_first());
    }
}

/// The byte order is transitive.
pub proof fn lemma_bytes_lt_transitive(a: Seq<u8>, b: Seq<u8>, c: Seq<u8>)
    requires
        bytes_lt(a, b),
        bytes_lt(b, c),
    ensures
        bytes_lt(a, c),
    decreases a.len(),
{
    if a.len() > 0 && b.len() > 0 && c.len() > 0 && a[0] == b[0] && b[0] == c[0] {
        lemma_bytes_lt_transitive(a.drop_first(), b.drop_first(), c.drop_first());
    }
}

/// Two different byte strings are ordered one way or the other.
pub proof fn lemma_bytes_lt_total(a: Seq<u8>, b: Seq<u8>)
    ensures
        a == b || bytes_lt(a, b) || bytes_lt(b, a),
    decreases a.len(),
{
    if a.len() > 0 && b.len() > 0 && a[0] == b[0] {
        lemma_bytes_lt_total(a.drop_first(), b.drop_first());
        if a.drop_first() == b.drop_first() {
            assert(a =~= seq![a[0]] + a.drop_first());
            assert(b =~= seq![b[0]] + b.drop_first());
        }
    } else if a.len() == 0 && b.len() == 0 {
        assert(a =~= b);
    }
}

proof fn lemma_bytes_lt_skip(a: Seq<u8>, b: Seq<u8>, i: int)
    requires
        0 <= i <= a.len(),
        i <= b.len(),
        a.subrange(0, i) == b.subrange(0, i),
    ensures
        bytes_lt(a, b) == bytes_lt(a.skip(i), b.skip(i)),
    decreases i,
{
    if i > 0 {
        assert(a[0] == a.subrange(0, i)[0]);
        assert(b[0] == b.subrange(0, i)[0]);
        assert(a.drop_first().subrange(0, i - 1) =~= a.subrange(0, i).drop_first());
        assert(b.drop_first().subrange(0, i - 1) =~= b.subrange(0, i).drop_first());
        lemma_bytes_lt_skip(a.drop_first(), b.drop_first(), i - 1);
        assert(a.drop_first().skip(i - 1) =~= a.skip(i));
        assert(b.drop_first().skip(i - 1) =~= b.skip(i));
    } else {
        assert(a.skip(0) =~= a);
        assert(b.skip(0) =~= b);
    }
}

/// Whether `a` comes before `b` in byte-wise lexicographic order.
pub fn bytes_less(a: &[u8], b: &[u8]) -> (r: bool)
    ensures
        r == bytes_lt(a@, b@),
{
    let mut i: usize = 0;
    while i < a.len() && i < b.len()
        invariant
            i <= a@.len(),
            i <= b@.len(),
            a@.subrange(0, i as int) == b@.subrange(0, i as int),
        decreases a@.len() - i,
    {
        if a[i] != b[i] {
            proof {
                lemma_bytes_lt_skip(a@, b@, i as int);
                assert(a@.skip(i as int)[0] == a@[i as int]);
                assert(b@.skip(i as int)[0] == b@[i as int]);
            }
            return a[i] < b[i];
        }
        assert(a@.subrange(0, i + 1) =~= a@.subrange(0, i as int).push(a@[i as int]));
        assert(b@.subrange(0, i + 1) =~= b@.subrange(0, i as int).push(b@[i as int]));
        i = i + 1;
    }
    proof {
        lemma_bytes_lt_skip(a@, b@, i as int);
    }
    i == a.len() && i < b.len()
}

/// The keys are in strictly increasing byte order.
pub open spec fn keys_sorted(keys: Seq<Seq<u8>>) -> bool {
    forall|i: int, j: int| 0 <= i < j < keys.len() ==> bytes_lt(#[trigger] keys[i], #[trigger] keys[j])
}

/// A map from names to values that walks its entries in name order.
pub struct NameMap<V> {
    entries: Vec<(Vec<u8>, V)>,
}

impl<V> NameMap<V> {
    /// The names, in order.
    pub closed spec fn keys(&self) -> Seq<Seq<u8>> {
        self.entries@.map_values(|e: (Vec<u8>, V)| e.0@)
    }

    /// The values, in the order of their names.
    pub closed spec fn values(&self) -> Seq<V> {
        self.entries@.map_values(|e: (Vec<u8>, V)| e.1)
    }

    /// The names are in strictly increasing order, so each occurs once.
    pub open spec fn wf(&self) -> bool {
        &&& keys_sorted(self.keys())
        &&& self.keys().len() == self.values().len()
    }

    /// The index of the entry of `key`, if there is one.
    pub open spec fn index_of(&self, key: Seq<u8>) -> int {
        choose|i: int| 0 <= i < self.keys().len() && self.keys()[i] == key
    }

    /// The bindings of the map.
    pub open spec fn map(&self) -> Map<Seq<u8>, V> {
        Map::new(|k: Seq<u8>| self.keys().contains(k), |k: Seq<u8>| self.values()[self.index_of(k)])
    }

    /// The binding at index `i` is the binding of its key.
    pub proof fn lemma_index_of(&self, i: int)
        requires
            self.wf(),
            0 <= i < self.keys().len(),
        ensures
            self.index_of(self.keys()[i]) == i,
            self.map().contains_key(self.keys()[i]),
            self.map()[self.keys()[i]] == self.values()[i],
    {
        let j = self.index_of(self.keys()[i]);
        assert(0 <= j < self.keys().len() && self.keys()[j] == self.keys()[i]);
        self.lemma_unique(i, j);
    }

    /// A key occurs at one index only.
    pub proof fn lemma_unique(&self, i: int, j: int)
        requires
            self.wf(),
            0 <= i < self.keys().len(),
            0 <= j < self.keys().len(),
            self.keys()[i] == self.keys()[j],
        ensures
            i == j,
    {
        if i != j {
            lemma_bytes_lt_irreflexive(self.keys()[i]);
        }
    }

    pub fn new() -> (r: Self)
        ensures
            r.wf(),
            r.keys() == Seq::<Seq<u8>>::empty(),
            r.values() == Seq::<V>::empty(),
            r.map() == Map::<Seq<u8>, V>::empty(),
    {
        let r = NameMap { entries: Vec::new() };
        assert(r.keys() =~= Seq::<Seq<u8>>::empty());
        assert(r.values() =~= Seq::<V>::empty());
        assert(r.map() =~= Map::<Seq<u8>, V>::empty());
        r
    }

    pub fn len(&self) -> (r: usize)
        requires
            self.wf(),
        ensures
            r == self.keys().len(),
            r == self.values().len(),
    {
        self.entries.len()
    }

    /// The position of `key`: its index with `true`, or with `false` the index of the first
    /// entry whose name comes after `key`.
    fn position(&self, key: &[u8]) -> (r: (usize, bool))
        requires
            self.wf(),
        ensures
            r.0 <= self.keys().len(),
            r.1 ==> r.0 < self.keys().len() && self.keys()[r.0 as int] == key@,
            !r.1 ==> forall|i: int| 0 <= i < self.keys().len() ==> self.keys()[i] != key@,
            forall|i: int| 0 <= i < r.0 ==> bytes_lt(#[trigger] self.keys()[i], key@),
            !r.1 ==> forall|i: int|
                r.0 <= i < self.keys().len() ==> bytes_lt(key@, #[trigger] self.keys()[i]),
    {
        let mut i: usize = 0;
        while i < self.entries.len()
            invariant
                i <= self.keys().len(),
                self.keys().len() == self.entries@.len(),
                keys_sorted(self.keys()),
                forall|k: int| 0 <= k < i ==> bytes_lt(#[trigger] self.keys()[k], key@),
            decreases self.entries@.len() - i,
        {
            assert(self.keys()[i as int] == self.entries@[i as int].0@);
            if !bytes_less(self.entries[i].0.as_slice(), key) {
                let found = self.entries[i].0.len() == key.len() && !bytes_less(
                    key,
                    self.entries[i].0.as_slice(),
                );
                proof {
                    lemma_bytes_lt_total(self.keys()[i as int], key@);
                    if found {
                        lemma_bytes_lt_irreflexive(key@);
                    } else {
                        assert forall|k: int| 0 <= k < self.keys().len() implies self.keys()[k]
                            != key@ by {
                            if k < i {
                                lemma_bytes_lt_irreflexive(key@);
                            } else if k > i {
                                lemma_bytes_lt_irreflexive(key@);
                                lemma_bytes_lt_transitive(key@, self.keys()[i as int], self.keys()[k]);
                            } else {
                                if self.keys()[i as int] == key@ {
                                    lemma_bytes_lt_irreflexive(key@);
                                }
                            }
                        }
                        assert forall|k: int| i <= k < self.keys().len() implies bytes_lt(
                            key@,
                            #[trigger] self.keys()[k],
                        ) by {
                            if k > i {
                                lemma_bytes_lt_transitive(key@, self.keys()[i as int], self.keys()[k]);
                            }
                        }
                    }
                }
                return (i, found);
            }
            i = i + 1;
        }
        proof {
            assert forall|k: int| 0 <= k < self.keys().len() implies self.keys()[k] != key@ by {
                lemma_bytes_lt_irreflexive(key@);
            }
        }
        (i, false)
    }

    /// The index of `key`, if it is bound.
    pub fn find(&self, key: &[u8]) -> (r: Option<usize>)
        requires
            self.wf(),
        ensures
            r is Some <==> self.keys().contains(key@),
            r is Some <==> self.map().contains_key(key@),
            r matches Some(i) ==> i < self.keys().len() && self.keys()[i as int] == key@
                && self.map()[key@] == self.values()[i as int],
    {
        let (i, found) = self.position(key);
        if found {
            proof {
                self.lemma_index_of(i as int);
            }
            Some(i)
        } else {
            None
        }
    }

    /// The value of `key`.
    pub fn get(&self, key: &[u8]) -> (r: Option<&V>)
        requires
            self.wf(),
        ensures
            r is Some <==> self.keys().contains(key@),
            r matches Some(v) ==> self.map().contains_key(key@) && *v == self.map()[key@],
    {
        let (i, found) = self.position(key);
        if found {
            proof {
                self.lemma_index_of(i as int);
            }
            assert(self.keys()[i as int] == key@);
            assert(self.values()[i as int] == self.entries@[i as int].1);
            Some(&self.entries[i].1)
        } else {
            None
        }
    }

    /// The name at index `i`.
    pub fn key_at(&self, i: usize) -> (r: &[u8])
        requires
            i < self.keys().len(),
        ensures
            r@ == self.keys()[i as int],
    {
        self.entries[i].0.as_slice()
    }

    /// The value at index `i`.
    pub fn value_at(&self, i: usize) -> (r: &V)
        requires
            i < self.values().len(),
        ensures
            *r == self.values()[i as int],
    {
        &self.entries[i].1
    }

    /// Sorted insertion keeps the keys sorted.
    proof fn lemma_insert_sorted(keys: Seq<Seq<u8>>, p: int, key: Seq<u8>)
        requires
            keys_sorted(keys),
            0 <= p <= keys.len(),
            forall|i: int| 0 <= i < p ==> bytes_lt(#[trigger] keys[i], key),
            forall|i: int| p <= i < keys.len() ==> bytes_lt(key, #[trigger] keys[i]),
        ensures
            keys_sorted(keys.insert(p, key)),
    {
        let n = keys.insert(p, key);
        assert forall|i: int, j: int| 0 <= i < j < n.len() implies bytes_lt(
            #[trigger] n[i],
            #[trigger] n[j],
        ) by {
            if j < p {
            } else if j == p {
            } else if i < p {
                lemma_bytes_lt_transitive(keys[i], key, keys[j - 1]);
            } else if i == p {
            } else {
            }
        }
    }

    /// Replaces the value at index `i` by `v` and gives back the old value.
    pub fn replace_at(&mut self, i: usize, v: V) -> (r: V)
        requires
            old(self).wf(),
            i < old(self).keys().len(),
        ensures
            final(self).wf(),
            r == old(self).values()[i as int],
            final(self).keys() == old(self).keys(),
            final(self).values() == old(self).values().update(i as int, v),
            final(self).map() == old(self).map().insert(old(self).keys()[i as int], v),
    {
        let (k, old_v) = self.entries.remove(i);
        self.entries.insert(i, (k, v));
        assert(self.keys() =~= old(self).keys());
        assert(self.values() =~= old(self).values().update(i as int, v));
        proof {
            let key = old(self).keys()[i as int];
            assert forall|k: Seq<u8>| #[trigger] self.map().contains_key(k) implies self.map()[k]
                == old(self).map().insert(key, v)[k] by {
                let j = choose|j: int| 0 <= j < self.keys().len() && self.keys()[j] == k;
                self.lemma_index_of(j);
                old(self).lemma_index_of(j);
                if k == key {
                    old(self).lemma_unique(i as int, j);
                }
            }
            assert(self.map() =~= old(self).map().insert(key, v));
        }
        old_v
    }

    /// Binds `key` to `value`, replacing an earlier binding; returns the index of `key`.
    pub fn insert(&mut self, key: &[u8], value: V) -> (r: usize)
        requires
            old(self).wf(),
        ensures
            final(self).wf(),
            r < final(self).keys().len(),
            r <= old(self).keys().len(),
            final(self).keys()[r as int] == key@,
            old(self).keys().contains(key@) ==> final(self).keys() == old(self).keys()
                && final(self).values() == old(self).values().update(r as int, value),
            !old(self).keys().contains(key@) ==> final(self).keys() == old(self).keys().insert(
                r as int,
                key@,
            ) && final(self).values() == old(self).values().insert(r as int, value),
            final(self).map() == old(self).map().insert(key@, value),
    {
        let (i, found) = self.position(key);
        if found {
            self.replace_at(i, value);
            assert(old(self).keys().contains(key@));
            i
        } else {
            proof {
                Self::lemma_insert_sorted(self.keys(), i as int, key@);
            }
            let k = vstd::slice::slice_to_vec(key);
            self.entries.insert(i, (k, value));
            assert(self.keys() =~= old(self).keys().insert(i as int, key@));
            assert(self.values() =~= old(self).values().insert(i as int, value));
            proof {
                assert forall|k: Seq<u8>| #[trigger] self.map().contains_key(k) implies self.map()[k]
                    == old(self).map().insert(key@, value)[k] by {
                    let j = choose|j: int| 0 <= j < self.keys().len() && self.keys()[j] == k;
                    self.lemma_index_of(j);
                    if j < i {
                        old(self).lemma_index_of(j);
                    } else if j > i {
                        old(self).lemma_index_of(j - 1);
                    }
                }
                assert forall|k: Seq<u8>| #[trigger] old(self).map().insert(key@, value).contains_key(k)
                    implies self.map().contains_key(k) by {
                    if k != key@ {
                        let j = choose|j: int| 0 <= j < old(self).keys().len() && old(self).keys()[j] == k;
                        if j < i {
                            assert(self.keys()[j] == k);
                        } else {
                            assert(self.keys()[j + 1] == k);
                        }
                    } else {
                        assert(self.keys()[i as int] == k);
                    }
                }
                assert(self.map() =~= old(self).map().insert(key@, value));
            }
            i
        }
    }

    /// Removes the binding of `key` and gives back its value.
    pub fn remove(&mut self, key: &[u8]) -> (r: Option<V>)
        requires
            old(self).wf(),
        ensures
            final(self).wf(),
            r is Some <==> old(self).keys().contains(key@),
            !old(self).keys().contains(key@) ==> final(self).keys() == old(self).keys()
                && final(self).values() == old(self).values(),
            r is Some ==> exists|i: int|
                0 <= i < old(self).keys().len() && old(self).keys()[i] == key@ && r == Some(
                    old(self).values()[i],
                ) && final(self).keys() == old(self).keys().remove(i) && final(self).values()
                    == old(self).values().remove(i),
            final(self).map() == old(self).map().remove(key@),
            r matches Some(v) ==> old(self).map().contains_key(key@) && v == old(self).map()[key@],
    {
        let (i, found) = self.position(key);
        if found {
            let (_, v) = self.entries.remove(i);
            assert(self.keys() =~= old(self).keys().remove(i as int));
            assert(self.values() =~= old(self).values().remove(i as int));
            assert(keys_sorted(self.keys())) by {
                assert forall|a: int, b: int| 0 <= a < b < self.keys().len() implies bytes_lt(
                    #[trigger] self.keys()[a],
                    #[trigger] self.keys()[b],
                ) by {
                    let ok = old(self).keys();
                    if a >= i {
                        assert(bytes_lt(ok[a + 1], ok[b + 1]));
                    } else if b >= i {
                        assert(bytes_lt(ok[a], ok[b + 1]));
                    } else {
                        assert(bytes_lt(ok[a], ok[b]));
                    }
                }
            }
            proof {
                old(self).lemma_index_of(i as int);
                assert forall|k: Seq<u8>| #[trigger] self.map().contains_key(k) implies self.map()[k]
                    == old(self).map().remove(key@)[k] && k != key@ by {
                    let j = choose|j: int| 0 <= j < self.keys().len() && self.keys()[j] == k;
                    self.lemma_index_of(j);
                    if j < i {
                        old(self).lemma_index_of(j);
                        if k == key@ {
                            old(self).lemma_unique(j, i as int);
                        }
                    } else {
                        old(self).lemma_index_of(j + 1);
                        if k == key@ {
                            old(self).lemma_unique(j + 1, i as int);
                        }
                    }
                }
                assert forall|k: Seq<u8>| #[trigger] old(self).map().remove(key@).contains_key(k)
                    implies self.map().contains_key(k) by {
                    let j = choose|j: int| 0 <= j < old(self).keys().len() && old(self).keys()[j] == k;
                    if j < i {
                        assert(self.keys()[j] == k);
                    } else if j > i {
                        assert(self.keys()[j - 1] == k);
                    }
                }
                assert(self.map() =~= old(self).map().remove(key@));
            }
            Some(v)
        } else {
            None
        }
    }
}


/// A local variable and what is known of it.
#[derive(Debug, Clone, Copy)]
pub struct Local {
    pub decl: NodeRef,
    pub used: bool,
    pub constant: bool,
    pub ty: TypeSet,
}

/// A declared global variable.
#[derive(Debug, Clone, Copy)]
pub struct Global {
    pub decl: NodeRef,
    pub constant: bool,
}

/// What a name is bound to.
#[derive(Debug, Clone, Copy)]
pub enum Variable {
    Local(Local),
    Global(Global),
    Vararg(Varargpar),
}

/// The node that declares a variable.
pub open spec fn variable_decl(v: Variable) -> NodeRef {
    match v {
        Variable::Local(l) => l.decl,
        Variable::Global(g) => g.decl,
        Variable::Vararg(p) => p.spec_syntax(),
    }
}

/// Whether any global was declared in the scope, and the first such declaration.
#[derive(Debug, Clone, Copy)]
pub enum GlobalState {
    Implicit,
    Explicit(NodeRef),
}

/// One lexical scope: a block, or the body of a function.
pub struct Scope {
    /// `goto` statements whose label is not yet known, by label name.
    pub pending_goto: NameMap<Vec<Gotostat>>,
    /// Labels and whether some `goto` uses them, by name.
    pub label: NameMap<(Label, bool)>,
    /// The variables bound to each name, the innermost last.
    pub vars: NameMap<Vec<Variable>>,
    /// The declaration `global *`, if the scope has one.
    pub collective_global: Option<Global>,
    /// For each pending `goto`, the locals declared after it.
    pub skipped: Vec<(Gotostat, Vec<NodeRef>)>,
    /// The named vararg parameter of a function scope, and whether it is used.
    pub varargs: Option<(Varargpar, bool)>,
    /// For each label, the statement that follows it.
    pub entry: Vec<(Label, Stat)>,
    /// Whether the scope is the body of a function.
    pub func: bool,
}

/// Every variable that the scopes `old` declare, `new` declare too, in the same scope and
/// in the same place among those of its name; and each scope stays a function body or not.
/// Uses may differ, and new variables may be declared.
pub open spec fn declared_kept(old: Seq<Scope>, new: Seq<Scope>) -> bool {
    &&& old.len() == new.len()
    &&& forall|k: int| 0 <= k < old.len() ==> (#[trigger] new[k]).func == old[k].func
    &&& forall|k: int, n: Seq<u8>|
        0 <= k < old.len() && #[trigger] old[k].vars.map().contains_key(n) ==> new[k].vars.map().contains_key(n)
            && old[k].vars.map()[n]@.len() <= new[k].vars.map()[n]@.len()
    &&& forall|k: int, n: Seq<u8>, i: int|
        0 <= k < old.len() && old[k].vars.map().contains_key(n) && 0 <= i < old[k].vars.map()[n]@.len()
            ==> variable_decl(#[trigger] new[k].vars.map()[n]@[i]) == variable_decl(old[k].vars.map()[n]@[i])
}

/// `declared_kept` is transitive.
pub proof fn lemma_declared_kept_trans(a: Seq<Scope>, b: Seq<Scope>, c: Seq<Scope>)
    requires
        declared_kept(a, b),
        declared_kept(b, c),
    ensures
        declared_kept(a, c),
{
    assert forall|k: int, n: Seq<u8>, i: int|
        0 <= k < a.len() && a[k].vars.map().contains_key(n) && 0 <= i < a[k].vars.map()[n]@.len()
            implies variable_decl(#[trigger] c[k].vars.map()[n]@[i]) == variable_decl(a[k].vars.map()[n]@[i]) by {
        assert(b[k].vars.map().contains_key(n));
        assert(variable_decl(b[k].vars.map()[n]@[i]) == variable_decl(a[k].vars.map()[n]@[i]));
    }
}

/// Leaving the innermost scope keeps what the other scopes declare.
pub proof fn lemma_pop_declared_kept(old: Seq<Scope>, new: Seq<Scope>)
    requires
        old.len() > 0,
        new.len() == old.len() - 1,
        forall|k: int| 0 <= k < new.len() - 1 ==> #[trigger] new[k] == old[k],
        new.len() > 0 && !old.last().func ==> pending_merged(old[old.len() - 2], old.last(), new.last()),
        old.last().func ==> new == old.drop_last(),
    ensures
        declared_kept(old.drop_last(), new),
{
    let d = old.drop_last();
    if new.len() > 0 && !old.last().func {
        let k = new.len() - 1;
        assert(new.last() == new[k]);
        assert(d[k] == old[old.len() - 2]);
        assert(new[k].vars == d[k].vars);
        assert(new[k].func == d[k].func);
    }
    assert forall|k: int| 0 <= k < d.len() implies (#[trigger] new[k]).vars == d[k].vars && new[k].func == d[k].func by {
        if k < new.len() - 1 {
            assert(new[k] == old[k]);
        }
    }
}

/// What scopes keep of scopes, their first `m` keep of the first `m`.
pub proof fn lemma_declared_kept_prefix(a: Seq<Scope>, b: Seq<Scope>, m: int)
    requires
        declared_kept(a, b),
        0 <= m <= a.len(),
    ensures
        declared_kept(a.take(m), b.take(m)),
{
    assert forall|k: int, n: Seq<u8>, i: int|
        0 <= k < m && a.take(m)[k].vars.map().contains_key(n) && 0 <= i < a.take(m)[k].vars.map()[n]@.len()
            implies variable_decl(#[trigger] b.take(m)[k].vars.map()[n]@[i]) == variable_decl(a.take(m)[k].vars.map()[n]@[i]) by {
        assert(a.take(m)[k] == a[k]);
        assert(b.take(m)[k] == b[k]);
    }
    assert forall|k: int, n: Seq<u8>| 0 <= k < m && #[trigger] a.take(m)[k].vars.map().contains_key(n) implies
        b.take(m)[k].vars.map().contains_key(n) && a.take(m)[k].vars.map()[n]@.len() <= b.take(m)[k].vars.map()[n]@.len() by {
        assert(a.take(m)[k] == a[k]);
        assert(b.take(m)[k] == b[k]);
    }
    assert forall|k: int| 0 <= k < m implies (#[trigger] b.take(m)[k]).func == a.take(m)[k].func by {
        assert(a.take(m)[k] == a[k]);
        assert(b.take(m)[k] == b[k]);
    }
}

/// The nodes that `v` refers to lie below `n`.
pub open spec fn variable_below(v: Variable, n: int) -> bool {
    variable_decl(v).0 < n
}

impl Scope {
    /// The maps are well formed and every bound name has a variable.
    pub open spec fn wf(&self) -> bool {
        &&& self.pending_goto.wf()
        &&& self.label.wf()
        &&& self.vars.wf()
        &&& forall|i: int| 0 <= i < self.vars.values().len() ==> (#[trigger] self.vars.values()[i])@.len() > 0
    }

    /// Every node that the scope refers to lies below `n`.
    pub open spec fn refs_below(&self, n: int) -> bool {
        &&& forall|i: int, j: int|
            0 <= i < self.vars.values().len() && 0 <= j < self.vars.values()[i]@.len()
                ==> variable_below(#[trigger] self.vars.values()[i]@[j], n)
        &&& forall|i: int|
            0 <= i < self.label.values().len() ==> (#[trigger] self.label.values()[i]).0.spec_syntax().0 < n
        &&& forall|i: int, j: int|
            0 <= i < self.pending_goto.values().len() && 0 <= j < self.pending_goto.values()[i]@.len()
                ==> (#[trigger] self.pending_goto.values()[i]@[j]).spec_syntax().0 < n
        &&& self.collective_global matches Some(g) ==> g.decl.0 < n
        &&& skipped_below(self.skipped@, n)
        &&& self.varargs matches Some((v, _)) ==> v.spec_syntax().0 < n
        &&& forall|i: int|
            0 <= i < self.entry@.len() ==> (#[trigger] self.entry@[i]).0.spec_syntax().0 < n
                && self.entry@[i].1.spec_syntax().0 < n
    }

    /// A fresh scope.
    pub fn new(func: bool, varargs: Option<(Varargpar, bool)>) -> (r: Scope)
        ensures
            r.wf(),
            r.func == func,
            r.varargs == varargs,
            r.vars.map() == Map::<Seq<u8>, Vec<Variable>>::empty(),
            r.label.map() == Map::<Seq<u8>, (Label, bool)>::empty(),
            r.pending_goto.map() == Map::<Seq<u8>, Vec<Gotostat>>::empty(),
            r.collective_global is None,
            r.skipped@.len() == 0,
            r.entry@.len() == 0,
            forall|n: int| (varargs matches Some((v, _)) ==> v.spec_syntax().0 < n) ==> #[trigger] r.refs_below(n),
    {
        Scope {
            pending_goto: NameMap::new(),
            label: NameMap::new(),
            vars: NameMap::new(),
            collective_global: None,
            skipped: Vec::new(),
            varargs,
            entry: Vec::new(),
            func,
        }
    }
}

/// The variable that `name` is bound to in scope `s`, if any.
pub open spec fn scope_var(s: Scope, name: Seq<u8>) -> Option<Variable> {
    if s.vars.map().contains_key(name) && s.vars.map()[name]@.len() > 0 {
        Some(s.vars.map()[name]@.last())
    } else {
        match s.collective_global {
            Some(g) => Some(Variable::Global(g)),
            None => None,
        }
    }
}

/// The variable that `name` is bound to in the innermost of the first `k` scopes that binds
/// it, with the index of that scope.
pub open spec fn lookup_below(scopes: Seq<Scope>, k: int, name: Seq<u8>) -> Option<(Variable, int)>
    decreases k,
{
    if k <= 0 {
        None
    } else {
        match scope_var(scopes[k - 1], name) {
            Some(v) => Some((v, k - 1)),
            None => lookup_below(scopes, k - 1, name),
        }
    }
}

/// What `lookup_below` finds among the first `i` scopes comes from one of them.
pub proof fn lemma_lookup_below_found(scopes: Seq<Scope>, i: int, name: Seq<u8>)
    ensures
        lookup_below(scopes, i, name) matches Some((v, k)) ==> 0 <= k < i && scope_var(scopes[k], name) == Some(v)
            && lookup_below(scopes, k + 1, name) == Some((v, k)),
    decreases i,
{
    if i > 0 {
        lemma_lookup_below_found(scopes, i - 1, name);
    }
}

/// Marking the variable found in scope `k` changes what the first `i` scopes bind to the
/// marked variable, from the same scope.
proof fn lemma_marked_lookup_below(old: Seq<Scope>, new: Seq<Scope>, name: Seq<u8>, lhs: bool, v: Variable, k: int, i: int)
    requires
        new.len() == old.len(),
        0 <= k < i <= old.len(),
        forall|j: int| 0 <= j < old.len() && j != k ==> #[trigger] new[j] == old[j],
        old[k].vars.map().contains_key(name),
        old[k].vars.map()[name]@.len() > 0,
        new[k].vars.map() == old[k].vars.map().insert(name, new[k].vars.map()[name]),
        new[k].vars.map()[name]@ == old[k].vars.map()[name]@.update(old[k].vars.map()[name]@.len() - 1, mark_used(v, lhs)),
        lookup_below(old, i, name) == Some((v, k)),
    ensures
        lookup_below(new, i, name) == Some((mark_used(v, lhs), k)),
    decreases i,
{
    if i - 1 == k {
        assert(new[k].vars.map().contains_key(name));
        assert(scope_var(new[k], name) == Some(mark_used(v, lhs)));
    } else {
        lemma_lookup_below_found(old, i, name);
        assert(scope_var(old[i - 1], name) is None);
        assert(new[i - 1] == old[i - 1]);
        lemma_marked_lookup_below(old, new, name, lhs, v, k, i - 1);
    }
}

/// Reading a name that resolves to a local records the local as used, and writing it does
/// not; the name still resolves to the same declaration in the same scope, and nothing else
/// of the local changes.
pub proof fn lemma_read_marks_local_used(old: Seq<Scope>, new: Seq<Scope>, name: Seq<u8>, lhs: bool, l: Local, same: bool)
    requires
        new.len() == old.len(),
        var_marked(old, new, name, lhs),
        lookup_var(old, name) == Some((Variable::Local(l), same)),
    ensures
        !lhs ==> lookup_var(new, name) == Some((Variable::Local(Local { used: true, ..l }), same)),
        lhs ==> lookup_var(new, name) == Some((Variable::Local(l), same)),
{
    let n = old.len() as int;
    lemma_lookup_below_found(old, n, name);
    let (found, k) = lookup_below(old, n, name)->0;
    assert(old[k].vars.map().contains_key(name) && old[k].vars.map()[name]@.len() > 0);
    lemma_marked_lookup_below(old, new, name, lhs, Variable::Local(l), k, n);
}

/// Scopes that agree below `k` bind every name alike below `k`.
pub proof fn lemma_lookup_below_prefix(a: Seq<Scope>, b: Seq<Scope>, k: int, name: Seq<u8>)
    requires
        k <= a.len(),
        k <= b.len(),
        forall|i: int| 0 <= i < k ==> #[trigger] a[i] == b[i],
    ensures
        lookup_below(a, k, name) == lookup_below(b, k, name),
    decreases k,
{
    if k > 0 {
        assert(a[k - 1] == b[k - 1]);
        lemma_lookup_below_prefix(a, b, k - 1, name);
    }
}

/// Binding `name` anew in the innermost scope leaves the binding of every other name.
pub proof fn lemma_lookup_var_other(old: Seq<Scope>, new: Seq<Scope>, name: Seq<u8>, other: Seq<u8>)
    requires
        old.len() == new.len(),
        old.len() > 0,
        forall|i: int| 0 <= i < old.len() - 1 ==> #[trigger] new[i] == old[i],
        new.last().vars.map() == old.last().vars.map().insert(name, new.last().vars.map()[name]),
        new.last().collective_global == old.last().collective_global,
        other != name,
    ensures
        lookup_var(new, other) == lookup_var(old, other),
{
    let n = old.len() as int;
    lemma_lookup_below_prefix(new, old, n - 1, other);
    assert(new.last().vars.map().contains_key(other) == old.last().vars.map().contains_key(other));
    if old.last().vars.map().contains_key(other) {
        assert(new.last().vars.map()[other] == old.last().vars.map()[other]);
    }
    assert(scope_var(new[n - 1], other) == scope_var(old[n - 1], other));
}

/// The variable that `name` is bound to in the innermost scope that binds it, with whether
/// that scope is the innermost one.
pub open spec fn lookup_var(scopes: Seq<Scope>, name: Seq<u8>) -> Option<(Variable, bool)> {
    match lookup_below(scopes, scopes.len() as int, name) {
        Some((v, i)) => Some((v, i == scopes.len() - 1)),
        None => None,
    }
}

/// A variable after a use of it: a local read is marked used.
pub open spec fn mark_used(v: Variable, lhs: bool) -> Variable {
    match v {
        Variable::Local(l) => Variable::Local(Local { used: l.used || !lhs, ..l }),
        _ => v,
    }
}

/// The statement recorded after `label` in `entries`, the first record winning.
pub open spec fn entry_lookup(entries: Seq<(Label, Stat)>, label: Label) -> Option<Stat>
    decreases entries.len(),
{
    if entries.len() == 0 {
        None
    } else if entries[0].0 == label {
        Some(entries[0].1)
    } else {
        entry_lookup(entries.drop_first(), label)
    }
}

/// The locals recorded as skipped by `goto`, the first record winning.
pub open spec fn skipped_lookup(skipped: Seq<(Gotostat, Vec<NodeRef>)>, goto: Gotostat) -> Seq<NodeRef>
    decreases skipped.len(),
{
    if skipped.len() == 0 {
        Seq::empty()
    } else if skipped[0].0 == goto {
        skipped[0].1@
    } else {
        skipped_lookup(skipped.drop_first(), goto)
    }
}

/// The scope index of the innermost label `name` visible from the first `k` scopes: the
/// search stops after the first function scope.
pub open spec fn label_below(scopes: Seq<Scope>, k: int, name: Seq<u8>) -> Option<int>
    decreases k,
{
    if k <= 0 {
        None
    } else if scopes[k - 1].label.map().contains_key(name) {
        Some(k - 1)
    } else if scopes[k - 1].func {
        None
    } else {
        label_below(scopes, k - 1, name)
    }
}

/// The first global variable in `vars`, in order.
pub open spec fn first_global(vars: Seq<Variable>) -> Option<NodeRef>
    decreases vars.len(),
{
    if vars.len() == 0 {
        None
    } else if vars[0] is Global {
        Some(vars[0]->Global_0.decl)
    } else {
        first_global(vars.drop_first())
    }
}

/// The first global variable bound in `vals`, walking the names in order.
pub open spec fn first_global_in(vals: Seq<Vec<Variable>>) -> Option<NodeRef>
    decreases vals.len(),
{
    if vals.len() == 0 {
        None
    } else if first_global(vals[0]@) is Some {
        first_global(vals[0]@)
    } else {
        first_global_in(vals.drop_first())
    }
}

/// The first global declared in the first `k` scopes, walking from the innermost.
pub open spec fn global_below(scopes: Seq<Scope>, k: int) -> Option<NodeRef>
    decreases k,
{
    if k <= 0 {
        None
    } else if first_global_in(scopes[k - 1].vars.values()) is Some {
        first_global_in(scopes[k - 1].vars.values())
    } else {
        global_below(scopes, k - 1)
    }
}

/// Whether a vararg expression is allowed in the first `k` scopes: the innermost function
/// scope decides, and the chunk, which is no function scope, allows it.
pub open spec fn varargs_below(scopes: Seq<Scope>, k: int) -> bool
    decreases k,
{
    if k <= 0 {
        true
    } else if scopes[k - 1].func {
        scopes[k - 1].varargs is Some
    } else {
        varargs_below(scopes, k - 1)
    }
}


/// The variable after a use of it.
fn marked(v: Variable, lhs: bool) -> (r: Variable)
    ensures
        r == mark_used(v, lhs),
{
    match v {
        Variable::Local(l) => Variable::Local(Local { used: l.used || !lhs, ..l }),
        _ => v,
    }
}

impl Scope {
    /// The fields other than the vararg parameter are those of `o`.
    pub open spec fn same_but_varargs(&self, o: &Scope) -> bool {
        &&& self.pending_goto == o.pending_goto
        &&& self.label == o.label
        &&& self.vars == o.vars
        &&& self.collective_global == o.collective_global
        &&& self.skipped == o.skipped
        &&& self.entry == o.entry
        &&& self.func == o.func
    }

    /// The fields other than the variables are those of `o`.
    pub open spec fn same_but_vars(&self, o: &Scope) -> bool {
        &&& self.pending_goto == o.pending_goto
        &&& self.label == o.label
        &&& self.collective_global == o.collective_global
        &&& self.skipped == o.skipped
        &&& self.varargs == o.varargs
        &&& self.entry == o.entry
        &&& self.func == o.func
    }

    /// Binds `name` to `v`, shadowing earlier variables of the same name in this scope.
    fn push_var(&mut self, name: &[u8], v: Variable)
        requires
            old(self).wf(),
        ensures
            final(self).wf(),
            final(self).same_but_vars(old(self)),
            final(self).vars.map().contains_key(name@),
            final(self).vars.map()[name@]@ == (if old(self).vars.map().contains_key(name@) {
                old(self).vars.map()[name@]@
            } else {
                Seq::empty()
            }).push(v),
            final(self).vars.map() == old(self).vars.map().insert(name@, final(self).vars.map()[name@]),
            forall|n: int| old(self).refs_below(n) && variable_below(v, n) ==> #[trigger] final(self).refs_below(n),
    {
        match self.vars.find(name) {
            Some(i) => {
                let mut vs = self.vars.replace_at(i, Vec::new());
                vs.push(v);
                let ghost mid = self.vars.values();
                self.vars.replace_at(i, vs);
                assert(self.vars.values() =~= old(self).vars.values().update(i as int, vs));
                assert forall|n: int| old(self).refs_below(n) && variable_below(v, n) implies #[trigger] self.refs_below(n) by {
                    assert forall|a: int, b: int|
                        0 <= a < self.vars.values().len() && 0 <= b < self.vars.values()[a]@.len()
                        implies variable_below(#[trigger] self.vars.values()[a]@[b], n) by {
                        if a != i {
                            assert(self.vars.values()[a] == old(self).vars.values()[a]);
                        } else if b < vs@.len() - 1 {
                            assert(self.vars.values()[a]@[b] == old(self).vars.values()[a]@[b]);
                        }
                    }
                }
                assert forall|a: int| 0 <= a < self.vars.values().len() implies (#[trigger] self.vars.values()[a])@.len() > 0 by {
                    if a != i {
                        assert(self.vars.values()[a] == old(self).vars.values()[a]);
                    }
                }
            }
            None => {
                let mut vs: Vec<Variable> = Vec::new();
                vs.push(v);
                let r = self.vars.insert(name, vs);
                assert(!old(self).vars.keys().contains(name@));
                assert(self.vars.values() == old(self).vars.values().insert(r as int, vs));
                let ghost nv = self.vars.values();
                let ghost ov = old(self).vars.values();
                assert(old(self).vars.wf());
                assert(r <= ov.len());
                proof {
                    ov.insert_ensures(r as int, vs);
                }
                assert forall|a: int| 0 <= a < r implies nv[a] == ov[a] by {}
                assert forall|a: int| r < a < nv.len() implies nv[a] == ov[a - 1] by {
                    assert(nv[(a - 1) + 1] == ov[a - 1]);
                }
                assert forall|n: int| old(self).refs_below(n) && variable_below(v, n) implies #[trigger] self.refs_below(n) by {
                    assert forall|a: int, b: int|
                        0 <= a < nv.len() && 0 <= b < nv[a]@.len()
                        implies variable_below(#[trigger] nv[a]@[b], n) by {
                        if a < r {
                            assert(nv[a] == ov[a]);
                            assert(variable_below(ov[a]@[b], n));
                        } else if a > r {
                            assert(nv[a] == ov[a - 1]);
                            assert(variable_below(ov[a - 1]@[b], n));
                        }
                    }
                }
                assert forall|a: int| 0 <= a < self.vars.values().len() implies (#[trigger] self.vars.values()[a])@.len() > 0 by {
                    if a < r {
                        assert(self.vars.values()[a] == old(self).vars.values()[a]);
                    } else if a > r {
                        assert(self.vars.values()[a] == old(self).vars.values()[a - 1]);
                    }
                }
            }
        }
    }

    /// Marks the innermost variable of the name at index `i` as used, unless it is assigned.
    fn mark_used_at(&mut self, i: usize, lhs: bool)
        requires
            old(self).wf(),
            i < old(self).vars.keys().len(),
        ensures
            final(self).wf(),
            final(self).same_but_vars(old(self)),
            final(self).vars.keys() == old(self).vars.keys(),
            final(self).vars.values().len() == old(self).vars.values().len(),
            forall|j: int| 0 <= j < final(self).vars.values().len() && j != i ==> #[trigger] final(self).vars.values()[j] == old(self).vars.values()[j],
            final(self).vars.values()[i as int]@ == old(self).vars.values()[i as int]@.update(
                old(self).vars.values()[i as int]@.len() - 1,
                mark_used(old(self).vars.values()[i as int]@.last(), lhs),
            ),
            final(self).vars.map() == old(self).vars.map().insert(
                old(self).vars.keys()[i as int],
                final(self).vars.values()[i as int],
            ),
            forall|n: int| old(self).refs_below(n) ==> #[trigger] final(self).refs_below(n),
    {
        let mut vs = self.vars.replace_at(i, Vec::new());
        let k = vs.len() - 1;
        let v = vs[k];
        vs.set(k, marked(v, lhs));
        self.vars.replace_at(i, vs);
        assert(self.vars.map() =~= old(self).vars.map().insert(old(self).vars.keys()[i as int], vs));
        assert forall|n: int| old(self).refs_below(n) implies #[trigger] self.refs_below(n) by {
            assert forall|a: int, b: int|
                0 <= a < self.vars.values().len() && 0 <= b < self.vars.values()[a]@.len()
                implies variable_below(#[trigger] self.vars.values()[a]@[b], n) by {
                if a != i {
                    assert(self.vars.values()[a] == old(self).vars.values()[a]);
                } else {
                    assert(variable_below(old(self).vars.values()[a]@[b], n));
                }
            }
        }
        assert forall|a: int| 0 <= a < self.vars.values().len() implies (#[trigger] self.vars.values()[a])@.len() > 0 by {
            if a != i {
                assert(self.vars.values()[a] == old(self).vars.values()[a]);
            }
        }
    }
}


/// Records that `goto` skips the local declared by `decl`.
fn add_skipped(skipped: &mut Vec<(Gotostat, Vec<NodeRef>)>, goto: Gotostat, decl: NodeRef)
    ensures
        final(skipped)@.len() >= old(skipped)@.len(),
        skipped_lookup(final(skipped)@, goto) == skipped_lookup(old(skipped)@, goto).push(decl),
        forall|g: Gotostat| g != goto ==> skipped_lookup(final(skipped)@, g) == #[trigger] skipped_lookup(old(skipped)@, g),
        forall|n: int|
            skipped_below(old(skipped)@, n) && goto.spec_syntax().0 < n && decl.0 < n
                ==> #[trigger] skipped_below(final(skipped)@, n),
{
    let mut i: usize = 0;
    while i < skipped.len()
        invariant
            i <= skipped@.len(),
            skipped@ == old(skipped)@,
            forall|k: int| 0 <= k < i ==> (#[trigger] skipped@[k]).0 != goto,
        decreases skipped@.len() - i,
    {
        if skipped[i].0 == goto {
            let (g, mut locals) = skipped.remove(i);
            locals.push(decl);
            skipped.insert(i, (g, locals));
            proof {
                assert(skipped@ =~= old(skipped)@.update(i as int, (goto, locals)));
                lemma_skipped_update(old(skipped)@, i as int, goto, locals);
                assert forall|n: int|
                    skipped_below(old(skipped)@, n) && goto.spec_syntax().0 < n && decl.0 < n
                    implies #[trigger] skipped_below(skipped@, n) by {
                    assert forall|a: int, b: int|
                        0 <= a < skipped@.len() && 0 <= b < skipped@[a].1@.len()
                        implies (#[trigger] skipped@[a].1@[b]).0 < n by {
                        if a != i {
                            assert(skipped@[a] == old(skipped)@[a]);
                        } else if b < locals@.len() - 1 {
                            assert(skipped@[a].1@[b] == old(skipped)@[a].1@[b]);
                        }
                    }
                    assert forall|a: int| 0 <= a < skipped@.len() implies (#[trigger] skipped@[a]).0.spec_syntax().0 < n by {
                        if a != i {
                            assert(skipped@[a] == old(skipped)@[a]);
                        }
                    }
                }
            }
            return;
        }
        i = i + 1;
    }
    let mut locals: Vec<NodeRef> = Vec::new();
    locals.push(decl);
    skipped.push((goto, locals));
    proof {
        lemma_skipped_append(old(skipped)@, goto, locals);
    }
}

/// The nodes that `skipped` refers to lie below `n`.
pub open spec fn skipped_below(skipped: Seq<(Gotostat, Vec<NodeRef>)>, n: int) -> bool {
    &&& forall|i: int| 0 <= i < skipped.len() ==> (#[trigger] skipped[i]).0.spec_syntax().0 < n
    &&& forall|i: int, j: int|
        0 <= i < skipped.len() && 0 <= j < skipped[i].1@.len() ==> (#[trigger] skipped[i].1@[j]).0 < n
}

proof fn lemma_skipped_update(s: Seq<(Gotostat, Vec<NodeRef>)>, i: int, goto: Gotostat, locals: Vec<NodeRef>)
    requires
        0 <= i < s.len(),
        s[i].0 == goto,
        forall|k: int| 0 <= k < i ==> (#[trigger] s[k]).0 != goto,
    ensures
        skipped_lookup(s.update(i, (goto, locals)), goto) == locals@,
        skipped_lookup(s, goto) == s[i].1@,
        forall|g: Gotostat| g != goto ==> skipped_lookup(s.update(i, (goto, locals)), g) == #[trigger] skipped_lookup(s, g),
    decreases i,
{
    let t = s.update(i, (goto, locals));
    if i > 0 {
        lemma_skipped_update(s.drop_first(), i - 1, goto, locals);
        assert(t.drop_first() =~= s.drop_first().update(i - 1, (goto, locals)));
        assert forall|g: Gotostat| g != goto implies skipped_lookup(t, g) == #[trigger] skipped_lookup(s, g) by {
            assert(skipped_lookup(t.drop_first(), g) == skipped_lookup(s.drop_first(), g));
        }
    } else {
        assert(t.drop_first() =~= s.drop_first());
    }
}

proof fn lemma_skipped_append(s: Seq<(Gotostat, Vec<NodeRef>)>, goto: Gotostat, locals: Vec<NodeRef>)
    requires
        forall|k: int| 0 <= k < s.len() ==> (#[trigger] s[k]).0 != goto,
    ensures
        skipped_lookup(s, goto) == Seq::<NodeRef>::empty(),
        skipped_lookup(s.push((goto, locals)), goto) == locals@,
        forall|g: Gotostat| g != goto ==> skipped_lookup(s.push((goto, locals)), g) == #[trigger] skipped_lookup(s, g),
    decreases s.len(),
{
    let t = s.push((goto, locals));
    if s.len() > 0 {
        lemma_skipped_append(s.drop_first(), goto, locals);
        assert(t.drop_first() =~= s.drop_first().push((goto, locals)));
        assert forall|g: Gotostat| g != goto implies skipped_lookup(t, g) == #[trigger] skipped_lookup(s, g) by {
            assert(skipped_lookup(t.drop_first(), g) == skipped_lookup(s.drop_first(), g));
        }
    } else {
        assert forall|g: Gotostat| g != goto implies skipped_lookup(t, g) == #[trigger] skipped_lookup(s, g) by {
            assert(t.drop_first() =~= Seq::<(Gotostat, Vec<NodeRef>)>::empty());
            assert(skipped_lookup(t.drop_first(), g) == Seq::<NodeRef>::empty());
        }
    }
}


proof fn lemma_entry_update(s: Seq<(Label, Stat)>, i: int, label: Label, stat: Stat)
    requires
        0 <= i < s.len(),
        s[i].0 == label,
        forall|k: int| 0 <= k < i ==> (#[trigger] s[k]).0 != label,
    ensures
        entry_lookup(s.update(i, (label, stat)), label) == Some(stat),
        forall|l: Label| l != label ==> entry_lookup(s.update(i, (label, stat)), l) == #[trigger] entry_lookup(s, l),
    decreases i,
{
    let t = s.update(i, (label, stat));
    if i > 0 {
        lemma_entry_update(s.drop_first(), i - 1, label, stat);
        assert(t.drop_first() =~= s.drop_first().update(i - 1, (label, stat)));
        assert forall|l: Label| l != label implies entry_lookup(t, l) == #[trigger] entry_lookup(s, l) by {
            assert(entry_lookup(t.drop_first(), l) == entry_lookup(s.drop_first(), l));
        }
    } else {
        assert(t.drop_first() =~= s.drop_first());
    }
}

proof fn lemma_entry_append(s: Seq<(Label, Stat)>, label: Label, stat: Stat)
    requires
        forall|k: int| 0 <= k < s.len() ==> (#[trigger] s[k]).0 != label,
    ensures
        entry_lookup(s.push((label, stat)), label) == Some(stat),
        forall|l: Label| l != label ==> entry_lookup(s.push((label, stat)), l) == #[trigger] entry_lookup(s, l),
    decreases s.len(),
{
    let t = s.push((label, stat));
    if s.len() > 0 {
        lemma_entry_append(s.drop_first(), label, stat);
        assert(t.drop_first() =~= s.drop_first().push((label, stat)));
        assert forall|l: Label| l != label implies entry_lookup(t, l) == #[trigger] entry_lookup(s, l) by {
            assert(entry_lookup(t.drop_first(), l) == entry_lookup(s.drop_first(), l));
        }
    } else {
        assert forall|l: Label| l != label implies entry_lookup(t, l) == #[trigger] entry_lookup(s, l) by {
            assert(t.drop_first() =~= Seq::<(Label, Stat)>::empty());
            assert(entry_lookup(t.drop_first(), l) == None::<Stat>);
        }
    }
}


/// The index of the first record of `label`, or the number of records.
fn entry_index(entries: &Vec<(Label, Stat)>, label: Label) -> (r: usize)
    ensures
        r <= entries@.len(),
        r < entries@.len() ==> entries@[r as int].0 == label,
        forall|k: int| 0 <= k < r ==> (#[trigger] entries@[k]).0 != label,
{
    let mut i: usize = 0;
    while i < entries.len()
        invariant
            i <= entries@.len(),
            forall|k: int| 0 <= k < i ==> (#[trigger] entries@[k]).0 != label,
        decreases entries@.len() - i,
    {
        if entries[i].0 == label {
            return i;
        }
        i = i + 1;
    }
    i
}


/// `new` is `old` after a use of `name`: in the innermost scope that binds `name` to a
/// variable (not to a collective global declaration) that variable is marked used when it is a
/// read local, and nothing else changes.
pub open spec fn var_marked(old: Seq<Scope>, new: Seq<Scope>, name: Seq<u8>, lhs: bool) -> bool {
    match lookup_below(old, old.len() as int, name) {
        Some((v, k)) if old[k].vars.map().contains_key(name) => {
            &&& forall|j: int| 0 <= j < old.len() && j != k ==> #[trigger] new[j] == old[j]
            &&& new[k].same_but_vars(&old[k])
            &&& new[k].vars.keys() == old[k].vars.keys()
            &&& new[k].vars.map() == old[k].vars.map().insert(name, new[k].vars.map()[name])
            &&& new[k].vars.map()[name]@ == old[k].vars.map()[name]@.update(
                old[k].vars.map()[name]@.len() - 1,
                mark_used(v, lhs),
            )
        },
        _ => new == old,
    }
}


/// Whether the name starts with an underscore.
pub fn underscore_prefixed(name: &[u8]) -> (r: bool)
    ensures
        r == (name@.len() > 0 && name@[0] == 95u8),
{
    name.len() > 0 && name[0] == 95u8
}

/// Whether the name is the single underscore.
pub fn is_underscore(name: &[u8]) -> (r: bool)
    ensures
        r == (name@ == seq![95u8]),
{
    let r = name.len() == 1 && name[0] == 95u8;
    if r {
        assert(name@ =~= seq![95u8]);
    }
    r
}

/// The text of the name token of `decl`, if it has one.
pub open spec fn name_text(cst: &Cst, decl: NodeRef) -> Option<Seq<u8>> {
    match cst.spec_child_token(decl, Token::Name) {
        Some(t) => Some(cst.text(cst.node_span(t))),
        None => None,
    }
}

/// Whether the name starts with `_`.
pub open spec fn has_underscore_prefix(name: Seq<u8>) -> bool {
    name.len() > 0 && name[0] == 95u8
}

/// An unused declaration named `name` goes unreported: the name `_`, or, where `hint` allows
/// it, any name with a `_` prefix.
pub open spec fn unused_hinted(name: Seq<u8>, hint: bool) -> bool {
    name == seq![95u8] || (hint && has_underscore_prefix(name))
}

/// The suggestion to suppress an unused report at `span`: a `_` prefix where the hint is
/// allowed, else `_` as the name.
pub open spec fn underscore_help(span: Span, hint: bool) -> crate::parser::GroupView {
    if hint {
        patches(Level::Help, "use an underscore prefix to suppress this warning"@, seq![patch((Span { start: span.start, end: span.start }), "_"@)])
    } else {
        patches(Level::Help, "use an underscore to suppress this warning"@, seq![patch(span, "_"@)])
    }
}

/// The reports of the unused declaration `decl`: an unused parameter unless its name has a
/// `_` prefix, an unused loop variable or local unless its name is hinted, an unused local
/// function; each only where its lint is not allowed.
pub open spec fn unused_reports(ctx: &DiagnosticContext, cst: &Cst, decl: NodeRef) -> Seq<DiagnosticView> {
    let span = cst.node_span(decl);
    let primary = seq![ann(AnnotationKind::Primary, span, None)];
    (if ctx.levels@[UNUSED_PARAMETER as int] != Severity::Allow && Par::spec_cast(cst, decl) is Some
        && name_text(cst, decl) is Some && !has_underscore_prefix(name_text(cst, decl)->0) {
        seq![lint_diagnostic(ctx, UNUSED_PARAMETER, primary, seq![underscore_help(span, true)])]
    } else {
        Seq::empty()
    }) + (if ctx.levels@[UNUSED_LOOPVAR as int] != Severity::Allow && Loopvar::spec_cast(cst, decl) is Some
        && name_text(cst, decl) is Some && !unused_hinted(
        name_text(cst, decl)->0,
        ctx.config.allow_loopvar_unused_hint,
    ) {
        seq![lint_diagnostic(ctx, UNUSED_LOOPVAR, primary, seq![underscore_help(span, ctx.config.allow_loopvar_unused_hint)])]
    } else {
        Seq::empty()
    }) + (if ctx.levels@[UNUSED_LOCAL as int] == Severity::Allow {
        Seq::empty()
    } else if Attname::spec_cast(cst, decl) is Some {
        if name_text(cst, decl) is Some && !unused_hinted(name_text(cst, decl)->0, ctx.config.allow_local_unused_hint) {
            seq![lint_diagnostic(ctx, UNUSED_LOCAL, primary, seq![underscore_help(span, ctx.config.allow_local_unused_hint)])]
        } else {
            Seq::empty()
        }
    } else if Localfuncstat::spec_cast(cst, decl) is Some && name_text(cst, decl) is Some {
        let name_span = cst.node_span(cst.spec_child_token(decl, Token::Name)->0);
        seq![lint_diagnostic(ctx, UNUSED_LOCAL, seq![ann(AnnotationKind::Primary, name_span, None)], seq![patches(Level::Help, "delete the definition"@, seq![patch(span, ""@)])])]
    } else {
        Seq::empty()
    })
}

/// The views of diagnostics.
pub open spec fn diagnostics_view(diags: Seq<Diagnostic>) -> Seq<DiagnosticView> {
    diags.map_values(|d: Diagnostic| d@)
}

/// An unused local named `_`, or with a `_` prefix where `allow_local_unused_hint` is set,
/// is not reported; so is an unused loop variable under `allow_loopvar_unused_hint`, and an
/// unused parameter with a `_` prefix.
pub proof fn lemma_unused_hint_suppresses(ctx: &DiagnosticContext, cst: &Cst, decl: NodeRef)
    requires
        name_text(cst, decl) matches Some(n) && (
            (Attname::spec_cast(cst, decl) is Some && unused_hinted(n, ctx.config.allow_local_unused_hint))
            || (Loopvar::spec_cast(cst, decl) is Some && unused_hinted(n, ctx.config.allow_loopvar_unused_hint))
            || (Par::spec_cast(cst, decl) is Some && has_underscore_prefix(n))),
    ensures
        unused_reports(ctx, cst, decl) == Seq::<DiagnosticView>::empty(),
{
    assert(unused_reports(ctx, cst, decl) =~= Seq::<DiagnosticView>::empty());
}

/// Reports the unused local declared by `decl`: as an unused parameter, loop variable or
/// local, by the kind of its declaration and the names that suppress each report.
fn report_unused(ctx: &DiagnosticContext, cst: &Cst, decl: NodeRef, diags: &mut Vec<Diagnostic>)
    requires
        ctx.levels@.len() == LINT_COUNT,
        cst.spans_in_source(),
        decl.0 < cst.spec_len(),
    ensures
        diagnostics_view(final(diags)@) == diagnostics_view(old(diags)@) + unused_reports(ctx, cst, decl),
        reported(ctx, cst.source_view().len() as int, old(diags)@, final(diags)@),
{
    let ghost start = diagnostics_view(diags@);
    if let Some(unused_parameter) = ctx.active::<UnusedParameter>() {
        if let Some(par) = Par::cast(cst, decl) {
            proof {
                Par::lemma_cast(cst, decl);
            }
            if let Some((name, _)) = par.name(cst) {
                if !underscore_prefixed(name) {
                    diags.push(unused_parameter.build(cst.span(decl)));
                }
            }
        }
    }
    if let Some(unused_loopvar) = ctx.active::<UnusedLoopvar>() {
        if let Some(var) = Loopvar::cast(cst, decl) {
            proof {
                Loopvar::lemma_cast(cst, decl);
            }
            if let Some((name, _)) = var.name(cst) {
                if !is_underscore(name) && (!ctx.config.allow_loopvar_unused_hint
                    || !underscore_prefixed(name)) {
                    diags.push(unused_loopvar.build(cst.span(decl)));
                }
            }
        }
    }
    if let Some(unused_local) = ctx.active::<UnusedLocal>() {
        if let Some(var) = Attname::cast(cst, decl) {
            proof {
                Attname::lemma_cast(cst, decl);
            }
            if let Some((name, _)) = var.name(cst) {
                if !is_underscore(name) && (!ctx.config.allow_local_unused_hint
                    || !underscore_prefixed(name)) {
                    diags.push(unused_local.build(cst.span(decl), None));
                }
            }
        } else if let Some(func) = Localfuncstat::cast(cst, decl) {
            if let Some((_, name_span)) = func.name(cst) {
                proof {
                    Localfuncstat::lemma_cast(cst, decl);
                }
                diags.push(unused_local.build(name_span, Some(func.span(cst))));
            }
        }
    }
    assert(diagnostics_view(diags@) =~= start + unused_reports(ctx, cst, decl));
}


/// The reports of the unused locals among `vs`, in order.
pub open spec fn var_reports(ctx: &DiagnosticContext, cst: &Cst, vs: Seq<Variable>) -> Seq<DiagnosticView>
    decreases vs.len(),
{
    if vs.len() == 0 {
        Seq::empty()
    } else {
        var_reports(ctx, cst, vs.drop_last()) + match vs.last() {
            Variable::Local(l) => if !l.used {
                unused_reports(ctx, cst, l.decl)
            } else {
                Seq::empty()
            },
            _ => Seq::empty(),
        }
    }
}

/// A local that has been marked used is never reported as unused: where it closes a list
/// of variables, the list gets exactly the reports of the variables before it.
pub proof fn lemma_used_local_unreported(ctx: &DiagnosticContext, cst: &Cst, vs: Seq<Variable>, l: Local)
    requires
        l.used,
    ensures
        var_reports(ctx, cst, vs.push(Variable::Local(l))) == var_reports(ctx, cst, vs),
{
    assert(vs.push(Variable::Local(l)).drop_last() =~= vs);
    assert(var_reports(ctx, cst, vs) + Seq::<DiagnosticView>::empty() =~= var_reports(ctx, cst, vs));
}

/// The reports of the unused locals in the lists of variables `lists`, in order.
pub open spec fn vars_reports(ctx: &DiagnosticContext, cst: &Cst, lists: Seq<Vec<Variable>>) -> Seq<DiagnosticView>
    decreases lists.len(),
{
    if lists.len() == 0 {
        Seq::empty()
    } else {
        vars_reports(ctx, cst, lists.drop_last()) + var_reports(ctx, cst, lists.last()@)
    }
}

/// The reports of the unused labels among `labels`, in order, where the lint is not allowed.
pub open spec fn label_reports(ctx: &DiagnosticContext, cst: &Cst, labels: Seq<(Label, bool)>) -> Seq<DiagnosticView>
    decreases labels.len(),
{
    if labels.len() == 0 || ctx.levels@[UNUSED_LABEL as int] == Severity::Allow {
        Seq::empty()
    } else {
        label_reports(ctx, cst, labels.drop_last()) + if !labels.last().1 {
            seq![lint_diagnostic(ctx, UNUSED_LABEL, seq![ann(AnnotationKind::Primary, cst.node_span(labels.last().0.spec_syntax()), None)], Seq::empty())]
        } else {
            Seq::empty()
        }
    }
}

/// The error for a `goto` statement whose label was never found, at the label's name.
pub open spec fn undefined_label_report(name_span: Span) -> DiagnosticView {
    DiagnosticView { error: true, groups: seq![annotated(Level::Error, "use of undefined label"@, seq![ann(AnnotationKind::Primary, name_span, None)])] }
}

/// The reports of the `goto` statements among `gotos` whose label was never found.
pub open spec fn goto_reports(cst: &Cst, gotos: Seq<Gotostat>) -> Seq<DiagnosticView>
    decreases gotos.len(),
{
    if gotos.len() == 0 {
        Seq::empty()
    } else {
        goto_reports(cst, gotos.drop_last()) + match cst.spec_child_token(gotos.last().syntax, Token::Name) {
            Some(t) => seq![undefined_label_report(cst.node_span(t))],
            None => Seq::empty(),
        }
    }
}

/// The reports of the pending `goto` statements of the lists `lists`, in order.
pub open spec fn gotos_reports(cst: &Cst, lists: Seq<Vec<Gotostat>>) -> Seq<DiagnosticView>
    decreases lists.len(),
{
    if lists.len() == 0 {
        Seq::empty()
    } else {
        gotos_reports(cst, lists.drop_last()) + goto_reports(cst, lists.last()@)
    }
}

/// The report of an unused vararg parameter, where the lint is not allowed.
pub open spec fn vararg_reports(ctx: &DiagnosticContext, cst: &Cst, varargs: Option<(Varargpar, bool)>) -> Seq<DiagnosticView> {
    match varargs {
        Some((v, used)) => if !used && ctx.levels@[UNUSED_VARARG as int] != Severity::Allow {
            seq![lint_diagnostic(ctx, UNUSED_VARARG, seq![ann(AnnotationKind::Primary, cst.node_span(v.spec_syntax()), None)], Seq::empty())]
        } else {
            Seq::empty()
        },
        None => Seq::empty(),
    }
}

/// What leaving the scope `top` reports: its unused locals, and for a function scope or the
/// outermost one (`last`) also its unused labels, its `goto` statements whose label was never
/// found and an unused vararg parameter.
pub open spec fn scope_reports(ctx: &DiagnosticContext, cst: &Cst, top: Scope, last: bool) -> Seq<DiagnosticView> {
    vars_reports(ctx, cst, top.vars.values()) + if top.func || last {
        label_reports(ctx, cst, top.label.values()) + gotos_reports(cst, top.pending_goto.values())
            + vararg_reports(ctx, cst, top.varargs)
    } else {
        Seq::empty()
    }
}

impl Scope {
    /// The fields other than the pending `goto` statements are those of `o`.
    pub open spec fn same_but_pending(&self, o: &Scope) -> bool {
        &&& self.label == o.label
        &&& self.vars == o.vars
        &&& self.collective_global == o.collective_global
        &&& self.skipped == o.skipped
        &&& self.varargs == o.varargs
        &&& self.entry == o.entry
        &&& self.func == o.func
    }
}

/// The `goto` statements pending for `name` in `parent` followed by those of the first `i`
/// names of `inner` that equal `name`.
pub open spec fn merged_gotos(parent: Scope, inner: Scope, name: Seq<u8>, i: int) -> Seq<Gotostat> {
    (if parent.pending_goto.map().contains_key(name) {
        parent.pending_goto.map()[name]@
    } else {
        Seq::empty()
    }) + (if exists|a: int| 0 <= a < i && inner.pending_goto.keys()[a] == name {
        inner.pending_goto.map()[name]@
    } else {
        Seq::empty()
    })
}

/// `merged` is `parent` with the pending `goto` statements of `inner` appended to its own,
/// name by name.
pub open spec fn pending_merged(parent: Scope, inner: Scope, merged: Scope) -> bool {
    &&& merged.same_but_pending(&parent)
    &&& forall|k: Seq<u8>| #[trigger] merged.pending_goto.map().contains_key(k) <==> (
        parent.pending_goto.map().contains_key(k) || inner.pending_goto.map().contains_key(k))
    &&& forall|k: Seq<u8>| #[trigger] merged.pending_goto.map().contains_key(k) ==> merged.pending_goto.map()[k]@
        == (if parent.pending_goto.map().contains_key(k) {
            parent.pending_goto.map()[k]@
        } else {
            Seq::empty()
        }) + (if inner.pending_goto.map().contains_key(k) {
            inner.pending_goto.map()[k]@
        } else {
            Seq::empty()
        })
}


/// The pending `goto` statements of a scope lie below `n`, seen through its map.
proof fn lemma_pending_map_below(s: Scope, n: int)
    requires
        s.wf(),
        forall|i: int, j: int|
            0 <= i < s.pending_goto.values().len() && 0 <= j < s.pending_goto.values()[i]@.len()
                ==> (#[trigger] s.pending_goto.values()[i]@[j]).spec_syntax().0 < n,
    ensures
        forall|k: Seq<u8>, j: int|
            s.pending_goto.map().contains_key(k) && 0 <= j < s.pending_goto.map()[k]@.len()
                ==> (#[trigger] s.pending_goto.map()[k]@[j]).spec_syntax().0 < n,
{
    assert forall|k: Seq<u8>, j: int|
        s.pending_goto.map().contains_key(k) && 0 <= j < s.pending_goto.map()[k]@.len()
        implies (#[trigger] s.pending_goto.map()[k]@[j]).spec_syntax().0 < n by {
        let a = s.pending_goto.index_of(k);
        assert(s.pending_goto.values()[a]@[j] == s.pending_goto.map()[k]@[j]);
    }
}

/// One step of passing pending `goto` statements of `top` on to its parent.
proof fn lemma_merge_step(
    p0: Scope,
    pi: Scope,
    top: Scope,
    pn: Scope,
    i: int,
    start: Seq<Gotostat>,
    merged: Vec<Gotostat>,
)
    requires
        top.wf(),
        pi.wf(),
        pn.wf(),
        0 <= i < top.pending_goto.keys().len(),
        forall|k: Seq<u8>| #[trigger] pi.pending_goto.map().contains_key(k) <==> (
            p0.pending_goto.map().contains_key(k) || exists|a: int| 0 <= a < i && top.pending_goto.keys()[a] == k),
        forall|k: Seq<u8>| #[trigger] pi.pending_goto.map().contains_key(k) ==> pi.pending_goto.map()[k]@
            == merged_gotos(p0, top, k, i),
        start == (if pi.pending_goto.map().contains_key(top.pending_goto.keys()[i]) {
            pi.pending_goto.map()[top.pending_goto.keys()[i]]@
        } else {
            Seq::empty()
        }),
        merged@ == start + top.pending_goto.values()[i]@,
        pn.pending_goto.map() == pi.pending_goto.map().insert(top.pending_goto.keys()[i], merged),
        forall|n: int| p0.refs_below(n) && top.refs_below(n) ==> #[trigger] pi.refs_below(n),
        pn.same_but_pending(&pi),
    ensures
        forall|k: Seq<u8>| #[trigger] pn.pending_goto.map().contains_key(k) <==> (
            p0.pending_goto.map().contains_key(k) || exists|a: int| 0 <= a < i + 1 && top.pending_goto.keys()[a] == k),
        forall|k: Seq<u8>| #[trigger] pn.pending_goto.map().contains_key(k) ==> pn.pending_goto.map()[k]@
            == merged_gotos(p0, top, k, i + 1),
        forall|n: int| p0.refs_below(n) && top.refs_below(n) ==> #[trigger] pn.refs_below(n),
{
    let name = top.pending_goto.keys()[i];
    top.pending_goto.lemma_index_of(i);
    assert forall|k: Seq<u8>| #[trigger] pn.pending_goto.map().contains_key(k) <==> (
        p0.pending_goto.map().contains_key(k) || exists|a: int| 0 <= a < i + 1 && top.pending_goto.keys()[a] == k) by {
        if k == name {
            assert(top.pending_goto.keys()[i] == k);
        } else {
            if exists|a: int| 0 <= a < i + 1 && top.pending_goto.keys()[a] == k {
                let a = choose|a: int| 0 <= a < i + 1 && top.pending_goto.keys()[a] == k;
                assert(a < i);
            }
        }
    }
    assert forall|k: Seq<u8>| #[trigger] pn.pending_goto.map().contains_key(k) implies pn.pending_goto.map()[k]@
        == merged_gotos(p0, top, k, i + 1) by {
        if k == name {
            if exists|a: int| 0 <= a < i && top.pending_goto.keys()[a] == k {
                let a = choose|a: int| 0 <= a < i && top.pending_goto.keys()[a] == k;
                top.pending_goto.lemma_unique(a, i);
            }
            assert(top.pending_goto.keys()[i] == k);
        } else {
            if exists|a: int| 0 <= a < i + 1 && top.pending_goto.keys()[a] == k {
                let a = choose|a: int| 0 <= a < i + 1 && top.pending_goto.keys()[a] == k;
                assert(a < i);
            }
        }
    }
    assert forall|n: int| p0.refs_below(n) && top.refs_below(n) implies #[trigger] pn.refs_below(n) by {
        assert(pi.refs_below(n));
        lemma_pending_map_below(pi, n);
        lemma_pending_map_below(top, n);
        assert forall|a: int, b: int|
            0 <= a < pn.pending_goto.values().len() && 0 <= b < pn.pending_goto.values()[a]@.len()
            implies (#[trigger] pn.pending_goto.values()[a]@[b]).spec_syntax().0 < n by {
            pn.pending_goto.lemma_index_of(a);
            let k = pn.pending_goto.keys()[a];
            assert(pn.pending_goto.values()[a] == pn.pending_goto.map()[k]);
            if k == name {
                if b < start.len() {
                    assert(merged@[b] == start[b]);
                    assert(start[b] == pi.pending_goto.map()[name]@[b]);
                } else {
                    assert(merged@[b] == top.pending_goto.values()[i]@[b - start.len()]);
                }
            } else {
                assert(pn.pending_goto.map()[k] == pi.pending_goto.map()[k]);
                assert(pi.pending_goto.map()[k]@[b].spec_syntax().0 < n);
            }
        }
    }
}

/// The stack of scopes, innermost last.
pub struct Scopes {
    pub scopes: Vec<Scope>,
}

impl Scopes {
    pub open spec fn wf(&self) -> bool {
        forall|i: int| 0 <= i < self.scopes@.len() ==> (#[trigger] self.scopes@[i]).wf()
    }

    pub open spec fn refs_below(&self, n: int) -> bool {
        forall|i: int| 0 <= i < self.scopes@.len() ==> (#[trigger] self.scopes@[i]).refs_below(n)
    }

    pub fn new() -> (r: Scopes)
        ensures
            r.wf(),
            r.scopes@.len() == 0,
            forall|n: int| #[trigger] r.refs_below(n),
    {
        Scopes { scopes: Vec::new() }
    }

    pub fn push(&mut self, scope: Scope)
        requires
            old(self).wf(),
            scope.wf(),
        ensures
            final(self).wf(),
            final(self).scopes@ == old(self).scopes@.push(scope),
            forall|n: int| old(self).refs_below(n) && scope.refs_below(n) ==> #[trigger] final(self).refs_below(n),
    {
        self.scopes.push(scope);
    }

    /// The scopes other than the innermost are those of `o`, and there are as many.
    pub open spec fn same_outer(&self, o: &Scopes) -> bool {
        &&& self.scopes@.len() == o.scopes@.len()
        &&& forall|k: int| 0 <= k < self.scopes@.len() - 1 ==> #[trigger] self.scopes@[k] == o.scopes@[k]
    }

    /// Binds `name` to `v` in the innermost scope.
    fn push_var(&mut self, name: &[u8], v: Variable)
        requires
            old(self).wf(),
            old(self).scopes@.len() > 0,
        ensures
            final(self).wf(),
            final(self).same_outer(old(self)),
            final(self).scopes@.last().same_but_vars(&old(self).scopes@.last()),
            final(self).scopes@.last().vars.map()[name@]@ == (if old(self).scopes@.last().vars.map().contains_key(name@) {
                old(self).scopes@.last().vars.map()[name@]@
            } else {
                Seq::empty()
            }).push(v),
            final(self).scopes@.last().vars.map() == old(self).scopes@.last().vars.map().insert(
                name@,
                final(self).scopes@.last().vars.map()[name@],
            ),
            lookup_var(final(self).scopes@, name@) == Some((v, true)),
            forall|n: int| old(self).refs_below(n) && variable_below(v, n) ==> #[trigger] final(self).refs_below(n),
    {
        let mut top = self.scopes.pop().unwrap();
        top.push_var(name, v);
        self.scopes.push(top);
        assert(scope_var(self.scopes@[self.scopes@.len() - 1], name@) == Some(v));
    }

    /// Binds `name` to a new local in the innermost scope; the `goto` statements pending in
    /// that scope skip the local.
    pub fn insert_local(&mut self, name: &[u8], decl: NodeRef, used: bool, constant: bool, ty: TypeSet)
        requires
            old(self).wf(),
            old(self).scopes@.len() > 0,
        ensures
            declared_kept(old(self).scopes@, final(self).scopes@),
            final(self).wf(),
            final(self).same_outer(old(self)),
            final(self).scopes@.last().vars.map()[name@]@ == (if old(self).scopes@.last().vars.map().contains_key(name@) {
                old(self).scopes@.last().vars.map()[name@]@
            } else {
                Seq::empty()
            }).push(Variable::Local(Local { decl, used, constant, ty })),
            final(self).scopes@.last().vars.map() == old(self).scopes@.last().vars.map().insert(
                name@,
                final(self).scopes@.last().vars.map()[name@],
            ),
            final(self).scopes@.last().label == old(self).scopes@.last().label,
            final(self).scopes@.last().pending_goto == old(self).scopes@.last().pending_goto,
            final(self).scopes@.last().func == old(self).scopes@.last().func,
            final(self).scopes@.last().varargs == old(self).scopes@.last().varargs,
            final(self).scopes@.last().collective_global == old(self).scopes@.last().collective_global,
            final(self).scopes@.last().entry == old(self).scopes@.last().entry,
            lookup_var(final(self).scopes@, name@) == Some((Variable::Local(Local { decl, used, constant, ty }), true)),
            forall|n: int| old(self).refs_below(n) && decl.0 < n ==> #[trigger] final(self).refs_below(n),
    {
        let mut top = self.scopes.pop().unwrap();
        let mut i: usize = 0;
        while i < top.pending_goto.len()
            invariant
                top.wf(),
                top.pending_goto == old(self).scopes@.last().pending_goto,
                top.label == old(self).scopes@.last().label,
                top.vars == old(self).scopes@.last().vars,
                top.collective_global == old(self).scopes@.last().collective_global,
                top.varargs == old(self).scopes@.last().varargs,
                top.entry == old(self).scopes@.last().entry,
                top.func == old(self).scopes@.last().func,
                forall|n: int| old(self).scopes@.last().refs_below(n) && decl.0 < n ==> #[trigger] top.refs_below(n),
            decreases top.pending_goto.values().len() - i,
        {
            let mut j: usize = 0;
            while j < top.pending_goto.value_at(i).len()
                invariant
                    top.wf(),
                    i < top.pending_goto.values().len(),
                    top.pending_goto == old(self).scopes@.last().pending_goto,
                    top.label == old(self).scopes@.last().label,
                    top.vars == old(self).scopes@.last().vars,
                    top.collective_global == old(self).scopes@.last().collective_global,
                    top.varargs == old(self).scopes@.last().varargs,
                    top.entry == old(self).scopes@.last().entry,
                    top.func == old(self).scopes@.last().func,
                    forall|n: int| old(self).scopes@.last().refs_below(n) && decl.0 < n ==> #[trigger] top.refs_below(n),
                decreases top.pending_goto.values()[i as int]@.len() - j,
            {
                let goto = top.pending_goto.value_at(i)[j];
                let ghost prev = top;
                add_skipped(&mut top.skipped, goto, decl);
                proof {
                    assert forall|n: int| old(self).scopes@.last().refs_below(n) && decl.0 < n
                        implies #[trigger] top.refs_below(n) by {
                        assert(prev.refs_below(n));
                        assert(goto == prev.pending_goto.values()[i as int]@[j as int]);
                        assert(goto.spec_syntax().0 < n);
                    }
                }
                j = j + 1;
            }
            i = i + 1;
        }
        top.push_var(name, Variable::Local(Local { decl, used, constant, ty }));
        self.scopes.push(top);
        assert(scope_var(self.scopes@[self.scopes@.len() - 1], name@) == Some(
            Variable::Local(Local { decl, used, constant, ty }),
        ));
    }

    /// Binds `name` to a global declared by `decl` in the innermost scope.
    pub fn insert_global(&mut self, name: &[u8], decl: NodeRef, constant: bool)
        requires
            old(self).wf(),
            old(self).scopes@.len() > 0,
        ensures
            declared_kept(old(self).scopes@, final(self).scopes@),
            final(self).wf(),
            final(self).same_outer(old(self)),
            final(self).scopes@.last().same_but_vars(&old(self).scopes@.last()),
            final(self).scopes@.last().vars.map() == old(self).scopes@.last().vars.map().insert(
                name@,
                final(self).scopes@.last().vars.map()[name@],
            ),
            lookup_var(final(self).scopes@, name@) == Some((Variable::Global(Global { decl, constant }), true)),
            forall|n: int| old(self).refs_below(n) && decl.0 < n ==> #[trigger] final(self).refs_below(n),
    {
        self.push_var(name, Variable::Global(Global { decl, constant }));
    }

    /// Binds `name` to the named vararg parameter `vararg` in the innermost scope.
    pub fn insert_vararg(&mut self, name: &[u8], vararg: Varargpar)
        requires
            old(self).wf(),
            old(self).scopes@.len() > 0,
        ensures
            declared_kept(old(self).scopes@, final(self).scopes@),
            final(self).wf(),
            final(self).same_outer(old(self)),
            final(self).scopes@.last().same_but_vars(&old(self).scopes@.last()),
            final(self).scopes@.last().vars.map() == old(self).scopes@.last().vars.map().insert(
                name@,
                final(self).scopes@.last().vars.map()[name@],
            ),
            lookup_var(final(self).scopes@, name@) == Some((Variable::Vararg(vararg), true)),
            forall|n: int| old(self).refs_below(n) && vararg.spec_syntax().0 < n ==> #[trigger] final(self).refs_below(n),
    {
        self.push_var(name, Variable::Vararg(vararg));
    }

    /// Binds the label `name` to `decl` in the innermost scope.
    pub fn insert_label(&mut self, name: &[u8], decl: Label, used: bool)
        requires
            old(self).wf(),
            old(self).scopes@.len() > 0,
        ensures
            declared_kept(old(self).scopes@, final(self).scopes@),
            final(self).wf(),
            final(self).same_outer(old(self)),
            final(self).scopes@.last().label.map() == old(self).scopes@.last().label.map().insert(name@, (decl, used)),
            final(self).scopes@.last().vars == old(self).scopes@.last().vars,
            final(self).scopes@.last().pending_goto == old(self).scopes@.last().pending_goto,
            final(self).scopes@.last().func == old(self).scopes@.last().func,
            final(self).scopes@.last().varargs == old(self).scopes@.last().varargs,
            final(self).scopes@.last().collective_global == old(self).scopes@.last().collective_global,
            final(self).scopes@.last().skipped == old(self).scopes@.last().skipped,
            final(self).scopes@.last().entry == old(self).scopes@.last().entry,
            forall|n: int| old(self).refs_below(n) && decl.spec_syntax().0 < n ==> #[trigger] final(self).refs_below(n),
    {
        let mut top = self.scopes.pop().unwrap();
        let ghost prev = top;
        let r = top.label.insert(name, (decl, used));
        proof {
            assert forall|n: int| prev.refs_below(n) && decl.spec_syntax().0 < n implies #[trigger] top.refs_below(n) by {
                assert forall|a: int| 0 <= a < top.label.values().len() implies (#[trigger] top.label.values()[a]).0.spec_syntax().0 < n by {
                    if prev.label.keys().contains(name@) {
                        if a != r {
                            assert(top.label.values()[a] == prev.label.values()[a]);
                        }
                    } else {
                        prev.label.values().insert_ensures(r as int, (decl, used));
                        if a < r {
                            assert(top.label.values()[a] == prev.label.values()[a]);
                        } else if a > r {
                            assert(top.label.values()[(a - 1) + 1] == prev.label.values()[a - 1]);
                        }
                    }
                }
            }
        }
        self.scopes.push(top);
    }

    /// Records `stat` as the statement that follows `label` in the innermost scope.
    pub fn insert_entry(&mut self, label: Label, stat: Stat)
        requires
            old(self).wf(),
            old(self).scopes@.len() > 0,
        ensures
            declared_kept(old(self).scopes@, final(self).scopes@),
            final(self).wf(),
            final(self).same_outer(old(self)),
            entry_lookup(final(self).scopes@.last().entry@, label) == Some(stat),
            forall|l: Label| l != label ==> entry_lookup(final(self).scopes@.last().entry@, l) == #[trigger] entry_lookup(old(self).scopes@.last().entry@, l),
            final(self).scopes@.last().vars == old(self).scopes@.last().vars,
            final(self).scopes@.last().label == old(self).scopes@.last().label,
            final(self).scopes@.last().pending_goto == old(self).scopes@.last().pending_goto,
            final(self).scopes@.last().func == old(self).scopes@.last().func,
            final(self).scopes@.last().varargs == old(self).scopes@.last().varargs,
            final(self).scopes@.last().collective_global == old(self).scopes@.last().collective_global,
            final(self).scopes@.last().skipped == old(self).scopes@.last().skipped,
            forall|n: int|
                old(self).refs_below(n) && label.spec_syntax().0 < n && stat.spec_syntax().0 < n ==> #[trigger] final(self).refs_below(n),
    {
        let mut top = self.scopes.pop().unwrap();
        let ghost prev = top;
        let i = entry_index(&top.entry, label);
        if i < top.entry.len() {
            top.entry.set(i, (label, stat));
            proof {
                lemma_entry_update(prev.entry@, i as int, label, stat);
            }
        } else {
            top.entry.push((label, stat));
            proof {
                lemma_entry_append(prev.entry@, label, stat);
            }
        }
        proof {
            assert forall|n: int| prev.refs_below(n) && label.spec_syntax().0 < n && stat.spec_syntax().0 < n
                implies #[trigger] top.refs_below(n) by {
                assert forall|a: int| 0 <= a < top.entry@.len() implies (#[trigger] top.entry@[a]).0.spec_syntax().0 < n
                    && top.entry@[a].1.spec_syntax().0 < n by {
                    if a != i {
                        assert(top.entry@[a] == prev.entry@[a]);
                    }
                }
            }
        }
        self.scopes.push(top);
    }

    /// The statement recorded after `label` in the innermost scope.
    pub fn get_entry(&self, label: Label) -> (r: Option<Stat>)
        requires
            self.scopes@.len() > 0,
        ensures
            r == entry_lookup(self.scopes@.last().entry@, label),
            r matches Some(st) ==> forall|n: int| #[trigger] self.refs_below(n) ==> st.spec_syntax().0 < n,
    {
        let top = &self.scopes[self.scopes.len() - 1];
        let mut i: usize = 0;
        assert(top.entry@.skip(0) =~= top.entry@);
        while i < top.entry.len()
            invariant
                i <= top.entry@.len(),
                *top == self.scopes@.last(),
                self.scopes@.len() > 0,
                entry_lookup(top.entry@, label) == entry_lookup(top.entry@.skip(i as int), label),
            decreases top.entry@.len() - i,
        {
            assert(top.entry@.skip(i as int).drop_first() =~= top.entry@.skip(i + 1));
            if top.entry[i].0 == label {
                assert forall|m: int| #[trigger] self.refs_below(m) implies top.entry@[i as int].1.spec_syntax().0 < m by {
                    assert(self.scopes@[self.scopes@.len() - 1].refs_below(m));
                }
                return Some(top.entry[i].1);
            }
            i = i + 1;
        }
        None
    }

    /// Records `goto` as waiting for the label `name` in the innermost scope.
    pub fn insert_pending_goto(&mut self, name: &[u8], goto: Gotostat)
        requires
            old(self).wf(),
            old(self).scopes@.len() > 0,
        ensures
            declared_kept(old(self).scopes@, final(self).scopes@),
            final(self).wf(),
            final(self).same_outer(old(self)),
            final(self).scopes@.last().pending_goto.map()[name@]@ == (if old(self).scopes@.last().pending_goto.map().contains_key(name@) {
                old(self).scopes@.last().pending_goto.map()[name@]@
            } else {
                Seq::empty()
            }).push(goto),
            final(self).scopes@.last().pending_goto.map() == old(self).scopes@.last().pending_goto.map().insert(
                name@,
                final(self).scopes@.last().pending_goto.map()[name@],
            ),
            final(self).scopes@.last().vars == old(self).scopes@.last().vars,
            final(self).scopes@.last().label == old(self).scopes@.last().label,
            final(self).scopes@.last().func == old(self).scopes@.last().func,
            final(self).scopes@.last().varargs == old(self).scopes@.last().varargs,
            final(self).scopes@.last().collective_global == old(self).scopes@.last().collective_global,
            final(self).scopes@.last().skipped == old(self).scopes@.last().skipped,
            final(self).scopes@.last().entry == old(self).scopes@.last().entry,
            forall|n: int| old(self).refs_below(n) && goto.spec_syntax().0 < n ==> #[trigger] final(self).refs_below(n),
    {
        let mut top = self.scopes.pop().unwrap();
        let ghost prev = top;
        let found = top.pending_goto.find(name);
        let mut gotos: Vec<Gotostat> = match found {
            Some(i) => top.pending_goto.replace_at(i, Vec::new()),
            None => Vec::new(),
        };
        gotos.push(goto);
        let ghost mid = top.pending_goto;
        let r = top.pending_goto.insert(name, gotos);
        proof {
            assert(top.pending_goto.map() =~= prev.pending_goto.map().insert(name@, gotos));
            assert forall|n: int| prev.refs_below(n) && goto.spec_syntax().0 < n implies #[trigger] top.refs_below(n) by {
                let pv = prev.pending_goto.values();
                let tv = top.pending_goto.values();
                assert forall|a: int, b: int| 0 <= a < tv.len() && 0 <= b < tv[a]@.len()
                    implies (#[trigger] tv[a]@[b]).spec_syntax().0 < n by {
                    if prev.pending_goto.keys().contains(name@) {
                        let i = found->0;
                        mid.lemma_unique(i as int, r as int);
                        if a != r {
                            assert(tv[a] == mid.values()[a]);
                            assert(mid.values()[a] == pv[a]);
                        } else if b < tv[a]@.len() - 1 {
                            assert(tv[a]@[b] == pv[a]@[b]);
                        }
                    } else {
                        pv.insert_ensures(r as int, gotos);
                        if a < r {
                            assert(tv[a] == pv[a]);
                        } else if a > r {
                            assert(tv[(a - 1) + 1] == pv[a - 1]);
                        }
                    }
                }
            }
        }
        self.scopes.push(top);
    }

    /// The variable that `name` is bound to, with whether it is bound in the innermost scope;
    /// a local that is read (`!lhs`) is marked used.
    pub fn get_var(&mut self, name: &[u8], lhs: bool) -> (r: Option<(Variable, bool)>)
        requires
            old(self).wf(),
        ensures
            declared_kept(old(self).scopes@, final(self).scopes@),
            final(self).wf(),
            r == lookup_var(old(self).scopes@, name@),
            final(self).scopes@.len() == old(self).scopes@.len(),
            var_marked(old(self).scopes@, final(self).scopes@, name@, lhs),
            forall|n: int| old(self).refs_below(n) ==> #[trigger] final(self).refs_below(n),
            r matches Some((v, _)) ==> forall|n: int| #[trigger] old(self).refs_below(n) ==> variable_below(v, n),
    {
        let n = self.scopes.len();
        let mut k = n;
        while k > 0
            invariant
                k <= n,
                n == self.scopes@.len(),
                *self == *old(self),
                self.wf(),
                lookup_below(self.scopes@, n as int, name@) == lookup_below(self.scopes@, k as int, name@),
            decreases k,
        {
            k = k - 1;
            match self.scopes[k].vars.find(name) {
                Some(i) => {
                    let vs = self.scopes[k].vars.value_at(i);
                    assert(self.scopes@[k as int].wf());
                    assert(vs@.len() > 0);
                    let v = vs[vs.len() - 1];
                    let mut scope = self.scopes.remove(k);
                    scope.mark_used_at(i, lhs);
                    self.scopes.insert(k, scope);
                    proof {
                        assert forall|j: int| 0 <= j < self.scopes@.len() implies (#[trigger] self.scopes@[j]).wf() by {
                            if j != k {
                                assert(self.scopes@[j] == old(self).scopes@[j]);
                            }
                        }
                        assert forall|m: int| old(self).refs_below(m) implies #[trigger] self.refs_below(m) by {
                            assert forall|j: int| 0 <= j < self.scopes@.len() implies (#[trigger] self.scopes@[j]).refs_below(m) by {
                                if j != k {
                                    assert(self.scopes@[j] == old(self).scopes@[j]);
                                } else {
                                    assert(old(self).scopes@[j].refs_below(m));
                                }
                            }
                        }
                        old(self).scopes@[k as int].vars.lemma_index_of(i as int);
                        assert forall|m: int| #[trigger] old(self).refs_below(m) implies variable_below(v, m) by {
                            assert(old(self).scopes@[k as int].refs_below(m));
                            assert(variable_below(old(self).scopes@[k as int].vars.values()[i as int]@[vs@.len() - 1], m));
                        }
                    }
                    return Some((v, k == n - 1));
                },
                None => {},
            }
            match self.scopes[k].collective_global {
                Some(g) => {
                    assert forall|m: int| #[trigger] old(self).refs_below(m) implies variable_below(Variable::Global(g), m) by {
                        assert(old(self).scopes@[k as int].refs_below(m));
                    }
                    return Some((Variable::Global(g), k == n - 1));
                },
                None => {},
            }
        }
        None
    }

    /// The label `name` visible from the innermost scope, which is then marked used; labels
    /// are not visible across function scopes.
    pub fn get_label(&mut self, name: &[u8]) -> (r: Option<Label>)
        requires
            old(self).wf(),
        ensures
            declared_kept(old(self).scopes@, final(self).scopes@),
            final(self).wf(),
            final(self).scopes@.len() == old(self).scopes@.len(),
            r == (match label_below(old(self).scopes@, old(self).scopes@.len() as int, name@) {
                Some(k) => Some(old(self).scopes@[k].label.map()[name@].0),
                None => None,
            }),
            match label_below(old(self).scopes@, old(self).scopes@.len() as int, name@) {
                Some(k) => {
                    &&& forall|j: int| 0 <= j < old(self).scopes@.len() && j != k ==> #[trigger] final(self).scopes@[j] == old(self).scopes@[j]
                    &&& final(self).scopes@[k].label.map() == old(self).scopes@[k].label.map().insert(name@, (r->0, true))
                    &&& final(self).scopes@[k].vars == old(self).scopes@[k].vars
                    &&& final(self).scopes@[k].pending_goto == old(self).scopes@[k].pending_goto
                    &&& final(self).scopes@[k].func == old(self).scopes@[k].func
                    &&& final(self).scopes@[k].varargs == old(self).scopes@[k].varargs
                    &&& final(self).scopes@[k].collective_global == old(self).scopes@[k].collective_global
                    &&& final(self).scopes@[k].skipped == old(self).scopes@[k].skipped
                    &&& final(self).scopes@[k].entry == old(self).scopes@[k].entry
                },
                None => final(self).scopes@ == old(self).scopes@,
            },
            forall|n: int| old(self).refs_below(n) ==> #[trigger] final(self).refs_below(n),
            r matches Some(l) ==> forall|n: int| #[trigger] old(self).refs_below(n) ==> l.spec_syntax().0 < n,
    {
        let n = self.scopes.len();
        let mut k = n;
        while k > 0
            invariant
                k <= n,
                n == self.scopes@.len(),
                *self == *old(self),
                self.wf(),
                label_below(self.scopes@, n as int, name@) == label_below(self.scopes@, k as int, name@),
            decreases k,
        {
            k = k - 1;
            match self.scopes[k].label.find(name) {
                Some(i) => {
                    let decl = self.scopes[k].label.value_at(i).0;
                    let mut scope = self.scopes.remove(k);
                    let ghost prev = scope;
                    scope.label.replace_at(i, (decl, true));
                    self.scopes.insert(k, scope);
                    proof {
                        assert forall|j: int| 0 <= j < self.scopes@.len() implies (#[trigger] self.scopes@[j]).wf() by {
                            if j != k {
                                assert(self.scopes@[j] == old(self).scopes@[j]);
                            }
                        }
                        assert forall|m: int| old(self).refs_below(m) implies #[trigger] self.refs_below(m) by {
                            assert forall|j: int| 0 <= j < self.scopes@.len() implies (#[trigger] self.scopes@[j]).refs_below(m) by {
                                if j != k {
                                    assert(self.scopes@[j] == old(self).scopes@[j]);
                                } else {
                                    assert(prev.refs_below(m));
                                    assert forall|a: int| 0 <= a < scope.label.values().len() implies (#[trigger] scope.label.values()[a]).0.spec_syntax().0 < m by {
                                        assert(prev.label.values()[a].0.spec_syntax().0 < m);
                                    }
                                }
                            }
                        }
                        assert forall|m: int| #[trigger] old(self).refs_below(m) implies decl.spec_syntax().0 < m by {
                            assert(old(self).scopes@[k as int].refs_below(m));
                            assert(prev.label.values()[i as int].0 == decl);
                        }
                    }
                    return Some(decl);
                },
                None => {},
            }
            if self.scopes[k].func {
                return None;
            }
        }
        None
    }

    /// Takes the `goto` statements waiting for the label `name` in the innermost scope.
    pub fn remove_pending_goto(&mut self, name: &[u8]) -> (r: Vec<Gotostat>)
        requires
            old(self).wf(),
        ensures
            declared_kept(old(self).scopes@, final(self).scopes@),
            final(self).wf(),
            final(self).same_outer(old(self)),
            r@ == (if old(self).scopes@.len() > 0 && old(self).scopes@.last().pending_goto.map().contains_key(name@) {
                old(self).scopes@.last().pending_goto.map()[name@]@
            } else {
                Seq::empty()
            }),
            old(self).scopes@.len() > 0 ==> final(self).scopes@.last().pending_goto.map()
                == old(self).scopes@.last().pending_goto.map().remove(name@),
            old(self).scopes@.len() > 0 ==> final(self).scopes@.last().vars == old(self).scopes@.last().vars,
            old(self).scopes@.len() > 0 ==> final(self).scopes@.last().label == old(self).scopes@.last().label,
            old(self).scopes@.len() > 0 ==> final(self).scopes@.last().func == old(self).scopes@.last().func,
            old(self).scopes@.len() > 0 ==> final(self).scopes@.last().varargs == old(self).scopes@.last().varargs,
            old(self).scopes@.len() > 0 ==> final(self).scopes@.last().collective_global
                == old(self).scopes@.last().collective_global,
            old(self).scopes@.len() > 0 ==> final(self).scopes@.last().skipped == old(self).scopes@.last().skipped,
            old(self).scopes@.len() > 0 ==> final(self).scopes@.last().entry == old(self).scopes@.last().entry,
            forall|n: int| old(self).refs_below(n) ==> #[trigger] final(self).refs_below(n),
            forall|n: int| old(self).refs_below(n) ==> forall|i: int| 0 <= i < r@.len() ==> (#[trigger] r@[i]).spec_syntax().0 < n,
    {
        if self.scopes.len() == 0 {
            return Vec::new();
        }
        let mut top = self.scopes.pop().unwrap();
        let ghost prev = top;
        let r = match top.pending_goto.remove(name) {
            Some(v) => v,
            None => Vec::new(),
        };
        proof {
            assert forall|n: int| prev.refs_below(n) implies #[trigger] top.refs_below(n)
                && forall|i: int| 0 <= i < r@.len() ==> (#[trigger] r@[i]).spec_syntax().0 < n by {
                let pv = prev.pending_goto.values();
                let tv = top.pending_goto.values();
                if prev.pending_goto.keys().contains(name@) {
                    let i = choose|i: int| 0 <= i < prev.pending_goto.keys().len() && prev.pending_goto.keys()[i] == name@
                        && Some(r) == Some(pv[i]) && top.pending_goto.values() == pv.remove(i);
                    pv.remove_ensures(i);
                    assert forall|a: int, b: int| 0 <= a < tv.len() && 0 <= b < tv[a]@.len()
                        implies (#[trigger] tv[a]@[b]).spec_syntax().0 < n by {
                        if a < i {
                            assert(tv[a] == pv[a]);
                        } else {
                            assert(tv[a] == pv[a + 1]);
                        }
                    }
                    assert forall|b: int| 0 <= b < r@.len() implies (#[trigger] r@[b]).spec_syntax().0 < n by {
                        assert(r@[b] == pv[i]@[b]);
                    }
                }
            }
        }
        self.scopes.push(top);
        r
    }

    /// Whether a vararg expression is allowed here: the innermost function scope decides,
    /// and marks its vararg parameter used; outside any function the chunk allows it.
    pub fn has_varargs(&mut self) -> (r: bool)
        requires
            old(self).wf(),
        ensures
            declared_kept(old(self).scopes@, final(self).scopes@),
            final(self).wf(),
            final(self).scopes@.len() == old(self).scopes@.len(),
            r == varargs_below(old(self).scopes@, old(self).scopes@.len() as int),
            forall|j: int| 0 <= j < old(self).scopes@.len() ==> (#[trigger] final(self).scopes@[j]).same_but_varargs(&old(self).scopes@[j]),
            forall|j: int| 0 <= j < old(self).scopes@.len() ==> (match (#[trigger] final(self).scopes@[j]).varargs {
                Some((v, u)) => old(self).scopes@[j].varargs matches Some((ov, ou)) && ov == v && (u == ou || u),
                None => old(self).scopes@[j].varargs is None,
            }),
            forall|n: int| old(self).refs_below(n) ==> #[trigger] final(self).refs_below(n),
    {
        let n = self.scopes.len();
        let mut k = n;
        while k > 0
            invariant
                k <= n,
                n == self.scopes@.len(),
                *self == *old(self),
                self.wf(),
                varargs_below(self.scopes@, n as int) == varargs_below(self.scopes@, k as int),
            decreases k,
        {
            k = k - 1;
            if self.scopes[k].func {
                match self.scopes[k].varargs {
                    Some((v, _)) => {
                        let mut scope = self.scopes.remove(k);
                        scope.varargs = Some((v, true));
                        self.scopes.insert(k, scope);
                        proof {
                            assert forall|j: int| 0 <= j < self.scopes@.len() implies (#[trigger] self.scopes@[j]).wf() by {
                                if j != k {
                                    assert(self.scopes@[j] == old(self).scopes@[j]);
                                }
                            }
                            assert forall|m: int| old(self).refs_below(m) implies #[trigger] self.refs_below(m) by {
                                assert forall|j: int| 0 <= j < self.scopes@.len() implies (#[trigger] self.scopes@[j]).refs_below(m) by {
                                    if j != k {
                                        assert(self.scopes@[j] == old(self).scopes@[j]);
                                    } else {
                                        assert(old(self).scopes@[j].refs_below(m));
                                    }
                                }
                            }
                            assert forall|j: int| 0 <= j < old(self).scopes@.len() implies (#[trigger] self.scopes@[j]).same_but_varargs(&old(self).scopes@[j]) by {
                                if j != k {
                                    assert(self.scopes@[j] == old(self).scopes@[j]);
                                }
                            }
                        }
                        return true;
                    },
                    None => {
                        return false;
                    },
                }
            }
        }
        true
    }

    /// Marks the named vararg parameter `vararg` used in every function scope it belongs to.
    pub fn use_named_vararg(&mut self, vararg: Varargpar)
        requires
            old(self).wf(),
        ensures
            declared_kept(old(self).scopes@, final(self).scopes@),
            final(self).wf(),
            final(self).scopes@.len() == old(self).scopes@.len(),
            forall|j: int| 0 <= j < old(self).scopes@.len() ==> (#[trigger] final(self).scopes@[j]).same_but_varargs(&old(self).scopes@[j]),
            forall|j: int| 0 <= j < old(self).scopes@.len() ==> (#[trigger] final(self).scopes@[j]).varargs == (
                match old(self).scopes@[j].varargs {
                    Some((v, u)) => if old(self).scopes@[j].func && v == vararg { Some((v, true)) } else { Some((v, u)) },
                    None => None,
                }),
            forall|n: int| old(self).refs_below(n) ==> #[trigger] final(self).refs_below(n),
    {
        let n = self.scopes.len();
        let mut k = n;
        while k > 0
            invariant
                k <= n,
                n == self.scopes@.len(),
                self.wf(),
                forall|j: int| 0 <= j < n ==> (#[trigger] self.scopes@[j]).same_but_varargs(&old(self).scopes@[j]),
                forall|j: int| 0 <= j < k ==> #[trigger] self.scopes@[j] == old(self).scopes@[j],
                forall|j: int| k <= j < n ==> (#[trigger] self.scopes@[j]).varargs == (
                    match old(self).scopes@[j].varargs {
                        Some((v, u)) => if old(self).scopes@[j].func && v == vararg { Some((v, true)) } else { Some((v, u)) },
                        None => None,
                    }),
                forall|m: int| old(self).refs_below(m) ==> #[trigger] self.refs_below(m),
            decreases k,
        {
            k = k - 1;
            if self.scopes[k].func {
                match self.scopes[k].varargs {
                    Some((v, _)) => {
                        if v == vararg {
                            let ghost pre = *self;
                            let mut scope = self.scopes.remove(k);
                            scope.varargs = Some((v, true));
                            self.scopes.insert(k, scope);
                            proof {
                                assert forall|j: int| 0 <= j < self.scopes@.len() implies (#[trigger] self.scopes@[j]).wf() by {
                                    if j != k {
                                        assert(self.scopes@[j] == pre.scopes@[j]);
                                    }
                                }
                                assert forall|m: int| old(self).refs_below(m) implies #[trigger] self.refs_below(m) by {
                                    assert(pre.refs_below(m));
                                    assert forall|j: int| 0 <= j < self.scopes@.len() implies (#[trigger] self.scopes@[j]).refs_below(m) by {
                                        if j != k {
                                            assert(self.scopes@[j] == pre.scopes@[j]);
                                        } else {
                                            assert(pre.scopes@[j].refs_below(m));
                                        }
                                    }
                                }
                            }
                        }
                    },
                    None => {},
                }
            }
        }
    }

    /// The locals skipped by `goto` in the innermost scope.
    pub fn get_skipped(&self, goto: Gotostat) -> (r: Vec<NodeRef>)
        ensures
            r@ == (if self.scopes@.len() > 0 {
                skipped_lookup(self.scopes@.last().skipped@, goto)
            } else {
                Seq::empty()
            }),
            forall|n: int, i: int| #[trigger] self.refs_below(n) && 0 <= i < r@.len() ==> (#[trigger] r@[i]).0 < n,
    {
        let mut r: Vec<NodeRef> = Vec::new();
        if self.scopes.len() == 0 {
            return r;
        }
        let top = &self.scopes[self.scopes.len() - 1];
        let mut i: usize = 0;
        assert(top.skipped@.skip(0) =~= top.skipped@);
        while i < top.skipped.len()
            invariant
                i <= top.skipped@.len(),
                *top == self.scopes@.last(),
                self.scopes@.len() > 0,
                r@.len() == 0,
                skipped_lookup(top.skipped@, goto) == skipped_lookup(top.skipped@.skip(i as int), goto),
            decreases top.skipped@.len() - i,
        {
            assert(top.skipped@.skip(i as int).drop_first() =~= top.skipped@.skip(i + 1));
            if top.skipped[i].0 == goto {
                assert(top.skipped@.skip(i as int)[0] == top.skipped@[i as int]);
                let locals = &top.skipped[i].1;
                let mut j: usize = 0;
                while j < locals.len()
                    invariant
                        j <= locals@.len(),
                        r@ == locals@.subrange(0, j as int),
                        i < top.skipped@.len(),
                        *top == self.scopes@.last(),
                        self.scopes@.len() > 0,
                        top.skipped@[i as int].0 == goto,
                        *locals == top.skipped@[i as int].1,
                        skipped_lookup(top.skipped@, goto) == skipped_lookup(top.skipped@.skip(i as int), goto),
                        top.skipped@.skip(i as int)[0] == top.skipped@[i as int],
                    decreases locals@.len() - j,
                {
                    r.push(locals[j]);
                    j = j + 1;
                }
                assert(r@ =~= locals@);
                assert forall|m: int, a: int| #[trigger] self.refs_below(m) && 0 <= a < r@.len() implies (#[trigger] r@[a]).0 < m by {
                    assert(self.scopes@[self.scopes@.len() - 1].refs_below(m));
                    assert(skipped_below(top.skipped@, m));
                    assert(top.skipped@[i as int].1@[a] == r@[a]);
                }
                return r;
            }
            i = i + 1;
        }
        r
    }

    /// Whether a global was declared, and then the innermost such declaration, walking each
    /// scope's names in order.
    pub fn get_global_state(&self) -> (r: GlobalState)
        requires
            self.wf(),
        ensures
            r == (match global_below(self.scopes@, self.scopes@.len() as int) {
                Some(d) => GlobalState::Explicit(d),
                None => GlobalState::Implicit,
            }),
            r matches GlobalState::Explicit(d) ==> forall|n: int| #[trigger] self.refs_below(n) ==> d.0 < n,
    {
        let n = self.scopes.len();
        let mut k = n;
        while k > 0
            invariant
                k <= n,
                n == self.scopes@.len(),
                global_below(self.scopes@, n as int) == global_below(self.scopes@, k as int),
            decreases k,
        {
            k = k - 1;
            let vars = &self.scopes[k].vars;
            let mut i: usize = 0;
            assert(vars.values().skip(0) =~= vars.values());
            while i < vars.entries.len()
                invariant
                    i <= vars.values().len(),
                    vars.values().len() == vars.entries@.len(),
                    *vars == self.scopes@[k as int].vars,
                    first_global_in(vars.values()) == first_global_in(vars.values().skip(i as int)),
                    k < n,
                    n == self.scopes@.len(),
                    global_below(self.scopes@, n as int) == global_below(self.scopes@, k + 1),
                decreases vars.values().len() - i,
            {
                assert(vars.values().skip(i as int).drop_first() =~= vars.values().skip(i + 1));
                let vs = vars.value_at(i);
                let mut j: usize = 0;
                assert(vs@.skip(0) =~= vs@);
                while j < vs.len()
                    invariant
                        j <= vs@.len(),
                        first_global(vs@) == first_global(vs@.skip(j as int)),
                        i < vars.values().len(),
                        *vs == vars.values()[i as int],
                        *vars == self.scopes@[k as int].vars,
                        k < n,
                        n == self.scopes@.len(),
                        first_global_in(vars.values()) == first_global_in(vars.values().skip(i as int)),
                        global_below(self.scopes@, n as int) == global_below(self.scopes@, k + 1),
                    decreases vs@.len() - j,
                {
                    assert(vs@.skip(j as int).drop_first() =~= vs@.skip(j + 1));
                    match vs[j] {
                        Variable::Global(g) => {
                            assert(vs@.skip(j as int)[0] == vs@[j as int]);
                            assert(first_global(vs@) == Some(g.decl));
                            assert(vars.values().skip(i as int)[0] == *vs);
                            assert(first_global_in(vars.values()) == Some(g.decl));
                            assert(global_below(self.scopes@, k + 1) == Some(g.decl));
                            assert forall|m: int| #[trigger] self.refs_below(m) implies g.decl.0 < m by {
                                assert(self.scopes@[k as int].refs_below(m));
                                assert(variable_below(self.scopes@[k as int].vars.values()[i as int]@[j as int], m));
                            }
                            return GlobalState::Explicit(g.decl);
                        },
                        _ => {},
                    }
                    j = j + 1;
                }
                i = i + 1;
            }
        }
        GlobalState::Implicit
    }

    /// Records the declaration `global *` in the innermost scope.
    pub fn set_collective_global(&mut self, decl: NodeRef, constant: bool)
        requires
            old(self).wf(),
        ensures
            declared_kept(old(self).scopes@, final(self).scopes@),
            final(self).wf(),
            final(self).same_outer(old(self)),
            old(self).scopes@.len() > 0 ==> final(self).scopes@.last().collective_global == Some(Global { decl, constant }),
            old(self).scopes@.len() > 0 ==> final(self).scopes@.last().vars == old(self).scopes@.last().vars,
            old(self).scopes@.len() > 0 ==> final(self).scopes@.last().label == old(self).scopes@.last().label,
            old(self).scopes@.len() > 0 ==> final(self).scopes@.last().pending_goto == old(self).scopes@.last().pending_goto,
            old(self).scopes@.len() > 0 ==> final(self).scopes@.last().func == old(self).scopes@.last().func,
            old(self).scopes@.len() > 0 ==> final(self).scopes@.last().varargs == old(self).scopes@.last().varargs,
            old(self).scopes@.len() > 0 ==> final(self).scopes@.last().skipped == old(self).scopes@.last().skipped,
            old(self).scopes@.len() > 0 ==> final(self).scopes@.last().entry == old(self).scopes@.last().entry,
            forall|n: int| old(self).refs_below(n) && decl.0 < n ==> #[trigger] final(self).refs_below(n),
    {
        if self.scopes.len() > 0 {
            let mut top = self.scopes.pop().unwrap();
            top.collective_global = Some(Global { decl, constant });
            self.scopes.push(top);
        }
    }

    /// Leaves the innermost scope. Its unused locals are reported; a function scope, or the
    /// outermost scope, also reports its unused labels, the `goto` statements whose label was
    /// never found and an unused vararg parameter; an inner block passes its pending `goto`
    /// statements on to the enclosing scope.
    pub fn pop(&mut self, ctx: &DiagnosticContext, cst: &Cst, diags: &mut Vec<Diagnostic>)
        requires
            old(self).wf(),
            old(self).scopes@.len() > 0,
            old(self).refs_below(cst.spec_len()),
            ctx.levels@.len() == LINT_COUNT,
            cst.spans_in_source(),
        ensures
            final(self).wf(),
            final(self).scopes@.len() == old(self).scopes@.len() - 1,
            forall|k: int| 0 <= k < final(self).scopes@.len() - 1 ==> #[trigger] final(self).scopes@[k] == old(self).scopes@[k],
            final(self).scopes@.len() > 0 && !old(self).scopes@.last().func ==> pending_merged(
                old(self).scopes@[old(self).scopes@.len() - 2],
                old(self).scopes@.last(),
                final(self).scopes@.last(),
            ),
            old(self).scopes@.last().func ==> final(self).scopes@ == old(self).scopes@.drop_last(),
            forall|n: int| old(self).refs_below(n) ==> #[trigger] final(self).refs_below(n),
            reported(ctx, cst.source_view().len() as int, old(diags)@, final(diags)@),
            diagnostics_view(final(diags)@) == diagnostics_view(old(diags)@) + scope_reports(
                ctx,
                cst,
                old(self).scopes@.last(),
                old(self).scopes@.len() == 1,
            ),
    {
        let top = self.scopes.pop().unwrap();
        assert(top.refs_below(cst.spec_len()));
        let ghost base = diagnostics_view(diags@);
        let mut i: usize = 0;
        assert(top.vars.values().take(0) =~= Seq::<Vec<Variable>>::empty());
        while i < top.vars.len()
            invariant
                top.wf(),
                top.refs_below(cst.spec_len()),
                ctx.levels@.len() == LINT_COUNT,
                reported(ctx, cst.source_view().len() as int, old(diags)@, diags@),
                cst.spans_in_source(),
                i <= top.vars.values().len(),
                diagnostics_view(diags@) == base + vars_reports(ctx, cst, top.vars.values().take(i as int)),
            decreases top.vars.values().len() - i,
        {
            let vs = top.vars.value_at(i);
            let ghost before = diagnostics_view(diags@);
            let mut j: usize = 0;
            assert(vs@.take(0) =~= Seq::<Variable>::empty());
            while j < vs.len()
                invariant
                    i < top.vars.values().len(),
                    *vs == top.vars.values()[i as int],
                    top.refs_below(cst.spec_len()),
                    ctx.levels@.len() == LINT_COUNT,
                    reported(ctx, cst.source_view().len() as int, old(diags)@, diags@),
                    cst.spans_in_source(),
                    j <= vs@.len(),
                    diagnostics_view(diags@) == before + var_reports(ctx, cst, vs@.take(j as int)),
                decreases vs@.len() - j,
            {
                assert(vs@.take(j + 1).drop_last() =~= vs@.take(j as int));
                match vs[j] {
                    Variable::Local(l) => {
                        if !l.used {
                            assert(variable_below(vs@[j as int], cst.spec_len()));
                            report_unused(ctx, cst, l.decl, diags);
                        }
                    },
                    _ => {},
                }
                j = j + 1;
            }
            assert(vs@.take(vs@.len() as int) =~= vs@);
            assert(top.vars.values().take(i + 1).drop_last() =~= top.vars.values().take(i as int));
            i = i + 1;
        }
        assert(top.vars.values().take(top.vars.values().len() as int) =~= top.vars.values());
        let ghost after_vars = diagnostics_view(diags@);
        if top.func || self.scopes.len() == 0 {
            if let Some(unused_label) = ctx.active::<UnusedLabel>() {
                let mut i: usize = 0;
                assert(top.label.values().take(0) =~= Seq::<(Label, bool)>::empty());
                while i < top.label.len()
                    invariant
                        top.wf(),
                        top.refs_below(cst.spec_len()),
                        ctx.levels@.len() == LINT_COUNT,
                        ctx.levels@[UNUSED_LABEL as int] != crate::parser::Severity::Allow,
                        unused_label.0 == ctx,
                        reported(ctx, cst.source_view().len() as int, old(diags)@, diags@),
                        cst.spans_in_source(),
                        i <= top.label.values().len(),
                        diagnostics_view(diags@) == after_vars + label_reports(ctx, cst, top.label.values().take(i as int)),
                    decreases top.label.values().len() - i,
                {
                    assert(top.label.values().take(i + 1).drop_last() =~= top.label.values().take(i as int));
                    let (decl, used) = *top.label.value_at(i);
                    let ghost prev = diagnostics_view(diags@);
                    if !used {
                        let d = unused_label.build(decl.span(cst));
                        diags.push(d);
                        assert(diagnostics_view(diags@) =~= prev + seq![d@]);
                    } else {
                        assert(diagnostics_view(diags@) =~= prev);
                    }
                    assert(label_reports(ctx, cst, top.label.values().take(i + 1)) == label_reports(ctx, cst, top.label.values().take(i as int)) + if !used {
                        seq![lint_diagnostic(ctx, UNUSED_LABEL, seq![ann(AnnotationKind::Primary, cst.node_span(decl.spec_syntax()), None)], Seq::empty())]
                    } else {
                        Seq::<DiagnosticView>::empty()
                    });
                    i = i + 1;
                }
                assert(top.label.values().take(top.label.values().len() as int) =~= top.label.values());
            }
            let ghost after_labels = diagnostics_view(diags@);
            assert(after_labels == after_vars + label_reports(ctx, cst, top.label.values()));
            let mut i: usize = 0;
            assert(top.pending_goto.values().take(0) =~= Seq::<Vec<Gotostat>>::empty());
            while i < top.pending_goto.len()
                invariant
                    top.wf(),
                    top.refs_below(cst.spec_len()),
                    ctx.levels@.len() == LINT_COUNT,
                    reported(ctx, cst.source_view().len() as int, old(diags)@, diags@),
                    cst.spans_in_source(),
                    i <= top.pending_goto.values().len(),
                    diagnostics_view(diags@) == after_labels + gotos_reports(cst, top.pending_goto.values().take(i as int)),
                decreases top.pending_goto.values().len() - i,
            {
                let gotos = top.pending_goto.value_at(i);
                let ghost before = diagnostics_view(diags@);
                let mut j: usize = 0;
                assert(gotos@.take(0) =~= Seq::<Gotostat>::empty());
                while j < gotos.len()
                    invariant
                        i < top.pending_goto.values().len(),
                        *gotos == top.pending_goto.values()[i as int],
                        ctx.levels@.len() == LINT_COUNT,
                        reported(ctx, cst.source_view().len() as int, old(diags)@, diags@),
                        cst.spans_in_source(),
                        j <= gotos@.len(),
                        diagnostics_view(diags@) == before + goto_reports(cst, gotos@.take(j as int)),
                    decreases gotos@.len() - j,
                {
                    assert(gotos@.take(j + 1).drop_last() =~= gotos@.take(j as int));
                    let ghost prev = diagnostics_view(diags@);
                    if let Some((_, name_span)) = gotos[j].name(cst) {
                        let d = ctx.undefined_label(name_span);
                        diags.push(d);
                        assert(diagnostics_view(diags@) =~= prev + seq![d@]);
                    } else {
                        assert(diagnostics_view(diags@) =~= prev);
                    }
                    j = j + 1;
                }
                assert(gotos@.take(gotos@.len() as int) =~= gotos@);
                assert(top.pending_goto.values().take(i + 1).drop_last() =~= top.pending_goto.values().take(i as int));
                i = i + 1;
            }
            assert(top.pending_goto.values().take(top.pending_goto.values().len() as int) =~= top.pending_goto.values());
            let ghost after_gotos = diagnostics_view(diags@);
            assert(after_gotos == after_labels + gotos_reports(cst, top.pending_goto.values()));
            if let Some(unused_vararg) = ctx.active::<UnusedVararg>() {
                if let Some((vararg, used)) = top.varargs {
                    if !used {
                        let d = unused_vararg.build(vararg.span(cst));
                        diags.push(d);
                        assert(diagnostics_view(diags@) =~= after_gotos + seq![d@]);
                    }
                }
            }
            assert(diagnostics_view(diags@) =~= after_gotos + vararg_reports(ctx, cst, top.varargs));
            assert(diagnostics_view(diags@) =~= base + scope_reports(ctx, cst, top, old(self).scopes@.len() == 1));
        } else {
            let mut parent = self.scopes.pop().unwrap();
            let ghost p0 = parent;
            let mut i: usize = 0;
            while i < top.pending_goto.len()
                invariant
                    top.wf(),
                    parent.wf(),
                    i <= top.pending_goto.values().len(),
                    parent.same_but_pending(&p0),
                    forall|k: Seq<u8>| #[trigger] parent.pending_goto.map().contains_key(k) <==> (
                        p0.pending_goto.map().contains_key(k) || exists|a: int| 0 <= a < i && top.pending_goto.keys()[a] == k),
                    forall|k: Seq<u8>| #[trigger] parent.pending_goto.map().contains_key(k) ==> parent.pending_goto.map()[k]@
                        == merged_gotos(p0, top, k, i as int),
                    forall|n: int| p0.refs_below(n) && top.refs_below(n) ==> #[trigger] parent.refs_below(n),
                decreases top.pending_goto.values().len() - i,
            {
                let name = top.pending_goto.key_at(i);
                let gotos = top.pending_goto.value_at(i);
                let ghost pi = parent;
                let mut merged: Vec<Gotostat> = match parent.pending_goto.find(name) {
                    Some(k) => parent.pending_goto.replace_at(k, Vec::new()),
                    None => Vec::new(),
                };
                let ghost start = merged@;
                let mut j: usize = 0;
                while j < gotos.len()
                    invariant
                        j <= gotos@.len(),
                        merged@ == start + gotos@.subrange(0, j as int),
                    decreases gotos@.len() - j,
                {
                    merged.push(gotos[j]);
                    j = j + 1;
                }
                assert(merged@ =~= start + gotos@);
                let ghost mid = parent.pending_goto.map();
                parent.pending_goto.insert(name, merged);
                assert(parent.pending_goto.map() =~= pi.pending_goto.map().insert(name@, merged));
                proof {
                    lemma_merge_step(p0, pi, top, parent, i as int, start, merged);
                }
                i = i + 1;
            }
            self.scopes.push(parent);
            proof {
                assert(old(self).scopes@[old(self).scopes@.len() - 2] == p0);
                assert(diagnostics_view(diags@) =~= base + scope_reports(ctx, cst, top, old(self).scopes@.len() == 1));
            }
        }
    }
}

} // verus!
