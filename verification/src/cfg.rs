//! Control flow graphs of function bodies.
use crate::ast::{
    after, bytes_eq, seq_get, Args, AstNode, Block, ElifBranch, ElseBranch, Exp, Expstat, Field, Functiondef, GenericForstat, Ifstat,
    NumericForstat, Repeatstat, Stat, Whilestat,
};
use crate::lexer::Token;
use crate::parser::{Cst, NodeRef, Span};
use crate::sema::SemanticData;
use vstd::prelude::*;

verus! {

/// The index of a basic block in its control flow graph.
#[derive(Debug, Clone, Copy, PartialEq, Eq, Hash, Structural)]
pub struct BasicBlockRef(pub usize);

impl BasicBlockRef {
    /// The block where control enters the function.
    pub fn entry() -> (r: BasicBlockRef)
        ensures
            r.0 == 0,
    {
        BasicBlockRef(0)
    }
}

/// Where control goes after a basic block.
#[derive(Debug)]
pub enum Successor {
    Terminal,
    Uncond(BasicBlockRef),
    Cond { exp: Option<Exp>, false_bb: BasicBlockRef, true_bb: BasicBlockRef },
}

/// The successor refers only to blocks below `n`.
pub open spec fn successor_within(s: Successor, n: int) -> bool {
    match s {
        Successor::Terminal => true,
        Successor::Uncond(b) => b.0 < n,
        Successor::Cond { false_bb, true_bb, .. } => false_bb.0 < n && true_bb.0 < n,
    }
}

/// The number of edges that a successor contributes.
pub open spec fn successor_edges(s: Successor) -> int {
    match s {
        Successor::Cond { .. } => 2,
        _ => 1,
    }
}

/// A maximal straight-line piece of code.
#[derive(Debug)]
pub struct BasicBlock {
    pub span: Span,
    pub successor: Successor,
    pub reachable: bool,
}

impl BasicBlock {
    fn new() -> (r: Self)
        ensures
            r.span == (Span { start: 0, end: 0 }),
            r.successor == Successor::Terminal,
            !r.reachable,
    {
        Self { span: Span { start: 0, end: 0 }, successor: Successor::Terminal, reachable: false }
    }

    /// Extends the block's span to cover `span`; an empty block takes `span`.
    fn append(&mut self, span: Span)
        ensures
            final(self).span == extended_span(old(self).span, span),
            final(self).successor == old(self).successor,
            final(self).reachable == old(self).reachable,
    {
        if self.span.start == 0 && self.span.end == 0 {
            self.span = span;
        } else if self.span.end < span.end {
            self.span.end = span.end;
        }
    }
}

/// The span of a block that covered `old` after `span` is appended: `span` for an empty block,
/// else `old` extended to the end of `span`.
pub open spec fn extended_span(old: Span, span: Span) -> Span {
    if old.start == 0 && old.end == 0 {
        span
    } else if old.end < span.end {
        Span { start: old.start, end: span.end }
    } else {
        old
    }
}

/// The blocks `bbs` with `span` appended to block `b`.
pub open spec fn appended(bbs: Seq<BasicBlock>, b: int, span: Span) -> Seq<BasicBlock> {
    bbs.update(b, BasicBlock { span: extended_span(bbs[b].span, span), successor: bbs[b].successor, reachable: bbs[b].reachable })
}

/// The blocks `bbs` with block `b` continuing at `to`.
pub open spec fn redirected(bbs: Seq<BasicBlock>, b: int, to: Successor) -> Seq<BasicBlock> {
    bbs.update(b, BasicBlock { span: bbs[b].span, successor: to, reachable: bbs[b].reachable })
}

/// A new block: empty, without successor, and not found reachable.
pub open spec fn fresh_bb() -> BasicBlock {
    BasicBlock { span: Span { start: 0, end: 0 }, successor: Successor::Terminal, reachable: false }
}

/// `x + y`, or `usize::MAX` where that exceeds it.
pub open spec fn saturating_sum(x: int, y: int) -> int {
    if x + y <= usize::MAX {
        x + y
    } else {
        usize::MAX as int
    }
}

/// The control flow graph of one function body or of the chunk.
#[derive(Debug)]
pub struct ControlFlowGraph {
    /// The span of the function, or `None` for the chunk.
    pub span: Option<Span>,
    pub bbs: Vec<BasicBlock>,
    /// The number of edges inserted (saturating).
    pub edges: usize,
    /// The number of exits from the function (saturating).
    pub exits: usize,
}

impl ControlFlowGraph {
    /// The graph has an entry block and every successor refers to one of its blocks.
    pub open spec fn wf(&self) -> bool {
        &&& self.bbs@.len() >= 1
        &&& forall|i: int|
            0 <= i < self.bbs@.len() ==> successor_within(
                #[trigger] self.bbs@[i].successor,
                self.bbs@.len() as int,
            )
    }

    /// The span of the graph and those of its blocks lie within a source of length `len`.
    pub open spec fn spans_within(&self, len: int) -> bool {
        &&& (self.span matches Some(s) ==> s.start <= len && s.end <= len)
        &&& self.blocks_within(len)
    }

    /// The spans of the blocks lie within a source of length `len`.
    pub open spec fn blocks_within(&self, len: int) -> bool {
        forall|i: int| 0 <= i < self.bbs@.len() ==> #[trigger] self.bbs@[i].span.start <= len && self.bbs@[i].span.end <= len
    }

    fn new(span: Option<Span>) -> (r: Self)
        ensures
            r.wf(),
            r.span == span,
            r.bbs@.len() == 1,
            r.bbs@[0].span == (Span { start: 0, end: 0 }),
            r.bbs@ == seq![fresh_bb()],
            r.edges == 0,
            r.exits == 0,
    {
        let mut bbs = Vec::new();
        bbs.push(BasicBlock::new());
        assert(bbs@ =~= seq![fresh_bb()]);
        Self { span, bbs, edges: 0, exits: 0 }
    }

    /// Extends the span of block `bb_ref` to cover `span`.
    pub fn append_span(&mut self, bb_ref: BasicBlockRef, span: Span)
        requires
            bb_ref.0 < old(self).bbs@.len(),
        ensures
            final(self).bbs@.len() == old(self).bbs@.len(),
            final(self).span == old(self).span,
            final(self).edges == old(self).edges,
            final(self).exits == old(self).exits,
            forall|i: int|
                0 <= i < final(self).bbs@.len() ==> (#[trigger] final(self).bbs@[i]).successor == old(
                    self,
                ).bbs@[i].successor,
            final(self).bbs@[bb_ref.0 as int].span == extended_span(old(self).bbs@[bb_ref.0 as int].span, span),
            final(self).bbs@[bb_ref.0 as int].reachable == old(self).bbs@[bb_ref.0 as int].reachable,
            forall|i: int| 0 <= i < final(self).bbs@.len() && i != bb_ref.0 ==> #[trigger] final(self).bbs@[i] == old(self).bbs@[i],
    {
        let mut bb = self.bbs.remove(bb_ref.0);
        bb.append(span);
        self.bbs.insert(bb_ref.0, bb);
        proof {
            assert forall|i: int| 0 <= i < self.bbs@.len() implies (
            #[trigger] self.bbs@[i]).successor == old(self).bbs@[i].successor by {
                if i < bb_ref.0 {
                } else if i > bb_ref.0 {
                } else {
                }
            }
            assert forall|i: int| 0 <= i < self.bbs@.len() && i != bb_ref.0 implies #[trigger] self.bbs@[i] == old(self).bbs@[i] by {
                if i < bb_ref.0 {
                } else {
                }
            }
        }
    }

    /// The basic block `bb_ref`.
    pub fn bb_mut(&mut self, bb_ref: BasicBlockRef) -> (r: &mut BasicBlock)
        requires
            bb_ref.0 < old(self).bbs@.len(),
        ensures
            *r == old(self).bbs@[bb_ref.0 as int],
            final(self).bbs@ == old(self).bbs@.update(bb_ref.0 as int, *final(r)),
            final(self).span == old(self).span,
            final(self).edges == old(self).edges,
            final(self).exits == old(self).exits,
    {
        &mut self.bbs[bb_ref.0]
    }

    /// Adds an empty block without successor.
    fn insert_bb(&mut self) -> (r: BasicBlockRef)
        ensures
            r.0 == old(self).bbs@.len(),
            final(self).bbs@ == old(self).bbs@.push(final(self).bbs@[r.0 as int]),
            final(self).bbs@[r.0 as int].successor == Successor::Terminal,
            final(self).bbs@[r.0 as int].span == (Span { start: 0, end: 0 }),
            !final(self).bbs@[r.0 as int].reachable,
            final(self).span == old(self).span,
            final(self).edges == old(self).edges,
            final(self).exits == old(self).exits,
    {
        let bb_ref = BasicBlockRef(self.bbs.len());
        self.bbs.push(BasicBlock::new());
        bb_ref
    }

    /// Makes `to` the successor of block `from` and counts its edges.
    fn insert_edge(&mut self, from: BasicBlockRef, to: Successor)
        requires
            from.0 < old(self).bbs@.len(),
        ensures
            final(self).bbs@.len() == old(self).bbs@.len(),
            final(self).bbs@[from.0 as int].successor == to,
            final(self).bbs@[from.0 as int].span == old(self).bbs@[from.0 as int].span,
            final(self).bbs@[from.0 as int].reachable == old(self).bbs@[from.0 as int].reachable,
            forall|i: int|
                0 <= i < final(self).bbs@.len() && i != from.0 ==> #[trigger] final(self).bbs@[i]
                    == old(self).bbs@[i],
            final(self).edges == (if old(self).edges + successor_edges(to) <= usize::MAX {
                old(self).edges + successor_edges(to)
            } else {
                usize::MAX as int
            }),
            final(self).span == old(self).span,
            final(self).exits == old(self).exits,
    {
        let add: usize = match to {
            Successor::Cond { .. } => 2,
            _ => 1,
        };
        self.edges = self.edges.saturating_add(add);
        let mut bb = self.bbs.remove(from.0);
        bb.successor = to;
        self.bbs.insert(from.0, bb);
        proof {
            assert forall|i: int|
                0 <= i < self.bbs@.len() && i != from.0 implies #[trigger] self.bbs@[i] == old(
                self,
            ).bbs@[i] by {
                if i < from.0 {
                } else {
                }
            }
        }
    }
}

/// Where a condition transfers control when it is false and when it is true.
#[derive(Clone, Copy)]
pub enum Jumps {
    Absent,
    Targets { false_bb: BasicBlockRef, true_bb: BasicBlockRef },
}

/// The blocks `bbs` after block `b` evaluates a condition whose value is always `value`:
/// under `jumps` it continues at the target for that value, and without targets nothing
/// changes.
pub open spec fn decided(bbs: Seq<BasicBlock>, b: int, jumps: Jumps, value: bool) -> Seq<BasicBlock> {
    match jumps {
        Jumps::Absent => bbs,
        Jumps::Targets { false_bb, true_bb } => redirected(bbs, b, Successor::Uncond(if value { true_bb } else { false_bb })),
    }
}

/// The blocks `bbs` after block `b` evaluates the condition `exp`, decided at run time.
pub open spec fn branched(bbs: Seq<BasicBlock>, b: int, jumps: Jumps, exp: Exp) -> Seq<BasicBlock> {
    match jumps {
        Jumps::Absent => bbs,
        Jumps::Targets { false_bb, true_bb } => redirected(bbs, b, Successor::Cond { exp: Some(exp), false_bb, true_bb }),
    }
}

/// The edges that a jump of `n` edges adds under `jumps`.
pub open spec fn jump_edges(jumps: Jumps, n: int) -> int {
    match jumps {
        Jumps::Absent => 0,
        Jumps::Targets { .. } => n,
    }
}

pub open spec fn jumps_within(j: Jumps, n: int) -> bool {
    match j {
        Jumps::Absent => true,
        Jumps::Targets { false_bb, true_bb } => false_bb.0 < n && true_bb.0 < n,
    }
}

/// The block recorded for `label` among the entries from `i` on, the first one winning.
pub open spec fn label_entry(entries: Seq<(NodeRef, BasicBlockRef)>, label: NodeRef, i: int) -> Option<BasicBlockRef>
    decreases entries.len() - i,
{
    if i < 0 || i >= entries.len() {
        None
    } else if entries[i].0 == label {
        Some(entries[i].1)
    } else {
        label_entry(entries, label, i + 1)
    }
}

/// Builds the control flow graphs of a chunk and of the functions defined in it.
pub struct CfgBuilder {
    /// The graph of the function being visited.
    pub cfg: ControlFlowGraph,
    /// The block that the next statement extends.
    pub cur_bb: BasicBlockRef,
    /// The block of each label met so far.
    pub label_bbs: Vec<(NodeRef, BasicBlockRef)>,
    /// The exits of the enclosing loops, the innermost last.
    pub break_bbs: Vec<BasicBlockRef>,
    /// The graphs of the functions defined inside, in the order they were met.
    pub inner_cfgs: Vec<ControlFlowGraph>,
    /// The length of the source that the graphs cover.
    pub source_len: Ghost<int>,
}

impl CfgBuilder {
    pub open spec fn wf(&self) -> bool {
        &&& self.cfg.wf()
        &&& self.cur_bb.0 < self.cfg.bbs@.len()
        &&& forall|i: int|
            0 <= i < self.label_bbs@.len() ==> (#[trigger] self.label_bbs@[i]).1.0
                < self.cfg.bbs@.len()
        &&& forall|i: int|
            0 <= i < self.break_bbs@.len() ==> (#[trigger] self.break_bbs@[i]).0
                < self.cfg.bbs@.len()
        &&& forall|i: int| 0 <= i < self.inner_cfgs@.len() ==> (#[trigger] self.inner_cfgs@[i]).wf()
        &&& self.source_len@ >= 0
        &&& self.cfg.blocks_within(self.source_len@)
        &&& forall|i: int| 0 <= i < self.inner_cfgs@.len() ==> (#[trigger] self.inner_cfgs@[i]).spans_within(self.source_len@)
    }

    /// `b` is the builder that starts on a function body or chunk whose span is `span`: one
    /// empty block, which is current, and nothing else.
    pub open spec fn fresh(b: CfgBuilder, span: Option<Span>, cst: &Cst) -> bool {
        &&& b.cfg.span == span
        &&& b.cfg.bbs@ == seq![fresh_bb()]
        &&& b.cfg.edges == 0
        &&& b.cfg.exits == 0
        &&& b.cur_bb.0 == 0
        &&& b.label_bbs@.len() == 0
        &&& b.break_bbs@.len() == 0
        &&& b.inner_cfgs@.len() == 0
        &&& b.source_len@ == cst.source_view().len()
    }

    /// The graphs that the builder has built: those of the inner functions, then its own.
    pub open spec fn graphs(&self) -> Seq<ControlFlowGraph> {
        self.inner_cfgs@.push(self.cfg)
    }

    /// The builder only grows its graph and keeps the enclosing loops' exits.
    pub open spec fn grows(&self, old: &CfgBuilder) -> bool {
        &&& self.cfg.bbs@.len() >= old.cfg.bbs@.len()
        &&& self.cfg.span == old.cfg.span
        &&& self.break_bbs@ == old.break_bbs@
        &&& self.source_len == old.source_len
    }

    /// The edge and exit counts, the label blocks and the graphs of inner functions are
    /// those of `old`.
    pub open spec fn keeps_counts(&self, old: &CfgBuilder) -> bool {
        &&& self.cfg.edges == old.cfg.edges
        &&& self.cfg.exits == old.cfg.exits
        &&& self.label_bbs@ == old.label_bbs@
        &&& self.inner_cfgs@ == old.inner_cfgs@
    }

    /// The control flow graphs of the functions defined in `block` followed by the graph of
    /// `block` itself, whose span is `span`.
    pub fn build(cst: &Cst, sema: &SemanticData, block: Block, span: Option<Span>) -> (r: Vec<
        ControlFlowGraph,
    >)
        ensures
            r@.len() >= 1,
            r@.last().span == span,
            exists|start: CfgBuilder, end: CfgBuilder|
                #![trigger Self::fresh(start, span, cst), stats_step(start, end, cst, sema, cst.spec_child_nodes::<Stat>(block.syntax))]
                Self::fresh(start, span, cst)
                && stats_step(start, end, cst, sema, cst.spec_child_nodes::<Stat>(block.syntax))
                && r@ == end.graphs(),
            forall|i: int| 0 <= i < r@.len() ==> (#[trigger] r@[i]).wf(),
            forall|i: int| 0 <= i < r@.len() - 1 ==> (#[trigger] r@[i]).spans_within(cst.source_view().len() as int),
            r@.last().blocks_within(cst.source_view().len() as int),
            (span matches Some(s) ==> s.start <= cst.source_view().len() && s.end <= cst.source_view().len())
                ==> r@.last().spans_within(cst.source_view().len() as int),
        decreases cst.spec_len() - block.syntax.0, 1int,
    {
        let mut builder = Self {
            cfg: ControlFlowGraph::new(span),
            cur_bb: BasicBlockRef(0),
            label_bbs: Vec::new(),
            break_bbs: Vec::new(),
            inner_cfgs: Vec::new(),
            source_len: Ghost(cst.source_view().len() as int),
        };
        let ghost start = builder;
        assert(Self::fresh(start, span, cst));
        builder.visit_block(cst, sema, block);
        let ghost end = builder;
        let CfgBuilder { cfg, mut inner_cfgs, .. } = builder;
        inner_cfgs.push(cfg);
        assert(inner_cfgs@ == end.graphs());
        inner_cfgs
    }

    fn visit_func(&mut self, cst: &Cst, sema: &SemanticData, block: Block, span: Option<Span>)
        requires
            old(self).source_len@ == cst.source_view().len(),
            span matches Some(s) ==> s.start <= cst.source_view().len() && s.end <= cst.source_view().len(),
            old(self).wf(),
        ensures
            final(self).wf(),
            final(self).grows(old(self)),
            final(self).cfg == old(self).cfg,
            final(self).cur_bb == old(self).cur_bb,
            final(self).label_bbs@ == old(self).label_bbs@,
            final(self).inner_cfgs@.len() > old(self).inner_cfgs@.len(),
            final(self).inner_cfgs@.subrange(0, old(self).inner_cfgs@.len() as int) == old(self).inner_cfgs@,
            final(self).inner_cfgs@.last().span == span,
            inner_graphs_added(old(self).inner_cfgs@, final(self).inner_cfgs@, cst, sema, block, span),
        decreases cst.spec_len() - block.syntax.0, 2int,
    {
        let mut cfgs = CfgBuilder::build(cst, sema, block, span);
        let ghost before = self.inner_cfgs@;
        let ghost added = cfgs@;
        self.inner_cfgs.append(&mut cfgs);
        assert(self.inner_cfgs@ =~= before + added);
        proof {
            let (start, end) = choose|start: CfgBuilder, end: CfgBuilder|
                #![trigger Self::fresh(start, span, cst), stats_step(start, end, cst, sema, cst.spec_child_nodes::<Stat>(block.syntax))]
                Self::fresh(start, span, cst)
                && stats_step(start, end, cst, sema, cst.spec_child_nodes::<Stat>(block.syntax))
                && added == end.graphs();
            assert(Self::fresh(start, span, cst));
            assert(stats_step(start, end, cst, sema, cst.spec_child_nodes::<Stat>(block.syntax)));
            assert(self.inner_cfgs@ == before + end.graphs());
        }
        assert forall|k: int| 0 <= k < self.inner_cfgs@.len() implies (
        #[trigger] self.inner_cfgs@[k]).wf() && self.inner_cfgs@[k].spans_within(self.source_len@) by {
            if k >= before.len() {
                assert(self.inner_cfgs@[k] == added[k - before.len()]);
            }
        }
    }

    fn visit_block(&mut self, cst: &Cst, sema: &SemanticData, block: Block)
        requires
            old(self).source_len@ == cst.source_view().len(),
            old(self).wf(),
        ensures
            final(self).wf(),
            final(self).grows(old(self)),
            stats_step(*old(self), *final(self), cst, sema, cst.spec_child_nodes::<Stat>(block.syntax)),
        decreases cst.spec_len() - block.syntax.0, 0int,
    {
        let stats = block.stats(cst);
        let mut i: usize = 0;
        let ghost mut chain: Seq<CfgBuilder> = seq![*self];
        while i < stats.len()
            invariant
                self.wf(),
                self.grows(old(self)),
                self.source_len@ == cst.source_view().len(),
                i <= stats@.len(),
                forall|k: int|
                    0 <= k < stats@.len() ==> after(cst, #[trigger] stats@[k].spec_syntax(), block.syntax),
                stats_chain(chain, cst, sema, stats@.take(i as int)),
                chain[0] == *old(self),
                chain.last() == *self,
            decreases stats@.len() - i,
        {
            let ghost prev = chain;
            self.visit_statement(cst, sema, stats[i]);
            proof {
                chain = prev.push(*self);
                assert forall|k: int| 0 <= k < i + 1 implies stat_step(&chain[k], &chain[k + 1], cst, sema, #[trigger] stats@.take(i + 1)[k]) by {
                    if k < i {
                        assert(stats@.take(i + 1)[k] == stats@.take(i as int)[k]);
                    }
                }
            }
            i = i + 1;
        }
        assert(stats@.take(stats@.len() as int) =~= stats@);
        assert(stats_chain(chain, cst, sema, stats@));
    }
}

/// What visiting statement `stat` does to the builder `old`, giving `new`: the builder
/// stays well formed and only grows; a statement without control flow extends the current
/// block; an assignment then visits its values, then its targets; `return` ends it and counts an exit; `break` ends it with a jump to the exit of the
/// innermost loop; `goto` ends it with a jump to the block of its label; a label starts the
/// block of the label, which the current block jumps to; a loop or `if` statement continues
/// in a new block where its branches merge.
pub open spec fn stat_step(old: &CfgBuilder, new: &CfgBuilder, cst: &Cst, sema: &SemanticData, stat: Stat) -> bool {
    &&& (new.wf())
    &&& (new.grows(old))
    &&& (stat is Emptystat || stat is Dostat || stat is Localvarstat || stat is Globalvarstat
        || stat is CollectiveGlobalvarstat ==> {
        &&& new.cfg.bbs@ == appended(old.cfg.bbs@, old.cur_bb.0 as int, cst.node_span(stat.spec_syntax()))
        &&& new.cur_bb == old.cur_bb
        &&& new.keeps_counts(old)
    })
    &&& (stat matches Stat::Expstat(es) ==> exists|b1: CfgBuilder, b2: CfgBuilder|
        #![trigger operand_begun(*old, b1, false, old.cur_bb, cst.node_span(es.syntax)), expstat_visited(b1, b2, cst, es)]
        operand_begun(*old, b1, false, old.cur_bb, cst.node_span(es.syntax))
        && expstat_visited(b1, b2, cst, es)
        && if terminates(cst, es) { exited(b2, *new) } else { *new == b2 })
    &&& (stat matches Stat::Assignstat(a) ==> exists|b: CfgBuilder|
        #[trigger] operand_begun(*old, b, false, old.cur_bb, cst.node_span(a.syntax))
        && values_step(b, *new, cst, cst.spec_explist_exps(a.syntax) + cst.spec_child_nodes::<Exp>(a.syntax)))
    &&& (stat is Retstat ==> {
        &&& new.cfg.bbs@ == appended(old.cfg.bbs@, old.cur_bb.0 as int, cst.node_span(stat.spec_syntax())).push(fresh_bb())
        &&& new.cur_bb.0 == old.cfg.bbs@.len()
        &&& new.cfg.edges == old.cfg.edges
        &&& new.cfg.exits == saturating_sum(old.cfg.exits as int, 1)
        &&& new.label_bbs@ == old.label_bbs@
        &&& new.inner_cfgs@ == old.inner_cfgs@
    })
    &&& (stat is Breakstat ==> {
        let bbs = appended(old.cfg.bbs@, old.cur_bb.0 as int, cst.node_span(stat.spec_syntax()));
        let leaves = old.break_bbs@.len() > 0;
        &&& new.cfg.bbs@ == (if leaves {
            redirected(bbs, old.cur_bb.0 as int, Successor::Uncond(old.break_bbs@.last()))
        } else {
            bbs
        }).push(fresh_bb())
        &&& new.cur_bb.0 == old.cfg.bbs@.len()
        &&& new.cfg.edges == (if leaves { saturating_sum(old.cfg.edges as int, 1) } else { old.cfg.edges as int })
        &&& new.cfg.exits == old.cfg.exits
        &&& new.label_bbs@ == old.label_bbs@
        &&& new.inner_cfgs@ == old.inner_cfgs@
    })
    &&& (stat is Whilestat || stat is Repeatstat || stat is Ifstat || stat is NumericForstat
        || stat is GenericForstat ==> new.cur_bb.0 == old.cfg.bbs@.len())
    &&& (stat matches Stat::Gotostat(g) ==> {
        let bbs = appended(old.cfg.bbs@, old.cur_bb.0 as int, cst.node_span(g.syntax));
        let bound = sema.decl_bindings@.contains_key(g.syntax.0);
        let found = label_entry(old.label_bbs@, NodeRef(sema.decl_bindings@[g.syntax.0]), 0);
        let target = match found {
            Some(b) => b,
            None => BasicBlockRef(bbs.len() as usize),
        };
        let jumped = match found {
            Some(_) => redirected(bbs, old.cur_bb.0 as int, Successor::Uncond(target)),
            None => redirected(bbs.push(fresh_bb()), old.cur_bb.0 as int, Successor::Uncond(target)),
        };
        &&& new.cfg.bbs@ == (if bound { jumped } else { bbs }).push(fresh_bb())
        &&& new.cur_bb.0 == new.cfg.bbs@.len() - 1
        &&& new.cfg.edges == (if bound { saturating_sum(old.cfg.edges as int, 1) } else { old.cfg.edges as int })
        &&& new.cfg.exits == old.cfg.exits
        &&& new.inner_cfgs@ == old.inner_cfgs@
    })
    &&& (stat matches Stat::Label(l) ==> {
        let found = label_entry(old.label_bbs@, l.syntax, 0);
        let target = match found {
            Some(b) => b,
            None => BasicBlockRef(old.cfg.bbs@.len() as usize),
        };
        let bbs = match found {
            Some(_) => old.cfg.bbs@,
            None => old.cfg.bbs@.push(fresh_bb()),
        };
        &&& new.cfg.bbs@ == appended(redirected(bbs, old.cur_bb.0 as int, Successor::Uncond(target)), target.0 as int, cst.node_span(l.syntax))
        &&& new.cur_bb == target
        &&& new.cfg.edges == saturating_sum(old.cfg.edges as int, 1)
        &&& new.cfg.exits == old.cfg.exits
        &&& new.inner_cfgs@ == old.inner_cfgs@
    })
}

/// What visiting expression `exp` under `jumps` does to the builder `old`, giving `new`: the
/// builder stays well formed and only grows; a constant decides a condition, going to the
/// target for its truth value; a name or `...` makes the current block branch on it.
pub open spec fn exp_step(old: &CfgBuilder, new: &CfgBuilder, cst: &Cst, exp: Exp, jumps: Jumps) -> bool {
    &&& (new.wf())
    &&& (new.grows(old))
    &&& (exp is Stringexp || exp is Decintexp || exp is Hexintexp || exp is Decfloatexp || exp is Hexfloatexp
        || exp is Trueexp || exp is Falseexp || exp is Nilexp ==> {
        &&& new.cfg.bbs@ == decided(old.cfg.bbs@, old.cur_bb.0 as int, jumps, !(exp is Falseexp || exp is Nilexp))
        &&& new.cur_bb == old.cur_bb
        &&& new.cfg.edges == saturating_sum(old.cfg.edges as int, jump_edges(jumps, 1))
        &&& new.cfg.exits == old.cfg.exits
        &&& new.label_bbs@ == old.label_bbs@
        &&& new.inner_cfgs@ == old.inner_cfgs@
    })
    &&& (exp is Nameexp || exp is Varargexp ==> {
        &&& new.cfg.bbs@ == branched(old.cfg.bbs@, old.cur_bb.0 as int, jumps, exp)
        &&& new.cur_bb == old.cur_bb
        &&& new.cfg.edges == saturating_sum(old.cfg.edges as int, jump_edges(jumps, 2))
        &&& new.cfg.exits == old.cfg.exits
        &&& new.label_bbs@ == old.label_bbs@
        &&& new.inner_cfgs@ == old.inner_cfgs@
    })
}

/// Whether the expression statement `es` ends its function: a call of `error`, or of
/// `assert` whose first argument is `false` or `nil`.
pub open spec fn terminates(cst: &Cst, es: Expstat) -> bool {
    match cst.spec_child_node::<Exp>(es.syntax) {
        Some(Exp::Callexp(c)) => match (cst.spec_child_node::<Exp>(c.syntax), cst.spec_child_node::<Args>(c.syntax)) {
            (Some(Exp::Nameexp(n)), Some(args)) => match cst.spec_child_token(n.syntax, Token::Name) {
                Some(t) => {
                    let name = cst.text(cst.node_span(t));
                    let first = cst.spec_child_nodes::<Exp>(args.spec_syntax());
                    if name == seq![97u8, 115u8, 115u8, 101u8, 114u8, 116u8] {
                        first.len() > 0 && (first[0] is Falseexp || first[0] is Nilexp)
                    } else {
                        name == seq![101u8, 114u8, 114u8, 111u8, 114u8]
                    }
                },
                None => false,
            },
            _ => false,
        },
        _ => false,
    }
}

/// `b2` is `b1` after visiting the expression of statement `es`, if any.
pub open spec fn expstat_visited(b1: CfgBuilder, b2: CfgBuilder, cst: &Cst, es: Expstat) -> bool {
    match cst.spec_child_node::<Exp>(es.syntax) {
        Some(x) => exp_step(&b1, &b2, cst, x, Jumps::Absent),
        None => b2 == b1,
    }
}

/// `new` is `old` after an exit from the function: a new, unreachable block becomes
/// current and the exit is counted.
pub open spec fn exited(old: CfgBuilder, new: CfgBuilder) -> bool {
    &&& new.cfg.bbs@ == old.cfg.bbs@.push(fresh_bb())
    &&& new.cfg.span == old.cfg.span
    &&& new.cfg.edges == old.cfg.edges
    &&& new.cfg.exits == saturating_sum(old.cfg.exits as int, 1)
    &&& new.cur_bb.0 == old.cfg.bbs@.len()
    &&& new.break_bbs@ == old.break_bbs@
    &&& new.label_bbs@ == old.label_bbs@
    &&& new.inner_cfgs@ == old.inner_cfgs@
    &&& new.source_len == old.source_len
}

/// `b` is `old` with the span `span` of an operand appended to block `cur`, which becomes
/// current, and, where `grown`, a new block added first.
pub open spec fn operand_begun(old: CfgBuilder, b: CfgBuilder, grown: bool, cur: BasicBlockRef, span: Span) -> bool {
    &&& b.cfg.bbs@ == appended(if grown { old.cfg.bbs@.push(fresh_bb()) } else { old.cfg.bbs@ }, cur.0 as int, span)
    &&& b.cfg.span == old.cfg.span
    &&& b.cfg.edges == old.cfg.edges
    &&& b.cfg.exits == old.cfg.exits
    &&& b.cur_bb == cur
    &&& b.break_bbs@ == old.break_bbs@
    &&& b.label_bbs@ == old.label_bbs@
    &&& b.inner_cfgs@ == old.inner_cfgs@
    &&& b.source_len == old.source_len
}

/// Visiting the condition `lhs and rhs` (or `lhs or rhs` where `!is_and`) that jumps to
/// `false_bb` when false and to `true_bb` when true takes `old` to `new`: the left operand
/// decides in the current block, going on to a new block for the right operand when that
/// one decides, that is when the left is true for `and` and false for `or`.
pub open spec fn short_circuit(old: CfgBuilder, new: CfgBuilder, cst: &Cst, lhs: Exp, rhs: Exp, is_and: bool, false_bb: BasicBlockRef, true_bb: BasicBlockRef) -> bool {
    let rhs_bb = BasicBlockRef(old.cfg.bbs@.len() as usize);
    exists|b1: CfgBuilder, b2: CfgBuilder, b3: CfgBuilder|
        #![trigger operand_begun(old, b1, true, old.cur_bb, cst.node_span(lhs.spec_syntax())), operand_begun(b2, b3, false, rhs_bb, cst.node_span(rhs.spec_syntax()))]
        operand_begun(old, b1, true, old.cur_bb, cst.node_span(lhs.spec_syntax()))
        && exp_step(&b1, &b2, cst, lhs, if is_and {
            Jumps::Targets { false_bb, true_bb: rhs_bb }
        } else {
            Jumps::Targets { false_bb: rhs_bb, true_bb }
        })
        && operand_begun(b2, b3, false, rhs_bb, cst.node_span(rhs.spec_syntax()))
        && exp_step(&b3, &new, cst, rhs, Jumps::Targets { false_bb, true_bb })
}

/// What visiting a logical operator under `jumps` does to `old`, giving `new`: a condition
/// `and` or `or` short-circuits, and `not` swaps the targets of its operand; without targets
/// `not` adds nothing.
pub open spec fn logic_step(old: CfgBuilder, new: CfgBuilder, cst: &Cst, exp: Exp, jumps: Jumps) -> bool {
    match exp {
        Exp::Binexp(be) => {
            let ops = cst.spec_child_nodes::<Exp>(be.syntax);
            let is_and = cst.spec_child_token(be.syntax, Token::And) is Some;
            let is_or = cst.spec_child_token(be.syntax, Token::Or) is Some;
            match jumps {
                Jumps::Targets { false_bb, true_bb } => ops.len() >= 2 && (is_and || is_or)
                    ==> short_circuit(old, new, cst, ops[0], ops[1], is_and, false_bb, true_bb),
                Jumps::Absent => true,
            }
        },
        Exp::Unaryexp(u) => match (cst.spec_child_node::<Exp>(u.syntax), cst.spec_child_token(u.syntax, Token::Not)) {
            (Some(x), Some(_)) => match jumps {
                Jumps::Targets { false_bb, true_bb } => exp_step(&old, &new, cst, x, Jumps::Targets { false_bb: true_bb, true_bb: false_bb }),
                Jumps::Absent => new == old,
            },
            _ => true,
        },
        _ => true,
    }
}

/// Visiting the body `block` of a loop that enters at `block_bb` and whose `break` leaves to
/// `merge_bb` takes `old` to `new`.
pub open spec fn loop_body_step(old: CfgBuilder, new: CfgBuilder, cst: &Cst, sema: &SemanticData, block: Block, block_bb: BasicBlockRef, merge_bb: BasicBlockRef) -> bool {
    exists|entered: CfgBuilder, left: CfgBuilder|
        #[trigger] CfgBuilder::entered_loop(old, entered, block_bb, merge_bb)
        && stats_step(entered, left, cst, sema, cst.spec_child_nodes::<Stat>(block.syntax))
        && #[trigger] CfgBuilder::left_loop(left, new, old)
}

/// `b` is `old` with `span` appended to the current block, three new blocks added (the merge,
/// body and condition blocks of a `while` loop), and the current block jumping to `to`.
pub open spec fn loop_opened(old: CfgBuilder, b: CfgBuilder, span: Span, to: BasicBlockRef) -> bool {
    &&& b.cfg.bbs@ == redirected(
        appended(old.cfg.bbs@, old.cur_bb.0 as int, span).push(fresh_bb()).push(fresh_bb()).push(fresh_bb()),
        old.cur_bb.0 as int,
        Successor::Uncond(to),
    )
    &&& b.cfg.span == old.cfg.span
    &&& b.cfg.edges == saturating_sum(old.cfg.edges as int, 1)
    &&& b.cfg.exits == old.cfg.exits
    &&& b.cur_bb == old.cur_bb
    &&& b.break_bbs@ == old.break_bbs@
    &&& b.label_bbs@ == old.label_bbs@
    &&& b.inner_cfgs@ == old.inner_cfgs@
    &&& b.source_len == old.source_len
}

/// `new` is `old` after the condition `cond`, if any, is visited in block `at` with the
/// targets `false_bb` and `true_bb`.
pub open spec fn cond_visited(old: CfgBuilder, new: CfgBuilder, cst: &Cst, cond: Option<Exp>, at: BasicBlockRef, false_bb: BasicBlockRef, true_bb: BasicBlockRef) -> bool {
    match cond {
        Some(c) => exists|b: CfgBuilder| #[trigger] CfgBuilder::moved_to(old, b, at)
            && exp_step(&b, &new, cst, c, Jumps::Targets { false_bb, true_bb }),
        None => new == old,
    }
}

/// `new` is `old` after the loop body `block`, if any, is visited and jumps back to `back`.
pub open spec fn body_visited(old: CfgBuilder, new: CfgBuilder, cst: &Cst, sema: &SemanticData, block: Option<Block>, block_bb: BasicBlockRef, merge_bb: BasicBlockRef, back: Successor) -> bool {
    match block {
        Some(bl) => exists|b: CfgBuilder| #[trigger] loop_body_step(old, b, cst, sema, bl, block_bb, merge_bb)
            && new.cfg.bbs@ == redirected(b.cfg.bbs@, b.cur_bb.0 as int, back)
            && new.cfg.span == b.cfg.span
            && new.cfg.edges == saturating_sum(b.cfg.edges as int, successor_edges(back))
            && new.cfg.exits == b.cfg.exits
            && new.cur_bb == b.cur_bb
            && new.break_bbs@ == b.break_bbs@
            && new.label_bbs@ == b.label_bbs@
            && new.inner_cfgs@ == b.inner_cfgs@,
        None => new == old,
    }
}

/// Visiting `while cond do block end` takes `old` to `new`: after the statement's span, a
/// merge block, a body block and a condition block are added; the current block goes to the
/// condition, which goes to the body when true and to the merge block when false; the body
/// goes back to the condition and leaves to the merge block on `break`; control goes on in
/// the merge block.
pub open spec fn while_step(old: CfgBuilder, new: CfgBuilder, cst: &Cst, sema: &SemanticData, w: Whilestat) -> bool {
    let n = old.cfg.bbs@.len();
    let merge_bb = BasicBlockRef(n as usize);
    let block_bb = BasicBlockRef((n + 1) as usize);
    let cond_bb = BasicBlockRef((n + 2) as usize);
    exists|opened: CfgBuilder, tested: CfgBuilder, looped: CfgBuilder|
        #![trigger loop_opened(old, opened, cst.node_span(w.syntax), cond_bb), cond_visited(opened, tested, cst, cst.spec_child_node::<Exp>(w.syntax), cond_bb, merge_bb, block_bb), CfgBuilder::moved_to(looped, new, merge_bb)]
        loop_opened(old, opened, cst.node_span(w.syntax), cond_bb)
        && cond_visited(opened, tested, cst, cst.spec_child_node::<Exp>(w.syntax), cond_bb, merge_bb, block_bb)
        && body_visited(tested, looped, cst, sema, cst.spec_child_node::<Block>(w.syntax), block_bb, merge_bb, Successor::Uncond(cond_bb))
        && CfgBuilder::moved_to(looped, new, merge_bb)
}

/// Visiting `repeat block until cond` takes `old` to `new`: after the statement's span, a
/// merge block, a body block and a condition block are added; the current block goes to the
/// body, which goes on to the condition and leaves to the merge block on `break`; the
/// condition goes back to the body when false and to the merge block when true; control goes
/// on in the merge block.
pub open spec fn repeat_step(old: CfgBuilder, new: CfgBuilder, cst: &Cst, sema: &SemanticData, r: Repeatstat) -> bool {
    let n = old.cfg.bbs@.len();
    let merge_bb = BasicBlockRef(n as usize);
    let block_bb = BasicBlockRef((n + 1) as usize);
    let cond_bb = BasicBlockRef((n + 2) as usize);
    exists|opened: CfgBuilder, looped: CfgBuilder, tested: CfgBuilder|
        #![trigger loop_opened(old, opened, cst.node_span(r.syntax), block_bb), cond_visited(looped, tested, cst, cst.spec_child_node::<Exp>(r.syntax), cond_bb, block_bb, merge_bb), CfgBuilder::moved_to(tested, new, merge_bb)]
        loop_opened(old, opened, cst.node_span(r.syntax), block_bb)
        && body_visited(opened, looped, cst, sema, cst.spec_child_node::<Block>(r.syntax), block_bb, merge_bb, Successor::Uncond(cond_bb))
        && cond_visited(looped, tested, cst, cst.spec_child_node::<Exp>(r.syntax), cond_bb, block_bb, merge_bb)
        && CfgBuilder::moved_to(tested, new, merge_bb)
}

/// `b` is `old` with `span` appended to the current block and two new blocks added: the
/// merge and body blocks of a `for` loop.
pub open spec fn for_opened(old: CfgBuilder, b: CfgBuilder, span: Span) -> bool {
    &&& b.cfg.bbs@ == appended(old.cfg.bbs@, old.cur_bb.0 as int, span).push(fresh_bb()).push(fresh_bb())
    &&& b.cfg.span == old.cfg.span
    &&& b.cfg.edges == old.cfg.edges
    &&& b.cfg.exits == old.cfg.exits
    &&& b.cur_bb == old.cur_bb
    &&& b.break_bbs@ == old.break_bbs@
    &&& b.label_bbs@ == old.label_bbs@
    &&& b.inner_cfgs@ == old.inner_cfgs@
    &&& b.source_len == old.source_len
}

/// `new` is `left` after its current block goes on to `to`.
pub open spec fn jumped(left: CfgBuilder, new: CfgBuilder, to: Successor) -> bool {
    &&& new.cfg.bbs@ == redirected(left.cfg.bbs@, left.cur_bb.0 as int, to)
    &&& new.cfg.span == left.cfg.span
    &&& new.cfg.edges == saturating_sum(left.cfg.edges as int, successor_edges(to))
    &&& new.cfg.exits == left.cfg.exits
    &&& new.cur_bb == left.cur_bb
    &&& new.break_bbs@ == left.break_bbs@
    &&& new.label_bbs@ == left.label_bbs@
    &&& new.inner_cfgs@ == left.inner_cfgs@
    &&& new.source_len == left.source_len
}

/// `new` is `old` after the expression `exp`, if any, is visited for its value.
pub open spec fn value_visited(old: CfgBuilder, new: CfgBuilder, cst: &Cst, exp: Option<Exp>) -> bool {
    match exp {
        Some(x) => exp_step(&old, &new, cst, x, Jumps::Absent),
        None => new == old,
    }
}

/// `chain` is the sequence of builders that visiting the expressions `exps` in order for
/// their values passes through.
pub open spec fn values_chain(chain: Seq<CfgBuilder>, cst: &Cst, exps: Seq<Exp>) -> bool {
    &&& chain.len() == exps.len() + 1
    &&& forall|i: int| 0 <= i < exps.len() ==> exp_step(&chain[i], &chain[i + 1], cst, #[trigger] exps[i], Jumps::Absent)
}

/// Visiting the expressions `exps` in order for their values takes `old` to `new`.
pub open spec fn values_step(old: CfgBuilder, new: CfgBuilder, cst: &Cst, exps: Seq<Exp>) -> bool {
    exists|chain: Seq<CfgBuilder>| #[trigger] values_chain(chain, cst, exps) && chain[0] == old && chain.last() == new
}

/// `new` is `b` after its current block branches on `exp` under `jumps`.
pub open spec fn branched_on(b: CfgBuilder, new: CfgBuilder, exp: Exp, jumps: Jumps) -> bool {
    &&& new.cfg.bbs@ == branched(b.cfg.bbs@, b.cur_bb.0 as int, jumps, exp)
    &&& new.cfg.span == b.cfg.span
    &&& new.cfg.edges == saturating_sum(b.cfg.edges as int, jump_edges(jumps, 2))
    &&& new.cfg.exits == b.cfg.exits
    &&& new.cur_bb == b.cur_bb
    &&& new.label_bbs@ == b.label_bbs@
    &&& new.inner_cfgs@ == b.inner_cfgs@
}

/// The argument expressions of a call whose arguments are `args`, if any.
pub open spec fn call_args(cst: &Cst, args: Option<Args>) -> Seq<Exp> {
    match args {
        Some(a) => cst.spec_child_nodes::<Exp>(a.spec_syntax()),
        None => Seq::empty(),
    }
}

/// What visiting a field access, an index or a call under `jumps` does to `old`, giving
/// `new`: its parts (the base, the index, the arguments) are visited in order for their
/// values, then the current block branches on the whole expression; an expression in
/// parentheses, or under a unary operator other than `not`, is visited as the expression
/// inside; a comparison or arithmetic operator
/// visits its operands for their values, then, as a condition, branches on the whole
/// expression.
pub open spec fn access_step(old: CfgBuilder, new: CfgBuilder, cst: &Cst, exp: Exp, jumps: Jumps) -> bool {
    match exp {
        Exp::Fieldexp(f) => exists|b: CfgBuilder|
            #[trigger] value_visited(old, b, cst, cst.spec_child_node::<Exp>(f.syntax))
            && branched_on(b, new, exp, jumps),
        Exp::Indexexp(x) => {
            let parts = cst.spec_child_nodes::<Exp>(x.syntax);
            exists|b1: CfgBuilder, b2: CfgBuilder|
                #![trigger value_visited(old, b1, cst, seq_get(parts, 0)), value_visited(b1, b2, cst, seq_get(parts, 1))]
                value_visited(old, b1, cst, seq_get(parts, 0))
                && value_visited(b1, b2, cst, seq_get(parts, 1))
                && branched_on(b2, new, exp, jumps)
        },
        Exp::Callexp(c) => exists|b1: CfgBuilder, b2: CfgBuilder|
            #![trigger value_visited(old, b1, cst, cst.spec_child_node::<Exp>(c.syntax)), values_step(b1, b2, cst, call_args(cst, cst.spec_child_node::<Args>(c.syntax)))]
            value_visited(old, b1, cst, cst.spec_child_node::<Exp>(c.syntax))
            && values_step(b1, b2, cst, call_args(cst, cst.spec_child_node::<Args>(c.syntax)))
            && branched_on(b2, new, exp, jumps),
        Exp::Parenexp(p) => match cst.spec_child_node::<Exp>(p.syntax) {
            Some(x) => exp_step(&old, &new, cst, x, jumps),
            None => new == old,
        },
        Exp::Unaryexp(u) => match cst.spec_child_node::<Exp>(u.syntax) {
            Some(x) => cst.spec_child_token(u.syntax, Token::Not) is None ==> exp_step(&old, &new, cst, x, jumps),
            None => new == old,
        },
        Exp::Binexp(be) => {
            let ops = cst.spec_child_nodes::<Exp>(be.syntax);
            let logical = cst.spec_child_token(be.syntax, Token::And) is Some
                || cst.spec_child_token(be.syntax, Token::Or) is Some;
            ops.len() >= 2 && !logical ==> exists|b1: CfgBuilder, b2: CfgBuilder|
                #![trigger exp_step(&old, &b1, cst, ops[0], Jumps::Absent), exp_step(&b1, &b2, cst, ops[1], Jumps::Absent)]
                exp_step(&old, &b1, cst, ops[0], Jumps::Absent)
                && exp_step(&b1, &b2, cst, ops[1], Jumps::Absent)
                && match jumps {
                    Jumps::Targets { .. } => branched_on(b2, new, exp, jumps),
                    Jumps::Absent => new == b2,
                }
        },
        _ => true,
    }
}

/// Visiting `for v = from, to, stride do block end` takes `old` to `new`: after the
/// statement's span, a merge block and a body block are added; the three expressions are
/// visited in the current block, which goes on to the body; the body repeats or goes on to
/// the merge block, and leaves to it on `break`; control goes on in the merge block.
pub open spec fn numeric_for_step(old: CfgBuilder, new: CfgBuilder, cst: &Cst, sema: &SemanticData, f: NumericForstat) -> bool {
    let n = old.cfg.bbs@.len();
    let merge_bb = BasicBlockRef(n as usize);
    let block_bb = BasicBlockRef((n + 1) as usize);
    let exps = cst.spec_child_nodes::<Exp>(f.syntax);
    let ghost back = Successor::Cond { exp: None, true_bb: block_bb, false_bb: merge_bb };
    exists|opened: CfgBuilder, b1: CfgBuilder, b2: CfgBuilder, b3: CfgBuilder, entered: CfgBuilder, looped: CfgBuilder|
        #![trigger for_opened(old, opened, cst.node_span(f.syntax)), value_visited(opened, b1, cst, seq_get(exps, 0)), value_visited(b1, b2, cst, seq_get(exps, 1)), value_visited(b2, b3, cst, seq_get(exps, 2)), jumped(b3, entered, Successor::Uncond(block_bb)), CfgBuilder::moved_to(looped, new, merge_bb)]
        for_opened(old, opened, cst.node_span(f.syntax))
        && value_visited(opened, b1, cst, seq_get(exps, 0))
        && value_visited(b1, b2, cst, seq_get(exps, 1))
        && value_visited(b2, b3, cst, seq_get(exps, 2))
        && jumped(b3, entered, Successor::Uncond(block_bb))
        && body_visited(entered, looped, cst, sema, cst.spec_child_node::<Block>(f.syntax), block_bb, merge_bb, back)
        && CfgBuilder::moved_to(looped, new, merge_bb)
}

/// Visiting `for names in exps do block end` takes `old` to `new`: after the statement's
/// span, a merge block and a body block are added; the expressions are visited in the
/// current block, which enters the body or goes on to the merge block; the body repeats or
/// goes on to the merge block, and leaves to it on `break`; control goes on in the merge
/// block.
pub open spec fn generic_for_step(old: CfgBuilder, new: CfgBuilder, cst: &Cst, sema: &SemanticData, f: GenericForstat) -> bool {
    let n = old.cfg.bbs@.len();
    let merge_bb = BasicBlockRef(n as usize);
    let block_bb = BasicBlockRef((n + 1) as usize);
    let ghost back = Successor::Cond { exp: None, true_bb: block_bb, false_bb: merge_bb };
    exists|opened: CfgBuilder, b: CfgBuilder, entered: CfgBuilder, looped: CfgBuilder|
        #![trigger for_opened(old, opened, cst.node_span(f.syntax)), values_step(opened, b, cst, cst.spec_explist_exps(f.syntax)), jumped(b, entered, back), CfgBuilder::moved_to(looped, new, merge_bb)]
        for_opened(old, opened, cst.node_span(f.syntax))
        && values_step(opened, b, cst, cst.spec_explist_exps(f.syntax))
        && jumped(b, entered, back)
        && body_visited(entered, looped, cst, sema, cst.spec_child_node::<Block>(f.syntax), block_bb, merge_bb, back)
        && CfgBuilder::moved_to(looped, new, merge_bb)
}

/// `new_inner` is `old_inner` after a function whose body is `block` and whose span is
/// `span` is defined: the graphs of the functions inside the body, then that of the body,
/// follow the graphs already built.
pub open spec fn inner_graphs_added(old_inner: Seq<ControlFlowGraph>, new_inner: Seq<ControlFlowGraph>, cst: &Cst, sema: &SemanticData, block: Block, span: Option<Span>) -> bool {
    exists|start: CfgBuilder, end: CfgBuilder|
        #![trigger CfgBuilder::fresh(start, span, cst), stats_step(start, end, cst, sema, cst.spec_child_nodes::<Stat>(block.syntax))]
        CfgBuilder::fresh(start, span, cst)
        && stats_step(start, end, cst, sema, cst.spec_child_nodes::<Stat>(block.syntax))
        && new_inner == old_inner + end.graphs()
}

/// `new_inner` is `old_inner` after a function whose body is `block`, if any, is defined.
pub open spec fn func_graphs_added(old_inner: Seq<ControlFlowGraph>, new_inner: Seq<ControlFlowGraph>, cst: &Cst, sema: &SemanticData, block: Option<Block>, span: Option<Span>) -> bool {
    match block {
        Some(b) => inner_graphs_added(old_inner, new_inner, cst, sema, b, span),
        None => new_inner == old_inner,
    }
}

/// Visiting a function statement whose node is `syntax` takes `old` to `new`: its span
/// extends the current block and the graphs of the function follow those already built.
pub open spec fn func_stat_step(old: CfgBuilder, new: CfgBuilder, cst: &Cst, sema: &SemanticData, syntax: NodeRef) -> bool {
    &&& new.cfg.bbs@ == appended(old.cfg.bbs@, old.cur_bb.0 as int, cst.node_span(syntax))
    &&& new.cur_bb == old.cur_bb
    &&& new.cfg.edges == old.cfg.edges
    &&& new.cfg.exits == old.cfg.exits
    &&& new.label_bbs@ == old.label_bbs@
    &&& func_graphs_added(old.inner_cfgs@, new.inner_cfgs@, cst, sema, cst.spec_child_node::<Block>(syntax), Some(cst.node_span(syntax)))
}

/// Visiting the function expression `f` under `jumps` takes `old` to `new`: the graphs of
/// the function follow those already built, and the expression, always true, goes to the
/// true target.
pub open spec fn functiondef_step(old: CfgBuilder, new: CfgBuilder, cst: &Cst, sema: &SemanticData, f: Functiondef, jumps: Jumps) -> bool {
    &&& new.cfg.bbs@ == decided(old.cfg.bbs@, old.cur_bb.0 as int, jumps, true)
    &&& new.cur_bb == old.cur_bb
    &&& new.cfg.edges == saturating_sum(old.cfg.edges as int, jump_edges(jumps, 1))
    &&& new.cfg.exits == old.cfg.exits
    &&& new.label_bbs@ == old.label_bbs@
    &&& func_graphs_added(old.inner_cfgs@, new.inner_cfgs@, cst, sema, cst.spec_child_node::<Block>(f.syntax), Some(cst.node_span(f.syntax)))
}

/// Visiting one branch of an `if` statement, with condition `cond` and block `block`, takes
/// `old` to `new`: a block is added for the branch to enter; the condition, if any, jumps to
/// `else_bb` when false and to that block when true; the statements of the block are visited
/// there and go on to `merge_bb`.
pub open spec fn branch_step(old: CfgBuilder, new: CfgBuilder, cst: &Cst, sema: &SemanticData, cond: Option<Exp>, block: Option<Block>, else_bb: BasicBlockRef, merge_bb: BasicBlockRef) -> bool {
    let entry_bb = BasicBlockRef(old.cfg.bbs@.len() as usize);
    exists|opened: CfgBuilder, tested: CfgBuilder|
        #![trigger CfgBuilder::opened_branch(old, opened), CfgBuilder::tested_branch(opened, tested, cst, cond, else_bb, entry_bb)]
        CfgBuilder::opened_branch(old, opened)
        && CfgBuilder::tested_branch(opened, tested, cst, cond, else_bb, entry_bb)
        && match block {
            Some(b) => exists|entered: CfgBuilder, left: CfgBuilder|
                #![trigger CfgBuilder::moved_to(tested, entered, entry_bb), CfgBuilder::joined(left, new, merge_bb)]
                CfgBuilder::moved_to(tested, entered, entry_bb)
                && stats_step(entered, left, cst, sema, cst.spec_child_nodes::<Stat>(b.syntax))
                && CfgBuilder::joined(left, new, merge_bb),
            None => new == tested,
        }
}

/// Visiting the `elseif` branch `br` takes `old` to `new`: control goes on in `else_bb`, the
/// block that the previous condition jumps to when false; unless `last`, a block is added
/// there for the next branch (`next_else`, else the merge block), and the branch is visited.
pub open spec fn elif_step(old: CfgBuilder, new: CfgBuilder, cst: &Cst, sema: &SemanticData, br: ElifBranch, else_bb: BasicBlockRef, next_else: BasicBlockRef, last: bool, merge_bb: BasicBlockRef) -> bool {
    exists|at: CfgBuilder, opened: CfgBuilder|
        #![trigger CfgBuilder::moved_to(old, at, else_bb), branch_step(opened, new, cst, sema, cst.spec_child_node::<Exp>(br.syntax), cst.spec_child_node::<Block>(br.syntax), next_else, merge_bb)]
        CfgBuilder::moved_to(old, at, else_bb)
        && (if last {
            next_else == merge_bb && opened == at
        } else {
            next_else.0 == at.cfg.bbs@.len() && CfgBuilder::opened_branch(at, opened)
        })
        && branch_step(opened, new, cst, sema, cst.spec_child_node::<Exp>(br.syntax), cst.spec_child_node::<Block>(br.syntax), next_else, merge_bb)
}

/// `chain` is the sequence of builders, and `elses` that of the blocks reached when the
/// conditions before are false, that visiting the `elseif` branches `brs` of the `if`
/// statement `f` in order passes through; the last branch of `f`, when `f` has no `else`,
/// goes on to `merge_bb`.
pub open spec fn elifs_chain(chain: Seq<CfgBuilder>, elses: Seq<BasicBlockRef>, cst: &Cst, sema: &SemanticData, brs: Seq<ElifBranch>, f: Ifstat, merge_bb: BasicBlockRef) -> bool {
    let total = cst.spec_child_nodes::<ElifBranch>(f.syntax).len();
    let has_else = cst.spec_child_node::<ElseBranch>(f.syntax) is Some;
    &&& chain.len() == brs.len() + 1
    &&& elses.len() == brs.len() + 1
    &&& forall|i: int| 0 <= i < brs.len() ==> elif_step(chain[i], chain[i + 1], cst, sema, #[trigger] brs[i], elses[i], elses[i + 1], i + 1 == total && !has_else, merge_bb)
}

/// Visiting the `else` branch `eb`, if any, takes `old` to `new`: its statements are visited
/// in `else_bb` and go on to `merge_bb`.
pub open spec fn else_step(old: CfgBuilder, new: CfgBuilder, cst: &Cst, sema: &SemanticData, eb: Option<ElseBranch>, else_bb: BasicBlockRef, merge_bb: BasicBlockRef) -> bool {
    match eb {
        Some(e) => match cst.spec_child_node::<Block>(e.syntax) {
            Some(bl) => exists|entered: CfgBuilder, left: CfgBuilder|
                #![trigger CfgBuilder::moved_to(old, entered, else_bb), CfgBuilder::joined(left, new, merge_bb)]
                CfgBuilder::moved_to(old, entered, else_bb)
                && stats_step(entered, left, cst, sema, cst.spec_child_nodes::<Stat>(bl.syntax))
                && CfgBuilder::joined(left, new, merge_bb),
            None => new == old,
        },
        None => new == old,
    }
}

/// `b` is `old` with the span of the `if` statement `f` appended to the current block and a
/// merge block added, then, where other branches follow the first, a block for the first
/// condition to jump to when false.
pub open spec fn if_opened(old: CfgBuilder, b: CfgBuilder, cst: &Cst, f: Ifstat) -> bool {
    let more = cst.spec_child_nodes::<ElifBranch>(f.syntax).len() > 0 || cst.spec_child_node::<ElseBranch>(f.syntax) is Some;
    let bbs = appended(old.cfg.bbs@, old.cur_bb.0 as int, cst.node_span(f.syntax)).push(fresh_bb());
    &&& b.cfg.bbs@ == if more { bbs.push(fresh_bb()) } else { bbs }
    &&& b.cfg.span == old.cfg.span
    &&& b.cfg.edges == old.cfg.edges
    &&& b.cfg.exits == old.cfg.exits
    &&& b.cur_bb == old.cur_bb
    &&& b.break_bbs@ == old.break_bbs@
    &&& b.label_bbs@ == old.label_bbs@
    &&& b.inner_cfgs@ == old.inner_cfgs@
    &&& b.source_len == old.source_len
}

/// Visiting `if cond then block elseif ... else ... end` takes `old` to `new`: after the
/// statement's span, a merge block is added, and a block for the first condition to jump to
/// when false where other branches follow; each branch is visited in turn, the `elseif`
/// branches and the `else` branch each in the block that the condition before jumps to when
/// false; control goes on in the merge block.
pub open spec fn if_step(old: CfgBuilder, new: CfgBuilder, cst: &Cst, sema: &SemanticData, f: Ifstat) -> bool {
    let n = old.cfg.bbs@.len();
    let merge_bb = BasicBlockRef(n as usize);
    let brs = cst.spec_child_nodes::<ElifBranch>(f.syntax);
    let eb = cst.spec_child_node::<ElseBranch>(f.syntax);
    let more = brs.len() > 0 || eb is Some;
    let else_bb = if more { BasicBlockRef((n + 1) as usize) } else { merge_bb };
    exists|opened: CfgBuilder, chain: Seq<CfgBuilder>, elses: Seq<BasicBlockRef>, done: CfgBuilder|
        #![trigger if_opened(old, opened, cst, f), elifs_chain(chain, elses, cst, sema, brs, f, merge_bb), CfgBuilder::moved_to(done, new, merge_bb)]
        if_opened(old, opened, cst, f)
        && branch_step(opened, chain[0], cst, sema, cst.spec_child_node::<Exp>(f.syntax), cst.spec_child_node::<Block>(f.syntax), else_bb, merge_bb)
        && elifs_chain(chain, elses, cst, sema, brs, f, merge_bb)
        && elses[0] == else_bb
        && else_step(chain.last(), done, cst, sema, eb, elses.last(), merge_bb)
        && CfgBuilder::moved_to(done, new, merge_bb)
}

/// `chain` is the sequence of builders that visiting the statements `stats` in order passes
/// through, one statement at a time.
pub open spec fn stats_chain(chain: Seq<CfgBuilder>, cst: &Cst, sema: &SemanticData, stats: Seq<Stat>) -> bool {
    &&& chain.len() == stats.len() + 1
    &&& forall|i: int| 0 <= i < stats.len() ==> stat_step(&chain[i], &chain[i + 1], cst, sema, #[trigger] stats[i])
}

/// Visiting the statements `stats` in order takes the builder `old` to `new`.
pub open spec fn stats_step(old: CfgBuilder, new: CfgBuilder, cst: &Cst, sema: &SemanticData, stats: Seq<Stat>) -> bool {
    exists|chain: Seq<CfgBuilder>| #[trigger] stats_chain(chain, cst, sema, stats) && chain[0] == old && chain.last() == new
}

impl CfgBuilder {
    fn append_cur(&mut self, span: Span)
        requires
            old(self).wf(),
            span.start <= old(self).source_len@,
            span.end <= old(self).source_len@,
        ensures
            final(self).wf(),
            final(self).grows(old(self)),
            final(self).cur_bb == old(self).cur_bb,
            final(self).cfg.bbs@ == appended(old(self).cfg.bbs@, old(self).cur_bb.0 as int, span),
            final(self).keeps_counts(old(self)),
    {
        let cur = self.cur_bb;
        self.cfg.append_span(cur, span);
        assert(self.cfg.bbs@ =~= appended(old(self).cfg.bbs@, old(self).cur_bb.0 as int, span));
        proof {
            assert forall|i: int| 0 <= i < self.cfg.bbs@.len() implies successor_within(
                #[trigger] self.cfg.bbs@[i].successor,
                self.cfg.bbs@.len() as int,
            ) by {
                assert(old(self).cfg.bbs@[i].successor == self.cfg.bbs@[i].successor);
            }
        }
    }

    fn new_bb(&mut self) -> (r: BasicBlockRef)
        requires
            old(self).wf(),
        ensures
            final(self).wf(),
            final(self).grows(old(self)),
            final(self).cur_bb == old(self).cur_bb,
            r.0 < final(self).cfg.bbs@.len(),
            r.0 == old(self).cfg.bbs@.len(),
            final(self).cfg.bbs@ == old(self).cfg.bbs@.push(fresh_bb()),
            final(self).keeps_counts(old(self)),
    {
        let r = self.cfg.insert_bb();
        assert(self.cfg.bbs@[r.0 as int] == fresh_bb());
        assert(self.cfg.bbs@ =~= old(self).cfg.bbs@.push(fresh_bb()));
        proof {
            let n = self.cfg.bbs@.len() as int;
            assert forall|i: int| 0 <= i < n implies successor_within(
                #[trigger] self.cfg.bbs@[i].successor,
                n,
            ) by {
                if i < n - 1 {
                    assert(self.cfg.bbs@[i] == old(self).cfg.bbs@[i]);
                }
            }
            assert forall|i: int| 0 <= i < n implies #[trigger] self.cfg.bbs@[i].span.start <= self.source_len@
                && self.cfg.bbs@[i].span.end <= self.source_len@ by {
                if i < n - 1 {
                    assert(self.cfg.bbs@[i] == old(self).cfg.bbs@[i]);
                }
            }
        }
        r
    }

    fn edge(&mut self, from: BasicBlockRef, to: Successor)
        requires
            old(self).wf(),
            from.0 < old(self).cfg.bbs@.len(),
            successor_within(to, old(self).cfg.bbs@.len() as int),
        ensures
            final(self).wf(),
            final(self).grows(old(self)),
            final(self).cur_bb == old(self).cur_bb,
            final(self).cfg.bbs@ == redirected(old(self).cfg.bbs@, from.0 as int, to),
            final(self).cfg.edges == saturating_sum(old(self).cfg.edges as int, successor_edges(to)),
            final(self).cfg.exits == old(self).cfg.exits,
            final(self).label_bbs@ == old(self).label_bbs@,
            final(self).inner_cfgs@ == old(self).inner_cfgs@,
    {
        let ghost to_view = to;
        self.cfg.insert_edge(from, to);
        assert(self.cfg.bbs@ =~= redirected(old(self).cfg.bbs@, from.0 as int, to_view));
        proof {
            let n = self.cfg.bbs@.len() as int;
            assert forall|i: int| 0 <= i < n implies successor_within(
                #[trigger] self.cfg.bbs@[i].successor,
                n,
            ) by {
                if i != from.0 {
                    assert(self.cfg.bbs@[i] == old(self).cfg.bbs@[i]);
                }
            }
        }
    }

    fn set_cur(&mut self, bb: BasicBlockRef)
        requires
            old(self).wf(),
            bb.0 < old(self).cfg.bbs@.len(),
        ensures
            final(self).wf(),
            final(self).grows(old(self)),
            final(self).cur_bb == bb,
            final(self).cfg.bbs@ == old(self).cfg.bbs@,
            final(self).keeps_counts(old(self)),
    {
        self.cur_bb = bb;
    }

    fn count_exit(&mut self)
        requires
            old(self).wf(),
        ensures
            final(self).wf(),
            final(self).grows(old(self)),
            final(self).cur_bb == old(self).cur_bb,
            final(self).cfg.bbs@ == old(self).cfg.bbs@,
            final(self).cfg.edges == old(self).cfg.edges,
            final(self).cfg.exits == saturating_sum(old(self).cfg.exits as int, 1),
            final(self).label_bbs@ == old(self).label_bbs@,
            final(self).inner_cfgs@ == old(self).inner_cfgs@,
    {
        self.cfg.exits = self.cfg.exits.saturating_add(1);
    }

    /// The block of label `label`, created on first use.
    fn label_bb(&mut self, label: NodeRef) -> (r: BasicBlockRef)
        requires
            old(self).wf(),
        ensures
            final(self).wf(),
            final(self).grows(old(self)),
            final(self).cur_bb == old(self).cur_bb,
            r.0 < final(self).cfg.bbs@.len(),
            match label_entry(old(self).label_bbs@, label, 0) {
                Some(b) => r == b && final(self).cfg.bbs@ == old(self).cfg.bbs@ && final(self).label_bbs@ == old(self).label_bbs@,
                None => r.0 == old(self).cfg.bbs@.len() && final(self).cfg.bbs@ == old(self).cfg.bbs@.push(fresh_bb())
                    && final(self).label_bbs@ == old(self).label_bbs@.push((label, r)),
            },
            final(self).cfg.edges == old(self).cfg.edges,
            final(self).cfg.exits == old(self).cfg.exits,
            final(self).inner_cfgs@ == old(self).inner_cfgs@,
    {
        let mut i: usize = 0;
        while i < self.label_bbs.len()
            invariant
                self.wf(),
                self == old(self),
                i <= self.label_bbs@.len(),
                label_entry(self.label_bbs@, label, 0) == label_entry(self.label_bbs@, label, i as int),
            decreases self.label_bbs@.len() - i,
        {
            if self.label_bbs[i].0 == label {
                return self.label_bbs[i].1;
            }
            i = i + 1;
        }
        let bb = self.new_bb();
        let ghost prev = self.label_bbs@;
        self.label_bbs.push((label, bb));
        assert forall|k: int| 0 <= k < self.label_bbs@.len() implies (
        #[trigger] self.label_bbs@[k]).1.0 < self.cfg.bbs@.len() by {
            if k < self.label_bbs@.len() - 1 {
                assert(self.label_bbs@[k] == prev[k]);
            }
        }
        bb
    }

    /// The innermost enclosing loop exit.
    fn last_break(&self) -> (r: Option<BasicBlockRef>)
        requires
            self.wf(),
        ensures
            r matches Some(b) ==> b.0 < self.cfg.bbs@.len(),
            r == (if self.break_bbs@.len() > 0 { Some(self.break_bbs@.last()) } else { None }),
    {
        let n = self.break_bbs.len();
        if n == 0 {
            None
        } else {
            assert((self.break_bbs@[n - 1]).0 < self.cfg.bbs@.len());
            Some(self.break_bbs[n - 1])
        }
    }

    fn push_break(&mut self, bb: BasicBlockRef)
        requires
            old(self).wf(),
            bb.0 < old(self).cfg.bbs@.len(),
        ensures
            final(self).wf(),
            final(self).cfg.bbs@.len() == old(self).cfg.bbs@.len(),
            final(self).cfg.span == old(self).cfg.span,
            final(self).break_bbs@ == old(self).break_bbs@.push(bb),
            final(self).cur_bb == old(self).cur_bb,
            final(self).cfg.bbs@ == old(self).cfg.bbs@,
            final(self).keeps_counts(old(self)),
            final(self).source_len == old(self).source_len,
    {
        self.break_bbs.push(bb);
        assert forall|k: int| 0 <= k < self.break_bbs@.len() implies (
        #[trigger] self.break_bbs@[k]).0 < self.cfg.bbs@.len() by {
            if k < self.break_bbs@.len() - 1 {
                assert(self.break_bbs@[k] == old(self).break_bbs@[k]);
            }
        }
    }

    fn pop_break(&mut self)
        requires
            old(self).wf(),
            old(self).break_bbs@.len() > 0,
        ensures
            final(self).wf(),
            final(self).cfg.bbs@.len() == old(self).cfg.bbs@.len(),
            final(self).cfg.span == old(self).cfg.span,
            final(self).break_bbs@ == old(self).break_bbs@.drop_last(),
            final(self).cur_bb == old(self).cur_bb,
            final(self).cfg.bbs@ == old(self).cfg.bbs@,
            final(self).keeps_counts(old(self)),
            final(self).source_len == old(self).source_len,
    {
        self.break_bbs.pop();
        assert forall|k: int| 0 <= k < self.break_bbs@.len() implies (
        #[trigger] self.break_bbs@[k]).0 < self.cfg.bbs@.len() by {
            assert(self.break_bbs@[k] == old(self).break_bbs@[k]);
        }
    }

    /// Visits a loop body whose `break` statements leave to `merge_bb`.
    /// The graphs of `a` and `b` are alike.
    pub open spec fn same_graph(a: &ControlFlowGraph, b: &ControlFlowGraph) -> bool {
        &&& a.span == b.span
        &&& a.bbs@ == b.bbs@
        &&& a.edges == b.edges
        &&& a.exits == b.exits
    }

    /// `b` is `old` entering a loop body at `block_bb` whose `break` leaves to `merge_bb`.
    pub open spec fn entered_loop(old: CfgBuilder, b: CfgBuilder, block_bb: BasicBlockRef, merge_bb: BasicBlockRef) -> bool {
        &&& Self::same_graph(&b.cfg, &old.cfg)
        &&& b.cur_bb == block_bb
        &&& b.break_bbs@ == old.break_bbs@.push(merge_bb)
        &&& b.label_bbs@ == old.label_bbs@
        &&& b.inner_cfgs@ == old.inner_cfgs@
        &&& b.source_len == old.source_len
    }

    /// `new` is `left` after leaving the loop body, with the enclosing loops of `old`.
    pub open spec fn left_loop(left: CfgBuilder, new: CfgBuilder, old: CfgBuilder) -> bool {
        &&& Self::same_graph(&new.cfg, &left.cfg)
        &&& new.cur_bb == left.cur_bb
        &&& new.break_bbs@ == old.break_bbs@
        &&& new.label_bbs@ == left.label_bbs@
        &&& new.inner_cfgs@ == left.inner_cfgs@
    }

    fn visit_loop_body(
        &mut self,
        cst: &Cst,
        sema: &SemanticData,
        block: Block,
        block_bb: BasicBlockRef,
        merge_bb: BasicBlockRef,
        parent: NodeRef,
    )
        requires
            old(self).source_len@ == cst.source_view().len(),
            old(self).wf(),
            block_bb.0 < old(self).cfg.bbs@.len(),
            merge_bb.0 < old(self).cfg.bbs@.len(),
            after(cst, block.syntax, parent),
        ensures
            final(self).wf(),
            final(self).grows(old(self)),
            loop_body_step(*old(self), *final(self), cst, sema, block, block_bb, merge_bb),
        decreases cst.spec_len() - parent.0, 1int,
    {
        self.set_cur(block_bb);
        self.push_break(merge_bb);
        let ghost entered = *self;
        self.visit_block(cst, sema, block);
        let ghost left = *self;
        self.pop_break();
        assert(self.break_bbs@ =~= old(self).break_bbs@);
        assert(Self::entered_loop(*old(self), entered, block_bb, merge_bb));
        assert(Self::left_loop(left, *self, *old(self)));
    }

    /// Visits one branch of an `if` statement: the condition jumps to `else_bb` when false
    /// and into the block when true; the block continues at `merge_bb`.
    /// `b` is `old` with a new block added for a branch to enter.
    pub open spec fn opened_branch(old: CfgBuilder, b: CfgBuilder) -> bool {
        &&& b.cfg.bbs@ == old.cfg.bbs@.push(fresh_bb())
        &&& b.cfg.span == old.cfg.span
        &&& b.cfg.edges == old.cfg.edges
        &&& b.cfg.exits == old.cfg.exits
        &&& b.cur_bb == old.cur_bb
        &&& b.break_bbs@ == old.break_bbs@
        &&& b.label_bbs@ == old.label_bbs@
        &&& b.inner_cfgs@ == old.inner_cfgs@
        &&& b.source_len == old.source_len
    }

    /// `tested` is `opened` after the condition `cond` of a branch, if any, jumps to
    /// `else_bb` when false and to `entry_bb` when true.
    pub open spec fn tested_branch(opened: CfgBuilder, tested: CfgBuilder, cst: &Cst, cond: Option<Exp>, else_bb: BasicBlockRef, entry_bb: BasicBlockRef) -> bool {
        match cond {
            Some(c) => exp_step(&opened, &tested, cst, c, Jumps::Targets { false_bb: else_bb, true_bb: entry_bb }),
            None => tested == opened,
        }
    }

    /// `b` is `old` continuing at block `cur`.
    pub open spec fn moved_to(old: CfgBuilder, b: CfgBuilder, cur: BasicBlockRef) -> bool {
        &&& Self::same_graph(&b.cfg, &old.cfg)
        &&& b.cur_bb == cur
        &&& b.break_bbs@ == old.break_bbs@
        &&& b.label_bbs@ == old.label_bbs@
        &&& b.inner_cfgs@ == old.inner_cfgs@
        &&& b.source_len == old.source_len
    }

    /// `new` is `left` after its current block jumps to `merge_bb`.
    pub open spec fn joined(left: CfgBuilder, new: CfgBuilder, merge_bb: BasicBlockRef) -> bool {
        &&& new.cfg.bbs@ == redirected(left.cfg.bbs@, left.cur_bb.0 as int, Successor::Uncond(merge_bb))
        &&& new.cfg.span == left.cfg.span
        &&& new.cfg.edges == saturating_sum(left.cfg.edges as int, 1)
        &&& new.cfg.exits == left.cfg.exits
        &&& new.cur_bb == left.cur_bb
        &&& new.break_bbs@ == left.break_bbs@
        &&& new.label_bbs@ == left.label_bbs@
        &&& new.inner_cfgs@ == left.inner_cfgs@
    }

    fn visit_branch(
        &mut self,
        cst: &Cst,
        sema: &SemanticData,
        parent: NodeRef,
        cond: Option<Exp>,
        block: Option<Block>,
        else_bb: BasicBlockRef,
        merge_bb: BasicBlockRef,
    )
        requires
            old(self).source_len@ == cst.source_view().len(),
            old(self).wf(),
            else_bb.0 < old(self).cfg.bbs@.len(),
            merge_bb.0 < old(self).cfg.bbs@.len(),
            cond matches Some(c) ==> after(cst, c.spec_syntax(), parent),
            block matches Some(b) ==> after(cst, b.syntax, parent),
        ensures
            final(self).wf(),
            final(self).grows(old(self)),
            branch_step(*old(self), *final(self), cst, sema, cond, block, else_bb, merge_bb),
        decreases cst.spec_len() - parent.0, 1int,
    {
        let entry_bb = self.new_bb();
        let ghost opened = *self;
        if let Some(cond) = cond {
            self.visit_exp(cst, sema, cond, Jumps::Targets { false_bb: else_bb, true_bb: entry_bb });
        }
        let ghost tested = *self;
        assert(Self::opened_branch(*old(self), opened));
        assert(Self::tested_branch(opened, tested, cst, cond, else_bb, BasicBlockRef(old(self).cfg.bbs@.len() as usize)));
        if let Some(block) = block {
            self.set_cur(entry_bb);
            let ghost entered = *self;
            self.visit_block(cst, sema, block);
            let ghost left = *self;
            let cur = self.cur_bb;
            self.edge(cur, Successor::Uncond(merge_bb));
            assert(Self::moved_to(tested, entered, BasicBlockRef(old(self).cfg.bbs@.len() as usize)));
            assert(Self::joined(left, *self, merge_bb));
        }
    }

    /// Visits an `if` statement.
    #[verifier::loop_isolation(false)]
    fn visit_if(&mut self, cst: &Cst, sema: &SemanticData, ifstat: Ifstat)
        requires
            old(self).source_len@ == cst.source_view().len(),
            old(self).wf(),
            cst.valid_ref(ifstat.syntax),
        ensures
            final(self).wf(),
            final(self).grows(old(self)),
            final(self).cur_bb.0 == old(self).cfg.bbs@.len(),
            if_step(*old(self), *final(self), cst, sema, ifstat),
        decreases cst.spec_len() - ifstat.syntax.0, 2int,
    {
        let stat_span = ifstat.span(cst);
        self.append_cur(stat_span);
        let merge_bb = self.new_bb();
        let elif_branches = ifstat.elif_branches(cst);
        let else_branch = ifstat.else_branch(cst);
        let mut else_bb = if elif_branches.len() > 0 || else_branch.is_some() {
            self.new_bb()
        } else {
            merge_bb
        };
        let ghost opened = *self;
        let ghost n = old(self).cfg.bbs@.len();
        let ghost more = elif_branches@.len() > 0 || else_branch is Some;
        let ghost first_else = else_bb;
        assert(merge_bb == BasicBlockRef(n as usize));
        assert(first_else == if more { BasicBlockRef((n + 1) as usize) } else { merge_bb });
        assert(if_opened(*old(self), opened, cst, ifstat));
        self.visit_branch(
            cst,
            sema,
            ifstat.syntax,
            ifstat.cond(cst),
            ifstat.then_block(cst),
            else_bb,
            merge_bb,
        );
        let ghost first = *self;
        let ghost total = elif_branches@.len() as int;
        let ghost has_else = else_branch is Some;
        let ghost mut chain: Seq<CfgBuilder> = seq![*self];
        let ghost mut elses: Seq<BasicBlockRef> = seq![else_bb];
        let mut i: usize = 0;
        while i < elif_branches.len()
            invariant
                self.wf(),
                self.grows(old(self)),
                merge_bb.0 < self.cfg.bbs@.len(),
                else_bb.0 < self.cfg.bbs@.len(),
                i <= elif_branches@.len(),
                total == elif_branches@.len(),
                has_else == else_branch is Some,
                forall|k: int|
                    0 <= k < elif_branches@.len() ==> after(
                        cst,
                        #[trigger] elif_branches@[k].spec_syntax(),
                        ifstat.syntax,
                    ),
                elifs_chain(chain, elses, cst, sema, elif_branches@.take(i as int), ifstat, merge_bb),
                chain[0] == first,
                elses[0] == first_else,
                chain.last() == *self,
                elses.last() == else_bb,
            decreases elif_branches@.len() - i,
        {
            let ghost prev = chain;
            let ghost prev_elses = elses;
            let ghost before = *self;
            let cur_else = else_bb;
            self.set_cur(else_bb);
            let ghost at = *self;
            let last = !(i + 1 < elif_branches.len() || else_branch.is_some());
            if !last {
                else_bb = self.new_bb();
            } else {
                else_bb = merge_bb;
            }
            let ghost branch_opened = *self;
            let elif_branch = elif_branches[i];
            assert(after(cst, elif_branches@[i as int].spec_syntax(), ifstat.syntax));
            self.visit_branch(
                cst,
                sema,
                elif_branch.syntax,
                elif_branch.cond(cst),
                elif_branch.block(cst),
                else_bb,
                merge_bb,
            );
            proof {
                assert(CfgBuilder::moved_to(before, at, cur_else));
                if !last {
                    assert(CfgBuilder::opened_branch(at, branch_opened));
                }
                assert(elif_step(before, *self, cst, sema, elif_branch, cur_else, else_bb, last, merge_bb));
                chain = prev.push(*self);
                elses = prev_elses.push(else_bb);
                let t = elif_branches@.take(i + 1);
                assert(t[i as int] == elif_branch);
                assert forall|k: int| 0 <= k < i + 1 implies elif_step(chain[k], chain[k + 1], cst, sema, #[trigger] t[k], elses[k], elses[k + 1], k + 1 == total && !has_else, merge_bb) by {
                    if k < i {
                        assert(t[k] == elif_branches@.take(i as int)[k]);
                    }
                }
            }
            i = i + 1;
        }
        assert(elif_branches@.take(elif_branches@.len() as int) =~= elif_branches@);
        let ghost before_else = *self;
        if let Some(eb) = else_branch {
            if let Some(block) = eb.block(cst) {
                self.set_cur(else_bb);
                let ghost entered = *self;
                self.visit_block(cst, sema, block);
                let ghost left = *self;
                let cur = self.cur_bb;
                self.edge(cur, Successor::Uncond(merge_bb));
                assert(CfgBuilder::moved_to(before_else, entered, else_bb));
                assert(CfgBuilder::joined(left, *self, merge_bb));
            }
        }
        let ghost done = *self;
        assert(else_step(before_else, done, cst, sema, else_branch, else_bb, merge_bb));
        self.set_cur(merge_bb);
        assert(CfgBuilder::moved_to(done, *self, merge_bb));
        assert(elifs_chain(chain, elses, cst, sema, cst.spec_child_nodes::<ElifBranch>(ifstat.syntax), ifstat, merge_bb));
        assert(if_step(*old(self), *self, cst, sema, ifstat));
    }

    #[verifier::loop_isolation(false)]
    #[verifier::rlimit(60)]
    #[verifier::spinoff_prover]
    fn visit_statement(&mut self, cst: &Cst, sema: &SemanticData, stat: Stat)
        requires
            old(self).source_len@ == cst.source_view().len(),
            old(self).wf(),
            cst.valid_ref(stat.spec_syntax()),
        ensures
            stat_step(old(self), final(self), cst, sema, stat),
            stat matches Stat::Whilestat(w) ==> while_step(*old(self), *final(self), cst, sema, w),
            stat matches Stat::Repeatstat(r) ==> repeat_step(*old(self), *final(self), cst, sema, r),
            stat matches Stat::NumericForstat(f) ==> numeric_for_step(*old(self), *final(self), cst, sema, f),
            stat matches Stat::GenericForstat(f) ==> generic_for_step(*old(self), *final(self), cst, sema, f),
            stat matches Stat::Ifstat(f) ==> if_step(*old(self), *final(self), cst, sema, f),
            stat is Funcstat || stat is Localfuncstat || stat is Globalfuncstat ==> func_stat_step(*old(self), *final(self), cst, sema, stat.spec_syntax()),
        decreases cst.spec_len() - stat.spec_syntax().0, 3int,
    {
        let stat_span = stat.span(cst);
        match stat {
            Stat::Emptystat(_) => {
                self.append_cur(stat_span);
            },
            Stat::Expstat(expstat) => {
                self.append_cur(stat_span);
                let ghost b1 = *self;
                if let Some(exp) = expstat.exp(cst) {
                    self.visit_exp(cst, sema, exp, Jumps::Absent);
                }
                let ghost b2 = *self;
                assert(operand_begun(*old(self), b1, false, old(self).cur_bb, cst.node_span(expstat.syntax)));
                assert(expstat_visited(b1, b2, cst, expstat));
                if let Some(Exp::Callexp(callexp)) = expstat.exp(cst) {
                    if let Some(Exp::Nameexp(nameexp)) = callexp.base(cst) {
                        if let Some((name, _)) = nameexp.name(cst) {
                            if let Some(args) = callexp.args(cst) {
                                let assert_word = vec![97u8, 115u8, 115u8, 101u8, 114u8, 116u8];
                                let error_word = vec![101u8, 114u8, 114u8, 111u8, 114u8];
                                let terminator = if bytes_eq(name, assert_word.as_slice()) {
                                    let first = args.expressions(cst);
                                    first.len() > 0 && match first[0] {
                                        Exp::Falseexp(_) | Exp::Nilexp(_) => true,
                                        _ => false,
                                    }
                                } else {
                                    bytes_eq(name, error_word.as_slice())
                                };
                                if terminator {
                                    let bb = self.new_bb();
                                    self.set_cur(bb);
                                    self.count_exit();
                                }
                            }
                        }
                    }
                }
                assert(if terminates(cst, expstat) { exited(b2, *self) } else { *self == b2 });
            },
            Stat::Assignstat(assignstat) => {
                self.append_cur(stat_span);
                let ghost b = *self;
                assert(operand_begun(*old(self), b, false, old(self).cur_bb, cst.node_span(assignstat.syntax)));
                let rhs = assignstat.rhs_exps(cst);
                let lhs = assignstat.lhs_exps(cst);
                let ghost all = rhs@ + lhs@;
                let mut i: usize = 0;
                let ghost mut chain: Seq<CfgBuilder> = seq![*self];
                while i < rhs.len()
                    invariant
                        self.wf(),
                        self.grows(old(self)),
                        i <= rhs@.len(),
                        forall|k: int|
                            0 <= k < rhs@.len() ==> after(
                                cst,
                                #[trigger] rhs@[k].spec_syntax(),
                                assignstat.syntax,
                            ),
                        values_chain(chain, cst, all.take(i as int)),
                        all == rhs@ + lhs@,
                        chain[0] == b,
                        chain.last() == *self,
                    decreases rhs@.len() - i,
                {
                    let ghost prev = chain;
                    self.visit_exp(cst, sema, rhs[i], Jumps::Absent);
                    proof {
                        chain = prev.push(*self);
                        assert(all[i as int] == rhs@[i as int]);
                        assert forall|k: int| 0 <= k < i + 1 implies exp_step(&chain[k], &chain[k + 1], cst, #[trigger] all.take(i + 1)[k], Jumps::Absent) by {
                            if k < i {
                                assert(all.take(i + 1)[k] == all.take(i as int)[k]);
                            }
                        }
                    }
                    i = i + 1;
                }
                let mut j: usize = 0;
                while j < lhs.len()
                    invariant
                        self.wf(),
                        self.grows(old(self)),
                        j <= lhs@.len(),
                        forall|k: int|
                            0 <= k < lhs@.len() ==> after(
                                cst,
                                #[trigger] lhs@[k].spec_syntax(),
                                assignstat.syntax,
                            ),
                        values_chain(chain, cst, all.take(rhs@.len() + j)),
                        all == rhs@ + lhs@,
                        chain[0] == b,
                        chain.last() == *self,
                    decreases lhs@.len() - j,
                {
                    let ghost prev = chain;
                    self.visit_exp(cst, sema, lhs[j], Jumps::Absent);
                    proof {
                        let m = rhs@.len() + j;
                        chain = prev.push(*self);
                        assert(all[m] == lhs@[j as int]);
                        assert forall|k: int| 0 <= k < m + 1 implies exp_step(&chain[k], &chain[k + 1], cst, #[trigger] all.take(m + 1)[k], Jumps::Absent) by {
                            if k < m {
                                assert(all.take(m + 1)[k] == all.take(m)[k]);
                            }
                        }
                    }
                    j = j + 1;
                }
                assert(all.take(all.len() as int) =~= all);
                assert(values_step(b, *self, cst, cst.spec_explist_exps(assignstat.syntax) + cst.spec_child_nodes::<Exp>(assignstat.syntax)));
            },
            Stat::Label(label) => {
                let label_bb = self.label_bb(label.syntax);
                let cur = self.cur_bb;
                self.edge(cur, Successor::Uncond(label_bb));
                self.set_cur(label_bb);
                self.append_cur(stat_span);
            },
            Stat::Breakstat(_) => {
                self.append_cur(stat_span);
                if let Some(break_bb) = self.last_break() {
                    let cur = self.cur_bb;
                    self.edge(cur, Successor::Uncond(break_bb));
                }
                let bb = self.new_bb();
                self.set_cur(bb);
            },
            Stat::Gotostat(gotostat) => {
                self.append_cur(stat_span);
                if let Some(label) = sema.decl_bindings.get(gotostat.syntax) {
                    let label_bb = self.label_bb(label);
                    let cur = self.cur_bb;
                    self.edge(cur, Successor::Uncond(label_bb));
                }
                let bb = self.new_bb();
                self.set_cur(bb);
            },
            Stat::Dostat(_) => {
                self.append_cur(stat_span);
            },
            Stat::Whilestat(whilestat) => {
                self.append_cur(stat_span);
                let merge_bb = self.new_bb();
                let block_bb = self.new_bb();
                let cond_bb = self.new_bb();
                let cur = self.cur_bb;
                self.edge(cur, Successor::Uncond(cond_bb));
                let ghost opened = *self;
                let ghost n = old(self).cfg.bbs@.len();
                assert(merge_bb == BasicBlockRef(n as usize));
                assert(block_bb == BasicBlockRef((n + 1) as usize));
                assert(cond_bb == BasicBlockRef((n + 2) as usize));
                assert(loop_opened(*old(self), opened, cst.node_span(whilestat.syntax), cond_bb));
                if let Some(cond) = whilestat.cond(cst) {
                    self.set_cur(cond_bb);
                    let ghost at = *self;
                    self.visit_exp(
                        cst,
                        sema,
                        cond,
                        Jumps::Targets { false_bb: merge_bb, true_bb: block_bb },
                    );
                    assert(CfgBuilder::moved_to(opened, at, cond_bb));
                }
                let ghost tested = *self;
                assert(cond_visited(opened, tested, cst, cst.spec_child_node::<Exp>(whilestat.syntax), cond_bb, merge_bb, block_bb));
                if let Some(block) = whilestat.block(cst) {
                    self.visit_loop_body(cst, sema, block, block_bb, merge_bb, whilestat.syntax);
                    let ghost body = *self;
                    let cur = self.cur_bb;
                    self.edge(cur, Successor::Uncond(cond_bb));
                    assert(loop_body_step(tested, body, cst, sema, block, block_bb, merge_bb));
                }
                let ghost looped = *self;
                assert(body_visited(tested, looped, cst, sema, cst.spec_child_node::<Block>(whilestat.syntax), block_bb, merge_bb, Successor::Uncond(cond_bb)));
                self.set_cur(merge_bb);
                assert(CfgBuilder::moved_to(looped, *self, merge_bb));
                assert(while_step(*old(self), *self, cst, sema, whilestat));
            },
            Stat::Repeatstat(repeatstat) => {
                self.append_cur(stat_span);
                let merge_bb = self.new_bb();
                let block_bb = self.new_bb();
                let cond_bb = self.new_bb();
                let cur = self.cur_bb;
                self.edge(cur, Successor::Uncond(block_bb));
                let ghost opened = *self;
                let ghost n = old(self).cfg.bbs@.len();
                assert(merge_bb == BasicBlockRef(n as usize));
                assert(block_bb == BasicBlockRef((n + 1) as usize));
                assert(cond_bb == BasicBlockRef((n + 2) as usize));
                assert(loop_opened(*old(self), opened, cst.node_span(repeatstat.syntax), block_bb));
                if let Some(block) = repeatstat.block(cst) {
                    self.visit_loop_body(cst, sema, block, block_bb, merge_bb, repeatstat.syntax);
                    let ghost body = *self;
                    let cur = self.cur_bb;
                    self.edge(cur, Successor::Uncond(cond_bb));
                    assert(loop_body_step(opened, body, cst, sema, block, block_bb, merge_bb));
                }
                let ghost looped = *self;
                assert(body_visited(opened, looped, cst, sema, cst.spec_child_node::<Block>(repeatstat.syntax), block_bb, merge_bb, Successor::Uncond(cond_bb)));
                if let Some(cond) = repeatstat.cond(cst) {
                    self.set_cur(cond_bb);
                    let ghost at = *self;
                    self.visit_exp(
                        cst,
                        sema,
                        cond,
                        Jumps::Targets { false_bb: block_bb, true_bb: merge_bb },
                    );
                    assert(CfgBuilder::moved_to(looped, at, cond_bb));
                }
                let ghost tested = *self;
                assert(cond_visited(looped, tested, cst, cst.spec_child_node::<Exp>(repeatstat.syntax), cond_bb, block_bb, merge_bb));
                self.set_cur(merge_bb);
                assert(CfgBuilder::moved_to(tested, *self, merge_bb));
                assert(repeat_step(*old(self), *self, cst, sema, repeatstat));
            },
            Stat::Ifstat(ifstat) => {
                self.visit_if(cst, sema, ifstat);
            },
            Stat::NumericForstat(forstat) => {
                self.append_cur(stat_span);
                let merge_bb = self.new_bb();
                let block_bb = self.new_bb();
                let ghost opened = *self;
                let ghost n = old(self).cfg.bbs@.len();
                assert(merge_bb == BasicBlockRef(n as usize));
                assert(block_bb == BasicBlockRef((n + 1) as usize));
                assert(for_opened(*old(self), opened, cst.node_span(forstat.syntax)));
                let (from, to, stride) = forstat.exp_from_to_stride(cst);
                if let Some(x) = from {
                    self.visit_exp(cst, sema, x, Jumps::Absent);
                }
                let ghost b1 = *self;
                assert(value_visited(opened, b1, cst, from));
                if let Some(x) = to {
                    self.visit_exp(cst, sema, x, Jumps::Absent);
                }
                let ghost b2 = *self;
                assert(value_visited(b1, b2, cst, to));
                if let Some(x) = stride {
                    self.visit_exp(cst, sema, x, Jumps::Absent);
                }
                let ghost b3 = *self;
                assert(value_visited(b2, b3, cst, stride));
                let cur = self.cur_bb;
                self.edge(cur, Successor::Uncond(block_bb));
                let ghost entered = *self;
                assert(jumped(b3, entered, Successor::Uncond(block_bb)));
                let ghost back = Successor::Cond { exp: None, true_bb: block_bb, false_bb: merge_bb };
                if let Some(block) = forstat.block(cst) {
                    self.visit_loop_body(cst, sema, block, block_bb, merge_bb, forstat.syntax);
                    let ghost body = *self;
                    let cur = self.cur_bb;
                    self.edge(cur, Successor::Cond { exp: None, true_bb: block_bb, false_bb: merge_bb });
                    assert(loop_body_step(entered, body, cst, sema, block, block_bb, merge_bb));
                }
                let ghost looped = *self;
                assert(body_visited(entered, looped, cst, sema, cst.spec_child_node::<Block>(forstat.syntax), block_bb, merge_bb, back));
                self.set_cur(merge_bb);
                assert(CfgBuilder::moved_to(looped, *self, merge_bb));
                assert(numeric_for_step(*old(self), *self, cst, sema, forstat));
            },
            Stat::GenericForstat(forstat) => {
                self.append_cur(stat_span);
                let merge_bb = self.new_bb();
                let block_bb = self.new_bb();
                let ghost opened = *self;
                let ghost n = old(self).cfg.bbs@.len();
                assert(merge_bb == BasicBlockRef(n as usize));
                assert(block_bb == BasicBlockRef((n + 1) as usize));
                assert(for_opened(*old(self), opened, cst.node_span(forstat.syntax)));
                let exps = forstat.exps(cst);
                let mut i: usize = 0;
                let ghost mut chain: Seq<CfgBuilder> = seq![*self];
                while i < exps.len()
                    invariant
                        self.wf(),
                        self.grows(old(self)),
                        merge_bb.0 < self.cfg.bbs@.len(),
                        block_bb.0 < self.cfg.bbs@.len(),
                        i <= exps@.len(),
                        forall|k: int|
                            0 <= k < exps@.len() ==> after(
                                cst,
                                #[trigger] exps@[k].spec_syntax(),
                                forstat.syntax,
                            ),
                        values_chain(chain, cst, exps@.take(i as int)),
                        chain[0] == opened,
                        chain.last() == *self,
                    decreases exps@.len() - i,
                {
                    let ghost prev = chain;
                    self.visit_exp(cst, sema, exps[i], Jumps::Absent);
                    proof {
                        chain = prev.push(*self);
                        assert forall|k: int| 0 <= k < i + 1 implies exp_step(&chain[k], &chain[k + 1], cst, #[trigger] exps@.take(i + 1)[k], Jumps::Absent) by {
                            if k < i {
                                assert(exps@.take(i + 1)[k] == exps@.take(i as int)[k]);
                            }
                        }
                    }
                    i = i + 1;
                }
                let ghost b = *self;
                assert(exps@.take(exps@.len() as int) =~= exps@);
                assert(values_step(opened, b, cst, cst.spec_explist_exps(forstat.syntax)));
                let ghost back = Successor::Cond { exp: None, true_bb: block_bb, false_bb: merge_bb };
                let cur = self.cur_bb;
                self.edge(cur, Successor::Cond { exp: None, true_bb: block_bb, false_bb: merge_bb });
                let ghost entered = *self;
                assert(jumped(b, entered, back));
                if let Some(block) = forstat.block(cst) {
                    self.visit_loop_body(cst, sema, block, block_bb, merge_bb, forstat.syntax);
                    let ghost body = *self;
                    let cur = self.cur_bb;
                    self.edge(cur, Successor::Cond { exp: None, true_bb: block_bb, false_bb: merge_bb });
                    assert(loop_body_step(entered, body, cst, sema, block, block_bb, merge_bb));
                }
                let ghost looped = *self;
                assert(body_visited(entered, looped, cst, sema, cst.spec_child_node::<Block>(forstat.syntax), block_bb, merge_bb, back));
                self.set_cur(merge_bb);
                assert(CfgBuilder::moved_to(looped, *self, merge_bb));
                assert(generic_for_step(*old(self), *self, cst, sema, forstat));
            },
            Stat::Funcstat(funcstat) => {
                self.append_cur(stat_span);
                if let Some(block) = funcstat.block(cst) {
                    self.visit_func(cst, sema, block, Some(stat_span));
                }
            },
            Stat::Localvarstat(_) => {
                self.append_cur(stat_span);
            },
            Stat::Localfuncstat(localfuncstat) => {
                self.append_cur(stat_span);
                if let Some(block) = localfuncstat.block(cst) {
                    self.visit_func(cst, sema, block, Some(stat_span));
                }
            },
            Stat::Globalvarstat(_) => {
                self.append_cur(stat_span);
            },
            Stat::Globalfuncstat(globalfuncstat) => {
                self.append_cur(stat_span);
                if let Some(block) = globalfuncstat.block(cst) {
                    self.visit_func(cst, sema, block, Some(stat_span));
                }
            },
            Stat::CollectiveGlobalvarstat(_) => {
                self.append_cur(stat_span);
            },
            Stat::Retstat(_) => {
                self.append_cur(stat_span);
                let bb = self.new_bb();
                self.set_cur(bb);
                self.count_exit();
            },
        }
    }

    /// Makes the current block jump to the true target, for a condition that is always true.
    fn truthy(&mut self, jumps: Jumps)
        requires
            old(self).wf(),
            jumps_within(jumps, old(self).cfg.bbs@.len() as int),
        ensures
            final(self).wf(),
            final(self).grows(old(self)),
            final(self).cur_bb == old(self).cur_bb,
            final(self).cfg.bbs@ == decided(old(self).cfg.bbs@, old(self).cur_bb.0 as int, jumps, true),
            final(self).cfg.edges == saturating_sum(old(self).cfg.edges as int, jump_edges(jumps, 1)),
            final(self).cfg.exits == old(self).cfg.exits,
            final(self).label_bbs@ == old(self).label_bbs@,
            final(self).inner_cfgs@ == old(self).inner_cfgs@,
    {
        if let Jumps::Targets { true_bb, .. } = jumps {
            let cur = self.cur_bb;
            self.edge(cur, Successor::Uncond(true_bb));
        }
    }

    /// Makes the current block branch on `exp`, for a condition decided at run time.
    fn undecided(&mut self, exp: Exp, jumps: Jumps)
        requires
            old(self).wf(),
            jumps_within(jumps, old(self).cfg.bbs@.len() as int),
        ensures
            final(self).wf(),
            final(self).grows(old(self)),
            final(self).cur_bb == old(self).cur_bb,
            final(self).cfg.bbs@ == branched(old(self).cfg.bbs@, old(self).cur_bb.0 as int, jumps, exp),
            final(self).cfg.edges == saturating_sum(old(self).cfg.edges as int, jump_edges(jumps, 2)),
            final(self).cfg.exits == old(self).cfg.exits,
            final(self).label_bbs@ == old(self).label_bbs@,
            final(self).inner_cfgs@ == old(self).inner_cfgs@,
    {
        if let Jumps::Targets { false_bb, true_bb } = jumps {
            let cur = self.cur_bb;
            self.edge(cur, Successor::Cond { exp: Some(exp), false_bb, true_bb });
        }
    }

    #[verifier::loop_isolation(false)]
    fn visit_exp(&mut self, cst: &Cst, sema: &SemanticData, exp: Exp, jumps: Jumps)
        requires
            old(self).source_len@ == cst.source_view().len(),
            old(self).wf(),
            cst.valid_ref(exp.spec_syntax()),
            jumps_within(jumps, old(self).cfg.bbs@.len() as int),
        ensures
            exp_step(old(self), final(self), cst, exp, jumps),
            logic_step(*old(self), *final(self), cst, exp, jumps),
            exp matches Exp::Functiondef(f) ==> functiondef_step(*old(self), *final(self), cst, sema, f, jumps),
            access_step(*old(self), *final(self), cst, exp, jumps),
        decreases cst.spec_len() - exp.spec_syntax().0, 0int,
    {
        match exp {
            Exp::Binexp(binexp) => {
                let ops = binexp.operands(cst);
                if ops.len() >= 2 {
                    let lhs = ops[0];
                    let rhs = ops[1];
                    let is_and = binexp.is_and(cst);
                    let is_or = binexp.is_or(cst);
                    let outside_ctrl_flow = match jumps {
                        Jumps::Absent => true,
                        _ => false,
                    };
                    let jumps = if outside_ctrl_flow && (is_and || is_or) {
                        let complete_bb = self.new_bb();
                        Jumps::Targets { false_bb: complete_bb, true_bb: complete_bb }
                    } else {
                        jumps
                    };
                    if let Jumps::Targets { false_bb, true_bb } = jumps {
                        if is_and || is_or {
                            let ghost start = *self;
                            let rhs_bb = self.new_bb();
                            let lhs_span = lhs.span(cst);
                            self.append_cur(lhs_span);
                            let ghost b1 = *self;
                            if is_and {
                                self.visit_exp(cst, sema, lhs, Jumps::Targets { false_bb, true_bb: rhs_bb });
                            } else {
                                self.visit_exp(cst, sema, lhs, Jumps::Targets { false_bb: rhs_bb, true_bb });
                            }
                            let ghost b2 = *self;
                            self.set_cur(rhs_bb);
                            let rhs_span = rhs.span(cst);
                            self.append_cur(rhs_span);
                            let ghost b3 = *self;
                            self.visit_exp(cst, sema, rhs, Jumps::Targets { false_bb, true_bb });
                            assert(operand_begun(start, b1, true, start.cur_bb, cst.node_span(lhs.spec_syntax())));
                            assert(operand_begun(b2, b3, false, rhs_bb, cst.node_span(rhs.spec_syntax())));
                            assert(short_circuit(start, *self, cst, lhs, rhs, is_and, false_bb, true_bb));
                        } else {
                            self.visit_exp(cst, sema, lhs, Jumps::Absent);
                            let ghost b1 = *self;
                            self.visit_exp(cst, sema, rhs, Jumps::Absent);
                            let ghost b2 = *self;
                            self.undecided(exp, Jumps::Targets { false_bb, true_bb });
                            assert(exp_step(old(self), &b1, cst, lhs, Jumps::Absent));
                            assert(exp_step(&b1, &b2, cst, rhs, Jumps::Absent));
                            assert(branched_on(b2, *self, exp, jumps));
                        }
                        if outside_ctrl_flow && (is_and || is_or) {
                            self.set_cur(true_bb);
                        }
                    } else {
                        self.visit_exp(cst, sema, lhs, Jumps::Absent);
                        let ghost b1 = *self;
                        self.visit_exp(cst, sema, rhs, Jumps::Absent);
                        assert(exp_step(old(self), &b1, cst, lhs, Jumps::Absent));
                        assert(exp_step(&b1, self, cst, rhs, Jumps::Absent));
                    }
                }
            },
            Exp::Unaryexp(unaryexp) => {
                if let Some(operand) = unaryexp.operand(cst) {
                    if unaryexp.is_negation(cst) {
                        if let Jumps::Targets { false_bb, true_bb } = jumps {
                            self.visit_exp(
                                cst,
                                sema,
                                operand,
                                Jumps::Targets { false_bb: true_bb, true_bb: false_bb },
                            );
                        }
                    } else {
                        self.visit_exp(cst, sema, operand, jumps);
                    }
                }
            },
            Exp::Nameexp(_) | Exp::Varargexp(_) => {
                self.undecided(exp, jumps);
            },
            Exp::Fieldexp(fieldexp) => {
                let base = fieldexp.base(cst);
                if let Some(x) = base {
                    self.visit_exp(cst, sema, x, Jumps::Absent);
                }
                let ghost b = *self;
                assert(value_visited(*old(self), b, cst, base));
                self.undecided(exp, jumps);
                assert(branched_on(b, *self, exp, jumps));
            },
            Exp::Indexexp(indexexp) => {
                let (base, index) = indexexp.base_and_index(cst);
                if let Some(x) = base {
                    self.visit_exp(cst, sema, x, Jumps::Absent);
                }
                let ghost b1 = *self;
                assert(value_visited(*old(self), b1, cst, base));
                if let Some(x) = index {
                    self.visit_exp(cst, sema, x, Jumps::Absent);
                }
                let ghost b2 = *self;
                assert(value_visited(b1, b2, cst, index));
                self.undecided(exp, jumps);
                assert(branched_on(b2, *self, exp, jumps));
            },
            Exp::Callexp(callexp) => {
                let base = callexp.base(cst);
                if let Some(x) = base {
                    self.visit_exp(cst, sema, x, Jumps::Absent);
                }
                let ghost b1 = *self;
                assert(value_visited(*old(self), b1, cst, base));
                let args = callexp.args(cst);
                let ghost argseq = call_args(cst, args);
                if let Some(args) = args {
                    let argexps = args.expressions(cst);
                    let mut i: usize = 0;
                    let ghost mut chain: Seq<CfgBuilder> = seq![*self];
                    while i < argexps.len()
                        invariant
                            self.wf(),
                            self.grows(old(self)),
                            jumps_within(jumps, self.cfg.bbs@.len() as int),
                            after(cst, args.spec_syntax(), callexp.syntax),
                            i <= argexps@.len(),
                            forall|k: int|
                                0 <= k < argexps@.len() ==> after(
                                    cst,
                                    #[trigger] argexps@[k].spec_syntax(),
                                    args.spec_syntax(),
                                ),
                            values_chain(chain, cst, argexps@.take(i as int)),
                            chain[0] == b1,
                            chain.last() == *self,
                        decreases argexps@.len() - i,
                    {
                        let ghost prev = chain;
                        self.visit_exp(cst, sema, argexps[i], Jumps::Absent);
                        proof {
                            chain = prev.push(*self);
                            assert forall|k: int| 0 <= k < i + 1 implies exp_step(&chain[k], &chain[k + 1], cst, #[trigger] argexps@.take(i + 1)[k], Jumps::Absent) by {
                                if k < i {
                                    assert(argexps@.take(i + 1)[k] == argexps@.take(i as int)[k]);
                                }
                            }
                        }
                        i = i + 1;
                    }
                    assert(argexps@.take(argexps@.len() as int) =~= argexps@);
                    assert(values_step(b1, *self, cst, argseq));
                } else {
                    assert(values_chain(seq![b1], cst, argseq));
                    assert(values_step(b1, *self, cst, argseq));
                }
                let ghost b2 = *self;
                self.undecided(exp, jumps);
                assert(branched_on(b2, *self, exp, jumps));
            },
            Exp::Tableconstructor(tableconstructor) => {
                let fields = tableconstructor.fields(cst);
                let mut i: usize = 0;
                while i < fields.len()
                    invariant
                        self.wf(),
                        self.grows(old(self)),
                        jumps_within(jumps, self.cfg.bbs@.len() as int),
                        forall|k: int|
                            0 <= k < fields@.len() ==> after(
                                cst,
                                #[trigger] fields@[k].spec_syntax(),
                                tableconstructor.syntax,
                            ),
                    decreases fields@.len() - i,
                {
                    assert(after(cst, fields@[i as int].spec_syntax(), tableconstructor.syntax));
                    match fields[i] {
                        Field::KeyvalField(keyval_field) => {
                            let (key, val) = keyval_field.key_val(cst);
                            if let Some(key) = key {
                                self.visit_exp(cst, sema, key, Jumps::Absent);
                            }
                            if let Some(val) = val {
                                self.visit_exp(cst, sema, val, Jumps::Absent);
                            }
                        },
                        Field::NamedField(named_field) => {
                            if let Some(val) = named_field.val(cst) {
                                self.visit_exp(cst, sema, val, Jumps::Absent);
                            }
                        },
                        Field::CountedField(counted_field) => {
                            if let Some(val) = counted_field.val(cst) {
                                self.visit_exp(cst, sema, val, Jumps::Absent);
                            }
                        },
                    }
                    i = i + 1;
                }
                self.truthy(jumps);
            },
            Exp::Functiondef(functiondef) => {
                if let Some(block) = functiondef.block(cst) {
                    let span = functiondef.span(cst);
                    self.visit_func(cst, sema, block, Some(span));
                }
                self.truthy(jumps);
            },
            Exp::Stringexp(_) | Exp::Decintexp(_) | Exp::Hexintexp(_) | Exp::Decfloatexp(_)
            | Exp::Hexfloatexp(_) | Exp::Trueexp(_) => {
                self.truthy(jumps);
            },
            Exp::Falseexp(_) | Exp::Nilexp(_) => {
                if let Jumps::Targets { false_bb, .. } = jumps {
                    let cur = self.cur_bb;
                    self.edge(cur, Successor::Uncond(false_bb));
                }
            },
            Exp::Parenexp(parenexp) => {
                if let Some(inner) = parenexp.inner(cst) {
                    self.visit_exp(cst, sema, inner, jumps);
                }
            },
        }
    }
}


/// The blocks that control can go to from a block with successor `s`.
pub open spec fn successor_blocks(s: Successor) -> Seq<int> {
    match s {
        Successor::Terminal => Seq::empty(),
        Successor::Uncond(b) => seq![b.0 as int],
        Successor::Cond { false_bb, true_bb, .. } => seq![true_bb.0 as int, false_bb.0 as int],
    }
}

/// Block `j` can be reached from the entry block in at most `k` steps.
pub open spec fn reachable_within(bbs: Seq<BasicBlock>, k: nat, j: int) -> bool
    decreases k,
{
    if k == 0 {
        j == 0
    } else {
        reachable_within(bbs, (k - 1) as nat, j) || exists|i: int|
            0 <= i < bbs.len() && reachable_within(bbs, (k - 1) as nat, i) && #[trigger] successor_blocks(
                bbs[i].successor,
            ).contains(j)
    }
}

/// Block `j` can be reached from the entry block.
pub open spec fn reachable(bbs: Seq<BasicBlock>, j: int) -> bool {
    exists|k: nat| #[trigger] reachable_within(bbs, k, j)
}

/// The number of `false` entries of `s`.
pub open spec fn count_false(s: Seq<bool>) -> nat
    decreases s.len(),
{
    if s.len() == 0 {
        0
    } else {
        count_false(s.drop_last()) + if s.last() { 0nat } else { 1nat }
    }
}

proof fn lemma_contains_after_pop(t0: Seq<usize>, m: usize)
    requires
        t0.len() > 0,
        t0.contains(m),
        m != t0.last(),
    ensures
        t0.drop_last().contains(m),
{
    let x = choose|x: int| 0 <= x < t0.len() && t0[x] == m;
    assert(t0.drop_last()[x] == m);
}

proof fn lemma_count_false_update(s: Seq<bool>, i: int)
    requires
        0 <= i < s.len(),
        !s[i],
    ensures
        count_false(s.update(i, true)) + 1 == count_false(s),
    decreases s.len(),
{
    if i < s.len() - 1 {
        lemma_count_false_update(s.drop_last(), i);
        assert(s.update(i, true).drop_last() =~= s.drop_last().update(i, true));
    } else {
        assert(s.update(i, true).drop_last() =~= s.drop_last());
    }
}

/// A block reachable in `k` steps is in every set that holds the entry block and is closed
/// under successors.
proof fn lemma_reachable_closed(bbs: Seq<BasicBlock>, visited: Seq<bool>, k: nat, j: int)
    requires
        visited.len() == bbs.len(),
        bbs.len() > 0,
        visited[0],
        forall|i: int, m: int| 0 <= i < bbs.len() && visited[i] && #[trigger] successor_blocks(bbs[i].successor).contains(m)
            ==> 0 <= m < bbs.len() && visited[m],
        reachable_within(bbs, k, j),
    ensures
        0 <= j < bbs.len() && visited[j],
    decreases k,
{
    if k > 0 {
        if reachable_within(bbs, (k - 1) as nat, j) {
            lemma_reachable_closed(bbs, visited, (k - 1) as nat, j);
        } else {
            let i = choose|i: int| 0 <= i < bbs.len() && reachable_within(bbs, (k - 1) as nat, i)
                && #[trigger] successor_blocks(bbs[i].successor).contains(j);
            lemma_reachable_closed(bbs, visited, (k - 1) as nat, i);
        }
    }
}

impl ControlFlowGraph {
    /// Marks every block that control can reach from the entry block.
    pub fn mark_reachable(&mut self)
        requires
            old(self).wf(),
        ensures
            final(self).wf(),
            final(self).span == old(self).span,
            final(self).edges == old(self).edges,
            final(self).exits == old(self).exits,
            final(self).bbs@.len() == old(self).bbs@.len(),
            forall|j: int| 0 <= j < final(self).bbs@.len() ==> (#[trigger] final(self).bbs@[j]).successor == old(self).bbs@[j].successor
                && final(self).bbs@[j].span == old(self).bbs@[j].span
                && final(self).bbs@[j].reachable == (old(self).bbs@[j].reachable || reachable(old(self).bbs@, j)),
    {
        let n = self.bbs.len();
        let ghost bbs0 = self.bbs@;
        let mut visited: Vec<bool> = Vec::new();
        while visited.len() < n
            invariant
                visited@.len() <= n,
                forall|i: int| 0 <= i < visited@.len() ==> !visited@[i],
            decreases n - visited@.len(),
        {
            visited.push(false);
        }
        let mut todo: Vec<usize> = Vec::new();
        todo.push(0);
        proof {
            assert(reachable_within(bbs0, 0, 0));
            assert(todo@[0] == 0usize);
        }
        while todo.len() > 0
            invariant
                n == bbs0.len(),
                n >= 1,
                self.wf(),
                self.span == old(self).span,
                self.edges == old(self).edges,
                self.exits == old(self).exits,
                self.bbs@.len() == n,
                visited@.len() == n,
                old(self).bbs@ == bbs0,
                forall|j: int| 0 <= j < n ==> (#[trigger] self.bbs@[j]).successor == bbs0[j].successor
                    && self.bbs@[j].span == bbs0[j].span
                    && self.bbs@[j].reachable == (bbs0[j].reachable || visited@[j]),
                forall|t: int| 0 <= t < todo@.len() ==> (#[trigger] todo@[t]) < n && reachable(bbs0, todo@[t] as int),
                forall|j: int| 0 <= j < n && #[trigger] visited@[j] ==> reachable(bbs0, j),
                visited@[0] || todo@.contains(0),
                forall|i: int, m: int| 0 <= i < n && visited@[i] && #[trigger] successor_blocks(bbs0[i].successor).contains(m)
                    ==> 0 <= m < n && (visited@[m] || todo@.contains(m as usize)),
            decreases count_false(visited@), todo@.len(),
        {
            let ghost t0 = todo@;
            let ghost v0 = visited@;
            let bb_ref = todo.pop().unwrap();
            assert(todo@ =~= t0.drop_last());
            assert(bb_ref == t0.last());
            if visited[bb_ref] {
                proof {
                    assert forall|m: usize| #[trigger] t0.contains(m) && m != bb_ref implies todo@.contains(m) by {
                        lemma_contains_after_pop(t0, m);
                    }
                    if !visited@[0] {
                        assert(t0.contains(0usize));
                    }
                }
                continue;
            }
            proof {
                lemma_count_false_update(visited@, bb_ref as int);
            }
            visited.set(bb_ref, true);
            let mut bb = self.bbs.remove(bb_ref);
            bb.reachable = true;
            let succ = match bb.successor {
                Successor::Terminal => (None, None),
                Successor::Uncond(s) => (Some(s.0), None),
                Successor::Cond { false_bb, true_bb, .. } => (Some(true_bb.0), Some(false_bb.0)),
            };
            self.bbs.insert(bb_ref, bb);
            let ghost t1 = todo@;
            match succ.0 {
                Some(s) => {
                    todo.push(s);
                },
                None => {},
            }
            match succ.1 {
                Some(s) => {
                    todo.push(s);
                },
                None => {},
            }
            proof {
                let sb = successor_blocks(bbs0[bb_ref as int].successor);
                assert(successor_within(bbs0[bb_ref as int].successor, n as int));
                assert(todo@.len() == t1.len() + sb.len());
                assert forall|x: int| 0 <= x < sb.len() implies todo@[t1.len() + x] == sb[x] as usize by {}
                assert forall|x: int| 0 <= x < t1.len() implies todo@[x] == t1[x] by {}
                let k = choose|k: nat| #[trigger] reachable_within(bbs0, k, bb_ref as int);
                assert forall|m: int| #[trigger] sb.contains(m) implies reachable(bbs0, m) by {
                    assert(reachable_within(bbs0, k + 1, m));
                }
                assert forall|t: int| 0 <= t < todo@.len() implies (#[trigger] todo@[t]) < n && reachable(bbs0, todo@[t] as int) by {
                    if t >= t1.len() {
                        assert(sb.contains(sb[t - t1.len()]));
                    } else {
                        assert(todo@[t] == t1[t]);
                        assert(t0[t] == t1[t]);
                    }
                }
                assert forall|m: usize| #[trigger] t1.contains(m) implies todo@.contains(m) by {
                    let x = choose|x: int| 0 <= x < t1.len() && t1[x] == m;
                    assert(todo@[x] == m);
                }
                assert forall|m: usize| #[trigger] t0.contains(m) && m != bb_ref implies t1.contains(m) by {
                    lemma_contains_after_pop(t0, m);
                }
                assert forall|i: int, m: int| 0 <= i < n && visited@[i] && #[trigger] successor_blocks(bbs0[i].successor).contains(m)
                    implies 0 <= m < n && (visited@[m] || todo@.contains(m as usize)) by {
                    if i == bb_ref {
                        let x = choose|x: int| 0 <= x < sb.len() && sb[x] == m;
                        assert(todo@[t1.len() + x] == m as usize);
                    } else {
                        assert(v0[i]);
                        if !visited@[m] {
                            assert(t0.contains(m as usize));
                        }
                    }
                }
                if !visited@[0] {
                    assert(t0.contains(0usize));
                }
            }
        }
        proof {
            assert forall|j: int| 0 <= j < n implies (#[trigger] self.bbs@[j]).reachable == (bbs0[j].reachable || reachable(bbs0, j)) by {
                if reachable(bbs0, j) {
                    let k = choose|k: nat| #[trigger] reachable_within(bbs0, k, j);
                    lemma_reachable_closed(bbs0, visited@, k, j);
                }
            }
        }
    }
}

} // verus!
