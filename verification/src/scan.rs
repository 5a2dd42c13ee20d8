//! Scans of expression trees: which functions they call, and whose columns
//! they mention.

use vstd::prelude::*;

use crate::catalog::TopNOids;
use crate::tree::{link_view, node_views};
use crate::tree::{Expr, ExprView, FromExpr, FromExprView, Node, NodeView, Oid};

verus! {

/// The node itself and every node that an expression tree walk reaches from
/// it, in the order of the walk.
pub open spec fn nodes(node: NodeView) -> Seq<NodeView>
    decreases node,
{
    seq![node] + nodes_below(node.expr)
}

/// The nodes that a walk reaches below a node.
pub open spec fn nodes_below(expr: ExprView) -> Seq<NodeView>
    decreases expr,
{
    match expr {
        ExprView::Const { .. } => Seq::empty(),
        ExprView::Var { .. } => Seq::empty(),
        ExprView::FuncExpr { args, .. } => nodes_of(args),
        ExprView::OpExpr { args, .. } => nodes_of(args),
        ExprView::RangeTblRef { .. } => Seq::empty(),
        ExprView::JoinExpr { larg, rarg, quals, .. } => nodes_at(larg) + nodes_at(rarg) + nodes_at(
            quals,
        ),
        ExprView::SubQuery { .. } => Seq::empty(),
        ExprView::Other { children } => nodes_of(children),
    }
}

/// The nodes that a walk reaches from the nodes of a list.
pub open spec fn nodes_of(list: Seq<NodeView>) -> Seq<NodeView>
    decreases list,
{
    if list.len() == 0 {
        Seq::empty()
    } else {
        nodes_of(list.drop_last()) + nodes(list.last())
    }
}

/// The nodes that a walk reaches from a node that may be absent.
pub open spec fn nodes_at(link: Option<Box<NodeView>>) -> Seq<NodeView>
    decreases link,
{
    match link {
        Some(node) => nodes(*node),
        None => Seq::empty(),
    }
}

/// The nodes that a walk reaches from a `FROM` list and its `WHERE` clause.
pub open spec fn nodes_of_from(from: FromExprView) -> Seq<NodeView> {
    nodes_of(from.fromlist) + match from.quals {
        Some(quals) => nodes(quals),
        None => Seq::empty(),
    }
}

/// Whether the node calls one of the functions, as a function or, if
/// `match_opexprs` is set, as an operator.
pub open spec fn is_call(node: NodeView, funcids: Seq<Oid>, match_opexprs: bool) -> bool {
    match node.expr {
        ExprView::FuncExpr { funcid, .. } => funcids.contains(funcid),
        ExprView::OpExpr { opfuncid, .. } => match_opexprs && funcids.contains(opfuncid),
        _ => false,
    }
}

/// Whether the node is a column of the entry `varno` of this query level.
pub open spec fn is_var_of(node: NodeView, varno: i32) -> bool {
    node.expr matches ExprView::Var { varno: no, varlevelsup, .. } && no == varno && varlevelsup
        == 0
}

/// Whether the node, without what is below it, reads a column of the entry
/// `varno` of this query level: it is one, or it is a sub-query that reads one.
pub open spec fn reads_entry(node: NodeView, varno: i32) -> bool {
    match node.expr {
        ExprView::Var { varno: no, varlevelsup, .. } => no == varno && varlevelsup == 0,
        ExprView::SubQuery { outer_varnos } => outer_varnos.contains(varno),
        _ => false,
    }
}

/// Whether the node, without what is below it, reads a column of this query
/// level.
pub open spec fn reads_level(node: NodeView) -> bool {
    exists|varno: i32| reads_entry(node, varno)
}

/// Whether the node, without what is below it, reads a column of anything but
/// the entry `varno` of this query level. What a sub-query reads of levels
/// further out does not count.
pub open spec fn reads_elsewhere(node: NodeView, varno: i32) -> bool {
    match node.expr {
        ExprView::Var { .. } => !is_var_of(node, varno),
        ExprView::SubQuery { outer_varnos } => has_other(outer_varnos, varno),
        _ => false,
    }
}

/// Whether the list holds anything but the range table index.
pub open spec fn has_other(varnos: Seq<i32>, varno: i32) -> bool {
    exists|i: int| 0 <= i < varnos.len() && #[trigger] varnos[i] != varno
}

/// Whether the expression mentions no column of this query level.
pub open spec fn mentions_no_columns(node: NodeView) -> bool {
    forall|i: int| 0 <= i < nodes(node).len() ==> !reads_level(#[trigger] nodes(node)[i])
}

/// How many of the nodes call one of the functions.
pub open spec fn call_count(walked: Seq<NodeView>, funcids: Seq<Oid>, match_opexprs: bool) -> nat {
    walked.filter(|n: NodeView| is_call(n, funcids, match_opexprs)).len()
}

/// How many of the nodes are columns of the entry `varno`.
pub open spec fn var_count(walked: Seq<NodeView>, varno: i32) -> nat {
    walked.filter(|n: NodeView| is_var_of(n, varno)).len()
}

/// How many of the nodes read columns of anything but the entry `varno`.
pub open spec fn foreign_var_count(walked: Seq<NodeView>, varno: i32) -> nat {
    walked.filter(|n: NodeView| reads_elsewhere(n, varno)).len()
}

/// Whether the node is a call of `dsl.limit()`, `dsl.offset()`,
/// `dsl.offset_limit()` or `zdb.score_topn_limit()`.
pub open spec fn is_limit_call(node: NodeView, oids: TopNOids) -> bool {
    match node.expr {
        ExprView::FuncExpr { funcid, .. } => {
            ||| funcid == oids.dsl_limit
            ||| funcid == oids.dsl_offset
            ||| funcid == oids.dsl_offset_limit
            ||| funcid == oids.score_topn_limit
        },
        _ => false,
    }
}

/// Whether a limit of the application's own, or one that the pushdown put
/// there, is called anywhere in the expression.
pub open spec fn has_explicit_limit(node: NodeView, oids: TopNOids) -> bool {
    exists|i: int| 0 <= i < nodes(node).len() && is_limit_call(#[trigger] nodes(node)[i], oids)
}

/// Whether the expression mentions a column of the entry `varno`, outside any
/// sub-query, and columns of nothing else.
pub open spec fn mentions_only(node: NodeView, varno: i32) -> bool {
    &&& exists|i: int| 0 <= i < nodes(node).len() && is_var_of(#[trigger] nodes(node)[i], varno)
    &&& forall|i: int|
        0 <= i < nodes(node).len() ==> !reads_elsewhere(#[trigger] nodes(node)[i], varno)
}

/// `n`, or the largest `usize` if `n` is larger.
pub open spec fn saturated(n: nat) -> nat {
    if n <= usize::MAX {
        n
    } else {
        usize::MAX as nat
    }
}

/// What a scan looks for, and what it has found.
pub struct ExprScanContext {
    /// Functions to look for.
    pub funcids: Vec<Oid>,
    /// Whether operators that call one of the functions count too.
    pub match_opexprs: bool,
    pub count: usize,
    /// The entry that every column should belong to, when columns are looked
    /// for.
    pub required_varno: Option<i32>,
    pub var_count: usize,
    pub foreign_var_count: usize,
}

impl ExprScanContext {
    /// Whether a scan that stood at `before` and went over `walked` stands at
    /// `self`. Counts stop at the largest `usize`.
    pub open spec fn follows(self, before: ExprScanContext, walked: Seq<NodeView>) -> bool {
        &&& self.funcids == before.funcids
        &&& self.match_opexprs == before.match_opexprs
        &&& self.required_varno == before.required_varno
        &&& self.count == saturated(
            before.count as nat + call_count(walked, before.funcids@, before.match_opexprs),
        )
        &&& match before.required_varno {
            Some(varno) => {
                &&& self.var_count == saturated(before.var_count as nat + var_count(walked, varno))
                &&& self.foreign_var_count == saturated(
                    before.foreign_var_count as nat + foreign_var_count(walked, varno),
                )
            },
            None => {
                &&& self.var_count == before.var_count
                &&& self.foreign_var_count == before.foreign_var_count
            },
        }
    }
}

/// A scan of nothing changes nothing.
proof fn lemma_follows_empty(at: ExprScanContext)
    ensures
        at.follows(at, Seq::empty()),
{
    reveal(Seq::filter);
}

/// A scan of one node counts that node.
proof fn lemma_counts_of_one(node: NodeView, funcids: Seq<Oid>, match_opexprs: bool, varno: i32)
    ensures
        call_count(seq![node], funcids, match_opexprs) == if is_call(node, funcids, match_opexprs) {
            1nat
        } else {
            0
        },
        var_count(seq![node], varno) == if is_var_of(node, varno) {
            1nat
        } else {
            0
        },
        foreign_var_count(seq![node], varno) == if reads_elsewhere(node, varno) {
            1nat
        } else {
            0
        },
{
    reveal_with_fuel(Seq::filter, 2);
    assert(seq![node].drop_last() =~= Seq::<NodeView>::empty());
}

/// Two scans in a row are one scan.
proof fn lemma_follows_then(
    a: ExprScanContext,
    s: Seq<NodeView>,
    b: ExprScanContext,
    t: Seq<NodeView>,
    c: ExprScanContext,
)
    requires
        b.follows(a, s),
        c.follows(b, t),
    ensures
        c.follows(a, s + t),
{
    let calls = |n: NodeView| is_call(n, a.funcids@, a.match_opexprs);
    Seq::filter_distributes_over_add(s, t, calls);
    if let Some(varno) = a.required_varno {
        Seq::filter_distributes_over_add(s, t, |n: NodeView| is_var_of(n, varno));
        Seq::filter_distributes_over_add(s, t, |n: NodeView| reads_elsewhere(n, varno));
    }
}

/// A filter leaves something exactly if it finds something.
proof fn lemma_filter_finds<A>(s: Seq<A>, p: spec_fn(A) -> bool)
    ensures
        s.filter(p).len() > 0 <==> exists|i: int| 0 <= i < s.len() && p(#[trigger] s[i]),
    decreases s.len(),
{
    reveal(Seq::filter);
    if s.len() > 0 {
        lemma_filter_finds(s.drop_last(), p);
        if exists|i: int| 0 <= i < s.len() && p(#[trigger] s[i]) {
            let i = choose|i: int| 0 <= i < s.len() && p(#[trigger] s[i]);
            if i < s.len() - 1 {
                assert(p(s.drop_last()[i]));
            }
        }
        if s.drop_last().filter(p).len() > 0 {
            let i = choose|i: int|
                0 <= i < s.drop_last().len() && p(#[trigger] s.drop_last()[i]);
            assert(p(s[i]));
        }
    }
}

/// Whether the list holds the oid.
fn holds_oid(list: &Vec<Oid>, oid: Oid) -> (held: bool)
    ensures
        held == list@.contains(oid),
{
    let mut i: usize = 0;
    while i < list.len()
        invariant
            i <= list.len(),
            forall|j: int| 0 <= j < i ==> list@[j] != oid,
        decreases list.len() - i,
    {
        if list[i] == oid {
            return true;
        }
        i += 1;
    }
    false
}

/// Whether the list holds anything but the range table index.
fn holds_other(list: &Vec<i32>, varno: i32) -> (other: bool)
    ensures
        other == has_other(list@, varno),
{
    let mut i: usize = 0;
    while i < list.len()
        invariant
            i <= list.len(),
            forall|j: int| 0 <= j < i ==> list@[j] == varno,
        decreases list.len() - i,
    {
        if list[i] != varno {
            return true;
        }
        i += 1;
    }
    false
}

/// Scans the node, without what is below it.
fn scan_one(node: &Node, context: &mut ExprScanContext)
    ensures
        final(context).follows(*old(context), seq![node@]),
{
    proof {
        let varno = match context.required_varno {
            Some(varno) => varno,
            None => 0,
        };
        lemma_counts_of_one(node@, context.funcids@, context.match_opexprs, varno);
    }
    match &node.expr {
        Expr::FuncExpr { funcid, .. } => {
            if holds_oid(&context.funcids, *funcid) {
                context.count = context.count.saturating_add(1);
            }
        },
        Expr::OpExpr { opfuncid, .. } => {
            if context.match_opexprs && holds_oid(&context.funcids, *opfuncid) {
                context.count = context.count.saturating_add(1);
            }
        },
        Expr::Var { varno, varlevelsup, .. } => {
            if let Some(required_varno) = context.required_varno {
                if *varlevelsup == 0 && *varno == required_varno {
                    context.var_count = context.var_count.saturating_add(1);
                } else {
                    context.foreign_var_count = context.foreign_var_count.saturating_add(1);
                }
            }
        },
        Expr::SubQuery { outer_varnos } => {
            if let Some(required_varno) = context.required_varno {
                assert(reads_elsewhere(node@, required_varno) == has_other(
                    outer_varnos@,
                    required_varno,
                ));
                if holds_other(outer_varnos, required_varno) {
                    context.foreign_var_count = context.foreign_var_count.saturating_add(1);
                }
            }
        },
        _ => {},
    }
}

/// Scans the nodes of a list and everything below them.
fn scan_list(list: &Vec<Node>, context: &mut ExprScanContext)
    ensures
        final(context).follows(*old(context), nodes_of(node_views(list@))),
    decreases list,
{
    let ghost views = node_views(list@);
    let mut i: usize = 0;
    proof {
        lemma_follows_empty(*context);
        assert(views.take(0) =~= Seq::empty());
    }
    while i < list.len()
        invariant
            i <= list.len(),
            views == node_views(list@),
            context.follows(*old(context), nodes_of(views.take(i as int))),
        decreases list.len() - i,
    {
        let ghost before = *context;
        expr_scan_walker(&list[i], context);
        proof {
            lemma_follows_then(
                *old(context),
                nodes_of(views.take(i as int)),
                before,
                nodes(views[i as int]),
                *context,
            );
            assert(views.take(i + 1).drop_last() =~= views.take(i as int));
        }
        i += 1;
    }
    assert(views.take(i as int) =~= views);
}

/// Scans a node that may be absent and everything below it.
fn scan_link(link: &Option<Box<Node>>, context: &mut ExprScanContext)
    ensures
        final(context).follows(*old(context), nodes_at(link_view(*link))),
    decreases link,
{
    proof {
        lemma_follows_empty(*context);
    }
    if let Some(node) = link {
        expr_scan_walker(node, context);
    }
}

/// Scans the node and everything that an expression tree walk reaches from it.
pub fn expr_scan_walker(node: &Node, context: &mut ExprScanContext)
    ensures
        final(context).follows(*old(context), nodes(node@)),
    decreases node,
{
    let ghost start = *context;
    scan_one(node, context);
    let ghost top = *context;
    match &node.expr {
        Expr::FuncExpr { args, .. } => {
            scan_list(args, context);
        },
        Expr::OpExpr { args, .. } => {
            scan_list(args, context);
        },
        Expr::JoinExpr { larg, rarg, quals, .. } => {
            scan_link(larg, context);
            let ghost left = *context;
            scan_link(rarg, context);
            let ghost right = *context;
            scan_link(quals, context);
            proof {
                let (l, r, q) = (link_view(*larg), link_view(*rarg), link_view(*quals));
                lemma_follows_then(top, nodes_at(l), left, nodes_at(r), right);
                lemma_follows_then(top, nodes_at(l) + nodes_at(r), right, nodes_at(q), *context);
            }
        },
        Expr::Other { children } => {
            scan_list(children, context);
        },
        _ => {
            proof {
                lemma_follows_empty(*context);
            }
        },
    }
    proof {
        lemma_follows_then(start, seq![node@], top, nodes_below(node@.expr), *context);
    }
}

/// How many nodes of a `FROM` list and its `WHERE` clause call the function,
/// as a function or, if `match_opexprs` is set, as an operator. The count
/// stops at the largest `usize`.
pub fn count_funcid(jointree: &FromExpr, funcid: Oid, match_opexprs: bool) -> (count: usize)
    ensures
        count == saturated(call_count(nodes_of_from(jointree@), seq![funcid], match_opexprs)),
{
    let mut context = ExprScanContext {
        funcids: vec![funcid],
        match_opexprs,
        count: 0,
        required_varno: None,
        var_count: 0,
        foreign_var_count: 0,
    };
    let ghost start = context;
    assert(context.funcids@ =~= seq![funcid]);
    scan_list(&jointree.fromlist, &mut context);
    let ghost listed = context;
    proof {
        lemma_follows_empty(context);
    }
    if let Some(quals) = &jointree.quals {
        expr_scan_walker(quals, &mut context);
    }
    proof {
        let below = match jointree@.quals {
            Some(quals) => nodes(quals),
            None => Seq::empty(),
        };
        lemma_follows_then(start, nodes_of(jointree@.fromlist), listed, below, context);
    }
    context.count
}

/// Whether the expression calls `dsl.limit()`, `dsl.offset()`,
/// `dsl.offset_limit()` or `zdb.score_topn_limit()`.
pub fn contains_explicit_limit(node: &Node, oids: &TopNOids) -> (found: bool)
    ensures
        found == has_explicit_limit(node@, *oids),
{
    let mut context = ExprScanContext {
        funcids: vec![
            oids.dsl_limit,
            oids.dsl_offset,
            oids.dsl_offset_limit,
            oids.score_topn_limit,
        ],
        match_opexprs: false,
        count: 0,
        required_varno: None,
        var_count: 0,
        foreign_var_count: 0,
    };
    let ghost funcids = context.funcids@;
    expr_scan_walker(node, &mut context);
    proof {
        let found = |n: NodeView| is_call(n, funcids, false);
        lemma_filter_finds(nodes(node@), found);
        assert(funcids[0] == oids.dsl_limit && funcids[1] == oids.dsl_offset && funcids[2]
            == oids.dsl_offset_limit && funcids[3] == oids.score_topn_limit);
        assert forall|n: NodeView| found(n) == #[trigger] is_limit_call(n, *oids) by {};
        if has_explicit_limit(node@, *oids) {
            let i = choose|i: int|
                0 <= i < nodes(node@).len() && is_limit_call(#[trigger] nodes(node@)[i], *oids);
            assert(found(nodes(node@)[i]));
        }
        if exists|i: int| 0 <= i < nodes(node@).len() && found(#[trigger] nodes(node@)[i]) {
            let i = choose|i: int| 0 <= i < nodes(node@).len() && found(#[trigger] nodes(node@)[i]);
            assert(is_limit_call(nodes(node@)[i], *oids));
        }
    }
    context.count > 0
}

/// Whether the expression mentions a column of the entry `varno`, outside any
/// sub-query, and columns of nothing else.
pub fn references_only(node: &Node, varno: i32) -> (only: bool)
    ensures
        only == mentions_only(node@, varno),
{
    let mut context = ExprScanContext {
        funcids: vec![],
        match_opexprs: false,
        count: 0,
        required_varno: Some(varno),
        var_count: 0,
        foreign_var_count: 0,
    };
    expr_scan_walker(node, &mut context);
    proof {
        let own = |n: NodeView| is_var_of(n, varno);
        let foreign = |n: NodeView| reads_elsewhere(n, varno);
        lemma_filter_finds(nodes(node@), own);
        lemma_filter_finds(nodes(node@), foreign);
        assert(forall|i: int|
            0 <= i < nodes(node@).len() ==> own(nodes(node@)[i]) == is_var_of(
                #[trigger] nodes(node@)[i],
                varno,
            ));
    }
    context.var_count > 0 && context.foreign_var_count == 0
}

/// Whether one of the nodes reads a column of this query level.
spec fn has_reader(walked: Seq<NodeView>) -> bool {
    exists|i: int| 0 <= i < walked.len() && reads_level(#[trigger] walked[i])
}

/// A reader in one of two sequences is one in both together.
proof fn lemma_has_reader_then(s: Seq<NodeView>, t: Seq<NodeView>)
    ensures
        has_reader(s + t) == (has_reader(s) || has_reader(t)),
{
    if has_reader(s) {
        let i = choose|i: int| 0 <= i < s.len() && reads_level(#[trigger] s[i]);
        assert(reads_level((s + t)[i]));
    }
    if has_reader(t) {
        let i = choose|i: int| 0 <= i < t.len() && reads_level(#[trigger] t[i]);
        assert(reads_level((s + t)[s.len() + i]));
    }
}

/// Whether a list of expressions mentions a column of this query level.
fn list_mentions_columns(list: &Vec<Node>) -> (found: bool)
    ensures
        found == has_reader(nodes_of(node_views(list@))),
    decreases list,
{
    let ghost views = node_views(list@);
    let mut found = false;
    let mut i: usize = 0;
    assert(views.take(0) =~= Seq::empty());
    while i < list.len()
        invariant
            i <= list.len(),
            views == node_views(list@),
            found == has_reader(nodes_of(views.take(i as int))),
        decreases list.len() - i,
    {
        let here = mentions_columns(&list[i]);
        proof {
            lemma_has_reader_then(nodes_of(views.take(i as int)), nodes(views[i as int]));
            assert(views.take(i + 1).drop_last() =~= views.take(i as int));
        }
        found = found || here;
        i += 1;
    }
    assert(views.take(i as int) =~= views);
    found
}

/// Whether an expression that may be absent mentions a column of this query
/// level.
fn link_mentions_columns(link: &Option<Box<Node>>) -> (found: bool)
    ensures
        found == has_reader(nodes_at(link_view(*link))),
    decreases link,
{
    match link {
        Some(node) => {
            let found = mentions_columns(node);
            assert(found == has_reader(nodes(node@)));
            found
        },
        None => false,
    }
}

/// Whether the expression mentions a column of this query level.
pub fn mentions_columns(node: &Node) -> (found: bool)
    ensures
        found == !mentions_no_columns(node@),
    decreases node,
{
    proof {
        assert(node@.expr == node.expr@);
        assert(nodes(node@) == seq![node@] + nodes_below(node@.expr));
        assert(mentions_no_columns(node@) == !has_reader(nodes(node@)));
        lemma_has_reader_then(seq![node@], nodes_below(node@.expr));
        assert(has_reader(seq![node@]) == reads_level(node@)) by {
            assert(seq![node@][0] == node@);
        }
    }
    match &node.expr {
        Expr::Var { varno, varlevelsup, .. } => {
            assert(*varlevelsup == 0 ==> reads_entry(node@, *varno));
            *varlevelsup == 0
        },
        Expr::SubQuery { outer_varnos } => {
            assert(outer_varnos@.len() > 0 ==> reads_entry(node@, outer_varnos@[0]));
            outer_varnos.len() > 0
        },
        Expr::FuncExpr { args, .. } => list_mentions_columns(args),
        Expr::OpExpr { args, .. } => list_mentions_columns(args),
        Expr::JoinExpr { larg, rarg, quals, .. } => {
            proof {
                let (l, r, q) = (link_view(*larg), link_view(*rarg), link_view(*quals));
                lemma_has_reader_then(nodes_at(l), nodes_at(r));
                lemma_has_reader_then(nodes_at(l) + nodes_at(r), nodes_at(q));
            }
            let left = link_mentions_columns(larg);
            let right = link_mentions_columns(rarg);
            left || right || link_mentions_columns(quals)
        },
        Expr::Other { children } => list_mentions_columns(children),
        _ => false,
    }
}

} // verus!
