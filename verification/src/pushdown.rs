//! The safety analysis and the rewrite.
//!
//! For a query like
//!
//! ```sql
//! SELECT ... WHERE t ==> q ORDER BY zdb.score(t.ctid) DESC LIMIT n [OFFSET m]
//! ```
//!
//! in which nothing between the index scan and the `LIMIT` can remove rows, it
//! is enough to ask the index for the top `n + m` hits. Postgres still sorts,
//! limits and offsets what comes back.

use vstd::prelude::*;

use crate::catalog::{TopNOids, INT8OID, SELF_ITEM_POINTER_ATTRIBUTE_NUMBER};
use crate::catalog::{INT8_FROM_INT2, INT8_FROM_INT4};
use crate::gucs::ScoreTopNPushdown;
use crate::lazy::LazyOids;
use crate::scan::{call_count, contains_explicit_limit, count_funcid, has_explicit_limit};
use crate::scan::{mentions_columns, mentions_no_columns, mentions_only};
use crate::scan::{nodes_of_from, references_only};
use crate::tree::{copy_node, cte_views, link_view, node_views, rtable_views};
use crate::tree::{
    CmdType,
    CommonTableExpr,
    CommonTableExprView,
    CteQuery,
    CteQueryView,
    Expr,
    ExprView,
    FromExprView,
    JoinType,
    LimitOption,
    Node,
    NodeView,
    Query,
    QueryView,
    RTEKind,
    RangeTblEntry,
    RangeTblEntryView,
    SortGroupClause,
    TargetEntryView,
};

verus! {

/// Whether the join tree refers to the range table entry `rtindex`.
pub open spec fn has_rtindex(node: NodeView, rtindex: i32) -> bool
    decreases node,
{
    match node.expr {
        ExprView::RangeTblRef { rtindex: index } => index == rtindex,
        ExprView::JoinExpr { larg, rarg, .. } => has_rtindex_at(larg, rtindex) || has_rtindex_at(
            rarg,
            rtindex,
        ),
        _ => false,
    }
}

/// Whether a join tree that may be absent refers to the entry `rtindex`.
pub open spec fn has_rtindex_at(link: Option<Box<NodeView>>, rtindex: i32) -> bool
    decreases link,
{
    match link {
        Some(node) => has_rtindex(*node, rtindex),
        None => false,
    }
}

/// Whether every join on the way down to the entry `varno` keeps all its rows:
/// the entry is on the outer side of each.
pub open spec fn is_safe_path(node: NodeView, varno: i32) -> bool
    decreases node,
{
    match node.expr {
        ExprView::RangeTblRef { rtindex } => rtindex == varno,
        ExprView::JoinExpr { jointype: JoinType::Left, larg: Some(larg), .. } => has_rtindex(
            *larg,
            varno,
        ) && is_safe_path(*larg, varno),
        ExprView::JoinExpr { jointype: JoinType::Right, rarg: Some(rarg), .. } => has_rtindex(
            *rarg,
            varno,
        ) && is_safe_path(*rarg, varno),
        _ => false,
    }
}

/// Whether the join tree refers to the entry `rtindex`.
fn contains_rtindex_at(link: &Option<Box<Node>>, rtindex: i32) -> (found: bool)
    ensures
        found == has_rtindex_at(link_view(*link), rtindex),
    decreases link,
{
    match link {
        Some(node) => contains_rtindex(node, rtindex),
        None => false,
    }
}

/// Whether the join tree refers to the entry `rtindex`.
pub fn contains_rtindex(node: &Node, rtindex: i32) -> (found: bool)
    ensures
        found == has_rtindex(node@, rtindex),
    decreases node,
{
    match &node.expr {
        Expr::RangeTblRef { rtindex: index } => *index == rtindex,
        Expr::JoinExpr { larg, rarg, .. } => contains_rtindex_at(larg, rtindex)
            || contains_rtindex_at(rarg, rtindex),
        _ => false,
    }
}

/// Whether the join tree provably keeps every row of the scanned relation:
/// only `LEFT` and `RIGHT` joins with the relation on the outer side, or the
/// bare relation itself, do.
pub fn join_path_is_safe(node: &Node, scanned_varno: i32) -> (safe: bool)
    ensures
        safe == is_safe_path(node@, scanned_varno),
    decreases node,
{
    match &node.expr {
        Expr::RangeTblRef { rtindex } => *rtindex == scanned_varno,
        Expr::JoinExpr { jointype, larg, rarg, .. } => {
            match (*jointype, larg, rarg) {
                (JoinType::Left, Some(larg), _) => contains_rtindex(larg, scanned_varno)
                    && join_path_is_safe(larg, scanned_varno),
                (JoinType::Right, _, Some(rarg)) => contains_rtindex(rarg, scanned_varno)
                    && join_path_is_safe(rarg, scanned_varno),
                // any other join, or the relation on the nullable side, can
                // remove rows
                _ => false,
            }
        },
        _ => false,
    }
}

/// The expression of the first target that carries the sort reference.
pub open spec fn sort_target(targets: Seq<TargetEntryView>, sort_ref: u32) -> Option<NodeView>
    decreases targets.len(),
{
    if targets.len() == 0 {
        None
    } else if targets[0].ressortgroupref == sort_ref {
        Some(targets[0].expr)
    } else {
        sort_target(targets.drop_first(), sort_ref)
    }
}

/// The entry `rel` of this query level if the expression is
/// `zdb.score(rel.ctid)`.
pub open spec fn scored_entry(expr: NodeView, oids: TopNOids) -> Option<i32> {
    match expr.expr {
        ExprView::FuncExpr { funcid, args, .. } => if funcid == oids.zdb_score && args.len() > 0 {
            match args[0].expr {
                ExprView::Var { varno, varattno, varlevelsup } => if varlevelsup == 0 && varattno
                    == SELF_ITEM_POINTER_ATTRIBUTE_NUMBER {
                    Some(varno)
                } else {
                    None
                },
                _ => None,
            }
        } else {
            None
        },
        _ => None,
    }
}

/// The entry `rel` if the sort key is `zdb.score(rel.ctid) DESC`.
pub open spec fn sorted_entry(q: QueryView, key: SortGroupClause, oids: TopNOids) -> Option<i32> {
    if key.sortop == oids.float8_gt {
        match sort_target(q.target_list, key.tle_sort_group_ref) {
            Some(expr) => scored_entry(expr, oids),
            None => None,
        }
    } else {
        None
    }
}

/// The entry `rel` if the expression is `zdb.score(rel.ctid)`.
fn scored_varno(expr: &Node, oids: &TopNOids) -> (varno: Option<i32>)
    ensures
        varno == scored_entry(expr@, *oids),
{
    match &expr.expr {
        Expr::FuncExpr { funcid, args, .. } => {
            if *funcid != oids.zdb_score || args.len() == 0 {
                return None;
            }
            assert(node_views(args@)[0] == args@[0]@);
            assert(args@[0]@.expr == args@[0].expr@);
            match &args[0].expr {
                Expr::Var { varno, varattno, varlevelsup } => {
                    if *varlevelsup != 0 || *varattno != SELF_ITEM_POINTER_ATTRIBUTE_NUMBER {
                        None
                    } else {
                        Some(*varno)
                    }
                },
                _ => None,
            }
        },
        _ => None,
    }
}

/// If the sort key is `zdb.score(rel.ctid) DESC`, the entry `rel`.
pub fn score_sort_varno(q: &Query, key: &SortGroupClause, oids: &TopNOids) -> (varno: Option<i32>)
    ensures
        varno == sorted_entry(q@, *key, *oids),
{
    // DESC means that the sort operator is float8's ">"
    if key.sortop != oids.float8_gt {
        return None;
    }
    let ghost targets = q@.target_list;
    let mut i: usize = 0;
    assert(targets.skip(0) =~= targets);
    while i < q.target_list.len()
        invariant
            i <= q.target_list.len(),
            targets == q@.target_list,
            sort_target(targets, key.tle_sort_group_ref) == sort_target(
                targets.skip(i as int),
                key.tle_sort_group_ref,
            ),
            key.sortop == oids.float8_gt,
        decreases q.target_list.len() - i,
    {
        let te = &q.target_list[i];
        assert(targets.skip(i as int)[0] == te@);
        if te.ressortgroupref == key.tle_sort_group_ref {
            return scored_varno(&te.expr, oids);
        }
        assert(targets.skip(i as int).drop_first() =~= targets.skip(i + 1));
        i += 1;
    }
    None
}

/// Whether nothing but one `==>` over the entry `varno` can remove rows of
/// that entry: the entry is a plain table, read whole; the join path to it
/// keeps all its rows; and the `WHERE` clause is a single `==>` that asks the
/// same of every row, with no other `==>` anywhere in the join tree.
pub open spec fn is_safe_jointree(q: QueryView, varno: i32, oids: TopNOids) -> bool {
    match q.jointree {
        Some(jointree) => {
            &&& 1 <= varno <= q.rtable.len()
            &&& q.rtable[varno - 1].rtekind == RTEKind::Relation
            &&& !q.rtable[varno - 1].security_quals
            &&& !q.rtable[varno - 1].tablesample
            &&& jointree.fromlist.len() == 1
            &&& is_safe_path(jointree.fromlist[0], varno)
            &&& match jointree.quals {
                Some(quals) => is_search(quals, varno, oids),
                None => false,
            }
            &&& call_count(nodes_of_from(jointree), seq![oids.anyelement_cmp], true) == 1
        },
        None => false,
    }
}

/// Whether the expression is a `==>` whose left side mentions the entry
/// `varno` alone and whose right side, the search, mentions no columns: it is
/// then the same for every joined row.
pub open spec fn is_search(quals: NodeView, varno: i32, oids: TopNOids) -> bool {
    match quals.expr {
        ExprView::OpExpr { opfuncid, args } => {
            &&& opfuncid == oids.anyelement_cmp
            &&& args.len() == 2
            &&& mentions_only(args[0], varno)
            &&& mentions_no_columns(args[1])
        },
        _ => false,
    }
}

/// Whether the range table has an entry `varno`, and it is a plain table that
/// is read whole.
fn is_plain_table(rtable: &Vec<RangeTblEntry>, varno: i32) -> (plain: bool)
    ensures
        plain == {
            &&& 1 <= varno <= rtable@.len()
            &&& rtable@[varno - 1].rtekind == RTEKind::Relation
            &&& !rtable@[varno - 1].security_quals
            &&& !rtable@[varno - 1].tablesample
        },
{
    if varno < 1 || varno as usize > rtable.len() {
        return false;
    }
    let rte = &rtable[varno as usize - 1];
    rte.rtekind == RTEKind::Relation && !rte.security_quals && !rte.tablesample
}

/// Proves that the join tree cannot remove rows of the scanned relation and
/// that its only qual is a single `==>`; returns the arguments of that `==>`.
pub fn analyze_jointree<'a>(q: &'a Query, scanned_varno: i32, oids: &TopNOids) -> (args: Option<
    &'a Vec<Node>,
>)
    ensures
        args is Some == is_safe_jointree(q@, scanned_varno, *oids),
        args is Some ==> q@.jointree->0.quals->0.expr == (ExprView::OpExpr {
            opfuncid: oids.anyelement_cmp,
            args: node_views(args->0@),
        }),
{
    let jointree = match &q.jointree {
        Some(jointree) => jointree,
        None => return None,
    };
    // the scanned relation must be a plain table, with no row-level security
    // and no sampling on it
    if !is_plain_table(&q.rtable, scanned_varno) {
        return None;
    }
    // a single FROM item whose join path to the scanned relation never puts
    // it on a nullable or filterable side
    if jointree.fromlist.len() != 1 {
        return None;
    }
    if !join_path_is_safe(&jointree.fromlist[0], scanned_varno) {
        return None;
    }
    // the WHERE clause must be exactly one `==>` ...
    let args = match &jointree.quals {
        Some(quals) => match &quals.expr {
            Expr::OpExpr { opfuncid, args } => {
                if *opfuncid != oids.anyelement_cmp {
                    return None;
                }
                args
            },
            _ => return None,
        },
        None => return None,
    };
    // ... whose left side mentions only the scanned relation
    if args.len() != 2 {
        return None;
    }
    if !references_only(&args[0], scanned_varno) {
        return None;
    }
    // ... and whose right side is the same search for every joined row
    assert(node_views(args@)[1] == args@[1]@);
    if mentions_columns(&args[1]) {
        return None;
    }
    // and it must be the only `==>` in the whole join tree, ON clauses
    // included
    if count_funcid(jointree, oids.anyelement_cmp, true) != 1 {
        return None;
    }
    Some(args)
}

/// A call of `int8pl` on the offset and the limit.
pub open spec fn int8_sum(offset: NodeView, limit: NodeView, oids: TopNOids) -> NodeView {
    NodeView {
        host: 0,
        expr: ExprView::FuncExpr {
            funcid: oids.int8pl,
            funcresulttype: INT8OID,
            args: seq![offset, limit],
        },
    }
}

/// How many hits to ask for: the limit, plus the offset where there is one.
pub open spec fn size_expr(q: QueryView, oids: TopNOids) -> NodeView
    recommends
        q.limit_count is Some,
{
    match q.limit_offset {
        Some(offset) => int8_sum(offset, q.limit_count->0, oids),
        None => q.limit_count->0,
    }
}

/// Builds the `int8` expression for how many hits to ask for: the limit, or
/// `int8pl(offset, limit)` when there is an `OFFSET`. The `OFFSET` itself is
/// not pushed down: Postgres still applies it, and the sum only makes sure
/// that enough rows come back to cover it.
pub fn build_size_expr(q: &Query, oids: &TopNOids) -> (size: Node)
    requires
        q.limit_count is Some,
    ensures
        size@ == size_expr(q@, *oids),
        q.limit_offset is None ==> size@ == q.limit_count->0@,
        q.limit_offset is Some ==> {
            &&& size.host == 0
            &&& size@.expr is FuncExpr
            &&& size@.expr->FuncExpr_funcid == oids.int8pl
            &&& size@.expr->FuncExpr_funcresulttype == 20
            &&& size@.expr->FuncExpr_args.len() == 2
            &&& size@.expr->FuncExpr_args[0] == q.limit_offset->0@
            &&& size@.expr->FuncExpr_args[1] == q.limit_count->0@
        },
{
    let limit = match &q.limit_count {
        Some(limit) => copy_node(limit),
        None => Node { host: 0, expr: Expr::Const { constisnull: true, constvalue: None } },
    };
    let offset = match &q.limit_offset {
        Some(offset) => copy_node(offset),
        None => return limit,
    };
    let size = Node {
        host: 0,
        expr: Expr::FuncExpr {
            funcid: oids.int8pl,
            funcresulttype: INT8OID,
            args: vec![offset, limit],
        },
    };
    proof {
        let args = size.expr->FuncExpr_args;
        assert(node_views(args@) =~= seq![offset@, limit@]);
        assert(size@.expr == size.expr@);
    }
    size
}

/// Whether the expression is a null constant.
pub open spec fn is_null_constant(node: NodeView) -> bool {
    node.expr matches ExprView::Const { constisnull, .. } && constisnull
}

/// The value of an `int8` expression that is a constant, or a constant cast
/// from a smaller integer type; `None` if it is null or anything else.
pub open spec fn constant_value(node: NodeView) -> Option<i64>
    decreases node,
{
    match node.expr {
        ExprView::Const { constisnull, constvalue } => if constisnull {
            None
        } else {
            constvalue
        },
        ExprView::FuncExpr { funcid, args, .. } => if (funcid == INT8_FROM_INT4 || funcid
            == INT8_FROM_INT2) && args.len() == 1 {
            constant_value(args[0])
        } else {
            None
        },
        _ => None,
    }
}

/// Whether both the `LIMIT` and the `OFFSET` of a level are constants.
pub open spec fn has_constant_size(q: QueryView) -> bool {
    &&& q.limit_count is Some && constant_value(q.limit_count->0) is Some
    &&& q.limit_offset is Some && constant_value(q.limit_offset->0) is Some
}

/// Whether the sum of a constant `LIMIT` and a constant `OFFSET` is an `int8`.
/// Nothing is said of a size that is not constant.
pub open spec fn constant_sum_fits(q: QueryView) -> bool {
    has_constant_size(q) ==> i64::MIN <= constant_value(q.limit_count->0)->0 + constant_value(
        q.limit_offset->0,
    )->0 <= i64::MAX
}

/// The value of an `int8` expression that is a constant, or a constant cast
/// from a smaller integer type.
fn int8_constant(node: &Node) -> (value: Option<i64>)
    ensures
        value == constant_value(node@),
    decreases node,
{
    assert(node@.expr == node.expr@);
    match &node.expr {
        Expr::Const { constisnull, constvalue } => {
            if *constisnull {
                None
            } else {
                *constvalue
            }
        },
        Expr::FuncExpr { funcid, args, .. } => {
            if (*funcid == INT8_FROM_INT4 || *funcid == INT8_FROM_INT2) && args.len() == 1 {
                assert(node_views(args@)[0] == args@[0]@);
                int8_constant(&args[0])
            } else {
                None
            }
        },
        _ => None,
    }
}

/// Whether the number of hits to ask for can be computed, as far as that is
/// known beforehand: `int8pl` fails on a sum that is no `int8`.
fn size_is_computable(q: &Query) -> (computable: bool)
    ensures
        computable == constant_sum_fits(q@),
{
    match (&q.limit_count, &q.limit_offset) {
        (Some(limit), Some(offset)) => match (int8_constant(limit), int8_constant(offset)) {
            (Some(n), Some(m)) => n.checked_add(m).is_some(),
            _ => true,
        },
        _ => true,
    }
}

/// Whether a query level passes the checks that need no oids: it is a plain
/// `SELECT ... ORDER BY ... LIMIT` in which nothing changes the number or the
/// identity of rows between the scan and the `LIMIT`.
pub open spec fn passes_structure(q: QueryView, mode: ScoreTopNPushdown) -> bool {
    &&& mode != ScoreTopNPushdown::off
    &&& q.command_type == CmdType::Select
    &&& !q.has_aggs
    &&& !q.has_window_funcs
    &&& !q.has_target_srfs
    &&& !q.set_operations
    &&& !q.group_clause
    &&& !q.grouping_sets
    &&& !q.distinct_clause
    &&& !q.window_clause
    &&& !q.having_qual
    &&& !q.row_marks
    &&& q.limit_option == LimitOption::Count
    &&& match q.limit_count {
        // `LIMIT ALL` is a null constant
        Some(limit) => !is_null_constant(limit),
        None => false,
    }
    &&& q.sort_clause.len() > 0
    &&& mode == ScoreTopNPushdown::strict ==> q.sort_clause.len() == 1
}

/// The right side of the `==>` that is the `WHERE` clause.
pub open spec fn search_rhs(q: QueryView) -> NodeView {
    q.jointree->0.quals->0.expr->OpExpr_args[1]
}

/// Whether the pushdown applies to a query level.
pub open spec fn is_eligible(q: QueryView, mode: ScoreTopNPushdown, oids: TopNOids) -> bool {
    &&& passes_structure(q, mode)
    &&& match sorted_entry(q, q.sort_clause[0], oids) {
        Some(varno) => is_safe_jointree(q, varno, oids),
        None => false,
    }
    &&& !has_explicit_limit(search_rhs(q), oids)
    &&& constant_sum_fits(q)
}

/// `zdb.score_topn_limit(size, rhs)`.
pub open spec fn limited(size: NodeView, rhs: NodeView, oids: TopNOids) -> NodeView {
    NodeView {
        host: 0,
        expr: ExprView::FuncExpr {
            funcid: oids.score_topn_limit,
            funcresulttype: oids.zdbquery,
            args: seq![size, rhs],
        },
    }
}

/// The query level with `rhs` as the right side of its `==>`.
pub open spec fn with_search_rhs(q: QueryView, rhs: NodeView) -> QueryView {
    let jointree = q.jointree->0;
    let quals = jointree.quals->0;
    let search = ExprView::OpExpr {
        opfuncid: quals.expr->OpExpr_opfuncid,
        args: quals.expr->OpExpr_args.update(1, rhs),
    };
    QueryView {
        jointree: Some(
            FromExprView { quals: Some(NodeView { expr: search, ..quals }), ..jointree },
        ),
        ..q
    }
}

/// What the pushdown makes of one query level. Without oids it makes nothing
/// of it.
pub open spec fn pushed_level(
    q: QueryView,
    mode: ScoreTopNPushdown,
    oids: Option<TopNOids>,
) -> QueryView {
    match oids {
        Some(oids) => if is_eligible(q, mode, oids) {
            with_search_rhs(q, limited(size_expr(q, oids), search_rhs(q), oids))
        } else {
            q
        },
        None => q,
    }
}

/// What the pushdown makes of a query: of its own level, and of each sub-query
/// in its range table and its `WITH` list.
pub open spec fn pushed_down(
    q: QueryView,
    mode: ScoreTopNPushdown,
    oids: Option<TopNOids>,
) -> QueryView
    decreases q,
{
    QueryView {
        rtable: pushed_rtable(q.rtable, mode, oids),
        cte_list: pushed_ctes(q.cte_list, mode, oids),
        ..pushed_level(q, mode, oids)
    }
}

/// What the pushdown makes of a range table.
pub open spec fn pushed_rtable(
    rtable: Seq<RangeTblEntryView>,
    mode: ScoreTopNPushdown,
    oids: Option<TopNOids>,
) -> Seq<RangeTblEntryView>
    decreases rtable,
{
    Seq::new(
        rtable.len(),
        |i: int|
            if 0 <= i < rtable.len() {
                pushed_rte(rtable[i], mode, oids)
            } else {
                arbitrary()
            },
    )
}

/// What the pushdown makes of a `WITH` list.
pub open spec fn pushed_ctes(
    ctes: Seq<CommonTableExprView>,
    mode: ScoreTopNPushdown,
    oids: Option<TopNOids>,
) -> Seq<CommonTableExprView>
    decreases ctes,
{
    Seq::new(
        ctes.len(),
        |i: int|
            if 0 <= i < ctes.len() {
                pushed_cte(ctes[i], mode, oids)
            } else {
                arbitrary()
            },
    )
}

/// What the pushdown makes of a range table entry.
pub open spec fn pushed_rte(
    rte: RangeTblEntryView,
    mode: ScoreTopNPushdown,
    oids: Option<TopNOids>,
) -> RangeTblEntryView
    decreases rte,
{
    match rte.subquery {
        Some(subquery) => if rte.rtekind == RTEKind::Subquery {
            RangeTblEntryView {
                subquery: Some(Box::new(pushed_down(*subquery, mode, oids))),
                ..rte
            }
        } else {
            rte
        },
        None => rte,
    }
}

/// What the pushdown makes of a `WITH` item.
pub open spec fn pushed_cte(
    cte: CommonTableExprView,
    mode: ScoreTopNPushdown,
    oids: Option<TopNOids>,
) -> CommonTableExprView
    decreases cte,
{
    match cte.ctequery {
        CteQueryView::Query(q) => CommonTableExprView {
            ctequery: CteQueryView::Query(Box::new(pushed_down(*q, mode, oids))),
        },
        _ => cte,
    }
}

/// Whether some level of the query passes the checks that need no oids, so
/// that the oids are asked for.
pub open spec fn needs_oids(q: QueryView, mode: ScoreTopNPushdown) -> bool
    decreases q,
{
    ||| passes_structure(q, mode)
    ||| rtable_needs_oids(q.rtable, mode)
    ||| ctes_need_oids(q.cte_list, mode)
}

/// Whether some level below a range table asks for the oids.
pub open spec fn rtable_needs_oids(
    rtable: Seq<RangeTblEntryView>,
    mode: ScoreTopNPushdown,
) -> bool
    decreases rtable,
{
    exists|i: int| 0 <= i < rtable.len() && rte_needs_oids(#[trigger] rtable[i], mode)
}

/// Whether some level below a `WITH` list asks for the oids.
pub open spec fn ctes_need_oids(ctes: Seq<CommonTableExprView>, mode: ScoreTopNPushdown) -> bool
    decreases ctes,
{
    exists|i: int| 0 <= i < ctes.len() && cte_needs_oids(#[trigger] ctes[i], mode)
}

/// Whether some level below a range table entry asks for the oids.
pub open spec fn rte_needs_oids(rte: RangeTblEntryView, mode: ScoreTopNPushdown) -> bool
    decreases rte,
{
    match rte.subquery {
        Some(subquery) => rte.rtekind == RTEKind::Subquery && needs_oids(*subquery, mode),
        None => false,
    }
}

/// Whether some level below a `WITH` item asks for the oids.
pub open spec fn cte_needs_oids(cte: CommonTableExprView, mode: ScoreTopNPushdown) -> bool
    decreases cte,
{
    match cte.ctequery {
        CteQueryView::Query(q) => needs_oids(*q, mode),
        _ => false,
    }
}

/// Whether a query level passes the checks that need no oids.
fn structure_allows(q: &Query, mode: ScoreTopNPushdown) -> (allows: bool)
    requires
        mode != ScoreTopNPushdown::off,
    ensures
        allows == passes_structure(q@, mode),
{
    // anything that can change the number or identity of rows between the
    // index scan and the LIMIT makes the pushdown unsafe
    if q.command_type != CmdType::Select || q.has_aggs || q.has_window_funcs || q.has_target_srfs
        || q.set_operations || q.group_clause || q.grouping_sets || q.distinct_clause
        || q.window_clause || q.having_qual || q.row_marks {
        return false;
    }
    // a plain LIMIT must be present ("WITH TIES" can return more than N rows)
    if q.limit_option != LimitOption::Count {
        return false;
    }
    match &q.limit_count {
        Some(limit) => {
            assert(limit@.expr == limit.expr@);
            if let Expr::Const { constisnull, .. } = &limit.expr {
                if *constisnull {
                    return false;
                }
            }
        },
        None => return false,
    }
    if q.sort_clause.len() == 0 {
        return false;
    }
    !(mode == ScoreTopNPushdown::strict && q.sort_clause.len() != 1)
}

/// Whether the pushdown applies to a query level that passes the checks that
/// need no oids.
fn analysis_allows(q: &Query, mode: ScoreTopNPushdown, oids: &TopNOids) -> (allows: bool)
    requires
        passes_structure(q@, mode),
    ensures
        allows == is_eligible(q@, mode, *oids),
{
    // the first sort key must be `zdb.score(rel.ctid) DESC`
    let scanned_varno = match score_sort_varno(q, &q.sort_clause[0], oids) {
        Some(varno) => varno,
        None => return false,
    };
    let args = match analyze_jointree(q, scanned_varno, oids) {
        Some(args) => args,
        None => return false,
    };
    assert(node_views(args@)[1] == args@[1]@);
    // if the search already carries a limit or an offset, the application is
    // in control
    if contains_explicit_limit(&args[1], oids) {
        return false;
    }
    // Postgres can skip and count to any numbers, but their sum has to be an
    // int8
    size_is_computable(q)
}

/// Puts `zdb.score_topn_limit(limit [+ offset], rhs)` in place of the right
/// side of the `==>`.
fn wrap_rhs(query: &mut Query, oids: &TopNOids)
    requires
        old(query)@.limit_count is Some,
        old(query)@.jointree is Some,
        old(query)@.jointree->0.quals is Some,
        old(query)@.jointree->0.quals->0.expr is OpExpr,
        old(query)@.jointree->0.quals->0.expr->OpExpr_args.len() == 2,
    ensures
        final(query)@ == with_search_rhs(
            old(query)@,
            limited(size_expr(old(query)@, *oids), search_rhs(old(query)@), *oids),
        ),
        final(query).rtable == old(query).rtable,
        final(query).cte_list == old(query).cte_list,
{
    let ghost before = *query;
    let size = build_size_expr(query, oids);
    if let Some(jointree) = &mut query.jointree {
        if let Some(quals) = &mut jointree.quals {
            if let Expr::OpExpr { args, .. } = &mut quals.expr {
                if let Some(rhs) = args.pop() {
                    args.push(
                        Node {
                            host: 0,
                            expr: Expr::FuncExpr {
                                funcid: oids.score_topn_limit,
                                funcresulttype: oids.zdbquery,
                                args: vec![size, rhs],
                            },
                        },
                    );
                }
            }
        }
    }
    proof {
        let quals = before.jointree->0.quals->0;
        let new_quals = query.jointree->0.quals->0;
        assert(quals@.expr == quals.expr@ && new_quals@.expr == new_quals.expr@);
        let args = quals.expr->OpExpr_args@;
        let new_args = new_quals.expr->OpExpr_args@;
        assert(node_views(args)[1] == args[1]@);
        assert(new_args[1]@.expr == new_args[1].expr@);
        assert(node_views(new_args[1].expr->FuncExpr_args@) =~= seq![size@, args[1]@]);
        assert(new_args[1]@ == limited(size@, args[1]@, *oids));
        assert(node_views(new_args) =~= node_views(args).update(1, new_args[1]@));
    }
}

/// Pushes down at one query level, if that is safe there.
pub fn try_pushdown<F: FnOnce() -> Option<TopNOids>>(
    query: &mut Query,
    mode: ScoreTopNPushdown,
    oids: &mut LazyOids<F>,
)
    requires
        mode != ScoreTopNPushdown::off,
        old(oids).well_formed(),
        old(oids).value() is None && passes_structure(old(query)@, mode)
            ==> old(oids).lookup().requires(()),
    ensures
        final(oids).well_formed(),
        final(oids).lookup() == old(oids).lookup(),
        final(oids).value() is Some <==> old(oids).value() is Some || passes_structure(
            old(query)@,
            mode,
        ),
        old(oids).value() is Some ==> final(oids).value() == old(oids).value(),
        match final(oids).value() {
            Some(found) => final(query)@ == pushed_level(old(query)@, mode, found),
            None => final(query)@ == old(query)@,
        },
        final(query).rtable == old(query).rtable,
        final(query).cte_list == old(query).cte_list,
{
    if !structure_allows(query, mode) {
        return;
    }
    // the cheap checks passed: now resolve the oids (they may not exist yet,
    // eg. while CREATE EXTENSION is running)
    let oids = match oids.force() {
        Some(oids) => oids,
        None => return,
    };
    if analysis_allows(query, mode, &oids) {
        wrap_rhs(query, &oids);
    }
}

/// Where no level asks for the oids, nothing is pushed down, whatever they
/// would be.
proof fn lemma_unneeded_oids(q: QueryView, mode: ScoreTopNPushdown, oids: Option<TopNOids>)
    requires
        !needs_oids(q, mode),
    ensures
        pushed_down(q, mode, oids) == q,
    decreases q,
{
    lemma_unneeded_oids_rtable(q.rtable, mode, oids);
    lemma_unneeded_oids_ctes(q.cte_list, mode, oids);
}

/// [`lemma_unneeded_oids`] for what is below a range table.
proof fn lemma_unneeded_oids_rtable(
    rtable: Seq<RangeTblEntryView>,
    mode: ScoreTopNPushdown,
    oids: Option<TopNOids>,
)
    requires
        !rtable_needs_oids(rtable, mode),
    ensures
        pushed_rtable(rtable, mode, oids) == rtable,
    decreases rtable,
{
    let pushed = pushed_rtable(rtable, mode, oids);
    assert forall|i: int| 0 <= i < rtable.len() implies pushed[i] == #[trigger] rtable[i] by {
        lemma_unneeded_oids_rte(rtable[i], mode, oids);
    }
    assert(pushed =~= rtable);
}

/// [`lemma_unneeded_oids`] for what is below a `WITH` list.
proof fn lemma_unneeded_oids_ctes(
    ctes: Seq<CommonTableExprView>,
    mode: ScoreTopNPushdown,
    oids: Option<TopNOids>,
)
    requires
        !ctes_need_oids(ctes, mode),
    ensures
        pushed_ctes(ctes, mode, oids) == ctes,
    decreases ctes,
{
    let pushed = pushed_ctes(ctes, mode, oids);
    assert forall|i: int| 0 <= i < ctes.len() implies pushed[i] == #[trigger] ctes[i] by {
        lemma_unneeded_oids_cte(ctes[i], mode, oids);
    }
    assert(pushed =~= ctes);
}

/// [`lemma_unneeded_oids`] for what is below a range table entry.
proof fn lemma_unneeded_oids_rte(
    rte: RangeTblEntryView,
    mode: ScoreTopNPushdown,
    oids: Option<TopNOids>,
)
    requires
        !rte_needs_oids(rte, mode),
    ensures
        pushed_rte(rte, mode, oids) == rte,
    decreases rte,
{
    if let Some(subquery) = rte.subquery {
        if rte.rtekind == RTEKind::Subquery {
            lemma_unneeded_oids(*subquery, mode, oids);
        }
    }
}

/// [`lemma_unneeded_oids`] for what is below a `WITH` item.
proof fn lemma_unneeded_oids_cte(
    cte: CommonTableExprView,
    mode: ScoreTopNPushdown,
    oids: Option<TopNOids>,
)
    requires
        !cte_needs_oids(cte, mode),
    ensures
        pushed_cte(cte, mode, oids) == cte,
    decreases cte,
{
    if let CteQueryView::Query(q) = cte.ctequery {
        lemma_unneeded_oids(*q, mode, oids);
    }
}

/// Pushes down at every level below a range table entry.
fn walk_rte<F: FnOnce() -> Option<TopNOids>>(
    rte: &mut RangeTblEntry,
    mode: ScoreTopNPushdown,
    oids: &mut LazyOids<F>,
)
    requires
        mode != ScoreTopNPushdown::off,
        old(oids).well_formed(),
        old(oids).value() is None && rte_needs_oids(old(rte)@, mode)
            ==> old(oids).lookup().requires(()),
    ensures
        final(oids).well_formed(),
        final(oids).lookup() == old(oids).lookup(),
        old(oids).value() is Some ==> final(oids).value() == old(oids).value(),
        final(oids).value() is Some <==> old(oids).value() is Some || rte_needs_oids(
            old(rte)@,
            mode,
        ),
        match final(oids).value() {
            Some(found) => final(rte)@ == pushed_rte(old(rte)@, mode, found),
            None => final(rte)@ == old(rte)@,
        },
    decreases *old(rte),
{
    if rte.rtekind == RTEKind::Subquery {
        if let Some(subquery) = &mut rte.subquery {
            walk_query(subquery, mode, oids);
        }
    }
}

/// Pushes down at every level below the range table.
fn walk_rtable<F: FnOnce() -> Option<TopNOids>>(
    rtable: &mut Vec<RangeTblEntry>,
    mode: ScoreTopNPushdown,
    oids: &mut LazyOids<F>,
)
    requires
        mode != ScoreTopNPushdown::off,
        old(oids).well_formed(),
        old(oids).value() is None && rtable_needs_oids(rtable_views(old(rtable)@), mode)
            ==> old(oids).lookup().requires(()),
    ensures
        final(oids).well_formed(),
        final(oids).lookup() == old(oids).lookup(),
        old(oids).value() is Some ==> final(oids).value() == old(oids).value(),
        final(oids).value() is Some <==> old(oids).value() is Some || rtable_needs_oids(
            rtable_views(old(rtable)@),
            mode,
        ),
        match final(oids).value() {
            Some(found) => rtable_views(final(rtable)@) == pushed_rtable(
                rtable_views(old(rtable)@),
                mode,
                found,
            ),
            None => rtable_views(final(rtable)@) == rtable_views(old(rtable)@),
        },
    decreases *old(rtable),
{
    let ghost start = rtable_views(rtable@);
    let mut i: usize = 0;
    while i < rtable.len()
        invariant
            mode != ScoreTopNPushdown::off,
            oids.well_formed(),
            oids.lookup() == old(oids).lookup(),
            old(oids).value() is Some ==> oids.value() == old(oids).value(),
            oids.value() is Some <==> old(oids).value() is Some || exists|j: int|
                0 <= j < i && rte_needs_oids(#[trigger] start[j], mode),
            old(oids).value() is None && rtable_needs_oids(start, mode)
                ==> old(oids).lookup().requires(()),
            i <= rtable.len(),
            start == rtable_views(old(rtable)@),
            rtable@.len() == old(rtable)@.len(),
            forall|j: int| i <= j < rtable@.len() ==> rtable@[j] == old(rtable)@[j],
            forall|j: int|
                0 <= j < i ==> (#[trigger] rtable@[j])@ == match oids.value() {
                    Some(found) => pushed_rte(start[j], mode, found),
                    None => start[j],
                },
        decreases rtable.len() - i,
    {
        let ghost before = oids.value();
        let ghost passed = rtable@;
        assert(rtable@[i as int] == old(rtable)@[i as int]);
        assert(start[i as int] == rtable@[i as int]@);
        walk_rte(&mut rtable[i], mode, oids);
        proof {
            assert forall|j: int| 0 <= j < i implies (#[trigger] rtable@[j])@
                == match oids.value() {
                Some(found) => pushed_rte(start[j], mode, found),
                None => start[j],
            } by {
                assert(rtable@[j] == passed[j]);
                if before is None && oids.value() is Some {
                    lemma_unneeded_oids_rte(start[j], mode, oids.value()->0);
                }
            }
        }
        i += 1;
    }
    proof {
        match oids.value() {
            Some(found) => {
                assert(rtable_views(rtable@) =~= pushed_rtable(start, mode, found));
            },
            None => {
                assert(rtable_views(rtable@) =~= start);
            },
        }
    }
}

/// Pushes down at every level below a `WITH` item.
fn walk_cte<F: FnOnce() -> Option<TopNOids>>(
    cte: &mut CommonTableExpr,
    mode: ScoreTopNPushdown,
    oids: &mut LazyOids<F>,
)
    requires
        mode != ScoreTopNPushdown::off,
        old(oids).well_formed(),
        old(oids).value() is None && cte_needs_oids(old(cte)@, mode)
            ==> old(oids).lookup().requires(()),
    ensures
        final(oids).well_formed(),
        final(oids).lookup() == old(oids).lookup(),
        old(oids).value() is Some ==> final(oids).value() == old(oids).value(),
        final(oids).value() is Some <==> old(oids).value() is Some || cte_needs_oids(
            old(cte)@,
            mode,
        ),
        match final(oids).value() {
            Some(found) => final(cte)@ == pushed_cte(old(cte)@, mode, found),
            None => final(cte)@ == old(cte)@,
        },
    decreases *old(cte),
{
    if let CteQuery::Query(ctequery) = &mut cte.ctequery {
        walk_query(ctequery, mode, oids);
    }
}

/// Pushes down at every level below the `WITH` list.
fn walk_ctes<F: FnOnce() -> Option<TopNOids>>(
    ctes: &mut Vec<CommonTableExpr>,
    mode: ScoreTopNPushdown,
    oids: &mut LazyOids<F>,
)
    requires
        mode != ScoreTopNPushdown::off,
        old(oids).well_formed(),
        old(oids).value() is None && ctes_need_oids(cte_views(old(ctes)@), mode)
            ==> old(oids).lookup().requires(()),
    ensures
        final(oids).well_formed(),
        final(oids).lookup() == old(oids).lookup(),
        old(oids).value() is Some ==> final(oids).value() == old(oids).value(),
        final(oids).value() is Some <==> old(oids).value() is Some || ctes_need_oids(
            cte_views(old(ctes)@),
            mode,
        ),
        match final(oids).value() {
            Some(found) => cte_views(final(ctes)@) == pushed_ctes(
                cte_views(old(ctes)@),
                mode,
                found,
            ),
            None => cte_views(final(ctes)@) == cte_views(old(ctes)@),
        },
    decreases *old(ctes),
{
    let ghost start = cte_views(ctes@);
    let mut i: usize = 0;
    while i < ctes.len()
        invariant
            mode != ScoreTopNPushdown::off,
            oids.well_formed(),
            oids.lookup() == old(oids).lookup(),
            old(oids).value() is Some ==> oids.value() == old(oids).value(),
            oids.value() is Some <==> old(oids).value() is Some || exists|j: int|
                0 <= j < i && cte_needs_oids(#[trigger] start[j], mode),
            old(oids).value() is None && ctes_need_oids(start, mode)
                ==> old(oids).lookup().requires(()),
            i <= ctes.len(),
            start == cte_views(old(ctes)@),
            ctes@.len() == old(ctes)@.len(),
            forall|j: int| i <= j < ctes@.len() ==> ctes@[j] == old(ctes)@[j],
            forall|j: int|
                0 <= j < i ==> (#[trigger] ctes@[j])@ == match oids.value() {
                    Some(found) => pushed_cte(start[j], mode, found),
                    None => start[j],
                },
        decreases ctes.len() - i,
    {
        let ghost before = oids.value();
        let ghost passed = ctes@;
        assert(ctes@[i as int] == old(ctes)@[i as int]);
        assert(start[i as int] == ctes@[i as int]@);
        walk_cte(&mut ctes[i], mode, oids);
        proof {
            assert forall|j: int| 0 <= j < i implies (#[trigger] ctes@[j])@
                == match oids.value() {
                Some(found) => pushed_cte(start[j], mode, found),
                None => start[j],
            } by {
                assert(ctes@[j] == passed[j]);
                if before is None && oids.value() is Some {
                    lemma_unneeded_oids_cte(start[j], mode, oids.value()->0);
                }
            }
        }
        i += 1;
    }
    proof {
        match oids.value() {
            Some(found) => {
                assert(cte_views(ctes@) =~= pushed_ctes(start, mode, found));
            },
            None => {
                assert(cte_views(ctes@) =~= start);
            },
        }
    }
}

/// A walk that pushed down at the top level, then below the range table and
/// then below the `WITH` list has pushed down everywhere, although the oids
/// may have been found only on the way.
proof fn lemma_walked(
    q: QueryView,
    level: QueryView,
    done: QueryView,
    mode: ScoreTopNPushdown,
    top: Option<Option<TopNOids>>,
    below: Option<Option<TopNOids>>,
    end: Option<Option<TopNOids>>,
)
    requires
        top is Some ==> below == top,
        below is Some ==> end == below,
        top is None ==> !passes_structure(q, mode),
        below is None ==> !rtable_needs_oids(q.rtable, mode),
        match top {
            Some(oids) => level == pushed_level(q, mode, oids),
            None => level == q,
        },
        match below {
            Some(oids) => done.rtable == pushed_rtable(q.rtable, mode, oids),
            None => done.rtable == q.rtable,
        },
        match end {
            Some(oids) => done.cte_list == pushed_ctes(q.cte_list, mode, oids),
            None => done.cte_list == q.cte_list,
        },
        done == (QueryView { rtable: done.rtable, cte_list: done.cte_list, ..level }),
    ensures
        match end {
            Some(oids) => done == pushed_down(q, mode, oids),
            None => done == q,
        },
{
    if below is None && end is Some {
        lemma_unneeded_oids_rtable(q.rtable, mode, end->0);
    }
    if let Some(oids) = end {
        assert(level == pushed_level(q, mode, oids));
        assert(done == pushed_down(q, mode, oids));
    }
}

/// A walk below a level changes the views of its range table and its `WITH`
/// list, and nothing else.
proof fn lemma_lower_levels(level: Query, done: Query)
    requires
        done == (Query { rtable: done.rtable, cte_list: done.cte_list, ..level }),
    ensures
        done@ == (QueryView {
            rtable: rtable_views(done.rtable@),
            cte_list: cte_views(done.cte_list@),
            ..level@
        }),
        done@.rtable == rtable_views(done.rtable@),
        done@.cte_list == cte_views(done.cte_list@),
        level@.rtable == rtable_views(level.rtable@),
        level@.cte_list == cte_views(level.cte_list@),
{
}

/// Where the oids are asked for: at the level itself, or below it.
proof fn lemma_needs_oids(q: QueryView, mode: ScoreTopNPushdown)
    ensures
        needs_oids(q, mode) == (passes_structure(q, mode) || rtable_needs_oids(q.rtable, mode)
            || ctes_need_oids(q.cte_list, mode)),
{
}

/// Pushes down at every level of the query.
#[verifier::spinoff_prover]
#[verifier::rlimit(20)]
pub fn walk_query<F: FnOnce() -> Option<TopNOids>>(
    query: &mut Query,
    mode: ScoreTopNPushdown,
    oids: &mut LazyOids<F>,
)
    requires
        mode != ScoreTopNPushdown::off,
        old(oids).well_formed(),
        old(oids).value() is None && needs_oids(old(query)@, mode)
            ==> old(oids).lookup().requires(()),
    ensures
        final(oids).well_formed(),
        final(oids).lookup() == old(oids).lookup(),
        old(oids).value() is Some ==> final(oids).value() == old(oids).value(),
        final(oids).value() is Some <==> old(oids).value() is Some || needs_oids(
            old(query)@,
            mode,
        ),
        match final(oids).value() {
            Some(found) => final(query)@ == pushed_down(old(query)@, mode, found),
            None => final(query)@ == old(query)@,
        },
    decreases *old(query),
{
    let ghost q = query@;
    proof {
        lemma_needs_oids(q, mode);
    }
    try_pushdown(query, mode, oids);
    let ghost level = *query;
    let ghost top = oids.value();
    // into the sub-queries of the range table
    walk_rtable(&mut query.rtable, mode, oids);
    let ghost below = oids.value();
    // ... and into CTEs
    walk_ctes(&mut query.cte_list, mode, oids);
    proof {
        lemma_lower_levels(level, *query);
        lemma_walked(q, level@, query@, mode, top, below, oids.value());
    }
}

/// Switched off, no level asks for the oids.
proof fn lemma_off_needs_nothing(q: QueryView)
    ensures
        !needs_oids(q, ScoreTopNPushdown::off),
    decreases q,
{
    let mode = ScoreTopNPushdown::off;
    if rtable_needs_oids(q.rtable, mode) {
        let i = choose|i: int|
            0 <= i < q.rtable.len() && rte_needs_oids(#[trigger] q.rtable[i], mode);
        lemma_off_needs_nothing(*q.rtable[i].subquery->0);
    }
    if ctes_need_oids(q.cte_list, mode) {
        let i = choose|i: int|
            0 <= i < q.cte_list.len() && cte_needs_oids(#[trigger] q.cte_list[i], mode);
        lemma_off_needs_nothing(*q.cte_list[i].ctequery->Query_0);
    }
}

/// Entry point, for every top-level query before it is planned.
///
/// `lookup` finds the oids; it runs at most once, and only if some level of
/// the query passes the checks that need no oids. It finds nothing while the
/// catalog objects do not exist, and nothing is pushed down then.
pub fn perform<F: FnOnce() -> Option<TopNOids>>(
    query: &mut Query,
    mode: ScoreTopNPushdown,
    lookup: F,
)
    requires
        mode != ScoreTopNPushdown::off && needs_oids(old(query)@, mode) ==> lookup.requires(()),
    ensures
        mode == ScoreTopNPushdown::off ==> final(query)@ == old(query)@,
        !needs_oids(old(query)@, mode) ==> final(query)@ == old(query)@,
        needs_oids(old(query)@, mode) ==> exists|oids: Option<TopNOids>|
            #![trigger pushed_down(old(query)@, mode, oids)]
            lookup.ensures((), oids) && final(query)@ == pushed_down(old(query)@, mode, oids),
{
    if mode == ScoreTopNPushdown::off {
        proof {
            lemma_off_needs_nothing(query@);
        }
        return;
    }
    let mut oids = LazyOids::new(lookup);
    walk_query(query, mode, &mut oids);
    proof {
        if needs_oids(old(query)@, mode) {
            oids.lemma_found_by_lookup();
        }
    }
}

/// [`perform`] with oids that are known beforehand; `None` where they do not
/// exist.
pub fn perform_with_oids(query: &mut Query, mode: ScoreTopNPushdown, oids: Option<TopNOids>)
    ensures
        final(query)@ == pushed_down(old(query)@, mode, oids),
{
    let lookup = || -> (found: Option<TopNOids>)
        ensures
            found == oids,
        { oids };
    proof {
        if !needs_oids(query@, mode) {
            lemma_unneeded_oids(query@, mode, oids);
        }
    }
    perform(query, mode, lookup);
}

} // verus!
