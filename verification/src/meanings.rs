//! What is recognized and what is built, written out over the fields of the
//! query tree.

use vstd::prelude::*;

use crate::catalog::{is_found, is_reply, is_transcript, request, resolved};
use crate::catalog::{CatalogRequest, CatalogRequestView, TopNOids};
use crate::gucs::ScoreTopNPushdown;
use crate::limit::size_limit;
use crate::pushdown::{constant_sum_fits, constant_value, has_rtindex, has_rtindex_at};
use crate::pushdown::{is_safe_jointree, is_safe_path, needs_oids, passes_structure};
use crate::pushdown::{pushed_cte, pushed_down, pushed_level, pushed_rte, size_expr};
use crate::pushdown::{sort_target, sorted_entry};
use crate::scan::{call_count, foreign_var_count, mentions_no_columns, mentions_only};
use crate::scan::{has_explicit_limit, is_call, is_limit_call, is_var_of, reads_elsewhere};
use crate::scan::{nodes, nodes_at, nodes_below, nodes_of, nodes_of_from, var_count};
use crate::scan::{reads_entry, reads_level, saturated, ExprScanContext};
use crate::tree::{
    CmdType,
    CommonTableExpr,
    CteQuery,
    CteQueryView,
    Expr,
    ExprView,
    FromExpr,
    FromExprView,
    JoinType,
    LimitOption,
    Node,
    NodeView,
    Oid,
    Query,
    QueryView,
    RTEKind,
    RangeTblEntry,
    RangeTblEntryView,
    SortGroupClause,
    TargetEntry,
    TargetEntryView,
};

verus! {

/// The target of a sort key is the first one that carries its reference.
proof fn lemma_sort_target(targets: Seq<TargetEntryView>, sort_ref: u32, i: int)
    requires
        0 <= i < targets.len(),
        targets[i].ressortgroupref == sort_ref,
        forall|j: int| 0 <= j < i ==> (#[trigger] targets[j]).ressortgroupref != sort_ref,
    ensures
        sort_target(targets, sort_ref) == Some(targets[i].expr),
    decreases targets.len(),
{
    if i > 0 {
        let rest = targets.drop_first();
        assert(targets[0].ressortgroupref != sort_ref);
        assert(rest[i - 1] == targets[i]);
        assert forall|j: int| 0 <= j < i - 1 implies (#[trigger] rest[j]).ressortgroupref
            != sort_ref by {
            assert(rest[j] == targets[j + 1]);
        }
        lemma_sort_target(rest, sort_ref, i - 1);
    }
}

/// Without a target that carries its reference a sort key has none.
proof fn lemma_no_sort_target(targets: Seq<TargetEntryView>, sort_ref: u32)
    requires
        forall|j: int| 0 <= j < targets.len() ==> (#[trigger] targets[j]).ressortgroupref
            != sort_ref,
    ensures
        sort_target(targets, sort_ref) is None,
    decreases targets.len(),
{
    if targets.len() > 0 {
        let rest = targets.drop_first();
        assert forall|j: int| 0 <= j < rest.len() implies (#[trigger] rest[j]).ressortgroupref
            != sort_ref by {
            assert(rest[j] == targets[j + 1]);
        }
        lemma_no_sort_target(rest, sort_ref);
    }
}

/// Where a target carries the reference, there is a first one that does.
proof fn lemma_first_target(targets: Seq<TargetEntryView>, sort_ref: u32, k: int) -> (i: int)
    requires
        0 <= k < targets.len(),
        targets[k].ressortgroupref == sort_ref,
    ensures
        0 <= i <= k,
        targets[i].ressortgroupref == sort_ref,
        forall|j: int| 0 <= j < i ==> (#[trigger] targets[j]).ressortgroupref != sort_ref,
    decreases k,
{
    if exists|j: int| 0 <= j < k && (#[trigger] targets[j]).ressortgroupref == sort_ref {
        let j = choose|j: int| 0 <= j < k && (#[trigger] targets[j]).ressortgroupref == sort_ref;
        lemma_first_target(targets, sort_ref, j)
    } else {
        k
    }
}

/// A sort key is `zdb.score(rel.ctid) DESC` exactly if its operator is the `>`
/// of `float8` and the first target that carries its reference is itself a call
/// of `zdb.score` whose first argument is the `ctid` of `rel` at this query
/// level. Nothing around that call is looked through.
pub proof fn law_sort_key(q: QueryView, key: SortGroupClause, oids: TopNOids, varno: i32)
    ensures
        sorted_entry(q, key, oids) == Some(varno) <==> key.sortop == oids.float8_gt && exists|
            i: int,
        |
            {
                &&& 0 <= i < q.target_list.len()
                &&& (#[trigger] q.target_list[i]).ressortgroupref == key.tle_sort_group_ref
                &&& forall|j: int|
                    0 <= j < i ==> (#[trigger] q.target_list[j]).ressortgroupref
                        != key.tle_sort_group_ref
                &&& q.target_list[i].expr.expr is FuncExpr
                &&& q.target_list[i].expr.expr->FuncExpr_funcid == oids.zdb_score
                &&& q.target_list[i].expr.expr->FuncExpr_args.len() > 0
                &&& q.target_list[i].expr.expr->FuncExpr_args[0].expr == (ExprView::Var {
                    varno,
                    varattno: -1i16,
                    varlevelsup: 0,
                })
            },
{
    let targets = q.target_list;
    let sort_ref = key.tle_sort_group_ref;
    if exists|k: int| 0 <= k < targets.len() && (#[trigger] targets[k]).ressortgroupref
        == sort_ref {
        let k = choose|k: int|
            0 <= k < targets.len() && (#[trigger] targets[k]).ressortgroupref == sort_ref;
        let i = lemma_first_target(targets, sort_ref, k);
        lemma_sort_target(targets, sort_ref, i);
        assert forall|j: int|
            0 <= j < targets.len() && (#[trigger] targets[j]).ressortgroupref == sort_ref && (
            forall|l: int|
                0 <= l < j ==> (#[trigger] targets[l]).ressortgroupref != sort_ref) implies j
            == i by {
            if j < i {
                assert(targets[j].ressortgroupref != sort_ref);
            }
            if i < j {
                assert(targets[i].ressortgroupref != sort_ref);
            }
        }
    } else {
        lemma_no_sort_target(targets, sort_ref);
    }
}

/// A level whose first sort key sorts by anything but `zdb.score(rel.ctid)`
/// itself is left alone: by another function, by an expression around the
/// score, by the score of something other than a row's own `ctid`, by nothing
/// that is selected, or in another direction.
pub proof fn law_other_sorts_left_alone(
    q: QueryView,
    mode: ScoreTopNPushdown,
    oids: Option<TopNOids>,
)
    requires
        q.sort_clause.len() > 0,
        oids is Some ==> q.sort_clause[0].sortop != oids->0.float8_gt || forall|i: int|
            0 <= i < q.target_list.len() && (#[trigger] q.target_list[i]).ressortgroupref
                == q.sort_clause[0].tle_sort_group_ref ==> {
                ||| !(q.target_list[i].expr.expr is FuncExpr)
                ||| q.target_list[i].expr.expr->FuncExpr_funcid != oids->0.zdb_score
                ||| q.target_list[i].expr.expr->FuncExpr_args.len() == 0
                ||| !(q.target_list[i].expr.expr->FuncExpr_args[0].expr is Var)
                ||| q.target_list[i].expr.expr->FuncExpr_args[0].expr->Var_varattno != -1
                ||| q.target_list[i].expr.expr->FuncExpr_args[0].expr->Var_varlevelsup != 0
            },
    ensures
        pushed_level(q, mode, oids) == q,
{
    if let Some(found) = oids {
        if let Some(varno) = sorted_entry(q, q.sort_clause[0], found) {
            law_sort_key(q, q.sort_clause[0], found, varno);
        }
    }
}

/// The size to ask for is the `LIMIT` as it stands, or a call of `int8pl` on
/// exactly the `OFFSET` and the `LIMIT`, in that order, whatever they are.
pub proof fn law_size_by_fields(q: QueryView, oids: TopNOids)
    requires
        q.limit_count is Some,
    ensures
        q.limit_offset is None ==> size_expr(q, oids) == q.limit_count->0,
        q.limit_offset is Some ==> {
            let size = size_expr(q, oids);
            &&& size.host == 0
            &&& size.expr is FuncExpr
            &&& size.expr->FuncExpr_funcid == oids.int8pl
            &&& size.expr->FuncExpr_funcresulttype == 20
            &&& size.expr->FuncExpr_args.len() == 2
            &&& size.expr->FuncExpr_args[0] == q.limit_offset->0
            &&& size.expr->FuncExpr_args[1] == q.limit_count->0
        },
{
}

/// What a pushdown puts in place of the search: a call of
/// `zdb.score_topn_limit`, of type `zdbquery`, on the size and on the whole
/// search as it was. The left side, the operator and everything else of the
/// level stay.
pub proof fn law_search_kept_whole(q: QueryView, mode: ScoreTopNPushdown, oids: TopNOids)
    requires
        pushed_level(q, mode, Some(oids)) != q,
    ensures
        q.jointree is Some && q.jointree->0.quals is Some,
        q.jointree->0.quals->0.expr is OpExpr,
        q.jointree->0.quals->0.expr->OpExpr_args.len() == 2,
        ({
            let pushed = pushed_level(q, mode, Some(oids));
            let quals = q.jointree->0.quals->0;
            let new_quals = pushed.jointree->0.quals->0;
            let call = new_quals.expr->OpExpr_args[1];
            let size = call.expr->FuncExpr_args[0];
            &&& pushed == (QueryView { jointree: pushed.jointree, ..q })
            &&& pushed.jointree is Some && pushed.jointree->0.quals is Some
            &&& pushed.jointree->0.fromlist == q.jointree->0.fromlist
            &&& new_quals.host == quals.host
            &&& new_quals.expr is OpExpr
            &&& new_quals.expr->OpExpr_opfuncid == quals.expr->OpExpr_opfuncid
            &&& new_quals.expr->OpExpr_args.len() == 2
            &&& new_quals.expr->OpExpr_args[0] == quals.expr->OpExpr_args[0]
            &&& call.host == 0
            &&& call.expr is FuncExpr
            &&& call.expr->FuncExpr_funcid == oids.score_topn_limit
            &&& call.expr->FuncExpr_funcresulttype == oids.zdbquery
            &&& call.expr->FuncExpr_args.len() == 2
            &&& call.expr->FuncExpr_args[1] == quals.expr->OpExpr_args[1]
            &&& q.limit_count is Some
            &&& q.limit_offset is None ==> size == q.limit_count->0
            &&& q.limit_offset is Some ==> {
                &&& size.host == 0
                &&& size.expr is FuncExpr
                &&& size.expr->FuncExpr_funcid == oids.int8pl
                &&& size.expr->FuncExpr_funcresulttype == 20
                &&& size.expr->FuncExpr_args.len() == 2
                &&& size.expr->FuncExpr_args[0] == q.limit_offset->0
                &&& size.expr->FuncExpr_args[1] == q.limit_count->0
            }
        }),
{
}

/// A search in which `dsl.limit`, `dsl.offset`, `dsl.offset_limit` or
/// `zdb.score_topn_limit` is called anywhere, with whatever arguments, is left
/// alone.
pub proof fn law_limiting_calls_left_alone(
    q: QueryView,
    mode: ScoreTopNPushdown,
    oids: TopNOids,
    i: int,
)
    requires
        q.jointree is Some && q.jointree->0.quals is Some,
        q.jointree->0.quals->0.expr is OpExpr,
        q.jointree->0.quals->0.expr->OpExpr_args.len() == 2,
        0 <= i < nodes(q.jointree->0.quals->0.expr->OpExpr_args[1]).len(),
        ({
            let node = nodes(q.jointree->0.quals->0.expr->OpExpr_args[1])[i];
            &&& node.expr is FuncExpr
            &&& {
                ||| node.expr->FuncExpr_funcid == oids.dsl_limit
                ||| node.expr->FuncExpr_funcid == oids.dsl_offset
                ||| node.expr->FuncExpr_funcid == oids.dsl_offset_limit
                ||| node.expr->FuncExpr_funcid == oids.score_topn_limit
            }
        }),
    ensures
        pushed_level(q, mode, Some(oids)) == q,
{
    let node = nodes(q.jointree->0.quals->0.expr->OpExpr_args[1])[i];
    assert(is_limit_call(node, oids));
}

/// A search that reads a column of its level, itself or in a sub-query, is
/// left alone: it is not the same search for every row.
pub proof fn law_varying_search_left_alone(
    q: QueryView,
    mode: ScoreTopNPushdown,
    oids: TopNOids,
    i: int,
)
    requires
        q.jointree is Some && q.jointree->0.quals is Some,
        q.jointree->0.quals->0.expr is OpExpr,
        q.jointree->0.quals->0.expr->OpExpr_args.len() == 2,
        0 <= i < nodes(q.jointree->0.quals->0.expr->OpExpr_args[1]).len(),
        match nodes(q.jointree->0.quals->0.expr->OpExpr_args[1])[i].expr {
            ExprView::Var { varlevelsup, .. } => varlevelsup == 0,
            ExprView::SubQuery { outer_varnos } => outer_varnos.len() > 0,
            _ => false,
        },
    ensures
        pushed_level(q, mode, Some(oids)) == q,
{
    let node = nodes(q.jointree->0.quals->0.expr->OpExpr_args[1])[i];
    match node.expr {
        ExprView::Var { varno, .. } => {
            assert(reads_entry(node, varno));
        },
        ExprView::SubQuery { outer_varnos } => {
            assert(reads_entry(node, outer_varnos[0]));
        },
        _ => {},
    }
    assert(reads_level(node));
}

/// A level that is pushed down at searches the table that it sorts by the
/// score of, and reads columns of nothing else on the left side of the `==>`.
pub proof fn law_left_side_is_the_table(q: QueryView, mode: ScoreTopNPushdown, oids: TopNOids)
    requires
        pushed_level(q, mode, Some(oids)) != q,
    ensures
        sorted_entry(q, q.sort_clause[0], oids) is Some,
        ({
            let varno = sorted_entry(q, q.sort_clause[0], oids)->0;
            let left = nodes(q.jointree->0.quals->0.expr->OpExpr_args[0]);
            &&& exists|k: int|
                {
                    &&& 0 <= k < left.len()
                    &&& (#[trigger] left[k]).expr is Var
                    &&& left[k].expr->Var_varno == varno
                    &&& left[k].expr->Var_varlevelsup == 0
                }
            &&& forall|j: int|
                0 <= j < left.len() ==> match (#[trigger] left[j]).expr {
                    ExprView::Var { varno: no, varlevelsup, .. } => no == varno && varlevelsup == 0,
                    ExprView::SubQuery { outer_varnos } => forall|l: int|
                        0 <= l < outer_varnos.len() ==> #[trigger] outer_varnos[l] == varno,
                    _ => true,
                }
        }),
{
    let varno = sorted_entry(q, q.sort_clause[0], oids)->0;
    let left = nodes(q.jointree->0.quals->0.expr->OpExpr_args[0]);
    let k = choose|k: int| 0 <= k < left.len() && is_var_of(#[trigger] left[k], varno);
    assert(left[k].expr is Var);
    assert forall|j: int| 0 <= j < left.len() implies match (#[trigger] left[j]).expr {
        ExprView::Var { varno: no, varlevelsup, .. } => no == varno && varlevelsup == 0,
        ExprView::SubQuery { outer_varnos } => forall|l: int|
            0 <= l < outer_varnos.len() ==> #[trigger] outer_varnos[l] == varno,
        _ => true,
    } by {
        assert(!reads_elsewhere(left[j], varno));
    }
}

/// Two searches in one join tree, wherever they stand in it and however they
/// are written, and the level is left alone.
pub proof fn law_two_searches_left_alone(
    q: QueryView,
    mode: ScoreTopNPushdown,
    oids: TopNOids,
    a: int,
    b: int,
)
    requires
        q.jointree is Some,
        0 <= a < b < nodes_of_from(q.jointree->0).len(),
        match nodes_of_from(q.jointree->0)[a].expr {
            ExprView::FuncExpr { funcid, .. } => funcid == oids.anyelement_cmp,
            ExprView::OpExpr { opfuncid, .. } => opfuncid == oids.anyelement_cmp,
            _ => false,
        },
        match nodes_of_from(q.jointree->0)[b].expr {
            ExprView::FuncExpr { funcid, .. } => funcid == oids.anyelement_cmp,
            ExprView::OpExpr { opfuncid, .. } => opfuncid == oids.anyelement_cmp,
            _ => false,
        },
    ensures
        pushed_level(q, mode, Some(oids)) == q,
{
    let walked = nodes_of_from(q.jointree->0);
    let funcids = seq![oids.anyelement_cmp];
    let calls = |n: NodeView| is_call(n, funcids, true);
    assert(funcids[0] == oids.anyelement_cmp);
    assert(calls(walked[a]) && calls(walked[b]));
    let (front, back) = (walked.take(b), walked.skip(b));
    assert(front + back =~= walked);
    Seq::filter_distributes_over_add(front, back, calls);
    lemma_counted(front, calls, a);
    lemma_counted(back, calls, 0);
}

/// What a filter keeps is at least one, if it keeps something.
proof fn lemma_counted<A>(s: Seq<A>, p: spec_fn(A) -> bool, i: int)
    requires
        0 <= i < s.len(),
        p(s[i]),
    ensures
        s.filter(p).len() >= 1,
    decreases s.len(),
{
    reveal(Seq::filter);
    if i < s.len() - 1 {
        lemma_counted(s.drop_last(), p, i);
    }
}

/// What a filter keeps is at most one, if no two places pass it.
proof fn lemma_counted_once<A>(s: Seq<A>, p: spec_fn(A) -> bool)
    requires
        forall|a: int, b: int|
            0 <= a < b < s.len() ==> !(p(#[trigger] s[a]) && p(#[trigger] s[b])),
    ensures
        s.filter(p).len() <= 1,
    decreases s.len(),
{
    reveal(Seq::filter);
    if s.len() > 0 {
        let front = s.drop_last();
        assert forall|a: int, b: int| 0 <= a < b < front.len() implies !(p(#[trigger] front[a])
            && p(#[trigger] front[b])) by {
            assert(front[a] == s[a] && front[b] == s[b]);
        }
        lemma_counted_once(front, p);
        if p(s.last()) {
            assert forall|a: int| 0 <= a < front.len() implies !p(#[trigger] front[a]) by {
                assert(s[a] == front[a] && s[s.len() - 1] == s.last());
            }
            lemma_counted_never(front, p);
        }
    }
}

/// A filter keeps nothing, if nothing passes it.
proof fn lemma_counted_never<A>(s: Seq<A>, p: spec_fn(A) -> bool)
    requires
        forall|a: int| 0 <= a < s.len() ==> !p(#[trigger] s[a]),
    ensures
        s.filter(p).len() == 0,
    decreases s.len(),
{
    reveal(Seq::filter);
    if s.len() > 0 {
        assert forall|a: int| 0 <= a < s.drop_last().len() implies !p(
            #[trigger] s.drop_last()[a],
        ) by {
            assert(s[a] == s.drop_last()[a]);
        }
        lemma_counted_never(s.drop_last(), p);
        assert(!p(s[s.len() - 1]));
    }
}

/// Where a walk of a `FROM` list comes to the `WHERE` clause.
proof fn lemma_quals_walked(from: FromExprView) -> (at: int)
    requires
        from.quals is Some,
    ensures
        0 <= at < nodes_of_from(from).len(),
        nodes_of_from(from)[at] == from.quals->0,
{
    let at = nodes_of(from.fromlist).len() as int;
    assert(nodes(from.quals->0)[0] == from.quals->0);
    assert(nodes_of_from(from)[at] == from.quals->0);
    at
}

/// The pattern that the pushdown is for is pushed down, always: a plain
/// `SELECT` with a `LIMIT` that sorts by `zdb.score(rel.ctid) DESC`, from a
/// whole table that no join can remove rows of, where a single `==>` whose left
/// side reads that table alone, in whatever expression, and whose right side is
/// the same for every row and has no limit yet, is all of the `WHERE` clause.
pub proof fn law_pattern_is_pushed_down(
    q: QueryView,
    mode: ScoreTopNPushdown,
    oids: TopNOids,
    varno: i32,
    target: int,
    k: int,
)
    requires
        mode != ScoreTopNPushdown::off,
        q.command_type == CmdType::Select,
        !q.has_aggs && !q.has_window_funcs && !q.has_target_srfs,
        !q.set_operations && !q.group_clause && !q.grouping_sets && !q.distinct_clause,
        !q.window_clause && !q.having_qual && !q.row_marks,
        q.limit_option == LimitOption::Count,
        q.limit_count is Some,
        q.limit_count->0.expr is Const ==> !q.limit_count->0.expr->Const_constisnull,
        constant_value(q.limit_count->0) is Some && q.limit_offset is Some && constant_value(
            q.limit_offset->0,
        ) is Some ==> i64::MIN <= constant_value(q.limit_count->0)->0 + constant_value(
            q.limit_offset->0,
        )->0 <= i64::MAX,
        // the score is sorted by
        q.sort_clause.len() >= 1,
        mode == ScoreTopNPushdown::strict ==> q.sort_clause.len() == 1,
        q.sort_clause[0].sortop == oids.float8_gt,
        0 <= target < q.target_list.len(),
        q.target_list[target].ressortgroupref == q.sort_clause[0].tle_sort_group_ref,
        forall|j: int|
            0 <= j < target ==> (#[trigger] q.target_list[j]).ressortgroupref
                != q.sort_clause[0].tle_sort_group_ref,
        q.target_list[target].expr.expr is FuncExpr,
        q.target_list[target].expr.expr->FuncExpr_funcid == oids.zdb_score,
        q.target_list[target].expr.expr->FuncExpr_args.len() > 0,
        q.target_list[target].expr.expr->FuncExpr_args[0].expr == (ExprView::Var {
            varno,
            varattno: -1i16,
            varlevelsup: 0,
        }),
        // nothing but the search removes rows of the table
        1 <= varno <= q.rtable.len(),
        q.rtable[varno - 1].rtekind == RTEKind::Relation,
        !q.rtable[varno - 1].security_quals && !q.rtable[varno - 1].tablesample,
        q.jointree is Some && q.jointree->0.quals is Some,
        q.jointree->0.fromlist.len() == 1,
        is_safe_path(q.jointree->0.fromlist[0], varno),
        forall|a: int, b: int|
            0 <= a < b < nodes_of_from(q.jointree->0).len() ==> !(match (
            #[trigger] nodes_of_from(q.jointree->0)[a]).expr {
                ExprView::FuncExpr { funcid, .. } => funcid == oids.anyelement_cmp,
                ExprView::OpExpr { opfuncid, .. } => opfuncid == oids.anyelement_cmp,
                _ => false,
            } && match (#[trigger] nodes_of_from(q.jointree->0)[b]).expr {
                ExprView::FuncExpr { funcid, .. } => funcid == oids.anyelement_cmp,
                ExprView::OpExpr { opfuncid, .. } => opfuncid == oids.anyelement_cmp,
                _ => false,
            }),
        q.jointree->0.quals->0.expr is OpExpr,
        q.jointree->0.quals->0.expr->OpExpr_opfuncid == oids.anyelement_cmp,
        q.jointree->0.quals->0.expr->OpExpr_args.len() == 2,
        // its left side reads the table, and nothing else
        ({
            let left = nodes(q.jointree->0.quals->0.expr->OpExpr_args[0]);
            &&& 0 <= k < left.len()
            &&& left[k].expr is Var
            &&& left[k].expr->Var_varno == varno
            &&& left[k].expr->Var_varlevelsup == 0
            &&& forall|j: int|
                0 <= j < left.len() ==> match (#[trigger] left[j]).expr {
                    ExprView::Var { varno: no, varlevelsup, .. } => no == varno && varlevelsup == 0,
                    ExprView::SubQuery { outer_varnos } => forall|l: int|
                        0 <= l < outer_varnos.len() ==> #[trigger] outer_varnos[l] == varno,
                    _ => true,
                }
        }),
        // its right side reads no columns and has no limit
        forall|j: int|
            0 <= j < nodes(q.jointree->0.quals->0.expr->OpExpr_args[1]).len() ==> match (
            #[trigger] nodes(q.jointree->0.quals->0.expr->OpExpr_args[1])[j]).expr {
                ExprView::Var { varlevelsup, .. } => varlevelsup != 0,
                ExprView::SubQuery { outer_varnos } => outer_varnos.len() == 0,
                ExprView::FuncExpr { funcid, .. } => funcid != oids.dsl_limit && funcid
                    != oids.dsl_offset && funcid != oids.dsl_offset_limit && funcid
                    != oids.score_topn_limit,
                _ => true,
            },
    ensures
        pushed_level(q, mode, Some(oids)) != q,
        ({
            let quals = q.jointree->0.quals->0;
            let limit = q.limit_count->0;
            let size = match q.limit_offset {
                Some(offset) => NodeView {
                    host: 0,
                    expr: ExprView::FuncExpr {
                        funcid: oids.int8pl,
                        funcresulttype: 20,
                        args: seq![offset, limit],
                    },
                },
                None => limit,
            };
            let call = NodeView {
                host: 0,
                expr: ExprView::FuncExpr {
                    funcid: oids.score_topn_limit,
                    funcresulttype: oids.zdbquery,
                    args: seq![size, quals.expr->OpExpr_args[1]],
                },
            };
            let search = NodeView {
                host: quals.host,
                expr: ExprView::OpExpr {
                    opfuncid: oids.anyelement_cmp,
                    args: seq![quals.expr->OpExpr_args[0], call],
                },
            };
            pushed_level(q, mode, Some(oids)) == (QueryView {
                jointree: Some(
                    FromExprView { fromlist: q.jointree->0.fromlist, quals: Some(search) },
                ),
                ..q
            })
        }),
{
    let jointree = q.jointree->0;
    let quals = jointree.quals->0;
    let args = quals.expr->OpExpr_args;
    let (lhs, rhs) = (args[0], args[1]);
    let pushed = pushed_level(q, mode, Some(oids));
    law_sort_key(q, q.sort_clause[0], oids, varno);
    assert(sorted_entry(q, q.sort_clause[0], oids) == Some(varno));
    assert(mentions_only(lhs, varno)) by {
        assert(is_var_of(nodes(lhs)[k], varno));
        assert forall|j: int| 0 <= j < nodes(lhs).len() implies !reads_elsewhere(
            #[trigger] nodes(lhs)[j],
            varno,
        ) by {}
    }
    assert(mentions_no_columns(rhs)) by {
        assert forall|j: int| 0 <= j < nodes(rhs).len() implies !reads_level(
            #[trigger] nodes(rhs)[j],
        ) by {}
    }
    assert(!has_explicit_limit(rhs, oids)) by {
        assert forall|j: int| 0 <= j < nodes(rhs).len() implies !is_limit_call(
            #[trigger] nodes(rhs)[j],
            oids,
        ) by {}
    }
    assert(call_count(nodes_of_from(jointree), seq![oids.anyelement_cmp], true) == 1) by {
        let walked = nodes_of_from(jointree);
        let funcids = seq![oids.anyelement_cmp];
        let calls = |n: NodeView| is_call(n, funcids, true);
        assert(funcids[0] == oids.anyelement_cmp);
        assert forall|a: int, b: int| 0 <= a < b < walked.len() implies !(calls(
            #[trigger] walked[a],
        ) && calls(#[trigger] walked[b])) by {}
        lemma_counted_once(walked, calls);
        let at = lemma_quals_walked(jointree);
        lemma_counted(walked, calls, at);
    }
    assert(constant_sum_fits(q));
    assert(is_safe_jointree(q, varno, oids));
    let new_args = pushed.jointree->0.quals->0.expr->OpExpr_args;
    assert(new_args =~= seq![lhs, new_args[1]]);
    assert(new_args[1].expr->FuncExpr_args =~= seq![size_expr(q, oids), rhs]);
    if let Some(offset) = q.limit_offset {
        assert(size_expr(q, oids).expr->FuncExpr_args =~= seq![offset, q.limit_count->0]);
    }
    assert(nodes(rhs)[0] == rhs);
    assert(new_args[1] != rhs);
}

/// A join tree is safe for an entry exactly if the entry is a whole table, the
/// one `FROM` item keeps all its rows, and the `WHERE` clause is a `==>` of the
/// entry with a search that is the same for every row, the only `==>` there is.
/// Nothing else of the level matters.
pub proof fn law_safe_jointree(q: QueryView, varno: i32, oids: TopNOids)
    ensures
        is_safe_jointree(q, varno, oids) <==> {
            &&& 1 <= varno <= q.rtable.len()
            &&& q.rtable[varno - 1].rtekind == RTEKind::Relation
            &&& !q.rtable[varno - 1].security_quals
            &&& !q.rtable[varno - 1].tablesample
            &&& q.jointree is Some
            &&& q.jointree->0.fromlist.len() == 1
            &&& is_safe_path(q.jointree->0.fromlist[0], varno)
            &&& q.jointree->0.quals is Some
            &&& q.jointree->0.quals->0.expr is OpExpr
            &&& q.jointree->0.quals->0.expr->OpExpr_opfuncid == oids.anyelement_cmp
            &&& q.jointree->0.quals->0.expr->OpExpr_args.len() == 2
            &&& mentions_only(q.jointree->0.quals->0.expr->OpExpr_args[0], varno)
            &&& mentions_no_columns(q.jointree->0.quals->0.expr->OpExpr_args[1])
            &&& call_count(nodes_of_from(q.jointree->0), seq![oids.anyelement_cmp], true) == 1
        },
{
}

/// A join path is safe exactly if it ends at the table, and every join on the
/// way is a `LEFT` join entered on its left or a `RIGHT` join entered on its
/// right.
pub proof fn law_safe_path(node: NodeView, varno: i32)
    ensures
        is_safe_path(node, varno) == match node.expr {
            ExprView::RangeTblRef { rtindex } => rtindex == varno,
            ExprView::JoinExpr { jointype, larg, rarg, .. } => {
                ||| jointype == JoinType::Left && larg is Some && is_safe_path(*larg->0, varno)
                ||| jointype == JoinType::Right && rarg is Some && is_safe_path(*rarg->0, varno)
            },
            _ => false,
        },
        is_safe_path(node, varno) ==> has_rtindex(node, varno),
    decreases node,
{
    if let ExprView::JoinExpr { jointype, larg, rarg, .. } = node.expr {
        if let Some(larg) = larg {
            law_safe_path(*larg, varno);
        }
        if let Some(rarg) = rarg {
            law_safe_path(*rarg, varno);
        }
    }
}

/// A join tree refers to the entries that its leaves name.
pub proof fn law_rtindex(node: NodeView, rtindex: i32)
    ensures
        has_rtindex(node, rtindex) == match node.expr {
            ExprView::RangeTblRef { rtindex: index } => index == rtindex,
            ExprView::JoinExpr { larg, rarg, .. } => {
                ||| larg is Some && has_rtindex(*larg->0, rtindex)
                ||| rarg is Some && has_rtindex(*rarg->0, rtindex)
            },
            _ => false,
        },
{
    if let ExprView::JoinExpr { larg, rarg, .. } = node.expr {
        assert(has_rtindex_at(larg, rtindex) == (larg is Some && has_rtindex(*larg->0, rtindex)));
        assert(has_rtindex_at(rarg, rtindex) == (rarg is Some && has_rtindex(*rarg->0, rtindex)));
    }
}

/// A walk visits a node, then everything below it: all arguments of a call or
/// an operator, both sides and the `ON` clause of a join, all children of any
/// other node, and nothing within a sub-query.
pub proof fn law_walk(node: NodeView)
    ensures
        nodes(node) == seq![node] + match node.expr {
            ExprView::Const { .. } => Seq::empty(),
            ExprView::Var { .. } => Seq::empty(),
            ExprView::RangeTblRef { .. } => Seq::empty(),
            ExprView::SubQuery { .. } => Seq::empty(),
            ExprView::FuncExpr { args, .. } => nodes_of(args),
            ExprView::OpExpr { args, .. } => nodes_of(args),
            ExprView::Other { children } => nodes_of(children),
            ExprView::JoinExpr { larg, rarg, quals, .. } => {
                let left: Seq<NodeView> = match larg {
                    Some(n) => nodes(*n),
                    None => Seq::empty(),
                };
                let right: Seq<NodeView> = match rarg {
                    Some(n) => nodes(*n),
                    None => Seq::empty(),
                };
                let on: Seq<NodeView> = match quals {
                    Some(n) => nodes(*n),
                    None => Seq::empty(),
                };
                left + right + on
            },
        },
{
    assert(nodes(node) == seq![node] + nodes_below(node.expr));
    if let ExprView::JoinExpr { larg, rarg, quals, .. } = node.expr {
        assert(larg is Some ==> nodes_at(larg) == nodes(*larg->0));
        assert(rarg is Some ==> nodes_at(rarg) == nodes(*rarg->0));
        assert(quals is Some ==> nodes_at(quals) == nodes(*quals->0));
    }
}

/// A walk of a list visits all its nodes, one after the other, and a walk of a
/// `FROM` list goes on to the `WHERE` clause.
pub proof fn law_walk_list(list: Seq<NodeView>, node: NodeView, from: FromExprView)
    ensures
        nodes_of(Seq::empty()) == Seq::<NodeView>::empty(),
        nodes_of(list.push(node)) == nodes_of(list) + nodes(node),
        from.quals is Some ==> nodes_of_from(from) == nodes_of(from.fromlist) + nodes(
            from.quals->0,
        ),
        from.quals is None ==> nodes_of_from(from) == nodes_of(from.fromlist),
{
    assert(list.push(node).drop_last() =~= list);
    assert(nodes_of(from.fromlist) + Seq::empty() =~= nodes_of(from.fromlist));
}

/// What counts: one for each call of one of the functions, whatever its
/// arguments, and for each operator that calls one, if operators count; one for
/// each column of the entry; and one for each column of anything else and for
/// each sub-query that reads another entry of the level.
pub proof fn law_counts(
    walked: Seq<NodeView>,
    node: NodeView,
    funcids: Seq<Oid>,
    match_opexprs: bool,
    varno: i32,
)
    ensures
        call_count(Seq::empty(), funcids, match_opexprs) == 0,
        call_count(walked.push(node), funcids, match_opexprs) == call_count(
            walked,
            funcids,
            match_opexprs,
        ) + match node.expr {
            ExprView::FuncExpr { funcid, .. } => if funcids.contains(funcid) {
                1int
            } else {
                0
            },
            ExprView::OpExpr { opfuncid, .. } => if match_opexprs && funcids.contains(opfuncid) {
                1
            } else {
                0
            },
            _ => 0,
        },
        var_count(Seq::empty(), varno) == 0,
        var_count(walked.push(node), varno) == var_count(walked, varno) + match node.expr {
            ExprView::Var { varno: no, varlevelsup, .. } => if no == varno && varlevelsup == 0 {
                1int
            } else {
                0
            },
            _ => 0,
        },
        foreign_var_count(Seq::empty(), varno) == 0,
        foreign_var_count(walked.push(node), varno) == foreign_var_count(walked, varno)
            + match node.expr {
            ExprView::Var { varno: no, varlevelsup, .. } => if no == varno && varlevelsup == 0 {
                0int
            } else {
                1
            },
            ExprView::SubQuery { outer_varnos } => if exists|i: int|
                0 <= i < outer_varnos.len() && #[trigger] outer_varnos[i] != varno {
                1
            } else {
                0
            },
            _ => 0,
        },
{
    reveal(Seq::filter);
    assert(walked.push(node).drop_last() =~= walked);
}

/// A scan adds what it counts to what its context held before, and stops at the
/// largest `usize`. What it looks for stays.
pub proof fn law_scan_adds(before: ExprScanContext, after: ExprScanContext, walked: Seq<NodeView>)
    requires
        after.follows(before, walked),
    ensures
        after.funcids == before.funcids,
        after.match_opexprs == before.match_opexprs,
        after.required_varno == before.required_varno,
        ({
            let total = before.count + call_count(walked, before.funcids@, before.match_opexprs);
            after.count == if total <= usize::MAX {
                total
            } else {
                usize::MAX as int
            }
        }),
        before.required_varno is None ==> after.var_count == before.var_count
            && after.foreign_var_count == before.foreign_var_count,
        before.required_varno is Some ==> {
            let own = before.var_count + var_count(walked, before.required_varno->0);
            let foreign = before.foreign_var_count + foreign_var_count(
                walked,
                before.required_varno->0,
            );
            &&& after.var_count == if own <= usize::MAX {
                own
            } else {
                usize::MAX as int
            }
            &&& after.foreign_var_count == if foreign <= usize::MAX {
                foreign
            } else {
                usize::MAX as int
            }
        },
{
}

/// A count is reported as it is, up to the largest `usize`.
pub proof fn law_saturated(n: nat)
    ensures
        n <= usize::MAX ==> saturated(n) == n,
        n > usize::MAX ==> saturated(n) == usize::MAX,
{
}

/// An expression mentions an entry alone exactly if one of its nodes is a
/// column of the entry at this level, no node is another column, and no
/// sub-query in it reads another entry of the level.
pub proof fn law_mentions_only(node: NodeView, varno: i32)
    ensures
        mentions_only(node, varno) <==> {
            &&& exists|k: int|
                0 <= k < nodes(node).len() && match (#[trigger] nodes(node)[k]).expr {
                    ExprView::Var { varno: no, varlevelsup, .. } => no == varno && varlevelsup == 0,
                    _ => false,
                }
            &&& forall|j: int|
                0 <= j < nodes(node).len() ==> match (#[trigger] nodes(node)[j]).expr {
                    ExprView::Var { varno: no, varlevelsup, .. } => no == varno && varlevelsup == 0,
                    ExprView::SubQuery { outer_varnos } => forall|l: int|
                        0 <= l < outer_varnos.len() ==> #[trigger] outer_varnos[l] == varno,
                    _ => true,
                }
        },
{
    let walked = nodes(node);
    assert forall|j: int| 0 <= j < walked.len() implies (!reads_elsewhere(walked[j], varno)
        == match (#[trigger] walked[j]).expr {
        ExprView::Var { varno: no, varlevelsup, .. } => no == varno && varlevelsup == 0,
        ExprView::SubQuery { outer_varnos } => forall|l: int|
            0 <= l < outer_varnos.len() ==> #[trigger] outer_varnos[l] == varno,
        _ => true,
    }) by {}
    assert forall|j: int| 0 <= j < walked.len() implies (is_var_of(walked[j], varno) == match (
    #[trigger] walked[j]).expr {
        ExprView::Var { varno: no, varlevelsup, .. } => no == varno && varlevelsup == 0,
        _ => false,
    }) by {}
    if mentions_only(node, varno) {
        let k = choose|k: int| 0 <= k < walked.len() && is_var_of(#[trigger] walked[k], varno);
        assert(walked[k].expr is Var);
    }
}

/// An expression mentions no columns exactly if no node of it is a column of
/// this level, and no sub-query in it reads one.
pub proof fn law_mentions_no_columns(node: NodeView)
    ensures
        mentions_no_columns(node) <==> forall|j: int|
            0 <= j < nodes(node).len() ==> match (#[trigger] nodes(node)[j]).expr {
                ExprView::Var { varlevelsup, .. } => varlevelsup != 0,
                ExprView::SubQuery { outer_varnos } => outer_varnos.len() == 0,
                _ => true,
            },
{
    let walked = nodes(node);
    assert forall|j: int| 0 <= j < walked.len() implies (!reads_level(walked[j]) == match (
    #[trigger] walked[j]).expr {
        ExprView::Var { varlevelsup, .. } => varlevelsup != 0,
        ExprView::SubQuery { outer_varnos } => outer_varnos.len() == 0,
        _ => true,
    }) by {
        match walked[j].expr {
            ExprView::Var { varno, varlevelsup, .. } => {
                assert(reads_entry(walked[j], varno) == (varlevelsup == 0));
            },
            ExprView::SubQuery { outer_varnos } => {
                if outer_varnos.len() > 0 {
                    assert(reads_entry(walked[j], outer_varnos[0]));
                }
            },
            _ => {},
        }
    }
}

/// An expression has a limit exactly if one of its nodes is a call of
/// `dsl.limit`, `dsl.offset`, `dsl.offset_limit` or `zdb.score_topn_limit`.
pub proof fn law_explicit_limit(node: NodeView, oids: TopNOids)
    ensures
        has_explicit_limit(node, oids) <==> exists|i: int|
            0 <= i < nodes(node).len() && match (#[trigger] nodes(node)[i]).expr {
                ExprView::FuncExpr { funcid, .. } => funcid == oids.dsl_limit || funcid
                    == oids.dsl_offset || funcid == oids.dsl_offset_limit || funcid
                    == oids.score_topn_limit,
                _ => false,
            },
{
    let walked = nodes(node);
    assert forall|i: int| 0 <= i < walked.len() implies (is_limit_call(walked[i], oids) == match (
    #[trigger] walked[i]).expr {
        ExprView::FuncExpr { funcid, .. } => funcid == oids.dsl_limit || funcid == oids.dsl_offset
            || funcid == oids.dsl_offset_limit || funcid == oids.score_topn_limit,
        _ => false,
    }) by {}
    if has_explicit_limit(node, oids) {
        let i = choose|i: int| 0 <= i < walked.len() && is_limit_call(#[trigger] walked[i], oids);
        assert(walked[i].expr is FuncExpr);
    }
}

/// The value of a constant is its own, a null has none, and the casts from
/// `int4` and from `int2` to `int8` keep it. Nothing else is a constant.
pub proof fn law_constants(node: NodeView)
    ensures
        constant_value(node) == match node.expr {
            ExprView::Const { constisnull: false, constvalue } => constvalue,
            ExprView::FuncExpr { funcid, args, .. } => if (funcid == 481 || funcid == 754)
                && args.len() == 1 {
                constant_value(args[0])
            } else {
                None
            },
            _ => None,
        },
{
}

/// A level passes the checks that need no oids exactly if it is a plain
/// `SELECT ... ORDER BY ... LIMIT` and the mode allows its number of sort keys.
pub proof fn law_structure(q: QueryView, mode: ScoreTopNPushdown)
    ensures
        passes_structure(q, mode) <==> {
            &&& mode == ScoreTopNPushdown::primary || mode == ScoreTopNPushdown::strict
                && q.sort_clause.len() == 1
            &&& q.sort_clause.len() >= 1
            &&& q.command_type == CmdType::Select
            &&& !q.has_aggs && !q.has_window_funcs && !q.has_target_srfs
            &&& !q.set_operations && !q.group_clause && !q.grouping_sets && !q.distinct_clause
            &&& !q.window_clause && !q.having_qual && !q.row_marks
            &&& q.limit_option == LimitOption::Count
            &&& q.limit_count is Some
            &&& q.limit_count->0.expr is Const ==> !q.limit_count->0.expr->Const_constisnull
        },
{
}

/// The pushdown goes into the sub-query of every range table entry that is one,
/// and into the query of every `WITH` item that has one. Every other entry and
/// item stays, and so does the rest of the level.
pub proof fn law_walk_of_levels(
    q: QueryView,
    mode: ScoreTopNPushdown,
    oids: Option<TopNOids>,
    i: int,
)
    ensures
        ({
            let down = pushed_down(q, mode, oids);
            &&& down == (QueryView {
                rtable: down.rtable,
                cte_list: down.cte_list,
                ..pushed_level(q, mode, oids)
            })
            &&& down.rtable.len() == q.rtable.len()
            &&& down.cte_list.len() == q.cte_list.len()
            &&& 0 <= i < q.rtable.len() ==> {
                let (rte, done) = (q.rtable[i], down.rtable[i]);
                if rte.rtekind == RTEKind::Subquery && rte.subquery is Some {
                    &&& done.subquery == Some(Box::new(pushed_down(*rte.subquery->0, mode, oids)))
                    &&& done == (RangeTblEntryView { subquery: done.subquery, ..rte })
                } else {
                    done == rte
                }
            }
            &&& 0 <= i < q.cte_list.len() ==> {
                let (cte, done) = (q.cte_list[i], down.cte_list[i]);
                match cte.ctequery {
                    CteQueryView::Query(below) => done.ctequery == CteQueryView::Query(
                        Box::new(pushed_down(*below, mode, oids)),
                    ),
                    _ => done == cte,
                }
            }
        }),
{
    let down = pushed_down(q, mode, oids);
    if 0 <= i < q.rtable.len() {
        assert(down.rtable[i] == pushed_rte(q.rtable[i], mode, oids));
    }
    if 0 <= i < q.cte_list.len() {
        assert(down.cte_list[i] == pushed_cte(q.cte_list[i], mode, oids));
    }
}

/// The oids are asked for exactly if the level itself passes the checks that
/// need none, or some sub-query of its range table or its `WITH` list asks for
/// them.
pub proof fn law_who_needs_oids(q: QueryView, mode: ScoreTopNPushdown)
    ensures
        needs_oids(q, mode) <==> {
            ||| passes_structure(q, mode)
            ||| exists|i: int|
                {
                    &&& 0 <= i < q.rtable.len()
                    &&& (#[trigger] q.rtable[i]).rtekind == RTEKind::Subquery
                    &&& q.rtable[i].subquery is Some
                    &&& needs_oids(*q.rtable[i].subquery->0, mode)
                }
            ||| exists|i: int|
                {
                    &&& 0 <= i < q.cte_list.len()
                    &&& (#[trigger] q.cte_list[i]).ctequery is Query
                    &&& needs_oids(*q.cte_list[i].ctequery->Query_0, mode)
                }
        },
{
}

/// A size limits a search to that many hits, unless it is null or negative.
pub proof fn law_size_limit(size: Option<i64>)
    ensures
        size is Some && size->0 >= 0 ==> size_limit(size) is Some && size_limit(size)->0 == size->0,
        size is None || size->0 < 0 ==> size_limit(size) is None,
{
}

/// The questions of a lookup, by name and by the oids of the types.
pub proof fn law_questions(zdbquery: Oid)
    ensures
        request(0, zdbquery) == (CatalogRequestView::Type { name: "zdbquery"@ }),
        request(1, zdbquery) == (CatalogRequestView::GreaterThan { type_oid: 701 }),
        request(2, zdbquery) == (CatalogRequestView::Function {
            schema: "zdb"@,
            name: "score"@,
            arg_types: seq![27u32],
        }),
        request(3, zdbquery) == (CatalogRequestView::Function {
            schema: "zdb"@,
            name: "anyelement_cmpfunc"@,
            arg_types: seq![2283u32, zdbquery],
        }),
        request(4, zdbquery) == (CatalogRequestView::Function {
            schema: "zdb"@,
            name: "score_topn_limit"@,
            arg_types: seq![20u32, zdbquery],
        }),
        request(5, zdbquery) == (CatalogRequestView::Function {
            schema: "dsl"@,
            name: "limit"@,
            arg_types: seq![20u32, zdbquery],
        }),
        request(6, zdbquery) == (CatalogRequestView::Function {
            schema: "dsl"@,
            name: "offset"@,
            arg_types: seq![20u32, zdbquery],
        }),
        request(7, zdbquery) == (CatalogRequestView::Function {
            schema: "dsl"@,
            name: "offset_limit"@,
            arg_types: seq![20u32, 20u32, zdbquery],
        }),
        request(8, zdbquery) == (CatalogRequestView::Function {
            schema: "pg_catalog"@,
            name: "int8pl"@,
            arg_types: seq![20u32, 20u32],
        }),
{
}

/// A lookup goes on as long as something is found, and no longer: a missing
/// reply, or the oid 0 for the type or the operator, ends it. It finds all oids
/// exactly if nothing ended it, and each as the reply to its own question.
pub proof fn law_lookup_all_or_nothing(replies: Seq<Option<Oid>>)
    requires
        is_transcript(replies),
    ensures
        1 <= replies.len() <= 9,
        forall|i: int|
            0 <= i < replies.len() - 1 ==> (#[trigger] replies[i]) is Some && (i < 2
                ==> replies[i]->0 != 0),
        replies.len() < 9 ==> replies.last() is None || replies.len() <= 2 && replies.last()->0
            == 0,
        resolved(replies) is Some <==> replies.len() == 9 && replies[8] is Some,
        resolved(replies) is Some ==> {
            let oids = resolved(replies)->0;
            &&& replies[0] == Some(oids.zdbquery)
            &&& replies[1] == Some(oids.float8_gt)
            &&& replies[2] == Some(oids.zdb_score)
            &&& replies[3] == Some(oids.anyelement_cmp)
            &&& replies[4] == Some(oids.score_topn_limit)
            &&& replies[5] == Some(oids.dsl_limit)
            &&& replies[6] == Some(oids.dsl_offset)
            &&& replies[7] == Some(oids.dsl_offset_limit)
            &&& replies[8] == Some(oids.int8pl)
        },
{
    assert forall|i: int| 0 <= i < replies.len() - 1 implies (#[trigger] replies[i]) is Some && (i
        < 2 ==> replies[i]->0 != 0) by {
        assert(is_found(i, replies[i]));
    }
    if replies.len() == 9 {
        assert(forall|i: int| 0 <= i < 8 ==> (#[trigger] replies[i]) is Some);
        assert(replies[0] is Some && replies[1] is Some && replies[2] is Some && replies[3] is Some
            && replies[4] is Some && replies[5] is Some && replies[6] is Some
            && replies[7] is Some);
    }
}

/// A reply was given to the very question that it counts for.
pub proof fn law_reply<A: Fn(CatalogRequest) -> Option<Oid>>(
    ask: A,
    index: int,
    zdbquery: Oid,
    reply: Option<Oid>,
)
    ensures
        is_reply(ask, index, zdbquery, reply) <==> exists|asked: CatalogRequest|
            asked@ == request(index, zdbquery) && #[trigger] ask.ensures((asked,), reply),
{
}

/// The view of a question has its name and its types.
pub proof fn law_view_of_request(asked: CatalogRequest)
    ensures
        match asked {
            CatalogRequest::Type { name } => asked@ == (CatalogRequestView::Type { name: name@ }),
            CatalogRequest::GreaterThan { type_oid } => asked@ == (
            CatalogRequestView::GreaterThan { type_oid }),
            CatalogRequest::Function { schema, name, arg_types } => asked@ == (
            CatalogRequestView::Function { schema: schema@, name: name@, arg_types: arg_types@ }),
        },
{
}

/// The view of a node has everything that the node has, each part in its place.
pub proof fn law_view_of_node(node: Node)
    ensures
        node@.host == node.host,
        match node.expr {
            Expr::Const { constisnull, constvalue } => node@.expr == (ExprView::Const {
                constisnull,
                constvalue,
            }),
            Expr::Var { varno, varattno, varlevelsup } => node@.expr == (ExprView::Var {
                varno,
                varattno,
                varlevelsup,
            }),
            Expr::RangeTblRef { rtindex } => node@.expr == (ExprView::RangeTblRef { rtindex }),
            Expr::SubQuery { outer_varnos } => node@.expr == (ExprView::SubQuery {
                outer_varnos: outer_varnos@,
            }),
            Expr::FuncExpr { funcid, funcresulttype, args } => {
                &&& node@.expr is FuncExpr
                &&& node@.expr->FuncExpr_funcid == funcid
                &&& node@.expr->FuncExpr_funcresulttype == funcresulttype
                &&& node@.expr->FuncExpr_args.len() == args@.len()
                &&& forall|i: int|
                    0 <= i < args@.len() ==> #[trigger] node@.expr->FuncExpr_args[i] == args@[i]@
            },
            Expr::OpExpr { opfuncid, args } => {
                &&& node@.expr is OpExpr
                &&& node@.expr->OpExpr_opfuncid == opfuncid
                &&& node@.expr->OpExpr_args.len() == args@.len()
                &&& forall|i: int|
                    0 <= i < args@.len() ==> #[trigger] node@.expr->OpExpr_args[i] == args@[i]@
            },
            Expr::JoinExpr { jointype, larg, rarg, quals } => {
                &&& node@.expr is JoinExpr
                &&& node@.expr->jointype == jointype
                &&& node@.expr->larg is Some == larg is Some
                &&& larg is Some ==> *node@.expr->larg->0 == (*larg->0)@
                &&& node@.expr->rarg is Some == rarg is Some
                &&& rarg is Some ==> *node@.expr->rarg->0 == (*rarg->0)@
                &&& node@.expr->quals is Some == quals is Some
                &&& quals is Some ==> *node@.expr->quals->0 == (*quals->0)@
            },
            Expr::Other { children } => {
                &&& node@.expr is Other
                &&& node@.expr->children.len() == children@.len()
                &&& forall|i: int|
                    0 <= i < children@.len() ==> #[trigger] node@.expr->children[i] == children@[i]@
            },
        },
{
    assert(node@.expr == node.expr@);
    if let Expr::JoinExpr { jointype, larg, rarg, quals } = node.expr {
        if let Some(n) = larg {
            assert(*node@.expr->larg->0 == n@);
        }
        if let Some(n) = rarg {
            assert(*node@.expr->rarg->0 == n@);
        }
        if let Some(n) = quals {
            assert(*node@.expr->quals->0 == n@);
        }
    }
}

/// The view of a query level has everything that the level has, each part in
/// its place.
pub proof fn law_view_of_query(q: Query, i: int)
    ensures
        q@.command_type == q.command_type,
        q@.has_aggs == q.has_aggs,
        q@.has_window_funcs == q.has_window_funcs,
        q@.has_target_srfs == q.has_target_srfs,
        q@.set_operations == q.set_operations,
        q@.group_clause == q.group_clause,
        q@.grouping_sets == q.grouping_sets,
        q@.distinct_clause == q.distinct_clause,
        q@.window_clause == q.window_clause,
        q@.having_qual == q.having_qual,
        q@.row_marks == q.row_marks,
        q@.limit_option == q.limit_option,
        q@.limit_count is Some == q.limit_count is Some,
        q.limit_count is Some ==> q@.limit_count->0 == q.limit_count->0@,
        q@.limit_offset is Some == q.limit_offset is Some,
        q.limit_offset is Some ==> q@.limit_offset->0 == q.limit_offset->0@,
        q@.sort_clause == q.sort_clause@,
        q@.target_list.len() == q.target_list@.len(),
        0 <= i < q.target_list@.len() ==> q@.target_list[i] == q.target_list@[i]@,
        q@.jointree is Some == q.jointree is Some,
        q.jointree is Some ==> q@.jointree->0 == q.jointree->0@,
        q@.rtable.len() == q.rtable@.len(),
        0 <= i < q.rtable@.len() ==> q@.rtable[i] == q.rtable@[i]@,
        q@.cte_list.len() == q.cte_list@.len(),
        0 <= i < q.cte_list@.len() ==> q@.cte_list[i] == q.cte_list@[i]@,
{
}

/// The views of the parts of a query level have everything that the parts have.
pub proof fn law_view_of_parts(
    te: TargetEntry,
    from: FromExpr,
    rte: RangeTblEntry,
    cte: CommonTableExpr,
    i: int,
)
    ensures
        te@.ressortgroupref == te.ressortgroupref,
        te@.expr == te.expr@,
        from@.fromlist.len() == from.fromlist@.len(),
        0 <= i < from.fromlist@.len() ==> from@.fromlist[i] == from.fromlist@[i]@,
        from@.quals is Some == from.quals is Some,
        from.quals is Some ==> from@.quals->0 == from.quals->0@,
        rte@.rtekind == rte.rtekind,
        rte@.security_quals == rte.security_quals,
        rte@.tablesample == rte.tablesample,
        rte@.subquery is Some == rte.subquery is Some,
        rte.subquery is Some ==> *rte@.subquery->0 == (*rte.subquery->0)@,
        match cte.ctequery {
            CteQuery::Absent => cte@.ctequery is Absent,
            CteQuery::Raw => cte@.ctequery is Raw,
            CteQuery::Query(q) => cte@.ctequery is Query && *cte@.ctequery->Query_0 == (*q)@,
        },
{
}

} // verus!
