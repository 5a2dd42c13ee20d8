//! What the rewrite of a query guarantees, whatever the query is run on.

use vstd::prelude::*;

use crate::catalog::TopNOids;
use crate::gucs::ScoreTopNPushdown;
use crate::pushdown::{
    constant_sum_fits,
    constant_value,
    is_eligible,
    is_null_constant,
    is_safe_path,
    limited,
    pushed_cte,
    pushed_ctes,
    pushed_down,
    pushed_level,
    pushed_rtable,
    pushed_rte,
    search_rhs,
    size_expr,
    sorted_entry,
    with_search_rhs,
};
use crate::scan::{call_count, has_explicit_limit, is_limit_call};
use crate::scan::{mentions_no_columns, mentions_only, nodes, nodes_of_from};
use crate::tree::{
    CmdType,
    CommonTableExprView,
    CteQueryView,
    LimitOption,
    QueryView,
    RTEKind,
    RangeTblEntryView,
};

verus! {

/// Pushing down at a level changes nothing but the right side of its `==>`:
/// put back, it gives the level again. In particular `LIMIT`, `OFFSET` and
/// `ORDER BY` stay, and Postgres still applies them.
pub proof fn law_only_rhs_changes(q: QueryView, mode: ScoreTopNPushdown, oids: Option<TopNOids>)
    ensures
        ({
            let pushed = pushed_level(q, mode, oids);
            let args = q.jointree->0.quals->0.expr->OpExpr_args;
            let pushed_args = pushed.jointree->0.quals->0.expr->OpExpr_args;
            ||| pushed == q
            ||| {
                &&& oids is Some
                &&& is_eligible(q, mode, oids->0)
                &&& args.len() == 2 && pushed_args.len() == 2
                &&& pushed_args[0] == args[0]
                &&& pushed_args[1] == limited(size_expr(q, oids->0), args[1], oids->0)
                &&& with_search_rhs(pushed, args[1]) == q
                &&& pushed == (QueryView { jointree: pushed.jointree, ..q })
            }
        }),
{
    let pushed = pushed_level(q, mode, oids);
    let args = q.jointree->0.quals->0.expr->OpExpr_args;
    if oids is Some && is_eligible(q, mode, oids->0) {
        assert(args.update(1, search_rhs(pushed)).update(1, args[1]) =~= args);
    }
}

/// The pushdown happens only where nothing between the index scan and the
/// `LIMIT` can remove rows, the score is sorted by, and the application has
/// set no limit of its own.
pub proof fn law_only_where_safe(q: QueryView, mode: ScoreTopNPushdown, oids: TopNOids)
    requires
        pushed_level(q, mode, Some(oids)) != q,
    ensures
        mode != ScoreTopNPushdown::off,
        q.command_type == CmdType::Select,
        !q.has_aggs && !q.has_window_funcs && !q.has_target_srfs,
        !q.set_operations && !q.group_clause && !q.grouping_sets && !q.distinct_clause,
        !q.window_clause && !q.having_qual && !q.row_marks,
        q.limit_option == LimitOption::Count,
        q.limit_count is Some,
        !is_null_constant(q.limit_count->0),
        q.sort_clause.len() >= 1,
        mode == ScoreTopNPushdown::strict ==> q.sort_clause.len() == 1,
        q.sort_clause[0].sortop == oids.float8_gt,
        sorted_entry(q, q.sort_clause[0], oids) is Some,
        ({
            let varno = sorted_entry(q, q.sort_clause[0], oids)->0;
            let from = q.jointree->0;
            &&& 1 <= varno <= q.rtable.len()
            &&& q.rtable[varno - 1].rtekind == RTEKind::Relation
            &&& !q.rtable[varno - 1].security_quals
            &&& !q.rtable[varno - 1].tablesample
            &&& from.fromlist.len() == 1
            &&& is_safe_path(from.fromlist[0], varno)
            &&& mentions_only(from.quals->0.expr->OpExpr_args[0], varno)
            &&& mentions_no_columns(search_rhs(q))
            &&& call_count(nodes_of_from(from), seq![oids.anyelement_cmp], true) == 1
        }),
        !has_explicit_limit(search_rhs(q), oids),
        constant_sum_fits(q),
{
}

/// A level whose constant `LIMIT` and `OFFSET` have a sum that is no `int8` is
/// left alone: it runs as it does with the pushdown switched off, while asking
/// for that many hits would be an error.
pub proof fn law_no_size_no_pushdown(
    q: QueryView,
    mode: ScoreTopNPushdown,
    oids: Option<TopNOids>,
    limit: i64,
    offset: i64,
)
    requires
        q.limit_count is Some && constant_value(q.limit_count->0) == Some(limit),
        q.limit_offset is Some && constant_value(q.limit_offset->0) == Some(offset),
        limit + offset > i64::MAX,
    ensures
        pushed_level(q, mode, oids) == q,
{
}

/// A limit or an offset that the application has set anywhere in the search
/// stays in control: the level is left alone.
pub proof fn law_explicit_limit_wins(
    q: QueryView,
    mode: ScoreTopNPushdown,
    oids: TopNOids,
    i: int,
)
    requires
        0 <= i < nodes(search_rhs(q)).len(),
        is_limit_call(nodes(search_rhs(q))[i], oids),
    ensures
        pushed_level(q, mode, Some(oids)) == q,
{
}

/// What the strict mode pushes down, the primary mode pushes down alike.
pub proof fn law_strict_within_primary(q: QueryView, oids: TopNOids)
    requires
        is_eligible(q, ScoreTopNPushdown::strict, oids),
    ensures
        is_eligible(q, ScoreTopNPushdown::primary, oids),
        pushed_level(q, ScoreTopNPushdown::primary, Some(oids)) == pushed_level(
            q,
            ScoreTopNPushdown::strict,
            Some(oids),
        ),
{
}

/// Switched off, or while the catalog objects do not exist, the pushdown
/// changes nothing at any level.
pub proof fn law_off_or_unresolved(
    q: QueryView,
    mode: ScoreTopNPushdown,
    oids: Option<TopNOids>,
)
    requires
        mode == ScoreTopNPushdown::off || oids is None,
    ensures
        pushed_down(q, mode, oids) == q,
    decreases q,
{
    law_off_or_unresolved_rtable(q.rtable, mode, oids);
    law_off_or_unresolved_ctes(q.cte_list, mode, oids);
}

/// [`law_off_or_unresolved`] for what is below a range table.
proof fn law_off_or_unresolved_rtable(
    rtable: Seq<RangeTblEntryView>,
    mode: ScoreTopNPushdown,
    oids: Option<TopNOids>,
)
    requires
        mode == ScoreTopNPushdown::off || oids is None,
    ensures
        pushed_rtable(rtable, mode, oids) == rtable,
    decreases rtable,
{
    let pushed = pushed_rtable(rtable, mode, oids);
    assert forall|i: int| 0 <= i < rtable.len() implies pushed[i] == #[trigger] rtable[i] by {
        let rte = rtable[i];
        if let Some(subquery) = rte.subquery {
            law_off_or_unresolved(*subquery, mode, oids);
        }
        assert(pushed_rte(rte, mode, oids) == rte);
    }
    assert(pushed =~= rtable);
}

/// [`law_off_or_unresolved`] for what is below a `WITH` list.
proof fn law_off_or_unresolved_ctes(
    ctes: Seq<CommonTableExprView>,
    mode: ScoreTopNPushdown,
    oids: Option<TopNOids>,
)
    requires
        mode == ScoreTopNPushdown::off || oids is None,
    ensures
        pushed_ctes(ctes, mode, oids) == ctes,
    decreases ctes,
{
    let pushed = pushed_ctes(ctes, mode, oids);
    assert forall|i: int| 0 <= i < ctes.len() implies pushed[i] == #[trigger] ctes[i] by {
        let cte = ctes[i];
        if let CteQueryView::Query(q) = cte.ctequery {
            law_off_or_unresolved(*q, mode, oids);
        }
        assert(pushed_cte(cte, mode, oids) == cte);
    }
    assert(pushed =~= ctes);
}

/// Whether two range table entries are the same, but for their sub-queries.
spec fn same_entry(a: RangeTblEntryView, b: RangeTblEntryView) -> bool {
    a == (RangeTblEntryView { subquery: a.subquery, ..b })
}

/// What the pushdown has done at a level it does not do again there, even if
/// the levels below have changed meanwhile.
proof fn lemma_level_done(
    q: QueryView,
    mode: ScoreTopNPushdown,
    oids: TopNOids,
    rtable: Seq<RangeTblEntryView>,
    cte_list: Seq<CommonTableExprView>,
)
    requires
        rtable.len() == q.rtable.len(),
        forall|i: int|
            0 <= i < rtable.len() ==> same_entry(#[trigger] rtable[i], q.rtable[i]),
    ensures
        ({
            let done = QueryView { rtable, cte_list, ..pushed_level(q, mode, Some(oids)) };
            pushed_level(done, mode, Some(oids)) == done
        }),
{
    let done = QueryView { rtable, cte_list, ..pushed_level(q, mode, Some(oids)) };
    if is_eligible(q, mode, oids) {
        let rhs = search_rhs(done);
        assert(rhs == limited(size_expr(q, oids), search_rhs(q), oids));
        assert(nodes(rhs)[0] == rhs);
        assert(is_limit_call(nodes(rhs)[0], oids));
    } else {
        assert(sorted_entry(done, done.sort_clause[0], oids) == sorted_entry(
            q,
            q.sort_clause[0],
            oids,
        ));
    }
}

/// Pushing down twice is pushing down once: nothing is wrapped twice.
pub proof fn law_idempotent(q: QueryView, mode: ScoreTopNPushdown, oids: Option<TopNOids>)
    ensures
        pushed_down(pushed_down(q, mode, oids), mode, oids) == pushed_down(q, mode, oids),
    decreases q,
{
    let once = pushed_down(q, mode, oids);
    law_idempotent_rtable(q.rtable, mode, oids);
    law_idempotent_ctes(q.cte_list, mode, oids);
    if let Some(found) = oids {
        assert forall|i: int| 0 <= i < once.rtable.len() implies same_entry(
            #[trigger] once.rtable[i],
            q.rtable[i],
        ) by {
            assert(once.rtable[i] == pushed_rte(q.rtable[i], mode, oids));
        }
        lemma_level_done(q, mode, found, once.rtable, once.cte_list);
    }
}

/// [`law_idempotent`] for what is below a range table.
proof fn law_idempotent_rtable(
    rtable: Seq<RangeTblEntryView>,
    mode: ScoreTopNPushdown,
    oids: Option<TopNOids>,
)
    ensures
        pushed_rtable(pushed_rtable(rtable, mode, oids), mode, oids) == pushed_rtable(
            rtable,
            mode,
            oids,
        ),
    decreases rtable,
{
    let once = pushed_rtable(rtable, mode, oids);
    let twice = pushed_rtable(once, mode, oids);
    assert forall|i: int| 0 <= i < rtable.len() implies twice[i] == #[trigger] once[i] by {
        let rte = rtable[i];
        assert(once[i] == pushed_rte(rte, mode, oids));
        assert(twice[i] == pushed_rte(once[i], mode, oids));
        if let Some(subquery) = rte.subquery {
            law_idempotent(*subquery, mode, oids);
        }
    }
    assert(twice =~= once);
}

/// [`law_idempotent`] for what is below a `WITH` list.
proof fn law_idempotent_ctes(
    ctes: Seq<CommonTableExprView>,
    mode: ScoreTopNPushdown,
    oids: Option<TopNOids>,
)
    ensures
        pushed_ctes(pushed_ctes(ctes, mode, oids), mode, oids) == pushed_ctes(ctes, mode, oids),
    decreases ctes,
{
    let once = pushed_ctes(ctes, mode, oids);
    let twice = pushed_ctes(once, mode, oids);
    assert forall|i: int| 0 <= i < ctes.len() implies twice[i] == #[trigger] once[i] by {
        let cte = ctes[i];
        assert(once[i] == pushed_cte(cte, mode, oids));
        assert(twice[i] == pushed_cte(once[i], mode, oids));
        if let CteQueryView::Query(q) = cte.ctequery {
            law_idempotent(*q, mode, oids);
        }
    }
    assert(twice =~= once);
}

/// A way from a query level to one right below it.
pub enum Step {
    /// Into the sub-query of a range table entry.
    Rte(int),
    /// Into the query of a `WITH` item.
    Cte(int),
}

/// The query level that is one step below, if there is one.
pub open spec fn level_below(q: QueryView, step: Step) -> Option<QueryView> {
    match step {
        Step::Rte(i) => if 0 <= i < q.rtable.len() && q.rtable[i].rtekind == RTEKind::Subquery
            && q.rtable[i].subquery is Some {
            Some(*q.rtable[i].subquery->0)
        } else {
            None
        },
        Step::Cte(i) => if 0 <= i < q.cte_list.len() && q.cte_list[i].ctequery is Query {
            Some(*q.cte_list[i].ctequery->Query_0)
        } else {
            None
        },
    }
}

/// The query level at the end of a path, if there is one.
pub open spec fn level_at(q: QueryView, path: Seq<Step>) -> Option<QueryView>
    decreases path.len(),
{
    if path.len() == 0 {
        Some(q)
    } else {
        match level_below(q, path[0]) {
            Some(below) => level_at(below, path.drop_first()),
            None => None,
        }
    }
}

/// The level at a path of the result comes from the level at that path of the
/// query.
proof fn lemma_level_at(
    q: QueryView,
    mode: ScoreTopNPushdown,
    oids: Option<TopNOids>,
    path: Seq<Step>,
)
    ensures
        level_at(pushed_down(q, mode, oids), path) == (match level_at(q, path) {
            Some(level) => Some(pushed_down(level, mode, oids)),
            None => None,
        }),
    decreases path.len(),
{
    if path.len() > 0 {
        let pushed = pushed_down(q, mode, oids);
        match path[0] {
            Step::Rte(i) => if 0 <= i < q.rtable.len() {
                assert(pushed.rtable[i] == pushed_rte(q.rtable[i], mode, oids));
            },
            Step::Cte(i) => if 0 <= i < q.cte_list.len() {
                assert(pushed.cte_list[i] == pushed_cte(q.cte_list[i], mode, oids));
            },
        }
        if let Some(below) = level_below(q, path[0]) {
            lemma_level_at(below, mode, oids, path.drop_first());
        }
    }
}

/// Every level is pushed down at for its own sake, however deep it is: the
/// level at any path of the result is what the pushdown makes of the level at
/// that path of the query, and but for its own sub-queries it is what the
/// pushdown at that level alone makes of it.
pub proof fn law_every_level(
    q: QueryView,
    mode: ScoreTopNPushdown,
    oids: Option<TopNOids>,
    path: Seq<Step>,
)
    ensures
        level_at(pushed_down(q, mode, oids), path) == (match level_at(q, path) {
            Some(level) => Some(pushed_down(level, mode, oids)),
            None => None,
        }),
        level_at(q, path) is Some ==> {
            let level = level_at(q, path)->0;
            let after = level_at(pushed_down(q, mode, oids), path)->0;
            after == (QueryView {
                rtable: after.rtable,
                cte_list: after.cte_list,
                ..pushed_level(level, mode, oids)
            })
        },
{
    lemma_level_at(q, mode, oids, path);
}

} // verus!
