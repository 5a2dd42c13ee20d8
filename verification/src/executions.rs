//! What the pushdown leaves of the answers of a whole query, whose sub-queries
//! are pushed down at as well.

use vstd::prelude::*;

use crate::answers::{is_run, no_tie_at_cut, scanned_entry, scores};
use crate::answers::{law_no_tie_same_answers, law_same_scores, law_single_key_answers};
use crate::catalog::TopNOids;
use crate::gucs::ScoreTopNPushdown;
use crate::laws::{law_every_level, level_at, Step};
use crate::pushdown::{is_eligible, passes_structure, pushed_down, pushed_level};
use crate::pushdown::{pushed_cte, pushed_rte, sorted_entry};
use crate::semantics::{
    entry_rows,
    is_answer,
    item_rows,
    left_joined,
    level_rows,
    limit_value,
    link_rows,
    may_precede,
    merged,
    offset_value,
    right_joined,
    window,
    Binding,
    World,
};
use crate::seqs::{is_permutation, is_sorted};
use crate::tree::{
    CommonTableExprView,
    CteQueryView,
    ExprView,
    JoinType,
    NodeView,
    QueryView,
    RangeTblEntryView,
};

verus! {

/// Whether two range tables have entries of the same kinds.
spec fn same_kinds(a: Seq<RangeTblEntryView>, b: Seq<RangeTblEntryView>) -> bool {
    &&& a.len() == b.len()
    &&& forall|i: int| 0 <= i < a.len() ==> (#[trigger] a[i]).rtekind == b[i].rtekind
}

/// The joined rows of a `FROM` item depend on no more of the range table than
/// the kinds of its entries.
proof fn lemma_same_item_rows(
    item: NodeView,
    a: Seq<RangeTblEntryView>,
    b: Seq<RangeTblEntryView>,
    w: World,
    outer: Binding,
)
    requires
        same_kinds(a, b),
    ensures
        item_rows(item, a, w, outer) == item_rows(item, b, w, outer),
    decreases item,
{
    match item.expr {
        ExprView::RangeTblRef { rtindex } => {
            let index = rtindex as int;
            if 1 <= index <= a.len() {
                assert(a[index - 1].rtekind == b[index - 1].rtekind);
            }
            assert(entry_rows(a, w, index, outer) == entry_rows(b, w, index, outer));
        },
        ExprView::JoinExpr { jointype: JoinType::Left, larg, rarg, quals } => {
            lemma_same_link_rows(larg, a, b, w, outer);
            let (f, g) = (left_joined(rarg, quals, a, w, outer), left_joined(
                rarg,
                quals,
                b,
                w,
                outer,
            ));
            assert forall|left: Binding| #[trigger] f(left) == g(left) by {
                lemma_same_link_rows(rarg, a, b, w, merged(left, outer));
            }
            assert(f =~= g);
        },
        ExprView::JoinExpr { jointype: JoinType::Right, larg, rarg, quals } => {
            lemma_same_link_rows(rarg, a, b, w, outer);
            lemma_same_link_rows(larg, a, b, w, outer);
            assert(right_joined(larg, quals, a, w, outer) =~= right_joined(
                larg,
                quals,
                b,
                w,
                outer,
            ));
        },
        _ => {},
    }
}

/// [`lemma_same_item_rows`] for an item that may be absent.
proof fn lemma_same_link_rows(
    link: Option<Box<NodeView>>,
    a: Seq<RangeTblEntryView>,
    b: Seq<RangeTblEntryView>,
    w: World,
    outer: Binding,
)
    requires
        same_kinds(a, b),
    ensures
        link_rows(link, a, w, outer) == link_rows(link, b, w, outer),
    decreases link,
{
    if let Some(item) = link {
        lemma_same_item_rows(*item, a, b, w, outer);
    }
}

/// What a level can return does not depend on its sub-queries, other than
/// through the world that it is run on.
proof fn lemma_same_answer(a: QueryView, b: QueryView, w: World, varno: int, out: Seq<Binding>)
    requires
        same_kinds(a.rtable, b.rtable),
        a == (QueryView { rtable: a.rtable, cte_list: a.cte_list, ..b }),
        is_answer(a, w, varno, out),
    ensures
        is_answer(b, w, varno, out),
{
    lemma_same_item_rows(a.jointree->0.fromlist[0], a.rtable, b.rtable, w, Map::empty());
    assert(level_rows(a, w) == level_rows(b, w));
    let sorted = choose|sorted: Seq<Binding>|
        {
            &&& #[trigger] is_permutation(sorted, level_rows(a, w))
            &&& is_sorted(sorted, |x: Binding, y: Binding| may_precede(a, w, varno, x, y))
            &&& out == window(sorted, offset_value(a, w) as int, limit_value(a, w))
        };
    assert(is_permutation(sorted, level_rows(b, w)));
    assert(is_sorted(sorted, |x: Binding, y: Binding| may_precede(b, w, varno, x, y))) by {
        assert forall|i: int, j: int| 0 <= i < j < sorted.len() implies may_precede(
            b,
            w,
            varno,
            #[trigger] sorted[i],
            #[trigger] sorted[j],
        ) by {
            assert(may_precede(a, w, varno, sorted[i], sorted[j]));
        }
    }
}

/// What a level can return once it and its sub-queries are pushed down at is
/// what it can return once it alone is.
proof fn lemma_pushed_answer(
    l: QueryView,
    mode: ScoreTopNPushdown,
    oids: Option<TopNOids>,
    w: World,
    varno: int,
    out: Seq<Binding>,
)
    ensures
        is_answer(pushed_down(l, mode, oids), w, varno, out) == is_answer(
            pushed_level(l, mode, oids),
            w,
            varno,
            out,
        ),
{
    let down = pushed_down(l, mode, oids);
    let level = pushed_level(l, mode, oids);
    assert forall|i: int| 0 <= i < l.rtable.len() implies (#[trigger] down.rtable[i]).rtekind == (
    #[trigger] level.rtable[i]).rtekind by {
        assert(down.rtable[i] == pushed_rte(l.rtable[i], mode, oids));
    }
    if is_answer(down, w, varno, out) {
        lemma_same_answer(down, level, w, varno, out);
    }
    if is_answer(level, w, varno, out) {
        lemma_same_answer(level, down, w, varno, out);
    }
}

/// The exactness of the pushdown at a single sort key, at any depth of a
/// query: whatever the level at a path can return after the pushdown, it can
/// return without it.
pub proof fn law_single_key_answers_everywhere(
    q: QueryView,
    mode: ScoreTopNPushdown,
    oids: TopNOids,
    path: Seq<Step>,
    w: World,
    out: Seq<Binding>,
)
    requires
        level_at(q, path) is Some,
        is_eligible(level_at(q, path)->0, mode, oids),
        is_run(level_at(q, path)->0, w, oids),
        level_at(q, path)->0.sort_clause.len() == 1,
        is_answer(
            level_at(pushed_down(q, mode, Some(oids)), path)->0,
            w,
            scanned_entry(level_at(q, path)->0, oids) as int,
            out,
        ),
    ensures
        level_at(pushed_down(q, mode, Some(oids)), path) is Some,
        is_answer(
            level_at(q, path)->0,
            w,
            scanned_entry(level_at(q, path)->0, oids) as int,
            out,
        ),
{
    let l = level_at(q, path)->0;
    law_every_level(q, mode, Some(oids), path);
    lemma_pushed_answer(l, mode, Some(oids), w, scanned_entry(l, oids) as int, out);
    law_single_key_answers(l, w, mode, oids, out);
}

/// In every mode and at any depth of a query the pushdown keeps the scores:
/// what the level at a path returns after the pushdown has the same score at
/// each place as what it returns without it.
pub proof fn law_same_scores_everywhere(
    q: QueryView,
    mode: ScoreTopNPushdown,
    oids: TopNOids,
    path: Seq<Step>,
    w: World,
    pushed_out: Seq<Binding>,
    out: Seq<Binding>,
)
    requires
        level_at(q, path) is Some,
        is_eligible(level_at(q, path)->0, mode, oids),
        is_run(level_at(q, path)->0, w, oids),
        is_answer(
            level_at(pushed_down(q, mode, Some(oids)), path)->0,
            w,
            scanned_entry(level_at(q, path)->0, oids) as int,
            pushed_out,
        ),
        is_answer(
            level_at(q, path)->0,
            w,
            scanned_entry(level_at(q, path)->0, oids) as int,
            out,
        ),
    ensures
        level_at(pushed_down(q, mode, Some(oids)), path) is Some,
        scores(w, scanned_entry(level_at(q, path)->0, oids) as int, pushed_out) == scores(
            w,
            scanned_entry(level_at(q, path)->0, oids) as int,
            out,
        ),
{
    let l = level_at(q, path)->0;
    law_every_level(q, mode, Some(oids), path);
    lemma_pushed_answer(l, mode, Some(oids), w, scanned_entry(l, oids) as int, pushed_out);
    law_same_scores(l, w, mode, oids, pushed_out, out);
}

/// Where no two hits tie at the cut, the pushdown is exact in every mode and at
/// any depth of a query: the level at a path returns the same with it and
/// without it.
pub proof fn law_no_tie_same_answers_everywhere(
    q: QueryView,
    mode: ScoreTopNPushdown,
    oids: TopNOids,
    path: Seq<Step>,
    w: World,
    out: Seq<Binding>,
)
    requires
        level_at(q, path) is Some,
        is_eligible(level_at(q, path)->0, mode, oids),
        is_run(level_at(q, path)->0, w, oids),
        no_tie_at_cut(level_at(q, path)->0, w, mode, oids),
    ensures
        level_at(pushed_down(q, mode, Some(oids)), path) is Some,
        is_answer(
            level_at(pushed_down(q, mode, Some(oids)), path)->0,
            w,
            scanned_entry(level_at(q, path)->0, oids) as int,
            out,
        ) == is_answer(
            level_at(q, path)->0,
            w,
            scanned_entry(level_at(q, path)->0, oids) as int,
            out,
        ),
{
    let l = level_at(q, path)->0;
    law_every_level(q, mode, Some(oids), path);
    lemma_pushed_answer(l, mode, Some(oids), w, scanned_entry(l, oids) as int, out);
    law_no_tie_same_answers(l, w, mode, oids, out);
}

/// One execution of a whole query. A level may be run more than once, as a
/// lateral sub-query is; its runs are numbered.
pub struct Execution {
    /// What the level at a path is run on. What its sub-queries returned is
    /// part of it.
    pub world: spec_fn(Seq<Step>, int) -> World,
    /// What the level at a path returned.
    pub returned: spec_fn(Seq<Step>, int) -> Seq<Binding>,
    /// What a level that does not sort by a score may return. The level comes
    /// without its sub-queries.
    pub allows: spec_fn(QueryView, World, Seq<Binding>) -> bool,
}

/// Whether a level is a plain `SELECT` from one item with a `WHERE` clause, a
/// `LIMIT`, and the score of an entry as its first sort key.
pub open spec fn is_scored(q: QueryView, oids: TopNOids) -> bool {
    &&& passes_structure(q, ScoreTopNPushdown::primary)
    &&& q.jointree is Some
    &&& q.jointree->0.fromlist.len() == 1
    &&& q.jointree->0.quals is Some
    &&& sorted_entry(q, q.sort_clause[0], oids) is Some
}

/// The level without its sub-queries.
pub open spec fn bare_level(q: QueryView) -> QueryView {
    QueryView {
        rtable: q.rtable.map_values(
            |rte: RangeTblEntryView| RangeTblEntryView { subquery: None, ..rte },
        ),
        cte_list: q.cte_list.map_values(
            |cte: CommonTableExprView|
                match cte.ctequery {
                    CteQueryView::Query(_) => CommonTableExprView {
                        ctequery: CteQueryView::Absent,
                    },
                    _ => cte,
                },
        ),
        ..q
    }
}

/// Whether a level may return what it returned in a run of an execution.
pub open spec fn may_return(
    q: QueryView,
    e: Execution,
    oids: TopNOids,
    path: Seq<Step>,
    run: int,
) -> bool {
    if is_scored(q, oids) {
        is_answer(
            q,
            (e.world)(path, run),
            scanned_entry(q, oids) as int,
            (e.returned)(path, run),
        )
    } else {
        (e.allows)(bare_level(q), (e.world)(path, run), (e.returned)(path, run))
    }
}

/// Whether this is an execution of the query: in every run every level
/// returned what it may return.
///
/// How the world of a level comes from what the levels below it returned is
/// left open. It does not depend on what the pushdown changes.
pub open spec fn is_execution(q: QueryView, e: Execution, oids: TopNOids) -> bool {
    forall|path: Seq<Step>, run: int|
        #![trigger (e.returned)(path, run)]
        level_at(q, path) is Some ==> may_return(level_at(q, path)->0, e, oids, path, run)
}

/// Whether every level that is pushed down at is run as Postgres and the index
/// do.
pub open spec fn is_run_everywhere(
    q: QueryView,
    e: Execution,
    mode: ScoreTopNPushdown,
    oids: TopNOids,
) -> bool {
    forall|path: Seq<Step>, run: int|
        #![trigger (e.world)(path, run)]
        level_at(q, path) is Some && is_eligible(level_at(q, path)->0, mode, oids) ==> is_run(
            level_at(q, path)->0,
            (e.world)(path, run),
            oids,
        )
}

/// Whether no two hits tie at the cut at any level that is pushed down at.
pub open spec fn no_tie_anywhere(
    q: QueryView,
    e: Execution,
    mode: ScoreTopNPushdown,
    oids: TopNOids,
) -> bool {
    forall|path: Seq<Step>, run: int|
        #![trigger (e.world)(path, run)]
        level_at(q, path) is Some && is_eligible(level_at(q, path)->0, mode, oids)
            ==> no_tie_at_cut(level_at(q, path)->0, (e.world)(path, run), mode, oids)
}

/// The pushdown changes neither whether a level sorts by a score nor by which,
/// and a level that it leaves alone stays the same but for its sub-queries.
proof fn lemma_pushed_kind(l: QueryView, mode: ScoreTopNPushdown, oids: TopNOids)
    ensures
        ({
            let down = pushed_down(l, mode, Some(oids));
            &&& is_scored(down, oids) == is_scored(l, oids)
            &&& scanned_entry(down, oids) == scanned_entry(l, oids)
            &&& is_eligible(l, mode, oids) ==> is_scored(l, oids)
            &&& !is_eligible(l, mode, oids) ==> bare_level(down) == bare_level(l)
        }),
{
    let down = pushed_down(l, mode, Some(oids));
    assert(sorted_entry(down, down.sort_clause[0], oids) == sorted_entry(
        l,
        l.sort_clause[0],
        oids,
    ));
    if !is_eligible(l, mode, oids) {
        let (a, b) = (bare_level(down), bare_level(l));
        assert forall|i: int| 0 <= i < a.rtable.len() implies #[trigger] a.rtable[i]
            == b.rtable[i] by {
            assert(down.rtable[i] == pushed_rte(l.rtable[i], mode, Some(oids)));
        }
        assert(a.rtable =~= b.rtable);
        assert forall|i: int| 0 <= i < a.cte_list.len() implies #[trigger] a.cte_list[i]
            == b.cte_list[i] by {
            assert(down.cte_list[i] == pushed_cte(l.cte_list[i], mode, Some(oids)));
        }
        assert(a.cte_list =~= b.cte_list);
    }
}

/// In the strict mode the pushdown is exact for whole queries: every execution
/// of what it makes of a query is an execution of the query.
pub proof fn law_same_executions(q: QueryView, e: Execution, oids: TopNOids)
    requires
        is_run_everywhere(q, e, ScoreTopNPushdown::strict, oids),
        is_execution(pushed_down(q, ScoreTopNPushdown::strict, Some(oids)), e, oids),
    ensures
        is_execution(q, e, oids),
{
    let mode = ScoreTopNPushdown::strict;
    let pushed = pushed_down(q, mode, Some(oids));
    assert forall|path: Seq<Step>, run: int|
        #![trigger (e.returned)(path, run)]
        level_at(q, path) is Some implies may_return(
        level_at(q, path)->0,
        e,
        oids,
        path,
        run,
    ) by {
        let l = level_at(q, path)->0;
        let (w, out) = ((e.world)(path, run), (e.returned)(path, run));
        let varno = scanned_entry(l, oids) as int;
        law_every_level(q, mode, Some(oids), path);
        lemma_pushed_kind(l, mode, oids);
        assert(may_return(level_at(pushed, path)->0, e, oids, path, run));
        lemma_pushed_answer(l, mode, Some(oids), w, varno, out);
        if is_eligible(l, mode, oids) {
            law_single_key_answers(l, w, mode, oids, out);
        }
    }
}

/// Where no two hits tie at the cut, the pushdown is exact for whole queries
/// in every mode: a query has the same executions with it and without it.
pub proof fn law_no_tie_same_executions(
    q: QueryView,
    e: Execution,
    mode: ScoreTopNPushdown,
    oids: TopNOids,
)
    requires
        is_run_everywhere(q, e, mode, oids),
        no_tie_anywhere(q, e, mode, oids),
    ensures
        is_execution(pushed_down(q, mode, Some(oids)), e, oids) == is_execution(q, e, oids),
{
    let pushed = pushed_down(q, mode, Some(oids));
    assert forall|path: Seq<Step>, run: int|
        #![trigger (e.returned)(path, run)]
        level_at(q, path) is Some == level_at(pushed, path) is Some && (level_at(q, path) is Some
            ==> may_return(level_at(q, path)->0, e, oids, path, run) == may_return(
            level_at(pushed, path)->0,
            e,
            oids,
            path,
            run,
        )) by {
        law_every_level(q, mode, Some(oids), path);
        if level_at(q, path) is Some {
            let l = level_at(q, path)->0;
            let (w, out) = ((e.world)(path, run), (e.returned)(path, run));
            let varno = scanned_entry(l, oids) as int;
            lemma_pushed_kind(l, mode, oids);
            lemma_pushed_answer(l, mode, Some(oids), w, varno, out);
            if is_eligible(l, mode, oids) {
                law_no_tie_same_answers(l, w, mode, oids, out);
            }
        }
    }
}

} // verus!
