//! What the pushdown leaves of the answers of a query level: all of them, but
//! for how ties are broken.

use vstd::prelude::*;

use crate::catalog::TopNOids;
use crate::gucs::ScoreTopNPushdown;
use crate::limit::size_limit;
use crate::meanings::law_sort_key;
use crate::pushdown::{is_eligible, is_safe_path, limited, pushed_level, search_rhs, size_expr};
use crate::pushdown::{constant_sum_fits, has_constant_size, is_search, sorted_entry};
use crate::scan::{mentions_no_columns, nodes, nodes_below, nodes_of};
use crate::scan::{reads_elsewhere, reads_entry, reads_level};
use crate::semantics::{
    adds,
    agree_on,
    has_constants,
    is_answer,
    item_rows,
    keeps_best,
    left_joined,
    level_rows,
    limit_value,
    link_rows,
    may_precede,
    merged,
    offset_value,
    outer_joined,
    reads_what_it_mentions,
    right_joined,
    window,
    Binding,
    World,
};
use crate::seqs::{
    flat,
    is_permutation,
    is_sorted,
    is_total_preorder,
    lemma_filter_all,
    lemma_filter_filter,
    lemma_filter_narrower,
    lemma_filter_none,
    lemma_filter_prefix,
    lemma_filter_same,
    lemma_filter_source,
    lemma_filter_split,
    lemma_flat_filter,
    lemma_flat_flat,
    lemma_flat_len,
    lemma_flat_same,
    lemma_flat_source,
    lemma_flat_target,
    lemma_multiset_add,
    lemma_permutation_filter,
    lemma_permutation_len,
    lemma_permutation_source,
    lemma_sort,
};
use crate::tree::{
    ExprView,
    JoinType,
    NodeView,
    QueryView,
    RTEKind,
    RangeTblEntryView,
};

verus! {

/// What one row of the scanned relation contributes to a `FROM` item.
spec fn contribution(
    item: NodeView,
    rtable: Seq<RangeTblEntryView>,
    w: World,
    varno: i32,
    row: int,
    outer: Binding,
) -> Seq<Binding>
    decreases item,
{
    match item.expr {
        ExprView::JoinExpr { jointype: JoinType::Left, larg: Some(larg), rarg, quals } => flat(
            contribution(*larg, rtable, w, varno, row, outer),
            left_joined(rarg, quals, rtable, w, outer),
        ),
        ExprView::JoinExpr { jointype: JoinType::Right, larg, rarg: Some(rarg), quals } => flat(
            contribution(*rarg, rtable, w, varno, row, outer),
            right_joined(larg, quals, rtable, w, outer),
        ),
        _ => seq![map![varno as int => row]],
    }
}

/// A row of the outer side of a join comes out at least once, and every row
/// that it becomes still binds the scanned relation to the same row.
proof fn lemma_outer_joined(
    w: World,
    quals: Option<Box<NodeView>>,
    kept: Binding,
    others: Seq<Binding>,
    varno: int,
)
    requires
        kept.dom().contains(varno),
    ensures
        outer_joined(w, quals, kept, others).len() >= 1,
        forall|i: int|
            0 <= i < outer_joined(w, quals, kept, others).len() ==> {
                let row = #[trigger] outer_joined(w, quals, kept, others)[i];
                row.dom().contains(varno) && row[varno] == kept[varno]
            },
{
}

/// Along a safe path every row of the scanned relation contributes something,
/// and what it contributes binds the relation to that row.
proof fn lemma_contribution(
    item: NodeView,
    rtable: Seq<RangeTblEntryView>,
    w: World,
    varno: i32,
    row: int,
    outer: Binding,
)
    requires
        is_safe_path(item, varno),
    ensures
        contribution(item, rtable, w, varno, row, outer).len() >= 1,
        forall|i: int|
            0 <= i < contribution(item, rtable, w, varno, row, outer).len() ==> {
                let b = #[trigger] contribution(item, rtable, w, varno, row, outer)[i];
                b.dom().contains(varno as int) && b[varno as int] == row
            },
    decreases item,
{
    match item.expr {
        ExprView::JoinExpr { jointype: JoinType::Left, larg: Some(larg), rarg, quals } => {
            lemma_contribution(*larg, rtable, w, varno, row, outer);
            let kept = contribution(*larg, rtable, w, varno, row, outer);
            let step = left_joined(rarg, quals, rtable, w, outer);
            assert forall|i: int| 0 <= i < kept.len() implies step(#[trigger] kept[i]).len()
                >= 1 && forall|j: int|
                0 <= j < step(kept[i]).len() ==> {
                    let b = #[trigger] step(kept[i])[j];
                    b.dom().contains(varno as int) && b[varno as int] == row
                } by {
                lemma_outer_joined(
                    w,
                    quals,
                    kept[i],
                    link_rows(rarg, rtable, w, merged(kept[i], outer)),
                    varno as int,
                );
            }
            lemma_joined_contribution(kept, step, varno as int, row);
        },
        ExprView::JoinExpr { jointype: JoinType::Right, larg, rarg: Some(rarg), quals } => {
            lemma_contribution(*rarg, rtable, w, varno, row, outer);
            let kept = contribution(*rarg, rtable, w, varno, row, outer);
            let step = right_joined(larg, quals, rtable, w, outer);
            assert forall|i: int| 0 <= i < kept.len() implies step(#[trigger] kept[i]).len()
                >= 1 && forall|j: int|
                0 <= j < step(kept[i]).len() ==> {
                    let b = #[trigger] step(kept[i])[j];
                    b.dom().contains(varno as int) && b[varno as int] == row
                } by {
                lemma_outer_joined(
                    w,
                    quals,
                    kept[i],
                    link_rows(larg, rtable, w, outer),
                    varno as int,
                );
            }
            lemma_joined_contribution(kept, step, varno as int, row);
        },
        _ => {},
    }
}

/// One join step on the way: nothing is lost, and the binding stays.
proof fn lemma_joined_contribution(
    kept: Seq<Binding>,
    step: spec_fn(Binding) -> Seq<Binding>,
    varno: int,
    row: int,
)
    requires
        kept.len() >= 1,
        forall|i: int|
            0 <= i < kept.len() ==> step(#[trigger] kept[i]).len() >= 1 && forall|j: int|
                0 <= j < step(kept[i]).len() ==> {
                    let b = #[trigger] step(kept[i])[j];
                    b.dom().contains(varno) && b[varno] == row
                },
    ensures
        flat(kept, step).len() >= 1,
        forall|k: int|
            0 <= k < flat(kept, step).len() ==> {
                let b = #[trigger] flat(kept, step)[k];
                b.dom().contains(varno) && b[varno] == row
            },
{
    lemma_flat_len(kept, step);
    assert forall|k: int| 0 <= k < flat(kept, step).len() implies {
        let b = #[trigger] flat(kept, step)[k];
        b.dom().contains(varno) && b[varno] == row
    } by {
        lemma_flat_source(kept, step, k);
        let (i, j) = choose|i: int, j: int|
            0 <= i < kept.len() && 0 <= j < step(kept[i]).len() && #[trigger] step(kept[i])[j]
                == flat(kept, step)[k];
        let k0 = kept[i];
        assert(step(k0)[j] == flat(kept, step)[k]);
    }
}

/// One binding for each row.
proof fn lemma_bindings(rows: Seq<int>, varno: int)
    ensures
        rows.map_values(|row: int| map![varno => row]) == flat(
            rows,
            |row: int| seq![map![varno => row]],
        ),
    decreases rows.len(),
{
    let bind = |row: int| map![varno => row];
    let one = |row: int| seq![map![varno => row]];
    if rows.len() > 0 {
        lemma_bindings(rows.drop_last(), varno);
        assert(rows.map_values(bind) =~= rows.drop_last().map_values(bind) + one(rows.last()));
    } else {
        assert(rows.map_values(bind) =~= Seq::empty());
    }
}

/// Along a safe path the joined rows are what the rows of the scanned relation
/// contribute, one after the other.
proof fn lemma_item_rows(
    item: NodeView,
    rtable: Seq<RangeTblEntryView>,
    w: World,
    varno: i32,
    outer: Binding,
)
    requires
        is_safe_path(item, varno),
        1 <= varno <= rtable.len(),
        rtable[varno - 1].rtekind == RTEKind::Relation,
    ensures
        item_rows(item, rtable, w, outer) == flat(
            (w.relation)(varno as int),
            |row: int| contribution(item, rtable, w, varno, row, outer),
        ),
    decreases item,
{
    let rows = (w.relation)(varno as int);
    let whole = |row: int| contribution(item, rtable, w, varno, row, outer);
    match item.expr {
        ExprView::JoinExpr { jointype: JoinType::Left, larg: Some(larg), rarg, quals } => {
            lemma_item_rows(*larg, rtable, w, varno, outer);
            let part = |row: int| contribution(*larg, rtable, w, varno, row, outer);
            let step = left_joined(rarg, quals, rtable, w, outer);
            lemma_flat_flat(rows, part, step);
            lemma_flat_same(rows, |row: int| flat(part(row), step), whole);
        },
        ExprView::JoinExpr { jointype: JoinType::Right, larg, rarg: Some(rarg), quals } => {
            lemma_item_rows(*rarg, rtable, w, varno, outer);
            let part = |row: int| contribution(*rarg, rtable, w, varno, row, outer);
            let step = right_joined(larg, quals, rtable, w, outer);
            lemma_flat_flat(rows, part, step);
            lemma_flat_same(rows, |row: int| flat(part(row), step), whole);
        },
        _ => {
            lemma_bindings(rows, varno as int);
            lemma_flat_same(rows, |row: int| seq![map![varno as int => row]], whole);
        },
    }
}

/// A safe join path keeps the scanned relation whole: each of its rows comes
/// out in some joined row, and each joined row has one of its rows.
pub proof fn law_safe_path_keeps_rows(
    item: NodeView,
    rtable: Seq<RangeTblEntryView>,
    w: World,
    varno: i32,
    outer: Binding,
)
    requires
        is_safe_path(item, varno),
        1 <= varno <= rtable.len(),
        rtable[varno - 1].rtekind == RTEKind::Relation,
    ensures
        forall|i: int|
            0 <= i < (w.relation)(varno as int).len() ==> exists|k: int|
                0 <= k < item_rows(item, rtable, w, outer).len() && (#[trigger] item_rows(
                    item,
                    rtable,
                    w,
                    outer,
                )[k])[varno as int] == #[trigger] (w.relation)(varno as int)[i],
        forall|k: int|
            0 <= k < item_rows(item, rtable, w, outer).len() ==> {
                let row = #[trigger] item_rows(item, rtable, w, outer)[k];
                row.dom().contains(varno as int) && (w.relation)(varno as int).contains(
                    row[varno as int],
                )
            },
{
    let rows = (w.relation)(varno as int);
    let joined = item_rows(item, rtable, w, outer);
    let part = |row: int| contribution(item, rtable, w, varno, row, outer);
    lemma_item_rows(item, rtable, w, varno, outer);
    assert forall|i: int| 0 <= i < rows.len() implies exists|k: int|
        0 <= k < joined.len() && (#[trigger] joined[k])[varno as int] == #[trigger] rows[i] by {
        lemma_contribution(item, rtable, w, varno, rows[i], outer);
        lemma_flat_target(rows, part, i, 0);
        let k = choose|k: int|
            0 <= k < joined.len() && #[trigger] joined[k] == part(rows[i])[0];
        assert(contribution(item, rtable, w, varno, rows[i], outer)[0] == joined[k]);
    }
    assert forall|k: int| 0 <= k < joined.len() implies {
        let row = #[trigger] joined[k];
        row.dom().contains(varno as int) && rows.contains(row[varno as int])
    } by {
        lemma_flat_source(rows, part, k);
        let (i, j) = choose|i: int, j: int|
            0 <= i < rows.len() && 0 <= j < part(rows[i]).len() && #[trigger] part(rows[i])[j]
                == joined[k];
        lemma_contribution(item, rtable, w, varno, rows[i], outer);
        assert(contribution(item, rtable, w, varno, rows[i], outer)[j] == joined[k]);
    }
}

/// Which rows of the scanned relation a search picks.
pub open spec fn picked(w: World, search: NodeView, varno: i32) -> spec_fn(int) -> bool {
    |row: int| (w.holds)(search, map![varno as int => row])
}

/// The entry whose score a level sorts by.
pub open spec fn scanned_entry(q: QueryView, oids: TopNOids) -> i32 {
    sorted_entry(q, q.sort_clause[0], oids)->0
}

/// The `==>` of a level.
pub open spec fn search_of(q: QueryView) -> NodeView {
    q.jointree->0.quals->0
}

/// Whether the world runs the level, and what the pushdown makes of it, as
/// Postgres and the index do:
///
/// - `LIMIT` and `OFFSET` mention no columns and are not negative, since
///   Postgres refuses to run the level otherwise;
/// - constants have their values;
/// - unless both are constants, which the pushdown looks at, the sum of
///   `LIMIT` and `OFFSET` is an `int8`: where it is not, `int8pl` reports an
///   error in what the pushdown makes of the level, though not in the level
///   itself;
/// - conditions read what they mention;
/// - the later sort keys compare any two rows;
/// - `int8pl` adds;
/// - the index gives the limited search its best hits.
pub open spec fn is_run(q: QueryView, w: World, oids: TopNOids) -> bool {
    let varno = scanned_entry(q, oids);
    let search = search_of(q);
    let limit = q.limit_count->0;
    let size = match q.limit_offset {
        Some(offset) => NodeView {
            host: 0,
            expr: ExprView::FuncExpr {
                funcid: oids.int8pl,
                funcresulttype: 20,
                args: seq![offset, limit],
            },
        },
        None => limit,
    };
    let limited_rhs = NodeView {
        host: 0,
        expr: ExprView::FuncExpr {
            funcid: oids.score_topn_limit,
            funcresulttype: oids.zdbquery,
            args: seq![size, search.expr->OpExpr_args[1]],
        },
    };
    let limited_search = NodeView {
        host: search.host,
        expr: ExprView::OpExpr {
            opfuncid: search.expr->OpExpr_opfuncid,
            args: seq![search.expr->OpExpr_args[0], limited_rhs],
        },
    };
    &&& mentions_no_columns(q.limit_count->0)
    &&& q.limit_offset is Some ==> mentions_no_columns(q.limit_offset->0)
    &&& limit_value(q, w) is Some ==> limit_value(q, w)->0 >= 0
    &&& offset_value(q, w) >= 0
    &&& has_constants(w)
    &&& limit_value(q, w) is Some && !has_constant_size(q) ==> limit_value(q, w)->0
        + offset_value(q, w) <= i64::MAX
    &&& reads_what_it_mentions(w, search)
    &&& reads_what_it_mentions(w, limited_search)
    &&& q.sort_clause.len() > 1 ==> is_total_preorder(
        |a: Binding, b: Binding| (w.precedes)(q.sort_clause.skip(1), a, b),
    )
    &&& adds(w, oids)
    &&& keeps_best(
        w,
        (w.relation)(varno as int),
        picked(w, search, varno),
        picked(w, limited_search, varno),
        size_limit((w.value)(size)),
    )
}

/// The nodes of two nodes in a row.
proof fn lemma_nodes_of_two(a: NodeView, b: NodeView)
    ensures
        nodes_of(seq![a, b]) == nodes(a) + nodes(b),
{
    reveal_with_fuel(nodes_of, 3);
    assert(seq![a, b].drop_last() =~= seq![a]);
    assert(seq![a].drop_last() =~= Seq::<NodeView>::empty());
    assert(nodes_of(seq![a, b]) =~= nodes(a) + nodes(b));
}

/// A call on two expressions without columns is one without columns.
proof fn lemma_call_mentions_no_columns(call: NodeView, a: NodeView, b: NodeView)
    requires
        call.expr is FuncExpr,
        call.expr->FuncExpr_args == seq![a, b],
        mentions_no_columns(a),
        mentions_no_columns(b),
    ensures
        mentions_no_columns(call),
{
    lemma_nodes_of_two(a, b);
    assert(nodes_below(call.expr) == nodes(a) + nodes(b));
    assert(nodes(call) == seq![call] + (nodes(a) + nodes(b)));
    assert forall|i: int| 0 <= i < nodes(call).len() implies !reads_level(
        #[trigger] nodes(call)[i],
    ) by {
        if i == 0 {
        } else if i - 1 < nodes(a).len() {
            assert(nodes(call)[i] == nodes(a)[i - 1]);
        } else {
            assert(nodes(call)[i] == nodes(b)[i - 1 - nodes(a).len()]);
        }
    }
}

/// The truth of a search depends on the row of the scanned relation alone.
proof fn lemma_search_reads_row(
    w: World,
    search: NodeView,
    varno: i32,
    oids: TopNOids,
    row: Binding,
)
    requires
        is_search(search, varno, oids),
        reads_what_it_mentions(w, search),
        row.dom().contains(varno as int),
    ensures
        (w.holds)(search, row) == picked(w, search, varno)(row[varno as int]),
{
    let lhs = search.expr->OpExpr_args[0];
    let rhs = search.expr->OpExpr_args[1];
    let alone: Binding = map![varno as int => row[varno as int]];
    lemma_nodes_of_two(lhs, rhs);
    assert(search.expr->OpExpr_args =~= seq![lhs, rhs]);
    assert(nodes_below(search.expr) == nodes(lhs) + nodes(rhs));
    assert(nodes(search) == seq![search] + (nodes(lhs) + nodes(rhs)));
    assert forall|i: int, no: i32|
        0 <= i < nodes(search).len() && #[trigger] reads_entry(
            nodes(search)[i],
            no,
        ) implies agree_on(row, alone, no as int) by {
        if i == 0 {
        } else if i - 1 < nodes(lhs).len() {
            let reader = nodes(lhs)[i - 1];
            assert(nodes(search)[i] == reader);
            assert(!reads_elsewhere(reader, varno));
            if let ExprView::SubQuery { outer_varnos } = reader.expr {
                let k = choose|k: int| 0 <= k < outer_varnos.len() && outer_varnos[k] == no;
                assert(outer_varnos[k] == varno);
            }
        } else {
            let reader = nodes(rhs)[i - 1 - nodes(lhs).len()];
            assert(nodes(search)[i] == reader);
            assert(!reads_level(reader));
        }
    }
    assert((w.holds)(search, row) == (w.holds)(search, alone));
}

/// What a level that is safe for the scanned relation returns, before sorting:
/// what the picked rows of that relation contribute.
proof fn lemma_level_rows(q: QueryView, w: World, varno: i32, oids: TopNOids)
    requires
        q.jointree is Some,
        q.jointree->0.fromlist.len() == 1,
        is_safe_path(q.jointree->0.fromlist[0], varno),
        1 <= varno <= q.rtable.len(),
        q.rtable[varno - 1].rtekind == RTEKind::Relation,
        q.jointree->0.quals is Some,
        is_search(search_of(q), varno, oids),
        reads_what_it_mentions(w, search_of(q)),
    ensures
        level_rows(q, w) == flat(
            (w.relation)(varno as int).filter(picked(w, search_of(q), varno)),
            |row: int|
                contribution(q.jointree->0.fromlist[0], q.rtable, w, varno, row, Map::empty()),
        ),
{
    let item = q.jointree->0.fromlist[0];
    let rows = (w.relation)(varno as int);
    let part = |row: int| contribution(item, q.rtable, w, varno, row, Map::empty());
    let keep = |row: Binding| (w.holds)(q.jointree->0.quals->0, row);
    let pick = picked(w, search_of(q), varno);
    lemma_item_rows(item, q.rtable, w, varno, Map::empty());
    assert forall|i: int, j: int|
        0 <= i < rows.len() && 0 <= j < part(rows[i]).len() implies keep(
        #[trigger] part(rows[i])[j],
    ) == pick(rows[i]) by {
        lemma_contribution(item, q.rtable, w, varno, rows[i], Map::empty());
        let b = contribution(item, q.rtable, w, varno, rows[i], Map::empty())[j];
        lemma_search_reads_row(w, search_of(q), varno, oids, b);
    }
    lemma_flat_filter(rows, part, keep, pick);
}

/// Whether the limited search still picks the row that a joined row has of the
/// scanned relation.
spec fn is_kept(w: World, limited_search: NodeView, varno: i32) -> spec_fn(Binding) -> bool {
    |b: Binding| picked(w, limited_search, varno)(b[varno as int])
}

/// The size that is pushed down covers both the `LIMIT` and the `OFFSET`: it
/// is their sum, and it is null if either is, so that nothing is limited then.
pub proof fn law_size_covers_offset(q: QueryView, w: World, oids: TopNOids)
    requires
        q.limit_count is Some,
        limit_value(q, w) is Some ==> limit_value(q, w)->0 >= 0,
        offset_value(q, w) >= 0,
        limit_value(q, w) is Some ==> limit_value(q, w)->0 + offset_value(q, w) <= i64::MAX,
        adds(w, oids),
    ensures
        match (w.value)(size_expr(q, oids)) {
            Some(size) => limit_value(q, w) is Some && size == limit_value(q, w)->0 + offset_value(
                q,
                w,
            ),
            None => limit_value(q, w) is None || (q.limit_offset is Some && (w.value)(
                q.limit_offset->0,
            ) is None),
        },
{
    if let Some(offset) = q.limit_offset {
        let sum = size_expr(q, oids);
        assert(sum.expr->FuncExpr_args =~= seq![offset, q.limit_count->0]);
        assert((w.value)(sum) == (w.value)(size_expr(q, oids)));
    }
}

/// Whether the row that a joined row has of the scanned relation is in that
/// relation, and the search picks it.
spec fn is_hit_row(q: QueryView, w: World, varno: i32, b: Binding) -> bool {
    let table = (w.relation)(varno as int);
    exists|k: int|
        0 <= k < table.len() && picked(w, search_of(q), varno)(#[trigger] table[k]) && table[k]
            == b[varno as int]
}

/// The pushdown keeps those of the rows whose row of the scanned relation is
/// still picked. They score at least as well as the others, and either they
/// are all, or they are enough for `OFFSET` and `LIMIT`.
proof fn lemma_pushed_rows(q: QueryView, w: World, mode: ScoreTopNPushdown, oids: TopNOids)
    requires
        is_eligible(q, mode, oids),
        is_run(q, w, oids),
    ensures
        ({
            let varno = scanned_entry(q, oids);
            let pushed = pushed_level(q, mode, Some(oids));
            let kept = is_kept(w, search_of(pushed), varno);
            let all = level_rows(q, w);
            &&& level_rows(pushed, w) == all.filter(kept)
            &&& forall|i: int|
                0 <= i < all.len() ==> is_hit_row(q, w, varno, #[trigger] all[i])
            &&& forall|i: int, j: int|
                0 <= i < all.len() && 0 <= j < all.len() && kept(all[i]) && !kept(all[j])
                    ==> (w.score)((#[trigger] all[i])[varno as int]) >= (w.score)(
                    (#[trigger] all[j])[varno as int],
                )
            &&& {
                ||| forall|i: int| 0 <= i < all.len() ==> kept(#[trigger] all[i])
                ||| limit_value(q, w) is Some && all.filter(kept).len() >= limit_value(q, w)->0
                    + offset_value(q, w)
            }
        }),
{
    let varno = scanned_entry(q, oids);
    let size = size_expr(q, oids);
    let pushed = pushed_level(q, mode, Some(oids));
    let item = q.jointree->0.fromlist[0];
    let table = (w.relation)(varno as int);
    let found = picked(w, search_of(q), varno);
    let still = picked(w, search_of(pushed), varno);
    let kept = is_kept(w, search_of(pushed), varno);
    let part = |row: int| contribution(item, q.rtable, w, varno, row, Map::empty());
    let hits = table.filter(found);
    let all = level_rows(q, w);

    // both levels in terms of the scanned relation
    lemma_level_rows(q, w, varno, oids);
    if let Some(offset) = q.limit_offset {
        lemma_call_mentions_no_columns(size, offset, q.limit_count->0);
    }
    lemma_call_mentions_no_columns(
        limited(size, search_rhs(q), oids),
        size,
        search_rhs(q),
    );
    assert(search_rhs(pushed) == limited(size, search_rhs(q), oids));
    assert(search_of(pushed).expr->OpExpr_args =~= seq![
        search_of(q).expr->OpExpr_args[0],
        search_rhs(pushed),
    ]);
    assert(is_search(search_of(pushed), varno, oids));
    lemma_level_rows(pushed, w, varno, oids);

    // the pushed level keeps a part of the rows
    assert forall|i: int| 0 <= i < hits.len() implies part(#[trigger] hits[i]).len() >= 1
        && forall|j: int|
        0 <= j < part(hits[i]).len() ==> kept(#[trigger] part(hits[i])[j]) == still(hits[i]) by {
        lemma_contribution(item, q.rtable, w, varno, hits[i], Map::empty());
    }
    lemma_flat_filter(hits, part, kept, still);
    lemma_filter_filter(table, found, still);
    lemma_filter_same(table, |row: int| found(row) && still(row), still);
    assert(hits.filter(still) == table.filter(still));
    lemma_flat_same(
        table.filter(still),
        |row: int|
            contribution(pushed.jointree->0.fromlist[0], pushed.rtable, w, varno, row, Map::empty()),
        part,
    );
    assert(level_rows(pushed, w) == all.filter(kept));

    // every row comes from a hit
    assert forall|i: int| 0 <= i < all.len() implies is_hit_row(q, w, varno, #[trigger] all[i]) by {
        lemma_flat_source(hits, part, i);
        let (a, b) = choose|a: int, b: int|
            0 <= a < hits.len() && 0 <= b < part(hits[a]).len() && #[trigger] part(hits[a])[b]
                == all[i];
        lemma_contribution(item, q.rtable, w, varno, hits[a], Map::empty());
        lemma_filter_source(table, found, a);
        let k = choose|k: int|
            0 <= k < table.len() && found(#[trigger] table[k]) && table[k] == hits[a];
        assert(part(hits[a])[b][varno as int] == hits[a]);
    }

    // all of them, or enough
    assert(constant_sum_fits(q));
    law_size_covers_offset(q, w, oids);
    match size_limit((w.value)(size)) {
        Some(limit) => {
            lemma_filter_narrower(table, found, still);
            if limit <= hits.len() {
                assert forall|i: int| 0 <= i < table.filter(still).len() implies part(
                    #[trigger] table.filter(still)[i],
                ).len() >= 1 by {
                    lemma_contribution(
                        item,
                        q.rtable,
                        w,
                        varno,
                        table.filter(still)[i],
                        Map::empty(),
                    );
                }
                lemma_flat_len(table.filter(still), part);
            } else {
                assert forall|i: int| 0 <= i < all.len() implies kept(#[trigger] all[i]) by {
                    assert(is_hit_row(q, w, varno, all[i]));
                    let k = choose|k: int|
                        0 <= k < table.len() && found(#[trigger] table[k]) && table[k]
                            == all[i][varno as int];
                    assert(still(table[k]) == found(table[k]));
                }
            }
        },
        None => {
            assert forall|i: int| 0 <= i < all.len() implies kept(#[trigger] all[i]) by {
                assert(is_hit_row(q, w, varno, all[i]));
                let k = choose|k: int|
                    0 <= k < table.len() && found(#[trigger] table[k]) && table[k]
                        == all[i][varno as int];
                assert(still(table[k]));
            }
        },
    }
    assert forall|i: int, j: int|
        0 <= i < all.len() && 0 <= j < all.len() && kept(all[i]) && !kept(all[j]) implies (w.score)(
        (#[trigger] all[i])[varno as int],
    ) >= (w.score)((#[trigger] all[j])[varno as int]) by {
        assert(is_hit_row(q, w, varno, all[i]) && is_hit_row(q, w, varno, all[j]));
        let k = choose|k: int|
            0 <= k < table.len() && found(#[trigger] table[k]) && table[k]
                == all[i][varno as int];
        let l = choose|l: int|
            0 <= l < table.len() && found(#[trigger] table[l]) && table[l]
                == all[j][varno as int];
        assert(still(table[k]) && !still(table[l]));
    }
}

/// Sorting the rows that the pushdown drops behind a sorted result of those
/// that it keeps gives a sorted result of all of them.
proof fn lemma_extend<A>(
    all: Seq<A>,
    kept: spec_fn(A) -> bool,
    le: spec_fn(A, A) -> bool,
    sorted: Seq<A>,
) -> (whole: Seq<A>)
    requires
        is_total_preorder(le),
        is_permutation(sorted, all.filter(kept)),
        is_sorted(sorted, le),
        forall|i: int, j: int|
            0 <= i < all.len() && 0 <= j < all.len() && kept(all[i]) && !kept(all[j]) ==> le(
                #[trigger] all[i],
                #[trigger] all[j],
            ),
    ensures
        is_permutation(whole, all),
        is_sorted(whole, le),
        sorted.len() <= whole.len(),
        whole.take(sorted.len() as int) == sorted,
        (forall|i: int| 0 <= i < all.len() ==> kept(#[trigger] all[i])) ==> whole == sorted,
{
    let dropped = |a: A| !kept(a);
    let rest = lemma_sort(all.filter(dropped), le);
    let whole = sorted + rest;
    lemma_filter_split(all, kept);
    lemma_multiset_add(all.filter(kept), all.filter(dropped));
    lemma_multiset_add(sorted, rest);
    assert(whole.take(sorted.len() as int) =~= sorted);
    assert forall|i: int, j: int| 0 <= i < j < whole.len() implies le(
        #[trigger] whole[i],
        #[trigger] whole[j],
    ) by {
        if j < sorted.len() {
            assert(le(sorted[i], sorted[j]));
        } else if i >= sorted.len() {
            assert(le(rest[i - sorted.len()], rest[j - sorted.len()]));
        } else {
            lemma_permutation_source(sorted, all.filter(kept), i);
            let a = choose|a: int|
                0 <= a < all.filter(kept).len() && all.filter(kept)[a] == sorted[i];
            lemma_filter_source(all, kept, a);
            let x = choose|x: int|
                0 <= x < all.len() && kept(#[trigger] all[x]) && all[x] == all.filter(kept)[a];
            lemma_permutation_source(rest, all.filter(dropped), j - sorted.len());
            let b = choose|b: int|
                0 <= b < all.filter(dropped).len() && all.filter(dropped)[b] == rest[j
                    - sorted.len()];
            lemma_filter_source(all, dropped, b);
            let y = choose|y: int|
                0 <= y < all.len() && dropped(#[trigger] all[y]) && all[y] == all.filter(
                    dropped,
                )[b];
            assert(le(all[x], all[y]));
        }
    }
    if forall|i: int| 0 <= i < all.len() ==> kept(#[trigger] all[i]) {
        lemma_filter_none(all, dropped);
        lemma_permutation_len(rest, all.filter(dropped));
        assert(whole =~= sorted);
    }
    whole
}

/// Only a prefix matters to `OFFSET m LIMIT n`.
proof fn lemma_window_prefix<A>(whole: Seq<A>, len: int, m: int, n: Option<i64>)
    requires
        0 <= len <= whole.len(),
        0 <= m,
        len == whole.len() || n is Some && n->0 >= 0 && len >= m + n->0,
    ensures
        window(whole.take(len), m, n) == window(whole, m, n),
{
    if len == whole.len() {
        assert(whole.take(len) =~= whole);
    } else {
        assert(window(whole.take(len), m, n) =~= window(whole, m, n));
    }
}

/// The order of a level compares any two rows.
proof fn lemma_may_precede(q: QueryView, w: World, varno: int)
    requires
        q.sort_clause.len() > 1 ==> is_total_preorder(
            |a: Binding, b: Binding| (w.precedes)(q.sort_clause.skip(1), a, b),
        ),
    ensures
        is_total_preorder(|a: Binding, b: Binding| may_precede(q, w, varno, a, b)),
{
    let le = |a: Binding, b: Binding| may_precede(q, w, varno, a, b);
    let later = |a: Binding, b: Binding| (w.precedes)(q.sort_clause.skip(1), a, b);
    assert forall|a: Binding, b: Binding| #[trigger] le(a, b) || le(b, a) by {
        if q.sort_clause.len() > 1 {
            assert(later(a, b) || later(b, a));
        }
    }
    assert forall|a: Binding, b: Binding, c: Binding| #[trigger]
        le(a, b) && #[trigger] le(b, c) implies le(a, c) by {
        if q.sort_clause.len() > 1 && (w.score)(a[varno]) == (w.score)(b[varno]) && (w.score)(
            b[varno],
        ) == (w.score)(c[varno]) {
            assert(later(a, b) && later(b, c));
        }
    }
}

/// What the pushdown makes of an eligible level sorts, limits and offsets as
/// the level does.
proof fn lemma_same_tail(q: QueryView, w: World, mode: ScoreTopNPushdown, oids: TopNOids)
    ensures
        ({
            let pushed = pushed_level(q, mode, Some(oids));
            &&& pushed.sort_clause == q.sort_clause
            &&& limit_value(pushed, w) == limit_value(q, w)
            &&& offset_value(pushed, w) == offset_value(q, w)
        }),
{
}

/// Where the score is the only sort key, as it is wherever the strict mode
/// pushes down, the pushdown is exact: whatever a level can return with it,
/// the level can return without it. What comes back differs at most in how
/// ties are broken, and a sort by the score alone leaves that open.
pub proof fn law_single_key_answers(
    q: QueryView,
    w: World,
    mode: ScoreTopNPushdown,
    oids: TopNOids,
    out: Seq<Binding>,
)
    requires
        is_eligible(q, mode, oids),
        is_run(q, w, oids),
        q.sort_clause.len() == 1,
        is_answer(
            pushed_level(q, mode, Some(oids)),
            w,
            scanned_entry(q, oids) as int,
            out,
        ),
    ensures
        is_answer(q, w, scanned_entry(q, oids) as int, out),
{
    let varno = scanned_entry(q, oids);
    let pushed = pushed_level(q, mode, Some(oids));
    let kept = is_kept(w, search_of(pushed), varno);
    let all = level_rows(q, w);
    let le = |a: Binding, b: Binding| may_precede(q, w, varno as int, a, b);
    let (m, n) = (offset_value(q, w) as int, limit_value(q, w));
    lemma_pushed_rows(q, w, mode, oids);
    lemma_same_tail(q, w, mode, oids);
    lemma_may_precede(q, w, varno as int);
    let sorted = choose|sorted: Seq<Binding>|
        {
            &&& #[trigger] is_permutation(sorted, level_rows(pushed, w))
            &&& is_sorted(
                sorted,
                |a: Binding, b: Binding| may_precede(pushed, w, varno as int, a, b),
            )
            &&& out == window(sorted, m, n)
        };
    assert(is_sorted(sorted, le)) by {
        assert forall|i: int, j: int| 0 <= i < j < sorted.len() implies le(
            #[trigger] sorted[i],
            #[trigger] sorted[j],
        ) by {
            assert(may_precede(pushed, w, varno as int, sorted[i], sorted[j]));
        }
    }
    let whole = lemma_extend(all, kept, le, sorted);
    lemma_permutation_len(sorted, all.filter(kept));
    lemma_window_prefix(whole, sorted.len() as int, m, n);
    assert(is_permutation(whole, level_rows(q, w)));
}

/// Whether a level may return `out` when it sorts by what its sort keys say,
/// whatever they sort by.
pub open spec fn is_sorted_answer(q: QueryView, w: World, out: Seq<Binding>) -> bool {
    exists|sorted: Seq<Binding>|
        {
            &&& #[trigger] is_permutation(sorted, level_rows(q, w))
            &&& is_sorted(sorted, |a: Binding, b: Binding| (w.precedes)(q.sort_clause, a, b))
            &&& out == window(sorted, offset_value(q, w) as int, limit_value(q, w))
        }
}

/// Whether sorting by `zdb.score(rel.ctid)` with the `>` of `float8` as the
/// first key is sorting by the score of `rel`, best first, and then by the
/// later keys. Of a first key that is anything else nothing is said.
pub open spec fn sorts_scores(q: QueryView, w: World, oids: TopNOids) -> bool {
    forall|i: int, varno: i32, a: Binding, b: Binding|
        #![trigger q.target_list[i], (w.precedes)(q.sort_clause, a, b), (w.score)(a[varno as int])]
        {
            &&& q.sort_clause.len() > 0
            &&& q.sort_clause[0].sortop == oids.float8_gt
            &&& 0 <= i < q.target_list.len()
            &&& q.target_list[i].ressortgroupref == q.sort_clause[0].tle_sort_group_ref
            &&& forall|j: int|
                0 <= j < i ==> (#[trigger] q.target_list[j]).ressortgroupref
                    != q.sort_clause[0].tle_sort_group_ref
            &&& q.target_list[i].expr.expr is FuncExpr
            &&& q.target_list[i].expr.expr->FuncExpr_funcid == oids.zdb_score
            &&& q.target_list[i].expr.expr->FuncExpr_args.len() > 0
            &&& q.target_list[i].expr.expr->FuncExpr_args[0].expr == (ExprView::Var {
                varno,
                varattno: -1i16,
                varlevelsup: 0,
            })
        } ==> ((w.precedes)(q.sort_clause, a, b) == {
            ||| (w.score)(a[varno as int]) > (w.score)(b[varno as int])
            ||| {
                &&& (w.score)(a[varno as int]) == (w.score)(b[varno as int])
                &&& q.sort_clause.len() > 1 ==> (w.precedes)(q.sort_clause.skip(1), a, b)
            }
        })
}

/// At an eligible level, sorting by the sort keys is sorting by the score of
/// the scanned entry and then by the later keys.
proof fn lemma_keys_sort_scores(q: QueryView, w: World, mode: ScoreTopNPushdown, oids: TopNOids)
    requires
        is_eligible(q, mode, oids),
        sorts_scores(q, w, oids),
    ensures
        forall|a: Binding, b: Binding|
            #[trigger] (w.precedes)(q.sort_clause, a, b) == may_precede(
                q,
                w,
                scanned_entry(q, oids) as int,
                a,
                b,
            ),
{
    let varno = scanned_entry(q, oids);
    law_sort_key(q, q.sort_clause[0], oids, varno);
    let i = choose|i: int|
        {
            &&& 0 <= i < q.target_list.len()
            &&& (#[trigger] q.target_list[i]).ressortgroupref
                == q.sort_clause[0].tle_sort_group_ref
            &&& forall|j: int|
                0 <= j < i ==> (#[trigger] q.target_list[j]).ressortgroupref
                    != q.sort_clause[0].tle_sort_group_ref
            &&& q.target_list[i].expr.expr is FuncExpr
            &&& q.target_list[i].expr.expr->FuncExpr_funcid == oids.zdb_score
            &&& q.target_list[i].expr.expr->FuncExpr_args.len() > 0
            &&& q.target_list[i].expr.expr->FuncExpr_args[0].expr == (ExprView::Var {
                varno,
                varattno: -1i16,
                varlevelsup: 0,
            })
        };
    assert forall|a: Binding, b: Binding|
        #[trigger] (w.precedes)(q.sort_clause, a, b) == may_precede(q, w, varno as int, a, b) by {
        assert(q.target_list[i].expr.expr is FuncExpr);
        assert((w.score)(a[varno as int]) == (w.score)(a[varno as int]));
    }
}

/// Where the sort key is the only one, the pushdown is exact for a level that
/// sorts by what its key says: whatever it can return with the pushdown it can
/// return without it.
pub proof fn law_sorted_answers(
    q: QueryView,
    w: World,
    mode: ScoreTopNPushdown,
    oids: TopNOids,
    out: Seq<Binding>,
)
    requires
        is_run(q, w, oids),
        sorts_scores(q, w, oids),
        q.sort_clause.len() == 1,
        is_sorted_answer(pushed_level(q, mode, Some(oids)), w, out),
    ensures
        is_sorted_answer(q, w, out),
{
    let pushed = pushed_level(q, mode, Some(oids));
    if is_eligible(q, mode, oids) {
        let varno = scanned_entry(q, oids) as int;
        let keys = |a: Binding, b: Binding| (w.precedes)(q.sort_clause, a, b);
        let (m, n) = (offset_value(q, w) as int, limit_value(q, w));
        lemma_keys_sort_scores(q, w, mode, oids);
        lemma_same_tail(q, w, mode, oids);
        assert(is_answer(pushed, w, varno, out)) by {
            let sorted = choose|sorted: Seq<Binding>|
                {
                    &&& #[trigger] is_permutation(sorted, level_rows(pushed, w))
                    &&& is_sorted(sorted, |a: Binding, b: Binding|
                        (w.precedes)(pushed.sort_clause, a, b))
                    &&& out == window(sorted, m, n)
                };
            assert forall|i: int, j: int| 0 <= i < j < sorted.len() implies may_precede(
                pushed,
                w,
                varno,
                #[trigger] sorted[i],
                #[trigger] sorted[j],
            ) by {
                assert((w.precedes)(pushed.sort_clause, sorted[i], sorted[j]));
            }
            assert(is_permutation(sorted, level_rows(pushed, w)));
        }
        law_single_key_answers(q, w, mode, oids, out);
        let sorted = choose|sorted: Seq<Binding>|
            {
                &&& #[trigger] is_permutation(sorted, level_rows(q, w))
                &&& is_sorted(sorted, |a: Binding, b: Binding| may_precede(q, w, varno, a, b))
                &&& out == window(sorted, m, n)
            };
        assert(is_sorted(sorted, keys)) by {
            assert forall|i: int, j: int| 0 <= i < j < sorted.len() implies keys(
                #[trigger] sorted[i],
                #[trigger] sorted[j],
            ) by {
                assert(may_precede(q, w, varno, sorted[i], sorted[j]));
                assert((w.precedes)(q.sort_clause, sorted[i], sorted[j]));
            }
        }
        assert(is_permutation(sorted, level_rows(q, w)));
    }
}

/// The scores of the rows of an answer, in order.
pub open spec fn scores(w: World, varno: int, out: Seq<Binding>) -> Seq<int> {
    out.map_values(|b: Binding| (w.score)(b[varno]))
}

/// Two results of the same rows that are both sorted by score have the same
/// score at each place.
proof fn lemma_same_scores(w: World, varno: int, a: Seq<Binding>, b: Seq<Binding>, i: int)
    requires
        is_permutation(a, b),
        is_sorted(a, |x: Binding, y: Binding| (w.score)(x[varno]) >= (w.score)(y[varno])),
        is_sorted(b, |x: Binding, y: Binding| (w.score)(x[varno]) >= (w.score)(y[varno])),
        0 <= i < a.len(),
        a.len() == b.len(),
    ensures
        (w.score)(b[i][varno]) >= (w.score)(a[i][varno]),
{
    let le = |x: Binding, y: Binding| (w.score)(x[varno]) >= (w.score)(y[varno]);
    let top = |x: Binding| (w.score)(x[varno]) >= (w.score)(a[i][varno]);
    assert forall|j: int, k: int| 0 <= j < k < a.len() && top(#[trigger] a[k]) implies top(
        #[trigger] a[j],
    ) by {
        assert(le(a[j], a[k]));
    }
    assert forall|j: int, k: int| 0 <= j < k < b.len() && top(#[trigger] b[k]) implies top(
        #[trigger] b[j],
    ) by {
        assert(le(b[j], b[k]));
    }
    lemma_filter_prefix(a, top);
    lemma_filter_prefix(b, top);
    lemma_permutation_filter(a, b, top);
    assert(top(a[i]));
    assert(top(b[i]));
}

/// In every mode the pushdown keeps the scores: an answer with it and an
/// answer without it have the same score at each place, and so as many rows.
pub proof fn law_same_scores(
    q: QueryView,
    w: World,
    mode: ScoreTopNPushdown,
    oids: TopNOids,
    pushed_out: Seq<Binding>,
    out: Seq<Binding>,
)
    requires
        is_eligible(q, mode, oids),
        is_run(q, w, oids),
        is_answer(
            pushed_level(q, mode, Some(oids)),
            w,
            scanned_entry(q, oids) as int,
            pushed_out,
        ),
        is_answer(q, w, scanned_entry(q, oids) as int, out),
    ensures
        scores(w, scanned_entry(q, oids) as int, pushed_out) == scores(
            w,
            scanned_entry(q, oids) as int,
            out,
        ),
{
    let varno = scanned_entry(q, oids);
    let v = varno as int;
    let pushed = pushed_level(q, mode, Some(oids));
    let kept = is_kept(w, search_of(pushed), varno);
    let all = level_rows(q, w);
    let le = |x: Binding, y: Binding| (w.score)(x[v]) >= (w.score)(y[v]);
    let (m, n) = (offset_value(q, w) as int, limit_value(q, w));
    lemma_pushed_rows(q, w, mode, oids);
    lemma_same_tail(q, w, mode, oids);
    let pushed_sorted = choose|sorted: Seq<Binding>|
        {
            &&& #[trigger] is_permutation(sorted, level_rows(pushed, w))
            &&& is_sorted(sorted, |a: Binding, b: Binding| may_precede(pushed, w, v, a, b))
            &&& pushed_out == window(sorted, m, n)
        };
    let sorted = choose|sorted: Seq<Binding>|
        {
            &&& #[trigger] is_permutation(sorted, level_rows(q, w))
            &&& is_sorted(sorted, |a: Binding, b: Binding| may_precede(q, w, v, a, b))
            &&& out == window(sorted, m, n)
        };
    assert(is_sorted(pushed_sorted, le)) by {
        assert forall|i: int, j: int| 0 <= i < j < pushed_sorted.len() implies le(
            #[trigger] pushed_sorted[i],
            #[trigger] pushed_sorted[j],
        ) by {
            assert(may_precede(pushed, w, v, pushed_sorted[i], pushed_sorted[j]));
        }
    }
    assert(is_sorted(sorted, le)) by {
        assert forall|i: int, j: int| 0 <= i < j < sorted.len() implies le(
            #[trigger] sorted[i],
            #[trigger] sorted[j],
        ) by {
            assert(may_precede(q, w, v, sorted[i], sorted[j]));
        }
    }
    let whole = lemma_extend(all, kept, le, pushed_sorted);
    lemma_permutation_len(pushed_sorted, all.filter(kept));
    lemma_window_prefix(whole, pushed_sorted.len() as int, m, n);
    lemma_permutation_len(whole, sorted);
    assert forall|i: int| 0 <= i < whole.len() implies (w.score)((#[trigger] whole[i])[v])
        == (w.score)(sorted[i][v]) by {
        lemma_same_scores(w, v, whole, sorted, i);
        lemma_same_scores(w, v, sorted, whole, i);
    }
    assert(pushed_out == window(whole, m, n));
    assert(scores(w, v, pushed_out) =~= scores(w, v, out));
}

/// Whether every hit that the limited search drops scores below every hit that
/// it keeps.
pub open spec fn no_tie_at_cut(
    q: QueryView,
    w: World,
    mode: ScoreTopNPushdown,
    oids: TopNOids,
) -> bool {
    let varno = scanned_entry(q, oids);
    let table = (w.relation)(varno as int);
    let found = picked(w, search_of(q), varno);
    let still = picked(w, search_of(pushed_level(q, mode, Some(oids))), varno);
    forall|i: int, j: int|
        0 <= i < table.len() && 0 <= j < table.len() && still(table[i]) && found(table[j])
            && !still(table[j]) ==> (w.score)(#[trigger] table[i]) > (w.score)(
            #[trigger] table[j],
        )
}

/// Where no two hits tie at the cut, the pushdown is exact in every mode,
/// whatever the other sort keys: a level returns the same with it and without
/// it.
pub proof fn law_no_tie_same_answers(
    q: QueryView,
    w: World,
    mode: ScoreTopNPushdown,
    oids: TopNOids,
    out: Seq<Binding>,
)
    requires
        is_eligible(q, mode, oids),
        is_run(q, w, oids),
        no_tie_at_cut(q, w, mode, oids),
    ensures
        is_answer(pushed_level(q, mode, Some(oids)), w, scanned_entry(q, oids) as int, out)
            == is_answer(q, w, scanned_entry(q, oids) as int, out),
{
    let varno = scanned_entry(q, oids);
    let v = varno as int;
    let pushed = pushed_level(q, mode, Some(oids));
    let kept = is_kept(w, search_of(pushed), varno);
    let all = level_rows(q, w);
    let le = |a: Binding, b: Binding| may_precede(q, w, v, a, b);
    let (m, n) = (offset_value(q, w) as int, limit_value(q, w));
    lemma_pushed_rows(q, w, mode, oids);
    lemma_same_tail(q, w, mode, oids);
    lemma_may_precede(q, w, v);
    assert forall|i: int, j: int|
        0 <= i < all.len() && 0 <= j < all.len() && kept(all[i]) && !kept(all[j]) implies (w.score)(
        (#[trigger] all[i])[v],
    ) > (w.score)((#[trigger] all[j])[v]) by {
        assert(is_hit_row(q, w, varno, all[i]) && is_hit_row(q, w, varno, all[j]));
    }
    if is_answer(pushed, w, v, out) {
        let sorted = choose|sorted: Seq<Binding>|
            {
                &&& #[trigger] is_permutation(sorted, level_rows(pushed, w))
                &&& is_sorted(sorted, |a: Binding, b: Binding| may_precede(pushed, w, v, a, b))
                &&& out == window(sorted, m, n)
            };
        assert(is_sorted(sorted, le)) by {
            assert forall|i: int, j: int| 0 <= i < j < sorted.len() implies le(
                #[trigger] sorted[i],
                #[trigger] sorted[j],
            ) by {
                assert(may_precede(pushed, w, v, sorted[i], sorted[j]));
            }
        }
        let whole = lemma_extend(all, kept, le, sorted);
        lemma_permutation_len(sorted, all.filter(kept));
        lemma_window_prefix(whole, sorted.len() as int, m, n);
        assert(is_permutation(whole, level_rows(q, w)));
    }
    if is_answer(q, w, v, out) {
        let sorted = choose|sorted: Seq<Binding>|
            {
                &&& #[trigger] is_permutation(sorted, level_rows(q, w))
                &&& is_sorted(sorted, |a: Binding, b: Binding| may_precede(q, w, v, a, b))
                &&& out == window(sorted, m, n)
            };
        assert forall|i: int, j: int| 0 <= i < j < sorted.len() && kept(
            #[trigger] sorted[j],
        ) implies kept(#[trigger] sorted[i]) by {
            assert(may_precede(q, w, v, sorted[i], sorted[j]));
            lemma_permutation_source(sorted, all, i);
            lemma_permutation_source(sorted, all, j);
        }
        lemma_filter_prefix(sorted, kept);
        lemma_permutation_filter(sorted, all, kept);
        lemma_permutation_len(sorted, all);
        let part = sorted.filter(kept);
        assert forall|i: int, j: int| 0 <= i < j < part.len() implies may_precede(
            pushed,
            w,
            v,
            #[trigger] part[i],
            #[trigger] part[j],
        ) by {
            assert(part[i] == sorted[i] && part[j] == sorted[j]);
            assert(may_precede(q, w, v, sorted[i], sorted[j]));
        }
        if forall|i: int| 0 <= i < all.len() ==> kept(#[trigger] all[i]) {
            lemma_filter_all(all, kept);
        }
        lemma_window_prefix(sorted, part.len() as int, m, n);
        assert(is_permutation(part, level_rows(pushed, w)));
    }
}

} // verus!
