//! What a query level returns.
//!
//! This is the yardstick for the pushdown: the joined rows of a level, those
//! that its `WHERE` clause keeps, and the answers that `ORDER BY`, `OFFSET`
//! and `LIMIT` allow. Where a sort leaves ties open there is more than one
//! answer.

use vstd::prelude::*;

use crate::catalog::TopNOids;
use crate::pushdown::constant_value;
use crate::scan::{nodes, reads_entry};
use crate::seqs::{flat, is_permutation, is_sorted};
use crate::tree::{
    ExprView,
    JoinType,
    NodeView,
    QueryView,
    RTEKind,
    RangeTblEntryView,
    SortGroupClause,
};

verus! {

/// A joined row: for each range table entry that takes part, one of its rows.
/// An entry that an outer join found no partner in is missing.
pub type Binding = Map<int, int>;

/// The data that a query level is run on, and the meaning of the expressions
/// that the pushdown does not look into.
pub struct World {
    /// The rows of a plain table, by its place in the range table.
    pub relation: spec_fn(int) -> Seq<int>,
    /// The rows of any other entry, which may depend on rows to its left.
    pub derived: spec_fn(int, Binding) -> Seq<int>,
    /// The rows of a `FROM` item that is neither an entry nor a `LEFT` or
    /// `RIGHT` join.
    pub other: spec_fn(NodeView, Binding) -> Seq<Binding>,
    /// Whether a condition is true of a joined row.
    pub holds: spec_fn(NodeView, Binding) -> bool,
    /// How well a row of the scanned relation scores. Only the order of scores
    /// matters.
    pub score: spec_fn(int) -> int,
    /// Whether one joined row may precede another under the given sort keys.
    pub precedes: spec_fn(Seq<SortGroupClause>, Binding, Binding) -> bool,
    /// The value of an `int8` expression that mentions no columns; `None` if
    /// it is null.
    pub value: spec_fn(NodeView) -> Option<i64>,
}

/// The rows of a range table entry.
pub open spec fn entry_rows(
    rtable: Seq<RangeTblEntryView>,
    w: World,
    index: int,
    outer: Binding,
) -> Seq<int> {
    if 1 <= index <= rtable.len() && rtable[index - 1].rtekind == RTEKind::Relation {
        (w.relation)(index)
    } else {
        (w.derived)(index, outer)
    }
}

/// Two joined rows in one; what `kept` has stays.
pub open spec fn merged(kept: Binding, added: Binding) -> Binding {
    added.union_prefer_right(kept)
}

/// Whether two joined rows meet the `ON` clause of their join.
pub open spec fn meets(w: World, quals: Option<Box<NodeView>>, kept: Binding, added: Binding) -> bool {
    match quals {
        Some(quals) => (w.holds)(*quals, merged(kept, added)),
        None => true,
    }
}

/// What a row of the outer side of a join becomes: one row with each partner,
/// or the row alone if it has none.
pub open spec fn outer_joined(
    w: World,
    quals: Option<Box<NodeView>>,
    kept: Binding,
    others: Seq<Binding>,
) -> Seq<Binding> {
    let partners = others.filter(|added: Binding| meets(w, quals, kept, added));
    if partners.len() == 0 {
        seq![kept]
    } else {
        partners.map_values(|added: Binding| merged(kept, added))
    }
}

/// The joined rows of a `FROM` item. `outer` is what a lateral item can see of
/// the rows to its left.
pub open spec fn item_rows(
    item: NodeView,
    rtable: Seq<RangeTblEntryView>,
    w: World,
    outer: Binding,
) -> Seq<Binding>
    decreases item, 0int,
{
    match item.expr {
        ExprView::RangeTblRef { rtindex } => entry_rows(
            rtable,
            w,
            rtindex as int,
            outer,
        ).map_values(|row: int| map![rtindex as int => row]),
        ExprView::JoinExpr { jointype: JoinType::Left, larg, rarg, quals } => flat(
            link_rows(larg, rtable, w, outer),
            left_joined(rarg, quals, rtable, w, outer),
        ),
        ExprView::JoinExpr { jointype: JoinType::Right, larg, rarg, quals } => flat(
            link_rows(rarg, rtable, w, outer),
            right_joined(larg, quals, rtable, w, outer),
        ),
        _ => (w.other)(item, outer),
    }
}

/// What a row of the left side of a `LEFT` join becomes.
pub open spec fn left_joined(
    rarg: Option<Box<NodeView>>,
    quals: Option<Box<NodeView>>,
    rtable: Seq<RangeTblEntryView>,
    w: World,
    outer: Binding,
) -> spec_fn(Binding) -> Seq<Binding>
    decreases rarg, 1int,
{
    |left: Binding|
        outer_joined(w, quals, left, link_rows(rarg, rtable, w, merged(left, outer)))
}

/// What a row of the right side of a `RIGHT` join becomes.
pub open spec fn right_joined(
    larg: Option<Box<NodeView>>,
    quals: Option<Box<NodeView>>,
    rtable: Seq<RangeTblEntryView>,
    w: World,
    outer: Binding,
) -> spec_fn(Binding) -> Seq<Binding>
    decreases larg, 1int,
{
    |right: Binding| outer_joined(w, quals, right, link_rows(larg, rtable, w, outer))
}

/// The joined rows of a `FROM` item that may be absent.
pub open spec fn link_rows(
    link: Option<Box<NodeView>>,
    rtable: Seq<RangeTblEntryView>,
    w: World,
    outer: Binding,
) -> Seq<Binding>
    decreases link, 0int,
{
    match link {
        Some(item) => item_rows(*item, rtable, w, outer),
        None => Seq::empty(),
    }
}

/// The joined rows of a level with one `FROM` item that its `WHERE` clause
/// keeps.
pub open spec fn level_rows(q: QueryView, w: World) -> Seq<Binding>
    recommends
        q.jointree is Some,
        q.jointree->0.fromlist.len() == 1,
        q.jointree->0.quals is Some,
{
    item_rows(q.jointree->0.fromlist[0], q.rtable, w, Map::empty()).filter(
        |row: Binding| (w.holds)(q.jointree->0.quals->0, row),
    )
}

/// Whether one row may precede another when a level sorts by the score of the
/// entry `varno`, descending, and then by its other keys.
pub open spec fn may_precede(q: QueryView, w: World, varno: int, a: Binding, b: Binding) -> bool {
    ||| (w.score)(a[varno]) > (w.score)(b[varno])
    ||| {
        &&& (w.score)(a[varno]) == (w.score)(b[varno])
        &&& q.sort_clause.len() > 1 ==> (w.precedes)(q.sort_clause.skip(1), a, b)
    }
}

/// The value of the `LIMIT` of a level; `None` means all rows.
pub open spec fn limit_value(q: QueryView, w: World) -> Option<i64> {
    match q.limit_count {
        Some(limit) => (w.value)(limit),
        None => None,
    }
}

/// The value of the `OFFSET` of a level; null means 0.
pub open spec fn offset_value(q: QueryView, w: World) -> i64 {
    match q.limit_offset {
        Some(offset) => match (w.value)(offset) {
            Some(m) => m,
            None => 0,
        },
        None => 0,
    }
}

/// The rows that `OFFSET m LIMIT n` leaves of a sorted result.
pub open spec fn window<A>(sorted: Seq<A>, m: int, n: Option<i64>) -> Seq<A> {
    let rest = if m <= sorted.len() {
        sorted.skip(m)
    } else {
        Seq::empty()
    };
    match n {
        Some(n) => if n <= rest.len() {
            rest.take(n as int)
        } else {
            rest
        },
        None => rest,
    }
}

/// Whether a level that sorts by the score of the entry `varno` may return
/// `out`.
pub open spec fn is_answer(q: QueryView, w: World, varno: int, out: Seq<Binding>) -> bool {
    exists|sorted: Seq<Binding>|
        {
            &&& #[trigger] is_permutation(sorted, level_rows(q, w))
            &&& is_sorted(sorted, |a: Binding, b: Binding| may_precede(q, w, varno, a, b))
            &&& out == window(sorted, offset_value(q, w) as int, limit_value(q, w))
        }
}

/// Whether two joined rows agree on an entry.
pub open spec fn agree_on(a: Binding, b: Binding, index: int) -> bool {
    &&& a.dom().contains(index) == b.dom().contains(index)
    &&& a.dom().contains(index) ==> a[index] == b[index]
}

/// Whether the condition reads no more of a joined row than the entries whose
/// columns it mentions.
pub open spec fn reads_what_it_mentions(w: World, node: NodeView) -> bool {
    forall|a: Binding, b: Binding|
        (forall|i: int, varno: i32|
            0 <= i < nodes(node).len() && #[trigger] reads_entry(nodes(node)[i], varno)
                ==> agree_on(a, b, varno as int)) ==> #[trigger] (w.holds)(node, a) == #[trigger] (w.holds)(node, b)
}

/// Whether integer constants have the values that they are read with.
pub open spec fn has_constants(w: World) -> bool {
    forall|node: NodeView|
        constant_value(node) is Some ==> #[trigger] (w.value)(node) == constant_value(node)
}

/// Whether `int8pl` adds, and is null if an argument is. A sum that does not
/// fit is an error, of which nothing is said.
pub open spec fn adds(w: World, oids: TopNOids) -> bool {
    forall|sum: NodeView, a: NodeView, b: NodeView|
        #![trigger (w.value)(sum), (w.value)(a), (w.value)(b)]
        sum == (NodeView {
            host: 0,
            expr: ExprView::FuncExpr {
                funcid: oids.int8pl,
                funcresulttype: 20,
                args: seq![a, b],
            },
        }) ==> match ((w.value)(a), (w.value)(b)) {
            (Some(x), Some(y)) => i64::MIN <= x + y <= i64::MAX ==> (w.value)(sum) == Some(
                (x + y) as i64,
            ),
            _ => (w.value)(sum) is None,
        }
}

/// Whether `kept` picks the best `limit` of those `rows` that `found` picks,
/// or all of them if there is no limit.
pub open spec fn keeps_best(
    w: World,
    rows: Seq<int>,
    found: spec_fn(int) -> bool,
    kept: spec_fn(int) -> bool,
    limit: Option<u64>,
) -> bool {
    &&& forall|i: int| 0 <= i < rows.len() && kept(rows[i]) ==> found(#[trigger] rows[i])
    &&& match limit {
        Some(n) => {
            &&& rows.filter(kept).len() == if n <= rows.filter(found).len() {
                n as nat
            } else {
                rows.filter(found).len()
            }
            &&& forall|i: int, j: int|
                0 <= i < rows.len() && 0 <= j < rows.len() && kept(rows[i]) && found(rows[j])
                    && !kept(rows[j]) ==> (w.score)(#[trigger] rows[i]) >= (w.score)(
                    #[trigger] rows[j],
                )
        },
        None => forall|i: int| 0 <= i < rows.len() && found(rows[i]) ==> kept(#[trigger] rows[i]),
    }
}

} // verus!
