//! Whole queries through the pushdown, and what they then return.

use std::cell::Cell;

use score_topn::catalog::TopNOids;
use score_topn::gucs::ScoreTopNPushdown;
use score_topn::lazy::LazyOids;
use score_topn::limit::{score_topn_limit, ZDBQuery};
use score_topn::pushdown::{perform, perform_with_oids, try_pushdown, walk_query};
use score_topn::tree::{
    CmdType, CommonTableExpr, CteQuery, Expr, FromExpr, JoinType, LimitOption, Node, Query,
    RTEKind, RangeTblEntry, SortGroupClause, TargetEntry,
};

const FLOAT8_LT: u32 = 672;
const INT8_LT: u32 = 412;

const LIMIT: u64 = 50;
const OFFSET: u64 = 51;
const BEER: u64 = 40;

fn oids() -> TopNOids {
    TopNOids {
        zdbquery: 9001,
        zdb_score: 9002,
        anyelement_cmp: 9003,
        score_topn_limit: 9004,
        dsl_limit: 9005,
        dsl_offset: 9006,
        dsl_offset_limit: 9007,
        int8pl: 463,
        float8_gt: 674,
    }
}

fn node(host: u64, expr: Expr) -> Node {
    Node { host, expr }
}

fn var(varno: i32, varattno: i16) -> Node {
    node(10, Expr::Var { varno, varattno, varlevelsup: 0 })
}

fn func(funcid: u32, args: Vec<Node>) -> Node {
    node(11, Expr::FuncExpr { funcid, funcresulttype: 701, args })
}

fn op(opfuncid: u32, args: Vec<Node>) -> Node {
    node(12, Expr::OpExpr { opfuncid, args })
}

fn constant(host: u64) -> Node {
    node(host, Expr::Const { constisnull: false, constvalue: None })
}

fn table_ref(rtindex: i32) -> Node {
    node(13, Expr::RangeTblRef { rtindex })
}

fn join(jointype: JoinType, larg: Node, rarg: Node, quals: Node) -> Node {
    node(
        14,
        Expr::JoinExpr {
            jointype,
            larg: Some(Box::new(larg)),
            rarg: Some(Box::new(rarg)),
            quals: Some(Box::new(quals)),
        },
    )
}

fn other(children: Vec<Node>) -> Node {
    node(15, Expr::Other { children })
}

fn entry(rtekind: RTEKind, subquery: Option<Box<Query>>) -> RangeTblEntry {
    RangeTblEntry { rtekind, security_quals: false, tablesample: false, subquery }
}

fn table() -> RangeTblEntry {
    entry(RTEKind::Relation, None)
}

fn search(rhs: Node) -> Node {
    op(oids().anyelement_cmp, vec![var(1, 0), rhs])
}

fn score_desc() -> SortGroupClause {
    SortGroupClause { tle_sort_group_ref: 1, sortop: oids().float8_gt }
}

/// `SELECT id FROM t WHERE t ==> 'beer' ORDER BY zdb.score(ctid) DESC LIMIT n`
fn base() -> Query {
    Query {
        command_type: CmdType::Select,
        has_aggs: false,
        has_window_funcs: false,
        has_target_srfs: false,
        set_operations: false,
        group_clause: false,
        grouping_sets: false,
        distinct_clause: false,
        window_clause: false,
        having_qual: false,
        row_marks: false,
        limit_option: LimitOption::Count,
        limit_count: Some(constant(LIMIT)),
        limit_offset: None,
        sort_clause: vec![score_desc()],
        target_list: vec![
            TargetEntry { ressortgroupref: 0, expr: var(1, 1) },
            TargetEntry { ressortgroupref: 1, expr: func(oids().zdb_score, vec![var(1, -1)]) },
        ],
        jointree: Some(FromExpr {
            fromlist: vec![table_ref(1)],
            quals: Some(search(constant(BEER))),
        }),
        rtable: vec![table()],
        cte_list: vec![],
    }
}

/// `SELECT * FROM (sub) sub`
fn around(rtekind: RTEKind, sub: Query) -> Query {
    let mut q = base();
    q.limit_count = None;
    q.limit_option = LimitOption::Default;
    q.sort_clause = vec![];
    q.target_list = vec![TargetEntry { ressortgroupref: 0, expr: var(1, 1) }];
    q.jointree = Some(FromExpr { fromlist: vec![table_ref(1)], quals: None });
    q.rtable = vec![entry(rtekind, Some(Box::new(sub)))];
    q
}

fn rhs(q: &Query) -> &Node {
    match &q.jointree.as_ref().unwrap().quals.as_ref().unwrap().expr {
        Expr::OpExpr { args, .. } => &args[1],
        _ => panic!("the WHERE clause is no operator"),
    }
}

/// The size that was pushed down, if one was.
fn pushed_size(q: &Query) -> Option<&Node> {
    match &rhs(q).expr {
        Expr::FuncExpr { funcid, args, .. } if *funcid == oids().score_topn_limit => Some(&args[0]),
        _ => None,
    }
}

fn push(mut q: Query, mode: ScoreTopNPushdown) -> Query {
    perform_with_oids(&mut q, mode, Some(oids()));
    q
}

fn is_pushed(q: Query, mode: ScoreTopNPushdown) -> bool {
    let q = push(q, mode);
    pushed_size(&q).is_some()
}

fn strict_leaves(make: fn() -> Query) -> bool {
    push(make(), ScoreTopNPushdown::strict) == make()
}

/// The value of a size under the given limit and offset.
fn evaluate(size: &Node, limit: Option<i64>, offset: Option<i64>) -> Option<i64> {
    match &size.expr {
        _ if size.host == LIMIT => limit,
        _ if size.host == OFFSET => offset,
        Expr::FuncExpr { funcid, args, .. } if *funcid == oids().int8pl => {
            let left = evaluate(&args[0], limit, offset)?;
            let right = evaluate(&args[1], limit, offset)?;
            Some(left + right)
        }
        _ => panic!("no size"),
    }
}

fn beer() -> ZDBQuery {
    ZDBQuery { limit: None, query: String::from("beer") }
}

/// Runs the query on six rows of which four mention beer, row 4 most often:
/// the index hands out its hits, then Postgres sorts, offsets and limits. Also
/// tells how many hits the index handed out.
fn run(q: &Query, limit: Option<i64>, offset: Option<i64>) -> (Vec<i64>, usize) {
    let sent = match pushed_size(q) {
        Some(size) => score_topn_limit(evaluate(size, limit, offset), beer()),
        None => beer(),
    };
    let mut hits: Vec<i64> = vec![1, 2, 3, 4];
    hits.sort_by(|a, b| b.cmp(a));
    if let Some(n) = sent.limit {
        hits.truncate(n as usize);
    }
    let fetched = hits.len();
    let skipped = offset.unwrap_or(0) as usize;
    let rows: Vec<i64> = hits.into_iter().skip(skipped).collect();
    let kept = match limit {
        Some(n) => rows.into_iter().take(n as usize).collect(),
        None => rows,
    };
    (kept, fetched)
}

#[test]
fn topn_pushdown_applies_strict() {
    let q = push(base(), ScoreTopNPushdown::strict);
    let wrapped = rhs(&q);
    assert_eq!(wrapped.host, 0);
    match &wrapped.expr {
        Expr::FuncExpr { funcid, funcresulttype, args } => {
            assert_eq!(*funcid, oids().score_topn_limit);
            assert_eq!(*funcresulttype, oids().zdbquery);
            assert_eq!(args.len(), 2);
            assert_eq!(args[0], constant(LIMIT));
            assert_eq!(args[1], constant(BEER));
        }
        _ => panic!("the right side is not wrapped"),
    }
    assert_eq!(evaluate(pushed_size(&q).unwrap(), Some(2), None), Some(2));
}

#[test]
fn topn_pushdown_results_match_off() {
    let expected = run(&push(base(), ScoreTopNPushdown::off), Some(2), None);
    let actual = run(&push(base(), ScoreTopNPushdown::strict), Some(2), None);
    assert_eq!(expected.0, vec![4, 3]);
    assert_eq!(actual.0, expected.0);
    assert_eq!(expected.1, 4);
    assert_eq!(actual.1, 2);
}

#[test]
fn topn_pushdown_with_offset() {
    let mut q = base();
    q.limit_offset = Some(constant(OFFSET));
    let q = push(q, ScoreTopNPushdown::strict);
    // limit and offset are pushed as a single size...
    match &pushed_size(&q).unwrap().expr {
        Expr::FuncExpr { funcid, funcresulttype, args } => {
            assert_eq!(*funcid, oids().int8pl);
            assert_eq!(*funcresulttype, 20);
            assert_eq!(args.len(), 2);
            assert_eq!(args[0], constant(OFFSET));
            assert_eq!(args[1], constant(LIMIT));
        }
        _ => panic!("the size is no sum"),
    }
    assert_eq!(evaluate(pushed_size(&q).unwrap(), Some(2), Some(1)), Some(3));
    // ...while the OFFSET itself stays
    assert_eq!(q.limit_offset, Some(constant(OFFSET)));
    assert_eq!(q.limit_count, Some(constant(LIMIT)));
    assert_eq!(run(&q, Some(2), Some(1)), (vec![3, 2], 3));
}

fn integer(host: u64, value: i64) -> Node {
    node(host, Expr::Const { constisnull: false, constvalue: Some(value) })
}

/// `LIMIT limit OFFSET offset`, both as given.
fn sized(limit: Node, offset: Node) -> Query {
    let mut q = base();
    q.limit_count = Some(limit);
    q.limit_offset = Some(offset);
    q
}

#[test]
fn topn_no_pushdown_size_out_of_range() {
    // int8(int4) and int8(int2) around smaller constants
    let cast = |funcid: u32, value: i64| func(funcid, vec![integer(45, value)]);
    let offsets = || vec![integer(OFFSET, 1), cast(481, 1), cast(754, 1)];
    for mode in [ScoreTopNPushdown::strict, ScoreTopNPushdown::primary] {
        for (offset, same) in offsets().into_iter().zip(offsets()) {
            let q = push(sized(integer(LIMIT, i64::MAX), offset), mode);
            assert_eq!(q, sized(integer(LIMIT, i64::MAX), same));
            assert_eq!(run(&q, Some(i64::MAX), Some(1)).0, vec![3, 2, 1]);
        }
        assert!(!is_pushed(sized(integer(LIMIT, 1), integer(OFFSET, i64::MAX)), mode));
    }
    // the largest sum that fits is pushed down
    for offset in offsets() {
        let q = push(sized(integer(LIMIT, i64::MAX - 1), offset), ScoreTopNPushdown::strict);
        assert!(pushed_size(&q).is_some());
    }
    let q = push(
        sized(integer(LIMIT, i64::MAX - 1), integer(OFFSET, 1)),
        ScoreTopNPushdown::strict,
    );
    assert_eq!(run(&q, Some(i64::MAX - 1), Some(1)).0, vec![3, 2, 1]);
    // so is the largest limit alone, and one with a null or unknown offset
    let mut alone = base();
    alone.limit_count = Some(integer(LIMIT, i64::MAX));
    assert!(is_pushed(alone, ScoreTopNPushdown::strict));
    let null = node(OFFSET, Expr::Const { constisnull: true, constvalue: None });
    assert!(is_pushed(sized(integer(LIMIT, i64::MAX), null), ScoreTopNPushdown::strict));
    assert!(is_pushed(sized(integer(LIMIT, i64::MAX), constant(OFFSET)), ScoreTopNPushdown::strict));
}

#[test]
fn topn_no_pushdown_when_off() {
    assert_eq!(push(base(), ScoreTopNPushdown::off), base());
}

#[test]
fn topn_no_pushdown_extra_qual() {
    fn make() -> Query {
        let mut q = base();
        q.jointree.as_mut().unwrap().quals =
            Some(other(vec![search(constant(BEER)), op(470, vec![var(1, 1), constant(41)])]));
        q
    }
    assert!(strict_leaves(make));
}

#[test]
fn topn_no_pushdown_secondary_sort_strict() {
    fn make() -> Query {
        let mut q = base();
        q.sort_clause.push(SortGroupClause { tle_sort_group_ref: 2, sortop: INT8_LT });
        q
    }
    assert!(strict_leaves(make));
}

#[test]
fn topn_pushdown_secondary_sort_primary() {
    let mut q = base();
    q.sort_clause.push(SortGroupClause { tle_sort_group_ref: 2, sortop: INT8_LT });
    let q = push(q, ScoreTopNPushdown::primary);
    assert_eq!(evaluate(pushed_size(&q).unwrap(), Some(2), None), Some(2));
    assert_eq!(run(&q, Some(2), None).0, vec![4, 3]);
}

#[test]
fn topn_no_pushdown_score_not_first_primary() {
    let mut q = base();
    q.sort_clause.insert(0, SortGroupClause { tle_sort_group_ref: 2, sortop: INT8_LT });
    assert!(!is_pushed(q, ScoreTopNPushdown::primary));
}

#[test]
fn topn_no_pushdown_score_asc() {
    fn make() -> Query {
        let mut q = base();
        q.sort_clause[0].sortop = FLOAT8_LT;
        q
    }
    assert!(strict_leaves(make));
}

#[test]
fn topn_no_pushdown_with_ties() {
    fn make() -> Query {
        let mut q = base();
        q.limit_option = LimitOption::WithTies;
        q
    }
    assert!(strict_leaves(make));
}

#[test]
fn topn_no_pushdown_distinct() {
    fn make() -> Query {
        let mut q = base();
        q.distinct_clause = true;
        q
    }
    assert!(strict_leaves(make));
}

#[test]
fn topn_no_pushdown_other_clauses() {
    let spoil: Vec<fn(&mut Query)> = vec![
        |q| q.command_type = CmdType::Update,
        |q| q.has_aggs = true,
        |q| q.has_window_funcs = true,
        |q| q.has_target_srfs = true,
        |q| q.set_operations = true,
        |q| q.group_clause = true,
        |q| q.grouping_sets = true,
        |q| q.window_clause = true,
        |q| q.having_qual = true,
        |q| q.row_marks = true,
        |q| q.limit_count = None,
        |q| q.limit_count = Some(node(LIMIT, Expr::Const { constisnull: true, constvalue: None })),
        |q| q.sort_clause = vec![],
        |q| q.jointree = None,
        |q| q.rtable[0].rtekind = RTEKind::Subquery,
        |q| q.rtable[0].security_quals = true,
        |q| q.rtable[0].tablesample = true,
    ];
    for change in spoil {
        let mut q = base();
        change(&mut q);
        let mut untouched = base();
        change(&mut untouched);
        assert_eq!(push(q, ScoreTopNPushdown::strict), untouched);
    }
}

#[test]
fn topn_explicit_dsl_limit_wins() {
    for limiter in [oids().dsl_limit, oids().dsl_offset, oids().dsl_offset_limit] {
        let explicit = func(limiter, vec![constant(42), constant(BEER)]);
        let nested = func(9100, vec![other(vec![func(limiter, vec![constant(42)])])]);
        for rhs in [explicit, nested] {
            let mut q = base();
            q.jointree.as_mut().unwrap().quals = Some(search(rhs));
            assert!(!is_pushed(q, ScoreTopNPushdown::strict));
        }
    }
    // any other wrapper is fine
    let mut q = base();
    q.jointree.as_mut().unwrap().quals =
        Some(search(func(9100, vec![constant(42), constant(BEER)])));
    assert!(is_pushed(q, ScoreTopNPushdown::strict));
}

fn joined(from: Node) -> Query {
    let mut q = base();
    q.rtable.push(table());
    q.rtable.push(table());
    q.jointree.as_mut().unwrap().fromlist = vec![from];
    q
}

fn on() -> Node {
    op(467, vec![var(2, 1), var(1, 1)])
}

#[test]
fn topn_pushdown_left_join() {
    let q = push(
        joined(join(JoinType::Left, table_ref(1), table_ref(2), on())),
        ScoreTopNPushdown::strict,
    );
    assert_eq!(evaluate(pushed_size(&q).unwrap(), Some(2), None), Some(2));
    assert_eq!(run(&q, Some(2), None).0, vec![4, 3]);
}

#[test]
fn topn_no_pushdown_inner_join() {
    let q = joined(join(JoinType::Inner, table_ref(1), table_ref(2), on()));
    assert!(!is_pushed(q, ScoreTopNPushdown::strict));
}

#[test]
fn topn_join_paths() {
    let safe = vec![
        join(JoinType::Right, table_ref(2), table_ref(1), on()),
        join(
            JoinType::Left,
            join(JoinType::Right, table_ref(2), table_ref(1), on()),
            join(JoinType::Inner, table_ref(3), table_ref(2), on()),
            on(),
        ),
    ];
    for from in safe {
        assert!(is_pushed(joined(from), ScoreTopNPushdown::strict));
    }
    let unsafe_paths = vec![
        join(JoinType::Left, table_ref(2), table_ref(1), on()),
        join(JoinType::Right, table_ref(1), table_ref(2), on()),
        join(JoinType::Full, table_ref(1), table_ref(2), on()),
        join(JoinType::Semi, table_ref(1), table_ref(2), on()),
        join(JoinType::Anti, table_ref(1), table_ref(2), on()),
        join(
            JoinType::Left,
            join(JoinType::Inner, table_ref(1), table_ref(2), on()),
            table_ref(3),
            on(),
        ),
        table_ref(2),
        other(vec![table_ref(1)]),
    ];
    for from in unsafe_paths {
        assert!(!is_pushed(joined(from), ScoreTopNPushdown::strict));
    }
}

#[test]
fn topn_no_pushdown_two_from_items() {
    let mut q = joined(table_ref(1));
    q.jointree.as_mut().unwrap().fromlist.push(table_ref(2));
    assert!(!is_pushed(q, ScoreTopNPushdown::strict));
}

/// `... FROM t LEFT JOIN o ON o.tid = t.id WHERE t ==> rhs ...`
fn searched_for(rhs: Node) -> Query {
    let mut q = joined(join(JoinType::Left, table_ref(1), table_ref(2), on()));
    q.jointree.as_mut().unwrap().quals = Some(search(rhs));
    q
}

#[test]
fn topn_no_pushdown_search_reads_columns() {
    // the search differs from row to row, so the best hits of one search are
    // not the best rows: with `o` joining row 1 alone, only row 1 comes back
    let searches: Vec<fn() -> Node> = vec![
        || var(2, 2),
        || var(1, 2),
        || func(9100, vec![constant(42), var(2, 2)]),
        || op(9101, vec![constant(42), other(vec![var(2, 2)])]),
        || other(vec![node(16, Expr::SubQuery { outer_varnos: vec![2] })]),
    ];
    for rhs in searches {
        for mode in [ScoreTopNPushdown::strict, ScoreTopNPushdown::primary] {
            assert_eq!(push(searched_for(rhs()), mode), searched_for(rhs()));
        }
    }
    // a column of a level further out is the same for every row
    let outer = node(10, Expr::Var { varno: 2, varattno: 2, varlevelsup: 1 });
    assert!(is_pushed(searched_for(outer), ScoreTopNPushdown::strict));
    let alone = other(vec![node(16, Expr::SubQuery { outer_varnos: vec![] })]);
    assert!(is_pushed(searched_for(alone), ScoreTopNPushdown::strict));
    assert!(is_pushed(searched_for(constant(BEER)), ScoreTopNPushdown::strict));
}

#[test]
fn topn_no_pushdown_restricted_table() {
    let mut secured = base();
    secured.rtable[0].security_quals = true;
    assert!(!is_pushed(secured, ScoreTopNPushdown::primary));
    let mut sampled = base();
    sampled.rtable[0].tablesample = true;
    assert!(!is_pushed(sampled, ScoreTopNPushdown::primary));
    // what restricts the optional side of a join removes no row of the table
    let mut q = joined(join(JoinType::Left, table_ref(1), table_ref(2), on()));
    q.rtable[1].security_quals = true;
    q.rtable[2].tablesample = true;
    assert!(is_pushed(q, ScoreTopNPushdown::strict));
}

#[test]
fn topn_no_pushdown_second_search() {
    let q = joined(join(JoinType::Left, table_ref(1), table_ref(2), search(constant(43))));
    assert!(!is_pushed(q, ScoreTopNPushdown::strict));
}

#[test]
fn topn_no_pushdown_score_of_other_relation() {
    let mut q = joined(join(JoinType::Left, table_ref(1), table_ref(2), on()));
    q.target_list[1].expr = func(oids().zdb_score, vec![var(2, -1)]);
    assert!(!is_pushed(q, ScoreTopNPushdown::strict));

    let mut q = base();
    q.jointree.as_mut().unwrap().quals =
        Some(op(oids().anyelement_cmp, vec![other(vec![var(1, 0), var(2, 1)]), constant(BEER)]));
    assert!(!is_pushed(q, ScoreTopNPushdown::strict));
}

#[test]
fn topn_no_pushdown_score_of_something_else() {
    let arguments = vec![
        vec![var(1, 2)],
        vec![node(10, Expr::Var { varno: 1, varattno: -1, varlevelsup: 1 })],
        vec![constant(44)],
        vec![],
        vec![var(0, -1)],
        vec![var(7, -1)],
        vec![var(i32::MIN, -1)],
    ];
    for args in arguments {
        let mut q = base();
        q.target_list[1].expr = func(oids().zdb_score, args);
        assert!(!is_pushed(q, ScoreTopNPushdown::strict));
    }
    let mut q = base();
    q.target_list[1].expr = func(9200, vec![var(1, -1)]);
    assert!(!is_pushed(q, ScoreTopNPushdown::strict));
    let mut q = base();
    q.target_list[1].expr = var(1, 1);
    assert!(!is_pushed(q, ScoreTopNPushdown::strict));
    let mut q = base();
    q.sort_clause[0].tle_sort_group_ref = 5;
    assert!(!is_pushed(q, ScoreTopNPushdown::strict));
}

#[test]
fn topn_pushdown_in_subquery() {
    let q = push(around(RTEKind::Subquery, base()), ScoreTopNPushdown::strict);
    let sub = q.rtable[0].subquery.as_ref().unwrap();
    assert_eq!(evaluate(pushed_size(sub).unwrap(), Some(2), None), Some(2));
    assert_eq!(run(sub, Some(2), None).0, vec![4, 3]);
    // an entry of another kind is not walked
    let q = push(around(RTEKind::Relation, base()), ScoreTopNPushdown::strict);
    assert_eq!(**q.rtable[0].subquery.as_ref().unwrap(), base());
}

#[test]
fn topn_pushdown_in_cte() {
    let mut q = around(RTEKind::Subquery, around(RTEKind::Subquery, base()));
    q.cte_list = vec![
        CommonTableExpr { ctequery: CteQuery::Raw },
        CommonTableExpr { ctequery: CteQuery::Query(Box::new(base())) },
        CommonTableExpr { ctequery: CteQuery::Absent },
    ];
    let q = push(q, ScoreTopNPushdown::strict);
    match &q.cte_list[1].ctequery {
        CteQuery::Query(cte) => assert!(pushed_size(cte).is_some()),
        _ => panic!("the WITH item is gone"),
    }
    assert_eq!(q.cte_list[0].ctequery, CteQuery::Raw);
    assert_eq!(q.cte_list[2].ctequery, CteQuery::Absent);
    let middle = q.rtable[0].subquery.as_ref().unwrap();
    let inner = middle.rtable[0].subquery.as_ref().unwrap();
    assert!(pushed_size(inner).is_some());
}

fn prepared() -> Query {
    let mut q = base();
    q.limit_count = Some(node(LIMIT, Expr::Other { children: vec![] }));
    q
}

#[test]
fn topn_param_limit_executes() {
    let q = push(prepared(), ScoreTopNPushdown::strict);
    let size = pushed_size(&q).unwrap();
    assert_eq!(*size, node(LIMIT, Expr::Other { children: vec![] }));
    assert_eq!(run(&q, Some(2), None), (vec![4, 3], 2));
}

#[test]
fn topn_param_null_limit_means_all() {
    let q = push(prepared(), ScoreTopNPushdown::strict);
    assert!(pushed_size(&q).is_some());
    assert_eq!(run(&q, None, None), (vec![4, 3, 2, 1], 4));
    assert_eq!(score_topn_limit(None, beer()), beer());
    let mut unlimited = base();
    unlimited.limit_offset = Some(constant(OFFSET));
    let unlimited = push(unlimited, ScoreTopNPushdown::strict);
    assert_eq!(run(&unlimited, None, None), (vec![4, 3, 2, 1], 4));
    assert_eq!(run(&unlimited, Some(2), None), (vec![4, 3], 4));
}

#[test]
fn topn_guc_defaults_to_strict() {
    assert_eq!(ScoreTopNPushdown::default(), ScoreTopNPushdown::strict);
}

#[test]
fn pushing_down_twice_is_pushing_down_once() {
    let once = push(around(RTEKind::Subquery, base()), ScoreTopNPushdown::strict);
    let mut twice = push(around(RTEKind::Subquery, base()), ScoreTopNPushdown::strict);
    perform_with_oids(&mut twice, ScoreTopNPushdown::strict, Some(oids()));
    assert_eq!(twice, once);
}

#[test]
fn strict_and_primary_agree_on_one_key() {
    assert_eq!(
        push(base(), ScoreTopNPushdown::strict),
        push(base(), ScoreTopNPushdown::primary)
    );
}

#[test]
fn only_the_right_side_changes() {
    let mut q = push(base(), ScoreTopNPushdown::strict);
    if let Expr::OpExpr { args, .. } =
        &mut q.jointree.as_mut().unwrap().quals.as_mut().unwrap().expr
    {
        args[1] = constant(BEER);
    }
    assert_eq!(q, base());
}

#[test]
fn nothing_is_pushed_without_oids() {
    let mut q = base();
    perform_with_oids(&mut q, ScoreTopNPushdown::strict, None);
    assert_eq!(q, base());
}

#[test]
fn oids_are_looked_up_once_and_only_if_needed() {
    let lookups = Cell::new(0);
    let lookup = || {
        lookups.set(lookups.get() + 1);
        Some(oids())
    };

    let mut q = base();
    q.distinct_clause = true;
    perform(&mut q, ScoreTopNPushdown::strict, &lookup);
    assert_eq!(lookups.get(), 0);

    let mut q = base();
    perform(&mut q, ScoreTopNPushdown::off, &lookup);
    assert_eq!(lookups.get(), 0);
    assert_eq!(q, base());

    // three levels pass the cheap checks, and all are pushed down
    let mut q = base();
    q.rtable.push(entry(RTEKind::Subquery, Some(Box::new(base()))));
    q.cte_list.push(CommonTableExpr { ctequery: CteQuery::Query(Box::new(base())) });
    perform(&mut q, ScoreTopNPushdown::strict, &lookup);
    assert_eq!(lookups.get(), 1);
    assert!(pushed_size(&q).is_some());
    assert!(pushed_size(q.rtable[1].subquery.as_ref().unwrap()).is_some());
    match &q.cte_list[0].ctequery {
        CteQuery::Query(cte) => assert!(pushed_size(cte).is_some()),
        _ => panic!("the WITH item is gone"),
    }
}

#[test]
fn every_level_is_pushed_for_itself() {
    // an outer level that qualifies, around one that does not, around one that
    // does
    let mut middle = around(RTEKind::Subquery, base());
    middle.distinct_clause = true;
    let mut q = base();
    q.rtable.push(entry(RTEKind::Subquery, Some(Box::new(middle))));
    let mut oids_of_walk = LazyOids::new(|| Some(oids()));
    walk_query(&mut q, ScoreTopNPushdown::strict, &mut oids_of_walk);
    assert_eq!(oids_of_walk.force(), Some(oids()));
    assert!(pushed_size(&q).is_some());
    let middle = q.rtable[1].subquery.as_ref().unwrap();
    assert!(middle.jointree.as_ref().unwrap().quals.is_none());
    let inner = middle.rtable[0].subquery.as_ref().unwrap();
    assert_eq!(**inner, push(base(), ScoreTopNPushdown::strict));
    assert_eq!(run(inner, Some(2), None), (vec![4, 3], 2));
}

#[test]
fn one_level_is_pushed_alone() {
    let mut q = base();
    q.rtable.push(entry(RTEKind::Subquery, Some(Box::new(base()))));
    let mut oids_of_level = LazyOids::new(|| Some(oids()));
    try_pushdown(&mut q, ScoreTopNPushdown::strict, &mut oids_of_level);
    assert!(pushed_size(&q).is_some());
    assert_eq!(**q.rtable[1].subquery.as_ref().unwrap(), base());
}

#[test]
fn a_failed_lookup_is_not_repeated() {
    let lookups = Cell::new(0);
    let lookup = || {
        lookups.set(lookups.get() + 1);
        None
    };
    let mut q = base();
    q.cte_list.push(CommonTableExpr { ctequery: CteQuery::Query(Box::new(base())) });
    perform(&mut q, ScoreTopNPushdown::strict, &lookup);
    assert_eq!(lookups.get(), 1);
    assert!(pushed_size(&q).is_none());
}

#[test]
fn the_first_matching_target_decides() {
    let mut q = base();
    q.target_list.insert(0, TargetEntry { ressortgroupref: 1, expr: var(1, 1) });
    assert!(!is_pushed(q, ScoreTopNPushdown::strict));
    let mut q = base();
    q.target_list.push(TargetEntry { ressortgroupref: 1, expr: var(1, 1) });
    assert!(is_pushed(q, ScoreTopNPushdown::strict));
}
