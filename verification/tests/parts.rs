//! The parts of the pushdown, one by one.

use std::cell::RefCell;

use score_topn::catalog::{CatalogRequest, TopNOids};
use score_topn::limit::{score_topn_limit, ZDBQuery};
use score_topn::pushdown::{contains_rtindex, join_path_is_safe};
use score_topn::scan::{
    contains_explicit_limit, count_funcid, expr_scan_walker, mentions_columns, references_only,
    ExprScanContext,
};
use score_topn::tree::{copy_node, Expr, FromExpr, JoinType, Node};

fn leaf(expr: Expr) -> Node {
    Node { host: 7, expr }
}

fn var(varno: i32, varlevelsup: u32) -> Node {
    leaf(Expr::Var { varno, varattno: 1, varlevelsup })
}

fn func(funcid: u32, args: Vec<Node>) -> Node {
    leaf(Expr::FuncExpr { funcid, funcresulttype: 20, args })
}

fn op(opfuncid: u32, args: Vec<Node>) -> Node {
    leaf(Expr::OpExpr { opfuncid, args })
}

fn sub_query(outer_varnos: Vec<i32>) -> Node {
    leaf(Expr::SubQuery { outer_varnos })
}

fn table_ref(rtindex: i32) -> Node {
    leaf(Expr::RangeTblRef { rtindex })
}

fn left_join(larg: Option<Node>, rarg: Option<Node>, quals: Option<Node>) -> Node {
    leaf(Expr::JoinExpr {
        jointype: JoinType::Left,
        larg: larg.map(Box::new),
        rarg: rarg.map(Box::new),
        quals: quals.map(Box::new),
    })
}

fn search(text: &str) -> ZDBQuery {
    ZDBQuery { limit: Some(9), query: String::from(text) }
}

#[test]
fn a_limit_is_set() {
    let limited = score_topn_limit(Some(3), search("beer"));
    assert_eq!(limited, ZDBQuery { limit: Some(3), query: String::from("beer") });
    assert_eq!(score_topn_limit(Some(0), search("beer")).limit, Some(0));
    assert_eq!(
        score_topn_limit(Some(i64::MAX), search("beer")).limit,
        Some(9_223_372_036_854_775_807)
    );
}

#[test]
fn a_null_or_negative_limit_is_none() {
    assert_eq!(score_topn_limit(None, search("beer")), search("beer"));
    assert_eq!(score_topn_limit(Some(-1), search("beer")), search("beer"));
    assert_eq!(score_topn_limit(Some(i64::MIN), search("beer")), search("beer"));
}

#[test]
fn calls_are_counted_everywhere() {
    let tree = || FromExpr {
        fromlist: vec![left_join(
            Some(table_ref(1)),
            Some(table_ref(2)),
            Some(op(100, vec![func(100, vec![])])),
        )],
        quals: Some(leaf(Expr::Other { children: vec![op(100, vec![]), op(200, vec![])] })),
    };
    assert_eq!(count_funcid(&tree(), 100, true), 3);
    assert_eq!(count_funcid(&tree(), 100, false), 1);
    assert_eq!(count_funcid(&tree(), 200, true), 1);
    assert_eq!(count_funcid(&tree(), 300, true), 0);
    assert_eq!(count_funcid(&FromExpr { fromlist: vec![], quals: None }, 100, true), 0);
}

#[test]
fn a_scan_adds_to_its_context() {
    let mut context = ExprScanContext {
        funcids: vec![100, 200],
        match_opexprs: true,
        count: 5,
        required_varno: Some(1),
        var_count: usize::MAX,
        foreign_var_count: 2,
    };
    expr_scan_walker(&op(200, vec![var(1, 0), var(2, 0), var(1, 1), func(100, vec![])]), &mut context);
    assert_eq!(context.count, 7);
    assert_eq!(context.var_count, usize::MAX);
    assert_eq!(context.foreign_var_count, 4);
}

#[test]
fn references_are_told_apart() {
    assert!(references_only(&var(1, 0), 1));
    assert!(references_only(&func(9, vec![var(1, 0), var(1, 0)]), 1));
    assert!(!references_only(&var(2, 0), 1));
    assert!(!references_only(&var(1, 1), 1));
    assert!(!references_only(&func(9, vec![var(1, 0), var(2, 0)]), 1));
    assert!(!references_only(&func(9, vec![]), 1));
    // a sub-query may read the entry, but is no mention of it by itself
    assert!(!references_only(&sub_query(vec![1]), 1));
    assert!(references_only(&func(9, vec![var(1, 0), sub_query(vec![1, 1])]), 1));
    assert!(references_only(&func(9, vec![var(1, 0), sub_query(vec![])]), 1));
    assert!(!references_only(&func(9, vec![var(1, 0), sub_query(vec![1, 2])]), 1));
}

#[test]
fn columns_are_found_everywhere() {
    assert!(mentions_columns(&var(1, 0)));
    assert!(mentions_columns(&func(9, vec![leaf(Expr::Const { constisnull: false, constvalue: None }), var(2, 0)])));
    assert!(mentions_columns(&op(9, vec![op(8, vec![var(2, 0)])])));
    assert!(mentions_columns(&leaf(Expr::Other { children: vec![var(1, 0)] })));
    assert!(mentions_columns(&left_join(Some(table_ref(1)), None, Some(var(1, 0)))));
    assert!(mentions_columns(&left_join(None, Some(func(9, vec![var(1, 0)])), None)));
    assert!(mentions_columns(&func(9, vec![sub_query(vec![2])])));
    assert!(!mentions_columns(&func(9, vec![sub_query(vec![])])));
    assert!(!mentions_columns(&var(1, 1)));
    assert!(!mentions_columns(&func(9, vec![])));
    assert!(!mentions_columns(&left_join(Some(table_ref(1)), Some(table_ref(2)), None)));
    assert!(!mentions_columns(&leaf(Expr::Const { constisnull: true, constvalue: None })));
}

#[test]
fn explicit_limits_are_found() {
    let oids = TopNOids {
        zdbquery: 1,
        zdb_score: 2,
        anyelement_cmp: 3,
        score_topn_limit: 4,
        dsl_limit: 5,
        dsl_offset: 6,
        dsl_offset_limit: 7,
        int8pl: 8,
        float8_gt: 9,
    };
    for funcid in [4, 5, 6, 7] {
        assert!(contains_explicit_limit(&func(funcid, vec![]), &oids));
        assert!(contains_explicit_limit(&op(1, vec![func(funcid, vec![])]), &oids));
        assert!(!contains_explicit_limit(&op(funcid, vec![]), &oids));
    }
    for funcid in [1, 2, 3, 8, 9] {
        assert!(!contains_explicit_limit(&func(funcid, vec![]), &oids));
    }
}

#[test]
fn join_trees_with_missing_sides() {
    assert!(join_path_is_safe(&left_join(Some(table_ref(1)), None, None), 1));
    assert!(!join_path_is_safe(&left_join(None, Some(table_ref(1)), None), 1));
    assert!(contains_rtindex(&left_join(None, Some(table_ref(1)), None), 1));
    assert!(!contains_rtindex(&left_join(None, Some(table_ref(1)), None), 2));
    assert!(!contains_rtindex(&leaf(Expr::Other { children: vec![table_ref(1)] }), 1));
}

#[test]
fn copies_are_equal() {
    let tree = left_join(
        Some(op(1, vec![leaf(Expr::Const { constisnull: true, constvalue: None }), var(3, 2)])),
        None,
        Some(leaf(Expr::Other { children: vec![func(4, vec![table_ref(5)])] })),
    );
    assert_eq!(copy_node(&tree), tree);
}

/// Answers with 101, 102 and so on, up to the failing question if there is
/// one, and keeps what was asked.
fn answer(
    asked: &RefCell<Vec<CatalogRequest>>,
    failing: Option<(usize, Option<u32>)>,
    request: CatalogRequest,
) -> Option<u32> {
    asked.borrow_mut().push(request);
    let count = asked.borrow().len();
    match failing {
        Some((at, reply)) if at == count => reply,
        _ => Some(100 + count as u32),
    }
}

#[test]
fn lookup_asks_for_everything() {
    let asked = RefCell::new(Vec::new());
    let oids = TopNOids::lookup(|request| answer(&asked, None, request));
    assert_eq!(
        oids,
        Some(TopNOids {
            zdbquery: 101,
            float8_gt: 102,
            zdb_score: 103,
            anyelement_cmp: 104,
            score_topn_limit: 105,
            dsl_limit: 106,
            dsl_offset: 107,
            dsl_offset_limit: 108,
            int8pl: 109,
        })
    );
    let function = |schema, name, arg_types| CatalogRequest::Function { schema, name, arg_types };
    assert_eq!(
        asked.into_inner(),
        vec![
            CatalogRequest::Type { name: "zdbquery" },
            CatalogRequest::GreaterThan { type_oid: 701 },
            function("zdb", "score", vec![27]),
            function("zdb", "anyelement_cmpfunc", vec![2283, 101]),
            function("zdb", "score_topn_limit", vec![20, 101]),
            function("dsl", "limit", vec![20, 101]),
            function("dsl", "offset", vec![20, 101]),
            function("dsl", "offset_limit", vec![20, 20, 101]),
            function("pg_catalog", "int8pl", vec![20, 20]),
        ]
    );
}

#[test]
fn lookup_stops_at_the_first_failure() {
    for at in 1..10 {
        let asked = RefCell::new(Vec::new());
        let oids = TopNOids::lookup(|request| answer(&asked, Some((at, None)), request));
        assert_eq!(oids, None);
        assert_eq!(asked.into_inner().len(), at);
    }
}

#[test]
fn lookup_takes_no_invalid_type_or_operator() {
    for at in 1..10 {
        let asked = RefCell::new(Vec::new());
        let oids = TopNOids::lookup(|request| answer(&asked, Some((at, Some(0))), request));
        assert_eq!(oids.is_none(), at <= 2);
    }
}
