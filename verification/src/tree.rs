//! The parts of a planner query tree that the pushdown reads and rewrites.
//!
//! Each executable type has a mathematical counterpart (`NodeView`,
//! `QueryView` and so on) in which lists are sequences; `@` maps the one to
//! the other, and every contract of the crate speaks of the latter.

use vstd::prelude::*;

verus! {

/// An object identifier of the system catalogs.
pub type Oid = u32;

/// What a statement does.
#[derive(Clone, Copy, Debug, PartialEq, Eq, Structural)]
pub enum CmdType {
    Select,
    Update,
    Insert,
    Delete,
    Merge,
    Utility,
    Nothing,
    Unknown,
}

/// How `LIMIT` treats rows that tie with the last one.
#[derive(Clone, Copy, Debug, PartialEq, Eq, Structural)]
pub enum LimitOption {
    /// `LIMIT n`: at most `n` rows.
    Count,
    /// `FETCH FIRST n ROWS WITH TIES`: possibly more than `n` rows.
    WithTies,
    /// No `LIMIT` clause was written.
    Default,
}

/// What a range table entry stands for.
#[derive(Clone, Copy, Debug, PartialEq, Eq, Structural)]
pub enum RTEKind {
    Relation,
    Subquery,
    Join,
    Function,
    TableFunc,
    Values,
    Cte,
    NamedTupleStore,
    Result,
}

/// The kind of a join.
#[derive(Clone, Copy, Debug, PartialEq, Eq, Structural)]
pub enum JoinType {
    Inner,
    Left,
    Full,
    Right,
    Semi,
    Anti,
    UniqueOuter,
    UniqueInner,
}

/// A node of an expression tree or of a join tree.
#[derive(Debug, PartialEq, Eq)]
pub struct Node {
    /// Address of the planner's own node, carried along unread; 0 for a node
    /// that the pushdown made.
    pub host: u64,
    pub expr: Expr,
}

/// What a node is. Nodes that the pushdown does not tell apart are `Other`.
#[derive(Debug, PartialEq, Eq)]
pub enum Expr {
    /// A constant, with its value if that is an integer.
    Const { constisnull: bool, constvalue: Option<i64> },
    Var { varno: i32, varattno: i16, varlevelsup: u32 },
    FuncExpr { funcid: Oid, funcresulttype: Oid, args: Vec<Node> },
    OpExpr { opfuncid: Oid, args: Vec<Node> },
    RangeTblRef { rtindex: i32 },
    JoinExpr {
        jointype: JoinType,
        larg: Option<Box<Node>>,
        rarg: Option<Box<Node>>,
        quals: Option<Box<Node>>,
    },
    /// A sub-query within an expression, with the range table entries of the
    /// level around it whose columns it reads. An expression tree walk does
    /// not go into it.
    SubQuery { outer_varnos: Vec<i32> },
    /// Any other node, with the nodes that an expression tree walk visits
    /// directly below it.
    Other { children: Vec<Node> },
}

/// Mathematical counterpart of [`Node`].
#[verifier::ext_equal]
pub struct NodeView {
    pub host: u64,
    pub expr: ExprView,
}

/// Mathematical counterpart of [`Expr`].
#[verifier::ext_equal]
pub enum ExprView {
    Const { constisnull: bool, constvalue: Option<i64> },
    Var { varno: i32, varattno: i16, varlevelsup: u32 },
    FuncExpr { funcid: Oid, funcresulttype: Oid, args: Seq<NodeView> },
    OpExpr { opfuncid: Oid, args: Seq<NodeView> },
    RangeTblRef { rtindex: i32 },
    JoinExpr {
        jointype: JoinType,
        larg: Option<Box<NodeView>>,
        rarg: Option<Box<NodeView>>,
        quals: Option<Box<NodeView>>,
    },
    SubQuery { outer_varnos: Seq<i32> },
    Other { children: Seq<NodeView> },
}

impl Node {
    pub open spec fn view(self) -> NodeView
        decreases self,
    {
        NodeView { host: self.host, expr: self.expr.view() }
    }
}

impl Expr {
    pub open spec fn view(self) -> ExprView
        decreases self,
    {
        match self {
            Expr::Const { constisnull, constvalue } => ExprView::Const { constisnull, constvalue },
            Expr::Var { varno, varattno, varlevelsup } => ExprView::Var {
                varno,
                varattno,
                varlevelsup,
            },
            Expr::FuncExpr { funcid, funcresulttype, args } => ExprView::FuncExpr {
                funcid,
                funcresulttype,
                args: node_views(args@),
            },
            Expr::OpExpr { opfuncid, args } => ExprView::OpExpr {
                opfuncid,
                args: node_views(args@),
            },
            Expr::RangeTblRef { rtindex } => ExprView::RangeTblRef { rtindex },
            Expr::JoinExpr { jointype, larg, rarg, quals } => ExprView::JoinExpr {
                jointype,
                larg: link_view(larg),
                rarg: link_view(rarg),
                quals: link_view(quals),
            },
            Expr::SubQuery { outer_varnos } => ExprView::SubQuery { outer_varnos: outer_varnos@ },
            Expr::Other { children } => ExprView::Other { children: node_views(children@) },
        }
    }
}

/// The views of the nodes of a list.
pub open spec fn node_views(nodes: Seq<Node>) -> Seq<NodeView>
    decreases nodes,
{
    Seq::new(
        nodes.len(),
        |i: int|
            if 0 <= i < nodes.len() {
                nodes[i].view()
            } else {
                arbitrary()
            },
    )
}

/// The view of a node that may be absent.
pub open spec fn link_view(link: Option<Box<Node>>) -> Option<Box<NodeView>>
    decreases link,
{
    match link {
        Some(node) => Some(Box::new(node.view())),
        None => None,
    }
}

/// A copy of a list of nodes, all the way down.
pub fn copy_nodes(nodes: &Vec<Node>) -> (copy: Vec<Node>)
    ensures
        node_views(copy@) == node_views(nodes@),
    decreases nodes,
{
    let mut copy: Vec<Node> = Vec::new();
    let mut i: usize = 0;
    while i < nodes.len()
        invariant
            i <= nodes.len(),
            copy.len() == i,
            forall|j: int| 0 <= j < i ==> (#[trigger] copy@[j])@ == nodes@[j]@,
        decreases nodes.len() - i,
    {
        copy.push(copy_node(&nodes[i]));
        i += 1;
    }
    assert(node_views(copy@) =~= node_views(nodes@));
    copy
}

/// A copy of a list of range table indexes.
fn copy_varnos(varnos: &Vec<i32>) -> (copy: Vec<i32>)
    ensures
        copy@ == varnos@,
{
    let mut copy: Vec<i32> = Vec::new();
    let mut i: usize = 0;
    while i < varnos.len()
        invariant
            i <= varnos.len(),
            copy@ == varnos@.take(i as int),
        decreases varnos.len() - i,
    {
        copy.push(varnos[i]);
        i += 1;
    }
    copy
}

/// A copy of a node that may be absent, all the way down.
fn copy_link(link: &Option<Box<Node>>) -> (copy: Option<Box<Node>>)
    ensures
        link_view(copy) == link_view(*link),
    decreases link,
{
    match link {
        Some(node) => Some(Box::new(copy_node(node))),
        None => None,
    }
}

/// A copy of a node, all the way down.
pub fn copy_node(node: &Node) -> (copy: Node)
    ensures
        copy@ == node@,
    decreases node,
{
    let expr = match &node.expr {
        Expr::Const { constisnull, constvalue } => Expr::Const {
            constisnull: *constisnull,
            constvalue: *constvalue,
        },
        Expr::Var { varno, varattno, varlevelsup } => Expr::Var {
            varno: *varno,
            varattno: *varattno,
            varlevelsup: *varlevelsup,
        },
        Expr::FuncExpr { funcid, funcresulttype, args } => Expr::FuncExpr {
            funcid: *funcid,
            funcresulttype: *funcresulttype,
            args: copy_nodes(args),
        },
        Expr::OpExpr { opfuncid, args } => Expr::OpExpr {
            opfuncid: *opfuncid,
            args: copy_nodes(args),
        },
        Expr::RangeTblRef { rtindex } => Expr::RangeTblRef { rtindex: *rtindex },
        Expr::JoinExpr { jointype, larg, rarg, quals } => Expr::JoinExpr {
            jointype: *jointype,
            larg: copy_link(larg),
            rarg: copy_link(rarg),
            quals: copy_link(quals),
        },
        Expr::SubQuery { outer_varnos } => Expr::SubQuery {
            outer_varnos: copy_varnos(outer_varnos),
        },
        Expr::Other { children } => Expr::Other { children: copy_nodes(children) },
    };
    Node { host: node.host, expr }
}

/// A sort key: the operator that orders it, and which target it sorts by.
#[derive(Clone, Copy, Debug, PartialEq, Eq, Structural)]
pub struct SortGroupClause {
    pub tle_sort_group_ref: u32,
    pub sortop: Oid,
}

/// An output column of a query level.
#[derive(Debug, PartialEq, Eq)]
pub struct TargetEntry {
    pub ressortgroupref: u32,
    pub expr: Node,
}

/// The `FROM` list of a query level and its `WHERE` clause.
#[derive(Debug, PartialEq, Eq)]
pub struct FromExpr {
    pub fromlist: Vec<Node>,
    pub quals: Option<Node>,
}

/// An entry of the range table.
#[derive(Debug, PartialEq, Eq)]
pub struct RangeTblEntry {
    pub rtekind: RTEKind,
    /// Whether row-level security restricts the rows of the entry.
    pub security_quals: bool,
    /// Whether a `TABLESAMPLE` clause picks some of the rows of the entry.
    pub tablesample: bool,
    pub subquery: Option<Box<Query>>,
}

/// What a `WITH` item holds.
#[derive(Debug, PartialEq, Eq)]
pub enum CteQuery {
    /// Nothing.
    Absent,
    /// An analyzed query.
    Query(Box<Query>),
    /// A statement that has not been analyzed.
    Raw,
}

/// A `WITH` item.
#[derive(Debug, PartialEq, Eq)]
pub struct CommonTableExpr {
    pub ctequery: CteQuery,
}

/// One level of a query. Clauses of which only the presence matters are
/// `bool`s.
#[derive(Debug, PartialEq, Eq)]
pub struct Query {
    pub command_type: CmdType,
    pub has_aggs: bool,
    pub has_window_funcs: bool,
    pub has_target_srfs: bool,
    pub set_operations: bool,
    pub group_clause: bool,
    pub grouping_sets: bool,
    pub distinct_clause: bool,
    pub window_clause: bool,
    pub having_qual: bool,
    pub row_marks: bool,
    pub limit_option: LimitOption,
    pub limit_count: Option<Node>,
    pub limit_offset: Option<Node>,
    pub sort_clause: Vec<SortGroupClause>,
    pub target_list: Vec<TargetEntry>,
    pub jointree: Option<FromExpr>,
    pub rtable: Vec<RangeTblEntry>,
    pub cte_list: Vec<CommonTableExpr>,
}

/// Mathematical counterpart of [`TargetEntry`].
#[verifier::ext_equal]
pub struct TargetEntryView {
    pub ressortgroupref: u32,
    pub expr: NodeView,
}

/// Mathematical counterpart of [`FromExpr`].
#[verifier::ext_equal]
pub struct FromExprView {
    pub fromlist: Seq<NodeView>,
    pub quals: Option<NodeView>,
}

/// Mathematical counterpart of [`RangeTblEntry`].
#[verifier::ext_equal]
pub struct RangeTblEntryView {
    pub rtekind: RTEKind,
    pub security_quals: bool,
    pub tablesample: bool,
    pub subquery: Option<Box<QueryView>>,
}

/// Mathematical counterpart of [`CteQuery`].
#[verifier::ext_equal]
pub enum CteQueryView {
    Absent,
    Query(Box<QueryView>),
    Raw,
}

/// Mathematical counterpart of [`CommonTableExpr`].
#[verifier::ext_equal]
pub struct CommonTableExprView {
    pub ctequery: CteQueryView,
}

/// Mathematical counterpart of [`Query`].
#[verifier::ext_equal]
pub struct QueryView {
    pub command_type: CmdType,
    pub has_aggs: bool,
    pub has_window_funcs: bool,
    pub has_target_srfs: bool,
    pub set_operations: bool,
    pub group_clause: bool,
    pub grouping_sets: bool,
    pub distinct_clause: bool,
    pub window_clause: bool,
    pub having_qual: bool,
    pub row_marks: bool,
    pub limit_option: LimitOption,
    pub limit_count: Option<NodeView>,
    pub limit_offset: Option<NodeView>,
    pub sort_clause: Seq<SortGroupClause>,
    pub target_list: Seq<TargetEntryView>,
    pub jointree: Option<FromExprView>,
    pub rtable: Seq<RangeTblEntryView>,
    pub cte_list: Seq<CommonTableExprView>,
}

/// The view of a node that may be absent.
pub open spec fn option_view(node: Option<Node>) -> Option<NodeView> {
    match node {
        Some(n) => Some(n@),
        None => None,
    }
}

impl TargetEntry {
    pub open spec fn view(self) -> TargetEntryView {
        TargetEntryView { ressortgroupref: self.ressortgroupref, expr: self.expr@ }
    }
}

impl FromExpr {
    pub open spec fn view(self) -> FromExprView {
        FromExprView { fromlist: node_views(self.fromlist@), quals: option_view(self.quals) }
    }
}

impl RangeTblEntry {
    pub open spec fn view(self) -> RangeTblEntryView
        decreases self,
    {
        RangeTblEntryView {
            rtekind: self.rtekind,
            security_quals: self.security_quals,
            tablesample: self.tablesample,
            subquery: match self.subquery {
                Some(q) => Some(Box::new(q.view())),
                None => None,
            },
        }
    }
}

impl CommonTableExpr {
    pub open spec fn view(self) -> CommonTableExprView
        decreases self,
    {
        CommonTableExprView {
            ctequery: match self.ctequery {
                CteQuery::Absent => CteQueryView::Absent,
                CteQuery::Query(q) => CteQueryView::Query(Box::new(q.view())),
                CteQuery::Raw => CteQueryView::Raw,
            },
        }
    }
}

/// The views of the entries of a range table.
pub open spec fn rtable_views(rtable: Seq<RangeTblEntry>) -> Seq<RangeTblEntryView>
    decreases rtable,
{
    Seq::new(
        rtable.len(),
        |i: int|
            if 0 <= i < rtable.len() {
                rtable[i].view()
            } else {
                arbitrary()
            },
    )
}

/// The views of a list of `WITH` items.
pub open spec fn cte_views(ctes: Seq<CommonTableExpr>) -> Seq<CommonTableExprView>
    decreases ctes,
{
    Seq::new(
        ctes.len(),
        |i: int|
            if 0 <= i < ctes.len() {
                ctes[i].view()
            } else {
                arbitrary()
            },
    )
}

impl Query {
    pub open spec fn view(self) -> QueryView
        decreases self,
    {
        QueryView {
            command_type: self.command_type,
            has_aggs: self.has_aggs,
            has_window_funcs: self.has_window_funcs,
            has_target_srfs: self.has_target_srfs,
            set_operations: self.set_operations,
            group_clause: self.group_clause,
            grouping_sets: self.grouping_sets,
            distinct_clause: self.distinct_clause,
            window_clause: self.window_clause,
            having_qual: self.having_qual,
            row_marks: self.row_marks,
            limit_option: self.limit_option,
            limit_count: option_view(self.limit_count),
            limit_offset: option_view(self.limit_offset),
            sort_clause: self.sort_clause@,
            target_list: self.target_list@.map_values(|te: TargetEntry| te@),
            jointree: match self.jointree {
                Some(f) => Some(f@),
                None => None,
            },
            rtable: rtable_views(self.rtable@),
            cte_list: cte_views(self.cte_list@),
        }
    }
}

} // verus!
