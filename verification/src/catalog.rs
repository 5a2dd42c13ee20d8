//! The catalog objects that the pushdown recognizes.

use vstd::prelude::*;

use crate::tree::Oid;

verus! {

/// The oid that stands for no object.
pub const INVALID_OID: Oid = 0;

/// The type `int8`.
pub const INT8OID: Oid = 20;

/// The type `tid`.
pub const TIDOID: Oid = 27;

/// The type `float8`.
pub const FLOAT8OID: Oid = 701;

/// The pseudo-type `anyelement`.
pub const ANYELEMENTOID: Oid = 2283;

/// The function `int8(int4)`, the cast from `int4` to `int8`.
pub const INT8_FROM_INT4: Oid = 481;

/// The function `int8(int2)`, the cast from `int2` to `int8`.
pub const INT8_FROM_INT2: Oid = 754;

/// The attribute number of the system column `ctid`.
pub const SELF_ITEM_POINTER_ATTRIBUTE_NUMBER: i16 = -1;

/// Oids of the functions, the operator and the type that the pushdown
/// recognizes in query trees or puts into them.
#[derive(Clone, Copy, Debug, PartialEq, Eq, Structural)]
pub struct TopNOids {
    /// The type `zdbquery`.
    pub zdbquery: Oid,
    /// `zdb.score(tid)`.
    pub zdb_score: Oid,
    /// `zdb.anyelement_cmpfunc(anyelement, zdbquery)`, which `==>` calls.
    pub anyelement_cmp: Oid,
    /// `zdb.score_topn_limit(int8, zdbquery)`.
    pub score_topn_limit: Oid,
    /// `dsl.limit(int8, zdbquery)`.
    pub dsl_limit: Oid,
    /// `dsl.offset(int8, zdbquery)`.
    pub dsl_offset: Oid,
    /// `dsl.offset_limit(int8, int8, zdbquery)`.
    pub dsl_offset_limit: Oid,
    /// `pg_catalog.int8pl(int8, int8)`.
    pub int8pl: Oid,
    /// The operator `>` of `float8`.
    pub float8_gt: Oid,
}

/// A question to the system catalogs.
#[derive(Debug, PartialEq, Eq)]
pub enum CatalogRequest {
    /// The type that an unqualified name stands for; 0 if there is none.
    Type { name: &'static str },
    /// The operator `>` of a type; 0 if there is none.
    GreaterThan { type_oid: Oid },
    /// The function with a qualified name and argument types, if there is one.
    Function { schema: &'static str, name: &'static str, arg_types: Vec<Oid> },
}

/// Mathematical counterpart of [`CatalogRequest`].
#[verifier::ext_equal]
pub enum CatalogRequestView {
    Type { name: Seq<char> },
    GreaterThan { type_oid: Oid },
    Function { schema: Seq<char>, name: Seq<char>, arg_types: Seq<Oid> },
}

impl CatalogRequest {
    pub open spec fn view(self) -> CatalogRequestView {
        match self {
            CatalogRequest::Type { name } => CatalogRequestView::Type { name: name@ },
            CatalogRequest::GreaterThan { type_oid } => CatalogRequestView::GreaterThan {
                type_oid,
            },
            CatalogRequest::Function { schema, name, arg_types } => CatalogRequestView::Function {
                schema: schema@,
                name: name@,
                arg_types: arg_types@,
            },
        }
    }
}

/// How many questions a lookup asks, if no answer ends it early.
pub const REQUEST_COUNT: usize = 9;

/// The questions of a lookup, in order. Those from the fourth on may speak of
/// the type that the first one found.
pub open spec fn request(index: int, zdbquery: Oid) -> CatalogRequestView {
    if index == 0 {
        CatalogRequestView::Type { name: "zdbquery"@ }
    } else if index == 1 {
        CatalogRequestView::GreaterThan { type_oid: FLOAT8OID }
    } else if index == 2 {
        CatalogRequestView::Function { schema: "zdb"@, name: "score"@, arg_types: seq![TIDOID] }
    } else if index == 3 {
        CatalogRequestView::Function {
            schema: "zdb"@,
            name: "anyelement_cmpfunc"@,
            arg_types: seq![ANYELEMENTOID, zdbquery],
        }
    } else if index == 4 {
        CatalogRequestView::Function {
            schema: "zdb"@,
            name: "score_topn_limit"@,
            arg_types: seq![INT8OID, zdbquery],
        }
    } else if index == 5 {
        CatalogRequestView::Function {
            schema: "dsl"@,
            name: "limit"@,
            arg_types: seq![INT8OID, zdbquery],
        }
    } else if index == 6 {
        CatalogRequestView::Function {
            schema: "dsl"@,
            name: "offset"@,
            arg_types: seq![INT8OID, zdbquery],
        }
    } else if index == 7 {
        CatalogRequestView::Function {
            schema: "dsl"@,
            name: "offset_limit"@,
            arg_types: seq![INT8OID, INT8OID, zdbquery],
        }
    } else {
        CatalogRequestView::Function {
            schema: "pg_catalog"@,
            name: "int8pl"@,
            arg_types: seq![INT8OID, INT8OID],
        }
    }
}

/// [`request`], for a machine index.
pub open spec fn request_at(index: usize, zdbquery: Oid) -> CatalogRequestView {
    request(index as int, zdbquery)
}

/// Whether a reply to the question `index` lets the lookup go on. A type or an
/// operator is not found if its oid is 0.
pub open spec fn is_found(index: int, reply: Option<Oid>) -> bool {
    reply is Some && (index < 2 ==> reply->0 != INVALID_OID)
}

/// Whether the replies are those of a whole lookup: one to each question up to
/// the first that finds nothing.
pub open spec fn is_transcript(replies: Seq<Option<Oid>>) -> bool {
    &&& 0 < replies.len() <= REQUEST_COUNT
    &&& forall|i: int|
        0 <= i < replies.len() - 1 ==> is_found(i, #[trigger] replies[i])
    &&& replies.len() < REQUEST_COUNT ==> !is_found(replies.len() - 1, replies.last())
}

/// Whether `ask` can give the reply to the question `index` of a lookup whose
/// first question found `zdbquery`.
pub open spec fn is_reply<A: Fn(CatalogRequest) -> Option<Oid>>(
    ask: A,
    index: int,
    zdbquery: Oid,
    reply: Option<Oid>,
) -> bool {
    exists|asked: CatalogRequest|
        asked@ == request(index, zdbquery) && #[trigger] ask.ensures((asked,), reply)
}

/// The oids that a lookup with these replies finds: all of them or nothing.
pub open spec fn resolved(replies: Seq<Option<Oid>>) -> Option<TopNOids> {
    if replies.len() == REQUEST_COUNT && is_found(8, replies[8]) {
        Some(
            TopNOids {
                zdbquery: replies[0]->0,
                float8_gt: replies[1]->0,
                zdb_score: replies[2]->0,
                anyelement_cmp: replies[3]->0,
                score_topn_limit: replies[4]->0,
                dsl_limit: replies[5]->0,
                dsl_offset: replies[6]->0,
                dsl_offset_limit: replies[7]->0,
                int8pl: replies[8]->0,
            },
        )
    } else {
        None
    }
}

/// The question `index` of a lookup whose first question found `zdbquery`.
fn catalog_request(index: usize, zdbquery: Oid) -> (asked: CatalogRequest)
    requires
        index < REQUEST_COUNT,
    ensures
        asked@ == request_at(index, zdbquery),
{
    let (schema, name, arg_types): (&'static str, &'static str, Vec<Oid>) = match index {
        0 => return CatalogRequest::Type { name: "zdbquery" },
        1 => return CatalogRequest::GreaterThan { type_oid: FLOAT8OID },
        2 => ("zdb", "score", vec![TIDOID]),
        3 => ("zdb", "anyelement_cmpfunc", vec![ANYELEMENTOID, zdbquery]),
        4 => ("zdb", "score_topn_limit", vec![INT8OID, zdbquery]),
        5 => ("dsl", "limit", vec![INT8OID, zdbquery]),
        6 => ("dsl", "offset", vec![INT8OID, zdbquery]),
        7 => ("dsl", "offset_limit", vec![INT8OID, INT8OID, zdbquery]),
        _ => ("pg_catalog", "int8pl", vec![INT8OID, INT8OID]),
    };
    let asked = CatalogRequest::Function { schema, name, arg_types };
    assert(asked@->arg_types =~= request_at(index, zdbquery)->arg_types);
    asked
}

/// The oids that the replies to all questions name.
fn assemble(found: &Vec<Oid>) -> (oids: TopNOids)
    requires
        found.len() == REQUEST_COUNT,
    ensures
        Some(oids) == resolved(found@.map_values(|oid: Oid| Some(oid))),
{
    TopNOids {
        zdbquery: found[0],
        float8_gt: found[1],
        zdb_score: found[2],
        anyelement_cmp: found[3],
        score_topn_limit: found[4],
        dsl_limit: found[5],
        dsl_offset: found[6],
        dsl_offset_limit: found[7],
        int8pl: found[8],
    }
}

impl TopNOids {
    /// Looks all oids up, or stops at the first that does not exist. `ask`
    /// answers the questions.
    pub fn lookup<A: Fn(CatalogRequest) -> Option<Oid>>(ask: A) -> (oids: Option<TopNOids>)
        requires
            forall|asked: CatalogRequest| ask.requires((asked,)),
        ensures
            exists|replies: Seq<Option<Oid>>|
                #![trigger resolved(replies)]
                {
                    &&& is_transcript(replies)
                    &&& forall|i: int|
                        0 <= i < replies.len() ==> is_reply(
                            ask,
                            i,
                            replies[0].unwrap_or(INVALID_OID),
                            #[trigger] replies[i],
                        )
                    &&& oids == resolved(replies)
                },
    {
        let mut found: Vec<Oid> = Vec::new();
        let ghost mut replies: Seq<Option<Oid>> = Seq::empty();
        let mut index: usize = 0;
        while index < REQUEST_COUNT
            invariant
                index <= REQUEST_COUNT,
                found.len() == index,
                replies.len() == index,
                forall|asked: CatalogRequest| ask.requires((asked,)),
                forall|i: int|
                    0 <= i < index ==> #[trigger] replies[i] == Some(found@[i]) && is_found(
                        i,
                        replies[i],
                    ),
                forall|i: int|
                    0 <= i < index ==> is_reply(
                        ask,
                        i,
                        replies[0].unwrap_or(INVALID_OID),
                        #[trigger] replies[i],
                    ),
            decreases REQUEST_COUNT - index,
        {
            let zdbquery = if index == 0 {
                INVALID_OID
            } else {
                found[0]
            };
            let asked = catalog_request(index, zdbquery);
            let ghost question = asked;
            let reply = ask(asked);
            proof {
                assert(ask.ensures((question,), reply));
                replies = replies.push(reply);
                assert(question@ == request(index as int, replies[0].unwrap_or(INVALID_OID)));
            }
            match reply {
                Some(oid) if index >= 2 || oid != INVALID_OID => found.push(oid),
                _ => {
                    assert(resolved(replies) is None);
                    return None;
                },
            }
            index += 1;
        }
        let oids = assemble(&found);
        assert(replies =~= found@.map_values(|oid: Oid| Some(oid)));
        Some(oids)
    }
}

} // verus!
