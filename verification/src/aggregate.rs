//! Typed aggregate projections and the query trees that compute an
//! aggregate over a query: directly on a plain select, or over the query
//! wrapped as a subquery.
use std::marker::PhantomData;

use vstd::prelude::*;

use crate::ast::{
    numeric_check, AggregateExpr, AggregateFn, AggregateNode, ColumnRef, DbType, DbValue, DbValueView,
    Expr, FromItem, Numeric, QueryAst, QueryBody, SelectNode, SetOperationNode,
};
use crate::error::Error;
use crate::record::DbRecord;
use crate::text::owned;

verus! {

/// The alias of the row count that `count_query_ast` selects.
pub const INTERNAL_COUNT_ALIAS: &'static str = "__foundry_count";

/// The alias of the distinct count that `Query` helpers select.
pub const INTERNAL_COUNT_DISTINCT_ALIAS: &'static str = "__foundry_count_distinct";

/// The alias of a sum that `Query` helpers select.
pub const INTERNAL_SUM_ALIAS: &'static str = "__foundry_sum";

/// The alias of an average that `Query` helpers select.
pub const INTERNAL_AVG_ALIAS: &'static str = "__foundry_avg";

/// The alias of a minimum that `Query` helpers select.
pub const INTERNAL_MIN_ALIAS: &'static str = "__foundry_min";

/// The alias of a maximum that `Query` helpers select.
pub const INTERNAL_MAX_ALIAS: &'static str = "__foundry_max";

/// The alias under which a query is wrapped as a subquery.
pub const INTERNAL_WRAPPED_SOURCE_ALIAS: &'static str = "__foundry_wrapped_source";

/// An aggregate projection whose value decodes as a `T`.
#[derive(Debug)]
pub struct AggregateProjection<T> {
    node: AggregateNode,
    marker: PhantomData<T>,
}

/// `function` over `expr`, neither distinct nor over all rows.
pub open spec fn over(a: AggregateExpr, function: AggregateFn, expr: Expr, distinct: bool) -> bool {
    a.function == function && a.expr == Some(Box::new(expr)) && a.distinct == distinct
}

impl<T> AggregateProjection<T> {
    /// The projected aggregate.
    pub closed spec fn aggregate(&self) -> AggregateNode {
        self.node
    }

    pub fn from_node(node: AggregateNode) -> (r: Self)
        ensures
            r.aggregate() == node,
    {
        AggregateProjection { node, marker: PhantomData }
    }

    /// The projected aggregate.
    pub fn into_node(self) -> (r: AggregateNode)
        ensures
            r == self.aggregate(),
    {
        self.node
    }

    /// The alias the aggregate is selected under.
    pub fn alias(&self) -> (r: &str)
        ensures
            r@ == self.aggregate().alias@,
    {
        self.node.alias.as_str()
    }
}

impl AggregateProjection<i64> {
    /// `COUNT(*)` under an alias.
    pub fn count_all(alias: &str) -> (r: Self)
        ensures
            r.aggregate().aggregate == (AggregateExpr { function: AggregateFn::Count, expr: None, distinct: false }),
            r.aggregate().alias@ == alias@,
    {
        Self::from_node(AggregateNode {
            aggregate: AggregateExpr { function: AggregateFn::Count, expr: None, distinct: false },
            alias: owned(alias),
        })
    }

    /// `COUNT(expr)` under an alias.
    pub fn count<E: Into<Expr>>(expr: E, alias: &str) -> (r: Self)
        ensures
            exists|e: Expr| call_ensures(E::into, (expr,), e) && over(r.aggregate().aggregate, AggregateFn::Count, e, false),
            r.aggregate().alias@ == alias@,
    {
        let e = expr.into();
        let r = Self::from_node(AggregateNode {
            aggregate: AggregateExpr { function: AggregateFn::Count, expr: Some(Box::new(e)), distinct: false },
            alias: owned(alias),
        });
        proof {
            assert(over(r.aggregate().aggregate, AggregateFn::Count, e, false));
        }
        r
    }

    /// `COUNT(DISTINCT expr)` under an alias.
    pub fn count_distinct<E: Into<Expr>>(expr: E, alias: &str) -> (r: Self)
        ensures
            exists|e: Expr| call_ensures(E::into, (expr,), e) && over(r.aggregate().aggregate, AggregateFn::Count, e, true),
            r.aggregate().alias@ == alias@,
    {
        let e = expr.into();
        let r = Self::from_node(AggregateNode {
            aggregate: AggregateExpr { function: AggregateFn::Count, expr: Some(Box::new(e)), distinct: true },
            alias: owned(alias),
        });
        proof {
            assert(over(r.aggregate().aggregate, AggregateFn::Count, e, true));
        }
        r
    }

    /// `COUNT(*)` under the internal count alias.
    pub fn internal_count() -> (r: Self)
        ensures
            r.aggregate().aggregate == (AggregateExpr { function: AggregateFn::Count, expr: None, distinct: false }),
            r.aggregate().alias@ == INTERNAL_COUNT_ALIAS@,
    {
        Self::count_all(INTERNAL_COUNT_ALIAS)
    }

    /// `COUNT(DISTINCT expr)` under the internal alias.
    pub fn internal_count_distinct<E: Into<Expr>>(expr: E) -> (r: Self)
        ensures
            exists|e: Expr| call_ensures(E::into, (expr,), e) && over(r.aggregate().aggregate, AggregateFn::Count, e, true),
            r.aggregate().alias@ == INTERNAL_COUNT_DISTINCT_ALIAS@,
    {
        Self::count_distinct(expr, INTERNAL_COUNT_DISTINCT_ALIAS)
    }
}

impl<T> AggregateProjection<Option<T>> {
    fn of_function<E: Into<Expr>>(function: AggregateFn, expr: E, alias: &str) -> (r: Self)
        ensures
            exists|e: Expr| call_ensures(E::into, (expr,), e) && over(r.aggregate().aggregate, function, e, false),
            r.aggregate().alias@ == alias@,
    {
        let e = expr.into();
        let r = Self::from_node(AggregateNode {
            aggregate: AggregateExpr { function, expr: Some(Box::new(e)), distinct: false },
            alias: owned(alias),
        });
        proof {
            assert(over(r.aggregate().aggregate, function, e, false));
        }
        r
    }

    /// `SUM(expr)` under an alias.
    pub fn sum<E: Into<Expr>>(expr: E, alias: &str) -> (r: Self)
        ensures
            exists|e: Expr| call_ensures(E::into, (expr,), e) && over(r.aggregate().aggregate, AggregateFn::Sum, e, false),
            r.aggregate().alias@ == alias@,
    {
        Self::of_function(AggregateFn::Sum, expr, alias)
    }

    /// `AVG(expr)` under an alias.
    pub fn avg<E: Into<Expr>>(expr: E, alias: &str) -> (r: Self)
        ensures
            exists|e: Expr| call_ensures(E::into, (expr,), e) && over(r.aggregate().aggregate, AggregateFn::Avg, e, false),
            r.aggregate().alias@ == alias@,
    {
        Self::of_function(AggregateFn::Avg, expr, alias)
    }

    /// `MIN(expr)` under an alias.
    pub fn min<E: Into<Expr>>(expr: E, alias: &str) -> (r: Self)
        ensures
            exists|e: Expr| call_ensures(E::into, (expr,), e) && over(r.aggregate().aggregate, AggregateFn::Min, e, false),
            r.aggregate().alias@ == alias@,
    {
        Self::of_function(AggregateFn::Min, expr, alias)
    }

    /// `MAX(expr)` under an alias.
    pub fn max<E: Into<Expr>>(expr: E, alias: &str) -> (r: Self)
        ensures
            exists|e: Expr| call_ensures(E::into, (expr,), e) && over(r.aggregate().aggregate, AggregateFn::Max, e, false),
            r.aggregate().alias@ == alias@,
    {
        Self::of_function(AggregateFn::Max, expr, alias)
    }

    /// `SUM(expr)` under the internal alias.
    pub fn internal_sum<E: Into<Expr>>(expr: E) -> (r: Self)
        ensures
            exists|e: Expr| call_ensures(E::into, (expr,), e) && over(r.aggregate().aggregate, AggregateFn::Sum, e, false),
            r.aggregate().alias@ == INTERNAL_SUM_ALIAS@,
    {
        Self::of_function(AggregateFn::Sum, expr, INTERNAL_SUM_ALIAS)
    }

    /// `AVG(expr)` under the internal alias.
    pub fn internal_avg<E: Into<Expr>>(expr: E) -> (r: Self)
        ensures
            exists|e: Expr| call_ensures(E::into, (expr,), e) && over(r.aggregate().aggregate, AggregateFn::Avg, e, false),
            r.aggregate().alias@ == INTERNAL_AVG_ALIAS@,
    {
        Self::of_function(AggregateFn::Avg, expr, INTERNAL_AVG_ALIAS)
    }

    /// `MIN(expr)` under the internal alias.
    pub fn internal_min<E: Into<Expr>>(expr: E) -> (r: Self)
        ensures
            exists|e: Expr| call_ensures(E::into, (expr,), e) && over(r.aggregate().aggregate, AggregateFn::Min, e, false),
            r.aggregate().alias@ == INTERNAL_MIN_ALIAS@,
    {
        Self::of_function(AggregateFn::Min, expr, INTERNAL_MIN_ALIAS)
    }

    /// `MAX(expr)` under the internal alias.
    pub fn internal_max<E: Into<Expr>>(expr: E) -> (r: Self)
        ensures
            exists|e: Expr| call_ensures(E::into, (expr,), e) && over(r.aggregate().aggregate, AggregateFn::Max, e, false),
            r.aggregate().alias@ == INTERNAL_MAX_ALIAS@,
    {
        Self::of_function(AggregateFn::Max, expr, INTERNAL_MAX_ALIAS)
    }
}

// ---------------------------------------------------------------------------
// Aggregate query trees
// ---------------------------------------------------------------------------

/// A plain select without `DISTINCT`, grouping, `HAVING` or aggregates of
/// its own: an aggregate can replace its projection.
pub open spec fn aggregates_directly(q: QueryAst) -> bool {
    match q.body {
        QueryBody::Select(s) => !s.distinct && s.group_by@.len() == 0 && s.having is None
            && s.aggregates@.len() == 0,
        _ => false,
    }
}

/// Whether an aggregate can be computed on the query itself.
pub fn can_aggregate_directly(ast: &QueryAst) -> (r: bool)
    ensures
        r == aggregates_directly(*ast),
{
    match &ast.body {
        QueryBody::Select(select) => !select.distinct && select.group_by.len() == 0 && select.having.is_none()
            && select.aggregates.len() == 0,
        _ => false,
    }
}

/// `r` is `q` without the ordering, limit and offset of its outermost
/// select or set operation.
pub open spec fn stripped(q: QueryAst, r: QueryAst) -> bool {
    &&& r.with == q.with
    &&& match q.body {
        QueryBody::Select(s) => r.body matches QueryBody::Select(t) && t.order_by@.len() == 0
            && *t == (SelectNode { order_by: t.order_by, limit: None, offset: None, ..*s }),
        QueryBody::SetOperation(s) => r.body matches QueryBody::SetOperation(t) && t.order_by@.len() == 0
            && *t == (SetOperationNode { order_by: t.order_by, limit: None, offset: None, ..*s }),
        _ => r.body == q.body,
    }
}

/// The query without the ordering, limit and offset of its outermost
/// select or set operation.
pub fn without_outer_order_limit_offset(ast: QueryAst) -> (r: QueryAst)
    ensures
        stripped(ast, r),
{
    let QueryAst { with, body } = ast;
    let body = match body {
        QueryBody::Select(select) => {
            let mut s = *select;
            s.order_by = Vec::new();
            s.limit = None;
            s.offset = None;
            QueryBody::Select(Box::new(s))
        },
        QueryBody::SetOperation(set) => {
            let mut s = *set;
            s.order_by = Vec::new();
            s.limit = None;
            s.offset = None;
            QueryBody::SetOperation(Box::new(s))
        },
        other => other,
    };
    QueryAst { with, body }
}

/// The message of `direct_aggregate_query` on a query that is not a select.
pub open spec fn not_a_select_message() -> Seq<char> {
    "scalar aggregate helpers require a select query or a projection alias wrapper"@
}

/// A select with its projection replaced by one aggregate and without
/// ordering, limit or offset.
pub open spec fn aggregate_replaces_projection(s: SelectNode, projection: AggregateNode, t: SelectNode) -> bool {
    &&& t.columns@.len() == 0
    &&& t.aggregates@ == seq![projection]
    &&& t.order_by@.len() == 0
    &&& t == (SelectNode { columns: t.columns, aggregates: t.aggregates, order_by: t.order_by, limit: None,
        offset: None, ..s })
}

fn aggregate_select(with: Vec<crate::ast::CteNode>, select: SelectNode, projection: AggregateNode) -> (r: QueryAst)
    ensures
        r.with == with,
        r.body matches QueryBody::Select(t) && aggregate_replaces_projection(select, projection, *t),
{
    let mut s = select;
    s.columns = Vec::new();
    let mut aggregates = Vec::new();
    aggregates.push(projection);
    s.aggregates = aggregates;
    s.order_by = Vec::new();
    s.limit = None;
    s.offset = None;
    proof {
        assert(s.aggregates@ =~= seq![projection]);
    }
    QueryAst { with, body: QueryBody::Select(Box::new(s)) }
}

/// The select of a query with its projection replaced by one aggregate and
/// without ordering, limit or offset; a query that is not a select is
/// refused.
pub fn direct_aggregate_query(ast: QueryAst, projection: AggregateNode) -> (r: Result<QueryAst, Error>)
    ensures
        match ast.body {
            QueryBody::Select(s) => r matches Ok(q) && q.with == ast.with && (q.body matches QueryBody::Select(t)
                && aggregate_replaces_projection(*s, projection, *t)),
            _ => r matches Err(e) && e.is_plain() && e@ == not_a_select_message(),
        },
{
    let QueryAst { with, body } = ast;
    match body {
        QueryBody::Select(select) => Ok(aggregate_select(with, *select, projection)),
        _ => Err(Error::message(owned("scalar aggregate helpers require a select query or a projection alias wrapper"))),
    }
}

/// A select of nothing but `aggregates` from `source`.
pub open spec fn aggregate_only(q: QueryAst, source: FromItem, aggregate: AggregateNode) -> bool {
    &&& q.with@.len() == 0
    &&& q.body matches QueryBody::Select(s) && s.from == source && !s.distinct && s.columns@.len() == 0
        && s.joins@.len() == 0 && s.condition is None && s.group_by@.len() == 0 && s.having is None
        && s.order_by@.len() == 0 && s.limit is None && s.offset is None && s.lock is None
        && s.relations@.len() == 0 && s.aggregates@ == seq![aggregate]
}

fn select_aggregate_from(source: FromItem, aggregate: AggregateNode) -> (r: QueryAst)
    ensures
        aggregate_only(r, source, aggregate),
{
    let mut aggregates = Vec::new();
    aggregates.push(aggregate);
    proof {
        assert(aggregates@ =~= seq![aggregate]);
    }
    let select = SelectNode {
        from: source,
        distinct: false,
        columns: Vec::new(),
        joins: Vec::new(),
        condition: None,
        group_by: Vec::new(),
        having: None,
        order_by: Vec::new(),
        limit: None,
        offset: None,
        lock: None,
        relations: Vec::new(),
        aggregates,
    };
    QueryAst { with: Vec::new(), body: QueryBody::Select(Box::new(select)) }
}

/// The query wrapped as a subquery under the internal alias, with the
/// aggregate computed over it; an aggregate over an expression is taken
/// over the wrapped query's column `alias`, typed `alias_type`.
pub fn wrap_query_for_alias_aggregate(ast: QueryAst, alias: &str, alias_type: DbType, projection: AggregateNode) -> (r: QueryAst)
    ensures
        r.with@.len() == 0,
        r.body matches QueryBody::Select(s) && (s.from matches FromItem::Subquery { query, alias: a }
            && *query == ast && a@ == INTERNAL_WRAPPED_SOURCE_ALIAS@)
            && s.aggregates@.len() == 1 && s.aggregates@[0].alias == projection.alias
            && s.aggregates@[0].aggregate.function == projection.aggregate.function
            && s.aggregates@[0].aggregate.distinct == projection.aggregate.distinct
            && (projection.aggregate.expr is None ==> s.aggregates@[0].aggregate.expr is None)
            && (projection.aggregate.expr is Some ==> (s.aggregates@[0].aggregate.expr matches Some(e)
                && (*e matches Expr::Column(c) && c.table is None && c.name@ == alias@ && c.alias is None
                && c.db_type == Some(alias_type))))
            && !s.distinct && s.columns@.len() == 0 && s.joins@.len() == 0 && s.condition is None
            && s.group_by@.len() == 0 && s.having is None && s.order_by@.len() == 0 && s.limit is None
            && s.offset is None && s.lock is None && s.relations@.len() == 0,
{
    let AggregateNode { aggregate, alias: projection_alias } = projection;
    let AggregateExpr { function, expr, distinct } = aggregate;
    let expr = match expr {
        Some(_) => Some(Box::new(Expr::Column(ColumnRef {
            table: None,
            name: owned(alias),
            alias: None,
            db_type: Some(alias_type),
        }))),
        None => None,
    };
    let wrapped = AggregateNode { aggregate: AggregateExpr { function, expr, distinct }, alias: projection_alias };
    let source = FromItem::Subquery { query: Box::new(ast), alias: owned(INTERNAL_WRAPPED_SOURCE_ALIAS) };
    select_aggregate_from(source, wrapped)
}

/// The query that counts the rows of `ast`: the count replaces the
/// projection of a plain select, and any other query is counted as a
/// subquery without its outer ordering, limit and offset.
pub fn count_query_ast(ast: QueryAst) -> (r: QueryAst)
    ensures
        aggregates_directly(ast) ==> (r.with == ast.with && (ast.body matches QueryBody::Select(s)
            && (r.body matches QueryBody::Select(t) && aggregate_replaces_projection(*s, t.aggregates@[0], *t)
            && t.aggregates@[0].alias@ == INTERNAL_COUNT_ALIAS@
            && t.aggregates@[0].aggregate == (AggregateExpr { function: AggregateFn::Count, expr: None, distinct: false })))),
        !aggregates_directly(ast) ==> (r.with@.len() == 0 && (r.body matches QueryBody::Select(s)
            && (s.from matches FromItem::Subquery { query, alias } && alias@ == INTERNAL_WRAPPED_SOURCE_ALIAS@
                && stripped(ast, *query))
            && s.aggregates@.len() == 1 && s.aggregates@[0].alias@ == INTERNAL_COUNT_ALIAS@
            && s.aggregates@[0].aggregate == (AggregateExpr { function: AggregateFn::Count, expr: None, distinct: false })
            && !s.distinct && s.columns@.len() == 0 && s.joins@.len() == 0 && s.condition is None
            && s.group_by@.len() == 0 && s.having is None && s.order_by@.len() == 0 && s.limit is None
            && s.offset is None && s.lock is None && s.relations@.len() == 0)),
{
    let count = AggregateProjection::<i64>::internal_count().into_node();
    let direct = can_aggregate_directly(&ast);
    let QueryAst { with, body } = ast;
    match body {
        QueryBody::Select(select) => {
            if direct {
                aggregate_select(with, *select, count)
            } else {
                count_wrapped(QueryAst { with, body: QueryBody::Select(select) }, count)
            }
        },
        other => count_wrapped(QueryAst { with, body: other }, count),
    }
}

fn count_wrapped(ast: QueryAst, count: AggregateNode) -> (r: QueryAst)
    ensures
        r.with@.len() == 0,
        r.body matches QueryBody::Select(s) && (s.from matches FromItem::Subquery { query, alias }
            && alias@ == INTERNAL_WRAPPED_SOURCE_ALIAS@ && stripped(ast, *query))
            && s.aggregates@ == seq![count] && !s.distinct && s.columns@.len() == 0 && s.joins@.len() == 0
            && s.condition is None && s.group_by@.len() == 0 && s.having is None && s.order_by@.len() == 0
            && s.limit is None && s.offset is None && s.lock is None && s.relations@.len() == 0,
{
    let inner = without_outer_order_limit_offset(ast);
    let source = FromItem::Subquery { query: Box::new(inner), alias: owned(INTERNAL_WRAPPED_SOURCE_ALIAS) };
    select_aggregate_from(source, count)
}

/// The message of `scalar_projection_query_ast` on a query that cannot be
/// aggregated directly.
pub open spec fn complex_aggregate_message() -> Seq<char> {
    "complex aggregate helpers require a typed projection alias; use ProjectionQuery for grouped or set-operation aggregates"@
}

/// The query computing one aggregate over `ast`: the aggregate replaces the
/// projection of a plain select; other queries are refused.
pub fn scalar_projection_query_ast(ast: QueryAst, projection: AggregateNode) -> (r: Result<QueryAst, Error>)
    ensures
        !aggregates_directly(ast) ==> (r matches Err(e) && e.is_plain() && e@ == complex_aggregate_message()),
        aggregates_directly(ast) ==> (r matches Ok(q) && q.with == ast.with && (ast.body matches QueryBody::Select(s)
            && (q.body matches QueryBody::Select(t) && t.columns@.len() == 0 && t.aggregates@ == seq![projection]
            && t.order_by@.len() == 0
            && *t == (SelectNode { columns: t.columns, aggregates: t.aggregates, order_by: t.order_by,
                limit: None, offset: None, ..*s })))),
{
    if can_aggregate_directly(&ast) {
        direct_aggregate_query(ast, projection)
    } else {
        Err(Error::message(owned(
            "complex aggregate helpers require a typed projection alias; use ProjectionQuery for grouped or set-operation aggregates",
        )))
    }
}

/// The values an aggregate's result is decoded from, in the order to try
/// them: text that reads as a numeric (sums and averages come back as
/// numeric text) first as that numeric, then as itself; any other value
/// as itself. A record without the alias is refused.
pub fn aggregate_decode_candidates(record: &DbRecord, alias: &str) -> (r: Result<Vec<DbValue>, Error>)
    requires
        record.well_formed(),
    ensures
        match record.field(alias@) {
            None => r matches Err(e) && e.is_plain() && e@ == "missing column `"@ + alias@ + "` in record"@,
            Some(DbValue::Text(t)) => r matches Ok(c) && c@.map_values(|v: DbValue| v@) == if numeric_check(t@) is Ok {
                seq![DbValueView::Numeric(t@), DbValueView::Text(t@)]
            } else {
                seq![DbValueView::Text(t@)]
            },
            Some(v) => r matches Ok(c) && c@.map_values(|x: DbValue| x@) == seq![v@],
        },
{
    match record.get(alias) {
        None => {
            let mut m = owned("missing column `");
            m.append(alias);
            m.append("` in record");
            Err(Error::message(m))
        },
        Some(value) => {
            let mut candidates: Vec<DbValue> = Vec::new();
            if let DbValue::Text(text) = value {
                if let Ok(numeric) = Numeric::new(text.as_str()) {
                    candidates.push(DbValue::Numeric(numeric));
                }
            }
            candidates.push(value.clone());
            proof {
                match value {
                    DbValue::Text(t) => {
                        if numeric_check(t@) is Ok {
                            assert(candidates@.map_values(|v: DbValue| v@) =~= seq![DbValueView::Numeric(t@), DbValueView::Text(t@)]);
                        } else {
                            assert(candidates@.map_values(|v: DbValue| v@) =~= seq![DbValueView::Text(t@)]);
                        }
                    },
                    _ => {
                        assert(candidates@.map_values(|x: DbValue| x@) =~= seq![value@]);
                    },
                }
            }
            Ok(candidates)
        },
    }
}

} // verus!
