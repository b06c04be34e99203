//! The query builder: conditions over expressions, common table
//! expressions, and `Query`, which grows a select, insert, update, delete
//! or set operation one call at a time and compiles it.
use vstd::prelude::*;

use std::time::Duration;

use crate::aggregate::AggregateProjection;
use crate::ast::{
    ColumnRef, ComparisonOp, Condition, CteMaterialization, CteNode, DbValue,
    DeleteNode, Expr, FromItem, InsertNode, InsertSource, JoinKind, JoinNode, JsonPathExpr,
    JsonPathMode, JsonPredicateOp, JsonPredicateValue, LockBehavior, LockClause, LockStrength,
    OnConflictAction, OnConflictNode, OnConflictTarget, OnConflictUpdate, OrderBy, QueryAst,
    QueryBody, SelectItem, SelectNode, SetOperationNode, SetOperator, TableRef, UpdateNode,
};
use crate::builders::JsonExprBuilder;
use crate::compiler::{CompiledSql, PostgresCompiler};
use crate::error::Error;
use crate::observability::QueryExecutionOptions;
use crate::sql_model::{query_sql, views};
use crate::text::owned;

verus! {

// ---------------------------------------------------------------------------
// Conditions over an expression
// ---------------------------------------------------------------------------

impl Expr {
    /// This expression compared with another.
    pub fn compare<R: Into<Expr>>(self, op: ComparisonOp, right: R) -> (c: Condition)
        ensures
            c matches Condition::Comparison { left, op: o, right: r } && left == self && o == op
                && call_ensures(R::into, (right,), r),
    {
        Condition::Comparison { left: self, op, right: right.into() }
    }

    /// This expression compared with a bound value.
    pub fn compare_value<V: Into<DbValue>>(self, op: ComparisonOp, value: V) -> (c: Condition)
        ensures
            c matches Condition::Comparison { left, op: o, right: Expr::Value(v) } && left == self
                && o == op && call_ensures(V::into, (value,), v),
    {
        Condition::Comparison { left: self, op, right: Expr::Value(value.into()) }
    }

    /// `self = value`.
    pub fn eq_value<V: Into<DbValue>>(self, value: V) -> (c: Condition)
        ensures
            c matches Condition::Comparison { left, op, right: Expr::Value(v) } && left == self
                && op == ComparisonOp::Eq && call_ensures(V::into, (value,), v),
    {
        self.compare_value(ComparisonOp::Eq, value)
    }

    /// `self <> value`.
    pub fn not_eq_value<V: Into<DbValue>>(self, value: V) -> (c: Condition)
        ensures
            c matches Condition::Comparison { left, op, right: Expr::Value(v) } && left == self
                && op == ComparisonOp::NotEq && call_ensures(V::into, (value,), v),
    {
        self.compare_value(ComparisonOp::NotEq, value)
    }

    /// `self > value`.
    pub fn gt_value<V: Into<DbValue>>(self, value: V) -> (c: Condition)
        ensures
            c matches Condition::Comparison { left, op, right: Expr::Value(v) } && left == self
                && op == ComparisonOp::Gt && call_ensures(V::into, (value,), v),
    {
        self.compare_value(ComparisonOp::Gt, value)
    }

    /// `self >= value`.
    pub fn gte_value<V: Into<DbValue>>(self, value: V) -> (c: Condition)
        ensures
            c matches Condition::Comparison { left, op, right: Expr::Value(v) } && left == self
                && op == ComparisonOp::Gte && call_ensures(V::into, (value,), v),
    {
        self.compare_value(ComparisonOp::Gte, value)
    }

    /// `self < value`.
    pub fn lt_value<V: Into<DbValue>>(self, value: V) -> (c: Condition)
        ensures
            c matches Condition::Comparison { left, op, right: Expr::Value(v) } && left == self
                && op == ComparisonOp::Lt && call_ensures(V::into, (value,), v),
    {
        self.compare_value(ComparisonOp::Lt, value)
    }

    /// `self <= value`.
    pub fn lte_value<V: Into<DbValue>>(self, value: V) -> (c: Condition)
        ensures
            c matches Condition::Comparison { left, op, right: Expr::Value(v) } && left == self
                && op == ComparisonOp::Lte && call_ensures(V::into, (value,), v),
    {
        self.compare_value(ComparisonOp::Lte, value)
    }

    /// `self IS NULL`.
    pub fn is_null(self) -> (c: Condition)
        ensures
            c == Condition::IsNull(self),
    {
        Condition::IsNull(self)
    }

    /// `self IS NOT NULL`.
    pub fn is_not_null(self) -> (c: Condition)
        ensures
            c == Condition::IsNotNull(self),
    {
        Condition::IsNotNull(self)
    }

    /// `self LIKE pattern`, the pattern bound as text.
    pub fn like(self, pattern: &str) -> (c: Condition)
        ensures
            c matches Condition::Comparison { left, op, right: Expr::Value(DbValue::Text(p)) }
                && left == self && op == ComparisonOp::Like && p@ == pattern@,
    {
        Condition::Comparison { left: self, op: ComparisonOp::Like, right: Expr::text(pattern) }
    }

    /// `self NOT LIKE pattern`, the pattern bound as text.
    pub fn not_like(self, pattern: &str) -> (c: Condition)
        ensures
            c matches Condition::Comparison { left, op, right: Expr::Value(DbValue::Text(p)) }
                && left == self && op == ComparisonOp::NotLike && p@ == pattern@,
    {
        Condition::Comparison { left: self, op: ComparisonOp::NotLike, right: Expr::text(pattern) }
    }

    /// `self ILIKE pattern`, the pattern bound as text.
    pub fn ilike(self, pattern: &str) -> (c: Condition)
        ensures
            c matches Condition::Comparison { left, op, right: Expr::Value(DbValue::Text(p)) }
                && left == self && op == ComparisonOp::ILike && p@ == pattern@,
    {
        Condition::Comparison { left: self, op: ComparisonOp::ILike, right: Expr::text(pattern) }
    }
}

/// The text of a JSON path, as `as_text` builds it.
pub open spec fn text_path(b: JsonExprBuilder) -> Expr {
    Expr::JsonPath(Box::new(JsonPathExpr { expr: Box::new(b.expr), path: b.path, mode: JsonPathMode::Text }))
}

/// The JSON value of a path, as `as_json` builds it.
pub open spec fn json_path(b: JsonExprBuilder) -> Expr {
    Expr::JsonPath(Box::new(JsonPathExpr { expr: Box::new(b.expr), path: b.path, mode: JsonPathMode::Json }))
}

impl JsonExprBuilder {
    /// The path's text `LIKE pattern`.
    pub fn like(self, pattern: &str) -> (c: Condition)
        ensures
            c matches Condition::Comparison { left, op, right: Expr::Value(DbValue::Text(p)) }
                && left == text_path(self) && op == ComparisonOp::Like && p@ == pattern@,
    {
        self.as_text().like(pattern)
    }

    /// The path's text `NOT LIKE pattern`.
    pub fn not_like(self, pattern: &str) -> (c: Condition)
        ensures
            c matches Condition::Comparison { left, op, right: Expr::Value(DbValue::Text(p)) }
                && left == text_path(self) && op == ComparisonOp::NotLike && p@ == pattern@,
    {
        self.as_text().not_like(pattern)
    }

    /// The path's text `ILIKE pattern`.
    pub fn ilike(self, pattern: &str) -> (c: Condition)
        ensures
            c matches Condition::Comparison { left, op, right: Expr::Value(DbValue::Text(p)) }
                && left == text_path(self) && op == ComparisonOp::ILike && p@ == pattern@,
    {
        self.as_text().ilike(pattern)
    }

    /// Whether the path's JSON value contains the JSON document `json`.
    pub fn contains(self, json: &str) -> (c: Condition)
        ensures
            c matches Condition::JsonPredicate { expr, op, value: JsonPredicateValue::Json(j) }
                && expr == json_path(self) && op == JsonPredicateOp::Contains && j@ == json@,
    {
        Condition::JsonPredicate {
            expr: self.as_json(),
            op: JsonPredicateOp::Contains,
            value: JsonPredicateValue::Json(owned(json)),
        }
    }

    /// Whether the path's JSON value is contained by the JSON document `json`.
    pub fn contained_by(self, json: &str) -> (c: Condition)
        ensures
            c matches Condition::JsonPredicate { expr, op, value: JsonPredicateValue::Json(j) }
                && expr == json_path(self) && op == JsonPredicateOp::ContainedBy && j@ == json@,
    {
        Condition::JsonPredicate {
            expr: self.as_json(),
            op: JsonPredicateOp::ContainedBy,
            value: JsonPredicateValue::Json(owned(json)),
        }
    }
}

// ---------------------------------------------------------------------------
// Common table expressions
// ---------------------------------------------------------------------------

/// A named subquery for a `WITH` clause.
#[derive(Debug)]
pub struct Cte {
    pub node: CteNode,
}

impl Cte {
    /// A plain common table expression.
    pub fn new<Q: Into<QueryAst>>(name: &str, query: Q) -> (c: Cte)
        ensures
            c.node.name@ == name@,
            call_ensures(Q::into, (query,), *c.node.query),
            !c.node.recursive,
            c.node.materialization is None,
    {
        Cte {
            node: CteNode {
                name: owned(name),
                query: Box::new(query.into()),
                recursive: false,
                materialization: None,
            },
        }
    }

    /// The same expression, `MATERIALIZED`.
    pub fn materialized(self) -> (c: Cte)
        ensures
            c.node == (CteNode { materialization: Some(CteMaterialization::Materialized), ..self.node }),
    {
        let mut node = self.node;
        node.materialization = Some(CteMaterialization::Materialized);
        Cte { node }
    }

    /// The same expression, `NOT MATERIALIZED`.
    pub fn not_materialized(self) -> (c: Cte)
        ensures
            c.node == (CteNode { materialization: Some(CteMaterialization::NotMaterialized), ..self.node }),
    {
        let mut node = self.node;
        node.materialization = Some(CteMaterialization::NotMaterialized);
        Cte { node }
    }

    /// The same expression, recursive.
    pub fn recursive(self) -> (c: Cte)
        ensures
            c.node == (CteNode { recursive: true, ..self.node }),
    {
        let mut node = self.node;
        node.recursive = true;
        Cte { node }
    }
}


// ---------------------------------------------------------------------------
// Query
// ---------------------------------------------------------------------------

/// A query under construction, with its execution options and the first
/// error a builder step deferred to compilation.
#[derive(Debug)]
pub struct Query {
    ast: QueryAst,
    options: QueryExecutionOptions,
    deferred_error: Option<String>,
}

/// The select of a query tree changed by `p`, any other tree unchanged.
pub open spec fn on_select(q: QueryAst, r: QueryAst, p: spec_fn(SelectNode, SelectNode) -> bool) -> bool {
    r.with == q.with && match q.body {
        QueryBody::Select(s) => r.body matches QueryBody::Select(t) && p(*s, *t),
        _ => r.body == q.body,
    }
}

/// A condition added to an optional one: the first becomes the condition,
/// later ones are joined with `AND`.
pub open spec fn merged(old: Option<Condition>, c: Condition, new: Option<Condition>) -> bool {
    match old {
        None => new == Some(c),
        Some(e) => new matches Some(Condition::And(v)) && v@ == seq![e, c],
    }
}

/// The columns as plain projections, each converted by `into`.
pub open spec fn column_items<C: Into<ColumnRef>>(cols: Seq<C>, items: Seq<SelectItem>) -> bool {
    &&& items.len() == cols.len()
    &&& forall|i: int|
        0 <= i < cols.len() ==> ((#[trigger] items[i]).alias is None && (items[i].expr matches Expr::Column(c)
            && call_ensures(C::into, (cols[i],), c)))
}

/// The join that `join` and friends append.
pub open spec fn is_join(j: JoinNode, kind: JoinKind, lateral: bool, on: Option<Condition>) -> bool {
    j.kind == kind && j.lateral == lateral && j.on == on
}

/// A select with one more join.
pub open spec fn joined(s: SelectNode, t: SelectNode, kind: JoinKind, lateral: bool, on: Option<Condition>) -> bool {
    &&& t == (SelectNode { joins: t.joins, ..s })
    &&& t.joins@.len() == s.joins@.len() + 1
    &&& t.joins@.subrange(0, s.joins@.len() as int) == s.joins@
    &&& is_join(t.joins@.last(), kind, lateral, on)
}

/// The select or set operation of a tree changed by `ps` or `pset`, any
/// other tree unchanged.
pub open spec fn on_select_or_set(
    q: QueryAst,
    r: QueryAst,
    ps: spec_fn(SelectNode, SelectNode) -> bool,
    pset: spec_fn(SetOperationNode, SetOperationNode) -> bool,
) -> bool {
    r.with == q.with && match q.body {
        QueryBody::Select(s) => r.body matches QueryBody::Select(t) && ps(*s, *t),
        QueryBody::SetOperation(s) => r.body matches QueryBody::SetOperation(t) && pset(*s, *t),
        _ => r.body == q.body,
    }
}

/// What `where_` does to a tree.
pub open spec fn where_applied(q: QueryAst, c: Condition, r: QueryAst) -> bool {
    &&& r.with == q.with
    &&& match q.body {
        QueryBody::Select(s) => r.body matches QueryBody::Select(t)
            && *t == (SelectNode { condition: t.condition, ..*s }) && merged(s.condition, c, t.condition),
        QueryBody::Insert(i) => r.body matches QueryBody::Insert(j) && match i.on_conflict {
            Some(OnConflictNode { target, action: OnConflictAction::DoUpdate(u) }) =>
                *j == (InsertNode { on_conflict: j.on_conflict, ..*i })
                && (j.on_conflict matches Some(OnConflictNode { target: t2, action: OnConflictAction::DoUpdate(v) })
                && t2 == target && *v == (OnConflictUpdate { condition: v.condition, ..*u })
                && merged(u.condition, c, v.condition)),
            _ => *j == *i,
        },
        QueryBody::Update(u) => r.body matches QueryBody::Update(v)
            && *v == (UpdateNode { condition: v.condition, ..*u }) && merged(u.condition, c, v.condition),
        QueryBody::Delete(d) => r.body matches QueryBody::Delete(e)
            && *e == (DeleteNode { condition: e.condition, ..*d }) && merged(d.condition, c, e.condition),
        QueryBody::SetOperation(_) => r.body == q.body,
    }
}

/// Each value converted by `into`.
pub open spec fn converted<V: Into<DbValue>>(values: Seq<V>, out: Seq<DbValue>) -> bool {
    &&& out.len() == values.len()
    &&& forall|i: int| 0 <= i < values.len() ==> call_ensures(V::into, (values[i],), #[trigger] out[i])
}

/// The insert of a tree changed by `p`, any other tree unchanged.
pub open spec fn on_insert(q: QueryAst, r: QueryAst, p: spec_fn(InsertNode, InsertNode) -> bool) -> bool {
    r.with == q.with && match q.body {
        QueryBody::Insert(i) => r.body matches QueryBody::Insert(j) && p(*i, *j),
        _ => r.body == q.body,
    }
}

/// An insert source with `pairs` added to its last row: a source without
/// rows, or a select, becomes the single row `pairs`; no pair leaves it as
/// it was.
pub open spec fn row_extended(src: InsertSource, pairs: Seq<(ColumnRef, Expr)>, out: InsertSource) -> bool {
    if pairs.len() == 0 {
        out == src
    } else {
        match src {
            InsertSource::Values(rows) => out matches InsertSource::Values(rows2) && if rows@.len() == 0 {
                rows2@.len() == 1 && rows2@[0]@ == pairs
            } else {
                &&& rows2@.len() == rows@.len()
                &&& rows2@.subrange(0, rows@.len() - 1) == rows@.subrange(0, rows@.len() - 1)
                &&& rows2@.last()@ == rows@.last()@ + pairs
            },
            InsertSource::Select(_) => out matches InsertSource::Values(rows2) && rows2@.len() == 1
                && rows2@[0]@ == pairs,
        }
    }
}

/// What `value_expr` and `values` do to a tree: an insert gets the pairs in
/// its last row, an update gets them as assignments; other trees are
/// unchanged.
pub open spec fn values_applied(q: QueryAst, pairs: Seq<(ColumnRef, Expr)>, r: QueryAst) -> bool {
    &&& r.with == q.with
    &&& match q.body {
        QueryBody::Insert(i) => r.body matches QueryBody::Insert(j)
            && *j == (InsertNode { source: j.source, ..*i }) && row_extended(i.source, pairs, j.source),
        QueryBody::Update(u) => r.body matches QueryBody::Update(v)
            && *v == (UpdateNode { values: v.values, ..*u }) && v.values@ == u.values@ + pairs,
        _ => r.body == q.body,
    }
}

/// An insert source with one more row: a select becomes that single row.
pub open spec fn row_added(src: InsertSource, row: Seq<(ColumnRef, Expr)>, out: InsertSource) -> bool {
    match src {
        InsertSource::Values(rows) => out matches InsertSource::Values(rows2)
            && rows2@.len() == rows@.len() + 1 && rows2@.subrange(0, rows@.len() as int) == rows@
            && rows2@.last()@ == row,
        InsertSource::Select(_) => out matches InsertSource::Values(rows2) && rows2@.len() == 1
            && rows2@[0]@ == row,
    }
}

/// What `set_expr` does to a tree: an insert whose conflict clause does an
/// update gets one more assignment there, an update one more assignment;
/// other trees are unchanged.
pub open spec fn assignment_applied(q: QueryAst, pair: (ColumnRef, Expr), r: QueryAst) -> bool {
    &&& r.with == q.with
    &&& match q.body {
        QueryBody::Insert(i) => r.body matches QueryBody::Insert(j) && match i.on_conflict {
            Some(OnConflictNode { target, action: OnConflictAction::DoUpdate(u) }) =>
                *j == (InsertNode { on_conflict: j.on_conflict, ..*i })
                && (j.on_conflict matches Some(OnConflictNode { target: t2, action: OnConflictAction::DoUpdate(v) })
                && t2 == target && *v == (OnConflictUpdate { assignments: v.assignments, ..*u })
                && v.assignments@ == u.assignments@.push(pair)),
            _ => *j == *i,
        },
        QueryBody::Update(u) => r.body matches QueryBody::Update(v)
            && *v == (UpdateNode { values: v.values, ..*u }) && v.values@ == u.values@.push(pair),
        _ => r.body == q.body,
    }
}

/// The action of a conflict clause so far: `DO NOTHING` without one.
pub open spec fn current_action(c: Option<OnConflictNode>) -> OnConflictAction {
    match c {
        Some(n) => n.action,
        None => OnConflictAction::DoNothing,
    }
}

/// The target of a conflict clause so far.
pub open spec fn current_target(c: Option<OnConflictNode>) -> Option<OnConflictTarget> {
    match c {
        Some(n) => n.target,
        None => None,
    }
}

/// Each pair's column and value converted by `into`, the value bound.
pub open spec fn converted_pairs<C: Into<ColumnRef>, V: Into<DbValue>>(
    pairs: Seq<(C, V)>,
    out: Seq<(ColumnRef, Expr)>,
) -> bool {
    &&& out.len() == pairs.len()
    &&& forall|i: int|
        0 <= i < pairs.len() ==> call_ensures(C::into, (pairs[i].0,), (#[trigger] out[i]).0) && (out[i].1 matches Expr::Value(v)
            && call_ensures(V::into, (pairs[i].1,), v))
}

/// Each column converted by `into`.
pub open spec fn converted_columns<C: Into<ColumnRef>>(columns: Seq<C>, out: Seq<ColumnRef>) -> bool {
    &&& out.len() == columns.len()
    &&& forall|i: int| 0 <= i < columns.len() ==> call_ensures(C::into, (columns[i],), #[trigger] out[i])
}

/// Each row's pairs converted.
pub open spec fn converted_rows<C: Into<ColumnRef>, V: Into<DbValue>>(
    rows: Seq<Vec<(C, V)>>,
    out: Seq<Seq<(ColumnRef, Expr)>>,
) -> bool {
    &&& out.len() == rows.len()
    &&& forall|j: int| 0 <= j < rows.len() ==> converted_pairs(rows[j]@, #[trigger] out[j])
}

/// The value rows of an insert source: none for a select.
pub open spec fn value_rows(src: InsertSource) -> Seq<Vec<(ColumnRef, Expr)>> {
    match src {
        InsertSource::Values(r) => r@,
        InsertSource::Select(_) => Seq::empty(),
    }
}

/// An insert source with rows added after its value rows (they replace a
/// select source); no row leaves it as it was.
pub open spec fn rows_added(src: InsertSource, rs: Seq<Seq<(ColumnRef, Expr)>>, out: InsertSource) -> bool {
    if rs.len() == 0 {
        out == src
    } else {
        &&& out is Values
        &&& value_rows(out).len() == value_rows(src).len() + rs.len()
        &&& value_rows(out).subrange(0, value_rows(src).len() as int) == value_rows(src)
        &&& forall|j: int| 0 <= j < rs.len() ==> #[trigger] value_rows(out)[value_rows(src).len() + j]@ == rs[j]
    }
}

impl Query {
    /// The query tree.
    pub closed spec fn tree(&self) -> QueryAst {
        self.ast
    }

    /// The execution options.
    pub closed spec fn execution(&self) -> QueryExecutionOptions {
        self.options
    }

    /// The deferred error, if a builder step recorded one.
    pub closed spec fn deferred(&self) -> Option<String> {
        self.deferred_error
    }

    /// Same options and deferred error.
    pub open spec fn same_settings(&self, other: &Query) -> bool {
        self.execution() == other.execution() && self.deferred() == other.deferred()
    }

    /// A fresh query: default options, nothing deferred.
    pub open spec fn fresh(&self) -> bool {
        &&& self.execution().timeout is None
        &&& self.execution().label is None
        &&& !self.execution().use_write_pool
        &&& self.deferred() is None
    }

    fn with_tree(ast: QueryAst) -> (r: Query)
        ensures
            r.tree() == ast,
            r.fresh(),
    {
        Query { ast, options: QueryExecutionOptions::default(), deferred_error: None }
    }

    /// `SELECT *` from a table or subquery.
    pub fn table<F: Into<FromItem>>(source: F) -> (r: Query)
        ensures
            r.tree().with@.len() == 0,
            r.tree().body matches QueryBody::Select(s) && call_ensures(F::into, (source,), s.from)
                && *s == (SelectNode { from: s.from, ..*s }) && !s.distinct && s.columns@.len() == 0
                && s.joins@.len() == 0 && s.condition is None && s.group_by@.len() == 0
                && s.having is None && s.order_by@.len() == 0 && s.limit is None && s.offset is None
                && s.lock is None && s.relations@.len() == 0 && s.aggregates@.len() == 0,
            r.fresh(),
    {
        let select = SelectNode::from(source);
        Query::with_tree(QueryAst { with: Vec::new(), body: QueryBody::Select(Box::new(select)) })
    }

    /// An insert of value rows into a table, with no row yet.
    pub fn insert_into<T: Into<TableRef>>(table: T) -> (r: Query)
        ensures
            r.tree().with@.len() == 0,
            r.tree().body matches QueryBody::Insert(i) && call_ensures(T::into, (table,), i.into)
                && (i.source matches InsertSource::Values(rows) && rows@.len() == 0)
                && i.on_conflict is None && i.returning@.len() == 0,
            r.fresh(),
    {
        Query::insert_many_into(table)
    }

    /// An insert of value rows into a table, with no row yet.
    pub fn insert_many_into<T: Into<TableRef>>(table: T) -> (r: Query)
        ensures
            r.tree().with@.len() == 0,
            r.tree().body matches QueryBody::Insert(i) && call_ensures(T::into, (table,), i.into)
                && (i.source matches InsertSource::Values(rows) && rows@.len() == 0)
                && i.on_conflict is None && i.returning@.len() == 0,
            r.fresh(),
    {
        let insert = InsertNode {
            into: table.into(),
            source: InsertSource::Values(Vec::new()),
            on_conflict: None,
            returning: Vec::new(),
        };
        Query::with_tree(QueryAst { with: Vec::new(), body: QueryBody::Insert(Box::new(insert)) })
    }

    /// An insert of the rows of a query into a table.
    pub fn insert_select_into<T: Into<TableRef>, Q: Into<QueryAst>>(table: T, select: Q) -> (r: Query)
        ensures
            r.tree().with@.len() == 0,
            r.tree().body matches QueryBody::Insert(i) && call_ensures(T::into, (table,), i.into)
                && (i.source matches InsertSource::Select(q) && call_ensures(Q::into, (select,), *q))
                && i.on_conflict is None && i.returning@.len() == 0,
            r.fresh(),
    {
        let insert = InsertNode {
            into: table.into(),
            source: InsertSource::Select(Box::new(select.into())),
            on_conflict: None,
            returning: Vec::new(),
        };
        Query::with_tree(QueryAst { with: Vec::new(), body: QueryBody::Insert(Box::new(insert)) })
    }

    /// An update of a table, with no assignment yet.
    pub fn update_table<T: Into<TableRef>>(table: T) -> (r: Query)
        ensures
            r.tree().with@.len() == 0,
            r.tree().body matches QueryBody::Update(u) && call_ensures(T::into, (table,), u.table)
                && u.values@.len() == 0 && u.from@.len() == 0 && u.condition is None
                && u.returning@.len() == 0,
            r.fresh(),
    {
        let update = UpdateNode {
            table: table.into(),
            values: Vec::new(),
            from: Vec::new(),
            condition: None,
            returning: Vec::new(),
        };
        Query::with_tree(QueryAst { with: Vec::new(), body: QueryBody::Update(Box::new(update)) })
    }

    /// A delete from a table, with no condition yet.
    pub fn delete_from<T: Into<TableRef>>(table: T) -> (r: Query)
        ensures
            r.tree().with@.len() == 0,
            r.tree().body matches QueryBody::Delete(d) && call_ensures(T::into, (table,), d.from)
                && d.using@.len() == 0 && d.condition is None && d.returning@.len() == 0,
            r.fresh(),
    {
        let delete = DeleteNode {
            from: table.into(),
            using: Vec::new(),
            condition: None,
            returning: Vec::new(),
        };
        Query::with_tree(QueryAst { with: Vec::new(), body: QueryBody::Delete(Box::new(delete)) })
    }

    /// The same query with a timeout.
    pub fn with_timeout(self, timeout: Duration) -> (r: Query)
        ensures
            r.tree() == self.tree(),
            r.deferred() == self.deferred(),
            r.execution().timeout == Some(timeout),
            r.execution().label == self.execution().label,
            r.execution().use_write_pool == self.execution().use_write_pool,
    {
        Query { ast: self.ast, options: self.options.with_timeout(timeout), deferred_error: self.deferred_error }
    }

    /// The same query with a label for logs and errors.
    pub fn with_label(self, label: &str) -> (r: Query)
        ensures
            r.tree() == self.tree(),
            r.deferred() == self.deferred(),
            r.execution().timeout == self.execution().timeout,
            r.execution().label matches Some(l) && l@ == label@,
            r.execution().use_write_pool == self.execution().use_write_pool,
    {
        Query { ast: self.ast, options: self.options.with_label(label), deferred_error: self.deferred_error }
    }

    /// The same query with one more common table expression.
    pub fn with_cte(self, cte: Cte) -> (r: Query)
        ensures
            r.tree().with@ == self.tree().with@.push(cte.node),
            r.tree().body == self.tree().body,
            r.same_settings(&self),
    {
        let Query { ast, options, deferred_error } = self;
        let QueryAst { mut with, body } = ast;
        with.push(cte.node);
        Query { ast: QueryAst { with, body }, options, deferred_error }
    }

    /// A select made `DISTINCT`; other queries are unchanged.
    pub fn distinct(self) -> (r: Query)
        ensures
            on_select(self.tree(), r.tree(), |s: SelectNode, t: SelectNode| t == (SelectNode { distinct: true, ..s })),
            r.same_settings(&self),
    {
        let Query { ast, options, deferred_error } = self;
        let QueryAst { with, body } = ast;
        let body = match body {
            QueryBody::Select(select) => {
                let mut s = *select;
                s.distinct = true;
                QueryBody::Select(Box::new(s))
            },
            other => other,
        };
        Query { ast: QueryAst { with, body }, options, deferred_error }
    }

    /// A select projecting exactly these columns; other queries are
    /// unchanged.
    pub fn select<C: Into<ColumnRef>>(self, columns: Vec<C>) -> (r: Query)
        ensures
            on_select(self.tree(), r.tree(), |s: SelectNode, t: SelectNode|
                t == (SelectNode { columns: t.columns, ..s }) && column_items(columns@, t.columns@)),
            r.same_settings(&self),
    {
        let Query { ast, options, deferred_error } = self;
        let QueryAst { with, body } = ast;
        let body = match body {
            QueryBody::Select(select) => {
                let mut s = *select;
                s.columns = column_select_items(columns);
                QueryBody::Select(Box::new(s))
            },
            other => other,
        };
        Query { ast: QueryAst { with, body }, options, deferred_error }
    }

    /// A select with one more projected item; other queries are unchanged.
    pub fn select_item(self, item: SelectItem) -> (r: Query)
        ensures
            on_select(self.tree(), r.tree(), |s: SelectNode, t: SelectNode|
                t == (SelectNode { columns: t.columns, ..s }) && t.columns@ == s.columns@.push(item)),
            r.same_settings(&self),
    {
        let Query { ast, options, deferred_error } = self;
        let QueryAst { with, body } = ast;
        let body = match body {
            QueryBody::Select(select) => {
                let mut s = *select;
                s.columns.push(item);
                QueryBody::Select(Box::new(s))
            },
            other => other,
        };
        Query { ast: QueryAst { with, body }, options, deferred_error }
    }

    /// A select with one more expression under an alias; other queries are
    /// unchanged.
    pub fn select_expr<E: Into<Expr>>(self, expr: E, alias: &str) -> (r: Query)
        ensures
            on_select(self.tree(), r.tree(), |s: SelectNode, t: SelectNode|
                t == (SelectNode { columns: t.columns, ..s }) && t.columns@.len() == s.columns@.len() + 1
                && t.columns@.subrange(0, s.columns@.len() as int) == s.columns@
                && call_ensures(E::into, (expr,), t.columns@.last().expr)
                && (t.columns@.last().alias matches Some(a) && a@ == alias@)),
            r.same_settings(&self),
    {
        let Query { ast, options, deferred_error } = self;
        let QueryAst { with, body } = ast;
        let body = match body {
            QueryBody::Select(select) => {
                let mut s = *select;
                let ghost before = s.columns@;
                s.columns.push(SelectItem { expr: expr.into(), alias: Some(owned(alias)) });
                proof {
                    assert(s.columns@.subrange(0, before.len() as int) =~= before);
                }
                QueryBody::Select(Box::new(s))
            },
            other => other,
        };
        Query { ast: QueryAst { with, body }, options, deferred_error }
    }

    /// A select with one more aggregate projection; other queries are
    /// unchanged.
    pub fn select_aggregate<T>(self, projection: AggregateProjection<T>) -> (r: Query)
        ensures
            on_select(self.tree(), r.tree(), |s: SelectNode, t: SelectNode|
                t == (SelectNode { aggregates: t.aggregates, ..s }) && t.aggregates@ == s.aggregates@.push(projection.aggregate())),
            r.same_settings(&self),
    {
        let aggregate = projection.into_node();
        let Query { ast, options, deferred_error } = self;
        let QueryAst { with, body } = ast;
        let body = match body {
            QueryBody::Select(select) => {
                let mut s = *select;
                s.aggregates.push(aggregate);
                QueryBody::Select(Box::new(s))
            },
            other => other,
        };
        Query { ast: QueryAst { with, body }, options, deferred_error }
    }

    fn push_join<F: Into<FromItem>>(self, kind: JoinKind, table: F, lateral: bool, on: Option<Condition>) -> (r: Query)
        ensures
            on_select(self.tree(), r.tree(), |s: SelectNode, t: SelectNode|
                joined(s, t, kind, lateral, on) && call_ensures(F::into, (table,), t.joins@.last().table)),
            r.same_settings(&self),
    {
        let Query { ast, options, deferred_error } = self;
        let QueryAst { with, body } = ast;
        let body = match body {
            QueryBody::Select(select) => {
                let mut s = *select;
                let ghost before = s.joins@;
                s.joins.push(JoinNode { kind, table: table.into(), lateral, on });
                proof {
                    assert(s.joins@.subrange(0, before.len() as int) =~= before);
                }
                QueryBody::Select(Box::new(s))
            },
            other => other,
        };
        Query { ast: QueryAst { with, body }, options, deferred_error }
    }

    /// A select with one more join `ON` a condition; other queries are
    /// unchanged.
    pub fn join<F: Into<FromItem>>(self, kind: JoinKind, table: F, on: Condition) -> (r: Query)
        ensures
            on_select(self.tree(), r.tree(), |s: SelectNode, t: SelectNode|
                joined(s, t, kind, false, Some(on)) && call_ensures(F::into, (table,), t.joins@.last().table)),
            r.same_settings(&self),
    {
        self.push_join(kind, table, false, Some(on))
    }

    /// A select with one more `LATERAL` join; other queries are unchanged.
    pub fn join_lateral<F: Into<FromItem>>(self, kind: JoinKind, table: F, on: Option<Condition>) -> (r: Query)
        ensures
            on_select(self.tree(), r.tree(), |s: SelectNode, t: SelectNode|
                joined(s, t, kind, true, on) && call_ensures(F::into, (table,), t.joins@.last().table)),
            r.same_settings(&self),
    {
        self.push_join(kind, table, true, on)
    }

    /// `INNER JOIN .. ON ..`.
    pub fn inner_join<F: Into<FromItem>>(self, table: F, on: Condition) -> (r: Query)
        ensures
            on_select(self.tree(), r.tree(), |s: SelectNode, t: SelectNode|
                joined(s, t, JoinKind::Inner, false, Some(on)) && call_ensures(F::into, (table,), t.joins@.last().table)),
            r.same_settings(&self),
    {
        self.push_join(JoinKind::Inner, table, false, Some(on))
    }

    /// `LEFT JOIN .. ON ..`.
    pub fn left_join<F: Into<FromItem>>(self, table: F, on: Condition) -> (r: Query)
        ensures
            on_select(self.tree(), r.tree(), |s: SelectNode, t: SelectNode|
                joined(s, t, JoinKind::Left, false, Some(on)) && call_ensures(F::into, (table,), t.joins@.last().table)),
            r.same_settings(&self),
    {
        self.push_join(JoinKind::Left, table, false, Some(on))
    }

    /// `RIGHT JOIN .. ON ..`.
    pub fn right_join<F: Into<FromItem>>(self, table: F, on: Condition) -> (r: Query)
        ensures
            on_select(self.tree(), r.tree(), |s: SelectNode, t: SelectNode|
                joined(s, t, JoinKind::Right, false, Some(on)) && call_ensures(F::into, (table,), t.joins@.last().table)),
            r.same_settings(&self),
    {
        self.push_join(JoinKind::Right, table, false, Some(on))
    }

    /// `FULL OUTER JOIN .. ON ..`.
    pub fn full_outer_join<F: Into<FromItem>>(self, table: F, on: Condition) -> (r: Query)
        ensures
            on_select(self.tree(), r.tree(), |s: SelectNode, t: SelectNode|
                joined(s, t, JoinKind::Full, false, Some(on)) && call_ensures(F::into, (table,), t.joins@.last().table)),
            r.same_settings(&self),
    {
        self.push_join(JoinKind::Full, table, false, Some(on))
    }

    /// `CROSS JOIN ..`, without a condition.
    pub fn cross_join<F: Into<FromItem>>(self, table: F) -> (r: Query)
        ensures
            on_select(self.tree(), r.tree(), |s: SelectNode, t: SelectNode|
                joined(s, t, JoinKind::Cross, false, None) && call_ensures(F::into, (table,), t.joins@.last().table)),
            r.same_settings(&self),
    {
        self.push_join(JoinKind::Cross, table, false, None)
    }

    /// `LEFT JOIN LATERAL .. ON ..`.
    pub fn left_join_lateral<F: Into<FromItem>>(self, table: F, on: Condition) -> (r: Query)
        ensures
            on_select(self.tree(), r.tree(), |s: SelectNode, t: SelectNode|
                joined(s, t, JoinKind::Left, true, Some(on)) && call_ensures(F::into, (table,), t.joins@.last().table)),
            r.same_settings(&self),
    {
        self.push_join(JoinKind::Left, table, true, Some(on))
    }

    /// `CROSS JOIN LATERAL ..`.
    pub fn cross_join_lateral<F: Into<FromItem>>(self, table: F) -> (r: Query)
        ensures
            on_select(self.tree(), r.tree(), |s: SelectNode, t: SelectNode|
                joined(s, t, JoinKind::Cross, true, None) && call_ensures(F::into, (table,), t.joins@.last().table)),
            r.same_settings(&self),
    {
        self.push_join(JoinKind::Cross, table, true, None)
    }

    /// `INNER JOIN LATERAL .. ON ..`.
    pub fn inner_join_lateral<F: Into<FromItem>>(self, table: F, on: Condition) -> (r: Query)
        ensures
            on_select(self.tree(), r.tree(), |s: SelectNode, t: SelectNode|
                joined(s, t, JoinKind::Inner, true, Some(on)) && call_ensures(F::into, (table,), t.joins@.last().table)),
            r.same_settings(&self),
    {
        self.push_join(JoinKind::Inner, table, true, Some(on))
    }

    /// The query filtered by one more condition: on a select, an update
    /// or a delete it joins their condition with `AND`; on an insert it
    /// filters the `DO UPDATE` of its conflict clause, when it has one; a
    /// set operation is unchanged.
    pub fn where_(self, condition: Condition) -> (r: Query)
        ensures
            where_applied(self.tree(), condition, r.tree()),
            r.same_settings(&self),
    {
        let Query { ast, options, deferred_error } = self;
        let QueryAst { with, body } = ast;
        let body = match body {
            QueryBody::Select(select) => {
                let mut s = *select;
                s.condition = merge_condition(s.condition, condition);
                QueryBody::Select(Box::new(s))
            },
            QueryBody::Insert(insert) => {
                let mut i = *insert;
                i.on_conflict = match i.on_conflict {
                    Some(OnConflictNode { target, action: OnConflictAction::DoUpdate(update) }) => {
                        let mut u = *update;
                        u.condition = merge_condition(u.condition, condition);
                        Some(OnConflictNode { target, action: OnConflictAction::DoUpdate(Box::new(u)) })
                    },
                    other => other,
                };
                QueryBody::Insert(Box::new(i))
            },
            QueryBody::Update(update) => {
                let mut u = *update;
                u.condition = merge_condition(u.condition, condition);
                QueryBody::Update(Box::new(u))
            },
            QueryBody::Delete(delete) => {
                let mut d = *delete;
                d.condition = merge_condition(d.condition, condition);
                QueryBody::Delete(Box::new(d))
            },
            other => other,
        };
        Query { ast: QueryAst { with, body }, options, deferred_error }
    }

    /// Filtered by `column = value`.
    pub fn where_eq<C: Into<ColumnRef>, V: Into<DbValue>>(self, column: C, value: V) -> (r: Query)
        ensures
            exists|c: ColumnRef, v: DbValue| call_ensures(C::into, (column,), c) && call_ensures(V::into, (value,), v)
                && where_applied(self.tree(), Condition::Comparison { left: Expr::Column(c), op: ComparisonOp::Eq, right: Expr::Value(v) }, r.tree()),
            r.same_settings(&self),
    {
        let c = column.into();
        let v = value.into();
        let cond = Condition::Comparison { left: Expr::Column(c), op: ComparisonOp::Eq, right: Expr::Value(v) };
        self.where_(cond)
    }

    /// Filtered by `LOWER(column) = LOWER(value)`.
    pub fn where_ieq<C: Into<ColumnRef>>(self, column: C, value: &str) -> (r: Query)
        ensures
            exists|c: ColumnRef, t: String| call_ensures(C::into, (column,), c) && t@ == value@
                && where_applied(self.tree(), Condition::Comparison { left: Expr::Column(c), op: ComparisonOp::IEq, right: Expr::Value(DbValue::Text(t)) }, r.tree()),
            r.same_settings(&self),
    {
        let c = column.into();
        let t = owned(value);
        let cond = Condition::Comparison { left: Expr::Column(c), op: ComparisonOp::IEq, right: Expr::Value(DbValue::Text(t)) };
        self.where_(cond)
    }

    /// Filtered by `column IN (values)`.
    pub fn where_in<C: Into<ColumnRef>, V: Into<DbValue>>(self, column: C, values: Vec<V>) -> (r: Query)
        ensures
            exists|c: ColumnRef, vs: Vec<DbValue>| call_ensures(C::into, (column,), c) && converted(values@, vs@)
                && where_applied(self.tree(), Condition::InList { expr: Expr::Column(c), values: vs }, r.tree()),
            r.same_settings(&self),
    {
        let c = column.into();
        let vs = convert_values(values);
        self.where_(Condition::InList { expr: Expr::Column(c), values: vs })
    }

    /// Filtered by `NOT (column IN (values))`.
    pub fn where_not_in<C: Into<ColumnRef>, V: Into<DbValue>>(self, column: C, values: Vec<V>) -> (r: Query)
        ensures
            exists|c: ColumnRef, vs: Vec<DbValue>| call_ensures(C::into, (column,), c) && converted(values@, vs@)
                && where_applied(self.tree(), Condition::Not(Box::new(Condition::InList { expr: Expr::Column(c), values: vs })), r.tree()),
            r.same_settings(&self),
    {
        let c = column.into();
        let vs = convert_values(values);
        self.where_(Condition::Not(Box::new(Condition::InList { expr: Expr::Column(c), values: vs })))
    }

    /// A select grouped by one more expression; other queries are unchanged.
    pub fn group_by<E: Into<Expr>>(self, expr: E) -> (r: Query)
        ensures
            on_select(self.tree(), r.tree(), |s: SelectNode, t: SelectNode|
                t == (SelectNode { group_by: t.group_by, ..s }) && t.group_by@.len() == s.group_by@.len() + 1
                && t.group_by@.subrange(0, s.group_by@.len() as int) == s.group_by@
                && call_ensures(E::into, (expr,), t.group_by@.last())),
            r.same_settings(&self),
    {
        let Query { ast, options, deferred_error } = self;
        let QueryAst { with, body } = ast;
        let body = match body {
            QueryBody::Select(select) => {
                let mut s = *select;
                let ghost before = s.group_by@;
                s.group_by.push(expr.into());
                proof {
                    assert(s.group_by@.subrange(0, before.len() as int) =~= before);
                }
                QueryBody::Select(Box::new(s))
            },
            other => other,
        };
        Query { ast: QueryAst { with, body }, options, deferred_error }
    }

    /// A select with one more `HAVING` condition, joined with `AND`; other
    /// queries are unchanged.
    pub fn having(self, condition: Condition) -> (r: Query)
        ensures
            on_select(self.tree(), r.tree(), |s: SelectNode, t: SelectNode|
                t == (SelectNode { having: t.having, ..s }) && merged(s.having, condition, t.having)),
            r.same_settings(&self),
    {
        let Query { ast, options, deferred_error } = self;
        let QueryAst { with, body } = ast;
        let body = match body {
            QueryBody::Select(select) => {
                let mut s = *select;
                s.having = merge_condition(s.having, condition);
                QueryBody::Select(Box::new(s))
            },
            other => other,
        };
        Query { ast: QueryAst { with, body }, options, deferred_error }
    }

    /// A select or set operation limited to `limit` rows; other queries are
    /// unchanged.
    pub fn limit(self, limit: u64) -> (r: Query)
        ensures
            on_select_or_set(self.tree(), r.tree(),
                |s: SelectNode, t: SelectNode| t == (SelectNode { limit: Some(limit), ..s }),
                |s: SetOperationNode, t: SetOperationNode| t == (SetOperationNode { limit: Some(limit), ..s })),
            r.same_settings(&self),
    {
        let Query { ast, options, deferred_error } = self;
        let QueryAst { with, body } = ast;
        let body = match body {
            QueryBody::Select(select) => {
                let mut s = *select;
                s.limit = Some(limit);
                QueryBody::Select(Box::new(s))
            },
            QueryBody::SetOperation(set) => {
                let mut s = *set;
                s.limit = Some(limit);
                QueryBody::SetOperation(Box::new(s))
            },
            other => other,
        };
        Query { ast: QueryAst { with, body }, options, deferred_error }
    }

    /// A select or set operation skipping `offset` rows; other queries are
    /// unchanged.
    pub fn offset(self, offset: u64) -> (r: Query)
        ensures
            on_select_or_set(self.tree(), r.tree(),
                |s: SelectNode, t: SelectNode| t == (SelectNode { offset: Some(offset), ..s }),
                |s: SetOperationNode, t: SetOperationNode| t == (SetOperationNode { offset: Some(offset), ..s })),
            r.same_settings(&self),
    {
        let Query { ast, options, deferred_error } = self;
        let QueryAst { with, body } = ast;
        let body = match body {
            QueryBody::Select(select) => {
                let mut s = *select;
                s.offset = Some(offset);
                QueryBody::Select(Box::new(s))
            },
            QueryBody::SetOperation(set) => {
                let mut s = *set;
                s.offset = Some(offset);
                QueryBody::SetOperation(Box::new(s))
            },
            other => other,
        };
        Query { ast: QueryAst { with, body }, options, deferred_error }
    }

    /// A select or set operation with one more ordering; other queries are
    /// unchanged.
    pub fn order_by(self, order: OrderBy) -> (r: Query)
        ensures
            on_select_or_set(self.tree(), r.tree(),
                |s: SelectNode, t: SelectNode| t == (SelectNode { order_by: t.order_by, ..s }) && t.order_by@ == s.order_by@.push(order),
                |s: SetOperationNode, t: SetOperationNode| t == (SetOperationNode { order_by: t.order_by, ..s }) && t.order_by@ == s.order_by@.push(order)),
            r.same_settings(&self),
    {
        let Query { ast, options, deferred_error } = self;
        let QueryAst { with, body } = ast;
        let body = match body {
            QueryBody::Select(select) => {
                let mut s = *select;
                s.order_by.push(order);
                QueryBody::Select(Box::new(s))
            },
            QueryBody::SetOperation(set) => {
                let mut s = *set;
                s.order_by.push(order);
                QueryBody::SetOperation(Box::new(s))
            },
            other => other,
        };
        Query { ast: QueryAst { with, body }, options, deferred_error }
    }

    /// An insert or update with one more column value (see `value_expr`),
    /// the value bound.
    pub fn value<C: Into<ColumnRef>, V: Into<DbValue>>(self, column: C, value: V) -> (r: Query)
        ensures
            exists|c: ColumnRef, v: DbValue| call_ensures(C::into, (column,), c) && call_ensures(V::into, (value,), v)
                && values_applied(self.tree(), seq![(c, Expr::Value(v))], r.tree()),
            r.same_settings(&self),
    {
        let c = column.into();
        let v = value.into();
        self.push_value(c, Expr::Value(v))
    }

    /// An insert with one more column value in its last row (a new row when
    /// it has none; its rows replace a select source), or an update with one
    /// more assignment; other queries are unchanged.
    pub fn value_expr<C: Into<ColumnRef>, E: Into<Expr>>(self, column: C, expr: E) -> (r: Query)
        ensures
            exists|c: ColumnRef, e: Expr| call_ensures(C::into, (column,), c) && call_ensures(E::into, (expr,), e)
                && values_applied(self.tree(), seq![(c, e)], r.tree()),
            r.same_settings(&self),
    {
        let c = column.into();
        let e = expr.into();
        self.push_value(c, e)
    }

    fn push_value(self, column: ColumnRef, expr: Expr) -> (r: Query)
        ensures
            values_applied(self.tree(), seq![(column, expr)], r.tree()),
            r.same_settings(&self),
    {
        let Query { ast, options, deferred_error } = self;
        let QueryAst { with, body } = ast;
        let ghost pair = (column, expr);
        let body = match body {
            QueryBody::Insert(insert) => {
                let mut i = *insert;
                i.source = push_insert_value(i.source, (column, expr));
                QueryBody::Insert(Box::new(i))
            },
            QueryBody::Update(update) => {
                let mut u = *update;
                let ghost before = u.values@;
                u.values.push((column, expr));
                proof {
                    assert(u.values@ =~= before + seq![pair]);
                }
                QueryBody::Update(Box::new(u))
            },
            other => other,
        };
        Query { ast: QueryAst { with, body }, options, deferred_error }
    }

    /// The column values of `values`, one `value` call each, in order.
    pub fn values<C: Into<ColumnRef>, V: Into<DbValue>>(self, values: Vec<(C, V)>) -> (r: Query)
        ensures
            exists|ps: Seq<(ColumnRef, Expr)>| converted_pairs(values@, ps) && values_applied(self.tree(), ps, r.tree()),
            r.same_settings(&self),
    {
        let pairs = convert_pairs(values);
        let ghost ps = pairs@;
        proof {
            assert(ps.len() == pairs.len());
        }
        let ghost q0 = self.tree();
        let mut q = self;
        let mut k: usize = 0;
        proof {
            lemma_values_applied_empty(q0);
            assert(ps.subrange(0, 0) =~= Seq::<(ColumnRef, Expr)>::empty());
        }
        let mut rest = pairs;
        let mut reversed: Vec<(ColumnRef, Expr)> = Vec::new();
        while rest.len() > 0
            invariant
                reversed@.len() + rest@.len() == ps.len(),
                rest@ == ps.subrange(0, rest@.len() as int),
                forall|i: int| 0 <= i < reversed@.len() ==> reversed@[i] == ps[ps.len() - 1 - i],
            decreases rest@.len(),
        {
            let p = rest.pop().unwrap();
            reversed.push(p);
        }
        while reversed.len() > 0
            invariant
                k + reversed@.len() == ps.len(),
                ps.len() <= usize::MAX,
                forall|i: int| 0 <= i < reversed@.len() ==> reversed@[i] == ps[ps.len() - 1 - i],
                values_applied(q0, ps.subrange(0, k as int), q.tree()),
                q.same_settings(&self),
            decreases reversed@.len(),
        {
            let (c, e) = reversed.pop().unwrap();
            let ghost mid = q.tree();
            let ghost pair = (c, e);
            proof {
                assert(pair == ps[k as int]);
            }
            q = q.push_value(c, e);
            proof {
                lemma_values_applied_step(q0, ps.subrange(0, k as int), mid, pair, q.tree());
                assert(ps.subrange(0, k as int).push(pair) =~= ps.subrange(0, k + 1));
            }
            k = k + 1;
        }
        proof {
            assert(ps.subrange(0, k as int) =~= ps);
        }
        q
    }

    /// An insert with one more row of bound values (its rows replace a
    /// select source); other queries are unchanged.
    pub fn row<C: Into<ColumnRef>, V: Into<DbValue>>(self, values: Vec<(C, V)>) -> (r: Query)
        ensures
            exists|ps: Seq<(ColumnRef, Expr)>| converted_pairs(values@, ps) && on_insert(self.tree(), r.tree(),
                |i: InsertNode, j: InsertNode| j == (InsertNode { source: j.source, ..i }) && row_added(i.source, ps, j.source)),
            r.same_settings(&self),
    {
        let row = convert_pairs(values);
        let Query { ast, options, deferred_error } = self;
        let QueryAst { with, body } = ast;
        let body = match body {
            QueryBody::Insert(insert) => {
                let mut i = *insert;
                i.source = push_insert_row(i.source, row);
                QueryBody::Insert(Box::new(i))
            },
            other => other,
        };
        Query { ast: QueryAst { with, body }, options, deferred_error }
    }

    /// An insert with one more row of bound values per row, in order (its
    /// rows replace a select source); other queries are unchanged.
    pub fn rows<C: Into<ColumnRef>, V: Into<DbValue>>(self, rows: Vec<Vec<(C, V)>>) -> (r: Query)
        ensures
            on_insert(self.tree(), r.tree(), |i: InsertNode, j: InsertNode| j == (InsertNode { source: j.source, ..i })
                && exists|rs: Seq<Seq<(ColumnRef, Expr)>>| converted_rows(rows@, rs) && rows_added(i.source, rs, j.source)),
            r.same_settings(&self),
    {
        let Query { ast, options, deferred_error } = self;
        let QueryAst { with, body } = ast;
        let body = match body {
            QueryBody::Insert(insert) => {
                let mut i = *insert;
                i.source = push_insert_rows(i.source, rows);
                QueryBody::Insert(Box::new(i))
            },
            other => other,
        };
        Query { ast: QueryAst { with, body }, options, deferred_error }
    }

    /// An insert whose conflict clause targets these columns, keeping the
    /// clause's action (`DO NOTHING` when it had none); other queries are
    /// unchanged.
    pub fn on_conflict_columns<C: Into<ColumnRef>>(self, columns: Vec<C>) -> (r: Query)
        ensures
            exists|cols: Seq<ColumnRef>| converted_columns(columns@, cols) && on_insert(self.tree(), r.tree(),
                |i: InsertNode, j: InsertNode| j == (InsertNode { on_conflict: j.on_conflict, ..i })
                && (j.on_conflict matches Some(n) && n.action == current_action(i.on_conflict)
                && (n.target matches Some(OnConflictTarget::Columns(cs)) && cs@ == cols))),
            r.same_settings(&self),
    {
        let cols = convert_columns(columns);
        let Query { ast, options, deferred_error } = self;
        let QueryAst { with, body } = ast;
        let body = match body {
            QueryBody::Insert(insert) => {
                let mut i = *insert;
                let action = match i.on_conflict {
                    Some(node) => node.action,
                    None => OnConflictAction::DoNothing,
                };
                i.on_conflict = Some(OnConflictNode { target: Some(OnConflictTarget::Columns(cols)), action });
                QueryBody::Insert(Box::new(i))
            },
            other => other,
        };
        Query { ast: QueryAst { with, body }, options, deferred_error }
    }

    /// An insert whose conflict clause targets a named constraint, keeping
    /// the clause's action (`DO NOTHING` when it had none); other queries
    /// are unchanged.
    pub fn on_conflict_constraint(self, constraint: &str) -> (r: Query)
        ensures
            on_insert(self.tree(), r.tree(),
                |i: InsertNode, j: InsertNode| j == (InsertNode { on_conflict: j.on_conflict, ..i })
                && (j.on_conflict matches Some(n) && n.action == current_action(i.on_conflict)
                && (n.target matches Some(OnConflictTarget::Constraint(c)) && c@ == constraint@))),
            r.same_settings(&self),
    {
        let Query { ast, options, deferred_error } = self;
        let QueryAst { with, body } = ast;
        let body = match body {
            QueryBody::Insert(insert) => {
                let mut i = *insert;
                let action = match i.on_conflict {
                    Some(node) => node.action,
                    None => OnConflictAction::DoNothing,
                };
                i.on_conflict = Some(OnConflictNode {
                    target: Some(OnConflictTarget::Constraint(owned(constraint))),
                    action,
                });
                QueryBody::Insert(Box::new(i))
            },
            other => other,
        };
        Query { ast: QueryAst { with, body }, options, deferred_error }
    }

    /// An insert whose conflict clause does nothing, keeping its target;
    /// other queries are unchanged.
    pub fn do_nothing(self) -> (r: Query)
        ensures
            on_insert(self.tree(), r.tree(),
                |i: InsertNode, j: InsertNode| j == (InsertNode {
                    on_conflict: Some(OnConflictNode { target: current_target(i.on_conflict), action: OnConflictAction::DoNothing }),
                    ..i
                })),
            r.same_settings(&self),
    {
        let Query { ast, options, deferred_error } = self;
        let QueryAst { with, body } = ast;
        let body = match body {
            QueryBody::Insert(insert) => {
                let mut i = *insert;
                let target = match i.on_conflict {
                    Some(node) => node.target,
                    None => None,
                };
                i.on_conflict = Some(OnConflictNode { target, action: OnConflictAction::DoNothing });
                QueryBody::Insert(Box::new(i))
            },
            other => other,
        };
        Query { ast: QueryAst { with, body }, options, deferred_error }
    }

    /// An insert whose conflict clause starts an update with no assignment
    /// and no condition, keeping its target; other queries are unchanged.
    pub fn do_update(self) -> (r: Query)
        ensures
            on_insert(self.tree(), r.tree(),
                |i: InsertNode, j: InsertNode| j == (InsertNode { on_conflict: j.on_conflict, ..i })
                && (j.on_conflict matches Some(n) && n.target == current_target(i.on_conflict)
                && (n.action matches OnConflictAction::DoUpdate(u) && u.assignments@.len() == 0 && u.condition is None))),
            r.same_settings(&self),
    {
        let Query { ast, options, deferred_error } = self;
        let QueryAst { with, body } = ast;
        let body = match body {
            QueryBody::Insert(insert) => {
                let mut i = *insert;
                let target = match i.on_conflict {
                    Some(node) => node.target,
                    None => None,
                };
                let update = OnConflictUpdate { assignments: Vec::new(), condition: None };
                i.on_conflict = Some(OnConflictNode { target, action: OnConflictAction::DoUpdate(Box::new(update)) });
                QueryBody::Insert(Box::new(i))
            },
            other => other,
        };
        Query { ast: QueryAst { with, body }, options, deferred_error }
    }

    /// One more assignment of a bound value (see `set_expr`).
    pub fn set<C: Into<ColumnRef>, V: Into<DbValue>>(self, column: C, value: V) -> (r: Query)
        ensures
            exists|c: ColumnRef, v: DbValue| call_ensures(C::into, (column,), c) && call_ensures(V::into, (value,), v)
                && assignment_applied(self.tree(), (c, Expr::Value(v)), r.tree()),
            r.same_settings(&self),
    {
        let c = column.into();
        let v = value.into();
        self.push_assignment(c, Expr::Value(v))
    }

    /// One more assignment: to the conflict update of an insert that has
    /// one, or to an update; other queries are unchanged.
    pub fn set_expr<C: Into<ColumnRef>, E: Into<Expr>>(self, column: C, expr: E) -> (r: Query)
        ensures
            exists|c: ColumnRef, e: Expr| call_ensures(C::into, (column,), c) && call_ensures(E::into, (expr,), e)
                && assignment_applied(self.tree(), (c, e), r.tree()),
            r.same_settings(&self),
    {
        let c = column.into();
        let e = expr.into();
        self.push_assignment(c, e)
    }

    /// One more assignment of a column to its value in the row proposed
    /// for insertion (`EXCLUDED`).
    pub fn set_excluded<C: Into<ColumnRef>>(self, column: C) -> (r: Query)
        ensures
            exists|c: ColumnRef| call_ensures(C::into, (column,), c)
                && assignment_applied(self.tree(), (c, Expr::Excluded(c)), r.tree()),
            r.same_settings(&self),
    {
        let c = column.into();
        let e = Expr::Excluded(c.clone());
        self.push_assignment(c, e)
    }

    fn push_assignment(self, column: ColumnRef, expr: Expr) -> (r: Query)
        ensures
            assignment_applied(self.tree(), (column, expr), r.tree()),
            r.same_settings(&self),
    {
        let Query { ast, options, deferred_error } = self;
        let QueryAst { with, body } = ast;
        let body = match body {
            QueryBody::Insert(insert) => {
                let mut i = *insert;
                i.on_conflict = match i.on_conflict {
                    Some(OnConflictNode { target, action: OnConflictAction::DoUpdate(update) }) => {
                        let mut u = *update;
                        u.assignments.push((column, expr));
                        Some(OnConflictNode { target, action: OnConflictAction::DoUpdate(Box::new(u)) })
                    },
                    other => other,
                };
                QueryBody::Insert(Box::new(i))
            },
            QueryBody::Update(update) => {
                let mut u = *update;
                u.values.push((column, expr));
                QueryBody::Update(Box::new(u))
            },
            other => other,
        };
        Query { ast: QueryAst { with, body }, options, deferred_error }
    }

    /// An update with one more `FROM` source; other queries are unchanged.
    pub fn from<F: Into<FromItem>>(self, source: F) -> (r: Query)
        ensures
            r.tree().with == self.tree().with,
            r.same_settings(&self),
            match self.tree().body {
                QueryBody::Update(u) => r.tree().body matches QueryBody::Update(v)
                    && *v == (UpdateNode { from: v.from, ..*u }) && v.from@.len() == u.from@.len() + 1
                    && v.from@.subrange(0, u.from@.len() as int) == u.from@
                    && call_ensures(F::into, (source,), v.from@.last()),
                _ => r.tree().body == self.tree().body,
            },
    {
        let Query { ast, options, deferred_error } = self;
        let QueryAst { with, body } = ast;
        let body = match body {
            QueryBody::Update(update) => {
                let mut u = *update;
                let ghost before = u.from@;
                u.from.push(source.into());
                proof {
                    assert(u.from@.subrange(0, before.len() as int) =~= before);
                }
                QueryBody::Update(Box::new(u))
            },
            other => other,
        };
        Query { ast: QueryAst { with, body }, options, deferred_error }
    }

    /// A delete with one more `USING` source; other queries are unchanged.
    pub fn using<F: Into<FromItem>>(self, source: F) -> (r: Query)
        ensures
            r.tree().with == self.tree().with,
            r.same_settings(&self),
            match self.tree().body {
                QueryBody::Delete(d) => r.tree().body matches QueryBody::Delete(e)
                    && *e == (DeleteNode { using: e.using, ..*d }) && e.using@.len() == d.using@.len() + 1
                    && e.using@.subrange(0, d.using@.len() as int) == d.using@
                    && call_ensures(F::into, (source,), e.using@.last()),
                _ => r.tree().body == self.tree().body,
            },
    {
        let Query { ast, options, deferred_error } = self;
        let QueryAst { with, body } = ast;
        let body = match body {
            QueryBody::Delete(delete) => {
                let mut d = *delete;
                let ghost before = d.using@;
                d.using.push(source.into());
                proof {
                    assert(d.using@.subrange(0, before.len() as int) =~= before);
                }
                QueryBody::Delete(Box::new(d))
            },
            other => other,
        };
        Query { ast: QueryAst { with, body }, options, deferred_error }
    }

    /// An insert, update or delete returning exactly these columns; other
    /// queries are unchanged.
    pub fn returning<C: Into<ColumnRef>>(self, columns: Vec<C>) -> (r: Query)
        ensures
            r.tree().with == self.tree().with,
            r.same_settings(&self),
            match self.tree().body {
                QueryBody::Insert(i) => r.tree().body matches QueryBody::Insert(j)
                    && *j == (InsertNode { returning: j.returning, ..*i }) && column_items(columns@, j.returning@),
                QueryBody::Update(u) => r.tree().body matches QueryBody::Update(v)
                    && *v == (UpdateNode { returning: v.returning, ..*u }) && column_items(columns@, v.returning@),
                QueryBody::Delete(d) => r.tree().body matches QueryBody::Delete(e)
                    && *e == (DeleteNode { returning: e.returning, ..*d }) && column_items(columns@, e.returning@),
                _ => r.tree().body == self.tree().body,
            },
    {
        let items = column_select_items(columns);
        let Query { ast, options, deferred_error } = self;
        let QueryAst { with, body } = ast;
        let body = match body {
            QueryBody::Insert(insert) => {
                let mut i = *insert;
                i.returning = items;
                QueryBody::Insert(Box::new(i))
            },
            QueryBody::Update(update) => {
                let mut u = *update;
                u.returning = items;
                QueryBody::Update(Box::new(u))
            },
            QueryBody::Delete(delete) => {
                let mut d = *delete;
                d.returning = items;
                QueryBody::Delete(Box::new(d))
            },
            other => other,
        };
        Query { ast: QueryAst { with, body }, options, deferred_error }
    }

    fn set_operation(self, operator: SetOperator, other: Query) -> (r: Query)
        ensures
            r.tree().with@.len() == 0,
            r.tree().body matches QueryBody::SetOperation(s) && *s.left == self.tree() && *s.right == other.tree()
                && s.operator == operator && s.order_by@.len() == 0 && s.limit is None && s.offset is None,
            r.execution().timeout is None,
            r.execution().label is None,
            !r.execution().use_write_pool,
            r.deferred() == (if self.deferred() is Some { self.deferred() } else { other.deferred() }),
    {
        let Query { ast: left, deferred_error: left_error, .. } = self;
        let Query { ast: right, deferred_error: right_error, .. } = other;
        let deferred_error = match left_error {
            Some(e) => Some(e),
            None => right_error,
        };
        let set = SetOperationNode {
            left: Box::new(left),
            operator,
            right: Box::new(right),
            order_by: Vec::new(),
            limit: None,
            offset: None,
        };
        Query {
            ast: QueryAst { with: Vec::new(), body: QueryBody::SetOperation(Box::new(set)) },
            options: QueryExecutionOptions::default(),
            deferred_error,
        }
    }

    /// `self UNION other`, with default options and the first deferred
    /// error of the two.
    pub fn union(self, other: Query) -> (r: Query)
        ensures
            r.tree().with@.len() == 0,
            r.tree().body matches QueryBody::SetOperation(s) && *s.left == self.tree() && *s.right == other.tree()
                && s.operator == SetOperator::Union && s.order_by@.len() == 0 && s.limit is None && s.offset is None,
            r.execution().timeout is None,
            r.execution().label is None,
            !r.execution().use_write_pool,
            r.deferred() == (if self.deferred() is Some { self.deferred() } else { other.deferred() }),
    {
        self.set_operation(SetOperator::Union, other)
    }

    /// `self UNION ALL other`, with default options and the first deferred
    /// error of the two.
    pub fn union_all(self, other: Query) -> (r: Query)
        ensures
            r.tree().with@.len() == 0,
            r.tree().body matches QueryBody::SetOperation(s) && *s.left == self.tree() && *s.right == other.tree()
                && s.operator == SetOperator::UnionAll && s.order_by@.len() == 0 && s.limit is None && s.offset is None,
            r.execution().timeout is None,
            r.execution().label is None,
            !r.execution().use_write_pool,
            r.deferred() == (if self.deferred() is Some { self.deferred() } else { other.deferred() }),
    {
        self.set_operation(SetOperator::UnionAll, other)
    }

    /// The compiled SQL: the deferred error when a builder step recorded
    /// one, else what the compiler gives for the tree.
    pub fn compile(&self) -> (r: Result<CompiledSql, Error>)
        ensures
            match self.deferred() {
                Some(m) => r matches Err(e) && e.is_plain() && e@ == m@,
                None => match query_sql(self.tree(), 0) {
                    Ok((s, b)) => r matches Ok(c) && c.sql@ == s && views(c.bindings@) == b,
                    Err(m) => r matches Err(e) && e.is_plain() && e@ == m,
                },
            },
    {
        match &self.deferred_error {
            Some(e) => Err(Error::message(e.clone())),
            None => PostgresCompiler::compile(&self.ast),
        }
    }

    /// `compile`.
    pub fn to_compiled_sql(&self) -> (r: Result<CompiledSql, Error>)
        ensures
            match self.deferred() {
                Some(m) => r matches Err(e) && e.is_plain() && e@ == m@,
                None => match query_sql(self.tree(), 0) {
                    Ok((s, b)) => r matches Ok(c) && c.sql@ == s && views(c.bindings@) == b,
                    Err(m) => r matches Err(e) && e.is_plain() && e@ == m,
                },
            },
    {
        self.compile()
    }

    fn lock(self, strength: LockStrength) -> (r: Query)
        ensures
            on_select(self.tree(), r.tree(), |s: SelectNode, t: SelectNode| t == (SelectNode { lock: t.lock, ..s })
                && (t.lock matches Some(l) && l.strength == strength && match s.lock {
                    Some(old) => l == (LockClause { strength, ..old }),
                    None => l.of@.len() == 0 && l.behavior == LockBehavior::Wait,
                })),
            r.same_settings(&self),
    {
        let Query { ast, options, deferred_error } = self;
        let QueryAst { with, body } = ast;
        let body = match body {
            QueryBody::Select(select) => {
                let mut s = *select;
                s.lock = match s.lock {
                    Some(old) => Some(LockClause { strength, of: old.of, behavior: old.behavior }),
                    None => Some(LockClause { strength, of: Vec::new(), behavior: LockBehavior::Wait }),
                };
                QueryBody::Select(Box::new(s))
            },
            other => other,
        };
        Query { ast: QueryAst { with, body }, options, deferred_error }
    }

    /// A select locked `FOR UPDATE`, keeping the lock's tables and
    /// behavior; other queries are unchanged.
    pub fn for_update(self) -> (r: Query)
        ensures
            on_select(self.tree(), r.tree(), |s: SelectNode, t: SelectNode| t == (SelectNode { lock: t.lock, ..s })
                && (t.lock matches Some(l) && l.strength == LockStrength::Update && match s.lock {
                    Some(old) => l == (LockClause { strength: LockStrength::Update, ..old }),
                    None => l.of@.len() == 0 && l.behavior == LockBehavior::Wait,
                })),
            r.same_settings(&self),
    {
        self.lock(LockStrength::Update)
    }

    /// A select locked `FOR NO KEY UPDATE`, keeping the lock's tables and
    /// behavior; other queries are unchanged.
    pub fn for_no_key_update(self) -> (r: Query)
        ensures
            on_select(self.tree(), r.tree(), |s: SelectNode, t: SelectNode| t == (SelectNode { lock: t.lock, ..s })
                && (t.lock matches Some(l) && l.strength == LockStrength::NoKeyUpdate && match s.lock {
                    Some(old) => l == (LockClause { strength: LockStrength::NoKeyUpdate, ..old }),
                    None => l.of@.len() == 0 && l.behavior == LockBehavior::Wait,
                })),
            r.same_settings(&self),
    {
        self.lock(LockStrength::NoKeyUpdate)
    }

    /// A select locked `FOR SHARE`, keeping the lock's tables and behavior;
    /// other queries are unchanged.
    pub fn for_share(self) -> (r: Query)
        ensures
            on_select(self.tree(), r.tree(), |s: SelectNode, t: SelectNode| t == (SelectNode { lock: t.lock, ..s })
                && (t.lock matches Some(l) && l.strength == LockStrength::Share && match s.lock {
                    Some(old) => l == (LockClause { strength: LockStrength::Share, ..old }),
                    None => l.of@.len() == 0 && l.behavior == LockBehavior::Wait,
                })),
            r.same_settings(&self),
    {
        self.lock(LockStrength::Share)
    }

    /// A select locked `FOR KEY SHARE`, keeping the lock's tables and
    /// behavior; other queries are unchanged.
    pub fn for_key_share(self) -> (r: Query)
        ensures
            on_select(self.tree(), r.tree(), |s: SelectNode, t: SelectNode| t == (SelectNode { lock: t.lock, ..s })
                && (t.lock matches Some(l) && l.strength == LockStrength::KeyShare && match s.lock {
                    Some(old) => l == (LockClause { strength: LockStrength::KeyShare, ..old }),
                    None => l.of@.len() == 0 && l.behavior == LockBehavior::Wait,
                })),
            r.same_settings(&self),
    {
        self.lock(LockStrength::KeyShare)
    }

    /// A select whose lock also names these tables (a `FOR UPDATE` lock when
    /// it had none); other queries are unchanged.
    pub fn of(self, aliases: Vec<&str>) -> (r: Query)
        ensures
            on_select(self.tree(), r.tree(), |s: SelectNode, t: SelectNode| t == (SelectNode { lock: t.lock, ..s })
                && (t.lock matches Some(l) && match s.lock {
                    Some(old) => l == (LockClause { of: l.of, ..old }) && l.of@.len() == old.of@.len() + aliases@.len()
                        && l.of@.subrange(0, old.of@.len() as int) == old.of@
                        && forall|i: int| 0 <= i < aliases@.len() ==> #[trigger] l.of@[old.of@.len() + i]@ == aliases@[i]@,
                    None => l.strength == LockStrength::Update && l.behavior == LockBehavior::Wait
                        && l.of@.len() == aliases@.len()
                        && forall|i: int| 0 <= i < aliases@.len() ==> #[trigger] l.of@[i]@ == aliases@[i]@,
                })),
            r.same_settings(&self),
    {
        let Query { ast, options, deferred_error } = self;
        let QueryAst { with, body } = ast;
        let body = match body {
            QueryBody::Select(select) => {
                let mut s = *select;
                s.lock = match s.lock {
                    Some(old) => {
                        let LockClause { strength, of, behavior } = old;
                        let of = append_names(of, &aliases);
                        Some(LockClause { strength, of, behavior })
                    },
                    None => {
                        let of = append_names(Vec::new(), &aliases);
                        proof {
                            assert forall|i: int| 0 <= i < aliases@.len() implies #[trigger] of@[i]@ == aliases@[i]@ by {
                                assert(of@[0 + i] == of@[i]);
                            }
                        }
                        Some(LockClause { strength: LockStrength::Update, of, behavior: LockBehavior::Wait })
                    },
                };
                QueryBody::Select(Box::new(s))
            },
            other => other,
        };
        Query { ast: QueryAst { with, body }, options, deferred_error }
    }

    /// A select whose lock skips locked rows (a `FOR UPDATE` lock when it
    /// had none); other queries are unchanged.
    pub fn skip_locked(self) -> (r: Query)
        ensures
            on_select(self.tree(), r.tree(), |s: SelectNode, t: SelectNode| t == (SelectNode { lock: t.lock, ..s })
                && (t.lock matches Some(l) && l.behavior == LockBehavior::SkipLocked && match s.lock {
                    Some(old) => l == (LockClause { behavior: LockBehavior::SkipLocked, ..old }),
                    None => l.strength == LockStrength::Update && l.of@.len() == 0,
                })),
            r.same_settings(&self),
    {
        self.lock_behavior(LockBehavior::SkipLocked)
    }

    /// A select whose lock does not wait (a `FOR UPDATE` lock when it had
    /// none); other queries are unchanged.
    pub fn nowait(self) -> (r: Query)
        ensures
            on_select(self.tree(), r.tree(), |s: SelectNode, t: SelectNode| t == (SelectNode { lock: t.lock, ..s })
                && (t.lock matches Some(l) && l.behavior == LockBehavior::NoWait && match s.lock {
                    Some(old) => l == (LockClause { behavior: LockBehavior::NoWait, ..old }),
                    None => l.strength == LockStrength::Update && l.of@.len() == 0,
                })),
            r.same_settings(&self),
    {
        self.lock_behavior(LockBehavior::NoWait)
    }

    fn lock_behavior(self, behavior: LockBehavior) -> (r: Query)
        ensures
            on_select(self.tree(), r.tree(), |s: SelectNode, t: SelectNode| t == (SelectNode { lock: t.lock, ..s })
                && (t.lock matches Some(l) && l.behavior == behavior && match s.lock {
                    Some(old) => l == (LockClause { behavior, ..old }),
                    None => l.strength == LockStrength::Update && l.of@.len() == 0,
                })),
            r.same_settings(&self),
    {
        let Query { ast, options, deferred_error } = self;
        let QueryAst { with, body } = ast;
        let body = match body {
            QueryBody::Select(select) => {
                let mut s = *select;
                s.lock = match s.lock {
                    Some(old) => Some(LockClause { strength: old.strength, of: old.of, behavior }),
                    None => Some(LockClause { strength: LockStrength::Update, of: Vec::new(), behavior }),
                };
                QueryBody::Select(Box::new(s))
            },
            other => other,
        };
        Query { ast: QueryAst { with, body }, options, deferred_error }
    }

    /// The query tree.
    pub fn ast(&self) -> (r: &QueryAst)
        ensures
            *r == self.tree(),
    {
        &self.ast
    }
}

impl From<Query> for QueryAst {
    fn from(value: Query) -> (r: QueryAst)
        ensures
            r == value.tree(),
    {
        value.ast
    }
}

impl vstd::std_specs::convert::FromSpecImpl<Query> for QueryAst {
    open spec fn obeys_from_spec() -> bool {
        true
    }

    open spec fn from_spec(v: Query) -> QueryAst {
        v.tree()
    }
}

/// Each column converted into a plain projection.
fn column_select_items<C: Into<ColumnRef>>(columns: Vec<C>) -> (r: Vec<SelectItem>)
    ensures
        column_items(columns@, r@),
{
    let ghost cols = columns@;
    let mut items: Vec<SelectItem> = Vec::new();
    let mut rest = columns;
    proof {
        assert(rest@ == cols.subrange(0, cols.len() as int));
    }
    let mut reversed: Vec<C> = Vec::new();
    while rest.len() > 0
        invariant
            reversed@.len() + rest@.len() == cols.len(),
            rest@ == cols.subrange(0, rest@.len() as int),
            forall|i: int| 0 <= i < reversed@.len() ==> reversed@[i] == cols[cols.len() - 1 - i],
        decreases rest@.len(),
    {
        let c = rest.pop().unwrap();
        reversed.push(c);
    }
    while reversed.len() > 0
        invariant
            items@.len() + reversed@.len() == cols.len(),
            forall|i: int| 0 <= i < reversed@.len() ==> reversed@[i] == cols[cols.len() - 1 - i],
            column_items(cols.subrange(0, items@.len() as int), items@),
        decreases reversed@.len(),
    {
        let ghost k: int = items@.len() as int;
        let c = reversed.pop().unwrap();
        let ghost cv = c;
        items.push(SelectItem { expr: Expr::Column(c.into()), alias: None });
        proof {
            assert(cv == cols[k as int]);
            assert forall|i: int| 0 <= i < k + 1 implies (#[trigger] items@[i]).alias is None
                && (items@[i].expr matches Expr::Column(cc) && call_ensures(C::into, (cols.subrange(0, k + 1)[i],), cc)) by {
                if i < k {
                    assert(cols.subrange(0, k + 1)[i] == cols.subrange(0, k as int)[i]);
                }
            }
        }
    }
    proof {
        assert(cols.subrange(0, cols.len() as int) =~= cols);
    }
    items
}

/// A condition added to an optional one with `AND`.
fn merge_condition(existing: Option<Condition>, next: Condition) -> (r: Option<Condition>)
    ensures
        merged(existing, next, r),
{
    match existing {
        Some(e) => Some(Condition::And(vec![e, next])),
        None => Some(next),
    }
}

/// Each value converted into a database value, in order.
fn convert_values<V: Into<DbValue>>(values: Vec<V>) -> (r: Vec<DbValue>)
    ensures
        converted(values@, r@),
{
    let ghost vals = values@;
    let mut rest = values;
    let mut reversed: Vec<V> = Vec::new();
    while rest.len() > 0
        invariant
            reversed@.len() + rest@.len() == vals.len(),
            rest@ == vals.subrange(0, rest@.len() as int),
            forall|i: int| 0 <= i < reversed@.len() ==> reversed@[i] == vals[vals.len() - 1 - i],
        decreases rest@.len(),
    {
        let v = rest.pop().unwrap();
        reversed.push(v);
    }
    let mut out: Vec<DbValue> = Vec::new();
    while reversed.len() > 0
        invariant
            out@.len() + reversed@.len() == vals.len(),
            forall|i: int| 0 <= i < reversed@.len() ==> reversed@[i] == vals[vals.len() - 1 - i],
            forall|i: int| 0 <= i < out@.len() ==> call_ensures(V::into, (vals[i],), #[trigger] out@[i]),
        decreases reversed@.len(),
    {
        let ghost k: int = out@.len() as int;
        let v = reversed.pop().unwrap();
        proof {
            assert(v == vals[k]);
        }
        out.push(v.into());
    }
    out
}

proof fn lemma_values_applied_empty(q: QueryAst)
    ensures
        values_applied(q, Seq::empty(), q),
{
    match q.body {
        QueryBody::Insert(i) => {
            assert(*i == (InsertNode { source: i.source, ..*i }));
        },
        QueryBody::Update(u) => {
            assert(u.values@ + Seq::<(ColumnRef, Expr)>::empty() =~= u.values@);
        },
        _ => {},
    }
}

proof fn lemma_values_applied_step(
    q: QueryAst,
    ps: Seq<(ColumnRef, Expr)>,
    mid: QueryAst,
    pair: (ColumnRef, Expr),
    r: QueryAst,
)
    requires
        values_applied(q, ps, mid),
        values_applied(mid, seq![pair], r),
    ensures
        values_applied(q, ps.push(pair), r),
{
    match q.body {
        QueryBody::Insert(i) => {
            let j = mid.body->Insert_0;
            let k = r.body->Insert_0;
            if ps.len() == 0 {
                assert(ps.push(pair) =~= seq![pair]);
                assert(j.source == i.source);
            } else {
                match i.source {
                    InsertSource::Values(rows) => {
                        let rows_mid = j.source->Values_0;
                        let rows_r = k.source->Values_0;
                        if rows@.len() == 0 {
                            assert(rows_r@.subrange(0, 0) =~= rows_mid@.subrange(0, 0));
                            assert(rows_r@.len() == 1);
                            assert(rows_r@[0]@ =~= ps + seq![pair]);
                            assert(ps + seq![pair] =~= ps.push(pair));
                        } else {
                            assert(rows_r@.last()@ =~= rows@.last()@ + ps.push(pair));
                            assert(rows_r@.subrange(0, rows@.len() - 1) =~= rows@.subrange(0, rows@.len() - 1)) by {
                                assert forall|x: int| 0 <= x < rows@.len() - 1 implies rows_r@[x] == rows@[x] by {
                                    assert(rows_r@.subrange(0, rows@.len() - 1)[x] == rows_mid@.subrange(0, rows@.len() - 1)[x]);
                                    assert(rows_mid@.subrange(0, rows@.len() - 1)[x] == rows@.subrange(0, rows@.len() - 1)[x]);
                                }
                            }
                        }
                    },
                    InsertSource::Select(_) => {
                        let rows_r = k.source->Values_0;
                        assert(rows_r@[0]@ =~= ps + seq![pair]);
                        assert(ps + seq![pair] =~= ps.push(pair));
                    },
                }
            }
        },
        QueryBody::Update(u) => {
            let v = mid.body->Update_0;
            let w = r.body->Update_0;
            assert(w.values@ =~= u.values@ + ps.push(pair));
        },
        _ => {},
    }
}

/// `pair` added to the last row of an insert source.
fn push_insert_value(source: InsertSource, pair: (ColumnRef, Expr)) -> (r: InsertSource)
    ensures
        row_extended(source, seq![pair], r),
{
    match source {
        InsertSource::Values(rows) => {
            let mut rows = rows;
            let ghost before = rows@;
            if rows.len() == 0 {
                let mut row = Vec::new();
                row.push(pair);
                rows.push(row);
                proof {
                    assert(rows@[0]@ =~= seq![pair]);
                }
            } else {
                let mut last = rows.pop().unwrap();
                let ghost last0 = last@;
                last.push(pair);
                rows.push(last);
                proof {
                    assert(rows@.subrange(0, before.len() - 1) =~= before.subrange(0, before.len() - 1));
                    assert(rows@.last()@ =~= last0 + seq![pair]);
                }
            }
            InsertSource::Values(rows)
        },
        InsertSource::Select(_) => {
            let mut row = Vec::new();
            row.push(pair);
            let mut rows = Vec::new();
            rows.push(row);
            proof {
                assert(rows@[0]@ =~= seq![pair]);
            }
            InsertSource::Values(rows)
        },
    }
}

/// One more row for an insert source.
fn push_insert_row(source: InsertSource, row: Vec<(ColumnRef, Expr)>) -> (r: InsertSource)
    ensures
        row_added(source, row@, r),
{
    let ghost rv = row@;
    match source {
        InsertSource::Values(rows) => {
            let mut rows = rows;
            let ghost before = rows@;
            rows.push(row);
            proof {
                assert(rows@.subrange(0, before.len() as int) =~= before);
            }
            InsertSource::Values(rows)
        },
        InsertSource::Select(_) => {
            let mut rows = Vec::new();
            rows.push(row);
            InsertSource::Values(rows)
        },
    }
}

/// Each pair's column and value converted, the value bound.
fn convert_pairs<C: Into<ColumnRef>, V: Into<DbValue>>(pairs: Vec<(C, V)>) -> (r: Vec<(ColumnRef, Expr)>)
    ensures
        converted_pairs(pairs@, r@),
{
    let ghost ps = pairs@;
    let mut rest = pairs;
    let mut reversed: Vec<(C, V)> = Vec::new();
    while rest.len() > 0
        invariant
            reversed@.len() + rest@.len() == ps.len(),
            rest@ == ps.subrange(0, rest@.len() as int),
            forall|i: int| 0 <= i < reversed@.len() ==> reversed@[i] == ps[ps.len() - 1 - i],
        decreases rest@.len(),
    {
        let p = rest.pop().unwrap();
        reversed.push(p);
    }
    let mut out: Vec<(ColumnRef, Expr)> = Vec::new();
    while reversed.len() > 0
        invariant
            out@.len() + reversed@.len() == ps.len(),
            forall|i: int| 0 <= i < reversed@.len() ==> reversed@[i] == ps[ps.len() - 1 - i],
            forall|i: int|
                0 <= i < out@.len() ==> call_ensures(C::into, (ps[i].0,), (#[trigger] out@[i]).0) && (out@[i].1 matches Expr::Value(v)
                    && call_ensures(V::into, (ps[i].1,), v)),
        decreases reversed@.len(),
    {
        let ghost k: int = out@.len() as int;
        let (c, v) = reversed.pop().unwrap();
        proof {
            assert((c, v) == ps[k]);
        }
        out.push((c.into(), Expr::Value(v.into())));
    }
    out
}

/// Each column converted, in order.
fn convert_columns<C: Into<ColumnRef>>(columns: Vec<C>) -> (r: Vec<ColumnRef>)
    ensures
        converted_columns(columns@, r@),
{
    let ghost cs = columns@;
    let mut rest = columns;
    let mut reversed: Vec<C> = Vec::new();
    while rest.len() > 0
        invariant
            reversed@.len() + rest@.len() == cs.len(),
            rest@ == cs.subrange(0, rest@.len() as int),
            forall|i: int| 0 <= i < reversed@.len() ==> reversed@[i] == cs[cs.len() - 1 - i],
        decreases rest@.len(),
    {
        let c = rest.pop().unwrap();
        reversed.push(c);
    }
    let mut out: Vec<ColumnRef> = Vec::new();
    while reversed.len() > 0
        invariant
            out@.len() + reversed@.len() == cs.len(),
            forall|i: int| 0 <= i < reversed@.len() ==> reversed@[i] == cs[cs.len() - 1 - i],
            forall|i: int| 0 <= i < out@.len() ==> call_ensures(C::into, (cs[i],), #[trigger] out@[i]),
        decreases reversed@.len(),
    {
        let ghost k: int = out@.len() as int;
        let c = reversed.pop().unwrap();
        proof {
            assert(c == cs[k]);
        }
        out.push(c.into());
    }
    out
}

/// `names` followed by a copy of each of `more`.
fn append_names(names: Vec<String>, more: &Vec<&str>) -> (r: Vec<String>)
    ensures
        r@.len() == names@.len() + more@.len(),
        r@.subrange(0, names@.len() as int) == names@,
        forall|i: int| 0 <= i < more@.len() ==> #[trigger] r@[names@.len() + i]@ == more@[i]@,
{
    let ghost n0 = names@;
    let mut out = names;
    let mut i: usize = 0;
    while i < more.len()
        invariant
            i <= more@.len(),
            out@.len() == n0.len() + i,
            out@.subrange(0, n0.len() as int) == n0,
            forall|j: int| 0 <= j < i ==> #[trigger] out@[n0.len() + j]@ == more@[j]@,
        decreases more@.len() - i,
    {
        let ghost before = out@;
        out.push(owned(more[i]));
        proof {
            assert(out@.subrange(0, n0.len() as int) =~= before.subrange(0, n0.len() as int));
        }
        i = i + 1;
    }
    out
}

proof fn lemma_rows_added_step(
    src: InsertSource,
    rs: Seq<Seq<(ColumnRef, Expr)>>,
    mid: InsertSource,
    row: Seq<(ColumnRef, Expr)>,
    out: InsertSource,
)
    requires
        rows_added(src, rs, mid),
        row_added(mid, row, out),
    ensures
        rows_added(src, rs.push(row), out),
{
    let base = value_rows(src);
    let m = value_rows(mid);
    let o = value_rows(out);
    let t = rs.push(row);
    assert(o.len() == m.len() + 1);
    assert(o.subrange(0, m.len() as int) == m);
    assert(o.last()@ == row);
    if rs.len() == 0 {
        assert(mid == src);
        assert(o.subrange(0, base.len() as int) =~= base);
        assert(o[base.len() as int + 0] == o.last());
    } else {
        assert(o.subrange(0, base.len() as int) =~= base) by {
            assert forall|x: int| 0 <= x < base.len() implies o[x] == base[x] by {
                assert(o.subrange(0, m.len() as int)[x] == m[x]);
                assert(m.subrange(0, base.len() as int)[x] == base[x]);
            }
        }
        assert forall|j: int| 0 <= j < t.len() implies #[trigger] o[base.len() + j]@ == t[j] by {
            if j < rs.len() {
                assert(o.subrange(0, m.len() as int)[base.len() + j] == m[base.len() + j]);
                assert(m[base.len() + j]@ == rs[j]);
                assert(t[j] == rs[j]);
            } else {
                assert(base.len() + j == o.len() - 1);
                assert(o[base.len() + j] == o.last());
                assert(t[j] == row);
            }
        }
    }
}

/// The rows, each converted, added to an insert source in order.
fn push_insert_rows<C: Into<ColumnRef>, V: Into<DbValue>>(source: InsertSource, rows: Vec<Vec<(C, V)>>) -> (r: InsertSource)
    ensures
        exists|rs: Seq<Seq<(ColumnRef, Expr)>>| converted_rows(rows@, rs) && rows_added(source, rs, r),
{
    let ghost all = rows@;
    let mut rest = rows;
    let mut reversed: Vec<Vec<(C, V)>> = Vec::new();
    while rest.len() > 0
        invariant
            reversed@.len() + rest@.len() == all.len(),
            rest@ == all.subrange(0, rest@.len() as int),
            forall|i: int| 0 <= i < reversed@.len() ==> reversed@[i] == all[all.len() - 1 - i],
        decreases rest@.len(),
    {
        let row = rest.pop().unwrap();
        reversed.push(row);
    }
    let ghost src0 = source;
    let mut src = source;
    let ghost mut done: Seq<Seq<(ColumnRef, Expr)>> = Seq::empty();
    while reversed.len() > 0
        invariant
            done.len() + reversed@.len() == all.len(),
            forall|i: int| 0 <= i < reversed@.len() ==> reversed@[i] == all[all.len() - 1 - i],
            converted_rows(all.subrange(0, done.len() as int), done),
            rows_added(src0, done, src),
        decreases reversed@.len(),
    {
        let ghost k: int = done.len() as int;
        let row = reversed.pop().unwrap();
        proof {
            assert(row == all[k]);
        }
        let pairs = convert_pairs(row);
        let ghost mid = src;
        src = push_insert_row(src, pairs);
        proof {
            lemma_rows_added_step(src0, done, mid, pairs@, src);
            done = done.push(pairs@);
            assert forall|j: int| 0 <= j < k + 1 implies converted_pairs(all.subrange(0, k + 1)[j]@, #[trigger] done[j]) by {
                if j < k {
                    assert(all.subrange(0, k + 1)[j] == all.subrange(0, k)[j]);
                }
            }
        }
    }
    proof {
        assert(all.subrange(0, all.len() as int) =~= all);
    }
    src
}

// ---------------------------------------------------------------------------
// Errors of model query callbacks and batches
// ---------------------------------------------------------------------------

/// The first deferred error of two, the left one first.
pub fn first_deferred_error(left: Option<String>, right: Option<String>) -> (r: Option<String>)
    ensures
        r == (match left {
            Some(l) => Some(l),
            None => right,
        }),
{
    match left {
        Some(l) => Some(l),
        None => right,
    }
}

fn callback_message(prefix: &str, subject: &str, middle: &str, message: &str) -> (m: String)
    ensures
        m@ == prefix@ + subject@ + middle@ + message@,
{
    let mut m = owned(prefix);
    m.append(subject);
    m.append(middle);
    m.append(message);
    m
}

/// The error for a model query iteration callback (`chunk`, `each_by_id`
/// and the like) that panicked.
pub fn query_iteration_panic_error(model: &str, operation: &str, message: &str) -> (e: Error)
    ensures
        e.is_plain(),
        e@ == "model query `"@ + model@ + "` "@ + operation@ + " callback panicked: "@ + message@,
{
    let mut middle = owned("` ");
    middle.append(operation);
    middle.append(" callback panicked: ");
    Error::message(callback_message("model query `", model, middle.as_str(), message))
}

/// The deferred message for a model query DSL callback that panicked.
pub fn model_query_dsl_panic_message(model: &str, operation: &str, message: &str) -> (m: String)
    ensures
        m@ == "model query `"@ + model@ + "` "@ + operation@ + " callback panicked: "@ + message@,
{
    let mut middle = owned("` ");
    middle.append(operation);
    middle.append(" callback panicked: ");
    callback_message("model query `", model, middle.as_str(), message)
}

/// The deferred message for a projection query DSL callback that panicked.
pub fn projection_query_dsl_panic_message(projection: &str, operation: &str, message: &str) -> (m: String)
    ensures
        m@ == "projection query `"@ + projection@ + "` "@ + operation@ + " callback panicked: "@ + message@,
{
    let mut middle = owned("` ");
    middle.append(operation);
    middle.append(" callback panicked: ");
    callback_message("projection query `", projection, middle.as_str(), message)
}

/// The deferred message for a `create_many` row callback that panicked.
pub fn create_many_row_builder_panic_message(model: &str, message: &str) -> (m: String)
    ensures
        m@ == "model create_many `"@ + model@ + "` row callback panicked: "@ + message@,
{
    callback_message("model create_many `", model, "` row callback panicked: ", message)
}

/// The error for a model write mutator that panicked on a column.
pub fn model_write_mutator_panic_error(model: &str, column: &str, message: &str) -> (e: Error)
    ensures
        e.is_plain(),
        e@ == "model `"@ + model@ + "` write mutator `"@ + column@ + "` panicked: "@ + message@,
{
    let mut middle = owned("` write mutator `");
    middle.append(column);
    middle.append("` panicked: ");
    Error::message(callback_message("model `", model, middle.as_str(), message))
}

/// The error for a model lifecycle hook that panicked.
pub fn model_lifecycle_panic_error(model: &str, hook: &str, message: &str) -> (e: Error)
    ensures
        e.is_plain(),
        e@ == "model lifecycle `"@ + model@ + "` "@ + hook@ + " hook panicked: "@ + message@,
{
    let mut middle = owned("` ");
    middle.append(hook);
    middle.append(" hook panicked: ");
    Error::message(callback_message("model lifecycle `", model, middle.as_str(), message))
}

/// The label of a query as it ends a batch error: ` in `label``, or
/// nothing.
pub open spec fn batch_label(options: QueryExecutionOptions) -> Seq<char> {
    match options.label {
        Some(l) => " in `"@ + l@ + "`"@,
        None => Seq::empty(),
    }
}

fn batch_error(prefix: &str, options: &QueryExecutionOptions, action: &str, error: &Error) -> (e: Error)
    ensures
        e.is_plain(),
        e@ == prefix@ + action@ + batch_label(*options) + ": "@ + error@,
{
    let mut m = owned(prefix);
    m.append(action);
    match &options.label {
        Some(label) => {
            m.append(" in `");
            m.append(label.as_str());
            m.append("`");
        },
        None => {},
    }
    m.append(": ");
    m.append(error.message.as_str());
    Error::message(m)
}

/// The error of a model query batch that failed, naming what it was doing
/// and the query's label.
pub fn wrap_model_query_batch_error(options: &QueryExecutionOptions, action: &str, error: &Error) -> (e: Error)
    ensures
        e.is_plain(),
        e@ == "model query failed to "@ + action@ + batch_label(*options) + ": "@ + error@,
{
    batch_error("model query failed to ", options, action, error)
}

/// The error of a model query stream that failed, naming what it was doing
/// and the query's label.
pub fn wrap_model_stream_error(options: &QueryExecutionOptions, action: &str, error: &Error) -> (e: Error)
    ensures
        e.is_plain(),
        e@ == "model query stream failed to "@ + action@ + batch_label(*options) + ": "@ + error@,
{
    batch_error("model query stream failed to ", options, action, error)
}

} // verus!
