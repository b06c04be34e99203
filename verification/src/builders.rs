//! Constructors and conversions for query trees.
//!
//! Constructors that take `impl Into<..>` state the part they build from
//! the converted value through `call_ensures` of that conversion.
use vstd::prelude::*;

use crate::ast::{
    AggregateExpr, AggregateFn, AggregateNode, BinaryExpr, BinaryOperator, CaseExpr, CaseWhen,
    ColumnRef, ComparisonOp, Condition, DbType, DbValue, DeleteNode, Expr, FromItem,
    FunctionCall, InsertNode, JsonPathExpr, JsonPathMode, JsonPathSegment, JsonPredicateOp,
    JsonPredicateValue, Numeric, OrderBy, OrderDirection, QueryAst, QueryBody, SelectItem,
    SelectNode, SetOperationNode, TableRef, UnaryExpr, UnaryOperator, UpdateNode, WindowExpr,
    WindowFrame, WindowFrameBound, WindowFrameUnits, WindowSpec,
};
use crate::error::Error;
use crate::text::owned;

verus! {

// ---------------------------------------------------------------------------
// Values
// ---------------------------------------------------------------------------

impl From<i16> for DbValue {
    fn from(value: i16) -> (r: DbValue) {
        DbValue::Int16(value)
    }
}

impl vstd::std_specs::convert::FromSpecImpl<i16> for DbValue {
    open spec fn obeys_from_spec() -> bool {
        true
    }

    open spec fn from_spec(v: i16) -> DbValue {
        DbValue::Int16(v)
    }
}

impl From<i32> for DbValue {
    fn from(value: i32) -> (r: DbValue) {
        DbValue::Int32(value)
    }
}

impl vstd::std_specs::convert::FromSpecImpl<i32> for DbValue {
    open spec fn obeys_from_spec() -> bool {
        true
    }

    open spec fn from_spec(v: i32) -> DbValue {
        DbValue::Int32(v)
    }
}

impl From<i64> for DbValue {
    fn from(value: i64) -> (r: DbValue) {
        DbValue::Int64(value)
    }
}

impl vstd::std_specs::convert::FromSpecImpl<i64> for DbValue {
    open spec fn obeys_from_spec() -> bool {
        true
    }

    open spec fn from_spec(v: i64) -> DbValue {
        DbValue::Int64(v)
    }
}

impl From<bool> for DbValue {
    fn from(value: bool) -> (r: DbValue) {
        DbValue::Bool(value)
    }
}

impl vstd::std_specs::convert::FromSpecImpl<bool> for DbValue {
    open spec fn obeys_from_spec() -> bool {
        true
    }

    open spec fn from_spec(v: bool) -> DbValue {
        DbValue::Bool(v)
    }
}

impl From<Numeric> for DbValue {
    fn from(value: Numeric) -> (r: DbValue) {
        DbValue::Numeric(value)
    }
}

impl vstd::std_specs::convert::FromSpecImpl<Numeric> for DbValue {
    open spec fn obeys_from_spec() -> bool {
        true
    }

    open spec fn from_spec(v: Numeric) -> DbValue {
        DbValue::Numeric(v)
    }
}

impl From<String> for DbValue {
    fn from(value: String) -> (r: DbValue) {
        DbValue::Text(value)
    }
}

impl vstd::std_specs::convert::FromSpecImpl<String> for DbValue {
    open spec fn obeys_from_spec() -> bool {
        true
    }

    open spec fn from_spec(v: String) -> DbValue {
        DbValue::Text(v)
    }
}

impl From<&str> for DbValue {
    /// A text value; the new string is stated by its view.
    fn from(value: &str) -> (r: DbValue)
        ensures
            r matches DbValue::Text(s) && s@ == value@,
    {
        DbValue::Text(owned(value))
    }
}

impl vstd::std_specs::convert::FromSpecImpl<&str> for DbValue {
    open spec fn obeys_from_spec() -> bool {
        false
    }

    open spec fn from_spec(v: &str) -> DbValue {
        DbValue::Null(DbType::Text)
    }
}

impl From<Vec<u8>> for DbValue {
    fn from(value: Vec<u8>) -> (r: DbValue) {
        DbValue::Bytea(value)
    }
}

impl vstd::std_specs::convert::FromSpecImpl<Vec<u8>> for DbValue {
    open spec fn obeys_from_spec() -> bool {
        true
    }

    open spec fn from_spec(v: Vec<u8>) -> DbValue {
        DbValue::Bytea(v)
    }
}

impl From<Vec<i16>> for DbValue {
    fn from(value: Vec<i16>) -> (r: DbValue) {
        DbValue::Int16Array(value)
    }
}

impl vstd::std_specs::convert::FromSpecImpl<Vec<i16>> for DbValue {
    open spec fn obeys_from_spec() -> bool {
        true
    }

    open spec fn from_spec(v: Vec<i16>) -> DbValue {
        DbValue::Int16Array(v)
    }
}

impl From<Vec<i32>> for DbValue {
    fn from(value: Vec<i32>) -> (r: DbValue) {
        DbValue::Int32Array(value)
    }
}

impl vstd::std_specs::convert::FromSpecImpl<Vec<i32>> for DbValue {
    open spec fn obeys_from_spec() -> bool {
        true
    }

    open spec fn from_spec(v: Vec<i32>) -> DbValue {
        DbValue::Int32Array(v)
    }
}

impl From<Vec<i64>> for DbValue {
    fn from(value: Vec<i64>) -> (r: DbValue) {
        DbValue::Int64Array(value)
    }
}

impl vstd::std_specs::convert::FromSpecImpl<Vec<i64>> for DbValue {
    open spec fn obeys_from_spec() -> bool {
        true
    }

    open spec fn from_spec(v: Vec<i64>) -> DbValue {
        DbValue::Int64Array(v)
    }
}

impl From<Vec<bool>> for DbValue {
    fn from(value: Vec<bool>) -> (r: DbValue) {
        DbValue::BoolArray(value)
    }
}

impl vstd::std_specs::convert::FromSpecImpl<Vec<bool>> for DbValue {
    open spec fn obeys_from_spec() -> bool {
        true
    }

    open spec fn from_spec(v: Vec<bool>) -> DbValue {
        DbValue::BoolArray(v)
    }
}

impl From<Vec<Numeric>> for DbValue {
    fn from(value: Vec<Numeric>) -> (r: DbValue) {
        DbValue::NumericArray(value)
    }
}

impl vstd::std_specs::convert::FromSpecImpl<Vec<Numeric>> for DbValue {
    open spec fn obeys_from_spec() -> bool {
        true
    }

    open spec fn from_spec(v: Vec<Numeric>) -> DbValue {
        DbValue::NumericArray(v)
    }
}

impl From<Vec<String>> for DbValue {
    fn from(value: Vec<String>) -> (r: DbValue) {
        DbValue::TextArray(value)
    }
}

impl vstd::std_specs::convert::FromSpecImpl<Vec<String>> for DbValue {
    open spec fn obeys_from_spec() -> bool {
        true
    }

    open spec fn from_spec(v: Vec<String>) -> DbValue {
        DbValue::TextArray(v)
    }
}

impl From<i64> for Numeric {
    /// The decimal text of an integer.
    fn from(value: i64) -> (r: Numeric)
        ensures
            r@ == crate::text::idec(value as int),
    {
        Numeric::from_i64(value)
    }
}

impl vstd::std_specs::convert::FromSpecImpl<i64> for Numeric {
    open spec fn obeys_from_spec() -> bool {
        false
    }

    open spec fn from_spec(v: i64) -> Numeric {
        arbitrary()
    }
}

impl TryFrom<&str> for Numeric {
    type Error = Error;

    /// `Numeric::new`.
    fn try_from(value: &str) -> (r: Result<Numeric, Error>)
        ensures
            match crate::ast::numeric_check(value@) {
                Ok(_) => r matches Ok(n) && n@ == value@,
                Err(m) => r matches Err(e) && e.is_plain() && e@ == m,
            },
    {
        Numeric::new(value)
    }
}

impl vstd::std_specs::convert::TryFromSpecImpl<&str> for Numeric {
    open spec fn obeys_try_from_spec() -> bool {
        false
    }

    open spec fn try_from_spec(v: &str) -> Result<Numeric, Error> {
        arbitrary()
    }
}

// ---------------------------------------------------------------------------
// Tables and columns
// ---------------------------------------------------------------------------

impl From<&str> for TableRef {
    /// `TableRef::new`.
    fn from(value: &str) -> (r: TableRef)
        ensures
            r.name@ == value@,
            r.alias is None,
    {
        TableRef::new(value)
    }
}

impl vstd::std_specs::convert::FromSpecImpl<&str> for TableRef {
    open spec fn obeys_from_spec() -> bool {
        false
    }

    open spec fn from_spec(v: &str) -> TableRef {
        arbitrary()
    }
}

impl From<TableRef> for FromItem {
    fn from(value: TableRef) -> (r: FromItem) {
        FromItem::Table(value)
    }
}

impl vstd::std_specs::convert::FromSpecImpl<TableRef> for FromItem {
    open spec fn obeys_from_spec() -> bool {
        true
    }

    open spec fn from_spec(v: TableRef) -> FromItem {
        FromItem::Table(v)
    }
}

impl From<&str> for FromItem {
    /// The table of that name.
    fn from(value: &str) -> (r: FromItem)
        ensures
            r matches FromItem::Table(t) && t.name@ == value@ && t.alias is None,
    {
        FromItem::Table(TableRef::new(value))
    }
}

impl vstd::std_specs::convert::FromSpecImpl<&str> for FromItem {
    open spec fn obeys_from_spec() -> bool {
        false
    }

    open spec fn from_spec(v: &str) -> FromItem {
        arbitrary()
    }
}

impl FromItem {
    /// A subquery with its alias.
    pub fn subquery<Q: Into<QueryAst>>(query: Q, alias: &str) -> (r: FromItem)
        ensures
            r matches FromItem::Subquery { query: q, alias: a } && call_ensures(Q::into, (query,), *q)
                && a@ == alias@,
    {
        FromItem::Subquery { query: Box::new(query.into()), alias: owned(alias) }
    }
}

impl From<&str> for ColumnRef {
    /// `ColumnRef::bare`.
    fn from(value: &str) -> (r: ColumnRef)
        ensures
            r.table is None,
            r.name@ == value@,
            r.alias is None,
            r.db_type is None,
    {
        ColumnRef::bare(value)
    }
}

impl vstd::std_specs::convert::FromSpecImpl<&str> for ColumnRef {
    open spec fn obeys_from_spec() -> bool {
        false
    }

    open spec fn from_spec(v: &str) -> ColumnRef {
        arbitrary()
    }
}

// ---------------------------------------------------------------------------
// Aggregates
// ---------------------------------------------------------------------------

impl AggregateExpr {
    /// `COUNT(*)`.
    pub fn count_all() -> (r: AggregateExpr)
        ensures
            r.function == AggregateFn::Count,
            r.expr is None,
            !r.distinct,
    {
        AggregateExpr { function: AggregateFn::Count, expr: None, distinct: false }
    }

    pub fn count(expr: Expr) -> (r: AggregateExpr)
        ensures
            r.function == AggregateFn::Count,
            r.expr == Some(Box::new(expr)),
            !r.distinct,
    {
        AggregateExpr { function: AggregateFn::Count, expr: Some(Box::new(expr)), distinct: false }
    }

    pub fn count_distinct(expr: Expr) -> (r: AggregateExpr)
        ensures
            r.function == AggregateFn::Count,
            r.expr == Some(Box::new(expr)),
            r.distinct,
    {
        AggregateExpr { function: AggregateFn::Count, expr: Some(Box::new(expr)), distinct: true }
    }

    pub fn sum(expr: Expr) -> (r: AggregateExpr)
        ensures
            r.function == AggregateFn::Sum,
            r.expr == Some(Box::new(expr)),
            !r.distinct,
    {
        AggregateExpr { function: AggregateFn::Sum, expr: Some(Box::new(expr)), distinct: false }
    }

    pub fn avg(expr: Expr) -> (r: AggregateExpr)
        ensures
            r.function == AggregateFn::Avg,
            r.expr == Some(Box::new(expr)),
            !r.distinct,
    {
        AggregateExpr { function: AggregateFn::Avg, expr: Some(Box::new(expr)), distinct: false }
    }

    pub fn min(expr: Expr) -> (r: AggregateExpr)
        ensures
            r.function == AggregateFn::Min,
            r.expr == Some(Box::new(expr)),
            !r.distinct,
    {
        AggregateExpr { function: AggregateFn::Min, expr: Some(Box::new(expr)), distinct: false }
    }

    pub fn max(expr: Expr) -> (r: AggregateExpr)
        ensures
            r.function == AggregateFn::Max,
            r.expr == Some(Box::new(expr)),
            !r.distinct,
    {
        AggregateExpr { function: AggregateFn::Max, expr: Some(Box::new(expr)), distinct: false }
    }
}

impl AggregateNode {
    pub fn count_all(alias: &str) -> (r: AggregateNode)
        ensures
            r.aggregate.function == AggregateFn::Count,
            r.aggregate.expr is None,
            !r.aggregate.distinct,
            r.alias@ == alias@,
    {
        AggregateNode { aggregate: AggregateExpr::count_all(), alias: owned(alias) }
    }

    pub fn count(expr: Expr, alias: &str) -> (r: AggregateNode)
        ensures
            r.aggregate.function == AggregateFn::Count,
            r.aggregate.expr == Some(Box::new(expr)),
            !r.aggregate.distinct,
            r.alias@ == alias@,
    {
        AggregateNode { aggregate: AggregateExpr::count(expr), alias: owned(alias) }
    }

    pub fn count_distinct(expr: Expr, alias: &str) -> (r: AggregateNode)
        ensures
            r.aggregate.function == AggregateFn::Count,
            r.aggregate.expr == Some(Box::new(expr)),
            r.aggregate.distinct,
            r.alias@ == alias@,
    {
        AggregateNode { aggregate: AggregateExpr::count_distinct(expr), alias: owned(alias) }
    }

    pub fn sum(expr: Expr, alias: &str) -> (r: AggregateNode)
        ensures
            r.aggregate.function == AggregateFn::Sum,
            r.aggregate.expr == Some(Box::new(expr)),
            !r.aggregate.distinct,
            r.alias@ == alias@,
    {
        AggregateNode { aggregate: AggregateExpr::sum(expr), alias: owned(alias) }
    }

    pub fn avg(expr: Expr, alias: &str) -> (r: AggregateNode)
        ensures
            r.aggregate.function == AggregateFn::Avg,
            r.aggregate.expr == Some(Box::new(expr)),
            !r.aggregate.distinct,
            r.alias@ == alias@,
    {
        AggregateNode { aggregate: AggregateExpr::avg(expr), alias: owned(alias) }
    }

    pub fn min(expr: Expr, alias: &str) -> (r: AggregateNode)
        ensures
            r.aggregate.function == AggregateFn::Min,
            r.aggregate.expr == Some(Box::new(expr)),
            !r.aggregate.distinct,
            r.alias@ == alias@,
    {
        AggregateNode { aggregate: AggregateExpr::min(expr), alias: owned(alias) }
    }

    pub fn max(expr: Expr, alias: &str) -> (r: AggregateNode)
        ensures
            r.aggregate.function == AggregateFn::Max,
            r.aggregate.expr == Some(Box::new(expr)),
            !r.aggregate.distinct,
            r.alias@ == alias@,
    {
        AggregateNode { aggregate: AggregateExpr::max(expr), alias: owned(alias) }
    }
}

// ---------------------------------------------------------------------------
// Expressions
// ---------------------------------------------------------------------------

impl Expr {
    /// A column.
    pub fn column<C: Into<ColumnRef>>(column: C) -> (e: Expr)
        ensures
            e matches Expr::Column(c) && call_ensures(C::into, (column,), c),
    {
        Expr::Column(column.into())
    }

    /// A column of the row proposed for insertion (`EXCLUDED`).
    pub fn excluded<C: Into<ColumnRef>>(column: C) -> (e: Expr)
        ensures
            e matches Expr::Excluded(c) && call_ensures(C::into, (column,), c),
    {
        Expr::Excluded(column.into())
    }

    /// A bound value.
    pub fn value<V: Into<DbValue>>(value: V) -> (e: Expr)
        ensures
            e matches Expr::Value(v) && call_ensures(V::into, (value,), v),
    {
        Expr::Value(value.into())
    }

    /// A bound text value.
    pub fn text(value: &str) -> (e: Expr)
        ensures
            e matches Expr::Value(DbValue::Text(s)) && s@ == value@,
    {
        Expr::Value(DbValue::Text(owned(value)))
    }

    /// A bound boolean.
    pub fn bool(value: bool) -> (e: Expr)
        ensures
            e == Expr::Value(DbValue::Bool(value)),
    {
        Expr::Value(DbValue::Bool(value))
    }

    pub fn false_() -> (e: Expr)
        ensures
            e == Expr::Value(DbValue::Bool(false)),
    {
        Expr::bool(false)
    }

    pub fn true_() -> (e: Expr)
        ensures
            e == Expr::Value(DbValue::Bool(true)),
    {
        Expr::bool(true)
    }

    /// A cast to a type.
    pub fn cast<E: Into<Expr>>(expr: E, db_type: DbType) -> (e: Expr)
        ensures
            e matches Expr::Cast { expr: x, db_type: t } && t == db_type && call_ensures(E::into, (expr,), *x),
    {
        Expr::Cast { expr: Box::new(expr.into()), db_type }
    }

    /// A cast to text.
    pub fn cast_text<E: Into<Expr>>(expr: E) -> (e: Expr)
        ensures
            e matches Expr::Cast { expr: x, db_type: t } && t == DbType::Text && call_ensures(E::into, (expr,), *x),
    {
        Expr::cast(expr, DbType::Text)
    }

    /// A function call.
    pub fn function(name: &str, args: Vec<Expr>) -> (e: Expr)
        ensures
            e matches Expr::Function(f) && f.name@ == name@ && f.args@ == args@,
    {
        Expr::Function(Box::new(FunctionCall { name: owned(name), args }))
    }

    pub fn unary<E: Into<Expr>>(operator: UnaryOperator, expr: E) -> (e: Expr)
        ensures
            e matches Expr::Unary(u) && u.operator == operator && call_ensures(E::into, (expr,), *u.expr),
    {
        Expr::Unary(Box::new(UnaryExpr { operator, expr: Box::new(expr.into()) }))
    }

    pub fn binary<L: Into<Expr>, R: Into<Expr>>(left: L, operator: BinaryOperator, right: R) -> (e: Expr)
        ensures
            e matches Expr::Binary(b) && b.operator == operator && call_ensures(L::into, (left,), *b.left)
                && call_ensures(R::into, (right,), *b.right),
    {
        Expr::Binary(Box::new(BinaryExpr { left: Box::new(left.into()), operator, right: Box::new(right.into()) }))
    }

    pub fn subquery<Q: Into<QueryAst>>(query: Q) -> (e: Expr)
        ensures
            e matches Expr::Subquery(q) && call_ensures(Q::into, (query,), *q),
    {
        Expr::Subquery(Box::new(query.into()))
    }

    pub fn window<F: Into<Expr>>(function: F, window: WindowSpec) -> (e: Expr)
        ensures
            e matches Expr::Window(w) && w.window == window && call_ensures(F::into, (function,), *w.function),
    {
        Expr::Window(Box::new(WindowExpr { function: Box::new(function.into()), window }))
    }

    /// Raw SQL, written as is.
    pub fn raw(sql: &str) -> (e: Expr)
        ensures
            e matches Expr::Raw(s) && s@ == sql@,
    {
        Expr::Raw(owned(sql))
    }
}

impl From<ColumnRef> for Expr {
    fn from(value: ColumnRef) -> (r: Expr) {
        Expr::Column(value)
    }
}

impl vstd::std_specs::convert::FromSpecImpl<ColumnRef> for Expr {
    open spec fn obeys_from_spec() -> bool {
        true
    }

    open spec fn from_spec(v: ColumnRef) -> Expr {
        Expr::Column(v)
    }
}

impl From<&str> for Expr {
    /// The column of that name.
    fn from(value: &str) -> (r: Expr)
        ensures
            r matches Expr::Column(c) && c.table is None && c.name@ == value@ && c.alias is None
                && c.db_type is None,
    {
        Expr::Column(ColumnRef::bare(value))
    }
}

impl vstd::std_specs::convert::FromSpecImpl<&str> for Expr {
    open spec fn obeys_from_spec() -> bool {
        false
    }

    open spec fn from_spec(v: &str) -> Expr {
        arbitrary()
    }
}

impl From<DbValue> for Expr {
    fn from(value: DbValue) -> (r: Expr) {
        Expr::Value(value)
    }
}

impl vstd::std_specs::convert::FromSpecImpl<DbValue> for Expr {
    open spec fn obeys_from_spec() -> bool {
        true
    }

    open spec fn from_spec(v: DbValue) -> Expr {
        Expr::Value(v)
    }
}

impl From<AggregateExpr> for Expr {
    fn from(value: AggregateExpr) -> (r: Expr) {
        Expr::Aggregate(value)
    }
}

impl vstd::std_specs::convert::FromSpecImpl<AggregateExpr> for Expr {
    open spec fn obeys_from_spec() -> bool {
        true
    }

    open spec fn from_spec(v: AggregateExpr) -> Expr {
        Expr::Aggregate(v)
    }
}

impl From<FunctionCall> for Expr {
    fn from(value: FunctionCall) -> (r: Expr) {
        Expr::Function(Box::new(value))
    }
}

impl vstd::std_specs::convert::FromSpecImpl<FunctionCall> for Expr {
    open spec fn obeys_from_spec() -> bool {
        true
    }

    open spec fn from_spec(v: FunctionCall) -> Expr {
        Expr::Function(Box::new(v))
    }
}

impl From<UnaryExpr> for Expr {
    fn from(value: UnaryExpr) -> (r: Expr) {
        Expr::Unary(Box::new(value))
    }
}

impl vstd::std_specs::convert::FromSpecImpl<UnaryExpr> for Expr {
    open spec fn obeys_from_spec() -> bool {
        true
    }

    open spec fn from_spec(v: UnaryExpr) -> Expr {
        Expr::Unary(Box::new(v))
    }
}

impl From<BinaryExpr> for Expr {
    fn from(value: BinaryExpr) -> (r: Expr) {
        Expr::Binary(Box::new(value))
    }
}

impl vstd::std_specs::convert::FromSpecImpl<BinaryExpr> for Expr {
    open spec fn obeys_from_spec() -> bool {
        true
    }

    open spec fn from_spec(v: BinaryExpr) -> Expr {
        Expr::Binary(Box::new(v))
    }
}

impl From<WindowExpr> for Expr {
    fn from(value: WindowExpr) -> (r: Expr) {
        Expr::Window(Box::new(value))
    }
}

impl vstd::std_specs::convert::FromSpecImpl<WindowExpr> for Expr {
    open spec fn obeys_from_spec() -> bool {
        true
    }

    open spec fn from_spec(v: WindowExpr) -> Expr {
        Expr::Window(Box::new(v))
    }
}

impl From<CaseExpr> for Expr {
    fn from(value: CaseExpr) -> (r: Expr) {
        Expr::Case(Box::new(value))
    }
}

impl vstd::std_specs::convert::FromSpecImpl<CaseExpr> for Expr {
    open spec fn obeys_from_spec() -> bool {
        true
    }

    open spec fn from_spec(v: CaseExpr) -> Expr {
        Expr::Case(Box::new(v))
    }
}

impl From<JsonPathExpr> for Expr {
    fn from(value: JsonPathExpr) -> (r: Expr) {
        Expr::JsonPath(Box::new(value))
    }
}

impl vstd::std_specs::convert::FromSpecImpl<JsonPathExpr> for Expr {
    open spec fn obeys_from_spec() -> bool {
        true
    }

    open spec fn from_spec(v: JsonPathExpr) -> Expr {
        Expr::JsonPath(Box::new(v))
    }
}

// ---------------------------------------------------------------------------
// Conditions
// ---------------------------------------------------------------------------

impl Condition {
    pub fn compare(left: Expr, op: ComparisonOp, right: Expr) -> (c: Condition)
        ensures
            c == (Condition::Comparison { left, op, right }),
    {
        Condition::Comparison { left, op, right }
    }

    pub fn json(expr: Expr, op: JsonPredicateOp, value: JsonPredicateValue) -> (c: Condition)
        ensures
            c == (Condition::JsonPredicate { expr, op, value }),
    {
        Condition::JsonPredicate { expr, op, value }
    }

    /// A full-text match of `query` over the columns.
    pub fn full_text(columns: Vec<ColumnRef>, query: &str) -> (c: Condition)
        ensures
            c matches Condition::FullText { columns: cs, query: q } && cs@ == columns@ && q@ == query@,
    {
        Condition::FullText { columns, query: owned(query) }
    }

    /// All of the conditions (`TRUE` when there are none).
    pub fn and(conditions: Vec<Condition>) -> (c: Condition)
        ensures
            c == Condition::And(conditions),
    {
        Condition::And(conditions)
    }

    /// Any of the conditions (`FALSE` when there are none).
    pub fn or(conditions: Vec<Condition>) -> (c: Condition)
        ensures
            c == Condition::Or(conditions),
    {
        Condition::Or(conditions)
    }

    pub fn negate(condition: Condition) -> (c: Condition)
        ensures
            c == Condition::Not(Box::new(condition)),
    {
        Condition::Not(Box::new(condition))
    }

    pub fn exists_query<Q: Into<QueryAst>>(query: Q) -> (c: Condition)
        ensures
            c matches Condition::Exists(q) && call_ensures(Q::into, (query,), *q),
    {
        Condition::Exists(Box::new(query.into()))
    }

    pub fn is_null<C: Into<ColumnRef>>(column: C) -> (c: Condition)
        ensures
            c matches Condition::IsNull(Expr::Column(col)) && call_ensures(C::into, (column,), col),
    {
        Condition::IsNull(Expr::Column(column.into()))
    }

    pub fn is_not_null<C: Into<ColumnRef>>(column: C) -> (c: Condition)
        ensures
            c matches Condition::IsNotNull(Expr::Column(col)) && call_ensures(C::into, (column,), col),
    {
        Condition::IsNotNull(Expr::Column(column.into()))
    }

    pub fn expr_is_null<E: Into<Expr>>(expr: E) -> (c: Condition)
        ensures
            c matches Condition::IsNull(e) && call_ensures(E::into, (expr,), e),
    {
        Condition::IsNull(expr.into())
    }

    pub fn expr_is_not_null<E: Into<Expr>>(expr: E) -> (c: Condition)
        ensures
            c matches Condition::IsNotNull(e) && call_ensures(E::into, (expr,), e),
    {
        Condition::IsNotNull(expr.into())
    }

    /// A condition that is always false: `false = true`.
    pub fn false_() -> (c: Condition)
        ensures
            c == (Condition::Comparison {
                left: Expr::Value(DbValue::Bool(false)),
                op: ComparisonOp::Eq,
                right: Expr::Value(DbValue::Bool(true)),
            }),
    {
        Condition::compare(Expr::false_(), ComparisonOp::Eq, Expr::true_())
    }

    /// A condition that is always true: `true = true`.
    pub fn true_() -> (c: Condition)
        ensures
            c == (Condition::Comparison {
                left: Expr::Value(DbValue::Bool(true)),
                op: ComparisonOp::Eq,
                right: Expr::Value(DbValue::Bool(true)),
            }),
    {
        Condition::compare(Expr::true_(), ComparisonOp::Eq, Expr::true_())
    }

    /// Raw SQL with `?` placeholders and their values.
    pub fn raw(sql: &str, bindings: Vec<DbValue>) -> (c: Condition)
        ensures
            c matches Condition::Raw { sql: s, bindings: b } && s@ == sql@ && b@ == bindings@,
    {
        Condition::Raw { sql: owned(sql), bindings }
    }
}

// ---------------------------------------------------------------------------
// Ordering, projections and statements
// ---------------------------------------------------------------------------

impl OrderBy {
    pub fn asc<E: Into<Expr>>(expr: E) -> (o: OrderBy)
        ensures
            o.direction == OrderDirection::Asc,
            call_ensures(E::into, (expr,), o.expr),
    {
        OrderBy { expr: expr.into(), direction: OrderDirection::Asc }
    }

    pub fn desc<E: Into<Expr>>(expr: E) -> (o: OrderBy)
        ensures
            o.direction == OrderDirection::Desc,
            call_ensures(E::into, (expr,), o.expr),
    {
        OrderBy { expr: expr.into(), direction: OrderDirection::Desc }
    }
}

impl SelectItem {
    pub fn new<E: Into<Expr>>(expr: E) -> (s: SelectItem)
        ensures
            s.alias is None,
            call_ensures(E::into, (expr,), s.expr),
    {
        SelectItem { expr: expr.into(), alias: None }
    }

    pub fn aliased(self, alias: &str) -> (s: SelectItem)
        ensures
            s.expr == self.expr,
            s.alias matches Some(a) && a@ == alias@,
    {
        SelectItem { expr: self.expr, alias: Some(owned(alias)) }
    }
}

impl SelectNode {
    /// A `SELECT *` from a source, with nothing else set.
    pub fn from<F: Into<FromItem>>(source: F) -> (s: SelectNode)
        ensures
            call_ensures(F::into, (source,), s.from),
            !s.distinct,
            s.columns@.len() == 0,
            s.joins@.len() == 0,
            s.condition is None,
            s.group_by@.len() == 0,
            s.having is None,
            s.order_by@.len() == 0,
            s.limit is None,
            s.offset is None,
            s.lock is None,
            s.relations@.len() == 0,
            s.aggregates@.len() == 0,
    {
        SelectNode {
            from: source.into(),
            distinct: false,
            columns: Vec::new(),
            joins: Vec::new(),
            condition: None,
            group_by: Vec::new(),
            having: None,
            order_by: Vec::new(),
            limit: None,
            offset: None,
            lock: None,
            relations: Vec::new(),
            aggregates: Vec::new(),
        }
    }

    /// The same select with one more projected expression.
    pub fn select<E: Into<Expr>>(self, expr: E) -> (s: SelectNode)
        ensures
            s.columns@.len() == self.columns@.len() + 1,
            s.columns@.subrange(0, self.columns@.len() as int) == self.columns@,
            s.columns@.last().alias is None,
            call_ensures(E::into, (expr,), s.columns@.last().expr),
            s == (SelectNode { columns: s.columns, ..self }),
    {
        let mut s = self;
        let item = SelectItem::new(expr);
        s.columns.push(item);
        proof {
            assert(s.columns@.subrange(0, self.columns@.len() as int) =~= self.columns@);
        }
        s
    }

    /// The same select with one more projected expression under an alias.
    pub fn select_as<E: Into<Expr>>(self, expr: E, alias: &str) -> (s: SelectNode)
        ensures
            s.columns@.len() == self.columns@.len() + 1,
            s.columns@.subrange(0, self.columns@.len() as int) == self.columns@,
            s.columns@.last().alias matches Some(a) && a@ == alias@,
            call_ensures(E::into, (expr,), s.columns@.last().expr),
            s == (SelectNode { columns: s.columns, ..self }),
    {
        let mut s = self;
        let item = SelectItem::new(expr).aliased(alias);
        s.columns.push(item);
        proof {
            assert(s.columns@.subrange(0, self.columns@.len() as int) =~= self.columns@);
        }
        s
    }

    /// The same select with one more filter; filters are joined with AND.
    pub fn where_(self, condition: Condition) -> (s: SelectNode)
        ensures
            self.condition is None ==> s.condition == Some(condition),
            self.condition is Some ==> (s.condition matches Some(Condition::And(v))
                && v@ == seq![self.condition->0, condition]),
            s == (SelectNode { condition: s.condition, ..self }),
    {
        let mut s = self;
        let combined = match s.condition {
            Some(existing) => Condition::And(vec![existing, condition]),
            None => condition,
        };
        s.condition = Some(combined);
        s
    }

    /// The same select with a row limit.
    pub fn limit(self, limit: u64) -> (s: SelectNode)
        ensures
            s == (SelectNode { limit: Some(limit), ..self }),
    {
        let mut s = self;
        s.limit = Some(limit);
        s
    }

    /// The same select with one more ordering.
    pub fn order_by(self, order: OrderBy) -> (s: SelectNode)
        ensures
            s.order_by@ == self.order_by@.push(order),
            s == (SelectNode { order_by: s.order_by, ..self }),
    {
        let mut s = self;
        s.order_by.push(order);
        s
    }
}

impl QueryAst {
    pub fn select(select: SelectNode) -> (q: QueryAst)
        ensures
            q.with@.len() == 0,
            q.body == QueryBody::Select(Box::new(select)),
    {
        QueryAst { with: Vec::new(), body: QueryBody::Select(Box::new(select)) }
    }

    pub fn insert(insert: InsertNode) -> (q: QueryAst)
        ensures
            q.with@.len() == 0,
            q.body == QueryBody::Insert(Box::new(insert)),
    {
        QueryAst { with: Vec::new(), body: QueryBody::Insert(Box::new(insert)) }
    }

    pub fn update(update: UpdateNode) -> (q: QueryAst)
        ensures
            q.with@.len() == 0,
            q.body == QueryBody::Update(Box::new(update)),
    {
        QueryAst { with: Vec::new(), body: QueryBody::Update(Box::new(update)) }
    }

    pub fn delete(delete: DeleteNode) -> (q: QueryAst)
        ensures
            q.with@.len() == 0,
            q.body == QueryBody::Delete(Box::new(delete)),
    {
        QueryAst { with: Vec::new(), body: QueryBody::Delete(Box::new(delete)) }
    }

    pub fn set_operation(set: SetOperationNode) -> (q: QueryAst)
        ensures
            q.with@.len() == 0,
            q.body == QueryBody::SetOperation(Box::new(set)),
    {
        QueryAst { with: Vec::new(), body: QueryBody::SetOperation(Box::new(set)) }
    }
}

impl From<SelectNode> for QueryAst {
    /// `QueryAst::select`.
    fn from(value: SelectNode) -> (q: QueryAst)
        ensures
            q.with@.len() == 0,
            q.body == QueryBody::Select(Box::new(value)),
    {
        QueryAst::select(value)
    }
}

impl vstd::std_specs::convert::FromSpecImpl<SelectNode> for QueryAst {
    open spec fn obeys_from_spec() -> bool {
        false
    }

    open spec fn from_spec(v: SelectNode) -> QueryAst {
        arbitrary()
    }
}

impl From<InsertNode> for QueryAst {
    /// `QueryAst::insert`.
    fn from(value: InsertNode) -> (q: QueryAst)
        ensures
            q.with@.len() == 0,
            q.body == QueryBody::Insert(Box::new(value)),
    {
        QueryAst::insert(value)
    }
}

impl vstd::std_specs::convert::FromSpecImpl<InsertNode> for QueryAst {
    open spec fn obeys_from_spec() -> bool {
        false
    }

    open spec fn from_spec(v: InsertNode) -> QueryAst {
        arbitrary()
    }
}

impl From<UpdateNode> for QueryAst {
    /// `QueryAst::update`.
    fn from(value: UpdateNode) -> (q: QueryAst)
        ensures
            q.with@.len() == 0,
            q.body == QueryBody::Update(Box::new(value)),
    {
        QueryAst::update(value)
    }
}

impl vstd::std_specs::convert::FromSpecImpl<UpdateNode> for QueryAst {
    open spec fn obeys_from_spec() -> bool {
        false
    }

    open spec fn from_spec(v: UpdateNode) -> QueryAst {
        arbitrary()
    }
}

impl From<DeleteNode> for QueryAst {
    /// `QueryAst::delete`.
    fn from(value: DeleteNode) -> (q: QueryAst)
        ensures
            q.with@.len() == 0,
            q.body == QueryBody::Delete(Box::new(value)),
    {
        QueryAst::delete(value)
    }
}

impl vstd::std_specs::convert::FromSpecImpl<DeleteNode> for QueryAst {
    open spec fn obeys_from_spec() -> bool {
        false
    }

    open spec fn from_spec(v: DeleteNode) -> QueryAst {
        arbitrary()
    }
}


// ---------------------------------------------------------------------------
// Expression helpers
// ---------------------------------------------------------------------------

/// SQL function and operator helpers.
pub struct Sql;

/// Entry point of `CASE` expressions.
pub struct Case;

/// Entry point of window specifications.
pub struct Window;

/// A `CASE` expression under construction.
#[derive(Debug)]
pub struct CaseBuilder {
    pub expr: CaseExpr,
}

/// A window specification under construction.
#[derive(Debug)]
pub struct WindowBuilder {
    pub spec: WindowSpec,
}

/// A JSON path under construction.
#[derive(Debug)]
pub struct JsonExprBuilder {
    pub expr: Expr,
    pub path: Vec<JsonPathSegment>,
}

pub open spec fn is_call(e: Expr, name: Seq<char>, args: Seq<Expr>) -> bool {
    e matches Expr::Function(f) && f.name@ == name && f.args@ == args
}

impl Sql {
    /// `COUNT(*)`.
    pub fn count_all() -> (e: Expr)
        ensures
            e matches Expr::Aggregate(a) && a.function == AggregateFn::Count && a.expr is None && !a.distinct,
    {
        Expr::Aggregate(AggregateExpr::count_all())
    }

    pub fn count<E: Into<Expr>>(expr: E) -> (e: Expr)
        ensures
            e matches Expr::Aggregate(a) && a.function == AggregateFn::Count && !a.distinct
                && (a.expr matches Some(x) && call_ensures(E::into, (expr,), *x)),
    {
        Expr::Aggregate(AggregateExpr::count(expr.into()))
    }

    pub fn count_distinct<E: Into<Expr>>(expr: E) -> (e: Expr)
        ensures
            e matches Expr::Aggregate(a) && a.function == AggregateFn::Count && a.distinct
                && (a.expr matches Some(x) && call_ensures(E::into, (expr,), *x)),
    {
        Expr::Aggregate(AggregateExpr::count_distinct(expr.into()))
    }

    /// `COUNT(CASE WHEN condition THEN 1 END)`.
    pub fn count_when(condition: Condition) -> (e: Expr)
        ensures
            e matches Expr::Aggregate(a) && a.function == AggregateFn::Count && !a.distinct
                && (a.expr matches Some(x) && *x matches Expr::Case(c) && c.whens@.len() == 1
                && c.whens@[0].condition == condition && *c.whens@[0].result == Expr::Value(DbValue::Int64(1))
                && c.else_expr is None),
    {
        let case = Expr::Case(Box::new(CaseExpr {
            whens: vec![CaseWhen { condition, result: Box::new(Expr::Value(DbValue::Int64(1))) }],
            else_expr: None,
        }));
        Expr::Aggregate(AggregateExpr::count(case))
    }

    pub fn sum<E: Into<Expr>>(expr: E) -> (e: Expr)
        ensures
            e matches Expr::Aggregate(a) && a.function == AggregateFn::Sum && !a.distinct
                && (a.expr matches Some(x) && call_ensures(E::into, (expr,), *x)),
    {
        Expr::Aggregate(AggregateExpr::sum(expr.into()))
    }

    pub fn avg<E: Into<Expr>>(expr: E) -> (e: Expr)
        ensures
            e matches Expr::Aggregate(a) && a.function == AggregateFn::Avg && !a.distinct
                && (a.expr matches Some(x) && call_ensures(E::into, (expr,), *x)),
    {
        Expr::Aggregate(AggregateExpr::avg(expr.into()))
    }

    pub fn min<E: Into<Expr>>(expr: E) -> (e: Expr)
        ensures
            e matches Expr::Aggregate(a) && a.function == AggregateFn::Min && !a.distinct
                && (a.expr matches Some(x) && call_ensures(E::into, (expr,), *x)),
    {
        Expr::Aggregate(AggregateExpr::min(expr.into()))
    }

    pub fn max<E: Into<Expr>>(expr: E) -> (e: Expr)
        ensures
            e matches Expr::Aggregate(a) && a.function == AggregateFn::Max && !a.distinct
                && (a.expr matches Some(x) && call_ensures(E::into, (expr,), *x)),
    {
        Expr::Aggregate(AggregateExpr::max(expr.into()))
    }

    pub fn function(name: &str, args: Vec<Expr>) -> (e: Expr)
        ensures
            is_call(e, name@, args@),
    {
        Expr::function(name, args)
    }

    pub fn coalesce(args: Vec<Expr>) -> (e: Expr)
        ensures
            is_call(e, "COALESCE"@, args@),
    {
        Expr::function("COALESCE", args)
    }

    /// `CONCAT_WS(separator, args...)`, the separator bound as text.
    pub fn concat_ws(separator: &str, args: Vec<Expr>) -> (e: Expr)
        ensures
            e matches Expr::Function(f) && f.name@ == "CONCAT_WS"@ && f.args@.len() == args@.len() + 1
                && f.args@.subrange(1, f.args@.len() as int) == args@
                && (f.args@[0] matches Expr::Value(DbValue::Text(t)) && t@ == separator@),
    {
        let mut all = args;
        all.insert(0, Expr::text(separator));
        proof {
            assert(all@.subrange(1, all@.len() as int) =~= args@);
        }
        Expr::function("CONCAT_WS", all)
    }

    pub fn lower<E: Into<Expr>>(expr: E) -> (e: Expr)
        ensures
            e matches Expr::Function(f) && f.name@ == "LOWER"@ && f.args@.len() == 1
                && call_ensures(E::into, (expr,), f.args@[0]),
    {
        Expr::function("LOWER", vec![expr.into()])
    }

    pub fn upper<E: Into<Expr>>(expr: E) -> (e: Expr)
        ensures
            e matches Expr::Function(f) && f.name@ == "UPPER"@ && f.args@.len() == 1
                && call_ensures(E::into, (expr,), f.args@[0]),
    {
        Expr::function("UPPER", vec![expr.into()])
    }

    /// `DATE_TRUNC(granularity, expr)`, the granularity bound as text.
    pub fn date_trunc<E: Into<Expr>>(granularity: &str, expr: E) -> (e: Expr)
        ensures
            e matches Expr::Function(f) && f.name@ == "DATE_TRUNC"@ && f.args@.len() == 2
                && (f.args@[0] matches Expr::Value(DbValue::Text(t)) && t@ == granularity@)
                && call_ensures(E::into, (expr,), f.args@[1]),
    {
        Expr::function("DATE_TRUNC", vec![Expr::text(granularity), expr.into()])
    }

    /// `EXTRACT(field FROM expr)`; the compiler checks the field.
    pub fn extract<E: Into<Expr>>(field: &str, expr: E) -> (e: Expr)
        ensures
            e matches Expr::Function(f) && f.name@ == "EXTRACT"@ && f.args@.len() == 2
                && (f.args@[0] matches Expr::Value(DbValue::Text(t)) && t@ == field@)
                && call_ensures(E::into, (expr,), f.args@[1]),
    {
        Expr::function("EXTRACT", vec![Expr::text(field), expr.into()])
    }

    /// The text under a preferred key of a JSON object, or its first value.
    pub fn json_text_or_first<E: Into<Expr>>(expr: E, preferred_key: &str) -> (e: Expr)
        ensures
            e matches Expr::Function(f) && f.name@ == "JSONB_TEXT_OR_FIRST"@ && f.args@.len() == 2
                && call_ensures(E::into, (expr,), f.args@[0])
                && (f.args@[1] matches Expr::Value(DbValue::Text(t)) && t@ == preferred_key@),
    {
        Expr::function("JSONB_TEXT_OR_FIRST", vec![expr.into(), Expr::text(preferred_key)])
    }

    /// `TO_TIMESTAMP(millis::double precision / 1000.0)`.
    pub fn to_timestamp_millis<E: Into<Expr>>(millis: E) -> (e: Expr)
        ensures
            e matches Expr::Function(f) && f.name@ == "TO_TIMESTAMP"@ && f.args@.len() == 1
                && (f.args@[0] matches Expr::Binary(b) && b.operator == BinaryOperator::Divide
                && (*b.left matches Expr::Cast { expr: x, db_type: t } && t == DbType::Float64
                    && call_ensures(E::into, (millis,), *x))
                && *b.right == Expr::Value(DbValue::Float64(0x408f_4000_0000_0000u64))),
    {
        let quotient = Expr::Binary(Box::new(BinaryExpr {
            left: Box::new(Expr::cast(millis, DbType::Float64)),
            operator: BinaryOperator::Divide,
            right: Box::new(Expr::Value(DbValue::Float64(0x408f_4000_0000_0000u64))),
        }));
        Expr::function("TO_TIMESTAMP", vec![quotient])
    }

    pub fn now() -> (e: Expr)
        ensures
            is_call(e, "NOW"@, Seq::empty()),
    {
        let r = Expr::function("NOW", Vec::new());
        proof {
            assert(r->Function_0.args@ =~= Seq::<Expr>::empty());
        }
        r
    }

    pub fn uuid_v7() -> (e: Expr)
        ensures
            is_call(e, "uuidv7"@, Seq::empty()),
    {
        let r = Expr::function("uuidv7", Vec::new());
        proof {
            assert(r->Function_0.args@ =~= Seq::<Expr>::empty());
        }
        r
    }

    pub fn not<E: Into<Expr>>(expr: E) -> (e: Expr)
        ensures
            e matches Expr::Unary(u) && u.operator == UnaryOperator::Not && call_ensures(E::into, (expr,), *u.expr),
    {
        Expr::unary(UnaryOperator::Not, expr)
    }

    pub fn negate<E: Into<Expr>>(expr: E) -> (e: Expr)
        ensures
            e matches Expr::Unary(u) && u.operator == UnaryOperator::Negate && call_ensures(E::into, (expr,), *u.expr),
    {
        Expr::unary(UnaryOperator::Negate, expr)
    }

    pub fn add<L: Into<Expr>, R: Into<Expr>>(left: L, right: R) -> (e: Expr)
        ensures
            e matches Expr::Binary(b) && b.operator == BinaryOperator::Add && call_ensures(L::into, (left,), *b.left)
                && call_ensures(R::into, (right,), *b.right),
    {
        Expr::binary(left, BinaryOperator::Add, right)
    }

    pub fn subtract<L: Into<Expr>, R: Into<Expr>>(left: L, right: R) -> (e: Expr)
        ensures
            e matches Expr::Binary(b) && b.operator == BinaryOperator::Subtract && call_ensures(L::into, (left,), *b.left)
                && call_ensures(R::into, (right,), *b.right),
    {
        Expr::binary(left, BinaryOperator::Subtract, right)
    }

    pub fn multiply<L: Into<Expr>, R: Into<Expr>>(left: L, right: R) -> (e: Expr)
        ensures
            e matches Expr::Binary(b) && b.operator == BinaryOperator::Multiply && call_ensures(L::into, (left,), *b.left)
                && call_ensures(R::into, (right,), *b.right),
    {
        Expr::binary(left, BinaryOperator::Multiply, right)
    }

    pub fn divide<L: Into<Expr>, R: Into<Expr>>(left: L, right: R) -> (e: Expr)
        ensures
            e matches Expr::Binary(b) && b.operator == BinaryOperator::Divide && call_ensures(L::into, (left,), *b.left)
                && call_ensures(R::into, (right,), *b.right),
    {
        Expr::binary(left, BinaryOperator::Divide, right)
    }

    pub fn concat<L: Into<Expr>, R: Into<Expr>>(left: L, right: R) -> (e: Expr)
        ensures
            e matches Expr::Binary(b) && b.operator == BinaryOperator::Concat && call_ensures(L::into, (left,), *b.left)
                && call_ensures(R::into, (right,), *b.right),
    {
        Expr::binary(left, BinaryOperator::Concat, right)
    }

    /// A binary expression with a custom operator; the compiler checks it.
    pub fn op<L: Into<Expr>, R: Into<Expr>>(left: L, operator: &str, right: R) -> (e: Expr)
        ensures
            e matches Expr::Binary(b) && (b.operator matches BinaryOperator::Custom(o) && o@ == operator@)
                && call_ensures(L::into, (left,), *b.left) && call_ensures(R::into, (right,), *b.right),
    {
        Expr::binary(left, BinaryOperator::Custom(owned(operator)), right)
    }
}

impl Case {
    /// A `CASE` with its first branch.
    pub fn when<E: Into<Expr>>(condition: Condition, result: E) -> (b: CaseBuilder)
        ensures
            b.expr.whens@.len() == 1,
            b.expr.whens@[0].condition == condition,
            call_ensures(E::into, (result,), *b.expr.whens@[0].result),
            b.expr.else_expr is None,
    {
        CaseBuilder { expr: CaseExpr { whens: Vec::new(), else_expr: None } }.when(condition, result)
    }
}

impl CaseBuilder {
    /// One more branch.
    pub fn when<E: Into<Expr>>(self, condition: Condition, result: E) -> (b: CaseBuilder)
        ensures
            b.expr.whens@.len() == self.expr.whens@.len() + 1,
            b.expr.whens@.subrange(0, self.expr.whens@.len() as int) == self.expr.whens@,
            b.expr.whens@.last().condition == condition,
            call_ensures(E::into, (result,), *b.expr.whens@.last().result),
            b.expr.else_expr == self.expr.else_expr,
    {
        let mut expr = self.expr;
        expr.whens.push(CaseWhen { condition, result: Box::new(result.into()) });
        proof {
            assert(expr.whens@.subrange(0, self.expr.whens@.len() as int) =~= self.expr.whens@);
        }
        CaseBuilder { expr }
    }

    /// The expression with an `ELSE` branch.
    pub fn else_<E: Into<Expr>>(self, result: E) -> (e: Expr)
        ensures
            e matches Expr::Case(c) && c.whens@ == self.expr.whens@
                && (c.else_expr matches Some(x) && call_ensures(E::into, (result,), *x)),
    {
        let mut expr = self.expr;
        expr.else_expr = Some(Box::new(result.into()));
        Expr::Case(Box::new(expr))
    }

    /// The expression without an `ELSE` branch.
    pub fn end(self) -> (e: Expr)
        ensures
            e == Expr::Case(Box::new(self.expr)),
    {
        Expr::Case(Box::new(self.expr))
    }
}

impl Window {
    pub fn partition_by<E: Into<Expr>>(expr: E) -> (b: WindowBuilder)
        ensures
            b.spec.partition_by@.len() == 1,
            call_ensures(E::into, (expr,), b.spec.partition_by@[0]),
            b.spec.order_by@.len() == 0,
            b.spec.frame is None,
    {
        WindowBuilder { spec: WindowSpec { partition_by: Vec::new(), order_by: Vec::new(), frame: None } }.partition_by(expr)
    }

    pub fn order_by(order: OrderBy) -> (b: WindowBuilder)
        ensures
            b.spec.partition_by@.len() == 0,
            b.spec.order_by@ == seq![order],
            b.spec.frame is None,
    {
        WindowBuilder { spec: WindowSpec { partition_by: Vec::new(), order_by: Vec::new(), frame: None } }.order_by(order)
    }

    /// A window function over a finished specification.
    pub fn over<F: Into<Expr>>(function: F, builder: WindowBuilder) -> (e: Expr)
        ensures
            e matches Expr::Window(w) && w.window == builder.spec && call_ensures(F::into, (function,), *w.function),
    {
        Expr::window(function, builder.finish())
    }
}

impl WindowBuilder {
    pub fn partition_by<E: Into<Expr>>(self, expr: E) -> (b: WindowBuilder)
        ensures
            b.spec.partition_by@.len() == self.spec.partition_by@.len() + 1,
            b.spec.partition_by@.subrange(0, self.spec.partition_by@.len() as int) == self.spec.partition_by@,
            call_ensures(E::into, (expr,), b.spec.partition_by@.last()),
            b.spec.order_by@ == self.spec.order_by@,
            b.spec.frame == self.spec.frame,
    {
        let mut spec = self.spec;
        spec.partition_by.push(expr.into());
        proof {
            assert(spec.partition_by@.subrange(0, self.spec.partition_by@.len() as int) =~= self.spec.partition_by@);
        }
        WindowBuilder { spec }
    }

    pub fn order_by(self, order: OrderBy) -> (b: WindowBuilder)
        ensures
            b.spec.partition_by@ == self.spec.partition_by@,
            b.spec.order_by@ == self.spec.order_by@.push(order),
            b.spec.frame == self.spec.frame,
    {
        let mut spec = self.spec;
        spec.order_by.push(order);
        WindowBuilder { spec }
    }

    pub fn rows_between(self, start: WindowFrameBound, end: WindowFrameBound) -> (b: WindowBuilder)
        ensures
            b.spec.partition_by@ == self.spec.partition_by@,
            b.spec.order_by@ == self.spec.order_by@,
            b.spec.frame == Some(WindowFrame { units: WindowFrameUnits::Rows, start, end: Some(end) }),
    {
        let mut spec = self.spec;
        spec.frame = Some(WindowFrame { units: WindowFrameUnits::Rows, start, end: Some(end) });
        WindowBuilder { spec }
    }

    pub fn range_between(self, start: WindowFrameBound, end: WindowFrameBound) -> (b: WindowBuilder)
        ensures
            b.spec.partition_by@ == self.spec.partition_by@,
            b.spec.order_by@ == self.spec.order_by@,
            b.spec.frame == Some(WindowFrame { units: WindowFrameUnits::Range, start, end: Some(end) }),
    {
        let mut spec = self.spec;
        spec.frame = Some(WindowFrame { units: WindowFrameUnits::Range, start, end: Some(end) });
        WindowBuilder { spec }
    }

    pub fn finish(self) -> (s: WindowSpec)
        ensures
            s == self.spec,
    {
        self.spec
    }
}

impl JsonExprBuilder {
    /// A path over an expression, with no segment yet.
    pub fn new<E: Into<Expr>>(expr: E) -> (b: JsonExprBuilder)
        ensures
            call_ensures(E::into, (expr,), b.expr),
            b.path@.len() == 0,
    {
        JsonExprBuilder { expr: expr.into(), path: Vec::new() }
    }

    /// One more object key.
    pub fn key(self, key: &str) -> (b: JsonExprBuilder)
        ensures
            b.expr == self.expr,
            b.path@.len() == self.path@.len() + 1,
            b.path@.subrange(0, self.path@.len() as int) == self.path@,
            b.path@.last() matches JsonPathSegment::Key(k) && k@ == key@,
    {
        let mut path = self.path;
        path.push(JsonPathSegment::Key(owned(key)));
        proof {
            assert(path@.subrange(0, self.path@.len() as int) =~= self.path@);
        }
        JsonExprBuilder { expr: self.expr, path }
    }

    /// One more array index.
    pub fn index(self, index: i64) -> (b: JsonExprBuilder)
        ensures
            b.expr == self.expr,
            b.path@ == self.path@.push(JsonPathSegment::Index(index)),
    {
        let mut path = self.path;
        path.push(JsonPathSegment::Index(index));
        JsonExprBuilder { expr: self.expr, path }
    }

    /// The path's value as JSON.
    pub fn as_json(self) -> (e: Expr)
        ensures
            e == Expr::JsonPath(Box::new(JsonPathExpr { expr: Box::new(self.expr), path: self.path, mode: JsonPathMode::Json })),
    {
        Expr::JsonPath(Box::new(JsonPathExpr { expr: Box::new(self.expr), path: self.path, mode: JsonPathMode::Json }))
    }

    /// The path's value as text.
    pub fn as_text(self) -> (e: Expr)
        ensures
            e == Expr::JsonPath(Box::new(JsonPathExpr { expr: Box::new(self.expr), path: self.path, mode: JsonPathMode::Text })),
    {
        Expr::JsonPath(Box::new(JsonPathExpr { expr: Box::new(self.expr), path: self.path, mode: JsonPathMode::Text }))
    }

    /// Whether the JSON value has a key.
    pub fn has_key(self, key: &str) -> (c: Condition)
        ensures
            c matches Condition::JsonPredicate { expr: e, op, value: JsonPredicateValue::Key(k) }
                && op == JsonPredicateOp::HasKey && k@ == key@
                && e == Expr::JsonPath(Box::new(JsonPathExpr { expr: Box::new(self.expr), path: self.path, mode: JsonPathMode::Json })),
    {
        Condition::json(self.as_json(), JsonPredicateOp::HasKey, JsonPredicateValue::Key(owned(key)))
    }

    /// Whether the JSON value has any of the keys.
    pub fn has_any_keys(self, keys: Vec<String>) -> (c: Condition)
        ensures
            c == (Condition::JsonPredicate {
                expr: Expr::JsonPath(Box::new(JsonPathExpr { expr: Box::new(self.expr), path: self.path, mode: JsonPathMode::Json })),
                op: JsonPredicateOp::HasAnyKeys,
                value: JsonPredicateValue::Keys(keys),
            }),
    {
        Condition::json(self.as_json(), JsonPredicateOp::HasAnyKeys, JsonPredicateValue::Keys(keys))
    }

    /// Whether the JSON value has all of the keys.
    pub fn has_all_keys(self, keys: Vec<String>) -> (c: Condition)
        ensures
            c == (Condition::JsonPredicate {
                expr: Expr::JsonPath(Box::new(JsonPathExpr { expr: Box::new(self.expr), path: self.path, mode: JsonPathMode::Json })),
                op: JsonPredicateOp::HasAllKeys,
                value: JsonPredicateValue::Keys(keys),
            }),
    {
        Condition::json(self.as_json(), JsonPredicateOp::HasAllKeys, JsonPredicateValue::Keys(keys))
    }
}

impl Expr {
    /// A JSON path builder over this expression.
    pub fn json(self) -> (b: JsonExprBuilder)
        ensures
            b.expr == self,
            b.path@.len() == 0,
    {
        JsonExprBuilder { expr: self, path: Vec::new() }
    }
}

} // verus!
