//! The SQL text and the bindings that each query node denotes.
//!
//! Every function takes `n`, the number of values bound before the node,
//! so that placeholders are numbered `$n+1`, `$n+2`, ... in the order in
//! which the node binds them. A result is `Ok((sql, bindings))` or
//! `Err(message)`.
use vstd::prelude::*;

use crate::ast::{
    AggregateExpr, AggregateFn, AggregateNode, BinaryExpr, BinaryOperator, CaseExpr, CaseWhen,
    ColumnRef, ComparisonOp, Condition, CteMaterialization, CteNode, DbType, DbValue, DbValueView,
    DeleteNode, Expr, FromItem, FunctionCall, InsertNode, InsertSource, JoinKind, JoinNode,
    JsonPathMode, JsonPathSegment, JsonPredicateOp, JsonPredicateValue, LockBehavior, LockClause,
    LockStrength, OnConflictAction, OnConflictNode, OnConflictTarget, OrderBy, OrderDirection,
    QueryAst, QueryBody, SelectItem, SelectNode, SetOperationNode, SetOperator, TableRef,
    UnaryOperator, UpdateNode, WindowFrame, WindowFrameBound, WindowFrameUnits, WindowSpec,
    cast_name, value_type,
};
use crate::ast::count_char;
use crate::text::{dec, eq_ignore_case, idec};

verus! {

pub type Out = (Seq<char>, Seq<DbValueView>);

pub type Res = Result<Out, Seq<char>>;

pub open spec fn views(v: Seq<DbValue>) -> Seq<DbValueView> {
    v.map_values(|x: DbValue| x@)
}

pub open spec fn lit(s: Seq<char>) -> Res {
    Ok((s, Seq::empty()))
}

/// The placeholder for the `n + 1`-th binding, cast to the value's type.
pub open spec fn placeholder(n: nat, v: DbValueView) -> Seq<char> {
    "$"@ + dec(n + 1) + "::"@ + cast_name(value_type(v))
}

pub open spec fn bind(v: DbValueView, n: nat) -> Out {
    (placeholder(n, v), seq![v])
}

pub open spec fn text_value(s: String) -> DbValueView {
    DbValueView::Text(s@)
}

/// One character of a quoted identifier: dots separate quoted parts and
/// double quotes are doubled.
pub open spec fn quote_char(c: char) -> Seq<char> {
    if c == '.' {
        "\".\""@
    } else if c == '"' {
        "\"\""@
    } else {
        seq![c]
    }
}

pub open spec fn quote_body(s: Seq<char>) -> Seq<char>
    decreases s.len(),
{
    if s.len() == 0 {
        Seq::empty()
    } else {
        quote_char(s[0]) + quote_body(s.subrange(1, s.len() as int))
    }
}

/// Every dot-separated part of `s` in double quotes, joined by dots.
pub open spec fn quote_ident(s: Seq<char>) -> Seq<char> {
    "\""@ + quote_body(s) + "\""@
}

/// Quoted identifiers of a list, joined by ", ".
pub open spec fn quoted_names(names: Seq<String>, i: int) -> Seq<char>
    decreases names.len() - i,
{
    if i < 0 || i >= names.len() {
        Seq::empty()
    } else if i + 1 == names.len() {
        quote_ident(names[i]@)
    } else {
        quote_ident(names[i]@) + ", "@ + quoted_names(names, i + 1)
    }
}

/// Quoted names of a list of columns, joined by ", ".
pub open spec fn quoted_columns(cols: Seq<ColumnRef>, i: int) -> Seq<char>
    decreases cols.len() - i,
{
    if i < 0 || i >= cols.len() {
        Seq::empty()
    } else if i + 1 == cols.len() {
        quote_ident(cols[i].name@)
    } else {
        quote_ident(cols[i].name@) + ", "@ + quoted_columns(cols, i + 1)
    }
}

pub open spec fn column_name_sql(c: ColumnRef) -> Seq<char> {
    match c.table {
        Some(t) => quote_ident(t@) + "."@ + quote_ident(c.name@),
        None => quote_ident(c.name@),
    }
}

pub open spec fn column_sql(c: ColumnRef) -> Seq<char> {
    match c.alias {
        Some(a) => column_name_sql(c) + " AS "@ + quote_ident(a@),
        None => column_name_sql(c),
    }
}

pub open spec fn table_sql(t: TableRef) -> Seq<char> {
    match t.alias {
        Some(a) => quote_ident(t.name@) + " AS "@ + quote_ident(a@),
        None => quote_ident(t.name@),
    }
}

pub open spec fn comparison_sql(op: ComparisonOp) -> Seq<char> {
    match op {
        ComparisonOp::Eq => "="@,
        ComparisonOp::IEq => "="@,
        ComparisonOp::NotEq => "<>"@,
        ComparisonOp::Gt => ">"@,
        ComparisonOp::Gte => ">="@,
        ComparisonOp::Lt => "<"@,
        ComparisonOp::Lte => "<="@,
        ComparisonOp::Like => "LIKE"@,
        ComparisonOp::NotLike => "NOT LIKE"@,
        ComparisonOp::ILike => "ILIKE"@,
    }
}

pub open spec fn aggregate_fn_sql(f: AggregateFn) -> Seq<char> {
    match f {
        AggregateFn::Count => "COUNT"@,
        AggregateFn::Sum => "SUM"@,
        AggregateFn::Avg => "AVG"@,
        AggregateFn::Min => "MIN"@,
        AggregateFn::Max => "MAX"@,
    }
}

pub open spec fn frame_bound_sql(b: WindowFrameBound) -> Seq<char> {
    match b {
        WindowFrameBound::UnboundedPreceding => "UNBOUNDED PRECEDING"@,
        WindowFrameBound::Preceding(v) => dec(v as nat) + " PRECEDING"@,
        WindowFrameBound::CurrentRow => "CURRENT ROW"@,
        WindowFrameBound::Following(v) => dec(v as nat) + " FOLLOWING"@,
        WindowFrameBound::UnboundedFollowing => "UNBOUNDED FOLLOWING"@,
    }
}

pub open spec fn frame_units_sql(u: WindowFrameUnits) -> Seq<char> {
    match u {
        WindowFrameUnits::Rows => "ROWS"@,
        WindowFrameUnits::Range => "RANGE"@,
    }
}

pub open spec fn frame_sql(f: WindowFrame) -> Seq<char> {
    match f.end {
        Some(end) => frame_units_sql(f.units) + " BETWEEN "@ + frame_bound_sql(f.start) + " AND "@
            + frame_bound_sql(end),
        None => frame_units_sql(f.units) + " "@ + frame_bound_sql(f.start),
    }
}

pub open spec fn lock_sql(l: LockClause) -> Seq<char> {
    let strength = match l.strength {
        LockStrength::Update => "FOR UPDATE"@,
        LockStrength::NoKeyUpdate => "FOR NO KEY UPDATE"@,
        LockStrength::Share => "FOR SHARE"@,
        LockStrength::KeyShare => "FOR KEY SHARE"@,
    };
    let of = if l.of.len() == 0 { Seq::empty() } else { " OF "@ + quoted_names(l.of@, 0) };
    let behavior = match l.behavior {
        LockBehavior::Wait => Seq::empty(),
        LockBehavior::NoWait => " NOWAIT"@,
        LockBehavior::SkipLocked => " SKIP LOCKED"@,
    };
    strength + of + behavior
}

/// The fields accepted by `EXTRACT(<field> FROM ...)`.
pub open spec fn extract_fields() -> Seq<Seq<char>> {
    seq![
        "century"@, "day"@, "decade"@, "dow"@, "doy"@, "epoch"@, "hour"@, "isodow"@,
        "isoyear"@, "julian"@, "microseconds"@, "millennium"@, "milliseconds"@, "minute"@,
        "month"@, "quarter"@, "second"@, "timezone"@, "timezone_hour"@, "timezone_minute"@,
        "week"@, "year"@,
    ]
}

pub open spec fn is_extract_field(field: Seq<char>) -> bool {
    exists|i: int| 0 <= i < extract_fields().len() && eq_ignore_case(#[trigger] extract_fields()[i], field)
}

pub open spec fn extract_field_error(field: Seq<char>) -> Seq<char> {
    "EXTRACT field `"@ + field + "` is not a recognized date/time field"@
}

/// The characters a custom operator may use: ASCII letters and digits,
/// `_`, space and the operator symbols `+-*/<>=~!@#%^&|`?` and backquote.
pub open spec fn operator_char_ok(c: char) -> bool {
    ('0' <= c && c <= '9') || ('a' <= c && c <= 'z') || ('A' <= c && c <= 'Z') || c == '_'
        || c == ' ' || c == '+' || c == '-' || c == '*' || c == '/' || c == '<' || c == '>'
        || c == '=' || c == '~' || c == '!' || c == '@' || c == '#' || c == '%' || c == '^'
        || c == '&' || c == '|' || c == '`' || c == '?'
}

pub open spec fn contains_pair(s: Seq<char>, a: char, b: char) -> bool {
    exists|i: int| 0 <= i && i + 1 < s.len() && s[i] == a && #[trigger] s[i + 1] == b
}

/// Custom operators are written into the SQL text, so they must be
/// non-empty, use only operator characters and open no comment.
pub open spec fn custom_operator_ok(op: Seq<char>) -> bool {
    &&& op.len() > 0
    &&& forall|i: int| 0 <= i < op.len() ==> operator_char_ok(#[trigger] op[i])
    &&& !contains_pair(op, '-', '-')
    &&& !contains_pair(op, '/', '*')
}

pub open spec fn custom_operator_error(op: Seq<char>) -> Seq<char> {
    "custom SQL operator `"@ + op + "` contains unsupported characters"@
}

pub open spec fn binary_op_sql(op: BinaryOperator) -> Result<Seq<char>, Seq<char>> {
    match op {
        BinaryOperator::Add => Ok("+"@),
        BinaryOperator::Subtract => Ok("-"@),
        BinaryOperator::Multiply => Ok("*"@),
        BinaryOperator::Divide => Ok("/"@),
        BinaryOperator::Concat => Ok("||"@),
        BinaryOperator::Custom(s) => if custom_operator_ok(s@) {
            Ok(s@)
        } else {
            Err(custom_operator_error(s@))
        },
    }
}

/// The type an expression is known to produce, when it is known.
pub open spec fn expr_type(e: Expr) -> Option<DbType>
    decreases e,
{
    match e {
        Expr::Column(c) => c.db_type,
        Expr::Excluded(c) => c.db_type,
        Expr::Value(v) => Some(value_type(v@)),
        Expr::Cast { db_type, .. } => Some(db_type),
        Expr::Aggregate(a) => match a.function {
            AggregateFn::Count => Some(DbType::Int64),
            AggregateFn::Sum | AggregateFn::Avg => match a.expr {
                Some(x) => match expr_type(*x) {
                    Some(t) => Some(widened_sum_type(t)),
                    None => None,
                },
                None => None,
            },
            AggregateFn::Min | AggregateFn::Max => match a.expr {
                Some(x) => expr_type(*x),
                None => None,
            },
        },
        Expr::Function(f) => if eq_ignore_case(f.name@, "JSONB_TEXT_OR_FIRST"@) {
            Some(DbType::Text)
        } else {
            None
        },
        Expr::Unary(u) => expr_type(*u.expr),
        Expr::Binary(b) => match expr_type(*b.left) {
            Some(t) => Some(t),
            None => expr_type(*b.right),
        },
        Expr::Subquery(_) => None,
        Expr::Window(_) => None,
        Expr::Case(c) => {
            let from_else = match c.else_expr {
                Some(x) => expr_type(*x),
                None => None,
            };
            match from_else {
                Some(t) => Some(t),
                None => if c.whens.len() > 0 {
                    expr_type(*c.whens@[0].result)
                } else {
                    None
                },
            }
        },
        Expr::JsonPath(p) => match p.mode {
            JsonPathMode::Json => Some(DbType::Json),
            JsonPathMode::Text => Some(DbType::Text),
        },
        Expr::Raw(_) => None,
    }
}

/// Sums and averages of integers and numerics are numeric.
pub open spec fn widened_sum_type(t: DbType) -> DbType {
    match t {
        DbType::Int16 | DbType::Int32 | DbType::Int64 | DbType::Numeric => DbType::Numeric,
        _ => t,
    }
}

/// The type of an aggregate, as `expr_type` gives it for `Expr::Aggregate`.
pub open spec fn aggregate_type(a: AggregateExpr) -> Option<DbType> {
    match a.function {
        AggregateFn::Count => Some(DbType::Int64),
        AggregateFn::Sum | AggregateFn::Avg => match a.expr {
            Some(x) => match expr_type(*x) {
                Some(t) => Some(widened_sum_type(t)),
                None => None,
            },
            None => None,
        },
        AggregateFn::Min | AggregateFn::Max => match a.expr {
            Some(x) => expr_type(*x),
            None => None,
        },
    }
}

/// Numeric projections are read back as text.
pub open spec fn numeric_as_text(sql: Seq<char>, t: Option<DbType>) -> Seq<char> {
    if t == Some(DbType::Numeric) {
        "("@ + sql + ")::text"@
    } else {
        sql
    }
}

/// Placeholders for a list of values, joined by ", ".
pub open spec fn bind_list(vs: Seq<DbValue>, i: int, n: nat) -> Out
    decreases vs.len() - i,
{
    if i < 0 || i >= vs.len() {
        (Seq::empty(), Seq::empty())
    } else {
        let first = bind(vs[i]@, n);
        if i + 1 == vs.len() {
            first
        } else {
            let rest = bind_list(vs, i + 1, n + 1);
            (first.0 + ", "@ + rest.0, first.1 + rest.1)
        }
    }
}

/// Placeholders for a list of text values, joined by ", ".
pub open spec fn bind_text_list(vs: Seq<String>, i: int, n: nat) -> Out
    decreases vs.len() - i,
{
    if i < 0 || i >= vs.len() {
        (Seq::empty(), Seq::empty())
    } else {
        let first = bind(text_value(vs[i]), n);
        if i + 1 == vs.len() {
            first
        } else {
            let rest = bind_text_list(vs, i + 1, n + 1);
            (first.0 + ", "@ + rest.0, first.1 + rest.1)
        }
    }
}

pub open spec fn text_array(vs: Seq<String>, n: nat) -> Out {
    let inner = bind_text_list(vs, 0, n);
    ("ARRAY["@ + inner.0 + "]"@, inner.1)
}

/// The text of a full-text document over columns, joined by `|| ' ' ||`.
pub open spec fn document_sql(cols: Seq<ColumnRef>, i: int) -> Seq<char>
    decreases cols.len() - i,
{
    if i < 0 || i >= cols.len() {
        Seq::empty()
    } else {
        let part = "COALESCE("@ + column_name_sql(cols[i]) + "::text, '')"@;
        if i + 1 == cols.len() {
            part
        } else {
            part + " || ' ' || "@ + document_sql(cols, i + 1)
        }
    }
}

/// A raw fragment with each `?` replaced by the placeholder of the next value.
pub open spec fn raw_sql(sql: Seq<char>, vs: Seq<DbValue>, n: nat) -> Out
    decreases sql.len(),
{
    if sql.len() == 0 {
        (Seq::empty(), Seq::empty())
    } else if sql[0] == '?' && vs.len() > 0 {
        let rest = raw_sql(sql.subrange(1, sql.len() as int), vs.subrange(1, vs.len() as int), n + 1);
        (placeholder(n, vs[0]@) + rest.0, seq![vs[0]@] + rest.1)
    } else {
        let rest = raw_sql(sql.subrange(1, sql.len() as int), vs, n);
        (seq![sql[0]] + rest.0, rest.1)
    }
}

pub open spec fn raw_mismatch_error(expected: nat, got: nat) -> Seq<char> {
    "raw condition placeholder count mismatch: expected "@ + dec(expected) + " bindings, got "@
        + dec(got)
}

/// The text of a JSON path applied to `base`, one arrow per segment;
/// the last segment uses `->>` in text mode.
pub open spec fn json_path_sql(base: Seq<char>, segs: Seq<JsonPathSegment>, i: int, mode: JsonPathMode, n: nat) -> Out
    decreases segs.len() - i,
{
    if i < 0 || i >= segs.len() {
        (base, Seq::empty())
    } else {
        let op = if i == segs.len() - 1 && mode == JsonPathMode::Text { "->>"@ } else { "->"@ };
        match segs[i] {
            JsonPathSegment::Key(k) => {
                let b = bind(text_value(k), n);
                let next = json_path_sql("("@ + base + ") "@ + op + " "@ + b.0, segs, i + 1, mode, n + 1);
                (next.0, b.1 + next.1)
            },
            JsonPathSegment::Index(x) => json_path_sql(
                "("@ + base + ") "@ + op + " "@ + idec(x as int),
                segs,
                i + 1,
                mode,
                n,
            ),
        }
    }
}

// ---------------------------------------------------------------------------
// Insert rows
// ---------------------------------------------------------------------------

/// Whether the column at `i` repeats a name seen before it in `row`.
pub open spec fn repeats_earlier(row: Seq<(ColumnRef, Expr)>, i: int) -> bool {
    exists|j: int| 0 <= j < i && #[trigger] row[j].0.name@ == row[i].0.name@
}

/// The first repeated name in the first row, from index `i` on.
pub open spec fn first_repeat(row: Seq<(ColumnRef, Expr)>, i: int) -> Option<Seq<char>>
    decreases row.len() - i,
{
    if i < 0 || i >= row.len() {
        None
    } else if repeats_earlier(row, i) {
        Some(row[i].0.name@)
    } else {
        first_repeat(row, i + 1)
    }
}

/// How many entries of `row` assign the column `name`.
pub open spec fn name_count(row: Seq<(ColumnRef, Expr)>, name: Seq<char>) -> nat
    decreases row.len(),
{
    if row.len() == 0 {
        0
    } else {
        (if row[0].0.name@ == name { 1nat } else { 0nat })
            + name_count(row.subrange(1, row.len() as int), name)
    }
}

/// The index of the first entry of `row` assigning `name`.
pub open spec fn name_pos(row: Seq<(ColumnRef, Expr)>, name: Seq<char>) -> nat
    decreases row.len(),
{
    if row.len() == 0 {
        0
    } else if row[0].0.name@ == name {
        0
    } else {
        1 + name_pos(row.subrange(1, row.len() as int), name)
    }
}

/// The first error of a row against the canonical (first-row) columns,
/// checking the columns from index `k` on.
pub open spec fn row_column_error(row: Seq<(ColumnRef, Expr)>, canon: Seq<(ColumnRef, Expr)>, k: int) -> Option<Seq<char>>
    decreases canon.len() - k,
{
    if k < 0 || k >= canon.len() {
        None
    } else {
        let name = canon[k].0.name@;
        let c = name_count(row, name);
        if c == 0 {
            Some("insert row is missing required column `"@ + name + "`"@)
        } else if c > 1 {
            Some("insert row contains duplicate column `"@ + name + "`"@)
        } else {
            row_column_error(row, canon, k + 1)
        }
    }
}

pub open spec fn row_error(row: Seq<(ColumnRef, Expr)>, canon: Seq<(ColumnRef, Expr)>) -> Option<Seq<char>> {
    if row.len() == 0 {
        Some("insert query requires at least one value"@)
    } else {
        match row_column_error(row, canon, 0) {
            Some(m) => Some(m),
            None => if row.len() != canon.len() {
                Some("insert rows must use the same set of columns"@)
            } else {
                None
            },
        }
    }
}

/// The first error over the rows from index `i` on.
pub open spec fn rows_error(rows: Seq<Vec<(ColumnRef, Expr)>>, canon: Seq<(ColumnRef, Expr)>, i: int) -> Option<Seq<char>>
    decreases rows.len() - i,
{
    if i < 0 || i >= rows.len() {
        None
    } else {
        match row_error(rows[i]@, canon) {
            Some(m) => Some(m),
            None => rows_error(rows, canon, i + 1),
        }
    }
}

/// Why a `VALUES` source is refused, if it is.
pub open spec fn values_error(rows: Seq<Vec<(ColumnRef, Expr)>>) -> Option<Seq<char>> {
    if rows.len() == 0 {
        Some("insert query requires at least one row"@)
    } else if rows[0].len() == 0 {
        Some("insert query requires at least one value"@)
    } else {
        match first_repeat(rows[0]@, 0) {
            Some(name) => Some("insert row contains duplicate column `"@ + name + "`"@),
            None => rows_error(rows, rows[0]@, 0),
        }
    }
}

/// The target columns of an `INSERT ... SELECT`, which must be plain columns.
pub open spec fn select_columns_ok(items: Seq<SelectItem>) -> bool {
    forall|i: int| 0 <= i < items.len() ==> #[trigger] items[i].expr is Column
}

pub open spec fn select_column_names(items: Seq<SelectItem>, i: int) -> Seq<char>
    decreases items.len() - i,
{
    if i < 0 || i >= items.len() {
        Seq::empty()
    } else {
        let name = match items[i].expr {
            Expr::Column(c) => quote_ident(c.name@),
            _ => Seq::empty(),
        };
        if i + 1 == items.len() {
            name
        } else {
            name + ", "@ + select_column_names(items, i + 1)
        }
    }
}

// ---------------------------------------------------------------------------
// Statements, expressions and conditions
// ---------------------------------------------------------------------------

pub open spec fn any_recursive(cs: Seq<CteNode>) -> bool {
    exists|i: int| 0 <= i < cs.len() && #[trigger] cs[i].recursive
}

/// `WITH [RECURSIVE] cte, ... body`, or the body alone.
#[verifier::opaque]
pub open spec fn query_sql(q: QueryAst, n: nat) -> Res
    decreases q, 1int,
{
    if q.with.len() == 0 {
        body_sql(q.body, n)
    } else {
        let rec = if any_recursive(q.with@) { "RECURSIVE "@ } else { Seq::<char>::empty() };
        match ctes_sql(q.with@, 0, n) {
            Err(m) => Err(m),
            Ok((cs, cb)) => match body_sql(q.body, n + cb.len()) {
                Err(m) => Err(m),
                Ok((bs, bb)) => Ok(("WITH "@ + rec + cs + " "@ + bs, cb + bb)),
            },
        }
    }
}

#[verifier::opaque]
pub open spec fn ctes_sql(cs: Seq<CteNode>, i: int, n: nat) -> Res
    decreases cs, cs.len() - i,
{
    if i < 0 || i >= cs.len() {
        lit(Seq::empty())
    } else {
        match cte_sql(cs[i], n) {
            Err(m) => Err(m),
            Ok((s, b)) => if i + 1 == cs.len() {
                Ok((s, b))
            } else {
                match ctes_sql(cs, i + 1, n + b.len()) {
                    Err(m) => Err(m),
                    Ok((s2, b2)) => Ok((s + ", "@ + s2, b + b2)),
                }
            },
        }
    }
}

#[verifier::opaque]
pub open spec fn cte_sql(c: CteNode, n: nat) -> Res
    decreases c, 1int,
{
    let mat = match c.materialization {
        Some(CteMaterialization::Materialized) => "MATERIALIZED "@,
        Some(CteMaterialization::NotMaterialized) => "NOT MATERIALIZED "@,
        None => Seq::<char>::empty(),
    };
    match query_sql(*c.query, n) {
        Err(m) => Err(m),
        Ok((s, b)) => Ok((quote_ident(c.name@) + " AS "@ + mat + "("@ + s + ")"@, b)),
    }
}

#[verifier::opaque]
pub open spec fn body_sql(body: QueryBody, n: nat) -> Res
    decreases body, 1int,
{
    match body {
        QueryBody::Select(s) => select_sql(*s, n),
        QueryBody::Insert(i) => insert_sql(*i, n),
        QueryBody::Update(u) => update_sql(*u, n),
        QueryBody::Delete(d) => delete_sql(*d, n),
        QueryBody::SetOperation(s) => set_operation_sql(*s, n),
    }
}

/// `SELECT [DISTINCT] projection FROM source joins` followed by the filters.
#[verifier::opaque]
pub open spec fn select_sql(s: SelectNode, n: nat) -> Res
    decreases s, 3int,
{
    let distinct = if s.distinct { "DISTINCT "@ } else { Seq::<char>::empty() };
    match projection_sql(s, n) {
        Err(m) => Err(m),
        Ok((p, pb)) => match from_item_sql(s.from, n + pb.len()) {
            Err(m) => Err(m),
            Ok((f, fb)) => match joins_sql(s.joins@, 0, n + pb.len() + fb.len()) {
                Err(m) => Err(m),
                Ok((j, jb)) => match select_filters_sql(s, n + pb.len() + fb.len() + jb.len()) {
                    Err(m) => Err(m),
                    Ok((t, tb)) => Ok((
                        "SELECT "@ + distinct + p + " FROM "@ + f + j + t,
                        pb + fb + jb + tb,
                    )),
                },
            },
        },
    }
}

/// `*` when nothing is selected, else the items and aggregates joined by ", ".
#[verifier::opaque]
pub open spec fn projection_sql(s: SelectNode, n: nat) -> Res
    decreases s, 2int,
{
    if s.columns.len() == 0 && s.aggregates.len() == 0 {
        lit("*"@)
    } else {
        match items_sql(s.columns@, 0, n) {
            Err(m) => Err(m),
            Ok((a, ab)) => match aggregate_nodes_sql(s.aggregates@, 0, n + ab.len()) {
                Err(m) => Err(m),
                Ok((g, gb)) => {
                    let sep = if s.columns.len() > 0 && s.aggregates.len() > 0 {
                        ", "@
                    } else {
                        Seq::<char>::empty()
                    };
                    Ok((a + sep + g, ab + gb))
                },
            },
        }
    }
}

/// WHERE, GROUP BY, HAVING, ORDER BY / LIMIT / OFFSET and the lock clause.
#[verifier::opaque]
pub open spec fn select_filters_sql(s: SelectNode, n: nat) -> Res
    decreases s, 2int,
{
    match opt_condition_sql(s.condition, " WHERE "@, n) {
        Err(m) => Err(m),
        Ok((w, wb)) => match group_by_sql(s.group_by@, n + wb.len()) {
            Err(m) => Err(m),
            Ok((g, gb)) => match opt_condition_sql(s.having, " HAVING "@, n + wb.len() + gb.len()) {
                Err(m) => Err(m),
                Ok((h, hb)) => match order_limit_offset_sql(
                    s.order_by@,
                    s.limit,
                    s.offset,
                    n + wb.len() + gb.len() + hb.len(),
                ) {
                    Err(m) => Err(m),
                    Ok((o, ob)) => {
                        let lock = match s.lock {
                            Some(l) => " "@ + lock_sql(l),
                            None => Seq::<char>::empty(),
                        };
                        Ok((w + g + h + o + lock, wb + gb + hb + ob))
                    },
                },
            },
        },
    }
}

#[verifier::opaque]
pub open spec fn opt_condition_sql(c: Option<Condition>, prefix: Seq<char>, n: nat) -> Res
    decreases c, 1int,
{
    match c {
        None => lit(Seq::empty()),
        Some(c) => match condition_sql(c, n) {
            Err(m) => Err(m),
            Ok((s, b)) => Ok((prefix + s, b)),
        },
    }
}

#[verifier::opaque]
pub open spec fn group_by_sql(es: Seq<Expr>, n: nat) -> Res
    decreases es, es.len() + 1,
{
    if es.len() == 0 {
        lit(Seq::empty())
    } else {
        match exprs_sql(es, 0, ", "@, n) {
            Err(m) => Err(m),
            Ok((s, b)) => Ok((" GROUP BY "@ + s, b)),
        }
    }
}

pub open spec fn limit_value(v: u64) -> DbValueView {
    DbValueView::Int64(v as i64)
}

/// ` ORDER BY ...`, ` LIMIT $k::bigint` and ` OFFSET $k::bigint`, each when present.
#[verifier::opaque]
pub open spec fn order_limit_offset_sql(os: Seq<OrderBy>, limit: Option<u64>, offset: Option<u64>, n: nat) -> Res
    decreases os, os.len() + 1,
{
    match (if os.len() == 0 { lit(Seq::empty()) } else {
        match orders_sql(os, 0, n) {
            Err(m) => Err(m),
            Ok((s, b)) => Ok((" ORDER BY "@ + s, b)),
        }
    }) {
        Err(m) => Err(m),
        Ok((o, ob)) => {
            let l: Out = match limit {
                Some(v) => {
                    let x = bind(limit_value(v), n + ob.len());
                    (" LIMIT "@ + x.0, x.1)
                },
                None => (Seq::empty(), Seq::empty()),
            };
            let f: Out = match offset {
                Some(v) => {
                    let x = bind(limit_value(v), n + ob.len() + l.1.len());
                    (" OFFSET "@ + x.0, x.1)
                },
                None => (Seq::empty(), Seq::empty()),
            };
            Ok((o + l.0 + f.0, ob + l.1 + f.1))
        },
    }
}

#[verifier::opaque]
pub open spec fn set_operation_sql(s: SetOperationNode, n: nat) -> Res
    decreases s, 1int,
{
    let op = match s.operator {
        SetOperator::Union => "UNION"@,
        SetOperator::UnionAll => "UNION ALL"@,
    };
    match query_sql(*s.left, n) {
        Err(m) => Err(m),
        Ok((l, lb)) => match query_sql(*s.right, n + lb.len()) {
            Err(m) => Err(m),
            Ok((r, rb)) => match order_limit_offset_sql(s.order_by@, s.limit, s.offset, n + lb.len() + rb.len()) {
                Err(m) => Err(m),
                Ok((o, ob)) => Ok(("("@ + l + ") "@ + op + " ("@ + r + ")"@ + o, lb + rb + ob)),
            },
        },
    }
}

#[verifier::opaque]
pub open spec fn items_sql(items: Seq<SelectItem>, i: int, n: nat) -> Res
    decreases items, items.len() - i,
{
    if i < 0 || i >= items.len() {
        lit(Seq::empty())
    } else {
        match item_sql(items[i], n) {
            Err(m) => Err(m),
            Ok((s, b)) => if i + 1 == items.len() {
                Ok((s, b))
            } else {
                match items_sql(items, i + 1, n + b.len()) {
                    Err(m) => Err(m),
                    Ok((s2, b2)) => Ok((s + ", "@ + s2, b + b2)),
                }
            },
        }
    }
}

/// A projected expression: columns by name (keeping their alias), numeric
/// results cast to text, and the item's alias, if any, after `AS`.
#[verifier::opaque]
pub open spec fn item_sql(it: SelectItem, n: nat) -> Res
    decreases it, 1int,
{
    let base: Res = match it.expr {
        Expr::Column(c) => lit(column_name_sql(c)),
        _ => expr_sql(it.expr, n),
    };
    let expr_alias: Option<String> = match it.expr {
        Expr::Column(c) => c.alias,
        _ => None,
    };
    match base {
        Err(m) => Err(m),
        Ok((s, b)) => {
            let body = numeric_as_text(s, expr_type(it.expr));
            let alias: Option<String> = match it.alias {
                Some(a) => Some(a),
                None => expr_alias,
            };
            match alias {
                Some(a) => Ok((body + " AS "@ + quote_ident(a@), b)),
                None => Ok((body, b)),
            }
        },
    }
}

#[verifier::opaque]
pub open spec fn aggregate_nodes_sql(aggs: Seq<AggregateNode>, i: int, n: nat) -> Res
    decreases aggs, aggs.len() - i,
{
    if i < 0 || i >= aggs.len() {
        lit(Seq::empty())
    } else {
        match aggregate_node_sql(aggs[i], n) {
            Err(m) => Err(m),
            Ok((s, b)) => if i + 1 == aggs.len() {
                Ok((s, b))
            } else {
                match aggregate_nodes_sql(aggs, i + 1, n + b.len()) {
                    Err(m) => Err(m),
                    Ok((s2, b2)) => Ok((s + ", "@ + s2, b + b2)),
                }
            },
        }
    }
}

#[verifier::opaque]
pub open spec fn aggregate_node_sql(a: AggregateNode, n: nat) -> Res
    decreases a, 1int,
{
    match aggregate_sql(a.aggregate, n) {
        Err(m) => Err(m),
        Ok((s, b)) => Ok((numeric_as_text(s, aggregate_type(a.aggregate)) + " AS "@ + quote_ident(a.alias@), b)),
    }
}

/// `FN(expr)`, `FN(DISTINCT expr)` or `COUNT(*)`.
#[verifier::opaque]
pub open spec fn aggregate_sql(a: AggregateExpr, n: nat) -> Res
    decreases a, 1int,
{
    match a.expr {
        None => if a.function == AggregateFn::Count && !a.distinct {
            lit("COUNT(*)"@)
        } else if a.function == AggregateFn::Count {
            Err("count distinct requires an expression"@)
        } else {
            Err("aggregate function requires an expression unless using count(*)"@)
        },
        Some(x) => match expr_sql(*x, n) {
            Err(m) => Err(m),
            Ok((s, b)) => {
                let d = if a.distinct { "DISTINCT "@ } else { Seq::<char>::empty() };
                Ok((aggregate_fn_sql(a.function) + "("@ + d + s + ")"@, b))
            },
        },
    }
}

#[verifier::opaque]
pub open spec fn from_item_sql(f: FromItem, n: nat) -> Res
    decreases f, 1int,
{
    match f {
        FromItem::Table(t) => lit(table_sql(t)),
        FromItem::Subquery { query, alias } => match query_sql(*query, n) {
            Err(m) => Err(m),
            Ok((s, b)) => Ok(("("@ + s + ") AS "@ + quote_ident(alias@), b)),
        },
    }
}

#[verifier::opaque]
pub open spec fn from_items_sql(fs: Seq<FromItem>, i: int, n: nat) -> Res
    decreases fs, fs.len() - i,
{
    if i < 0 || i >= fs.len() {
        lit(Seq::empty())
    } else {
        match from_item_sql(fs[i], n) {
            Err(m) => Err(m),
            Ok((s, b)) => if i + 1 == fs.len() {
                Ok((s, b))
            } else {
                match from_items_sql(fs, i + 1, n + b.len()) {
                    Err(m) => Err(m),
                    Ok((s2, b2)) => Ok((s + ", "@ + s2, b + b2)),
                }
            },
        }
    }
}

#[verifier::opaque]
pub open spec fn joins_sql(js: Seq<JoinNode>, i: int, n: nat) -> Res
    decreases js, js.len() - i,
{
    if i < 0 || i >= js.len() {
        lit(Seq::empty())
    } else {
        match join_sql(js[i], n) {
            Err(m) => Err(m),
            Ok((s, b)) => match joins_sql(js, i + 1, n + b.len()) {
                Err(m) => Err(m),
                Ok((s2, b2)) => Ok((s + s2, b + b2)),
            },
        }
    }
}

pub open spec fn join_kind_sql(k: JoinKind) -> Seq<char> {
    match k {
        JoinKind::Inner => "INNER JOIN"@,
        JoinKind::Left => "LEFT JOIN"@,
        JoinKind::Right => "RIGHT JOIN"@,
        JoinKind::Full => "FULL OUTER JOIN"@,
        JoinKind::Cross => "CROSS JOIN"@,
    }
}

/// ` KIND [LATERAL] source [ON condition]`; cross joins take no condition
/// and the other joins need one.
#[verifier::opaque]
pub open spec fn join_sql(j: JoinNode, n: nat) -> Res
    decreases j, 1int,
{
    let lateral = if j.lateral { " LATERAL"@ } else { Seq::<char>::empty() };
    match from_item_sql(j.table, n) {
        Err(m) => Err(m),
        Ok((f, fb)) => {
            let head = " "@ + join_kind_sql(j.kind) + lateral + " "@ + f;
            if j.kind == JoinKind::Cross {
                match j.on {
                    None => Ok((head, fb)),
                    Some(_) => Err("cross join does not support ON conditions"@),
                }
            } else {
                match j.on {
                    None => Err("joined queries require an ON condition unless using CROSS JOIN"@),
                    Some(c) => match condition_sql(c, n + fb.len()) {
                        Err(m) => Err(m),
                        Ok((cs, cb)) => Ok((head + " ON "@ + cs, fb + cb)),
                    },
                }
            }
        },
    }
}

#[verifier::opaque]
pub open spec fn exprs_sql(es: Seq<Expr>, i: int, sep: Seq<char>, n: nat) -> Res
    decreases es, es.len() - i,
{
    if i < 0 || i >= es.len() {
        lit(Seq::empty())
    } else {
        match expr_sql(es[i], n) {
            Err(m) => Err(m),
            Ok((s, b)) => if i + 1 == es.len() {
                Ok((s, b))
            } else {
                match exprs_sql(es, i + 1, sep, n + b.len()) {
                    Err(m) => Err(m),
                    Ok((s2, b2)) => Ok((s + sep + s2, b + b2)),
                }
            },
        }
    }
}

#[verifier::opaque]
pub open spec fn conditions_sql(cs: Seq<Condition>, i: int, sep: Seq<char>, n: nat) -> Res
    decreases cs, cs.len() - i,
{
    if i < 0 || i >= cs.len() {
        lit(Seq::empty())
    } else {
        match condition_sql(cs[i], n) {
            Err(m) => Err(m),
            Ok((s, b)) => if i + 1 == cs.len() {
                Ok((s, b))
            } else {
                match conditions_sql(cs, i + 1, sep, n + b.len()) {
                    Err(m) => Err(m),
                    Ok((s2, b2)) => Ok((s + sep + s2, b + b2)),
                }
            },
        }
    }
}

#[verifier::opaque]
pub open spec fn orders_sql(os: Seq<OrderBy>, i: int, n: nat) -> Res
    decreases os, os.len() - i,
{
    if i < 0 || i >= os.len() {
        lit(Seq::empty())
    } else {
        match order_sql(os[i], n) {
            Err(m) => Err(m),
            Ok((s, b)) => if i + 1 == os.len() {
                Ok((s, b))
            } else {
                match orders_sql(os, i + 1, n + b.len()) {
                    Err(m) => Err(m),
                    Ok((s2, b2)) => Ok((s + ", "@ + s2, b + b2)),
                }
            },
        }
    }
}

#[verifier::opaque]
pub open spec fn order_sql(o: OrderBy, n: nat) -> Res
    decreases o, 1int,
{
    let dir = match o.direction {
        OrderDirection::Asc => "ASC"@,
        OrderDirection::Desc => "DESC"@,
    };
    match expr_sql(o.expr, n) {
        Err(m) => Err(m),
        Ok((s, b)) => Ok((s + " "@ + dir, b)),
    }
}

/// Quoted names of the first row's columns, joined by ", ".
pub open spec fn row_names_sql(row: Seq<(ColumnRef, Expr)>, i: int) -> Seq<char>
    decreases row.len() - i,
{
    if i < 0 || i >= row.len() {
        Seq::empty()
    } else if i + 1 == row.len() {
        quote_ident(row[i].0.name@)
    } else {
        quote_ident(row[i].0.name@) + ", "@ + row_names_sql(row, i + 1)
    }
}

/// `INSERT INTO table (columns) source [ON CONFLICT ...] [RETURNING ...]`.
#[verifier::opaque]
pub open spec fn insert_sql(ins: InsertNode, n: nat) -> Res
    decreases ins, 2int,
{
    match insert_source_sql(ins, n) {
        Err(m) => Err(m),
        Ok((src, sb)) => match (match ins.on_conflict {
            None => lit(Seq::empty()),
            Some(oc) => match on_conflict_sql(oc, n + sb.len()) {
                Err(m) => Err(m),
                Ok((s, b)) => Ok((" "@ + s, b)),
            },
        }) {
            Err(m) => Err(m),
            Ok((oc, ob)) => match returning_sql(ins.returning@, n + sb.len() + ob.len()) {
                Err(m) => Err(m),
                Ok((r, rb)) => Ok(("INSERT INTO "@ + table_sql(ins.into) + " "@ + src + oc + r, sb + ob + rb)),
            },
        },
    }
}

/// `(columns) VALUES (...), ...` or `(columns) query` for an insert source.
#[verifier::opaque]
pub open spec fn insert_source_sql(ins: InsertNode, n: nat) -> Res
    decreases ins, 1int,
{
    match ins.source {
        InsertSource::Values(rows) => match values_error(rows@) {
            Some(m) => Err(m),
            None => match value_rows_sql(rows@, rows@[0]@, 0, n) {
                Err(m) => Err(m),
                Ok((r, rb)) => Ok(("("@ + row_names_sql(rows@[0]@, 0) + ") VALUES "@ + r, rb)),
            },
        },
        InsertSource::Select(q) => match q.body {
            QueryBody::Select(sel) => if sel.columns.len() == 0 {
                Err("insert select queries require explicit selected columns"@)
            } else if !select_columns_ok(sel.columns@) {
                Err("insert select queries require direct column expressions"@)
            } else {
                match query_sql(*q, n) {
                    Err(m) => Err(m),
                    Ok((s, b)) => Ok(("("@ + select_column_names(sel.columns@, 0) + ") "@ + s, b)),
                }
            },
            QueryBody::SetOperation(_) => Err(
                "insert select source requires explicit target columns; use the insert target columns as the source projection order"@,
            ),
            _ => Err("insert select source must be a select or set-operation query"@),
        },
    }
}

#[verifier::opaque]
pub open spec fn value_rows_sql(rows: Seq<Vec<(ColumnRef, Expr)>>, canon: Seq<(ColumnRef, Expr)>, i: int, n: nat) -> Res
    decreases rows, rows.len() - i,
{
    if i < 0 || i >= rows.len() {
        lit(Seq::empty())
    } else {
        match row_exprs_sql(rows[i]@, canon, 0, n) {
            Err(m) => Err(m),
            Ok((s, b)) => {
                let row = "("@ + s + ")"@;
                if i + 1 == rows.len() {
                    Ok((row, b))
                } else {
                    match value_rows_sql(rows, canon, i + 1, n + b.len()) {
                        Err(m) => Err(m),
                        Ok((s2, b2)) => Ok((row + ", "@ + s2, b + b2)),
                    }
                }
            },
        }
    }
}

/// The values of a row in the order of the canonical columns.
#[verifier::opaque]
pub open spec fn row_exprs_sql(row: Seq<(ColumnRef, Expr)>, canon: Seq<(ColumnRef, Expr)>, k: int, n: nat) -> Res
    decreases row, canon.len() - k,
{
    if k < 0 || k >= canon.len() {
        lit(Seq::empty())
    } else {
        let p = name_pos(row, canon[k].0.name@) as int;
        if p >= row.len() {
            Err("insert row is missing required column `"@ + canon[k].0.name@ + "`"@)
        } else {
            match expr_sql(row[p].1, n) {
                Err(m) => Err(m),
                Ok((s, b)) => if k + 1 == canon.len() {
                    Ok((s, b))
                } else {
                    match row_exprs_sql(row, canon, k + 1, n + b.len()) {
                        Err(m) => Err(m),
                        Ok((s2, b2)) => Ok((s + ", "@ + s2, b + b2)),
                    }
                },
            }
        }
    }
}

pub open spec fn conflict_target_sql(t: OnConflictTarget) -> Seq<char> {
    match t {
        OnConflictTarget::Columns(cs) => "("@ + quoted_columns(cs@, 0) + ")"@,
        OnConflictTarget::Constraint(c) => "ON CONSTRAINT "@ + quote_ident(c@),
    }
}

/// `ON CONFLICT [target] DO NOTHING` or `ON CONFLICT target DO UPDATE SET ...`.
#[verifier::opaque]
pub open spec fn on_conflict_sql(oc: OnConflictNode, n: nat) -> Res
    decreases oc, 1int,
{
    let action: Res = match oc.action {
        OnConflictAction::DoNothing => lit("DO NOTHING"@),
        OnConflictAction::DoUpdate(u) => if oc.target is None {
            Err("on conflict do update requires conflict columns or a named constraint"@)
        } else if u.assignments.len() == 0 {
            Err("on conflict do update requires at least one assignment"@)
        } else {
            match assignments_sql(u.assignments@, 0, n) {
                Err(m) => Err(m),
                Ok((a, ab)) => match opt_condition_sql(u.condition, " WHERE "@, n + ab.len()) {
                    Err(m) => Err(m),
                    Ok((w, wb)) => Ok(("DO UPDATE SET "@ + a + w, ab + wb)),
                },
            }
        },
    };
    match action {
        Err(m) => Err(m),
        Ok((a, b)) => match oc.target {
            None => Ok(("ON CONFLICT "@ + a, b)),
            Some(t) => Ok(("ON CONFLICT "@ + conflict_target_sql(t) + " "@ + a, b)),
        },
    }
}

#[verifier::opaque]
pub open spec fn assignments_sql(asg: Seq<(ColumnRef, Expr)>, i: int, n: nat) -> Res
    decreases asg, asg.len() - i,
{
    if i < 0 || i >= asg.len() {
        lit(Seq::empty())
    } else {
        match expr_sql(asg[i].1, n) {
            Err(m) => Err(m),
            Ok((s, b)) => {
                let one = quote_ident(asg[i].0.name@) + " = "@ + s;
                if i + 1 == asg.len() {
                    Ok((one, b))
                } else {
                    match assignments_sql(asg, i + 1, n + b.len()) {
                        Err(m) => Err(m),
                        Ok((s2, b2)) => Ok((one + ", "@ + s2, b + b2)),
                    }
                }
            },
        }
    }
}

#[verifier::opaque]
pub open spec fn returning_sql(items: Seq<SelectItem>, n: nat) -> Res
    decreases items, items.len() + 1,
{
    if items.len() == 0 {
        lit(Seq::empty())
    } else {
        match items_sql(items, 0, n) {
            Err(m) => Err(m),
            Ok((s, b)) => Ok((" RETURNING "@ + s, b)),
        }
    }
}

#[verifier::opaque]
pub open spec fn from_list_sql(fs: Seq<FromItem>, prefix: Seq<char>, n: nat) -> Res
    decreases fs, fs.len() + 1,
{
    if fs.len() == 0 {
        lit(Seq::empty())
    } else {
        match from_items_sql(fs, 0, n) {
            Err(m) => Err(m),
            Ok((s, b)) => Ok((prefix + s, b)),
        }
    }
}

/// `UPDATE table SET col = expr, ... [FROM ...] [WHERE ...] [RETURNING ...]`.
#[verifier::opaque]
pub open spec fn update_sql(u: UpdateNode, n: nat) -> Res
    decreases u, 1int,
{
    if u.values.len() == 0 {
        Err("update query requires at least one value"@)
    } else {
        match assignments_sql(u.values@, 0, n) {
            Err(m) => Err(m),
            Ok((a, ab)) => match from_list_sql(u.from@, " FROM "@, n + ab.len()) {
                Err(m) => Err(m),
                Ok((f, fb)) => match opt_condition_sql(u.condition, " WHERE "@, n + ab.len() + fb.len()) {
                    Err(m) => Err(m),
                    Ok((w, wb)) => match returning_sql(u.returning@, n + ab.len() + fb.len() + wb.len()) {
                        Err(m) => Err(m),
                        Ok((r, rb)) => Ok((
                            "UPDATE "@ + table_sql(u.table) + " SET "@ + a + f + w + r,
                            ab + fb + wb + rb,
                        )),
                    },
                },
            },
        }
    }
}

/// `DELETE FROM table [USING ...] [WHERE ...] [RETURNING ...]`.
#[verifier::opaque]
pub open spec fn delete_sql(d: DeleteNode, n: nat) -> Res
    decreases d, 1int,
{
    match from_list_sql(d.using@, " USING "@, n) {
        Err(m) => Err(m),
        Ok((u, ub)) => match opt_condition_sql(d.condition, " WHERE "@, n + ub.len()) {
            Err(m) => Err(m),
            Ok((w, wb)) => match returning_sql(d.returning@, n + ub.len() + wb.len()) {
                Err(m) => Err(m),
                Ok((r, rb)) => Ok(("DELETE FROM "@ + table_sql(d.from) + u + w + r, ub + wb + rb)),
            },
        },
    }
}

/// `CASE WHEN c THEN e ... [ELSE e] END`.
#[verifier::opaque]
pub open spec fn case_sql(c: CaseExpr, n: nat) -> Res
    decreases c, 1int,
{
    if c.whens.len() == 0 {
        Err("case expression requires at least one when branch"@)
    } else {
        match whens_sql(c.whens@, 0, n) {
            Err(m) => Err(m),
            Ok((w, wb)) => match (match c.else_expr {
                None => lit(Seq::empty()),
                Some(x) => match expr_sql(*x, n + wb.len()) {
                    Err(m) => Err(m),
                    Ok((s, b)) => Ok((" ELSE "@ + s, b)),
                },
            }) {
                Err(m) => Err(m),
                Ok((e, eb)) => Ok(("CASE"@ + w + e + " END"@, wb + eb)),
            },
        }
    }
}

#[verifier::opaque]
pub open spec fn whens_sql(ws: Seq<CaseWhen>, i: int, n: nat) -> Res
    decreases ws, ws.len() - i,
{
    if i < 0 || i >= ws.len() {
        lit(Seq::empty())
    } else {
        match condition_sql(ws[i].condition, n) {
            Err(m) => Err(m),
            Ok((c, cb)) => match expr_sql(*ws[i].result, n + cb.len()) {
                Err(m) => Err(m),
                Ok((r, rb)) => match whens_sql(ws, i + 1, n + cb.len() + rb.len()) {
                    Err(m) => Err(m),
                    Ok((s2, b2)) => Ok((" WHEN "@ + c + " THEN "@ + r + s2, cb + rb + b2)),
                },
            },
        }
    }
}

/// Function calls; `EXTRACT` and `JSONB_TEXT_OR_FIRST` (in any case) have
/// fixed shapes and check their arguments.
#[verifier::opaque]
pub open spec fn function_sql(f: FunctionCall, n: nat) -> Res
    decreases f, 1int,
{
    if eq_ignore_case(f.name@, "EXTRACT"@) {
        if f.args.len() != 2 {
            Err("EXTRACT requires a field name and expression argument"@)
        } else {
            match f.args@[0] {
                Expr::Value(DbValue::Text(field)) => if !is_extract_field(field@) {
                    Err(extract_field_error(field@))
                } else {
                    match expr_sql(f.args@[1], n) {
                        Err(m) => Err(m),
                        Ok((s, b)) => Ok(("EXTRACT("@ + field@ + " FROM "@ + s + ")"@, b)),
                    }
                },
                _ => Err("EXTRACT requires the first argument to be a text field name"@),
            }
        }
    } else if eq_ignore_case(f.name@, "JSONB_TEXT_OR_FIRST"@) {
        if f.args.len() != 2 {
            Err("JSONB_TEXT_OR_FIRST requires a JSONB expression and preferred key"@)
        } else {
            match f.args@[1] {
                Expr::Value(DbValue::Text(key)) => match expr_sql(f.args@[0], n) {
                    Err(m) => Err(m),
                    Ok((s, b)) => {
                        let k = bind(text_value(key), n + b.len());
                        Ok((
                            "COALESCE(("@ + s + ")->>"@ + k.0 + ", (SELECT value FROM jsonb_each_text("@ + s
                                + ") LIMIT 1))"@,
                            b + k.1,
                        ))
                    },
                },
                _ => Err("JSONB_TEXT_OR_FIRST requires the second argument to be a text key"@),
            }
        }
    } else {
        match exprs_sql(f.args@, 0, ", "@, n) {
            Err(m) => Err(m),
            Ok((s, b)) => Ok((f.name@ + "("@ + s + ")"@, b)),
        }
    }
}

#[verifier::opaque]
pub open spec fn binary_sql(be: BinaryExpr, n: nat) -> Res
    decreases be, 1int,
{
    match expr_sql(*be.left, n) {
        Err(m) => Err(m),
        Ok((l, lb)) => match binary_op_sql(be.operator) {
            Err(m) => Err(m),
            Ok(op) => match expr_sql(*be.right, n + lb.len()) {
                Err(m) => Err(m),
                Ok((r, rb)) => Ok(("("@ + l + " "@ + op + " "@ + r + ")"@, lb + rb)),
            },
        },
    }
}

/// Present segments joined by one space.
pub open spec fn space_join(a: Seq<char>, b: Seq<char>) -> Seq<char> {
    if a.len() == 0 {
        b
    } else if b.len() == 0 {
        a
    } else {
        a + " "@ + b
    }
}

/// `PARTITION BY ...`, `ORDER BY ...` and the frame, each when present.
#[verifier::opaque]
pub open spec fn window_spec_sql(w: WindowSpec, n: nat) -> Res
    decreases w, 1int,
{
    match (if w.partition_by.len() == 0 { lit(Seq::empty()) } else {
        match exprs_sql(w.partition_by@, 0, ", "@, n) {
            Err(m) => Err(m),
            Ok((s, b)) => Ok(("PARTITION BY "@ + s, b)),
        }
    }) {
        Err(m) => Err(m),
        Ok((p, pb)) => match (if w.order_by.len() == 0 { lit(Seq::empty()) } else {
            match orders_sql(w.order_by@, 0, n + pb.len()) {
                Err(m) => Err(m),
                Ok((s, b)) => Ok(("ORDER BY "@ + s, b)),
            }
        }) {
            Err(m) => Err(m),
            Ok((o, ob)) => {
                let f = match w.frame {
                    Some(fr) => frame_sql(fr),
                    None => Seq::<char>::empty(),
                };
                Ok((space_join(space_join(p, o), f), pb + ob))
            },
        },
    }
}

pub open spec fn json_predicate_sql(e: Seq<char>, op: JsonPredicateOp, v: JsonPredicateValue, n: nat) -> Res {
    match (op, v) {
        (JsonPredicateOp::Contains, JsonPredicateValue::Json(j)) => {
            let x = bind(DbValueView::Json(j@), n);
            Ok((e + " @> "@ + x.0, x.1))
        },
        (JsonPredicateOp::ContainedBy, JsonPredicateValue::Json(j)) => {
            let x = bind(DbValueView::Json(j@), n);
            Ok((e + " <@ "@ + x.0, x.1))
        },
        (JsonPredicateOp::HasKey, JsonPredicateValue::Key(k)) => {
            let x = bind(text_value(k), n);
            Ok((e + " ? "@ + x.0, x.1))
        },
        (JsonPredicateOp::HasAnyKeys, JsonPredicateValue::Keys(ks)) => {
            let x = text_array(ks@, n);
            Ok((e + " ?| "@ + x.0, x.1))
        },
        (JsonPredicateOp::HasAllKeys, JsonPredicateValue::Keys(ks)) => {
            let x = text_array(ks@, n);
            Ok((e + " ?& "@ + x.0, x.1))
        },
        _ => Err("json predicate received an incompatible value shape"@),
    }
}

/// The SQL of a condition.
#[verifier::opaque]
pub open spec fn condition_sql(c: Condition, n: nat) -> Res
    decreases c, 1int,
{
    match c {
        Condition::Comparison { left, op, right } => match expr_sql(left, n) {
            Err(m) => Err(m),
            Ok((l, lb)) => match expr_sql(right, n + lb.len()) {
                Err(m) => Err(m),
                Ok((r, rb)) => if op == ComparisonOp::IEq {
                    Ok(("LOWER("@ + l + ") = LOWER("@ + r + ")"@, lb + rb))
                } else {
                    Ok((l + " "@ + comparison_sql(op) + " "@ + r, lb + rb))
                },
            },
        },
        Condition::InList { expr, values } => if values.len() == 0 {
            lit("FALSE"@)
        } else {
            match expr_sql(expr, n) {
                Err(m) => Err(m),
                Ok((e, eb)) => {
                    let vs = bind_list(values@, 0, n + eb.len());
                    Ok((e + " IN ("@ + vs.0 + ")"@, eb + vs.1))
                },
            }
        },
        Condition::JsonPredicate { expr, op, value } => match expr_sql(expr, n) {
            Err(m) => Err(m),
            Ok((e, eb)) => match json_predicate_sql(e, op, value, n + eb.len()) {
                Err(m) => Err(m),
                Ok((s, b)) => Ok((s, eb + b)),
            },
        },
        Condition::FullText { columns, query } => if columns.len() == 0 {
            lit("FALSE"@)
        } else {
            let q = bind(text_value(query), n);
            Ok((
                "to_tsvector('english'::regconfig, "@ + document_sql(columns@, 0)
                    + ") @@ plainto_tsquery('english'::regconfig, "@ + q.0 + ")"@,
                q.1,
            ))
        },
        Condition::And(cs) => if cs.len() == 0 {
            lit("TRUE"@)
        } else {
            match conditions_sql(cs@, 0, " AND "@, n) {
                Err(m) => Err(m),
                Ok((s, b)) => Ok(("("@ + s + ")"@, b)),
            }
        },
        Condition::Or(cs) => if cs.len() == 0 {
            lit("FALSE"@)
        } else {
            match conditions_sql(cs@, 0, " OR "@, n) {
                Err(m) => Err(m),
                Ok((s, b)) => Ok(("("@ + s + ")"@, b)),
            }
        },
        Condition::Not(inner) => match condition_sql(*inner, n) {
            Err(m) => Err(m),
            Ok((s, b)) => Ok(("NOT ("@ + s + ")"@, b)),
        },
        Condition::IsNull(e) => match expr_sql(e, n) {
            Err(m) => Err(m),
            Ok((s, b)) => Ok((s + " IS NULL"@, b)),
        },
        Condition::IsNotNull(e) => match expr_sql(e, n) {
            Err(m) => Err(m),
            Ok((s, b)) => Ok((s + " IS NOT NULL"@, b)),
        },
        Condition::Exists(q) => match query_sql(*q, n) {
            Err(m) => Err(m),
            Ok((s, b)) => Ok(("EXISTS ("@ + s + ")"@, b)),
        },
        Condition::Raw { sql, bindings } => if count_char(sql@, '?') != bindings.len() {
            Err(raw_mismatch_error(count_char(sql@, '?'), bindings.len() as nat))
        } else {
            Ok(raw_sql(sql@, bindings@, n))
        },
    }
}

/// The SQL of an expression.
#[verifier::opaque]
pub open spec fn expr_sql(e: Expr, n: nat) -> Res
    decreases e, 1int,
{
    match e {
        Expr::Column(c) => lit(column_sql(c)),
        Expr::Excluded(c) => lit("EXCLUDED."@ + quote_ident(c.name@)),
        Expr::Value(v) => Ok(bind(v@, n)),
        Expr::Cast { expr, db_type } => match expr_sql(*expr, n) {
            Err(m) => Err(m),
            Ok((s, b)) => Ok(("("@ + s + ")::"@ + cast_name(db_type), b)),
        },
        Expr::Aggregate(a) => aggregate_sql(a, n),
        Expr::Function(f) => function_sql(*f, n),
        Expr::Unary(u) => match expr_sql(*u.expr, n) {
            Err(m) => Err(m),
            Ok((s, b)) => match u.operator {
                UnaryOperator::Not => Ok(("NOT ("@ + s + ")"@, b)),
                UnaryOperator::Negate => Ok(("-("@ + s + ")"@, b)),
            },
        },
        Expr::Binary(be) => binary_sql(*be, n),
        Expr::Subquery(q) => match query_sql(*q, n) {
            Err(m) => Err(m),
            Ok((s, b)) => Ok(("("@ + s + ")"@, b)),
        },
        Expr::Window(w) => match expr_sql(*w.function, n) {
            Err(m) => Err(m),
            Ok((f, fb)) => match window_spec_sql(w.window, n + fb.len()) {
                Err(m) => Err(m),
                Ok((s, b)) => Ok((f + " OVER ("@ + s + ")"@, fb + b)),
            },
        },
        Expr::Case(c) => case_sql(*c, n),
        Expr::JsonPath(p) => match expr_sql(*p.expr, n) {
            Err(m) => Err(m),
            Ok((s, b)) => if p.path.len() == 0 {
                match p.mode {
                    JsonPathMode::Json => Ok((s, b)),
                    JsonPathMode::Text => Ok(("("@ + s + ")::text"@, b)),
                }
            } else {
                let r = json_path_sql(s, p.path@, 0, p.mode, n + b.len());
                Ok((r.0, b + r.1))
            },
        },
        Expr::Raw(s) => lit(s@),
    }
}


proof fn lemma_raw_sql_binds_all(sql: Seq<char>, vs: Seq<DbValue>, n: nat)
    requires
        count_char(sql, '?') == vs.len(),
    ensures
        raw_sql(sql, vs, n).1 == views(vs),
    decreases sql.len(),
{
    if sql.len() == 0 {
        assert(views(vs) =~= Seq::<DbValueView>::empty());
    } else {
        let rest = sql.subrange(1, sql.len() as int);
        if sql[0] == '?' {
            let tail = vs.subrange(1, vs.len() as int);
            lemma_raw_sql_binds_all(rest, tail, n + 1);
            assert(seq![vs[0]@] + views(tail) =~= views(vs));
        } else {
            lemma_raw_sql_binds_all(rest, vs, n);
        }
    }
}

/// A raw condition compiles exactly when its text holds one `?` per
/// binding; it then binds its values, in their order and nothing else, and
/// otherwise it is refused with the two counts.
pub proof fn law_raw_condition_binds_its_values(sql: String, bindings: Vec<DbValue>, n: nat)
    ensures
        (condition_sql(Condition::Raw { sql, bindings }, n) is Ok) <==> count_char(sql@, '?')
            == bindings.len(),
        count_char(sql@, '?') != bindings.len() ==> condition_sql(Condition::Raw { sql, bindings }, n)
            == Res::Err(raw_mismatch_error(count_char(sql@, '?'), bindings.len() as nat)),
        condition_sql(Condition::Raw { sql, bindings }, n) matches Ok((_, b)) ==> b == views(bindings@),
{
    reveal(condition_sql);
    if count_char(sql@, '?') == bindings.len() {
        lemma_raw_sql_binds_all(sql@, bindings@, n);
    }
}

/// Empty groups compile to their identity: an empty conjunction is `TRUE`,
/// an empty disjunction, an `IN` over no values and a full-text search over
/// no columns are `FALSE`, and none of them binds a value.
pub proof fn law_empty_condition_groups(
    conditions: Vec<Condition>,
    expr: Expr,
    values: Vec<DbValue>,
    columns: Vec<ColumnRef>,
    query: String,
    n: nat,
)
    requires
        conditions.len() == 0,
        values.len() == 0,
        columns.len() == 0,
    ensures
        condition_sql(Condition::And(conditions), n) == lit("TRUE"@),
        condition_sql(Condition::Or(conditions), n) == lit("FALSE"@),
        condition_sql(Condition::InList { expr, values }, n) == lit("FALSE"@),
        condition_sql(Condition::FullText { columns, query }, n) == lit("FALSE"@),
{
    reveal(condition_sql);
}


/// Whether `t` begins with `p`.
pub open spec fn begins_with(t: Seq<char>, p: Seq<char>) -> bool {
    p.len() <= t.len() && t.subrange(0, p.len() as int) == p
}

/// Whether `t` ends with `p`.
pub open spec fn ends_with(t: Seq<char>, p: Seq<char>) -> bool {
    p.len() <= t.len() && t.subrange(t.len() - p.len(), t.len() as int) == p
}

/// A row lock opens with the keyword of its strength: `FOR UPDATE`,
/// `FOR NO KEY UPDATE`, `FOR SHARE` or `FOR KEY SHARE`, four different
/// openings; and a select that takes a lock ends with it, after one space.
#[verifier::spinoff_prover]
pub proof fn law_row_lock_keywords(l: LockClause, s: SelectNode, n: nat)
    ensures
        l.strength == LockStrength::Update ==> begins_with(lock_sql(l), "FOR UPDATE"@),
        l.strength == LockStrength::NoKeyUpdate ==> begins_with(lock_sql(l), "FOR NO KEY UPDATE"@),
        l.strength == LockStrength::Share ==> begins_with(lock_sql(l), "FOR SHARE"@),
        l.strength == LockStrength::KeyShare ==> begins_with(lock_sql(l), "FOR KEY SHARE"@),
        l.strength != LockStrength::Update ==> !begins_with(lock_sql(l), "FOR UPDATE"@),
        l.strength != LockStrength::Share ==> !begins_with(lock_sql(l), "FOR SHARE"@),
        l.strength != LockStrength::NoKeyUpdate ==> !begins_with(lock_sql(l), "FOR NO KEY UPDATE"@),
        l.strength != LockStrength::KeyShare ==> !begins_with(lock_sql(l), "FOR KEY SHARE"@),
        s.lock == Some(l) ==> (select_sql(s, n) matches Ok(o) ==> ends_with(o.0, " "@ + lock_sql(l))),
{
    reveal_strlit("FOR UPDATE");
    reveal_strlit("FOR NO KEY UPDATE");
    reveal_strlit("FOR SHARE");
    reveal_strlit("FOR KEY SHARE");
    let k = match l.strength {
        LockStrength::Update => "FOR UPDATE"@,
        LockStrength::NoKeyUpdate => "FOR NO KEY UPDATE"@,
        LockStrength::Share => "FOR SHARE"@,
        LockStrength::KeyShare => "FOR KEY SHARE"@,
    };
    let t = lock_sql(l);
    assert(t.subrange(0, k.len() as int) =~= k);
    assert(t.len() >= k.len());
    assert(t[4] == k[4]);
    let ku = "FOR UPDATE"@;
    let kn = "FOR NO KEY UPDATE"@;
    let ks = "FOR SHARE"@;
    let kk = "FOR KEY SHARE"@;
    if begins_with(t, ku) {
        assert(t.subrange(0, ku.len() as int)[4] == t[4]);
    }
    if begins_with(t, kn) {
        assert(t.subrange(0, kn.len() as int)[4] == t[4]);
    }
    if begins_with(t, ks) {
        assert(t.subrange(0, ks.len() as int)[4] == t[4]);
    }
    if begins_with(t, kk) {
        assert(t.subrange(0, kk.len() as int)[4] == t[4]);
    }
    if s.lock == Some(l) {
        reveal_with_fuel(select_sql, 1);
        reveal_with_fuel(select_filters_sql, 1);
        match select_sql(s, n) {
            Err(_) => {},
            Ok(o) => {
                let lk = " "@ + lock_sql(l);
                match projection_sql(s, n) {
                    Err(_) => {},
                    Ok((p, pb)) => match from_item_sql(s.from, n + pb.len()) {
                        Err(_) => {},
                        Ok((f, fb)) => match joins_sql(s.joins@, 0, n + pb.len() + fb.len()) {
                            Err(_) => {},
                            Ok((j, jb)) => {
                                let m = n + pb.len() + fb.len() + jb.len();
                                match opt_condition_sql(s.condition, " WHERE "@, m) {
                                    Err(_) => {},
                                    Ok((w, wb)) => match group_by_sql(s.group_by@, m + wb.len()) {
                                        Err(_) => {},
                                        Ok((g, gb)) => match opt_condition_sql(s.having, " HAVING "@, m + wb.len() + gb.len()) {
                                            Err(_) => {},
                                            Ok((h, hb)) => match order_limit_offset_sql(
                                                s.order_by@,
                                                s.limit,
                                                s.offset,
                                                m + wb.len() + gb.len() + hb.len(),
                                            ) {
                                                Err(_) => {},
                                                Ok((od, ob)) => {
                                                    let distinct = if s.distinct { "DISTINCT "@ } else { Seq::<char>::empty() };
                                                    let head = "SELECT "@ + distinct + p + " FROM "@ + f + j + (w + g + h + od);
                                                    assert(o.0 =~= head + lk);
                                                    assert(o.0.subrange(o.0.len() - lk.len(), o.0.len() as int) =~= lk);
                                                },
                                            },
                                        },
                                    },
                                }
                            },
                        },
                    },
                }
            },
        }
    }
}

/// The comparison operators are written as PostgreSQL writes them, each
/// its own; a comparison other than the case-insensitive one is its left
/// side, the operator between single spaces, and its right side.
#[verifier::spinoff_prover]
pub proof fn law_comparison_operators(left: Expr, op: ComparisonOp, right: Expr, n: nat)
    ensures
        comparison_sql(ComparisonOp::Eq) == "="@,
        comparison_sql(ComparisonOp::NotEq) == "<>"@,
        comparison_sql(ComparisonOp::Lt) == "<"@,
        comparison_sql(ComparisonOp::Lte) == "<="@,
        comparison_sql(ComparisonOp::Gt) == ">"@,
        comparison_sql(ComparisonOp::Gte) == ">="@,
        comparison_sql(ComparisonOp::Like) == "LIKE"@,
        comparison_sql(ComparisonOp::NotLike) == "NOT LIKE"@,
        comparison_sql(ComparisonOp::ILike) == "ILIKE"@,
        forall|a: ComparisonOp, b: ComparisonOp|
            a != b && a != ComparisonOp::IEq && b != ComparisonOp::IEq ==> #[trigger] comparison_sql(a)
                != #[trigger] comparison_sql(b),
        op != ComparisonOp::IEq ==> (expr_sql(left, n) matches Ok((l, lb)) ==> (expr_sql(right, n + lb.len())
            matches Ok((r, rb)) ==> condition_sql(Condition::Comparison { left, op, right }, n) == Res::Ok(
            (l + " "@ + comparison_sql(op) + " "@ + r, lb + rb),
        ))),
{
    reveal_strlit("=");
    reveal_strlit("<>");
    reveal_strlit("<");
    reveal_strlit("<=");
    reveal_strlit(">");
    reveal_strlit(">=");
    reveal_strlit("LIKE");
    reveal_strlit("NOT LIKE");
    reveal_strlit("ILIKE");
    assert forall|a: ComparisonOp, b: ComparisonOp|
        a != b && a != ComparisonOp::IEq && b != ComparisonOp::IEq implies #[trigger] comparison_sql(a)
            != #[trigger] comparison_sql(b) by {
        let x = comparison_sql(a);
        let y = comparison_sql(b);
        if x == y {
            assert(x.len() == y.len());
            assert(x[0] == y[0]);
            assert(x[x.len() - 1] == y[y.len() - 1]);
        }
    }
    reveal_with_fuel(condition_sql, 1);
    if op != ComparisonOp::IEq {
        match expr_sql(left, n) {
            Err(_) => {},
            Ok((l, lb)) => match expr_sql(right, n + lb.len()) {
                Err(_) => {},
                Ok((r, rb)) => {
                    assert(condition_sql(Condition::Comparison { left, op, right }, n) == Res::Ok(
                        (l + " "@ + comparison_sql(op) + " "@ + r, lb + rb),
                    ));
                },
            },
        }
    }
}

/// `UNION` keeps the rows of its two sides without their duplicates and
/// `UNION ALL` keeps them all: a set operation is its left side in
/// parentheses, `UNION` or `UNION ALL`, its right side in parentheses, and
/// its ordering and limits.
#[verifier::spinoff_prover]
pub proof fn law_set_operation_keywords(s: SetOperationNode, n: nat)
    ensures
        query_sql(*s.left, n) matches Ok((l, lb)) ==> (query_sql(*s.right, n + lb.len()) matches Ok((r, rb)) ==> (
        order_limit_offset_sql(s.order_by@, s.limit, s.offset, n + lb.len() + rb.len()) matches Ok((o, ob)) ==> {
            &&& s.operator == SetOperator::Union ==> set_operation_sql(s, n) == Res::Ok(
                ("("@ + l + ") UNION ("@ + r + ")"@ + o, lb + rb + ob),
            )
            &&& s.operator == SetOperator::UnionAll ==> set_operation_sql(s, n) == Res::Ok(
                ("("@ + l + ") UNION ALL ("@ + r + ")"@ + o, lb + rb + ob),
            )
        })),
{
    reveal_with_fuel(set_operation_sql, 1);
    reveal_strlit("UNION");
    reveal_strlit("UNION ALL");
    reveal_strlit(") ");
    reveal_strlit(" (");
    reveal_strlit(") UNION (");
    reveal_strlit(") UNION ALL (");
    match query_sql(*s.left, n) {
        Err(_) => {},
        Ok((l, lb)) => match query_sql(*s.right, n + lb.len()) {
            Err(_) => {},
            Ok((r, rb)) => match order_limit_offset_sql(s.order_by@, s.limit, s.offset, n + lb.len() + rb.len()) {
                Err(_) => {},
                Ok((o, ob)) => {
                    let op = match s.operator {
                        SetOperator::Union => "UNION"@,
                        SetOperator::UnionAll => "UNION ALL"@,
                    };
                    assert(set_operation_sql(s, n) == Res::Ok(
                        ("("@ + l + ") "@ + op + " ("@ + r + ")"@ + o, lb + rb + ob),
                    ));
                    if s.operator == SetOperator::Union {
                        assert(") "@ + op + " ("@ =~= ") UNION ("@);
                        assert("("@ + l + ") "@ + op + " ("@ + r + ")"@ + o =~= "("@ + l + ") UNION ("@ + r + ")"@ + o);
                    } else {
                        assert(") "@ + op + " ("@ =~= ") UNION ALL ("@);
                        assert("("@ + l + ") "@ + op + " ("@ + r + ")"@ + o =~= "("@ + l + ") UNION ALL ("@ + r + ")"@ + o);
                    }
                },
            },
        },
    }
}

/// The fixed words of the SQL: aggregate functions, join kinds, window
/// frames, arithmetic operators and lock behaviours are written as
/// PostgreSQL spells them; an ordering is its expression followed by `ASC`
/// or `DESC`.
#[verifier::spinoff_prover]
pub proof fn law_sql_keywords(l: LockClause, o: OrderBy, n: nat)
    ensures
        aggregate_fn_sql(AggregateFn::Count) == "COUNT"@,
        aggregate_fn_sql(AggregateFn::Sum) == "SUM"@,
        aggregate_fn_sql(AggregateFn::Avg) == "AVG"@,
        aggregate_fn_sql(AggregateFn::Min) == "MIN"@,
        aggregate_fn_sql(AggregateFn::Max) == "MAX"@,
        join_kind_sql(JoinKind::Inner) == "INNER JOIN"@,
        join_kind_sql(JoinKind::Left) == "LEFT JOIN"@,
        join_kind_sql(JoinKind::Right) == "RIGHT JOIN"@,
        join_kind_sql(JoinKind::Full) == "FULL OUTER JOIN"@,
        join_kind_sql(JoinKind::Cross) == "CROSS JOIN"@,
        frame_units_sql(WindowFrameUnits::Rows) == "ROWS"@,
        frame_units_sql(WindowFrameUnits::Range) == "RANGE"@,
        frame_bound_sql(WindowFrameBound::UnboundedPreceding) == "UNBOUNDED PRECEDING"@,
        frame_bound_sql(WindowFrameBound::CurrentRow) == "CURRENT ROW"@,
        frame_bound_sql(WindowFrameBound::UnboundedFollowing) == "UNBOUNDED FOLLOWING"@,
        forall|v: u64| #[trigger] frame_bound_sql(WindowFrameBound::Preceding(v)) == dec(v as nat) + " PRECEDING"@,
        forall|v: u64| #[trigger] frame_bound_sql(WindowFrameBound::Following(v)) == dec(v as nat) + " FOLLOWING"@,
        binary_op_sql(BinaryOperator::Add) == Result::<Seq<char>, Seq<char>>::Ok("+"@),
        binary_op_sql(BinaryOperator::Subtract) == Result::<Seq<char>, Seq<char>>::Ok("-"@),
        binary_op_sql(BinaryOperator::Multiply) == Result::<Seq<char>, Seq<char>>::Ok("*"@),
        binary_op_sql(BinaryOperator::Divide) == Result::<Seq<char>, Seq<char>>::Ok("/"@),
        binary_op_sql(BinaryOperator::Concat) == Result::<Seq<char>, Seq<char>>::Ok("||"@),
        l.behavior == LockBehavior::NoWait ==> ends_with(lock_sql(l), " NOWAIT"@),
        l.behavior == LockBehavior::SkipLocked ==> ends_with(lock_sql(l), " SKIP LOCKED"@),
        l.behavior == LockBehavior::Wait && l.of.len() == 0 && l.strength == LockStrength::Update ==> lock_sql(l) == "FOR UPDATE"@,
        l.behavior == LockBehavior::Wait && l.of.len() == 0 && l.strength == LockStrength::NoKeyUpdate ==> lock_sql(l) == "FOR NO KEY UPDATE"@,
        l.behavior == LockBehavior::Wait && l.of.len() == 0 && l.strength == LockStrength::Share ==> lock_sql(l) == "FOR SHARE"@,
        l.behavior == LockBehavior::Wait && l.of.len() == 0 && l.strength == LockStrength::KeyShare ==> lock_sql(l) == "FOR KEY SHARE"@,
        expr_sql(o.expr, n) matches Ok((s, b)) ==> order_sql(o, n) == Res::Ok((
            s + (if o.direction == OrderDirection::Asc { " ASC"@ } else { " DESC"@ }),
            b,
        )),
{
    reveal_with_fuel(order_sql, 1);
    reveal_strlit(" ");
    reveal_strlit("ASC");
    reveal_strlit("DESC");
    reveal_strlit(" ASC");
    reveal_strlit(" DESC");
    let t = lock_sql(l);
    match l.behavior {
        LockBehavior::NoWait => {
            let p = " NOWAIT"@;
            assert(t.subrange(t.len() - p.len(), t.len() as int) =~= p);
        },
        LockBehavior::SkipLocked => {
            let p = " SKIP LOCKED"@;
            assert(t.subrange(t.len() - p.len(), t.len() as int) =~= p);
        },
        LockBehavior::Wait => {},
    }
    match expr_sql(o.expr, n) {
        Err(_) => {},
        Ok((s, b)) => {
            assert(" "@ + "ASC"@ =~= " ASC"@);
            assert(" "@ + "DESC"@ =~= " DESC"@);
            assert(s + " "@ + "ASC"@ =~= s + " ASC"@);
            assert(s + " "@ + "DESC"@ =~= s + " DESC"@);
        },
    }
}

proof fn lemma_quote_body_injective(a: Seq<char>, b: Seq<char>)
    requires
        quote_body(a) == quote_body(b),
    ensures
        a == b,
    decreases a.len(),
{
    reveal_strlit("\".\"");
    reveal_strlit("\"\"");
    if a.len() == 0 {
        if b.len() > 0 {
            assert(quote_body(b).len() >= 1);
        }
        assert(b =~= a);
    } else {
        if b.len() == 0 {
            assert(quote_body(a).len() >= 1);
        }
        let qa = quote_char(a[0]);
        let qb = quote_char(b[0]);
        let ra = a.subrange(1, a.len() as int);
        let rb = b.subrange(1, b.len() as int);
        let body = quote_body(a);
        assert(body == qa + quote_body(ra));
        assert(body == qb + quote_body(rb));
        assert(body[0] == qa[0] && body[0] == qb[0]);
        if qa.len() > 1 && qb.len() > 1 {
            assert(body[1] == qa[1] && body[1] == qb[1]);
        }
        assert(a[0] == b[0]);
        assert(quote_body(ra) =~= body.subrange(qa.len() as int, body.len() as int));
        assert(quote_body(rb) =~= body.subrange(qb.len() as int, body.len() as int));
        lemma_quote_body_injective(ra, rb);
        assert(a =~= seq![a[0]] + ra);
        assert(b =~= seq![b[0]] + rb);
    }
}

/// An accepted custom operator cannot break out of its expression: it holds
/// no quote, semicolon, parenthesis, comma or line break, and opens no
/// comment.
pub proof fn law_accepted_operator_cannot_break_out(op: Seq<char>)
    requires
        custom_operator_ok(op),
    ensures
        forall|i: int| 0 <= i < op.len() ==> {
            let c = #[trigger] op[i];
            c != '\'' && c != '"' && c != ';' && c != '(' && c != ')' && c != ',' && c != '\n' && c != '\r'
        },
        !contains_pair(op, '-', '-'),
        !contains_pair(op, '/', '*'),
{
}

/// Quoting keeps identifiers apart: two names quote to the same SQL
/// identifier only when they are the same name.
pub proof fn law_identifier_quoting_is_injective(a: Seq<char>, b: Seq<char>)
    ensures
        quote_ident(a) == quote_ident(b) ==> a == b,
{
    reveal_strlit("\"");
    if quote_ident(a) == quote_ident(b) {
        let qa = quote_ident(a);
        assert(quote_body(a) =~= qa.subrange(1, qa.len() - 1));
        assert(quote_body(b) =~= qa.subrange(1, qa.len() - 1));
        lemma_quote_body_injective(a, b);
    }
}

} // verus!
