//! The PostgreSQL compiler: turns a query tree into SQL text with numbered,
//! typed placeholders and the list of values bound to them.
use vstd::prelude::*;

use crate::ast::{
    AggregateExpr, AggregateFn, AggregateNode, BinaryExpr, BinaryOperator, CaseExpr, CaseWhen,
    ColumnRef, ComparisonOp, Condition, CteMaterialization, CteNode, DbType, DbValue, DbValueView,
    DeleteNode, Expr, FromItem, FunctionCall, InsertNode, InsertSource, JoinKind, JoinNode,
    JsonPathExpr, JsonPathMode, JsonPathSegment, JsonPredicateOp, JsonPredicateValue,
    LockBehavior, LockClause, LockStrength, OnConflictAction, OnConflictNode, OnConflictTarget,
    OrderBy, OrderDirection, QueryAst, QueryBody, SelectItem, SelectNode, SetOperationNode,
    SetOperator, TableRef, UnaryOperator, UpdateNode, WindowFrame, WindowFrameBound,
    WindowFrameUnits, WindowSpec,
};
use crate::ast::{chars_of, count_char, count_occurrences};
use crate::error::Error;
use crate::sql_model::{
    aggregate_fn_sql,
    aggregate_node_sql,
    aggregate_nodes_sql,
    aggregate_sql,
    aggregate_type,
    any_recursive,
    assignments_sql,
    binary_op_sql,
    binary_sql,
    bind,
    bind_list,
    bind_text_list,
    body_sql,
    case_sql,
    column_name_sql,
    column_sql,
    comparison_sql,
    condition_sql,
    conditions_sql,
    conflict_target_sql,
    contains_pair,
    cte_sql,
    ctes_sql,
    custom_operator_error,
    custom_operator_ok,
    delete_sql,
    document_sql,
    expr_sql,
    expr_type,
    exprs_sql,
    extract_field_error,
    extract_fields,
    first_repeat,
    frame_bound_sql,
    frame_sql,
    frame_units_sql,
    from_item_sql,
    from_items_sql,
    from_list_sql,
    function_sql,
    group_by_sql,
    insert_source_sql,
    insert_sql,
    is_extract_field,
    item_sql,
    items_sql,
    join_kind_sql,
    join_sql,
    joins_sql,
    json_path_sql,
    json_predicate_sql,
    limit_value,
    lit,
    lock_sql,
    name_count,
    name_pos,
    numeric_as_text,
    on_conflict_sql,
    operator_char_ok,
    opt_condition_sql,
    order_limit_offset_sql,
    order_sql,
    orders_sql,
    placeholder,
    projection_sql,
    query_sql,
    quote_body,
    quote_char,
    quote_ident,
    quoted_columns,
    quoted_names,
    raw_mismatch_error,
    raw_sql,
    repeats_earlier,
    returning_sql,
    row_column_error,
    row_error,
    row_exprs_sql,
    row_names_sql,
    rows_error,
    select_column_names,
    select_columns_ok,
    select_filters_sql,
    select_sql,
    set_operation_sql,
    space_join,
    table_sql,
    text_array,
    text_value,
    update_sql,
    value_rows_sql,
    values_error,
    views,
    whens_sql,
    widened_sum_type,
    window_spec_sql,
    Out,
    Res,
};
use crate::text::{
    dec, eq_ignore_case, idec, owned, push_char, push_decimal, push_signed_decimal,
    str_eq_ignore_ascii_case,
};

verus! {

/// The result of compiling a query: the SQL text and its bound values in
/// placeholder order.
#[derive(Clone, Debug, PartialEq)]
pub struct CompiledSql {
    pub sql: String,
    pub bindings: Vec<DbValue>,
}

/// Whether an exec result matches the denoted SQL: on success the text is
/// the denoted text and the bindings grew by the denoted values; on failure
/// the message is the denoted one.
pub open spec fn outcome(r: Result<String, Error>, pre: Seq<DbValueView>, post: Seq<DbValueView>, want: Res) -> bool {
    match want {
        Ok((s, b)) => r matches Ok(x) && x@ == s && post == pre + b,
        Err(m) => r matches Err(e) && e.is_plain() && e@ == m,
    }
}

proof fn lemma_quote_body_push(s: Seq<char>, c: char)
    ensures
        quote_body(s.push(c)) == quote_body(s) + quote_char(c),
    decreases s.len(),
{
    if s.len() == 0 {
        assert(s.push(c).subrange(1, 1) =~= Seq::<char>::empty());
        assert(quote_body(Seq::<char>::empty()) == Seq::<char>::empty());
        assert(quote_body(s.push(c)) =~= quote_char(c));
    } else {
        let t = s.subrange(1, s.len() as int);
        lemma_quote_body_push(t, c);
        assert(s.push(c).subrange(1, (s.len() + 1) as int) =~= t.push(c));
        assert(quote_body(s.push(c)) =~= quote_char(s[0]) + quote_body(t.push(c)));
    }
}

/// Appends `ident` as a quoted identifier.
pub fn push_quoted(out: &mut String, ident: &str)
    ensures
        final(out)@ == old(out)@ + quote_ident(ident@),
{
    let ghost start = out@;
    out.append("\"");
    let n = ident.unicode_len();
    let mut i: usize = 0;
    proof {
        assert(ident@.subrange(0, 0) =~= Seq::<char>::empty());
        assert(out@ =~= start + "\""@ + quote_body(ident@.subrange(0, 0)));
    }
    while i < n
        invariant
            n == ident@.len(),
            i <= n,
            out@ == start + "\""@ + quote_body(ident@.subrange(0, i as int)),
        decreases n - i,
    {
        let c = ident.get_char(i);
        let ghost before = out@;
        if c == '.' {
            out.append("\".\"");
        } else if c == '"' {
            out.append("\"\"");
        } else {
            push_char(out, c);
        }
        proof {
            assert(ident@.subrange(0, i + 1) =~= ident@.subrange(0, i as int).push(c));
            lemma_quote_body_push(ident@.subrange(0, i as int), c);
            assert(out@ =~= before + quote_char(c));
        }
        i = i + 1;
    }
    out.append("\"");
    proof {
        assert(ident@.subrange(0, n as int) =~= ident@);
        assert(final(out)@ =~= start + quote_ident(ident@)) by {
            assert(out@ =~= start + quote_ident(ident@));
        }
    }
}

/// The quoted form of an identifier: each dot-separated part in double
/// quotes, with double quotes inside doubled.
pub fn quote_identifier(ident: &str) -> (s: String)
    ensures
        s@ == quote_ident(ident@),
{
    let mut s = String::new();
    push_quoted(&mut s, ident);
    proof {
        assert(s@ =~= quote_ident(ident@));
    }
    s
}

fn extract_field(i: usize) -> (f: &'static str)
    requires
        i < 22,
    ensures
        f@ == extract_fields()[i as int],
{
    if i == 0 { "century" }
    else if i == 1 { "day" }
    else if i == 2 { "decade" }
    else if i == 3 { "dow" }
    else if i == 4 { "doy" }
    else if i == 5 { "epoch" }
    else if i == 6 { "hour" }
    else if i == 7 { "isodow" }
    else if i == 8 { "isoyear" }
    else if i == 9 { "julian" }
    else if i == 10 { "microseconds" }
    else if i == 11 { "millennium" }
    else if i == 12 { "milliseconds" }
    else if i == 13 { "minute" }
    else if i == 14 { "month" }
    else if i == 15 { "quarter" }
    else if i == 16 { "second" }
    else if i == 17 { "timezone" }
    else if i == 18 { "timezone_hour" }
    else if i == 19 { "timezone_minute" }
    else if i == 20 { "week" }
    else { "year" }
}

/// Accepts the date/time fields of `EXTRACT`, in any ASCII case.
pub fn validate_extract_field(field: &str) -> (r: Result<(), Error>)
    ensures
        is_extract_field(field@) ==> r is Ok,
        !is_extract_field(field@) ==> (r matches Err(e) && e.is_plain() && e@ == extract_field_error(field@)),
{
    let mut i: usize = 0;
    while i < 22
        invariant
            i <= 22,
            extract_fields().len() == 22,
            forall|j: int| 0 <= j < i ==> !eq_ignore_case(#[trigger] extract_fields()[j], field@),
        decreases 22 - i,
    {
        if str_eq_ignore_ascii_case(extract_field(i), field) {
            return Ok(());
        }
        i = i + 1;
    }
    let mut m = owned("EXTRACT field `");
    m.append(field);
    m.append("` is not a recognized date/time field");
    proof {
        assert(m@ =~= extract_field_error(field@));
    }
    Err(Error::message(m))
}

fn operator_char(c: char) -> (b: bool)
    ensures
        b == operator_char_ok(c),
{
    ('0' <= c && c <= '9') || ('a' <= c && c <= 'z') || ('A' <= c && c <= 'Z') || c == '_'
        || c == ' ' || c == '+' || c == '-' || c == '*' || c == '/' || c == '<' || c == '>'
        || c == '=' || c == '~' || c == '!' || c == '@' || c == '#' || c == '%' || c == '^'
        || c == '&' || c == '|' || c == '`' || c == '?'
}

fn all_operator_chars(op: &str) -> (b: bool)
    ensures
        b == forall|j: int| 0 <= j < op@.len() ==> operator_char_ok(#[trigger] op@[j]),
{
    let n = op.unicode_len();
    let mut i: usize = 0;
    while i < n
        invariant
            n == op@.len(),
            i <= n,
            forall|j: int| 0 <= j < i ==> operator_char_ok(#[trigger] op@[j]),
        decreases n - i,
    {
        if !operator_char(op.get_char(i)) {
            return false;
        }
        i = i + 1;
    }
    true
}

fn has_pair(op: &str, a: char, b: char) -> (r: bool)
    ensures
        r == contains_pair(op@, a, b),
{
    let n = op.unicode_len();
    let mut i: usize = 1;
    while i < n
        invariant
            n == op@.len(),
            1 <= i,
            i <= n || n == 0,
            forall|j: int| 0 <= j && j + 1 < i && j + 1 < n ==> !(op@[j] == a && #[trigger] op@[j + 1] == b),
        decreases n - i,
    {
        if op.get_char(i - 1) == a && op.get_char(i) == b {
            proof {
                let j = (i - 1) as int;
                assert(op@[j] == a && op@[j + 1] == b);
            }
            return true;
        }
        i = i + 1;
    }
    false
}

/// Accepts custom operators made of operator characters that open no comment.
pub fn validate_custom_operator(op: &str) -> (r: Result<(), Error>)
    ensures
        custom_operator_ok(op@) ==> r is Ok,
        !custom_operator_ok(op@) ==> (r matches Err(e) && e.is_plain() && e@ == custom_operator_error(op@)),
{
    let n = op.unicode_len();
    let ok = n > 0 && all_operator_chars(op) && !has_pair(op, '-', '-') && !has_pair(op, '/', '*');
    if !ok {
        let mut m = owned("custom SQL operator `");
        m.append(op);
        m.append("` contains unsupported characters");
        proof {
            assert(m@ =~= custom_operator_error(op@));
        }
        return Err(Error::message(m));
    }
    Ok(())
}

fn push_column_name(out: &mut String, c: &ColumnRef)
    ensures
        final(out)@ == old(out)@ + column_name_sql(*c),
{
    let ghost start = out@;
    match &c.table {
        Some(t) => {
            push_quoted(out, t.as_str());
            out.append(".");
            push_quoted(out, c.name.as_str());
            proof {
                assert(out@ =~= start + column_name_sql(*c));
            }
        },
        None => {
            push_quoted(out, c.name.as_str());
        },
    }
}

fn push_column(out: &mut String, c: &ColumnRef)
    ensures
        final(out)@ == old(out)@ + column_sql(*c),
{
    let ghost start = out@;
    push_column_name(out, c);
    match &c.alias {
        Some(a) => {
            out.append(" AS ");
            push_quoted(out, a.as_str());
            proof {
                assert(out@ =~= start + column_sql(*c));
            }
        },
        None => {},
    }
}

fn push_table(out: &mut String, t: &TableRef)
    ensures
        final(out)@ == old(out)@ + table_sql(*t),
{
    let ghost start = out@;
    push_quoted(out, t.name.as_str());
    match &t.alias {
        Some(a) => {
            out.append(" AS ");
            push_quoted(out, a.as_str());
            proof {
                assert(out@ =~= start + table_sql(*t));
            }
        },
        None => {},
    }
}

fn comparison_op(op: ComparisonOp) -> (s: &'static str)
    ensures
        s@ == comparison_sql(op),
{
    match op {
        ComparisonOp::Eq => "=",
        ComparisonOp::IEq => "=",
        ComparisonOp::NotEq => "<>",
        ComparisonOp::Gt => ">",
        ComparisonOp::Gte => ">=",
        ComparisonOp::Lt => "<",
        ComparisonOp::Lte => "<=",
        ComparisonOp::Like => "LIKE",
        ComparisonOp::NotLike => "NOT LIKE",
        ComparisonOp::ILike => "ILIKE",
    }
}

fn aggregate_fn_name(f: AggregateFn) -> (s: &'static str)
    ensures
        s@ == aggregate_fn_sql(f),
{
    match f {
        AggregateFn::Count => "COUNT",
        AggregateFn::Sum => "SUM",
        AggregateFn::Avg => "AVG",
        AggregateFn::Min => "MIN",
        AggregateFn::Max => "MAX",
    }
}

fn push_frame_bound(out: &mut String, b: WindowFrameBound)
    ensures
        final(out)@ == old(out)@ + frame_bound_sql(b),
{
    let ghost start = out@;
    match b {
        WindowFrameBound::UnboundedPreceding => out.append("UNBOUNDED PRECEDING"),
        WindowFrameBound::Preceding(v) => {
            push_decimal(out, v);
            out.append(" PRECEDING");
            proof {
                assert(out@ =~= start + frame_bound_sql(b));
            }
        },
        WindowFrameBound::CurrentRow => out.append("CURRENT ROW"),
        WindowFrameBound::Following(v) => {
            push_decimal(out, v);
            out.append(" FOLLOWING");
            proof {
                assert(out@ =~= start + frame_bound_sql(b));
            }
        },
        WindowFrameBound::UnboundedFollowing => out.append("UNBOUNDED FOLLOWING"),
    }
}

fn frame_units(u: WindowFrameUnits) -> (s: &'static str)
    ensures
        s@ == frame_units_sql(u),
{
    match u {
        WindowFrameUnits::Rows => "ROWS",
        WindowFrameUnits::Range => "RANGE",
    }
}

fn push_frame(out: &mut String, f: &WindowFrame)
    ensures
        final(out)@ == old(out)@ + frame_sql(*f),
{
    let ghost start = out@;
    out.append(frame_units(f.units));
    match f.end {
        Some(end) => {
            out.append(" BETWEEN ");
            push_frame_bound(out, f.start);
            out.append(" AND ");
            push_frame_bound(out, end);
        },
        None => {
            out.append(" ");
            push_frame_bound(out, f.start);
        },
    }
    proof {
        assert(out@ =~= start + frame_sql(*f));
    }
}

/// Appends the quoted names from index `i` on, joined by ", ".
fn push_quoted_names(out: &mut String, names: &Vec<String>, i: usize)
    requires
        i <= names.len(),
    ensures
        final(out)@ == old(out)@ + quoted_names(names@, i as int),
    decreases names.len() - i,
{
    if i < names.len() {
        let ghost start = out@;
        push_quoted(out, names[i].as_str());
        if i + 1 < names.len() {
            out.append(", ");
            push_quoted_names(out, names, i + 1);
        }
        proof {
            assert(out@ =~= start + quoted_names(names@, i as int));
        }
    }
}

fn push_quoted_columns(out: &mut String, cols: &Vec<ColumnRef>, i: usize)
    requires
        i <= cols.len(),
    ensures
        final(out)@ == old(out)@ + quoted_columns(cols@, i as int),
    decreases cols.len() - i,
{
    if i < cols.len() {
        let ghost start = out@;
        push_quoted(out, cols[i].name.as_str());
        if i + 1 < cols.len() {
            out.append(", ");
            push_quoted_columns(out, cols, i + 1);
        }
        proof {
            assert(out@ =~= start + quoted_columns(cols@, i as int));
        }
    }
}

fn push_lock(out: &mut String, l: &LockClause)
    ensures
        final(out)@ == old(out)@ + lock_sql(*l),
{
    let ghost start = out@;
    match l.strength {
        LockStrength::Update => out.append("FOR UPDATE"),
        LockStrength::NoKeyUpdate => out.append("FOR NO KEY UPDATE"),
        LockStrength::Share => out.append("FOR SHARE"),
        LockStrength::KeyShare => out.append("FOR KEY SHARE"),
    }
    let ghost mid = out@;
    if l.of.len() > 0 {
        out.append(" OF ");
        push_quoted_names(out, &l.of, 0);
    }
    let ghost mid2 = out@;
    match l.behavior {
        LockBehavior::Wait => {},
        LockBehavior::NoWait => out.append(" NOWAIT"),
        LockBehavior::SkipLocked => out.append(" SKIP LOCKED"),
    }
    proof {
        assert(out@ =~= start + lock_sql(*l));
    }
}

fn push_document(out: &mut String, cols: &Vec<ColumnRef>, i: usize)
    requires
        i <= cols.len(),
    ensures
        final(out)@ == old(out)@ + document_sql(cols@, i as int),
    decreases cols.len() - i,
{
    if i < cols.len() {
        let ghost start = out@;
        out.append("COALESCE(");
        push_column_name(out, &cols[i]);
        out.append("::text, '')");
        if i + 1 < cols.len() {
            out.append(" || ' ' || ");
            push_document(out, cols, i + 1);
        }
        proof {
            assert(out@ =~= start + document_sql(cols@, i as int));
        }
    }
}

/// The type an expression is known to produce.
pub fn expr_db_type(e: &Expr) -> (t: Option<DbType>)
    ensures
        t == expr_type(*e),
    decreases e,
{
    match e {
        Expr::Column(c) => c.db_type,
        Expr::Excluded(c) => c.db_type,
        Expr::Value(v) => Some(v.db_type()),
        Expr::Cast { db_type, .. } => Some(*db_type),
        Expr::Aggregate(a) => aggregate_db_type(a),
        Expr::Function(f) => if str_eq_ignore_ascii_case(f.name.as_str(), "JSONB_TEXT_OR_FIRST") {
            Some(DbType::Text)
        } else {
            None
        },
        Expr::Unary(u) => expr_db_type(&u.expr),
        Expr::Binary(b) => match expr_db_type(&b.left) {
            Some(t) => Some(t),
            None => expr_db_type(&b.right),
        },
        Expr::Subquery(_) => None,
        Expr::Window(_) => None,
        Expr::Case(c) => {
            let from_else = match &c.else_expr {
                Some(x) => expr_db_type(x),
                None => None,
            };
            match from_else {
                Some(t) => Some(t),
                None => if c.whens.len() > 0 {
                    expr_db_type(&c.whens[0].result)
                } else {
                    None
                },
            }
        },
        Expr::JsonPath(p) => match p.mode {
            JsonPathMode::Json => Some(DbType::Json),
            JsonPathMode::Text => Some(DbType::Text),
        },
        Expr::Raw(_) => None,
    }
}

fn widened(t: DbType) -> (r: DbType)
    ensures
        r == widened_sum_type(t),
{
    match t {
        DbType::Int16 | DbType::Int32 | DbType::Int64 | DbType::Numeric => DbType::Numeric,
        _ => t,
    }
}

/// The type an aggregate produces.
pub fn aggregate_db_type(a: &AggregateExpr) -> (t: Option<DbType>)
    ensures
        t == aggregate_type(*a),
    decreases a,
{
    match a.function {
        AggregateFn::Count => Some(DbType::Int64),
        AggregateFn::Sum | AggregateFn::Avg => match &a.expr {
            Some(x) => match expr_db_type(x) {
                Some(t) => Some(widened(t)),
                None => None,
            },
            None => None,
        },
        AggregateFn::Min | AggregateFn::Max => match &a.expr {
            Some(x) => expr_db_type(x),
            None => None,
        },
    }
}


/// Whether appending to `out` matches the denoted SQL: on success the text
/// grew by the denoted text and the bindings by the denoted values; on
/// failure the message is the denoted one.
pub open spec fn appended(r: Result<(), Error>, out0: Seq<char>, out1: Seq<char>, pre: Seq<DbValueView>, post: Seq<DbValueView>, want: Res) -> bool {
    match want {
        Ok((s, b)) => r is Ok && out1 == out0 + s && post == pre + b,
        Err(m) => r matches Err(e) && e.is_plain() && e@ == m,
    }
}

/// The compiler's state: the values bound so far, in placeholder order.
pub struct CompilerState {
    pub bindings: Vec<DbValue>,
}

impl CompilerState {
    pub open spec fn binds(&self) -> Seq<DbValueView> {
        views(self.bindings@)
    }

    /// Binds a value and appends its placeholder.
    fn bind_value(&mut self, out: &mut String, v: DbValue)
        ensures
            final(out)@ == old(out)@ + placeholder(old(self).binds().len(), v@),
            final(self).binds() == old(self).binds().push(v@),
    {
        let ghost o0 = out@;
        let ghost vv = v@;
        let cast = v.db_type().postgres_cast();
        proof {
            assert(self.binds().len() == self.bindings@.len());
        }
        self.bindings.push(v);
        out.append("$");
        push_decimal(out, self.bindings.len() as u64);
        out.append("::");
        out.append(cast);
        proof {
            assert(out@ =~= o0 + placeholder(old(self).binds().len(), vv));
            assert(self.binds() =~= old(self).binds().push(vv));
        }
    }

    fn bind_text(&mut self, out: &mut String, s: &String)
        ensures
            final(out)@ == old(out)@ + placeholder(old(self).binds().len(), text_value(*s)),
            final(self).binds() == old(self).binds().push(text_value(*s)),
    {
        self.bind_value(out, DbValue::Text(s.clone()));
    }

    fn bind_values(&mut self, out: &mut String, vs: &Vec<DbValue>, i: usize)
        requires
            i <= vs.len(),
        ensures
            ({
                let r = bind_list(vs@, i as int, old(self).binds().len());
                &&& final(out)@ == old(out)@ + r.0
                &&& final(self).binds() == old(self).binds() + r.1
            }),
        decreases vs.len() - i,
    {
        let ghost o0 = out@;
        let ghost b0 = self.binds();
        if i < vs.len() {
            self.bind_value(out, vs[i].clone());
            if i + 1 < vs.len() {
                out.append(", ");
                self.bind_values(out, vs, i + 1);
            }
            proof {
                let r = bind_list(vs@, i as int, old(self).binds().len());
                assert(out@ =~= o0 + r.0);
                assert(self.binds() =~= b0 + r.1);
            }
        } else {
            proof {
                assert(out@ =~= o0 + Seq::<char>::empty());
                assert(self.binds() =~= b0 + Seq::<DbValueView>::empty());
            }
        }
    }

    fn bind_texts(&mut self, out: &mut String, vs: &Vec<String>, i: usize)
        requires
            i <= vs.len(),
        ensures
            ({
                let r = bind_text_list(vs@, i as int, old(self).binds().len());
                &&& final(out)@ == old(out)@ + r.0
                &&& final(self).binds() == old(self).binds() + r.1
            }),
        decreases vs.len() - i,
    {
        let ghost o0 = out@;
        let ghost b0 = self.binds();
        if i < vs.len() {
            self.bind_text(out, &vs[i]);
            if i + 1 < vs.len() {
                out.append(", ");
                self.bind_texts(out, vs, i + 1);
            }
            proof {
                let r = bind_text_list(vs@, i as int, old(self).binds().len());
                assert(out@ =~= o0 + r.0);
                assert(self.binds() =~= b0 + r.1);
            }
        } else {
            proof {
                assert(out@ =~= o0 + Seq::<char>::empty());
                assert(self.binds() =~= b0 + Seq::<DbValueView>::empty());
            }
        }
    }

    fn bind_text_array(&mut self, out: &mut String, vs: &Vec<String>)
        ensures
            ({
                let r = text_array(vs@, old(self).binds().len());
                &&& final(out)@ == old(out)@ + r.0
                &&& final(self).binds() == old(self).binds() + r.1
            }),
    {
        let ghost o0 = out@;
        out.append("ARRAY[");
        self.bind_texts(out, vs, 0);
        out.append("]");
        proof {
            let r = text_array(vs@, old(self).binds().len());
            assert(out@ =~= o0 + r.0);
        }
    }
}


impl CompilerState {
    /// Appends `raw_sql(chars[i..], values[k..])`.
    fn push_raw(&mut self, out: &mut String, chars: &Vec<char>, i: usize, vs: &Vec<DbValue>, k: usize)
        requires
            i <= chars.len(),
            k <= vs.len(),
        ensures
            ({
                let r = raw_sql(
                    chars@.subrange(i as int, chars@.len() as int),
                    vs@.subrange(k as int, vs@.len() as int),
                    old(self).binds().len(),
                );
                &&& final(out)@ == old(out)@ + r.0
                &&& final(self).binds() == old(self).binds() + r.1
            }),
        decreases chars.len() - i,
    {
        let ghost o0 = out@;
        let ghost b0 = self.binds();
        let ghost sq = chars@.subrange(i as int, chars@.len() as int);
        let ghost vq = vs@.subrange(k as int, vs@.len() as int);
        if i == chars.len() {
            proof {
                assert(sq.len() == 0);
                assert(out@ =~= o0 + Seq::<char>::empty());
                assert(self.binds() =~= b0 + Seq::<DbValueView>::empty());
            }
            return;
        }
        proof {
            assert(sq[0] == chars@[i as int]);
            assert(sq.subrange(1, sq.len() as int) =~= chars@.subrange(i + 1, chars@.len() as int));
        }
        if chars[i] == '?' && k < vs.len() {
            proof {
                assert(vq[0] == vs@[k as int]);
                assert(vq.subrange(1, vq.len() as int) =~= vs@.subrange(k + 1, vs@.len() as int));
            }
            self.bind_value(out, vs[k].clone());
            self.push_raw(out, chars, i + 1, vs, k + 1);
        } else {
            proof {
                if chars@[i as int] == '?' {
                    assert(vq.len() == 0);
                }
            }
            push_char(out, chars[i]);
            self.push_raw(out, chars, i + 1, vs, k);
        }
        proof {
            let r = raw_sql(sq, vq, old(self).binds().len());
            assert(out@ =~= o0 + r.0);
            assert(self.binds() =~= b0 + r.1);
        }
    }

    #[verifier::spinoff_prover]
    fn compile_raw(&mut self, out: &mut String, sql: &String, vs: &Vec<DbValue>) -> (r: Result<(), Error>)
        ensures
            appended(
                r,
                old(out)@,
                final(out)@,
                old(self).binds(),
                final(self).binds(),
                if count_char(sql@, '?') != vs.len() {
                    Err(raw_mismatch_error(count_char(sql@, '?'), vs.len() as nat))
                } else {
                    Ok(raw_sql(sql@, vs@, old(self).binds().len()))
                },
            ),
            count_char(sql@, '?') != vs.len() ==> final(self).binds() == old(self).binds() && final(out)@ == old(out)@,
    {
        let chars = chars_of(sql.as_str());
        let expected = count_occurrences(&chars, '?');
        if expected != vs.len() {
            let mut m = owned("raw condition placeholder count mismatch: expected ");
            push_decimal(&mut m, expected as u64);
            m.append(" bindings, got ");
            push_decimal(&mut m, vs.len() as u64);
            proof {
                assert(m@ =~= raw_mismatch_error(count_char(sql@, '?'), vs.len() as nat));
            }
            return Err(Error::message(m));
        }
        proof {
            assert(chars@.subrange(0, chars@.len() as int) =~= sql@);
            assert(vs@.subrange(0, vs@.len() as int) =~= vs@);
        }
        self.push_raw(out, &chars, 0, vs, 0);
        Ok(())
    }

    /// The JSON path text over `base`, from segment `i` on.
    fn json_path(&mut self, base: String, segs: &Vec<JsonPathSegment>, i: usize, mode: JsonPathMode) -> (r: String)
        requires
            i <= segs.len(),
        ensures
            ({
                let j = json_path_sql(base@, segs@, i as int, mode, old(self).binds().len());
                &&& r@ == j.0
                &&& final(self).binds() == old(self).binds() + j.1
            }),
        decreases segs.len() - i,
    {
        let ghost b0 = self.binds();
        if i == segs.len() {
            proof {
                assert(self.binds() =~= b0 + Seq::<DbValueView>::empty());
            }
            return base;
        }
        let mut next = owned("(");
        next.append(base.as_str());
        next.append(") ");
        let text_last = i + 1 == segs.len() && mode == JsonPathMode::Text;
        if text_last {
            next.append("->>");
        } else {
            next.append("->");
        }
        next.append(" ");
        match &segs[i] {
            JsonPathSegment::Key(k) => {
                self.bind_text(&mut next, k);
            },
            JsonPathSegment::Index(x) => {
                push_signed_decimal(&mut next, *x);
            },
        }
        let r = self.json_path(next, segs, i + 1, mode);
        proof {
            assert(self.binds() =~= b0 + json_path_sql(base@, segs@, i as int, mode, old(self).binds().len()).1);
        }
        r
    }
}

proof fn lemma_name_count_split(row: Seq<(ColumnRef, Expr)>, name: Seq<char>, i: int)
    requires
        0 <= i < row.len(),
    ensures
        name_count(row.subrange(0, i + 1), name) == name_count(row.subrange(0, i), name)
            + (if row[i].0.name@ == name { 1nat } else { 0nat }),
    decreases i,
{
    if i > 0 {
        let t = row.subrange(1, row.len() as int);
        lemma_name_count_split(t, name, i - 1);
        assert(row.subrange(0, i + 1).subrange(1, i + 1) =~= t.subrange(0, i));
        assert(row.subrange(0, i).subrange(1, i) =~= t.subrange(0, i - 1));
    } else {
        assert(row.subrange(0, 1).subrange(1, 1) =~= Seq::<(ColumnRef, Expr)>::empty());
        assert(row.subrange(0, 0) =~= Seq::<(ColumnRef, Expr)>::empty());
    }
}

proof fn lemma_name_pos(row: Seq<(ColumnRef, Expr)>, name: Seq<char>, j: int)
    requires
        0 <= j <= row.len(),
        forall|l: int| 0 <= l < j ==> (#[trigger] row[l]).0.name@ != name,
        j == row.len() || row[j].0.name@ == name,
    ensures
        name_pos(row, name) == j,
    decreases j,
{
    if j > 0 {
        let t = row.subrange(1, row.len() as int);
        assert forall|l: int| 0 <= l < j - 1 implies (#[trigger] t[l]).0.name@ != name by {
            assert(t[l] == row[l + 1]);
        }
        lemma_name_pos(t, name, j - 1);
    }
}

/// How many entries of `row` assign `name`, and the first such index.
fn count_name(row: &Vec<(ColumnRef, Expr)>, name: &String) -> (r: (usize, usize))
    ensures
        r.0 == name_count(row@, name@),
        r.1 == name_pos(row@, name@),
        r.1 <= row.len(),
        r.1 < row.len() ==> row@[r.1 as int].0.name@ == name@,
        r.0 > 0 ==> r.1 < row.len(),
{
    let mut count: usize = 0;
    let mut first: usize = row.len();
    let mut i: usize = 0;
    proof {
        assert(row@.subrange(0, 0) =~= Seq::<(ColumnRef, Expr)>::empty());
    }
    while i < row.len()
        invariant
            i <= row.len(),
            count <= i,
            count == name_count(row@.subrange(0, i as int), name@),
            first == row.len() ==> forall|l: int| 0 <= l < i ==> (#[trigger] row@[l]).0.name@ != name@,
            first < row.len() ==> (first < i && row@[first as int].0.name@ == name@
                && forall|l: int| 0 <= l < first ==> (#[trigger] row@[l]).0.name@ != name@),
            first <= row.len(),
            count > 0 ==> first < row.len(),
        decreases row.len() - i,
    {
        proof {
            lemma_name_count_split(row@, name@, i as int);
        }
        if row[i].0.name == *name {
            count = count + 1;
            if first == row.len() {
                first = i;
            }
        }
        i = i + 1;
    }
    proof {
        assert(row@.subrange(0, row.len() as int) =~= row@);
        lemma_name_pos(row@, name@, first as int);
    }
    (count, first)
}

fn repeats_before(row: &Vec<(ColumnRef, Expr)>, i: usize) -> (b: bool)
    requires
        i < row.len(),
    ensures
        b == repeats_earlier(row@, i as int),
{
    let mut j: usize = 0;
    while j < i
        invariant
            j <= i < row.len(),
            forall|l: int| 0 <= l < j ==> (#[trigger] row@[l]).0.name@ != row@[i as int].0.name@,
        decreases i - j,
    {
        if row[j].0.name == row[i].0.name {
            return true;
        }
        j = j + 1;
    }
    false
}

/// The index of the first repeated column name of a row from `i` on.
fn find_repeat(row: &Vec<(ColumnRef, Expr)>, i: usize) -> (r: Option<usize>)
    requires
        i <= row.len(),
    ensures
        match first_repeat(row@, i as int) {
            None => r is None,
            Some(name) => r matches Some(j) && j < row.len() && row@[j as int].0.name@ == name,
        },
    decreases row.len() - i,
{
    if i == row.len() {
        return None;
    }
    if repeats_before(row, i) {
        Some(i)
    } else {
        find_repeat(row, i + 1)
    }
}

fn name_message(prefix: &str, name: &String) -> (m: String)
    ensures
        m@ == prefix@ + name@ + "`"@,
{
    let mut m = owned(prefix);
    m.append(name.as_str());
    m.append("`");
    m
}

/// The first error of a row against the canonical columns from `k` on.
fn check_row_columns(row: &Vec<(ColumnRef, Expr)>, canon: &Vec<(ColumnRef, Expr)>, k: usize) -> (r: Result<(), Error>)
    requires
        k <= canon.len(),
    ensures
        match row_column_error(row@, canon@, k as int) {
            None => r is Ok,
            Some(m) => r matches Err(e) && e.is_plain() && e@ == m,
        },
    decreases canon.len() - k,
{
    if k == canon.len() {
        return Ok(());
    }
    let name = &canon[k].0.name;
    let (count, _) = count_name(row, name);
    if count == 0 {
        return Err(Error::message(name_message("insert row is missing required column `", name)));
    }
    if count > 1 {
        return Err(Error::message(name_message("insert row contains duplicate column `", name)));
    }
    check_row_columns(row, canon, k + 1)
}

fn check_rows(rows: &Vec<Vec<(ColumnRef, Expr)>>, canon: &Vec<(ColumnRef, Expr)>, i: usize) -> (r: Result<(), Error>)
    requires
        i <= rows.len(),
    ensures
        match rows_error(rows@, canon@, i as int) {
            None => r is Ok,
            Some(m) => r matches Err(e) && e.is_plain() && e@ == m,
        },
    decreases rows.len() - i,
{
    if i == rows.len() {
        return Ok(());
    }
    let row = &rows[i];
    if row.len() == 0 {
        return Err(Error::message(owned("insert query requires at least one value")));
    }
    check_row_columns(row, canon, 0)?;
    if row.len() != canon.len() {
        return Err(Error::message(owned("insert rows must use the same set of columns")));
    }
    check_rows(rows, canon, i + 1)
}

/// Checks a `VALUES` source; `Ok` exactly when `values_error` finds nothing.
fn check_values(rows: &Vec<Vec<(ColumnRef, Expr)>>) -> (r: Result<(), Error>)
    ensures
        match values_error(rows@) {
            None => r is Ok,
            Some(m) => r matches Err(e) && e.is_plain() && e@ == m,
        },
{
    if rows.len() == 0 {
        return Err(Error::message(owned("insert query requires at least one row")));
    }
    let first = &rows[0];
    if first.len() == 0 {
        return Err(Error::message(owned("insert query requires at least one value")));
    }
    match find_repeat(first, 0) {
        Some(j) => {
            return Err(Error::message(name_message("insert row contains duplicate column `", &first[j].0.name)));
        },
        None => {},
    }
    check_rows(rows, first, 0)
}

fn push_row_names(out: &mut String, row: &Vec<(ColumnRef, Expr)>, i: usize)
    requires
        i <= row.len(),
    ensures
        final(out)@ == old(out)@ + row_names_sql(row@, i as int),
    decreases row.len() - i,
{
    if i < row.len() {
        let ghost start = out@;
        push_quoted(out, row[i].0.name.as_str());
        if i + 1 < row.len() {
            out.append(", ");
            push_row_names(out, row, i + 1);
        }
        proof {
            assert(out@ =~= start + row_names_sql(row@, i as int));
        }
    }
}

fn columns_are_plain(items: &Vec<SelectItem>) -> (b: bool)
    ensures
        b == select_columns_ok(items@),
{
    let mut i: usize = 0;
    while i < items.len()
        invariant
            i <= items.len(),
            forall|j: int| 0 <= j < i ==> #[trigger] items@[j].expr is Column,
        decreases items.len() - i,
    {
        match &items[i].expr {
            Expr::Column(_) => {},
            _ => {
                return false;
            },
        }
        i = i + 1;
    }
    true
}

fn push_select_column_names(out: &mut String, items: &Vec<SelectItem>, i: usize)
    requires
        i <= items.len(),
    ensures
        final(out)@ == old(out)@ + select_column_names(items@, i as int),
    decreases items.len() - i,
{
    if i < items.len() {
        let ghost start = out@;
        match &items[i].expr {
            Expr::Column(c) => push_quoted(out, c.name.as_str()),
            _ => {},
        }
        if i + 1 < items.len() {
            out.append(", ");
            push_select_column_names(out, items, i + 1);
        }
        proof {
            assert(out@ =~= start + select_column_names(items@, i as int));
        }
    }
}


impl CompilerState {
    #[verifier::spinoff_prover]
    fn compile_query(&mut self, out: &mut String, q: &QueryAst) -> (r: Result<(), Error>)
        ensures
            appended(r, old(out)@, final(out)@, old(self).binds(), final(self).binds(), query_sql(*q, old(self).binds().len())),
        decreases *q, 1int,
    {
        reveal_with_fuel(query_sql, 1);
        let ghost o0 = out@;
        let ghost b0 = self.binds();
        let ghost n0 = self.binds().len();
        if q.with.len() == 0 {
            return self.compile_body(out, &q.body);
        }
        out.append("WITH ");
        if any_cte_recursive(&q.with) {
            out.append("RECURSIVE ");
        }
        self.compile_ctes(out, &q.with, 0)?;
        out.append(" ");
        self.compile_body(out, &q.body)?;
        proof {
            let want = query_sql(*q, n0);
            assert(out@ =~= o0 + want->Ok_0.0);
            assert(self.binds() =~= b0 + want->Ok_0.1);
        }
        Ok(())
    }

    #[verifier::spinoff_prover]
    fn compile_ctes(&mut self, out: &mut String, cs: &Vec<CteNode>, i: usize) -> (r: Result<(), Error>)
        requires
            i <= cs.len(),
        ensures
            appended(r, old(out)@, final(out)@, old(self).binds(), final(self).binds(), ctes_sql(cs@, i as int, old(self).binds().len())),
        decreases cs@, cs@.len() - i,
    {
        reveal_with_fuel(ctes_sql, 1);
        let ghost o0 = out@;
        let ghost b0 = self.binds();
        let ghost n0 = self.binds().len();
        if i == cs.len() {
            proof {
                assert(out@ =~= o0 + Seq::<char>::empty());
                assert(self.binds() =~= b0 + Seq::<DbValueView>::empty());
            }
            return Ok(());
        }
        self.compile_cte(out, &cs[i])?;
        if i + 1 < cs.len() {
            out.append(", ");
            self.compile_ctes(out, cs, i + 1)?;
        }
        proof {
            let want = ctes_sql(cs@, i as int, n0);
            assert(out@ =~= o0 + want->Ok_0.0);
            assert(self.binds() =~= b0 + want->Ok_0.1);
        }
        Ok(())
    }

    #[verifier::spinoff_prover]
    fn compile_cte(&mut self, out: &mut String, c: &CteNode) -> (r: Result<(), Error>)
        ensures
            appended(r, old(out)@, final(out)@, old(self).binds(), final(self).binds(), cte_sql(*c, old(self).binds().len())),
        decreases *c, 1int,
    {
        reveal_with_fuel(cte_sql, 1);
        let ghost o0 = out@;
        let ghost b0 = self.binds();
        let ghost n0 = self.binds().len();
        push_quoted(out, c.name.as_str());
        out.append(" AS ");
        match c.materialization {
            Some(CteMaterialization::Materialized) => out.append("MATERIALIZED "),
            Some(CteMaterialization::NotMaterialized) => out.append("NOT MATERIALIZED "),
            None => {},
        }
        out.append("(");
        self.compile_query(out, &c.query)?;
        out.append(")");
        proof {
            let want = cte_sql(*c, n0);
            assert(out@ =~= o0 + want->Ok_0.0);
            assert(self.binds() =~= b0 + want->Ok_0.1);
        }
        Ok(())
    }

    #[verifier::spinoff_prover]
    fn compile_body(&mut self, out: &mut String, body: &QueryBody) -> (r: Result<(), Error>)
        ensures
            appended(r, old(out)@, final(out)@, old(self).binds(), final(self).binds(), body_sql(*body, old(self).binds().len())),
        decreases *body, 1int,
    {
        reveal_with_fuel(body_sql, 1);
        match body {
            QueryBody::Select(s) => self.compile_select(out, s),
            QueryBody::Insert(i) => self.compile_insert(out, i),
            QueryBody::Update(u) => self.compile_update(out, u),
            QueryBody::Delete(d) => self.compile_delete(out, d),
            QueryBody::SetOperation(s) => self.compile_set_operation(out, s),
        }
    }

    #[verifier::spinoff_prover]
    fn compile_select(&mut self, out: &mut String, s: &SelectNode) -> (r: Result<(), Error>)
        ensures
            appended(r, old(out)@, final(out)@, old(self).binds(), final(self).binds(), select_sql(*s, old(self).binds().len())),
        decreases *s, 3int,
    {
        reveal_with_fuel(select_sql, 1);
        let ghost o0 = out@;
        let ghost b0 = self.binds();
        let ghost n0 = self.binds().len();
        out.append("SELECT ");
        if s.distinct {
            out.append("DISTINCT ");
        }
        self.compile_projection(out, s)?;
        out.append(" FROM ");
        self.compile_from_item(out, &s.from)?;
        self.compile_joins(out, &s.joins, 0)?;
        self.compile_select_filters(out, s)?;
        proof {
            let want = select_sql(*s, n0);
            assert(out@ =~= o0 + want->Ok_0.0);
            assert(self.binds() =~= b0 + want->Ok_0.1);
        }
        Ok(())
    }

    #[verifier::spinoff_prover]
    fn compile_projection(&mut self, out: &mut String, s: &SelectNode) -> (r: Result<(), Error>)
        ensures
            appended(r, old(out)@, final(out)@, old(self).binds(), final(self).binds(), projection_sql(*s, old(self).binds().len())),
        decreases *s, 2int,
    {
        reveal_with_fuel(projection_sql, 1);
        let ghost o0 = out@;
        let ghost b0 = self.binds();
        let ghost n0 = self.binds().len();
        if s.columns.len() == 0 && s.aggregates.len() == 0 {
            out.append("*");
            proof {
                assert(self.binds() =~= b0 + Seq::<DbValueView>::empty());
            }
            return Ok(());
        }
        self.compile_items(out, &s.columns, 0)?;
        if s.columns.len() > 0 && s.aggregates.len() > 0 {
            out.append(", ");
        }
        self.compile_aggregate_nodes(out, &s.aggregates, 0)?;
        proof {
            let want = projection_sql(*s, n0);
            assert(out@ =~= o0 + want->Ok_0.0);
            assert(self.binds() =~= b0 + want->Ok_0.1);
        }
        Ok(())
    }

    #[verifier::spinoff_prover]
    fn compile_select_filters(&mut self, out: &mut String, s: &SelectNode) -> (r: Result<(), Error>)
        ensures
            appended(r, old(out)@, final(out)@, old(self).binds(), final(self).binds(), select_filters_sql(*s, old(self).binds().len())),
        decreases *s, 2int,
    {
        reveal_with_fuel(select_filters_sql, 1);
        let ghost o0 = out@;
        let ghost b0 = self.binds();
        let ghost n0 = self.binds().len();
        self.compile_opt_condition(out, &s.condition, " WHERE ")?;
        self.compile_group_by(out, &s.group_by)?;
        self.compile_opt_condition(out, &s.having, " HAVING ")?;
        self.compile_order_limit_offset(out, &s.order_by, s.limit, s.offset)?;
        match &s.lock {
            Some(l) => {
                out.append(" ");
                push_lock(out, l);
            },
            None => {},
        }
        proof {
            let want = select_filters_sql(*s, n0);
            assert(out@ =~= o0 + want->Ok_0.0);
            assert(self.binds() =~= b0 + want->Ok_0.1);
        }
        Ok(())
    }

    #[verifier::spinoff_prover]
    fn compile_opt_condition(&mut self, out: &mut String, c: &Option<Condition>, prefix: &str) -> (r: Result<(), Error>)
        ensures
            appended(r, old(out)@, final(out)@, old(self).binds(), final(self).binds(), opt_condition_sql(*c, prefix@, old(self).binds().len())),
        decreases *c, 1int,
    {
        reveal_with_fuel(opt_condition_sql, 1);
        let ghost o0 = out@;
        let ghost b0 = self.binds();
        let ghost n0 = self.binds().len();
        match c {
            None => {
                proof {
                    assert(out@ =~= o0 + Seq::<char>::empty());
                    assert(self.binds() =~= b0 + Seq::<DbValueView>::empty());
                }
                Ok(())
            },
            Some(cond) => {
                out.append(prefix);
                self.compile_condition(out, cond)?;
                proof {
                    let want = opt_condition_sql(*c, prefix@, n0);
                    assert(out@ =~= o0 + want->Ok_0.0);
                }
                Ok(())
            },
        }
    }

    #[verifier::spinoff_prover]
    fn compile_group_by(&mut self, out: &mut String, es: &Vec<Expr>) -> (r: Result<(), Error>)
        ensures
            appended(r, old(out)@, final(out)@, old(self).binds(), final(self).binds(), group_by_sql(es@, old(self).binds().len())),
        decreases es@, es@.len() + 1,
    {
        reveal_with_fuel(group_by_sql, 1);
        let ghost o0 = out@;
        let ghost b0 = self.binds();
        let ghost n0 = self.binds().len();
        if es.len() == 0 {
            proof {
                assert(out@ =~= o0 + Seq::<char>::empty());
                assert(self.binds() =~= b0 + Seq::<DbValueView>::empty());
            }
            return Ok(());
        }
        out.append(" GROUP BY ");
        self.compile_exprs(out, es, 0, ", ")?;
        proof {
            let want = group_by_sql(es@, n0);
            assert(out@ =~= o0 + want->Ok_0.0);
        }
        Ok(())
    }

    #[verifier::spinoff_prover]
    fn compile_order_limit_offset(&mut self, out: &mut String, os: &Vec<OrderBy>, limit: Option<u64>, offset: Option<u64>) -> (r: Result<(), Error>)
        ensures
            appended(r, old(out)@, final(out)@, old(self).binds(), final(self).binds(), order_limit_offset_sql(os@, limit, offset, old(self).binds().len())),
        decreases os@, os@.len() + 1,
    {
        reveal_with_fuel(order_limit_offset_sql, 1);
        let ghost o0 = out@;
        let ghost b0 = self.binds();
        let ghost n0 = self.binds().len();
        if os.len() > 0 {
            out.append(" ORDER BY ");
            self.compile_orders(out, os, 0)?;
        }
        let ghost o1 = out@;
        let ghost b1 = self.binds();
        match limit {
            Some(v) => {
                out.append(" LIMIT ");
                self.bind_value(out, DbValue::Int64(v as i64));
            },
            None => {},
        }
        match offset {
            Some(v) => {
                out.append(" OFFSET ");
                self.bind_value(out, DbValue::Int64(v as i64));
            },
            None => {},
        }
        proof {
            let want = order_limit_offset_sql(os@, limit, offset, n0);
            if os.len() == 0 {
                assert(o1 =~= o0 + Seq::<char>::empty());
                assert(b1 =~= b0 + Seq::<DbValueView>::empty());
            }
            assert(out@ =~= o0 + want->Ok_0.0);
            assert(self.binds() =~= b0 + want->Ok_0.1);
        }
        Ok(())
    }

    #[verifier::spinoff_prover]
    fn compile_set_operation(&mut self, out: &mut String, s: &SetOperationNode) -> (r: Result<(), Error>)
        ensures
            appended(r, old(out)@, final(out)@, old(self).binds(), final(self).binds(), set_operation_sql(*s, old(self).binds().len())),
        decreases *s, 1int,
    {
        reveal_with_fuel(set_operation_sql, 1);
        let ghost o0 = out@;
        let ghost b0 = self.binds();
        let ghost n0 = self.binds().len();
        out.append("(");
        self.compile_query(out, &s.left)?;
        out.append(") ");
        match s.operator {
            SetOperator::Union => out.append("UNION"),
            SetOperator::UnionAll => out.append("UNION ALL"),
        }
        out.append(" (");
        self.compile_query(out, &s.right)?;
        out.append(")");
        self.compile_order_limit_offset(out, &s.order_by, s.limit, s.offset)?;
        proof {
            let want = set_operation_sql(*s, n0);
            assert(out@ =~= o0 + want->Ok_0.0);
            assert(self.binds() =~= b0 + want->Ok_0.1);
        }
        Ok(())
    }

    #[verifier::spinoff_prover]
    fn compile_items(&mut self, out: &mut String, items: &Vec<SelectItem>, i: usize) -> (r: Result<(), Error>)
        requires
            i <= items.len(),
        ensures
            appended(r, old(out)@, final(out)@, old(self).binds(), final(self).binds(), items_sql(items@, i as int, old(self).binds().len())),
        decreases items@, items@.len() - i,
    {
        reveal_with_fuel(items_sql, 1);
        let ghost o0 = out@;
        let ghost b0 = self.binds();
        let ghost n0 = self.binds().len();
        if i == items.len() {
            proof {
                assert(out@ =~= o0 + Seq::<char>::empty());
                assert(self.binds() =~= b0 + Seq::<DbValueView>::empty());
            }
            return Ok(());
        }
        self.compile_item(out, &items[i])?;
        if i + 1 < items.len() {
            out.append(", ");
            self.compile_items(out, items, i + 1)?;
        }
        proof {
            let want = items_sql(items@, i as int, n0);
            assert(out@ =~= o0 + want->Ok_0.0);
            assert(self.binds() =~= b0 + want->Ok_0.1);
        }
        Ok(())
    }

    #[verifier::spinoff_prover]
    fn compile_item(&mut self, out: &mut String, it: &SelectItem) -> (r: Result<(), Error>)
        ensures
            appended(r, old(out)@, final(out)@, old(self).binds(), final(self).binds(), item_sql(*it, old(self).binds().len())),
        decreases *it, 1int,
    {
        reveal_with_fuel(item_sql, 1);
        let ghost o0 = out@;
        let ghost b0 = self.binds();
        let ghost n0 = self.binds().len();
        let numeric = match expr_db_type(&it.expr) {
            Some(DbType::Numeric) => true,
            _ => false,
        };
        if numeric {
            out.append("(");
        }
        let ghost o1 = out@;
        let mut expr_alias: Option<&String> = None;
        match &it.expr {
            Expr::Column(c) => {
                push_column_name(out, c);
                match &c.alias {
                    Some(a) => {
                        expr_alias = Some(a);
                    },
                    None => {},
                }
                proof {
                    assert(self.binds() =~= b0 + Seq::<DbValueView>::empty());
                }
            },
            _ => {
                self.compile_expr(out, &it.expr)?;
            },
        }
        if numeric {
            out.append(")::text");
        }
        let ghost o2 = out@;
        let alias: Option<&String> = match &it.alias {
            Some(a) => Some(a),
            None => expr_alias,
        };
        match alias {
            Some(a) => {
                out.append(" AS ");
                push_quoted(out, a.as_str());
            },
            None => {},
        }
        proof {
            let want = item_sql(*it, n0);
            assert(out@ =~= o0 + want->Ok_0.0);
            assert(self.binds() =~= b0 + want->Ok_0.1);
        }
        Ok(())
    }

    #[verifier::spinoff_prover]
    fn compile_aggregate_nodes(&mut self, out: &mut String, aggs: &Vec<AggregateNode>, i: usize) -> (r: Result<(), Error>)
        requires
            i <= aggs.len(),
        ensures
            appended(r, old(out)@, final(out)@, old(self).binds(), final(self).binds(), aggregate_nodes_sql(aggs@, i as int, old(self).binds().len())),
        decreases aggs@, aggs@.len() - i,
    {
        reveal_with_fuel(aggregate_nodes_sql, 1);
        let ghost o0 = out@;
        let ghost b0 = self.binds();
        let ghost n0 = self.binds().len();
        if i == aggs.len() {
            proof {
                assert(out@ =~= o0 + Seq::<char>::empty());
                assert(self.binds() =~= b0 + Seq::<DbValueView>::empty());
            }
            return Ok(());
        }
        self.compile_aggregate_node(out, &aggs[i])?;
        if i + 1 < aggs.len() {
            out.append(", ");
            self.compile_aggregate_nodes(out, aggs, i + 1)?;
        }
        proof {
            let want = aggregate_nodes_sql(aggs@, i as int, n0);
            assert(out@ =~= o0 + want->Ok_0.0);
            assert(self.binds() =~= b0 + want->Ok_0.1);
        }
        Ok(())
    }

    #[verifier::spinoff_prover]
    fn compile_aggregate_node(&mut self, out: &mut String, a: &AggregateNode) -> (r: Result<(), Error>)
        ensures
            appended(r, old(out)@, final(out)@, old(self).binds(), final(self).binds(), aggregate_node_sql(*a, old(self).binds().len())),
        decreases *a, 1int,
    {
        reveal_with_fuel(aggregate_node_sql, 1);
        let ghost o0 = out@;
        let ghost b0 = self.binds();
        let ghost n0 = self.binds().len();
        let numeric = match aggregate_db_type(&a.aggregate) {
            Some(DbType::Numeric) => true,
            _ => false,
        };
        if numeric {
            out.append("(");
        }
        self.compile_aggregate(out, &a.aggregate)?;
        if numeric {
            out.append(")::text");
        }
        out.append(" AS ");
        push_quoted(out, a.alias.as_str());
        proof {
            let want = aggregate_node_sql(*a, n0);
            assert(out@ =~= o0 + want->Ok_0.0);
        }
        Ok(())
    }

    #[verifier::spinoff_prover]
    fn compile_aggregate(&mut self, out: &mut String, a: &AggregateExpr) -> (r: Result<(), Error>)
        ensures
            appended(r, old(out)@, final(out)@, old(self).binds(), final(self).binds(), aggregate_sql(*a, old(self).binds().len())),
        decreases *a, 1int,
    {
        reveal_with_fuel(aggregate_sql, 1);
        let ghost o0 = out@;
        let ghost b0 = self.binds();
        let ghost n0 = self.binds().len();
        match &a.expr {
            None => {
                if a.function == AggregateFn::Count && !a.distinct {
                    out.append("COUNT(*)");
                    proof {
                        assert(self.binds() =~= b0 + Seq::<DbValueView>::empty());
                    }
                    Ok(())
                } else if a.function == AggregateFn::Count {
                    Err(Error::message(owned("count distinct requires an expression")))
                } else {
                    Err(Error::message(owned("aggregate function requires an expression unless using count(*)")))
                }
            },
            Some(x) => {
                out.append(aggregate_fn_name(a.function));
                out.append("(");
                if a.distinct {
                    out.append("DISTINCT ");
                }
                self.compile_expr(out, x)?;
                out.append(")");
                proof {
                    let want = aggregate_sql(*a, n0);
                    assert(out@ =~= o0 + want->Ok_0.0);
                }
                Ok(())
            },
        }
    }

    #[verifier::spinoff_prover]
    fn compile_from_item(&mut self, out: &mut String, f: &FromItem) -> (r: Result<(), Error>)
        ensures
            appended(r, old(out)@, final(out)@, old(self).binds(), final(self).binds(), from_item_sql(*f, old(self).binds().len())),
        decreases *f, 1int,
    {
        reveal_with_fuel(from_item_sql, 1);
        let ghost o0 = out@;
        let ghost b0 = self.binds();
        let ghost n0 = self.binds().len();
        match f {
            FromItem::Table(t) => {
                push_table(out, t);
                proof {
                    assert(self.binds() =~= b0 + Seq::<DbValueView>::empty());
                }
                Ok(())
            },
            FromItem::Subquery { query, alias } => {
                out.append("(");
                self.compile_query(out, query)?;
                out.append(") AS ");
                push_quoted(out, alias.as_str());
                proof {
                    let want = from_item_sql(*f, n0);
                    assert(out@ =~= o0 + want->Ok_0.0);
                }
                Ok(())
            },
        }
    }

    #[verifier::spinoff_prover]
    fn compile_from_items(&mut self, out: &mut String, fs: &Vec<FromItem>, i: usize) -> (r: Result<(), Error>)
        requires
            i <= fs.len(),
        ensures
            appended(r, old(out)@, final(out)@, old(self).binds(), final(self).binds(), from_items_sql(fs@, i as int, old(self).binds().len())),
        decreases fs@, fs@.len() - i,
    {
        reveal_with_fuel(from_items_sql, 1);
        let ghost o0 = out@;
        let ghost b0 = self.binds();
        let ghost n0 = self.binds().len();
        if i == fs.len() {
            proof {
                assert(out@ =~= o0 + Seq::<char>::empty());
                assert(self.binds() =~= b0 + Seq::<DbValueView>::empty());
            }
            return Ok(());
        }
        self.compile_from_item(out, &fs[i])?;
        if i + 1 < fs.len() {
            out.append(", ");
            self.compile_from_items(out, fs, i + 1)?;
        }
        proof {
            let want = from_items_sql(fs@, i as int, n0);
            assert(out@ =~= o0 + want->Ok_0.0);
            assert(self.binds() =~= b0 + want->Ok_0.1);
        }
        Ok(())
    }

    #[verifier::spinoff_prover]
    fn compile_joins(&mut self, out: &mut String, js: &Vec<JoinNode>, i: usize) -> (r: Result<(), Error>)
        requires
            i <= js.len(),
        ensures
            appended(r, old(out)@, final(out)@, old(self).binds(), final(self).binds(), joins_sql(js@, i as int, old(self).binds().len())),
        decreases js@, js@.len() - i,
    {
        reveal_with_fuel(joins_sql, 1);
        let ghost o0 = out@;
        let ghost b0 = self.binds();
        let ghost n0 = self.binds().len();
        if i == js.len() {
            proof {
                assert(out@ =~= o0 + Seq::<char>::empty());
                assert(self.binds() =~= b0 + Seq::<DbValueView>::empty());
            }
            return Ok(());
        }
        self.compile_join(out, &js[i])?;
        self.compile_joins(out, js, i + 1)?;
        proof {
            let want = joins_sql(js@, i as int, n0);
            assert(out@ =~= o0 + want->Ok_0.0);
            assert(self.binds() =~= b0 + want->Ok_0.1);
        }
        Ok(())
    }

    #[verifier::spinoff_prover]
    fn compile_join(&mut self, out: &mut String, j: &JoinNode) -> (r: Result<(), Error>)
        ensures
            appended(r, old(out)@, final(out)@, old(self).binds(), final(self).binds(), join_sql(*j, old(self).binds().len())),
        decreases *j, 1int,
    {
        reveal_with_fuel(join_sql, 1);
        let ghost o0 = out@;
        let ghost b0 = self.binds();
        let ghost n0 = self.binds().len();
        out.append(" ");
        out.append(join_kind_name(j.kind));
        if j.lateral {
            out.append(" LATERAL");
        }
        out.append(" ");
        self.compile_from_item(out, &j.table)?;
        if j.kind == JoinKind::Cross {
            match &j.on {
                None => {
                    proof {
                        let want = join_sql(*j, n0);
                        assert(out@ =~= o0 + want->Ok_0.0);
                        assert(self.binds() =~= b0 + want->Ok_0.1);
                    }
                    Ok(())
                },
                Some(_) => Err(Error::message(owned("cross join does not support ON conditions"))),
            }
        } else {
            match &j.on {
                None => Err(Error::message(owned("joined queries require an ON condition unless using CROSS JOIN"))),
                Some(c) => {
                    out.append(" ON ");
                    self.compile_condition(out, c)?;
                    proof {
                        let want = join_sql(*j, n0);
                        assert(out@ =~= o0 + want->Ok_0.0);
                        assert(self.binds() =~= b0 + want->Ok_0.1);
                    }
                    Ok(())
                },
            }
        }
    }

    #[verifier::spinoff_prover]
    fn compile_exprs(&mut self, out: &mut String, es: &Vec<Expr>, i: usize, sep: &str) -> (r: Result<(), Error>)
        requires
            i <= es.len(),
        ensures
            appended(r, old(out)@, final(out)@, old(self).binds(), final(self).binds(), exprs_sql(es@, i as int, sep@, old(self).binds().len())),
        decreases es@, es@.len() - i,
    {
        reveal_with_fuel(exprs_sql, 1);
        let ghost o0 = out@;
        let ghost b0 = self.binds();
        let ghost n0 = self.binds().len();
        if i == es.len() {
            proof {
                assert(out@ =~= o0 + Seq::<char>::empty());
                assert(self.binds() =~= b0 + Seq::<DbValueView>::empty());
            }
            return Ok(());
        }
        self.compile_expr(out, &es[i])?;
        if i + 1 < es.len() {
            out.append(sep);
            self.compile_exprs(out, es, i + 1, sep)?;
        }
        proof {
            let want = exprs_sql(es@, i as int, sep@, n0);
            assert(out@ =~= o0 + want->Ok_0.0);
            assert(self.binds() =~= b0 + want->Ok_0.1);
        }
        Ok(())
    }

    #[verifier::spinoff_prover]
    fn compile_conditions(&mut self, out: &mut String, cs: &Vec<Condition>, i: usize, sep: &str) -> (r: Result<(), Error>)
        requires
            i <= cs.len(),
        ensures
            appended(r, old(out)@, final(out)@, old(self).binds(), final(self).binds(), conditions_sql(cs@, i as int, sep@, old(self).binds().len())),
        decreases cs@, cs@.len() - i,
    {
        reveal_with_fuel(conditions_sql, 1);
        let ghost o0 = out@;
        let ghost b0 = self.binds();
        let ghost n0 = self.binds().len();
        if i == cs.len() {
            proof {
                assert(out@ =~= o0 + Seq::<char>::empty());
                assert(self.binds() =~= b0 + Seq::<DbValueView>::empty());
            }
            return Ok(());
        }
        self.compile_condition(out, &cs[i])?;
        if i + 1 < cs.len() {
            out.append(sep);
            self.compile_conditions(out, cs, i + 1, sep)?;
        }
        proof {
            let want = conditions_sql(cs@, i as int, sep@, n0);
            assert(out@ =~= o0 + want->Ok_0.0);
            assert(self.binds() =~= b0 + want->Ok_0.1);
        }
        Ok(())
    }

    #[verifier::spinoff_prover]
    fn compile_orders(&mut self, out: &mut String, os: &Vec<OrderBy>, i: usize) -> (r: Result<(), Error>)
        requires
            i <= os.len(),
        ensures
            appended(r, old(out)@, final(out)@, old(self).binds(), final(self).binds(), orders_sql(os@, i as int, old(self).binds().len())),
        decreases os@, os@.len() - i,
    {
        reveal_with_fuel(orders_sql, 1);
        let ghost o0 = out@;
        let ghost b0 = self.binds();
        let ghost n0 = self.binds().len();
        if i == os.len() {
            proof {
                assert(out@ =~= o0 + Seq::<char>::empty());
                assert(self.binds() =~= b0 + Seq::<DbValueView>::empty());
            }
            return Ok(());
        }
        self.compile_order(out, &os[i])?;
        if i + 1 < os.len() {
            out.append(", ");
            self.compile_orders(out, os, i + 1)?;
        }
        proof {
            let want = orders_sql(os@, i as int, n0);
            assert(out@ =~= o0 + want->Ok_0.0);
            assert(self.binds() =~= b0 + want->Ok_0.1);
        }
        Ok(())
    }

    #[verifier::spinoff_prover]
    fn compile_order(&mut self, out: &mut String, o: &OrderBy) -> (r: Result<(), Error>)
        ensures
            appended(r, old(out)@, final(out)@, old(self).binds(), final(self).binds(), order_sql(*o, old(self).binds().len())),
        decreases *o, 1int,
    {
        reveal_with_fuel(order_sql, 1);
        let ghost o0 = out@;
        let ghost n0 = self.binds().len();
        self.compile_expr(out, &o.expr)?;
        out.append(" ");
        out.append(direction_name(o.direction));
        proof {
            let want = order_sql(*o, n0);
            assert(out@ =~= o0 + want->Ok_0.0);
        }
        Ok(())
    }
}

fn any_cte_recursive(cs: &Vec<CteNode>) -> (b: bool)
    ensures
        b == any_recursive(cs@),
{
    let mut i: usize = 0;
    while i < cs.len()
        invariant
            i <= cs.len(),
            forall|j: int| 0 <= j < i ==> !(#[trigger] cs@[j]).recursive,
        decreases cs.len() - i,
    {
        if cs[i].recursive {
            return true;
        }
        i = i + 1;
    }
    false
}

fn direction_name(d: OrderDirection) -> (s: &'static str)
    ensures
        s@ == (match d {
            OrderDirection::Asc => "ASC"@,
            OrderDirection::Desc => "DESC"@,
        }),
{
    match d {
        OrderDirection::Asc => "ASC",
        OrderDirection::Desc => "DESC",
    }
}

fn join_kind_name(k: JoinKind) -> (s: &'static str)
    ensures
        s@ == join_kind_sql(k),
{
    match k {
        JoinKind::Inner => "INNER JOIN",
        JoinKind::Left => "LEFT JOIN",
        JoinKind::Right => "RIGHT JOIN",
        JoinKind::Full => "FULL OUTER JOIN",
        JoinKind::Cross => "CROSS JOIN",
    }
}


impl CompilerState {
    #[verifier::spinoff_prover]
    fn compile_insert(&mut self, out: &mut String, ins: &InsertNode) -> (r: Result<(), Error>)
        ensures
            appended(r, old(out)@, final(out)@, old(self).binds(), final(self).binds(), insert_sql(*ins, old(self).binds().len())),
        decreases *ins, 2int,
    {
        reveal_with_fuel(insert_sql, 1);
        let ghost o0 = out@;
        let ghost b0 = self.binds();
        let ghost n0 = self.binds().len();
        out.append("INSERT INTO ");
        push_table(out, &ins.into);
        out.append(" ");
        self.compile_insert_source(out, ins)?;
        let ghost o1 = out@;
        let ghost b1 = self.binds();
        match &ins.on_conflict {
            Some(oc) => {
                out.append(" ");
                self.compile_on_conflict(out, oc)?;
            },
            None => {},
        }
        proof {
            if ins.on_conflict is None {
                assert(out@ =~= o1 + Seq::<char>::empty());
                assert(self.binds() =~= b1 + Seq::<DbValueView>::empty());
            }
        }
        self.compile_returning(out, &ins.returning)?;
        proof {
            let want = insert_sql(*ins, n0);
            assert(out@ =~= o0 + want->Ok_0.0);
            assert(self.binds() =~= b0 + want->Ok_0.1);
        }
        Ok(())
    }

    #[verifier::spinoff_prover]
    fn compile_insert_source(&mut self, out: &mut String, ins: &InsertNode) -> (r: Result<(), Error>)
        ensures
            appended(r, old(out)@, final(out)@, old(self).binds(), final(self).binds(), insert_source_sql(*ins, old(self).binds().len())),
        decreases *ins, 1int,
    {
        reveal_with_fuel(insert_source_sql, 1);
        let ghost o0 = out@;
        let ghost b0 = self.binds();
        let ghost n0 = self.binds().len();
        match &ins.source {
            InsertSource::Values(rows) => {
                check_values(rows)?;
                out.append("(");
                push_row_names(out, &rows[0], 0);
                out.append(") VALUES ");
                self.compile_value_rows(out, rows, &rows[0], 0)?;
                proof {
                    let want = insert_source_sql(*ins, n0);
                    assert(out@ =~= o0 + want->Ok_0.0);
                    assert(self.binds() =~= b0 + want->Ok_0.1);
                }
                Ok(())
            },
            InsertSource::Select(q) => match &q.body {
                QueryBody::Select(sel) => {
                    if sel.columns.len() == 0 {
                        return Err(Error::message(owned("insert select queries require explicit selected columns")));
                    }
                    if !columns_are_plain(&sel.columns) {
                        return Err(Error::message(owned("insert select queries require direct column expressions")));
                    }
                    out.append("(");
                    push_select_column_names(out, &sel.columns, 0);
                    out.append(") ");
                    self.compile_query(out, q)?;
                    proof {
                        let want = insert_source_sql(*ins, n0);
                        assert(out@ =~= o0 + want->Ok_0.0);
                        assert(self.binds() =~= b0 + want->Ok_0.1);
                    }
                    Ok(())
                },
                QueryBody::SetOperation(_) => Err(Error::message(owned(
                    "insert select source requires explicit target columns; use the insert target columns as the source projection order",
                ))),
                _ => Err(Error::message(owned("insert select source must be a select or set-operation query"))),
            },
        }
    }

    #[verifier::spinoff_prover]
    fn compile_value_rows(
        &mut self,
        out: &mut String,
        rows: &Vec<Vec<(ColumnRef, Expr)>>,
        canon: &Vec<(ColumnRef, Expr)>,
        i: usize,
    ) -> (r: Result<(), Error>)
        requires
            i <= rows.len(),
        ensures
            appended(r, old(out)@, final(out)@, old(self).binds(), final(self).binds(), value_rows_sql(rows@, canon@, i as int, old(self).binds().len())),
        decreases rows@, rows@.len() - i,
    {
        reveal_with_fuel(value_rows_sql, 1);
        let ghost o0 = out@;
        let ghost b0 = self.binds();
        let ghost n0 = self.binds().len();
        if i == rows.len() {
            proof {
                assert(out@ =~= o0 + Seq::<char>::empty());
                assert(self.binds() =~= b0 + Seq::<DbValueView>::empty());
            }
            return Ok(());
        }
        out.append("(");
        self.compile_row_exprs(out, &rows[i], canon, 0)?;
        out.append(")");
        if i + 1 < rows.len() {
            out.append(", ");
            self.compile_value_rows(out, rows, canon, i + 1)?;
        }
        proof {
            let want = value_rows_sql(rows@, canon@, i as int, n0);
            assert(out@ =~= o0 + want->Ok_0.0);
            assert(self.binds() =~= b0 + want->Ok_0.1);
        }
        Ok(())
    }

    #[verifier::spinoff_prover]
    fn compile_row_exprs(
        &mut self,
        out: &mut String,
        row: &Vec<(ColumnRef, Expr)>,
        canon: &Vec<(ColumnRef, Expr)>,
        k: usize,
    ) -> (r: Result<(), Error>)
        requires
            k <= canon.len(),
        ensures
            appended(r, old(out)@, final(out)@, old(self).binds(), final(self).binds(), row_exprs_sql(row@, canon@, k as int, old(self).binds().len())),
        decreases row@, canon@.len() - k,
    {
        reveal_with_fuel(row_exprs_sql, 1);
        let ghost o0 = out@;
        let ghost b0 = self.binds();
        let ghost n0 = self.binds().len();
        if k == canon.len() {
            proof {
                assert(out@ =~= o0 + Seq::<char>::empty());
                assert(self.binds() =~= b0 + Seq::<DbValueView>::empty());
            }
            return Ok(());
        }
        let name = &canon[k].0.name;
        let (_, p) = count_name(row, name);
        if p >= row.len() {
            return Err(Error::message(name_message("insert row is missing required column `", name)));
        }
        self.compile_expr(out, &row[p].1)?;
        if k + 1 < canon.len() {
            out.append(", ");
            self.compile_row_exprs(out, row, canon, k + 1)?;
        }
        proof {
            let want = row_exprs_sql(row@, canon@, k as int, n0);
            assert(out@ =~= o0 + want->Ok_0.0);
            assert(self.binds() =~= b0 + want->Ok_0.1);
        }
        Ok(())
    }

    #[verifier::spinoff_prover]
    fn compile_on_conflict(&mut self, out: &mut String, oc: &OnConflictNode) -> (r: Result<(), Error>)
        ensures
            appended(r, old(out)@, final(out)@, old(self).binds(), final(self).binds(), on_conflict_sql(*oc, old(self).binds().len())),
            (oc.action matches OnConflictAction::DoUpdate(u) && (oc.target is None || u.assignments@.len() == 0))
                ==> final(self).binds() == old(self).binds(),
        decreases *oc, 1int,
    {
        reveal_with_fuel(on_conflict_sql, 1);
        let ghost o0 = out@;
        let ghost b0 = self.binds();
        let ghost n0 = self.binds().len();
        out.append("ON CONFLICT ");
        match &oc.target {
            Some(t) => {
                push_conflict_target(out, t);
                out.append(" ");
            },
            None => {},
        }
        let ghost o1 = out@;
        match &oc.action {
            OnConflictAction::DoNothing => {
                out.append("DO NOTHING");
                proof {
                    assert(self.binds() =~= b0 + Seq::<DbValueView>::empty());
                }
            },
            OnConflictAction::DoUpdate(u) => {
                match &oc.target {
                    None => {
                        return Err(Error::message(owned(
                            "on conflict do update requires conflict columns or a named constraint",
                        )));
                    },
                    Some(_) => {},
                }
                if u.assignments.len() == 0 {
                    return Err(Error::message(owned("on conflict do update requires at least one assignment")));
                }
                out.append("DO UPDATE SET ");
                self.compile_assignments(out, &u.assignments, 0)?;
                self.compile_opt_condition(out, &u.condition, " WHERE ")?;
            },
        }
        proof {
            let want = on_conflict_sql(*oc, n0);
            assert(out@ =~= o0 + want->Ok_0.0);
            assert(self.binds() =~= b0 + want->Ok_0.1);
        }
        Ok(())
    }

    #[verifier::spinoff_prover]
    fn compile_assignments(&mut self, out: &mut String, asg: &Vec<(ColumnRef, Expr)>, i: usize) -> (r: Result<(), Error>)
        requires
            i <= asg.len(),
        ensures
            appended(r, old(out)@, final(out)@, old(self).binds(), final(self).binds(), assignments_sql(asg@, i as int, old(self).binds().len())),
        decreases asg@, asg@.len() - i,
    {
        reveal_with_fuel(assignments_sql, 1);
        let ghost o0 = out@;
        let ghost b0 = self.binds();
        let ghost n0 = self.binds().len();
        if i == asg.len() {
            proof {
                assert(out@ =~= o0 + Seq::<char>::empty());
                assert(self.binds() =~= b0 + Seq::<DbValueView>::empty());
            }
            return Ok(());
        }
        push_quoted(out, asg[i].0.name.as_str());
        out.append(" = ");
        self.compile_expr(out, &asg[i].1)?;
        if i + 1 < asg.len() {
            out.append(", ");
            self.compile_assignments(out, asg, i + 1)?;
        }
        proof {
            let want = assignments_sql(asg@, i as int, n0);
            assert(out@ =~= o0 + want->Ok_0.0);
            assert(self.binds() =~= b0 + want->Ok_0.1);
        }
        Ok(())
    }

    #[verifier::spinoff_prover]
    fn compile_returning(&mut self, out: &mut String, items: &Vec<SelectItem>) -> (r: Result<(), Error>)
        ensures
            appended(r, old(out)@, final(out)@, old(self).binds(), final(self).binds(), returning_sql(items@, old(self).binds().len())),
        decreases items@, items@.len() + 1,
    {
        reveal_with_fuel(returning_sql, 1);
        let ghost o0 = out@;
        let ghost b0 = self.binds();
        let ghost n0 = self.binds().len();
        if items.len() == 0 {
            proof {
                assert(out@ =~= o0 + Seq::<char>::empty());
                assert(self.binds() =~= b0 + Seq::<DbValueView>::empty());
            }
            return Ok(());
        }
        out.append(" RETURNING ");
        self.compile_items(out, items, 0)?;
        proof {
            let want = returning_sql(items@, n0);
            assert(out@ =~= o0 + want->Ok_0.0);
        }
        Ok(())
    }

    #[verifier::spinoff_prover]
    fn compile_from_list(&mut self, out: &mut String, fs: &Vec<FromItem>, prefix: &str) -> (r: Result<(), Error>)
        ensures
            appended(r, old(out)@, final(out)@, old(self).binds(), final(self).binds(), from_list_sql(fs@, prefix@, old(self).binds().len())),
        decreases fs@, fs@.len() + 1,
    {
        reveal_with_fuel(from_list_sql, 1);
        let ghost o0 = out@;
        let ghost b0 = self.binds();
        let ghost n0 = self.binds().len();
        if fs.len() == 0 {
            proof {
                assert(out@ =~= o0 + Seq::<char>::empty());
                assert(self.binds() =~= b0 + Seq::<DbValueView>::empty());
            }
            return Ok(());
        }
        out.append(prefix);
        self.compile_from_items(out, fs, 0)?;
        proof {
            let want = from_list_sql(fs@, prefix@, n0);
            assert(out@ =~= o0 + want->Ok_0.0);
        }
        Ok(())
    }

    #[verifier::spinoff_prover]
    fn compile_update(&mut self, out: &mut String, u: &UpdateNode) -> (r: Result<(), Error>)
        ensures
            appended(r, old(out)@, final(out)@, old(self).binds(), final(self).binds(), update_sql(*u, old(self).binds().len())),
            u.values@.len() == 0 ==> final(self).binds() == old(self).binds() && final(out)@ == old(out)@,
        decreases *u, 1int,
    {
        reveal_with_fuel(update_sql, 1);
        let ghost o0 = out@;
        let ghost b0 = self.binds();
        let ghost n0 = self.binds().len();
        if u.values.len() == 0 {
            return Err(Error::message(owned("update query requires at least one value")));
        }
        out.append("UPDATE ");
        push_table(out, &u.table);
        out.append(" SET ");
        self.compile_assignments(out, &u.values, 0)?;
        self.compile_from_list(out, &u.from, " FROM ")?;
        self.compile_opt_condition(out, &u.condition, " WHERE ")?;
        self.compile_returning(out, &u.returning)?;
        proof {
            let want = update_sql(*u, n0);
            assert(out@ =~= o0 + want->Ok_0.0);
            assert(self.binds() =~= b0 + want->Ok_0.1);
        }
        Ok(())
    }

    #[verifier::spinoff_prover]
    fn compile_delete(&mut self, out: &mut String, d: &DeleteNode) -> (r: Result<(), Error>)
        ensures
            appended(r, old(out)@, final(out)@, old(self).binds(), final(self).binds(), delete_sql(*d, old(self).binds().len())),
        decreases *d, 1int,
    {
        reveal_with_fuel(delete_sql, 1);
        let ghost o0 = out@;
        let ghost b0 = self.binds();
        let ghost n0 = self.binds().len();
        out.append("DELETE FROM ");
        push_table(out, &d.from);
        self.compile_from_list(out, &d.using, " USING ")?;
        self.compile_opt_condition(out, &d.condition, " WHERE ")?;
        self.compile_returning(out, &d.returning)?;
        proof {
            let want = delete_sql(*d, n0);
            assert(out@ =~= o0 + want->Ok_0.0);
            assert(self.binds() =~= b0 + want->Ok_0.1);
        }
        Ok(())
    }

    #[verifier::spinoff_prover]
    fn compile_case(&mut self, out: &mut String, c: &CaseExpr) -> (r: Result<(), Error>)
        ensures
            appended(r, old(out)@, final(out)@, old(self).binds(), final(self).binds(), case_sql(*c, old(self).binds().len())),
        decreases *c, 1int,
    {
        reveal_with_fuel(case_sql, 1);
        let ghost o0 = out@;
        let ghost b0 = self.binds();
        let ghost n0 = self.binds().len();
        if c.whens.len() == 0 {
            return Err(Error::message(owned("case expression requires at least one when branch")));
        }
        out.append("CASE");
        self.compile_whens(out, &c.whens, 0)?;
        let ghost o1 = out@;
        let ghost b1 = self.binds();
        match &c.else_expr {
            Some(x) => {
                out.append(" ELSE ");
                self.compile_expr(out, x)?;
            },
            None => {},
        }
        proof {
            if c.else_expr is None {
                assert(out@ =~= o1 + Seq::<char>::empty());
                assert(self.binds() =~= b1 + Seq::<DbValueView>::empty());
            }
        }
        out.append(" END");
        proof {
            let want = case_sql(*c, n0);
            assert(out@ =~= o0 + want->Ok_0.0);
            assert(self.binds() =~= b0 + want->Ok_0.1);
        }
        Ok(())
    }

    #[verifier::spinoff_prover]
    fn compile_whens(&mut self, out: &mut String, ws: &Vec<CaseWhen>, i: usize) -> (r: Result<(), Error>)
        requires
            i <= ws.len(),
        ensures
            appended(r, old(out)@, final(out)@, old(self).binds(), final(self).binds(), whens_sql(ws@, i as int, old(self).binds().len())),
        decreases ws@, ws@.len() - i,
    {
        reveal_with_fuel(whens_sql, 1);
        let ghost o0 = out@;
        let ghost b0 = self.binds();
        let ghost n0 = self.binds().len();
        if i == ws.len() {
            proof {
                assert(out@ =~= o0 + Seq::<char>::empty());
                assert(self.binds() =~= b0 + Seq::<DbValueView>::empty());
            }
            return Ok(());
        }
        out.append(" WHEN ");
        self.compile_condition(out, &ws[i].condition)?;
        out.append(" THEN ");
        self.compile_expr(out, &ws[i].result)?;
        self.compile_whens(out, ws, i + 1)?;
        proof {
            let want = whens_sql(ws@, i as int, n0);
            assert(out@ =~= o0 + want->Ok_0.0);
            assert(self.binds() =~= b0 + want->Ok_0.1);
        }
        Ok(())
    }
}

fn push_conflict_target(out: &mut String, t: &OnConflictTarget)
    ensures
        final(out)@ == old(out)@ + conflict_target_sql(*t),
{
    let ghost o0 = out@;
    match t {
        OnConflictTarget::Columns(cs) => {
            out.append("(");
            push_quoted_columns(out, cs, 0);
            out.append(")");
        },
        OnConflictTarget::Constraint(c) => {
            out.append("ON CONSTRAINT ");
            push_quoted(out, c.as_str());
        },
    }
    proof {
        assert(out@ =~= o0 + conflict_target_sql(*t));
    }
}

/// Appends the SQL of a binary operator; custom operators are checked first.
fn push_binary_operator(out: &mut String, op: &BinaryOperator) -> (r: Result<(), Error>)
    ensures
        match binary_op_sql(*op) {
            Ok(s) => r is Ok && final(out)@ == old(out)@ + s,
            Err(m) => r matches Err(e) && e.is_plain() && e@ == m,
        },
{
    match op {
        BinaryOperator::Add => out.append("+"),
        BinaryOperator::Subtract => out.append("-"),
        BinaryOperator::Multiply => out.append("*"),
        BinaryOperator::Divide => out.append("/"),
        BinaryOperator::Concat => out.append("||"),
        BinaryOperator::Custom(s) => {
            validate_custom_operator(s.as_str())?;
            out.append(s.as_str());
        },
    }
    Ok(())
}

impl CompilerState {
    #[verifier::spinoff_prover]
    fn compile_function(&mut self, out: &mut String, f: &FunctionCall) -> (r: Result<(), Error>)
        ensures
            appended(r, old(out)@, final(out)@, old(self).binds(), final(self).binds(), function_sql(*f, old(self).binds().len())),
        decreases *f, 1int,
    {
        reveal_with_fuel(function_sql, 1);
        let ghost o0 = out@;
        let ghost b0 = self.binds();
        let ghost n0 = self.binds().len();
        if str_eq_ignore_ascii_case(f.name.as_str(), "EXTRACT") {
            if f.args.len() != 2 {
                return Err(Error::message(owned("EXTRACT requires a field name and expression argument")));
            }
            match &f.args[0] {
                Expr::Value(DbValue::Text(field)) => {
                    validate_extract_field(field.as_str())?;
                    out.append("EXTRACT(");
                    out.append(field.as_str());
                    out.append(" FROM ");
                    self.compile_expr(out, &f.args[1])?;
                    out.append(")");
                    proof {
                        let want = function_sql(*f, n0);
                        assert(out@ =~= o0 + want->Ok_0.0);
                    }
                    Ok(())
                },
                _ => Err(Error::message(owned("EXTRACT requires the first argument to be a text field name"))),
            }
        } else if str_eq_ignore_ascii_case(f.name.as_str(), "JSONB_TEXT_OR_FIRST") {
            if f.args.len() != 2 {
                return Err(Error::message(owned("JSONB_TEXT_OR_FIRST requires a JSONB expression and preferred key")));
            }
            match &f.args[1] {
                Expr::Value(DbValue::Text(key)) => {
                    let mut inner = String::new();
                    self.compile_expr(&mut inner, &f.args[0])?;
                    out.append("COALESCE((");
                    out.append(inner.as_str());
                    out.append(")->>");
                    self.bind_text(out, key);
                    out.append(", (SELECT value FROM jsonb_each_text(");
                    out.append(inner.as_str());
                    out.append(") LIMIT 1))");
                    proof {
                        let want = function_sql(*f, n0);
                        assert(out@ =~= o0 + want->Ok_0.0);
                        assert(self.binds() =~= b0 + want->Ok_0.1);
                    }
                    Ok(())
                },
                _ => Err(Error::message(owned("JSONB_TEXT_OR_FIRST requires the second argument to be a text key"))),
            }
        } else {
            out.append(f.name.as_str());
            out.append("(");
            self.compile_exprs(out, &f.args, 0, ", ")?;
            out.append(")");
            proof {
                let want = function_sql(*f, n0);
                assert(out@ =~= o0 + want->Ok_0.0);
            }
            Ok(())
        }
    }

    #[verifier::spinoff_prover]
    fn compile_binary(&mut self, out: &mut String, be: &BinaryExpr) -> (r: Result<(), Error>)
        ensures
            appended(r, old(out)@, final(out)@, old(self).binds(), final(self).binds(), binary_sql(*be, old(self).binds().len())),
        decreases *be, 1int,
    {
        reveal_with_fuel(binary_sql, 1);
        let ghost o0 = out@;
        let ghost b0 = self.binds();
        let ghost n0 = self.binds().len();
        out.append("(");
        self.compile_expr(out, &be.left)?;
        out.append(" ");
        push_binary_operator(out, &be.operator)?;
        out.append(" ");
        self.compile_expr(out, &be.right)?;
        out.append(")");
        proof {
            let want = binary_sql(*be, n0);
            assert(out@ =~= o0 + want->Ok_0.0);
            assert(self.binds() =~= b0 + want->Ok_0.1);
        }
        Ok(())
    }

    #[verifier::spinoff_prover]
    fn compile_window_spec(&mut self, out: &mut String, w: &WindowSpec) -> (r: Result<(), Error>)
        ensures
            appended(r, old(out)@, final(out)@, old(self).binds(), final(self).binds(), window_spec_sql(*w, old(self).binds().len())),
        decreases *w, 1int,
    {
        reveal_with_fuel(window_spec_sql, 1);
        proof {
            reveal_strlit("PARTITION BY ");
            reveal_strlit("ORDER BY ");
            reveal_strlit("ROWS");
            reveal_strlit("RANGE");
        }
        let ghost o0 = out@;
        let ghost b0 = self.binds();
        let ghost n0 = self.binds().len();
        let ghost pr: Res = if w.partition_by.len() == 0 {
            lit(Seq::empty())
        } else {
            match exprs_sql(w.partition_by@, 0, ", "@, n0) {
                Err(m) => Err(m),
                Ok((s, b)) => Ok(("PARTITION BY "@ + s, b)),
            }
        };
        let mut wrote = false;
        if w.partition_by.len() > 0 {
            out.append("PARTITION BY ");
            self.compile_exprs(out, &w.partition_by, 0, ", ")?;
            wrote = true;
        }
        let ghost o1 = out@;
        let ghost b1 = self.binds();
        proof {
            assert(pr is Ok);
            assert(o1 =~= o0 + pr->Ok_0.0);
            assert(b1 =~= b0 + pr->Ok_0.1);
            assert(wrote == (pr->Ok_0.0.len() > 0));
        }
        let ghost orr: Res = if w.order_by.len() == 0 {
            lit(Seq::empty())
        } else {
            match orders_sql(w.order_by@, 0, n0 + pr->Ok_0.1.len()) {
                Err(m) => Err(m),
                Ok((s, b)) => Ok(("ORDER BY "@ + s, b)),
            }
        };
        if w.order_by.len() > 0 {
            if wrote {
                out.append(" ");
            }
            out.append("ORDER BY ");
            self.compile_orders(out, &w.order_by, 0)?;
            wrote = true;
        }
        let ghost o2 = out@;
        proof {
            assert(orr is Ok);
            let ps = pr->Ok_0.0;
            let os = orr->Ok_0.0;
            assert(self.binds() =~= b0 + (pr->Ok_0.1 + orr->Ok_0.1));
            assert(o2 =~= o0 + space_join(ps, os));
            assert(wrote == (space_join(ps, os).len() > 0));
        }
        let ghost fs: Seq<char> = match w.frame {
            Some(fr) => frame_sql(fr),
            None => Seq::<char>::empty(),
        };
        match &w.frame {
            Some(fr) => {
                if wrote {
                    out.append(" ");
                }
                push_frame(out, fr);
            },
            None => {},
        }
        proof {
            let want = window_spec_sql(*w, n0);
            assert(out@ =~= o0 + space_join(space_join(pr->Ok_0.0, orr->Ok_0.0), fs));
            assert(out@ =~= o0 + want->Ok_0.0);
            assert(self.binds() =~= b0 + want->Ok_0.1);
        }
        Ok(())
    }

    fn push_json_predicate(&mut self, e: &mut String, op: JsonPredicateOp, v: &JsonPredicateValue) -> (r: Result<(), Error>)
        ensures
            match json_predicate_sql(old(e)@, op, *v, old(self).binds().len()) {
                Ok((s, b)) => r is Ok && final(e)@ == s && final(self).binds() == old(self).binds() + b,
                Err(m) => r matches Err(x) && x.is_plain() && x@ == m,
            },
    {
        let ghost e0 = e@;
        let ghost b0 = self.binds();
        match (op, v) {
            (JsonPredicateOp::Contains, JsonPredicateValue::Json(j)) => {
                e.append(" @> ");
                self.bind_value(e, DbValue::Json(j.clone()));
            },
            (JsonPredicateOp::ContainedBy, JsonPredicateValue::Json(j)) => {
                e.append(" <@ ");
                self.bind_value(e, DbValue::Json(j.clone()));
            },
            (JsonPredicateOp::HasKey, JsonPredicateValue::Key(k)) => {
                e.append(" ? ");
                self.bind_text(e, k);
            },
            (JsonPredicateOp::HasAnyKeys, JsonPredicateValue::Keys(ks)) => {
                e.append(" ?| ");
                self.bind_text_array(e, ks);
            },
            (JsonPredicateOp::HasAllKeys, JsonPredicateValue::Keys(ks)) => {
                e.append(" ?& ");
                self.bind_text_array(e, ks);
            },
            _ => {
                return Err(Error::message(owned("json predicate received an incompatible value shape")));
            },
        }
        proof {
            let want = json_predicate_sql(e0, op, *v, old(self).binds().len());
            assert(e@ =~= want->Ok_0.0);
            assert(self.binds() =~= b0 + want->Ok_0.1);
        }
        Ok(())
    }

    #[verifier::spinoff_prover]
    fn compile_condition(&mut self, out: &mut String, c: &Condition) -> (r: Result<(), Error>)
        ensures
            appended(r, old(out)@, final(out)@, old(self).binds(), final(self).binds(), condition_sql(*c, old(self).binds().len())),
            (c matches Condition::Raw { sql, bindings } && count_char(sql@, '?') != bindings@.len())
                ==> final(self).binds() == old(self).binds() && final(out)@ == old(out)@,
        decreases *c, 1int,
    {
        reveal_with_fuel(condition_sql, 1);
        let ghost o0 = out@;
        let ghost b0 = self.binds();
        let ghost n0 = self.binds().len();
        match c {
            Condition::Comparison { left, op, right } => {
                let ieq = match op {
                    ComparisonOp::IEq => true,
                    _ => false,
                };
                if ieq {
                    out.append("LOWER(");
                    self.compile_expr(out, left)?;
                    out.append(") = LOWER(");
                    self.compile_expr(out, right)?;
                    out.append(")");
                } else {
                    self.compile_expr(out, left)?;
                    out.append(" ");
                    out.append(comparison_op(*op));
                    out.append(" ");
                    self.compile_expr(out, right)?;
                }
            },
            Condition::InList { expr, values } => {
                if values.len() == 0 {
                    out.append("FALSE");
                } else {
                    self.compile_expr(out, expr)?;
                    out.append(" IN (");
                    self.bind_values(out, values, 0);
                    out.append(")");
                }
            },
            Condition::JsonPredicate { expr, op, value } => {
                let mut e = String::new();
                self.compile_expr(&mut e, expr)?;
                self.push_json_predicate(&mut e, *op, value)?;
                out.append(e.as_str());
            },
            Condition::FullText { columns, query } => {
                if columns.len() == 0 {
                    out.append("FALSE");
                } else {
                    out.append("to_tsvector('english'::regconfig, ");
                    push_document(out, columns, 0);
                    out.append(") @@ plainto_tsquery('english'::regconfig, ");
                    self.bind_text(out, query);
                    out.append(")");
                }
            },
            Condition::And(cs) => {
                if cs.len() == 0 {
                    out.append("TRUE");
                } else {
                    out.append("(");
                    self.compile_conditions(out, cs, 0, " AND ")?;
                    out.append(")");
                }
            },
            Condition::Or(cs) => {
                if cs.len() == 0 {
                    out.append("FALSE");
                } else {
                    out.append("(");
                    self.compile_conditions(out, cs, 0, " OR ")?;
                    out.append(")");
                }
            },
            Condition::Not(inner) => {
                out.append("NOT (");
                self.compile_condition(out, inner)?;
                out.append(")");
            },
            Condition::IsNull(e) => {
                self.compile_expr(out, e)?;
                out.append(" IS NULL");
            },
            Condition::IsNotNull(e) => {
                self.compile_expr(out, e)?;
                out.append(" IS NOT NULL");
            },
            Condition::Exists(q) => {
                out.append("EXISTS (");
                self.compile_query(out, q)?;
                out.append(")");
            },
            Condition::Raw { sql, bindings } => {
                return self.compile_raw(out, sql, bindings);
            },
        }
        proof {
            let want = condition_sql(*c, n0);
            assert(out@ =~= o0 + want->Ok_0.0);
            assert(self.binds() =~= b0 + want->Ok_0.1);
        }
        Ok(())
    }

    #[verifier::spinoff_prover]
    fn compile_expr(&mut self, out: &mut String, e: &Expr) -> (r: Result<(), Error>)
        ensures
            appended(r, old(out)@, final(out)@, old(self).binds(), final(self).binds(), expr_sql(*e, old(self).binds().len())),
        decreases *e, 1int,
    {
        reveal_with_fuel(expr_sql, 1);
        let ghost o0 = out@;
        let ghost b0 = self.binds();
        let ghost n0 = self.binds().len();
        match e {
            Expr::Column(c) => {
                push_column(out, c);
            },
            Expr::Excluded(c) => {
                out.append("EXCLUDED.");
                push_quoted(out, c.name.as_str());
            },
            Expr::Value(v) => {
                self.bind_value(out, v.clone());
            },
            Expr::Cast { expr, db_type } => {
                out.append("(");
                self.compile_expr(out, expr)?;
                out.append(")::");
                out.append(db_type.postgres_cast());
            },
            Expr::Aggregate(a) => {
                return self.compile_aggregate(out, a);
            },
            Expr::Function(f) => {
                return self.compile_function(out, f);
            },
            Expr::Unary(u) => {
                match u.operator {
                    UnaryOperator::Not => out.append("NOT ("),
                    UnaryOperator::Negate => out.append("-("),
                }
                self.compile_expr(out, &u.expr)?;
                out.append(")");
            },
            Expr::Binary(be) => {
                return self.compile_binary(out, be);
            },
            Expr::Subquery(q) => {
                out.append("(");
                self.compile_query(out, q)?;
                out.append(")");
            },
            Expr::Window(w) => {
                self.compile_expr(out, &w.function)?;
                out.append(" OVER (");
                self.compile_window_spec(out, &w.window)?;
                out.append(")");
            },
            Expr::Case(c) => {
                return self.compile_case(out, c);
            },
            Expr::JsonPath(p) => {
                let mut inner = String::new();
                self.compile_expr(&mut inner, &p.expr)?;
                if p.path.len() == 0 {
                    match p.mode {
                        JsonPathMode::Json => out.append(inner.as_str()),
                        JsonPathMode::Text => {
                            out.append("(");
                            out.append(inner.as_str());
                            out.append(")::text");
                        },
                    }
                } else {
                    let path = self.json_path(inner, &p.path, 0, p.mode);
                    out.append(path.as_str());
                }
            },
            Expr::Raw(s) => {
                out.append(s.as_str());
            },
        }
        proof {
            let want = expr_sql(*e, n0);
            assert(out@ =~= o0 + want->Ok_0.0);
            assert(self.binds() =~= b0 + want->Ok_0.1);
        }
        Ok(())
    }
}

/// Compiles query trees to PostgreSQL.
pub struct PostgresCompiler;

impl PostgresCompiler {
    /// Compiles a query: `Ok` exactly when `query_sql` accepts the tree, with
    /// its text and its bindings in placeholder order; otherwise the error
    /// that `query_sql` names.
    pub fn compile(ast: &QueryAst) -> (r: Result<CompiledSql, Error>)
        ensures
            match query_sql(*ast, 0) {
                Ok((s, b)) => r matches Ok(c) && c.sql@ == s && views(c.bindings@) == b,
                Err(m) => r matches Err(e) && e.is_plain() && e@ == m,
            },
    {
        let mut state = CompilerState { bindings: Vec::new() };
        let mut sql = String::new();
        proof {
            assert(state.binds() =~= Seq::<DbValueView>::empty());
        }
        state.compile_query(&mut sql, ast)?;
        proof {
            assert(state.binds() =~= Seq::<DbValueView>::empty() + query_sql(*ast, 0)->Ok_0.1);
        }
        Ok(CompiledSql { sql, bindings: state.bindings })
    }
}

} // verus!
