//! Placeholder numbering: the SQL text of a query is its own pieces with
//! the placeholders of its values between them, `$k::type` for the `k`-th
//! value, in binding order.
use vstd::prelude::*;

use crate::ast::{
    AggregateExpr, AggregateNode, BinaryExpr, CaseExpr, CaseWhen, ColumnRef, Condition, CteNode, DbValue,
    DbValueView, DeleteNode, Expr, FromItem, FunctionCall, InsertNode, InsertSource, JoinKind, JoinNode,
    JsonPathMode, JsonPathSegment, JsonPredicateOp, JsonPredicateValue, OnConflictAction, OnConflictNode,
    OrderBy, QueryAst, QueryBody, SelectItem, SelectNode, SetOperationNode, UpdateNode, WindowSpec, cast_name,
    ComparisonOp, CteMaterialization, DbType, value_type, OrderDirection, SetOperator, UnaryOperator,
};
use crate::sql_model::{
    aggregate_node_sql, aggregate_nodes_sql, any_recursive, aggregate_sql, aggregate_type, assignments_sql, bind, bind_list,
    bind_text_list, binary_sql, body_sql, case_sql, condition_sql, conditions_sql, cte_sql, ctes_sql,
    delete_sql, expr_sql, expr_type, exprs_sql, frame_sql, from_item_sql, from_items_sql, from_list_sql,
    function_sql, group_by_sql, insert_source_sql, insert_sql, item_sql, items_sql, join_kind_sql, join_sql,
    joins_sql, json_path_sql, json_predicate_sql, limit_value, lit, name_pos, numeric_as_text,
    on_conflict_sql, opt_condition_sql, order_limit_offset_sql, order_sql, orders_sql, placeholder,
    projection_sql, query_sql, quote_ident, raw_sql, returning_sql, row_exprs_sql, select_filters_sql,
    select_sql, set_operation_sql, space_join, text_array, text_value, update_sql, value_rows_sql,
    values_error, whens_sql, window_spec_sql, Res, aggregate_fn_sql, binary_op_sql, column_name_sql,
    column_sql, comparison_sql, conflict_target_sql, document_sql, lock_sql, row_names_sql,
    select_column_names, table_sql,
};
use crate::text::{dec, digit_char, eq_ignore_case};

verus! {

/// Whether `p` occurs in `t` as a contiguous piece.
pub open spec fn occurs(p: Seq<char>, t: Seq<char>) -> bool {
    exists|k: int| 0 <= k && k + p.len() <= t.len() && #[trigger] t.subrange(k, k + p.len()) == p
}

// ---------------------------------------------------------------------------
// Placeholder order: the text is the tree's own pieces woven with the
// placeholders of its bindings, in binding order
// ---------------------------------------------------------------------------

/// The pieces `p[0], p[1], ...` with the placeholders of the values `b`,
/// bound after `n` earlier ones, between them:
/// `p[0] + $n+1 + p[1] + $n+2 + ... + p[b.len()]`.
pub open spec fn weave(p: Seq<Seq<char>>, b: Seq<DbValueView>, n: nat) -> Seq<char>
    decreases b.len(),
{
    if b.len() == 0 {
        p[0]
    } else {
        weave(p.drop_last(), b.drop_last(), n) + placeholder((n + b.len() - 1) as nat, b.last()) + p.last()
    }
}

/// Whether a successful result is its values' placeholders woven, in
/// order, with the pieces `p`.
pub open spec fn woven(r: Res, p: Seq<Seq<char>>, n: nat) -> bool {
    match r {
        Ok(o) => p.len() == o.1.len() + 1 && o.0 == weave(p, o.1, n),
        Err(_) => true,
    }
}

#[verifier::spinoff_prover]
proof fn lemma_weave_prefix(x: Seq<char>, p: Seq<Seq<char>>, b: Seq<DbValueView>, n: nat)
    requires
        p.len() == b.len() + 1,
    ensures
        weave(p.update(0, x + p[0]), b, n) == x + weave(p, b, n),
    decreases b.len(),
{
    let q = p.update(0, x + p[0]);
    if b.len() > 0 {
        lemma_weave_prefix(x, p.drop_last(), b.drop_last(), n);
        assert(q.drop_last() =~= p.drop_last().update(0, x + p.drop_last()[0]));
        assert(q.last() == p.last());
        let w = weave(p.drop_last(), b.drop_last(), n);
        let ph = placeholder((n + b.len() - 1) as nat, b.last());
        assert(x + w + ph + p.last() =~= x + (w + ph + p.last()));
    }
}

#[verifier::spinoff_prover]
proof fn lemma_weave_wrap(pre: Seq<char>, p: Seq<Seq<char>>, b: Seq<DbValueView>, post: Seq<char>, n: nat) -> (q: Seq<Seq<char>>)
    requires
        p.len() == b.len() + 1,
    ensures
        q.len() == b.len() + 1,
        weave(q, b, n) == pre + weave(p, b, n) + post,
{
    let p1 = p.update(0, pre + p[0]);
    lemma_weave_prefix(pre, p, b, n);
    let q = p1.update(p1.len() - 1, p1.last() + post);
    if b.len() == 0 {
        assert(weave(q, b, n) == q[0]);
    } else {
        assert(q.drop_last() =~= p1.drop_last());
        let w = weave(p1.drop_last(), b.drop_last(), n);
        let ph = placeholder((n + b.len() - 1) as nat, b.last());
        assert(w + ph + (p1.last() + post) =~= w + ph + p1.last() + post);
    }
    q
}

#[verifier::spinoff_prover]
proof fn lemma_weave_join(p1: Seq<Seq<char>>, b1: Seq<DbValueView>, p2: Seq<Seq<char>>, b2: Seq<DbValueView>, n: nat) -> (q: Seq<Seq<char>>)
    requires
        p1.len() == b1.len() + 1,
        p2.len() == b2.len() + 1,
    ensures
        q.len() == b1.len() + b2.len() + 1,
        weave(q, b1 + b2, n) == weave(p1, b1, n) + weave(p2, b2, n + b1.len()),
    decreases b2.len(),
{
    if b2.len() == 0 {
        let q = p1.update(p1.len() - 1, p1.last() + p2[0]);
        assert(b1 + b2 =~= b1);
        if b1.len() == 0 {
            assert(weave(q, b1, n) == q[0]);
        } else {
            assert(q.drop_last() =~= p1.drop_last());
            let w = weave(p1.drop_last(), b1.drop_last(), n);
            let ph = placeholder((n + b1.len() - 1) as nat, b1.last());
            assert(w + ph + (p1.last() + p2[0]) =~= w + ph + p1.last() + p2[0]);
        }
        q
    } else {
        let q0 = lemma_weave_join(p1, b1, p2.drop_last(), b2.drop_last(), n);
        let q = q0.push(p2.last());
        assert((b1 + b2).drop_last() =~= b1 + b2.drop_last());
        assert((b1 + b2).last() == b2.last());
        assert(q.drop_last() =~= q0);
        assert((n + (b1 + b2).len() - 1) as nat == ((n + b1.len()) + b2.len() - 1) as nat);
        let w1 = weave(p1, b1, n);
        let w2 = weave(p2.drop_last(), b2.drop_last(), n + b1.len());
        let ph = placeholder((n + (b1 + b2).len() - 1) as nat, b2.last());
        assert(w1 + w2 + ph + p2.last() =~= w1 + (w2 + ph + p2.last()));
        q
    }
}

proof fn lemma_weave_lit(s: Seq<char>, n: nat)
    ensures
        weave(seq![s], Seq::<DbValueView>::empty(), n) == s,
{
}

proof fn lemma_weave_bind(v: DbValueView, n: nat)
    ensures
        weave(seq![Seq::<char>::empty(), Seq::<char>::empty()], bind(v, n).1, n) == bind(v, n).0,
{
    let p = seq![Seq::<char>::empty(), Seq::<char>::empty()];
    let b = bind(v, n).1;
    assert(p.drop_last() =~= seq![Seq::<char>::empty()]);
    assert(b.drop_last() =~= Seq::<DbValueView>::empty());
    assert(weave(p.drop_last(), b.drop_last(), n) == Seq::<char>::empty());
    assert((n + b.len() - 1) as nat == n);
    assert(b.last() == v);
    assert(Seq::<char>::empty() + placeholder(n, v) + Seq::<char>::empty() =~= placeholder(n, v));
}

spec fn two_empty() -> Seq<Seq<char>> {
    seq![Seq::<char>::empty(), Seq::<char>::empty()]
}

#[verifier::spinoff_prover]
proof fn lemma_bind_list_woven(vs: Seq<DbValue>, i: int, n: nat) -> (q: Seq<Seq<char>>)
    ensures
        q.len() == bind_list(vs, i, n).1.len() + 1,
        weave(q, bind_list(vs, i, n).1, n) == bind_list(vs, i, n).0,
    decreases vs.len() - i,
{
    if 0 <= i < vs.len() {
        let first = bind(vs[i]@, n);
        lemma_weave_bind(vs[i]@, n);
        if i + 1 == vs.len() {
            two_empty()
        } else {
            let pr = lemma_bind_list_woven(vs, i + 1, n + 1);
            let rest = bind_list(vs, i + 1, n + 1);
            let q1 = lemma_weave_wrap(Seq::empty(), two_empty(), first.1, ", "@, n);
            let q = lemma_weave_join(q1, first.1, pr, rest.1, n);
            assert(bind_list(vs, i, n).0 =~= weave(q, first.1 + rest.1, n));
            q
        }
    } else {
        lemma_weave_lit(Seq::empty(), n);
        seq![Seq::<char>::empty()]
    }
}

#[verifier::spinoff_prover]
proof fn lemma_bind_text_list_woven(vs: Seq<String>, i: int, n: nat) -> (q: Seq<Seq<char>>)
    ensures
        q.len() == bind_text_list(vs, i, n).1.len() + 1,
        weave(q, bind_text_list(vs, i, n).1, n) == bind_text_list(vs, i, n).0,
    decreases vs.len() - i,
{
    if 0 <= i < vs.len() {
        let first = bind(text_value(vs[i]), n);
        lemma_weave_bind(text_value(vs[i]), n);
        if i + 1 == vs.len() {
            two_empty()
        } else {
            let pr = lemma_bind_text_list_woven(vs, i + 1, n + 1);
            let rest = bind_text_list(vs, i + 1, n + 1);
            let q1 = lemma_weave_wrap(Seq::empty(), two_empty(), first.1, ", "@, n);
            let q = lemma_weave_join(q1, first.1, pr, rest.1, n);
            assert(bind_text_list(vs, i, n).0 =~= weave(q, first.1 + rest.1, n));
            q
        }
    } else {
        lemma_weave_lit(Seq::empty(), n);
        seq![Seq::<char>::empty()]
    }
}

#[verifier::spinoff_prover]
proof fn lemma_text_array_woven(vs: Seq<String>, n: nat) -> (q: Seq<Seq<char>>)
    ensures
        q.len() == text_array(vs, n).1.len() + 1,
        weave(q, text_array(vs, n).1, n) == text_array(vs, n).0,
{
    let p = lemma_bind_text_list_woven(vs, 0, n);
    let inner = bind_text_list(vs, 0, n);
    lemma_weave_wrap("ARRAY["@, p, inner.1, "]"@, n)
}

#[verifier::spinoff_prover]
proof fn lemma_raw_sql_woven(sql: Seq<char>, vs: Seq<DbValue>, n: nat) -> (q: Seq<Seq<char>>)
    ensures
        q.len() == raw_sql(sql, vs, n).1.len() + 1,
        weave(q, raw_sql(sql, vs, n).1, n) == raw_sql(sql, vs, n).0,
    decreases sql.len(),
{
    if sql.len() == 0 {
        lemma_weave_lit(Seq::empty(), n);
        seq![Seq::<char>::empty()]
    } else {
        let tail = sql.subrange(1, sql.len() as int);
        if sql[0] == '?' && vs.len() > 0 {
            let more = vs.subrange(1, vs.len() as int);
            let pr = lemma_raw_sql_woven(tail, more, n + 1);
            let rest = raw_sql(tail, more, n + 1);
            let first = bind(vs[0]@, n);
            lemma_weave_bind(vs[0]@, n);
            let q = lemma_weave_join(two_empty(), first.1, pr, rest.1, n);
            assert(raw_sql(sql, vs, n).0 =~= weave(q, first.1 + rest.1, n));
            q
        } else {
            let pr = lemma_raw_sql_woven(tail, vs, n);
            let rest = raw_sql(tail, vs, n);
            lemma_weave_wrap(seq![sql[0]], pr, rest.1, Seq::empty(), n)
        }
    }
}

/// A JSON path over `base`, whose own bindings `bb` come first.
#[verifier::spinoff_prover]
proof fn lemma_json_path_woven(
    base: Seq<char>,
    pb: Seq<Seq<char>>,
    bb: Seq<DbValueView>,
    n0: nat,
    segs: Seq<JsonPathSegment>,
    i: int,
    mode: JsonPathMode,
) -> (q: Seq<Seq<char>>)
    requires
        pb.len() == bb.len() + 1,
        weave(pb, bb, n0) == base,
    ensures
        q.len() == bb.len() + json_path_sql(base, segs, i, mode, n0 + bb.len()).1.len() + 1,
        weave(q, bb + json_path_sql(base, segs, i, mode, n0 + bb.len()).1, n0)
            == json_path_sql(base, segs, i, mode, n0 + bb.len()).0,
    decreases segs.len() - i,
{
    let n = n0 + bb.len();
    if 0 <= i < segs.len() {
        let op = if i == segs.len() - 1 && mode == JsonPathMode::Text { "->>"@ } else { "->"@ };
        match segs[i] {
            JsonPathSegment::Key(k) => {
                let b = bind(text_value(k), n);
                lemma_weave_bind(text_value(k), n);
                let nb = "("@ + base + ") "@ + op + " "@ + b.0;
                let q1 = lemma_weave_wrap("("@, pb, bb, ") "@ + op + " "@, n0);
                let q2 = lemma_weave_join(q1, bb, two_empty(), b.1, n0);
                assert(nb =~= weave(q2, bb + b.1, n0));
                let q = lemma_json_path_woven(nb, q2, bb + b.1, n0, segs, i + 1, mode);
                let next = json_path_sql(nb, segs, i + 1, mode, n + 1);
                assert(n0 + (bb + b.1).len() == n + 1);
                assert(bb + b.1 + next.1 =~= bb + (b.1 + next.1));
                q
            },
            JsonPathSegment::Index(x) => {
                let nb = "("@ + base + ") "@ + op + " "@ + crate::text::idec(x as int);
                let q1 = lemma_weave_wrap("("@, pb, bb, ") "@ + op + " "@ + crate::text::idec(x as int), n0);
                assert(nb =~= weave(q1, bb, n0));
                lemma_json_path_woven(nb, q1, bb, n0, segs, i + 1, mode)
            },
        }
    } else {
        assert(bb + Seq::<DbValueView>::empty() =~= bb);
        pb
    }
}

/// A JSON predicate over `e`, whose own bindings `eb` come first.
#[verifier::spinoff_prover]
proof fn lemma_json_predicate_woven(
    e: Seq<char>,
    pe: Seq<Seq<char>>,
    eb: Seq<DbValueView>,
    n0: nat,
    op: JsonPredicateOp,
    v: JsonPredicateValue,
) -> (q: Seq<Seq<char>>)
    requires
        pe.len() == eb.len() + 1,
        weave(pe, eb, n0) == e,
    ensures
        json_predicate_sql(e, op, v, n0 + eb.len()) matches Ok(o) ==> q.len() == eb.len() + o.1.len() + 1
            && weave(q, eb + o.1, n0) == o.0,
{
    let n = n0 + eb.len();
    match (op, v) {
        (JsonPredicateOp::Contains, JsonPredicateValue::Json(j)) => {
            lemma_weave_bind(DbValueView::Json(j@), n);
            let x = bind(DbValueView::Json(j@), n);
            let q1 = lemma_weave_wrap(Seq::empty(), pe, eb, " @> "@, n0);
            let q = lemma_weave_join(q1, eb, two_empty(), x.1, n0);
            assert(e + " @> "@ + x.0 =~= weave(q, eb + x.1, n0));
            q
        },
        (JsonPredicateOp::ContainedBy, JsonPredicateValue::Json(j)) => {
            lemma_weave_bind(DbValueView::Json(j@), n);
            let x = bind(DbValueView::Json(j@), n);
            let q1 = lemma_weave_wrap(Seq::empty(), pe, eb, " <@ "@, n0);
            let q = lemma_weave_join(q1, eb, two_empty(), x.1, n0);
            assert(e + " <@ "@ + x.0 =~= weave(q, eb + x.1, n0));
            q
        },
        (JsonPredicateOp::HasKey, JsonPredicateValue::Key(k)) => {
            lemma_weave_bind(text_value(k), n);
            let x = bind(text_value(k), n);
            let q1 = lemma_weave_wrap(Seq::empty(), pe, eb, " ? "@, n0);
            let q = lemma_weave_join(q1, eb, two_empty(), x.1, n0);
            assert(e + " ? "@ + x.0 =~= weave(q, eb + x.1, n0));
            q
        },
        (JsonPredicateOp::HasAnyKeys, JsonPredicateValue::Keys(ks)) => {
            let px = lemma_text_array_woven(ks@, n);
            let x = text_array(ks@, n);
            let q1 = lemma_weave_wrap(Seq::empty(), pe, eb, " ?| "@, n0);
            let q = lemma_weave_join(q1, eb, px, x.1, n0);
            assert(e + " ?| "@ + x.0 =~= weave(q, eb + x.1, n0));
            q
        },
        (JsonPredicateOp::HasAllKeys, JsonPredicateValue::Keys(ks)) => {
            let px = lemma_text_array_woven(ks@, n);
            let x = text_array(ks@, n);
            let q1 = lemma_weave_wrap(Seq::empty(), pe, eb, " ?& "@, n0);
            let q = lemma_weave_join(q1, eb, px, x.1, n0);
            assert(e + " ?& "@ + x.0 =~= weave(q, eb + x.1, n0));
            q
        },
        _ => Seq::empty(),
    }
}

spec fn no_pieces() -> Seq<Seq<char>> {
    seq![Seq::<char>::empty()]
}

#[verifier::spinoff_prover]
proof fn lemma_query_woven(q: QueryAst, n: nat) -> (p: Seq<Seq<char>>)
    ensures
        woven(query_sql(q, n), p, n),
    decreases q, 1int,
{
    reveal_with_fuel(query_sql, 1);
    if q.with.len() == 0 {
        lemma_body_woven(q.body, n)
    } else {
        let pc = lemma_ctes_woven(q.with@, 0, n);
        match ctes_sql(q.with@, 0, n) {
            Err(_) => Seq::empty(),
            Ok((cs, cb)) => {
                let pb = lemma_body_woven(q.body, n + cb.len());
                match body_sql(q.body, n + cb.len()) {
                    Err(_) => Seq::empty(),
                    Ok((bs, bb)) => {
                        let rec = if any_recursive(q.with@) { "RECURSIVE "@ } else { Seq::<char>::empty() };
                        let p1 = lemma_weave_wrap("WITH "@ + rec, pc, cb, " "@, n);
                        let p2 = lemma_weave_join(p1, cb, pb, bb, n);
                        assert(query_sql(q, n)->Ok_0.0 =~= weave(p2, cb + bb, n));
                        p2
                    },
                }
            },
        }
    }
}

#[verifier::spinoff_prover]
proof fn lemma_ctes_woven(cs: Seq<CteNode>, i: int, n: nat) -> (p: Seq<Seq<char>>)
    ensures
        woven(ctes_sql(cs, i, n), p, n),
    decreases cs, cs.len() - i,
{
    reveal_with_fuel(ctes_sql, 1);
    if 0 <= i < cs.len() {
        let p0 = lemma_cte_woven(cs[i], n);
        match cte_sql(cs[i], n) {
            Err(_) => Seq::empty(),
            Ok((s, b)) => if i + 1 == cs.len() {
                p0
            } else {
                let pr = lemma_ctes_woven(cs, i + 1, n + b.len());
                match ctes_sql(cs, i + 1, n + b.len()) {
                    Err(_) => Seq::empty(),
                    Ok((s2, b2)) => {
                        let p1 = lemma_weave_wrap(Seq::empty(), p0, b, ", "@, n);
                        let p2 = lemma_weave_join(p1, b, pr, b2, n);
                        assert(s + ", "@ + s2 =~= weave(p2, b + b2, n));
                        p2
                    },
                }
            },
        }
    } else {
        no_pieces()
    }
}

#[verifier::spinoff_prover]
proof fn lemma_cte_woven(c: CteNode, n: nat) -> (p: Seq<Seq<char>>)
    ensures
        woven(cte_sql(c, n), p, n),
    decreases c, 1int,
{
    reveal_with_fuel(cte_sql, 1);
    let pq = lemma_query_woven(*c.query, n);
    match query_sql(*c.query, n) {
        Err(_) => Seq::empty(),
        Ok((s, b)) => {
            let mat = match c.materialization {
                Some(CteMaterialization::Materialized) => "MATERIALIZED "@,
                Some(CteMaterialization::NotMaterialized) => "NOT MATERIALIZED "@,
                None => Seq::<char>::empty(),
            };
            lemma_weave_wrap(quote_ident(c.name@) + " AS "@ + mat + "("@, pq, b, ")"@, n)
        },
    }
}

#[verifier::spinoff_prover]
proof fn lemma_body_woven(body: QueryBody, n: nat) -> (p: Seq<Seq<char>>)
    ensures
        woven(body_sql(body, n), p, n),
    decreases body, 1int,
{
    reveal_with_fuel(body_sql, 1);
    match body {
        QueryBody::Select(s) => lemma_select_woven(*s, n),
        QueryBody::Insert(i) => lemma_insert_woven(*i, n),
        QueryBody::Update(u) => lemma_update_woven(*u, n),
        QueryBody::Delete(d) => lemma_delete_woven(*d, n),
        QueryBody::SetOperation(s) => lemma_set_operation_woven(*s, n),
    }
}

#[verifier::spinoff_prover]
proof fn lemma_select_woven(s: SelectNode, n: nat) -> (q: Seq<Seq<char>>)
    ensures
        woven(select_sql(s, n), q, n),
    decreases s, 3int,
{
    reveal_with_fuel(select_sql, 1);
    let pp = lemma_projection_woven(s, n);
    match projection_sql(s, n) {
        Err(_) => Seq::empty(),
        Ok((p, pb)) => {
            let pf = lemma_from_item_woven(s.from, n + pb.len());
            match from_item_sql(s.from, n + pb.len()) {
                Err(_) => Seq::empty(),
                Ok((f, fb)) => {
                    let pj = lemma_joins_woven(s.joins@, 0, n + pb.len() + fb.len());
                    match joins_sql(s.joins@, 0, n + pb.len() + fb.len()) {
                        Err(_) => Seq::empty(),
                        Ok((j, jb)) => {
                            let pw = lemma_select_filters_woven(s, n + pb.len() + fb.len() + jb.len());
                            match select_filters_sql(s, n + pb.len() + fb.len() + jb.len()) {
                                Err(_) => Seq::empty(),
                                Ok((w, wb)) => {
                                    let distinct = if s.distinct { "DISTINCT "@ } else { Seq::<char>::empty() };
                                    let q1 = lemma_weave_wrap("SELECT "@ + distinct, pp, pb, " FROM "@, n);
                                    let q2 = lemma_weave_join(q1, pb, pf, fb, n);
                                    let q3 = lemma_weave_join(q2, pb + fb, pj, jb, n);
                                    let q4 = lemma_weave_join(q3, pb + fb + jb, pw, wb, n);
                                    assert(select_sql(s, n)->Ok_0.0 =~= weave(q4, pb + fb + jb + wb, n));
                                    q4
                                },
                            }
                        },
                    }
                },
            }
        },
    }
}

#[verifier::spinoff_prover]
proof fn lemma_projection_woven(s: SelectNode, n: nat) -> (q: Seq<Seq<char>>)
    ensures
        woven(projection_sql(s, n), q, n),
    decreases s, 2int,
{
    reveal_with_fuel(projection_sql, 1);
    if s.columns.len() == 0 && s.aggregates.len() == 0 {
        seq!["*"@]
    } else {
        let pa = lemma_items_woven(s.columns@, 0, n);
        match items_sql(s.columns@, 0, n) {
            Err(_) => Seq::empty(),
            Ok((a, ab)) => {
                let pg = lemma_aggregate_nodes_woven(s.aggregates@, 0, n + ab.len());
                match aggregate_nodes_sql(s.aggregates@, 0, n + ab.len()) {
                    Err(_) => Seq::empty(),
                    Ok((g, gb)) => {
                        let sep = if s.columns.len() > 0 && s.aggregates.len() > 0 {
                            ", "@
                        } else {
                            Seq::<char>::empty()
                        };
                        let q1 = lemma_weave_wrap(Seq::empty(), pa, ab, sep, n);
                        let q2 = lemma_weave_join(q1, ab, pg, gb, n);
                        assert(a + sep + g =~= weave(q2, ab + gb, n));
                        q2
                    },
                }
            },
        }
    }
}

#[verifier::spinoff_prover]
proof fn lemma_select_filters_woven(s: SelectNode, n: nat) -> (q: Seq<Seq<char>>)
    ensures
        woven(select_filters_sql(s, n), q, n),
    decreases s, 2int,
{
    reveal_with_fuel(select_filters_sql, 1);
    let pw = lemma_opt_condition_woven(s.condition, " WHERE "@, n);
    match opt_condition_sql(s.condition, " WHERE "@, n) {
        Err(_) => Seq::empty(),
        Ok((w, wb)) => {
            let pg = lemma_group_by_woven(s.group_by@, n + wb.len());
            match group_by_sql(s.group_by@, n + wb.len()) {
                Err(_) => Seq::empty(),
                Ok((g, gb)) => {
                    let ph = lemma_opt_condition_woven(s.having, " HAVING "@, n + wb.len() + gb.len());
                    match opt_condition_sql(s.having, " HAVING "@, n + wb.len() + gb.len()) {
                        Err(_) => Seq::empty(),
                        Ok((h, hb)) => {
                            let k = n + wb.len() + gb.len() + hb.len();
                            let po = lemma_order_limit_offset_woven(s.order_by@, s.limit, s.offset, k);
                            match order_limit_offset_sql(s.order_by@, s.limit, s.offset, k) {
                                Err(_) => Seq::empty(),
                                Ok((o, ob)) => {
                                    let lock = match s.lock {
                                        Some(l) => " "@ + lock_sql(l),
                                        None => Seq::<char>::empty(),
                                    };
                                    let q2 = lemma_weave_join(pw, wb, pg, gb, n);
                                    let q3 = lemma_weave_join(q2, wb + gb, ph, hb, n);
                                    let q4 = lemma_weave_join(q3, wb + gb + hb, po, ob, n);
                                    let q5 = lemma_weave_wrap(Seq::empty(), q4, wb + gb + hb + ob, lock, n);
                                    assert(w + g + h + o + lock =~= weave(q5, wb + gb + hb + ob, n));
                                    q5
                                },
                            }
                        },
                    }
                },
            }
        },
    }
}

#[verifier::spinoff_prover]
proof fn lemma_opt_condition_woven(c: Option<Condition>, prefix: Seq<char>, n: nat) -> (q: Seq<Seq<char>>)
    ensures
        woven(opt_condition_sql(c, prefix, n), q, n),
    decreases c, 1int,
{
    reveal_with_fuel(opt_condition_sql, 1);
    match c {
        None => no_pieces(),
        Some(c) => {
            let pc = lemma_condition_woven(c, n);
            match condition_sql(c, n) {
                Err(_) => Seq::empty(),
                Ok((s, b)) => lemma_weave_wrap(prefix, pc, b, Seq::empty(), n),
            }
        },
    }
}

#[verifier::spinoff_prover]
proof fn lemma_group_by_woven(es: Seq<Expr>, n: nat) -> (q: Seq<Seq<char>>)
    ensures
        woven(group_by_sql(es, n), q, n),
    decreases es, es.len() + 1,
{
    reveal_with_fuel(group_by_sql, 1);
    if es.len() == 0 {
        no_pieces()
    } else {
        let pe = lemma_exprs_woven(es, 0, ", "@, n);
        match exprs_sql(es, 0, ", "@, n) {
            Err(_) => Seq::empty(),
            Ok((s, b)) => lemma_weave_wrap(" GROUP BY "@, pe, b, Seq::empty(), n),
        }
    }
}

#[verifier::spinoff_prover]
proof fn lemma_order_limit_offset_woven(os: Seq<OrderBy>, limit: Option<u64>, offset: Option<u64>, n: nat) -> (q: Seq<Seq<char>>)
    ensures
        woven(order_limit_offset_sql(os, limit, offset, n), q, n),
    decreases os, os.len() + 1,
{
    reveal_with_fuel(order_limit_offset_sql, 1);
    let head: Res = if os.len() == 0 {
        lit(Seq::empty())
    } else {
        match orders_sql(os, 0, n) {
            Err(m) => Err(m),
            Ok((s, b)) => Ok((" ORDER BY "@ + s, b)),
        }
    };
    let ph: Seq<Seq<char>> = if os.len() == 0 {
        no_pieces()
    } else {
        let po = lemma_orders_woven(os, 0, n);
        match orders_sql(os, 0, n) {
            Err(_) => Seq::empty(),
            Ok((s, b)) => lemma_weave_wrap(" ORDER BY "@, po, b, Seq::empty(), n),
        }
    };
    match head {
        Err(_) => Seq::empty(),
        Ok((o, ob)) => {
            let (pl, lb): (Seq<Seq<char>>, Seq<DbValueView>) = match limit {
                Some(v) => {
                    let x = bind(limit_value(v), n + ob.len());
                    lemma_weave_bind(limit_value(v), n + ob.len());
                    (lemma_weave_wrap(" LIMIT "@, two_empty(), x.1, Seq::empty(), n + ob.len()), x.1)
                },
                None => (no_pieces(), Seq::empty()),
            };
            let (pf, fb): (Seq<Seq<char>>, Seq<DbValueView>) = match offset {
                Some(v) => {
                    let x = bind(limit_value(v), n + ob.len() + lb.len());
                    lemma_weave_bind(limit_value(v), n + ob.len() + lb.len());
                    (lemma_weave_wrap(" OFFSET "@, two_empty(), x.1, Seq::empty(), n + ob.len() + lb.len()), x.1)
                },
                None => (no_pieces(), Seq::empty()),
            };
            let q2 = lemma_weave_join(ph, ob, pl, lb, n);
            let q3 = lemma_weave_join(q2, ob + lb, pf, fb, n);
            assert(order_limit_offset_sql(os, limit, offset, n)->Ok_0.0 =~= weave(q3, ob + lb + fb, n));
            assert(order_limit_offset_sql(os, limit, offset, n)->Ok_0.1 =~= ob + lb + fb);
            q3
        },
    }
}

#[verifier::spinoff_prover]
proof fn lemma_set_operation_woven(s: SetOperationNode, n: nat) -> (q: Seq<Seq<char>>)
    ensures
        woven(set_operation_sql(s, n), q, n),
    decreases s, 1int,
{
    reveal_with_fuel(set_operation_sql, 1);
    let pl = lemma_query_woven(*s.left, n);
    match query_sql(*s.left, n) {
        Err(_) => Seq::empty(),
        Ok((l, lb)) => {
            let pr = lemma_query_woven(*s.right, n + lb.len());
            match query_sql(*s.right, n + lb.len()) {
                Err(_) => Seq::empty(),
                Ok((r, rb)) => {
                    let k = n + lb.len() + rb.len();
                    let po = lemma_order_limit_offset_woven(s.order_by@, s.limit, s.offset, k);
                    match order_limit_offset_sql(s.order_by@, s.limit, s.offset, k) {
                        Err(_) => Seq::empty(),
                        Ok((o, ob)) => {
                            let op = match s.operator {
                                SetOperator::Union => "UNION"@,
                                SetOperator::UnionAll => "UNION ALL"@,
                            };
                            let q1 = lemma_weave_wrap("("@, pl, lb, ") "@ + op + " ("@, n);
                            let q2 = lemma_weave_join(q1, lb, pr, rb, n);
                            let q3 = lemma_weave_wrap(Seq::empty(), q2, lb + rb, ")"@, n);
                            let q4 = lemma_weave_join(q3, lb + rb, po, ob, n);
                            assert(set_operation_sql(s, n)->Ok_0.0 =~= weave(q4, lb + rb + ob, n));
                            q4
                        },
                    }
                },
            }
        },
    }
}

#[verifier::spinoff_prover]
proof fn lemma_items_woven(items: Seq<SelectItem>, i: int, n: nat) -> (q: Seq<Seq<char>>)
    ensures
        woven(items_sql(items, i, n), q, n),
    decreases items, items.len() - i,
{
    reveal_with_fuel(items_sql, 1);
    if 0 <= i < items.len() {
        let p0 = lemma_item_woven(items[i], n);
        match item_sql(items[i], n) {
            Err(_) => Seq::empty(),
            Ok((s, b)) => if i + 1 == items.len() {
                p0
            } else {
                let pr = lemma_items_woven(items, i + 1, n + b.len());
                match items_sql(items, i + 1, n + b.len()) {
                    Err(_) => Seq::empty(),
                    Ok((s2, b2)) => {
                        let p1 = lemma_weave_wrap(Seq::empty(), p0, b, ", "@, n);
                        let p2 = lemma_weave_join(p1, b, pr, b2, n);
                        assert(s + ", "@ + s2 =~= weave(p2, b + b2, n));
                        p2
                    },
                }
            },
        }
    } else {
        no_pieces()
    }
}

#[verifier::spinoff_prover]
proof fn lemma_item_woven(it: SelectItem, n: nat) -> (q: Seq<Seq<char>>)
    ensures
        woven(item_sql(it, n), q, n),
    decreases it, 1int,
{
    reveal_with_fuel(item_sql, 1);
    let base: Res = match it.expr {
        Expr::Column(c) => lit(column_name_sql(c)),
        _ => expr_sql(it.expr, n),
    };
    let pb: Seq<Seq<char>> = match it.expr {
        Expr::Column(c) => seq![column_name_sql(c)],
        _ => lemma_expr_woven(it.expr, n),
    };
    match base {
        Err(_) => Seq::empty(),
        Ok((s, b)) => {
            let body = numeric_as_text(s, expr_type(it.expr));
            let p1 = if expr_type(it.expr) == Some(DbType::Numeric) {
                lemma_weave_wrap("("@, pb, b, ")::text"@, n)
            } else {
                pb
            };
            let expr_alias: Option<String> = match it.expr {
                Expr::Column(c) => c.alias,
                _ => None,
            };
            let alias: Option<String> = match it.alias {
                Some(a) => Some(a),
                None => expr_alias,
            };
            match alias {
                Some(a) => {
                    let q = lemma_weave_wrap(Seq::empty(), p1, b, " AS "@ + quote_ident(a@), n);
                    assert(item_sql(it, n)->Ok_0.0 =~= weave(q, b, n));
                    q
                },
                None => p1,
            }
        },
    }
}

#[verifier::spinoff_prover]
proof fn lemma_aggregate_nodes_woven(aggs: Seq<AggregateNode>, i: int, n: nat) -> (q: Seq<Seq<char>>)
    ensures
        woven(aggregate_nodes_sql(aggs, i, n), q, n),
    decreases aggs, aggs.len() - i,
{
    reveal_with_fuel(aggregate_nodes_sql, 1);
    if 0 <= i < aggs.len() {
        let p0 = lemma_aggregate_node_woven(aggs[i], n);
        match aggregate_node_sql(aggs[i], n) {
            Err(_) => Seq::empty(),
            Ok((s, b)) => if i + 1 == aggs.len() {
                p0
            } else {
                let pr = lemma_aggregate_nodes_woven(aggs, i + 1, n + b.len());
                match aggregate_nodes_sql(aggs, i + 1, n + b.len()) {
                    Err(_) => Seq::empty(),
                    Ok((s2, b2)) => {
                        let p1 = lemma_weave_wrap(Seq::empty(), p0, b, ", "@, n);
                        let p2 = lemma_weave_join(p1, b, pr, b2, n);
                        assert(s + ", "@ + s2 =~= weave(p2, b + b2, n));
                        p2
                    },
                }
            },
        }
    } else {
        no_pieces()
    }
}

#[verifier::spinoff_prover]
proof fn lemma_aggregate_node_woven(a: AggregateNode, n: nat) -> (q: Seq<Seq<char>>)
    ensures
        woven(aggregate_node_sql(a, n), q, n),
    decreases a, 1int,
{
    reveal_with_fuel(aggregate_node_sql, 1);
    let pa = lemma_aggregate_woven(a.aggregate, n);
    match aggregate_sql(a.aggregate, n) {
        Err(_) => Seq::empty(),
        Ok((s, b)) => {
            let p1 = if aggregate_type(a.aggregate) == Some(DbType::Numeric) {
                lemma_weave_wrap("("@, pa, b, ")::text"@, n)
            } else {
                pa
            };
            let q = lemma_weave_wrap(Seq::empty(), p1, b, " AS "@ + quote_ident(a.alias@), n);
            assert(aggregate_node_sql(a, n)->Ok_0.0 =~= weave(q, b, n));
            q
        },
    }
}

#[verifier::spinoff_prover]
proof fn lemma_aggregate_woven(a: AggregateExpr, n: nat) -> (q: Seq<Seq<char>>)
    ensures
        woven(aggregate_sql(a, n), q, n),
    decreases a, 1int,
{
    reveal_with_fuel(aggregate_sql, 1);
    match a.expr {
        None => seq!["COUNT(*)"@],
        Some(x) => {
            let pe = lemma_expr_woven(*x, n);
            match expr_sql(*x, n) {
                Err(_) => Seq::empty(),
                Ok((s, b)) => {
                    let d = if a.distinct { "DISTINCT "@ } else { Seq::<char>::empty() };
                    lemma_weave_wrap(aggregate_fn_sql(a.function) + "("@ + d, pe, b, ")"@, n)
                },
            }
        },
    }
}

#[verifier::spinoff_prover]
proof fn lemma_from_item_woven(f: FromItem, n: nat) -> (q: Seq<Seq<char>>)
    ensures
        woven(from_item_sql(f, n), q, n),
    decreases f, 1int,
{
    reveal_with_fuel(from_item_sql, 1);
    match f {
        FromItem::Table(t) => {
            lemma_weave_lit(table_sql(t), n);
            seq![table_sql(t)]
        },
        FromItem::Subquery { query, alias } => {
            let pq = lemma_query_woven(*query, n);
            match query_sql(*query, n) {
                Err(_) => Seq::empty(),
                Ok((s, b)) => {
                    let q = lemma_weave_wrap("("@, pq, b, ") AS "@ + quote_ident(alias@), n);
                    assert(from_item_sql(f, n)->Ok_0.0 =~= weave(q, b, n));
                    q
                },
            }
        },
    }
}

#[verifier::spinoff_prover]
proof fn lemma_from_items_woven(fs: Seq<FromItem>, i: int, n: nat) -> (q: Seq<Seq<char>>)
    ensures
        woven(from_items_sql(fs, i, n), q, n),
    decreases fs, fs.len() - i,
{
    reveal_with_fuel(from_items_sql, 1);
    if 0 <= i < fs.len() {
        let p0 = lemma_from_item_woven(fs[i], n);
        match from_item_sql(fs[i], n) {
            Err(_) => Seq::empty(),
            Ok((s, b)) => if i + 1 == fs.len() {
                p0
            } else {
                let pr = lemma_from_items_woven(fs, i + 1, n + b.len());
                match from_items_sql(fs, i + 1, n + b.len()) {
                    Err(_) => Seq::empty(),
                    Ok((s2, b2)) => {
                        let p1 = lemma_weave_wrap(Seq::empty(), p0, b, ", "@, n);
                        let p2 = lemma_weave_join(p1, b, pr, b2, n);
                        assert(s + ", "@ + s2 =~= weave(p2, b + b2, n));
                        p2
                    },
                }
            },
        }
    } else {
        no_pieces()
    }
}

#[verifier::spinoff_prover]
proof fn lemma_joins_woven(js: Seq<JoinNode>, i: int, n: nat) -> (q: Seq<Seq<char>>)
    ensures
        woven(joins_sql(js, i, n), q, n),
    decreases js, js.len() - i,
{
    reveal_with_fuel(joins_sql, 1);
    if 0 <= i < js.len() {
        let p0 = lemma_join_woven(js[i], n);
        match join_sql(js[i], n) {
            Err(_) => Seq::empty(),
            Ok((s, b)) => {
                let pr = lemma_joins_woven(js, i + 1, n + b.len());
                match joins_sql(js, i + 1, n + b.len()) {
                    Err(_) => Seq::empty(),
                    Ok((s2, b2)) => lemma_weave_join(p0, b, pr, b2, n),
                }
            },
        }
    } else {
        no_pieces()
    }
}

#[verifier::spinoff_prover]
proof fn lemma_join_woven(j: JoinNode, n: nat) -> (q: Seq<Seq<char>>)
    ensures
        woven(join_sql(j, n), q, n),
    decreases j, 1int,
{
    reveal_with_fuel(join_sql, 1);
    let pf = lemma_from_item_woven(j.table, n);
    match from_item_sql(j.table, n) {
        Err(_) => Seq::empty(),
        Ok((f, fb)) => {
            let lateral = if j.lateral { " LATERAL"@ } else { Seq::<char>::empty() };
            let ph = lemma_weave_wrap(" "@ + join_kind_sql(j.kind) + lateral + " "@, pf, fb, Seq::empty(), n);
            let head = " "@ + join_kind_sql(j.kind) + lateral + " "@ + f;
            assert(head =~= weave(ph, fb, n));
            if j.kind == JoinKind::Cross {
                ph
            } else {
                match j.on {
                    None => Seq::empty(),
                    Some(c) => {
                        let pc = lemma_condition_woven(c, n + fb.len());
                        match condition_sql(c, n + fb.len()) {
                            Err(_) => Seq::empty(),
                            Ok((cs, cb)) => {
                                let p1 = lemma_weave_wrap(Seq::empty(), ph, fb, " ON "@, n);
                                let p2 = lemma_weave_join(p1, fb, pc, cb, n);
                                assert(head + " ON "@ + cs =~= weave(p2, fb + cb, n));
                                p2
                            },
                        }
                    },
                }
            }
        },
    }
}

#[verifier::spinoff_prover]
proof fn lemma_exprs_woven(es: Seq<Expr>, i: int, sep: Seq<char>, n: nat) -> (q: Seq<Seq<char>>)
    ensures
        woven(exprs_sql(es, i, sep, n), q, n),
    decreases es, es.len() - i,
{
    reveal_with_fuel(exprs_sql, 1);
    if 0 <= i < es.len() {
        let p0 = lemma_expr_woven(es[i], n);
        match expr_sql(es[i], n) {
            Err(_) => Seq::empty(),
            Ok((s, b)) => if i + 1 == es.len() {
                p0
            } else {
                let pr = lemma_exprs_woven(es, i + 1, sep, n + b.len());
                match exprs_sql(es, i + 1, sep, n + b.len()) {
                    Err(_) => Seq::empty(),
                    Ok((s2, b2)) => {
                        let p1 = lemma_weave_wrap(Seq::empty(), p0, b, sep, n);
                        let p2 = lemma_weave_join(p1, b, pr, b2, n);
                        assert(s + sep + s2 =~= weave(p2, b + b2, n));
                        p2
                    },
                }
            },
        }
    } else {
        no_pieces()
    }
}

#[verifier::spinoff_prover]
proof fn lemma_conditions_woven(cs: Seq<Condition>, i: int, sep: Seq<char>, n: nat) -> (q: Seq<Seq<char>>)
    ensures
        woven(conditions_sql(cs, i, sep, n), q, n),
    decreases cs, cs.len() - i,
{
    reveal_with_fuel(conditions_sql, 1);
    if 0 <= i < cs.len() {
        let p0 = lemma_condition_woven(cs[i], n);
        match condition_sql(cs[i], n) {
            Err(_) => Seq::empty(),
            Ok((s, b)) => if i + 1 == cs.len() {
                p0
            } else {
                let pr = lemma_conditions_woven(cs, i + 1, sep, n + b.len());
                match conditions_sql(cs, i + 1, sep, n + b.len()) {
                    Err(_) => Seq::empty(),
                    Ok((s2, b2)) => {
                        let p1 = lemma_weave_wrap(Seq::empty(), p0, b, sep, n);
                        let p2 = lemma_weave_join(p1, b, pr, b2, n);
                        assert(s + sep + s2 =~= weave(p2, b + b2, n));
                        p2
                    },
                }
            },
        }
    } else {
        no_pieces()
    }
}

#[verifier::spinoff_prover]
proof fn lemma_orders_woven(os: Seq<OrderBy>, i: int, n: nat) -> (q: Seq<Seq<char>>)
    ensures
        woven(orders_sql(os, i, n), q, n),
    decreases os, os.len() - i,
{
    reveal_with_fuel(orders_sql, 1);
    if 0 <= i < os.len() {
        let p0 = lemma_order_woven(os[i], n);
        match order_sql(os[i], n) {
            Err(_) => Seq::empty(),
            Ok((s, b)) => if i + 1 == os.len() {
                p0
            } else {
                let pr = lemma_orders_woven(os, i + 1, n + b.len());
                match orders_sql(os, i + 1, n + b.len()) {
                    Err(_) => Seq::empty(),
                    Ok((s2, b2)) => {
                        let p1 = lemma_weave_wrap(Seq::empty(), p0, b, ", "@, n);
                        let p2 = lemma_weave_join(p1, b, pr, b2, n);
                        assert(s + ", "@ + s2 =~= weave(p2, b + b2, n));
                        p2
                    },
                }
            },
        }
    } else {
        no_pieces()
    }
}

#[verifier::spinoff_prover]
proof fn lemma_order_woven(o: OrderBy, n: nat) -> (q: Seq<Seq<char>>)
    ensures
        woven(order_sql(o, n), q, n),
    decreases o, 1int,
{
    reveal_with_fuel(order_sql, 1);
    let pe = lemma_expr_woven(o.expr, n);
    match expr_sql(o.expr, n) {
        Err(_) => Seq::empty(),
        Ok((s, b)) => {
            let dir = match o.direction {
                OrderDirection::Asc => "ASC"@,
                OrderDirection::Desc => "DESC"@,
            };
            let q = lemma_weave_wrap(Seq::empty(), pe, b, " "@ + dir, n);
            assert(order_sql(o, n)->Ok_0.0 =~= weave(q, b, n));
            q
        },
    }
}

#[verifier::spinoff_prover]
proof fn lemma_insert_woven(ins: InsertNode, n: nat) -> (q: Seq<Seq<char>>)
    ensures
        woven(insert_sql(ins, n), q, n),
    decreases ins, 2int,
{
    reveal_with_fuel(insert_sql, 1);
    let ps = lemma_insert_source_woven(ins, n);
    match insert_source_sql(ins, n) {
        Err(_) => Seq::empty(),
        Ok((src, sb)) => {
            let conflict: Res = match ins.on_conflict {
                None => lit(Seq::empty()),
                Some(oc) => match on_conflict_sql(oc, n + sb.len()) {
                    Err(m) => Err(m),
                    Ok((s, b)) => Ok((" "@ + s, b)),
                },
            };
            let pc: Seq<Seq<char>> = match ins.on_conflict {
                None => no_pieces(),
                Some(oc) => {
                    let p0 = lemma_on_conflict_woven(oc, n + sb.len());
                    match on_conflict_sql(oc, n + sb.len()) {
                        Err(_) => Seq::empty(),
                        Ok((s, b)) => lemma_weave_wrap(" "@, p0, b, Seq::empty(), n + sb.len()),
                    }
                },
            };
            match conflict {
                Err(_) => Seq::empty(),
                Ok((oc, ob)) => {
                    let pr = lemma_returning_woven(ins.returning@, n + sb.len() + ob.len());
                    match returning_sql(ins.returning@, n + sb.len() + ob.len()) {
                        Err(_) => Seq::empty(),
                        Ok((r, rb)) => {
                            let q1 = lemma_weave_wrap("INSERT INTO "@ + table_sql(ins.into) + " "@, ps, sb, Seq::empty(), n);
                            let q2 = lemma_weave_join(q1, sb, pc, ob, n);
                            let q3 = lemma_weave_join(q2, sb + ob, pr, rb, n);
                            assert(insert_sql(ins, n)->Ok_0.0 =~= weave(q3, sb + ob + rb, n));
                            q3
                        },
                    }
                },
            }
        },
    }
}

#[verifier::spinoff_prover]
proof fn lemma_insert_source_woven(ins: InsertNode, n: nat) -> (q: Seq<Seq<char>>)
    ensures
        woven(insert_source_sql(ins, n), q, n),
    decreases ins, 1int,
{
    reveal_with_fuel(insert_source_sql, 1);
    match ins.source {
        InsertSource::Values(rows) => {
            if values_error(rows@) is None {
                let pr = lemma_value_rows_woven(rows@, rows@[0]@, 0, n);
                match value_rows_sql(rows@, rows@[0]@, 0, n) {
                    Err(_) => Seq::empty(),
                    Ok((r, rb)) => lemma_weave_wrap(
                        "("@ + row_names_sql(rows@[0]@, 0) + ") VALUES "@,
                        pr,
                        rb,
                        Seq::empty(),
                        n,
                    ),
                }
            } else {
                Seq::empty()
            }
        },
        InsertSource::Select(q) => {
            let pq = lemma_query_woven(*q, n);
            match q.body {
                QueryBody::Select(sel) => match query_sql(*q, n) {
                    Err(_) => Seq::empty(),
                    Ok((s, b)) => lemma_weave_wrap(
                        "("@ + select_column_names(sel.columns@, 0) + ") "@,
                        pq,
                        b,
                        Seq::empty(),
                        n,
                    ),
                },
                _ => Seq::empty(),
            }
        },
    }
}

#[verifier::spinoff_prover]
proof fn lemma_value_rows_woven(rows: Seq<Vec<(ColumnRef, Expr)>>, canon: Seq<(ColumnRef, Expr)>, i: int, n: nat) -> (q: Seq<Seq<char>>)
    ensures
        woven(value_rows_sql(rows, canon, i, n), q, n),
    decreases rows, rows.len() - i,
{
    reveal_with_fuel(value_rows_sql, 1);
    if 0 <= i < rows.len() {
        let p0 = lemma_row_exprs_woven(rows[i]@, canon, 0, n);
        match row_exprs_sql(rows[i]@, canon, 0, n) {
            Err(_) => Seq::empty(),
            Ok((s, b)) => {
                let prow = lemma_weave_wrap("("@, p0, b, ")"@, n);
                if i + 1 == rows.len() {
                    prow
                } else {
                    let pr = lemma_value_rows_woven(rows, canon, i + 1, n + b.len());
                    match value_rows_sql(rows, canon, i + 1, n + b.len()) {
                        Err(_) => Seq::empty(),
                        Ok((s2, b2)) => {
                            let p1 = lemma_weave_wrap(Seq::empty(), prow, b, ", "@, n);
                            let p2 = lemma_weave_join(p1, b, pr, b2, n);
                            assert(value_rows_sql(rows, canon, i, n)->Ok_0.0 =~= weave(p2, b + b2, n));
                            p2
                        },
                    }
                }
            },
        }
    } else {
        no_pieces()
    }
}

#[verifier::spinoff_prover]
proof fn lemma_row_exprs_woven(row: Seq<(ColumnRef, Expr)>, canon: Seq<(ColumnRef, Expr)>, k: int, n: nat) -> (q: Seq<Seq<char>>)
    ensures
        woven(row_exprs_sql(row, canon, k, n), q, n),
    decreases row, canon.len() - k,
{
    reveal_with_fuel(row_exprs_sql, 1);
    if 0 <= k < canon.len() {
        let p = name_pos(row, canon[k].0.name@) as int;
        if p < row.len() {
            let p0 = lemma_expr_woven(row[p].1, n);
            match expr_sql(row[p].1, n) {
                Err(_) => Seq::empty(),
                Ok((s, b)) => if k + 1 == canon.len() {
                    p0
                } else {
                    let pr = lemma_row_exprs_woven(row, canon, k + 1, n + b.len());
                    match row_exprs_sql(row, canon, k + 1, n + b.len()) {
                        Err(_) => Seq::empty(),
                        Ok((s2, b2)) => {
                            let p1 = lemma_weave_wrap(Seq::empty(), p0, b, ", "@, n);
                            let p2 = lemma_weave_join(p1, b, pr, b2, n);
                            assert(s + ", "@ + s2 =~= weave(p2, b + b2, n));
                            p2
                        },
                    }
                },
            }
        } else {
            Seq::empty()
        }
    } else {
        no_pieces()
    }
}

#[verifier::spinoff_prover]
proof fn lemma_on_conflict_woven(oc: OnConflictNode, n: nat) -> (q: Seq<Seq<char>>)
    ensures
        woven(on_conflict_sql(oc, n), q, n),
    decreases oc, 1int,
{
    reveal_with_fuel(on_conflict_sql, 1);
    let action: Res = match oc.action {
        OnConflictAction::DoNothing => lit("DO NOTHING"@),
        OnConflictAction::DoUpdate(u) => if oc.target is None {
            Err("on conflict do update requires conflict columns or a named constraint"@)
        } else if u.assignments.len() == 0 {
            Err("on conflict do update requires at least one assignment"@)
        } else {
            match assignments_sql(u.assignments@, 0, n) {
                Err(m) => Err(m),
                Ok((a, ab)) => match opt_condition_sql(u.condition, " WHERE "@, n + ab.len()) {
                    Err(m) => Err(m),
                    Ok((w, wb)) => Ok(("DO UPDATE SET "@ + a + w, ab + wb)),
                },
            }
        },
    };
    let pact: Seq<Seq<char>> = match oc.action {
        OnConflictAction::DoNothing => seq!["DO NOTHING"@],
        OnConflictAction::DoUpdate(u) => if oc.target is None || u.assignments.len() == 0 {
            Seq::empty()
        } else {
            let pa = lemma_assignments_woven(u.assignments@, 0, n);
            match assignments_sql(u.assignments@, 0, n) {
                Err(_) => Seq::empty(),
                Ok((a, ab)) => {
                    let pw = lemma_opt_condition_woven(u.condition, " WHERE "@, n + ab.len());
                    match opt_condition_sql(u.condition, " WHERE "@, n + ab.len()) {
                        Err(_) => Seq::empty(),
                        Ok((w, wb)) => {
                            let p1 = lemma_weave_wrap("DO UPDATE SET "@, pa, ab, Seq::empty(), n);
                            let p2 = lemma_weave_join(p1, ab, pw, wb, n);
                            assert("DO UPDATE SET "@ + a + w =~= weave(p2, ab + wb, n));
                            p2
                        },
                    }
                },
            }
        },
    };
    match action {
        Err(_) => Seq::empty(),
        Ok((a, b)) => match oc.target {
            None => lemma_weave_wrap("ON CONFLICT "@, pact, b, Seq::empty(), n),
            Some(t) => lemma_weave_wrap("ON CONFLICT "@ + conflict_target_sql(t) + " "@, pact, b, Seq::empty(), n),
        },
    }
}

#[verifier::spinoff_prover]
proof fn lemma_assignments_woven(asg: Seq<(ColumnRef, Expr)>, i: int, n: nat) -> (q: Seq<Seq<char>>)
    ensures
        woven(assignments_sql(asg, i, n), q, n),
    decreases asg, asg.len() - i,
{
    reveal_with_fuel(assignments_sql, 1);
    if 0 <= i < asg.len() {
        let p0 = lemma_expr_woven(asg[i].1, n);
        match expr_sql(asg[i].1, n) {
            Err(_) => Seq::empty(),
            Ok((s, b)) => {
                let pone = lemma_weave_wrap(quote_ident(asg[i].0.name@) + " = "@, p0, b, Seq::empty(), n);
                if i + 1 == asg.len() {
                    pone
                } else {
                    let pr = lemma_assignments_woven(asg, i + 1, n + b.len());
                    match assignments_sql(asg, i + 1, n + b.len()) {
                        Err(_) => Seq::empty(),
                        Ok((s2, b2)) => {
                            let p1 = lemma_weave_wrap(Seq::empty(), pone, b, ", "@, n);
                            let p2 = lemma_weave_join(p1, b, pr, b2, n);
                            assert(assignments_sql(asg, i, n)->Ok_0.0 =~= weave(p2, b + b2, n));
                            p2
                        },
                    }
                }
            },
        }
    } else {
        no_pieces()
    }
}

#[verifier::spinoff_prover]
proof fn lemma_returning_woven(items: Seq<SelectItem>, n: nat) -> (q: Seq<Seq<char>>)
    ensures
        woven(returning_sql(items, n), q, n),
    decreases items, items.len() + 1,
{
    reveal_with_fuel(returning_sql, 1);
    if items.len() == 0 {
        no_pieces()
    } else {
        let pi = lemma_items_woven(items, 0, n);
        match items_sql(items, 0, n) {
            Err(_) => Seq::empty(),
            Ok((s, b)) => lemma_weave_wrap(" RETURNING "@, pi, b, Seq::empty(), n),
        }
    }
}

#[verifier::spinoff_prover]
proof fn lemma_from_list_woven(fs: Seq<FromItem>, prefix: Seq<char>, n: nat) -> (q: Seq<Seq<char>>)
    ensures
        woven(from_list_sql(fs, prefix, n), q, n),
    decreases fs, fs.len() + 1,
{
    reveal_with_fuel(from_list_sql, 1);
    if fs.len() == 0 {
        no_pieces()
    } else {
        let pf = lemma_from_items_woven(fs, 0, n);
        match from_items_sql(fs, 0, n) {
            Err(_) => Seq::empty(),
            Ok((s, b)) => lemma_weave_wrap(prefix, pf, b, Seq::empty(), n),
        }
    }
}

#[verifier::spinoff_prover]
proof fn lemma_update_woven(u: UpdateNode, n: nat) -> (q: Seq<Seq<char>>)
    ensures
        woven(update_sql(u, n), q, n),
    decreases u, 1int,
{
    reveal_with_fuel(update_sql, 1);
    if u.values.len() == 0 {
        Seq::empty()
    } else {
        let pa = lemma_assignments_woven(u.values@, 0, n);
        match assignments_sql(u.values@, 0, n) {
            Err(_) => Seq::empty(),
            Ok((a, ab)) => {
                let pf = lemma_from_list_woven(u.from@, " FROM "@, n + ab.len());
                match from_list_sql(u.from@, " FROM "@, n + ab.len()) {
                    Err(_) => Seq::empty(),
                    Ok((f, fb)) => {
                        let pw = lemma_opt_condition_woven(u.condition, " WHERE "@, n + ab.len() + fb.len());
                        match opt_condition_sql(u.condition, " WHERE "@, n + ab.len() + fb.len()) {
                            Err(_) => Seq::empty(),
                            Ok((w, wb)) => {
                                let k = n + ab.len() + fb.len() + wb.len();
                                let pr = lemma_returning_woven(u.returning@, k);
                                match returning_sql(u.returning@, k) {
                                    Err(_) => Seq::empty(),
                                    Ok((r, rb)) => {
                                        let q1 = lemma_weave_wrap("UPDATE "@ + table_sql(u.table) + " SET "@, pa, ab, Seq::empty(), n);
                                        let q2 = lemma_weave_join(q1, ab, pf, fb, n);
                                        let q3 = lemma_weave_join(q2, ab + fb, pw, wb, n);
                                        let q4 = lemma_weave_join(q3, ab + fb + wb, pr, rb, n);
                                        assert(update_sql(u, n)->Ok_0.0 =~= weave(q4, ab + fb + wb + rb, n));
                                        q4
                                    },
                                }
                            },
                        }
                    },
                }
            },
        }
    }
}

#[verifier::spinoff_prover]
proof fn lemma_delete_woven(d: DeleteNode, n: nat) -> (q: Seq<Seq<char>>)
    ensures
        woven(delete_sql(d, n), q, n),
    decreases d, 1int,
{
    reveal_with_fuel(delete_sql, 1);
    let pu = lemma_from_list_woven(d.using@, " USING "@, n);
    match from_list_sql(d.using@, " USING "@, n) {
        Err(_) => Seq::empty(),
        Ok((us, ub)) => {
            let pw = lemma_opt_condition_woven(d.condition, " WHERE "@, n + ub.len());
            match opt_condition_sql(d.condition, " WHERE "@, n + ub.len()) {
                Err(_) => Seq::empty(),
                Ok((w, wb)) => {
                    let pr = lemma_returning_woven(d.returning@, n + ub.len() + wb.len());
                    match returning_sql(d.returning@, n + ub.len() + wb.len()) {
                        Err(_) => Seq::empty(),
                        Ok((r, rb)) => {
                            let q1 = lemma_weave_wrap("DELETE FROM "@ + table_sql(d.from), pu, ub, Seq::empty(), n);
                            let q2 = lemma_weave_join(q1, ub, pw, wb, n);
                            let q3 = lemma_weave_join(q2, ub + wb, pr, rb, n);
                            assert(delete_sql(d, n)->Ok_0.0 =~= weave(q3, ub + wb + rb, n));
                            q3
                        },
                    }
                },
            }
        },
    }
}

#[verifier::spinoff_prover]
proof fn lemma_case_woven(c: CaseExpr, n: nat) -> (q: Seq<Seq<char>>)
    ensures
        woven(case_sql(c, n), q, n),
    decreases c, 1int,
{
    reveal_with_fuel(case_sql, 1);
    if c.whens.len() == 0 {
        Seq::empty()
    } else {
        let pw = lemma_whens_woven(c.whens@, 0, n);
        match whens_sql(c.whens@, 0, n) {
            Err(_) => Seq::empty(),
            Ok((w, wb)) => {
                let tail: Res = match c.else_expr {
                    None => lit(Seq::empty()),
                    Some(x) => match expr_sql(*x, n + wb.len()) {
                        Err(m) => Err(m),
                        Ok((s, b)) => Ok((" ELSE "@ + s, b)),
                    },
                };
                let pt: Seq<Seq<char>> = match c.else_expr {
                    None => no_pieces(),
                    Some(x) => {
                        let px = lemma_expr_woven(*x, n + wb.len());
                        match expr_sql(*x, n + wb.len()) {
                            Err(_) => Seq::empty(),
                            Ok((s, b)) => lemma_weave_wrap(" ELSE "@, px, b, Seq::empty(), n + wb.len()),
                        }
                    },
                };
                match tail {
                    Err(_) => Seq::empty(),
                    Ok((e, eb)) => {
                        let q1 = lemma_weave_wrap("CASE"@, pw, wb, Seq::empty(), n);
                        let q2 = lemma_weave_join(q1, wb, pt, eb, n);
                        let q3 = lemma_weave_wrap(Seq::empty(), q2, wb + eb, " END"@, n);
                        assert(case_sql(c, n)->Ok_0.0 =~= weave(q3, wb + eb, n));
                        q3
                    },
                }
            },
        }
    }
}

#[verifier::spinoff_prover]
proof fn lemma_whens_woven(ws: Seq<CaseWhen>, i: int, n: nat) -> (q: Seq<Seq<char>>)
    ensures
        woven(whens_sql(ws, i, n), q, n),
    decreases ws, ws.len() - i,
{
    reveal_with_fuel(whens_sql, 1);
    if 0 <= i < ws.len() {
        let pc = lemma_condition_woven(ws[i].condition, n);
        match condition_sql(ws[i].condition, n) {
            Err(_) => Seq::empty(),
            Ok((c, cb)) => {
                let pr = lemma_expr_woven(*ws[i].result, n + cb.len());
                match expr_sql(*ws[i].result, n + cb.len()) {
                    Err(_) => Seq::empty(),
                    Ok((r, rb)) => {
                        let pn = lemma_whens_woven(ws, i + 1, n + cb.len() + rb.len());
                        match whens_sql(ws, i + 1, n + cb.len() + rb.len()) {
                            Err(_) => Seq::empty(),
                            Ok((s2, b2)) => {
                                let q1 = lemma_weave_wrap(" WHEN "@, pc, cb, " THEN "@, n);
                                let q2 = lemma_weave_join(q1, cb, pr, rb, n);
                                let q3 = lemma_weave_join(q2, cb + rb, pn, b2, n);
                                assert(whens_sql(ws, i, n)->Ok_0.0 =~= weave(q3, cb + rb + b2, n));
                                q3
                            },
                        }
                    },
                }
            },
        }
    } else {
        no_pieces()
    }
}

#[verifier::spinoff_prover]
proof fn lemma_function_woven(f: FunctionCall, n: nat) -> (q: Seq<Seq<char>>)
    ensures
        woven(function_sql(f, n), q, n),
    decreases f, 1int,
{
    reveal_with_fuel(function_sql, 1);
    if eq_ignore_case(f.name@, "EXTRACT"@) {
        if f.args.len() == 2 {
            match f.args@[0] {
                Expr::Value(DbValue::Text(field)) => {
                    let pe = lemma_expr_woven(f.args@[1], n);
                    match expr_sql(f.args@[1], n) {
                        Err(_) => Seq::empty(),
                        Ok((s, b)) => lemma_weave_wrap("EXTRACT("@ + field@ + " FROM "@, pe, b, ")"@, n),
                    }
                },
                _ => Seq::empty(),
            }
        } else {
            Seq::empty()
        }
    } else if eq_ignore_case(f.name@, "JSONB_TEXT_OR_FIRST"@) {
        if f.args.len() == 2 {
            match f.args@[1] {
                Expr::Value(DbValue::Text(key)) => {
                    let pe = lemma_expr_woven(f.args@[0], n);
                    match expr_sql(f.args@[0], n) {
                        Err(_) => Seq::empty(),
                        Ok((s, b)) => {
                            // The expression's text occurs twice: its second copy
                            // stands in the last piece.
                            let k = bind(text_value(key), n + b.len());
                            lemma_weave_bind(text_value(key), n + b.len());
                            let q1 = lemma_weave_wrap("COALESCE(("@, pe, b, ")->>"@, n);
                            let q2 = lemma_weave_join(q1, b, two_empty(), k.1, n);
                            let q3 = lemma_weave_wrap(
                                Seq::empty(),
                                q2,
                                b + k.1,
                                ", (SELECT value FROM jsonb_each_text("@ + s + ") LIMIT 1))"@,
                                n,
                            );
                            assert(function_sql(f, n)->Ok_0.0 =~= weave(q3, b + k.1, n));
                            q3
                        },
                    }
                },
                _ => Seq::empty(),
            }
        } else {
            Seq::empty()
        }
    } else {
        let pe = lemma_exprs_woven(f.args@, 0, ", "@, n);
        match exprs_sql(f.args@, 0, ", "@, n) {
            Err(_) => Seq::empty(),
            Ok((s, b)) => lemma_weave_wrap(f.name@ + "("@, pe, b, ")"@, n),
        }
    }
}

#[verifier::spinoff_prover]
proof fn lemma_binary_woven(be: BinaryExpr, n: nat) -> (q: Seq<Seq<char>>)
    ensures
        woven(binary_sql(be, n), q, n),
    decreases be, 1int,
{
    reveal_with_fuel(binary_sql, 1);
    let pl = lemma_expr_woven(*be.left, n);
    match expr_sql(*be.left, n) {
        Err(_) => Seq::empty(),
        Ok((l, lb)) => match binary_op_sql(be.operator) {
            Err(_) => Seq::empty(),
            Ok(op) => {
                let pr = lemma_expr_woven(*be.right, n + lb.len());
                match expr_sql(*be.right, n + lb.len()) {
                    Err(_) => Seq::empty(),
                    Ok((r, rb)) => {
                        let q1 = lemma_weave_wrap("("@, pl, lb, " "@ + op + " "@, n);
                        let q2 = lemma_weave_join(q1, lb, pr, rb, n);
                        let q3 = lemma_weave_wrap(Seq::empty(), q2, lb + rb, ")"@, n);
                        assert(binary_sql(be, n)->Ok_0.0 =~= weave(q3, lb + rb, n));
                        q3
                    },
                }
            },
        },
    }
}

#[verifier::spinoff_prover]
proof fn lemma_window_spec_woven(w: WindowSpec, n: nat) -> (q: Seq<Seq<char>>)
    ensures
        woven(window_spec_sql(w, n), q, n),
    decreases w, 1int,
{
    reveal_with_fuel(window_spec_sql, 1);
    let part: Res = if w.partition_by.len() == 0 {
        lit(Seq::empty())
    } else {
        match exprs_sql(w.partition_by@, 0, ", "@, n) {
            Err(m) => Err(m),
            Ok((s, b)) => Ok(("PARTITION BY "@ + s, b)),
        }
    };
    let pp: Seq<Seq<char>> = if w.partition_by.len() == 0 {
        no_pieces()
    } else {
        let pe = lemma_exprs_woven(w.partition_by@, 0, ", "@, n);
        match exprs_sql(w.partition_by@, 0, ", "@, n) {
            Err(_) => Seq::empty(),
            Ok((s, b)) => lemma_weave_wrap("PARTITION BY "@, pe, b, Seq::empty(), n),
        }
    };
    match part {
        Err(_) => Seq::empty(),
        Ok((p, pb)) => {
            let ord: Res = if w.order_by.len() == 0 {
                lit(Seq::empty())
            } else {
                match orders_sql(w.order_by@, 0, n + pb.len()) {
                    Err(m) => Err(m),
                    Ok((s, b)) => Ok(("ORDER BY "@ + s, b)),
                }
            };
            let po: Seq<Seq<char>> = if w.order_by.len() == 0 {
                no_pieces()
            } else {
                let pe = lemma_orders_woven(w.order_by@, 0, n + pb.len());
                match orders_sql(w.order_by@, 0, n + pb.len()) {
                    Err(_) => Seq::empty(),
                    Ok((s, b)) => lemma_weave_wrap("ORDER BY "@, pe, b, Seq::empty(), n + pb.len()),
                }
            };
            match ord {
                Err(_) => Seq::empty(),
                Ok((o, ob)) => {
                    let f = match w.frame {
                        Some(fr) => frame_sql(fr),
                        None => Seq::<char>::empty(),
                    };
                    let mid = if p.len() == 0 || o.len() == 0 { Seq::<char>::empty() } else { " "@ };
                    let q1 = lemma_weave_wrap(Seq::empty(), pp, pb, mid, n);
                    let q2 = lemma_weave_join(q1, pb, po, ob, n);
                    let po2 = space_join(p, o);
                    assert(po2 =~= weave(q2, pb + ob, n));
                    let tail = if po2.len() == 0 || f.len() == 0 { f } else { " "@ + f };
                    let q3 = lemma_weave_wrap(Seq::empty(), q2, pb + ob, tail, n);
                    assert(space_join(po2, f) =~= weave(q3, pb + ob, n));
                    q3
                },
            }
        },
    }
}

#[verifier::spinoff_prover]
proof fn lemma_condition_woven(c: Condition, n: nat) -> (q: Seq<Seq<char>>)
    ensures
        woven(condition_sql(c, n), q, n),
    decreases c, 1int,
{
    reveal_with_fuel(condition_sql, 1);
    match c {
        Condition::Comparison { left, op, right } => {
            let pl = lemma_expr_woven(left, n);
            match expr_sql(left, n) {
                Err(_) => Seq::empty(),
                Ok((l, lb)) => {
                    let pr = lemma_expr_woven(right, n + lb.len());
                    match expr_sql(right, n + lb.len()) {
                        Err(_) => Seq::empty(),
                        Ok((r, rb)) => if op == ComparisonOp::IEq {
                            let q1 = lemma_weave_wrap("LOWER("@, pl, lb, ") = LOWER("@, n);
                            let q2 = lemma_weave_join(q1, lb, pr, rb, n);
                            let q3 = lemma_weave_wrap(Seq::empty(), q2, lb + rb, ")"@, n);
                            assert(condition_sql(c, n)->Ok_0.0 =~= weave(q3, lb + rb, n));
                            q3
                        } else {
                            let q1 = lemma_weave_wrap(Seq::empty(), pl, lb, " "@ + comparison_sql(op) + " "@, n);
                            let q2 = lemma_weave_join(q1, lb, pr, rb, n);
                            assert(condition_sql(c, n)->Ok_0.0 =~= weave(q2, lb + rb, n));
                            q2
                        },
                    }
                },
            }
        },
        Condition::InList { expr, values } => if values.len() == 0 {
            seq!["FALSE"@]
        } else {
            let pe = lemma_expr_woven(expr, n);
            match expr_sql(expr, n) {
                Err(_) => Seq::empty(),
                Ok((e, eb)) => {
                    let vs = bind_list(values@, 0, n + eb.len());
                    let pv = lemma_bind_list_woven(values@, 0, n + eb.len());
                    let q1 = lemma_weave_wrap(Seq::empty(), pe, eb, " IN ("@, n);
                    let q2 = lemma_weave_join(q1, eb, pv, vs.1, n);
                    let q3 = lemma_weave_wrap(Seq::empty(), q2, eb + vs.1, ")"@, n);
                    assert(condition_sql(c, n)->Ok_0.0 =~= weave(q3, eb + vs.1, n));
                    q3
                },
            }
        },
        Condition::JsonPredicate { expr, op, value } => {
            let pe = lemma_expr_woven(expr, n);
            match expr_sql(expr, n) {
                Err(_) => Seq::empty(),
                Ok((e, eb)) => lemma_json_predicate_woven(e, pe, eb, n, op, value),
            }
        },
        Condition::FullText { columns, query } => if columns.len() == 0 {
            seq!["FALSE"@]
        } else {
            lemma_weave_bind(text_value(query), n);
            let q = bind(text_value(query), n);
            lemma_weave_wrap(
                "to_tsvector('english'::regconfig, "@ + document_sql(columns@, 0)
                    + ") @@ plainto_tsquery('english'::regconfig, "@,
                two_empty(),
                q.1,
                ")"@,
                n,
            )
        },
        Condition::And(cs) => if cs.len() == 0 {
            seq!["TRUE"@]
        } else {
            let pc = lemma_conditions_woven(cs@, 0, " AND "@, n);
            match conditions_sql(cs@, 0, " AND "@, n) {
                Err(_) => Seq::empty(),
                Ok((s, b)) => lemma_weave_wrap("("@, pc, b, ")"@, n),
            }
        },
        Condition::Or(cs) => if cs.len() == 0 {
            seq!["FALSE"@]
        } else {
            let pc = lemma_conditions_woven(cs@, 0, " OR "@, n);
            match conditions_sql(cs@, 0, " OR "@, n) {
                Err(_) => Seq::empty(),
                Ok((s, b)) => lemma_weave_wrap("("@, pc, b, ")"@, n),
            }
        },
        Condition::Not(inner) => {
            let pc = lemma_condition_woven(*inner, n);
            match condition_sql(*inner, n) {
                Err(_) => Seq::empty(),
                Ok((s, b)) => lemma_weave_wrap("NOT ("@, pc, b, ")"@, n),
            }
        },
        Condition::IsNull(e) => {
            let pe = lemma_expr_woven(e, n);
            match expr_sql(e, n) {
                Err(_) => Seq::empty(),
                Ok((s, b)) => lemma_weave_wrap(Seq::empty(), pe, b, " IS NULL"@, n),
            }
        },
        Condition::IsNotNull(e) => {
            let pe = lemma_expr_woven(e, n);
            match expr_sql(e, n) {
                Err(_) => Seq::empty(),
                Ok((s, b)) => lemma_weave_wrap(Seq::empty(), pe, b, " IS NOT NULL"@, n),
            }
        },
        Condition::Exists(q) => {
            let pq = lemma_query_woven(*q, n);
            match query_sql(*q, n) {
                Err(_) => Seq::empty(),
                Ok((s, b)) => lemma_weave_wrap("EXISTS ("@, pq, b, ")"@, n),
            }
        },
        Condition::Raw { sql, bindings } => lemma_raw_sql_woven(sql@, bindings@, n),
    }
}

#[verifier::spinoff_prover]
proof fn lemma_expr_woven(e: Expr, n: nat) -> (q: Seq<Seq<char>>)
    ensures
        woven(expr_sql(e, n), q, n),
    decreases e, 1int,
{
    reveal_with_fuel(expr_sql, 1);
    match e {
        Expr::Column(c) => {
            lemma_weave_lit(column_sql(c), n);
            let p = seq![column_sql(c)];
            p
        },
        Expr::Excluded(c) => {
            lemma_weave_lit("EXCLUDED."@ + quote_ident(c.name@), n);
            seq!["EXCLUDED."@ + quote_ident(c.name@)]
        },
        Expr::Value(v) => {
            lemma_weave_bind(v@, n);
            two_empty()
        },
        Expr::Cast { expr, db_type } => {
            let pe = lemma_expr_woven(*expr, n);
            match expr_sql(*expr, n) {
                Err(_) => Seq::empty(),
                Ok((s, b)) => {
                    let q = lemma_weave_wrap("("@, pe, b, ")::"@ + cast_name(db_type), n);
                    assert(expr_sql(e, n)->Ok_0.0 =~= weave(q, b, n));
                    q
                },
            }
        },
        Expr::Aggregate(a) => lemma_aggregate_woven(a, n),
        Expr::Function(f) => lemma_function_woven(*f, n),
        Expr::Unary(u) => {
            let pe = lemma_expr_woven(*u.expr, n);
            match expr_sql(*u.expr, n) {
                Err(_) => Seq::empty(),
                Ok((s, b)) => match u.operator {
                    UnaryOperator::Not => lemma_weave_wrap("NOT ("@, pe, b, ")"@, n),
                    UnaryOperator::Negate => lemma_weave_wrap("-("@, pe, b, ")"@, n),
                },
            }
        },
        Expr::Binary(be) => lemma_binary_woven(*be, n),
        Expr::Subquery(q) => {
            let pq = lemma_query_woven(*q, n);
            match query_sql(*q, n) {
                Err(_) => Seq::empty(),
                Ok((s, b)) => lemma_weave_wrap("("@, pq, b, ")"@, n),
            }
        },
        Expr::Window(w) => {
            let pf = lemma_expr_woven(*w.function, n);
            match expr_sql(*w.function, n) {
                Err(_) => Seq::empty(),
                Ok((f, fb)) => {
                    let pw = lemma_window_spec_woven(w.window, n + fb.len());
                    match window_spec_sql(w.window, n + fb.len()) {
                        Err(_) => Seq::empty(),
                        Ok((s, b)) => {
                            let q1 = lemma_weave_wrap(Seq::empty(), pf, fb, " OVER ("@, n);
                            let q2 = lemma_weave_join(q1, fb, pw, b, n);
                            let q3 = lemma_weave_wrap(Seq::empty(), q2, fb + b, ")"@, n);
                            assert(expr_sql(e, n)->Ok_0.0 =~= weave(q3, fb + b, n));
                            q3
                        },
                    }
                },
            }
        },
        Expr::Case(c) => lemma_case_woven(*c, n),
        Expr::JsonPath(p) => {
            let pe = lemma_expr_woven(*p.expr, n);
            match expr_sql(*p.expr, n) {
                Err(_) => Seq::empty(),
                Ok((s, b)) => if p.path.len() == 0 {
                    match p.mode {
                        JsonPathMode::Json => pe,
                        JsonPathMode::Text => lemma_weave_wrap("("@, pe, b, ")::text"@, n),
                    }
                } else {
                    lemma_json_path_woven(s, pe, b, n, p.path@, 0, p.mode)
                },
            }
        },
        Expr::Raw(s) => {
            lemma_weave_lit(s@, n);
            seq![s@]
        },
    }
}

/// The placeholders of a query's bindings stand in its SQL text in binding
/// order: the text is the query's own pieces `p[0], p[1], ...` (its
/// keywords, names and raw fragments) with `$1::type` between the first two
/// pieces, `$2::type` between the next two, and so on.
pub proof fn law_placeholders_follow_binding_order(q: QueryAst)
    ensures
        query_sql(q, 0) matches Ok(o) ==> exists|p: Seq<Seq<char>>|
            p.len() == o.1.len() + 1 && o.0 == #[trigger] weave(p, o.1, 0),
{
    let p = lemma_query_woven(q, 0);
    match query_sql(q, 0) {
        Err(_) => {},
        Ok(o) => {
            assert(o.0 == weave(p, o.1, 0));
        },
    }
}

// ---------------------------------------------------------------------------
// The `$` signs of the text
// ---------------------------------------------------------------------------

/// The positions of the `$` signs of `t`, in increasing order.
pub open spec fn dollars(t: Seq<char>) -> Seq<int>
    decreases t.len(),
{
    if t.len() == 0 {
        Seq::empty()
    } else if t.last() == '$' {
        dollars(t.drop_last()).push(t.len() - 1)
    } else {
        dollars(t.drop_last())
    }
}

/// Whether `t` holds `p` from position `at` on.
pub open spec fn begins_at(t: Seq<char>, at: int, p: Seq<char>) -> bool {
    0 <= at && at + p.len() <= t.len() && t.subrange(at, at + p.len()) == p
}

/// The number of `$` signs in all the pieces.
pub open spec fn piece_dollars(p: Seq<Seq<char>>) -> nat
    decreases p.len(),
{
    if p.len() == 0 {
        0
    } else {
        piece_dollars(p.drop_last()) + dollars(p.last()).len()
    }
}

#[verifier::spinoff_prover]
proof fn lemma_dollars_concat(x: Seq<char>, y: Seq<char>)
    ensures
        dollars(x + y) == dollars(x) + dollars(y).map_values(|i: int| i + x.len()),
    decreases y.len(),
{
    if y.len() == 0 {
        assert(x + y =~= x);
        assert(dollars(x) + dollars(y).map_values(|i: int| i + x.len()) =~= dollars(x));
    } else {
        lemma_dollars_concat(x, y.drop_last());
        assert((x + y).drop_last() =~= x + y.drop_last());
        assert((x + y).last() == y.last());
        let f = |i: int| i + x.len();
        if y.last() == '$' {
            assert(dollars(y).map_values(f) =~= dollars(y.drop_last()).map_values(f).push(y.len() - 1 + x.len()));
            assert(dollars(x + y) =~= dollars(x) + dollars(y).map_values(f));
        } else {
            assert(dollars(y).map_values(f) =~= dollars(y.drop_last()).map_values(f));
        }
    }
}

/// The positions of the signs are positions of `$` in the text, in
/// increasing order.
#[verifier::spinoff_prover]
proof fn lemma_dollars_are_signs(t: Seq<char>)
    ensures
        forall|k: int| 0 <= k < dollars(t).len() ==> 0 <= #[trigger] dollars(t)[k] < t.len() && t[dollars(t)[k]] == '$',
        forall|k: int, m: int| 0 <= k < m < dollars(t).len() ==> #[trigger] dollars(t)[k] < #[trigger] dollars(t)[m],
        forall|i: int| 0 <= i < t.len() && t[i] == '$' ==> exists|k: int| 0 <= k < dollars(t).len() && #[trigger] dollars(t)[k] == i,
    decreases t.len(),
{
    if t.len() > 0 {
        let d = t.drop_last();
        lemma_dollars_are_signs(d);
        assert forall|i: int| 0 <= i < t.len() && t[i] == '$' implies exists|k: int| 0 <= k < dollars(t).len() && #[trigger] dollars(t)[k] == i by {
            if i < t.len() - 1 {
                assert(d[i] == '$');
                let k = choose|k: int| 0 <= k < dollars(d).len() && #[trigger] dollars(d)[k] == i;
                assert(dollars(t)[k] == i);
            } else {
                assert(dollars(t)[dollars(t).len() - 1] == i);
            }
        }
    }
}

proof fn lemma_digits_have_no_dollar(n: nat)
    ensures
        dollars(dec(n)).len() == 0,
    decreases n,
{
    if n < 10 {
        assert(dec(n).drop_last() =~= Seq::<char>::empty());
        assert(dec(n).last() == digit_char(n));
        assert(dollars(dec(n).drop_last()).len() == 0);
    } else {
        lemma_digits_have_no_dollar(n / 10);
        assert(dec(n).drop_last() =~= dec(n / 10));
        assert(dec(n).last() == digit_char(n % 10));
    }
}

proof fn lemma_cast_has_no_dollar(t: DbType)
    ensures
        dollars(cast_name(t)).len() == 0,
{
    let s = cast_name(t);
    reveal_strlit("smallint");
    reveal_strlit("smallint[]");
    reveal_strlit("integer");
    reveal_strlit("integer[]");
    reveal_strlit("bigint");
    reveal_strlit("bigint[]");
    reveal_strlit("boolean");
    reveal_strlit("boolean[]");
    reveal_strlit("real");
    reveal_strlit("real[]");
    reveal_strlit("double precision");
    reveal_strlit("double precision[]");
    reveal_strlit("numeric");
    reveal_strlit("numeric[]");
    reveal_strlit("text");
    reveal_strlit("text[]");
    reveal_strlit("jsonb");
    reveal_strlit("jsonb[]");
    reveal_strlit("uuid");
    reveal_strlit("uuid[]");
    reveal_strlit("timestamptz");
    reveal_strlit("timestamptz[]");
    reveal_strlit("timestamp");
    reveal_strlit("timestamp[]");
    reveal_strlit("date");
    reveal_strlit("date[]");
    reveal_strlit("time");
    reveal_strlit("time[]");
    reveal_strlit("bytea");
    reveal_strlit("bytea[]");
    lemma_dollars_are_signs(s);
    if dollars(s).len() > 0 {
        assert(s[dollars(s)[0]] == '$');
    }
}

/// A placeholder holds one `$`, its first character.
#[verifier::spinoff_prover]
proof fn lemma_placeholder_dollars(n: nat, v: DbValueView)
    ensures
        dollars(placeholder(n, v)) == seq![0int],
{
    reveal_strlit("$");
    reveal_strlit("::");
    let d = dec(n + 1);
    let c = cast_name(value_type(v));
    lemma_digits_have_no_dollar(n + 1);
    lemma_cast_has_no_dollar(value_type(v));
    let colons = "::"@;
    lemma_dollars_are_signs(colons);
    if dollars(colons).len() > 0 {
        assert(colons[dollars(colons)[0]] == '$');
    }
    let dollar = "$"@;
    assert(dollar.drop_last() =~= Seq::<char>::empty());
    assert(dollars(dollar.drop_last()) == Seq::<int>::empty());
    assert(dollars(dollar) =~= seq![0int]);
    lemma_dollars_concat(dollar, d);
    lemma_dollars_concat(dollar + d, colons);
    lemma_dollars_concat(dollar + d + colons, c);
    assert(dollars(dollar + d) =~= seq![0int]);
    assert(dollars(dollar + d + colons) =~= seq![0int]);
    assert(dollars(dollar + d + colons + c) =~= seq![0int]);
}

/// The signs of woven text: one per placeholder beside those of the
/// pieces; when the pieces hold none, the `k`-th sign begins the
/// placeholder of the `k`-th value.
#[verifier::spinoff_prover]
proof fn lemma_weave_dollars(p: Seq<Seq<char>>, b: Seq<DbValueView>, n: nat)
    requires
        p.len() == b.len() + 1,
    ensures
        dollars(weave(p, b, n)).len() == b.len() + piece_dollars(p),
        piece_dollars(p) == 0 ==> forall|k: int|
            0 <= k < b.len() ==> begins_at(weave(p, b, n), #[trigger] dollars(weave(p, b, n))[k], placeholder((n + k) as nat, b[k])),
    decreases b.len(),
{
    if b.len() == 0 {
        assert(p.drop_last() =~= Seq::<Seq<char>>::empty());
    } else {
        let pd = p.drop_last();
        let bd = b.drop_last();
        lemma_weave_dollars(pd, bd, n);
        let w = weave(pd, bd, n);
        let ph = placeholder((n + b.len() - 1) as nat, b.last());
        let l = p.last();
        lemma_placeholder_dollars((n + b.len() - 1) as nat, b.last());
        lemma_dollars_concat(w, ph);
        lemma_dollars_concat(w + ph, l);
        let t = weave(p, b, n);
        assert(t == w + ph + l);
        if piece_dollars(p) == 0 {
            assert(dollars(l).len() == 0);
            assert(dollars(l).map_values(|i: int| i + (w + ph).len()) =~= Seq::<int>::empty());
            assert(dollars(t) =~= dollars(w).push(w.len() as int));
            assert forall|k: int| 0 <= k < b.len() implies begins_at(t, #[trigger] dollars(t)[k], placeholder((n + k) as nat, b[k])) by {
                if k < bd.len() {
                    let at = dollars(w)[k];
                    let phk = placeholder((n + k) as nat, bd[k]);
                    assert(bd[k] == b[k]);
                    assert(dollars(t)[k] == at);
                    assert(t.subrange(at, at + phk.len()) =~= w.subrange(at, at + phk.len()));
                } else {
                    assert(k == bd.len());
                    assert(dollars(t)[k] == w.len());
                    assert((n + k) as nat == (n + b.len() - 1) as nat);
                    assert(t.subrange(w.len() as int, (w.len() + ph.len()) as int) =~= ph);
                }
            }
        }
    }
}

/// Placeholder numbering of a compiled query: the SQL holds a `$` for
/// each value it binds, and more only where the query's own text (its
/// names or raw fragments) brings them. When it holds exactly as many `$`
/// signs as values, the `k`-th `$` of the text begins `$k::type`, the
/// placeholder of the `k`-th value: the placeholders come in binding order
/// and none is numbered past the last binding.
pub proof fn law_dollar_signs_are_the_placeholders(q: QueryAst)
    ensures
        query_sql(q, 0) matches Ok(o) ==> dollars(o.0).len() >= o.1.len(),
        query_sql(q, 0) matches Ok(o) ==> (dollars(o.0).len() == o.1.len() ==> forall|k: int|
            0 <= k < o.1.len() ==> begins_at(o.0, #[trigger] dollars(o.0)[k], placeholder(k as nat, o.1[k]))),
{
    let p = lemma_query_woven(q, 0);
    match query_sql(q, 0) {
        Err(_) => {},
        Ok(o) => {
            lemma_weave_dollars(p, o.1, 0);
            if dollars(o.0).len() == o.1.len() {
                assert forall|k: int| 0 <= k < o.1.len() implies begins_at(o.0, #[trigger] dollars(o.0)[k], placeholder(k as nat, o.1[k])) by {
                    assert((0 + k) as nat == k as nat);
                }
            }
        },
    }
}

proof fn lemma_occurs_left(p: Seq<char>, a: Seq<char>, b: Seq<char>)
    requires
        occurs(p, a),
    ensures
        occurs(p, a + b),
{
    let k = choose|k: int| 0 <= k && k + p.len() <= a.len() && #[trigger] a.subrange(k, k + p.len()) == p;
    assert((a + b).subrange(k, k + p.len()) =~= a.subrange(k, k + p.len()));
}

/// Woven text holds the placeholder of each of its values.
#[verifier::spinoff_prover]
proof fn lemma_weave_holds_placeholders(p: Seq<Seq<char>>, b: Seq<DbValueView>, n: nat)
    requires
        p.len() == b.len() + 1,
    ensures
        forall|k: int| 0 <= k < b.len() ==> occurs(#[trigger] placeholder((n + k) as nat, b[k]), weave(p, b, n)),
    decreases b.len(),
{
    if b.len() > 0 {
        let pd = p.drop_last();
        let bd = b.drop_last();
        lemma_weave_holds_placeholders(pd, bd, n);
        let w = weave(pd, bd, n);
        let ph = placeholder((n + b.len() - 1) as nat, b.last());
        let l = p.last();
        assert forall|k: int| 0 <= k < b.len() implies occurs(#[trigger] placeholder((n + k) as nat, b[k]), weave(p, b, n)) by {
            if k < bd.len() {
                assert(bd[k] == b[k]);
                lemma_occurs_left(placeholder((n + k) as nat, b[k]), w, ph);
                lemma_occurs_left(placeholder((n + k) as nat, b[k]), w + ph, l);
            } else {
                assert((n + k) as nat == (n + b.len() - 1) as nat);
                let at = w.len() as int;
                assert((w + ph + l).subrange(at, at + ph.len()) =~= ph);
            }
        }
    }
}

/// Every value that a query binds is referred to in its SQL text by its
/// numbered placeholder: the `k`-th binding, counting from one, by
/// `$k::type`, with the cast of the value's type.
pub proof fn law_bindings_are_numbered(q: QueryAst)
    ensures
        query_sql(q, 0) matches Ok(o) ==> forall|k: int|
            0 <= k < o.1.len() ==> occurs(#[trigger] placeholder(k as nat, o.1[k]), o.0),
{
    let p = lemma_query_woven(q, 0);
    match query_sql(q, 0) {
        Err(_) => {},
        Ok(o) => {
            lemma_weave_holds_placeholders(p, o.1, 0);
            assert forall|k: int| 0 <= k < o.1.len() implies occurs(#[trigger] placeholder(k as nat, o.1[k]), o.0) by {
                assert(placeholder((0 + k) as nat, o.1[k]) == placeholder(k as nat, o.1[k]));
            }
        },
    }
}

} // verus!
