//! A row returned by the database: named values kept in name order, with
//! the text accessors that callers read fields through.
use vstd::prelude::*;

use crate::ast::{DbType, DbValue};
use crate::error::Error;
use crate::text::{lemma_seq_lt_irreflexive, lemma_seq_lt_total, lemma_seq_lt_transitive, owned, seq_lt, str_eq, str_less};

verus! {

/// The value under `name`: the first entry with that name.
pub open spec fn lookup(entries: Seq<(String, DbValue)>, name: Seq<char>) -> Option<DbValue>
    decreases entries.len(),
{
    if entries.len() == 0 {
        None
    } else if entries[0].0@ == name {
        Some(entries[0].1)
    } else {
        lookup(entries.drop_first(), name)
    }
}

/// The names come in strictly increasing order.
pub open spec fn names_sorted(entries: Seq<(String, DbValue)>) -> bool {
    forall|i: int, j: int| 0 <= i < j < entries.len() ==> seq_lt(#[trigger] entries[i].0@, #[trigger] entries[j].0@)
}

proof fn lemma_lookup_at(entries: Seq<(String, DbValue)>, name: Seq<char>, j: int)
    requires
        0 <= j < entries.len(),
        entries[j].0@ == name,
        forall|i: int| 0 <= i < j ==> (#[trigger] entries[i]).0@ != name,
    ensures
        lookup(entries, name) == Some(entries[j].1),
    decreases j,
{
    if j > 0 {
        let t = entries.drop_first();
        assert forall|i: int| 0 <= i < j - 1 implies (#[trigger] t[i]).0@ != name by {
            assert(t[i] == entries[i + 1]);
        }
        assert(entries[0].0@ != name);
        lemma_lookup_at(t, name, j - 1);
    }
}

proof fn lemma_lookup_absent(entries: Seq<(String, DbValue)>, name: Seq<char>)
    requires
        forall|i: int| 0 <= i < entries.len() ==> (#[trigger] entries[i]).0@ != name,
    ensures
        lookup(entries, name) is None,
    decreases entries.len(),
{
    if entries.len() > 0 {
        let t = entries.drop_first();
        assert forall|i: int| 0 <= i < t.len() implies (#[trigger] t[i]).0@ != name by {
            assert(t[i] == entries[i + 1]);
        }
        assert(entries[0].0@ != name);
        lemma_lookup_absent(t, name);
    }
}

/// In sorted entries, the value under a name is the one of the entry that
/// has it, and there is none when no entry has it.
proof fn lemma_lookup_sorted(entries: Seq<(String, DbValue)>, name: Seq<char>)
    requires
        names_sorted(entries),
    ensures
        forall|j: int| 0 <= j < entries.len() && #[trigger] entries[j].0@ == name ==> lookup(entries, name)
            == Some(entries[j].1),
        (forall|j: int| 0 <= j < entries.len() ==> (#[trigger] entries[j]).0@ != name) ==> lookup(entries, name) is None,
{
    assert forall|j: int| 0 <= j < entries.len() && #[trigger] entries[j].0@ == name implies lookup(entries, name)
        == Some(entries[j].1) by {
        assert forall|i: int| 0 <= i < j implies (#[trigger] entries[i]).0@ != name by {
            assert(seq_lt(entries[i].0@, entries[j].0@));
            lemma_seq_lt_irreflexive(name);
        }
        lemma_lookup_at(entries, name, j);
    }
    if forall|j: int| 0 <= j < entries.len() ==> (#[trigger] entries[j]).0@ != name {
        lemma_lookup_absent(entries, name);
    }
}

/// A database row: values by column name.
#[derive(Debug)]
pub struct DbRecord {
    values: Vec<(String, DbValue)>,
}

/// The message of a missing field.
pub open spec fn missing_field_message(field: Seq<char>) -> Seq<char> {
    "database field `"@ + field + "` is missing"@
}

/// The name of a column type as the error messages print it.
pub open spec fn type_label(t: DbType) -> Seq<char> {
    match t {
        DbType::Int16 => "Int16"@,
        DbType::Int32 => "Int32"@,
        DbType::Int64 => "Int64"@,
        DbType::Bool => "Bool"@,
        DbType::Float32 => "Float32"@,
        DbType::Float64 => "Float64"@,
        DbType::Numeric => "Numeric"@,
        DbType::Text => "Text"@,
        DbType::Json => "Json"@,
        DbType::Uuid => "Uuid"@,
        DbType::TimestampTz => "TimestampTz"@,
        DbType::Timestamp => "Timestamp"@,
        DbType::Date => "Date"@,
        DbType::Time => "Time"@,
        DbType::Bytea => "Bytea"@,
        DbType::Int16Array => "Int16Array"@,
        DbType::Int32Array => "Int32Array"@,
        DbType::Int64Array => "Int64Array"@,
        DbType::BoolArray => "BoolArray"@,
        DbType::Float32Array => "Float32Array"@,
        DbType::Float64Array => "Float64Array"@,
        DbType::NumericArray => "NumericArray"@,
        DbType::TextArray => "TextArray"@,
        DbType::JsonArray => "JsonArray"@,
        DbType::UuidArray => "UuidArray"@,
        DbType::TimestampTzArray => "TimestampTzArray"@,
        DbType::TimestampArray => "TimestampArray"@,
        DbType::DateArray => "DateArray"@,
        DbType::TimeArray => "TimeArray"@,
        DbType::ByteaArray => "ByteaArray"@,
    }
}

/// The name of a column type as the error messages print it.
pub fn db_type_label(t: DbType) -> (r: &'static str)
    ensures
        r@ == type_label(t),
{
    match t {
        DbType::Int16 => "Int16",
        DbType::Int32 => "Int32",
        DbType::Int64 => "Int64",
        DbType::Bool => "Bool",
        DbType::Float32 => "Float32",
        DbType::Float64 => "Float64",
        DbType::Numeric => "Numeric",
        DbType::Text => "Text",
        DbType::Json => "Json",
        DbType::Uuid => "Uuid",
        DbType::TimestampTz => "TimestampTz",
        DbType::Timestamp => "Timestamp",
        DbType::Date => "Date",
        DbType::Time => "Time",
        DbType::Bytea => "Bytea",
        DbType::Int16Array => "Int16Array",
        DbType::Int32Array => "Int32Array",
        DbType::Int64Array => "Int64Array",
        DbType::BoolArray => "BoolArray",
        DbType::Float32Array => "Float32Array",
        DbType::Float64Array => "Float64Array",
        DbType::NumericArray => "NumericArray",
        DbType::TextArray => "TextArray",
        DbType::JsonArray => "JsonArray",
        DbType::UuidArray => "UuidArray",
        DbType::TimestampTzArray => "TimestampTzArray",
        DbType::TimestampArray => "TimestampArray",
        DbType::DateArray => "DateArray",
        DbType::TimeArray => "TimeArray",
        DbType::ByteaArray => "ByteaArray",
    }
}

/// The message of a field of another type than `expected`.
pub open spec fn wrong_type_message(field: Seq<char>, expected: Seq<char>, t: DbType) -> Seq<char> {
    "database field `"@ + field + "` expected "@ + expected + ", got "@ + type_label(t)
}

fn wrong_type_error(field: &str, expected: &str, value: &DbValue) -> (e: Error)
    ensures
        e.is_plain(),
        e@ == wrong_type_message(field@, expected@, crate::ast::value_type(value@)),
{
    let mut m = owned("database field `");
    m.append(field);
    m.append("` expected ");
    m.append(expected);
    m.append(", got ");
    m.append(db_type_label(value.db_type()));
    Error::message(m)
}

fn missing_field_error(field: &str) -> (e: Error)
    ensures
        e.is_plain(),
        e@ == missing_field_message(field@),
{
    let mut m = owned("database field `");
    m.append(field);
    m.append("` is missing");
    Error::message(m)
}

impl DbRecord {
    /// The entries, in name order.
    pub closed spec fn entries(&self) -> Seq<(String, DbValue)> {
        self.values@
    }

    /// The value under a column name.
    pub open spec fn field(&self, name: Seq<char>) -> Option<DbValue> {
        lookup(self.entries(), name)
    }

    /// The record's invariant: names in strictly increasing order.
    pub open spec fn well_formed(&self) -> bool {
        names_sorted(self.entries())
    }

    /// An empty record.
    pub fn new() -> (r: Self)
        ensures
            r.entries().len() == 0,
            r.well_formed(),
            forall|name: Seq<char>| r.field(name) is None,
    {
        DbRecord { values: Vec::new() }
    }

    /// Sets the value under a name, replacing the one it had.
    pub fn insert(&mut self, name: &str, value: DbValue)
        requires
            old(self).well_formed(),
        ensures
            final(self).well_formed(),
            forall|n: Seq<char>| #[trigger] final(self).field(n) == if n == name@ {
                Some(value)
            } else {
                old(self).field(n)
            },
    {
        let ghost s0 = self.values@;
        let mut p: usize = 0;
        while p < self.values.len() && str_less(self.values[p].0.as_str(), name)
            invariant
                p <= self.values@.len(),
                s0 == self.values@,
                forall|j: int| 0 <= j < p ==> seq_lt(#[trigger] s0[j].0@, name@),
            decreases self.values@.len() - p,
        {
            p = p + 1;
        }
        if p < self.values.len() && str_eq(self.values[p].0.as_str(), name) {
            let entry = (owned(name), value);
            let ghost ev = entry;
            self.values.remove(p);
            self.values.insert(p, entry);
            proof {
                let s1 = self.values@;
                assert(s1 =~= s0.update(p as int, ev));
                assert forall|i: int, j: int| 0 <= i < j < s1.len() implies seq_lt(#[trigger] s1[i].0@, #[trigger] s1[j].0@) by {
                    assert(seq_lt(s0[i].0@, s0[j].0@));
                }
                lemma_lookup_sorted(s0, name@);
                lemma_lookup_sorted(s1, name@);
                assert(s1[p as int].0@ == name@);
                assert forall|n: Seq<char>| #[trigger] lookup(s1, n) == if n == name@ { Some(ev.1) } else { lookup(s0, n) } by {
                    lemma_lookup_sorted(s0, n);
                    lemma_lookup_sorted(s1, n);
                    if n != name@ {
                        if exists|j: int| 0 <= j < s0.len() && #[trigger] s0[j].0@ == n {
                            let j = choose|j: int| 0 <= j < s0.len() && #[trigger] s0[j].0@ == n;
                            assert(j != p);
                            assert(s1[j] == s0[j]);
                            assert(s1[j].0@ == n);
                        } else {
                            assert forall|j: int| 0 <= j < s1.len() implies (#[trigger] s1[j]).0@ != n by {
                                if j != p {
                                    assert(s1[j] == s0[j]);
                                }
                            }
                        }
                    }
                }
            }
        } else {
            let entry = (owned(name), value);
            let ghost ev = entry;
            proof {
                assert forall|j: int| p <= j < s0.len() implies seq_lt(name@, #[trigger] s0[j].0@) by {
                    lemma_seq_lt_total(s0[p as int].0@, name@);
                    if j > p {
                        assert(seq_lt(s0[p as int].0@, s0[j].0@));
                        lemma_seq_lt_transitive(name@, s0[p as int].0@, s0[j].0@);
                    }
                }
            }
            self.values.insert(p, entry);
            proof {
                let s1 = self.values@;
                assert(s1 =~= s0.insert(p as int, ev));
                assert forall|i: int, j: int| 0 <= i < j < s1.len() implies seq_lt(#[trigger] s1[i].0@, #[trigger] s1[j].0@) by {
                    if i < p && j < p {
                        assert(s1[i] == s0[i] && s1[j] == s0[j]);
                    } else if i < p && j == p {
                        assert(s1[i] == s0[i]);
                    } else if i < p {
                        assert(s1[i] == s0[i] && s1[j] == s0[j - 1]);
                        lemma_seq_lt_transitive(s0[i].0@, name@, s0[j - 1].0@);
                    } else if i == p {
                        assert(s1[j] == s0[j - 1]);
                    } else {
                        assert(s1[i] == s0[i - 1] && s1[j] == s0[j - 1]);
                    }
                }
                assert forall|n: Seq<char>| #[trigger] lookup(s1, n) == if n == name@ { Some(ev.1) } else { lookup(s0, n) } by {
                    lemma_lookup_sorted(s0, n);
                    lemma_lookup_sorted(s1, n);
                    assert(s1[p as int] == ev);
                    assert(s1[p as int].0@ == name@);
                    if n != name@ {
                        if exists|j: int| 0 <= j < s0.len() && #[trigger] s0[j].0@ == n {
                            let j = choose|j: int| 0 <= j < s0.len() && #[trigger] s0[j].0@ == n;
                            if j < p {
                                assert(s1[j] == s0[j]);
                                assert(s1[j].0@ == n);
                            } else {
                                assert(s1[j + 1] == s0[j]);
                                assert(s1[j + 1].0@ == n);
                            }
                        } else {
                            assert forall|j: int| 0 <= j < s1.len() implies (#[trigger] s1[j]).0@ != n by {
                                if j < p {
                                    assert(s1[j] == s0[j]);
                                } else if j > p {
                                    assert(s1[j] == s0[j - 1]);
                                }
                            }
                        }
                    }
                }
            }
        }
    }

    /// The value under a column name.
    pub fn get(&self, name: &str) -> (r: Option<&DbValue>)
        requires
            self.well_formed(),
        ensures
            match self.field(name@) {
                Some(v) => r == Some(&v),
                None => r is None,
            },
    {
        let mut i: usize = 0;
        while i < self.values.len()
            invariant
                i <= self.values@.len(),
                names_sorted(self.values@),
                forall|j: int| 0 <= j < i ==> (#[trigger] self.values@[j]).0@ != name@,
            decreases self.values@.len() - i,
        {
            if str_eq(self.values[i].0.as_str(), name) {
                proof {
                    lemma_lookup_sorted(self.values@, name@);
                }
                return Some(&self.values[i].1);
            }
            i = i + 1;
        }
        proof {
            lemma_lookup_sorted(self.values@, name@);
        }
        None
    }

    /// The entries, in name order.
    pub fn entries_in_order(&self) -> (r: &Vec<(String, DbValue)>)
        ensures
            r@ == self.entries(),
    {
        &self.values
    }

    /// The text under a name; empty when it is missing or not text.
    pub fn text(&self, field: &str) -> (r: String)
        requires
            self.well_formed(),
        ensures
            r@ == match self.field(field@) {
                Some(DbValue::Text(s)) => s@,
                _ => Seq::empty(),
            },
    {
        match self.get(field) {
            Some(DbValue::Text(s)) => s.clone(),
            _ => String::new(),
        }
    }

    /// The text under a name; an error names a missing field or the type
    /// of a value that is not text.
    pub fn try_text(&self, field: &str) -> (r: Result<String, Error>)
        requires
            self.well_formed(),
        ensures
            match self.field(field@) {
                Some(DbValue::Text(s)) => r matches Ok(t) && t@ == s@,
                Some(v) => r matches Err(e) && e.is_plain() && e@ == wrong_type_message(field@, "text"@, crate::ast::value_type(v@)),
                None => r matches Err(e) && e.is_plain() && e@ == missing_field_message(field@),
            },
    {
        match self.get(field) {
            Some(DbValue::Text(s)) => Ok(s.clone()),
            Some(value) => Err(wrong_type_error(field, "text", value)),
            None => Err(missing_field_error(field)),
        }
    }

    /// The text under a name, or its UUID in hyphenated form; empty when it
    /// is missing or of another type.
    pub fn text_or_uuid(&self, field: &str) -> (r: String)
        requires
            self.well_formed(),
        ensures
            r@ == match self.field(field@) {
                Some(DbValue::Text(s)) => s@,
                Some(DbValue::Uuid(u)) => uuid_text(u),
                _ => Seq::empty(),
            },
    {
        match self.get(field) {
            Some(DbValue::Text(s)) => s.clone(),
            Some(DbValue::Uuid(u)) => uuid_string(*u),
            _ => String::new(),
        }
    }

    /// The text under a name, or its UUID in hyphenated form; an error names
    /// a missing field or the type of a value of another type.
    pub fn try_text_or_uuid(&self, field: &str) -> (r: Result<String, Error>)
        requires
            self.well_formed(),
        ensures
            match self.field(field@) {
                Some(DbValue::Text(s)) => r matches Ok(t) && t@ == s@,
                Some(DbValue::Uuid(u)) => r matches Ok(t) && t@ == uuid_text(u),
                Some(v) => r matches Err(e) && e.is_plain() && e@ == wrong_type_message(field@, "text or uuid"@, crate::ast::value_type(v@)),
                None => r matches Err(e) && e.is_plain() && e@ == missing_field_message(field@),
            },
    {
        match self.get(field) {
            Some(DbValue::Text(s)) => Ok(s.clone()),
            Some(DbValue::Uuid(u)) => Ok(uuid_string(*u)),
            Some(value) => Err(wrong_type_error(field, "text or uuid", value)),
            None => Err(missing_field_error(field)),
        }
    }

    /// The text under a name, when it is text.
    pub fn optional_text(&self, field: &str) -> (r: Option<String>)
        requires
            self.well_formed(),
        ensures
            match self.field(field@) {
                Some(DbValue::Text(s)) => r matches Some(t) && t@ == s@,
                _ => r is None,
            },
    {
        match self.get(field) {
            Some(DbValue::Text(s)) => Some(s.clone()),
            _ => None,
        }
    }
}

/// The lowercase hex digit of a nibble.
pub open spec fn hex_digit(n: u128) -> char {
    if n < 10 {
        (('0' as u32) + n) as char
    } else {
        (('a' as u32) + n - 10) as char
    }
}

/// How many hyphens come before position `k` of a hyphenated UUID.
pub open spec fn hyphens_before(k: int) -> int {
    if k < 8 {
        0
    } else if k < 13 {
        1
    } else if k < 18 {
        2
    } else if k < 23 {
        3
    } else {
        4
    }
}

/// The hyphenated form of a UUID: its 32 hex digits, most significant
/// first, in groups of 8, 4, 4, 4 and 12 joined by hyphens.
pub open spec fn uuid_text(value: u128) -> Seq<char> {
    Seq::new(
        36,
        |k: int|
            if k == 8 || k == 13 || k == 18 || k == 23 {
                '-'
            } else {
                hex_digit((value >> ((124 - 4 * (k - hyphens_before(k))) as u128)) & 0xf)
            },
    )
}

/// `uuid::Uuid::from_u128(value).to_string()`: the UUID of the big-endian
/// bytes of `value`, displayed as 32 lowercase hex digits, most significant
/// first, in groups of 8, 4, 4, 4 and 12 joined by hyphens.
#[verifier::external_body]
pub(crate) fn uuid_string(value: u128) -> (r: String)
    ensures
        r@ == uuid_text(value),
{
    uuid::Uuid::from_u128(value).to_string()
}

} // verus!
