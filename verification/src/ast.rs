//! The query tree: typed values, column and table references, expressions,
//! conditions and the statement nodes that the compiler turns into SQL.
use vstd::prelude::*;

use crate::error::Error;
use crate::text::{string_of, char_is_ascii_digit, char_is_whitespace, is_ascii_digit, is_whitespace, owned};

verus! {

// ---------------------------------------------------------------------------
// Numeric
// ---------------------------------------------------------------------------

/// A decimal number kept as its validated text.
#[derive(Debug, PartialEq, Eq, PartialOrd, Ord)]
pub struct Numeric(String);

impl View for Numeric {
    type V = Seq<char>;

    closed spec fn view(&self) -> Seq<char> {
        self.0@
    }
}

impl Clone for Numeric {
    fn clone(&self) -> (r: Self)
        ensures
            r == *self,
            r@ == self@,
    {
        Numeric(self.0.clone())
    }
}

/// The sequence with Unicode whitespace removed from its start.
pub open spec fn trim_start(s: Seq<char>) -> Seq<char>
    decreases s.len(),
{
    if s.len() > 0 && is_whitespace(s[0]) {
        trim_start(s.subrange(1, s.len() as int))
    } else {
        s
    }
}

/// The sequence with Unicode whitespace removed from its end.
pub open spec fn trim_end(s: Seq<char>) -> Seq<char>
    decreases s.len(),
{
    if s.len() > 0 && is_whitespace(s[s.len() - 1]) {
        trim_end(s.subrange(0, s.len() - 1))
    } else {
        s
    }
}

/// `str::trim`.
pub open spec fn trim(s: Seq<char>) -> Seq<char> {
    trim_end(trim_start(s))
}

/// The text after one leading `-`, or else after one leading `+`.
pub open spec fn unsigned_part(t: Seq<char>) -> Seq<char> {
    if t.len() > 0 && (t[0] == '-' || t[0] == '+') {
        t.subrange(1, t.len() as int)
    } else {
        t
    }
}

pub open spec fn count_char(s: Seq<char>, c: char) -> nat
    decreases s.len(),
{
    if s.len() == 0 {
        0
    } else {
        (if s[0] == c { 1nat } else { 0nat }) + count_char(s.subrange(1, s.len() as int), c)
    }
}

/// The index of the first `c` in `s`, or `s.len()` when there is none.
pub open spec fn first_index(s: Seq<char>, c: char) -> nat
    decreases s.len(),
{
    if s.len() == 0 {
        0
    } else if s[0] == c {
        0
    } else {
        1 + first_index(s.subrange(1, s.len() as int), c)
    }
}

pub open spec fn all_digits(s: Seq<char>) -> bool {
    forall|i: int| 0 <= i < s.len() ==> is_ascii_digit(#[trigger] s[i])
}

/// What `Numeric::new` accepts: an optional sign, ASCII digits, and at most
/// one decimal point followed by at least one digit; surrounding whitespace
/// is ignored. `Err` carries the message of the first rule broken.
pub open spec fn numeric_check(s: Seq<char>) -> Result<(), Seq<char>> {
    let t = trim(s);
    if t.len() == 0 {
        Err("numeric value cannot be empty"@)
    } else {
        unsigned_check(unsigned_part(t))
    }
}

/// The rules for the text once whitespace and sign are removed.
pub open spec fn unsigned_check(u: Seq<char>) -> Result<(), Seq<char>> {
    if count_char(u, '.') >= 2 {
        Err("numeric value may only contain one decimal point"@)
    } else if count_char(u, '.') == 0 {
        if u.len() == 0 {
            Err("numeric value must contain digits"@)
        } else if !all_digits(u) {
            Err("numeric integer part must be ascii digits"@)
        } else {
            Ok(())
        }
    } else {
        let k = first_index(u, '.');
        let int_part = u.subrange(0, k as int);
        let frac = u.subrange((k + 1) as int, u.len() as int);
        if int_part.len() > 0 && !all_digits(int_part) {
            Err("numeric integer part must be ascii digits"@)
        } else if frac.len() == 0 || !all_digits(frac) {
            Err("numeric fractional part must be ascii digits"@)
        } else {
            Ok(())
        }
    }
}

proof fn lemma_trim_start_index(s: Seq<char>, i: int)
    requires
        0 <= i <= s.len(),
        forall|j: int| 0 <= j < i ==> is_whitespace(#[trigger] s[j]),
        i == s.len() || !is_whitespace(s[i]),
    ensures
        trim_start(s) == s.subrange(i, s.len() as int),
    decreases i,
{
    if i > 0 {
        let t = s.subrange(1, s.len() as int);
        assert forall|j: int| 0 <= j < i - 1 implies is_whitespace(#[trigger] t[j]) by {
            assert(t[j] == s[j + 1]);
        }
        lemma_trim_start_index(t, i - 1);
        assert(t.subrange(i - 1, t.len() as int) =~= s.subrange(i, s.len() as int));
    } else {
        assert(s.subrange(0, s.len() as int) =~= s);
    }
}

proof fn lemma_trim_end_index(s: Seq<char>, k: int)
    requires
        0 <= k <= s.len(),
        forall|j: int| k <= j < s.len() ==> is_whitespace(#[trigger] s[j]),
        k == 0 || !is_whitespace(s[k - 1]),
    ensures
        trim_end(s) == s.subrange(0, k),
    decreases s.len() - k,
{
    if k < s.len() {
        let t = s.subrange(0, s.len() - 1);
        assert forall|j: int| k <= j < t.len() implies is_whitespace(#[trigger] t[j]) by {
            assert(t[j] == s[j]);
        }
        lemma_trim_end_index(t, k);
        assert(t.subrange(0, k) =~= s.subrange(0, k));
    } else {
        assert(s.subrange(0, s.len() as int) =~= s);
    }
}

pub proof fn lemma_count_char_split(s: Seq<char>, c: char, i: int)
    requires
        0 <= i < s.len(),
    ensures
        count_char(s.subrange(0, i + 1), c) == count_char(s.subrange(0, i), c)
            + (if s[i] == c { 1nat } else { 0nat }),
    decreases i,
{
    if i > 0 {
        let t = s.subrange(1, s.len() as int);
        lemma_count_char_split(t, c, i - 1);
        assert(s.subrange(0, i + 1).subrange(1, i + 1) =~= t.subrange(0, i));
        assert(s.subrange(0, i).subrange(1, i) =~= t.subrange(0, i - 1));
    } else {
        assert(s.subrange(0, 1).subrange(1, 1) =~= Seq::<char>::empty());
        assert(s.subrange(0, 0) =~= Seq::<char>::empty());
    }
}

/// `first_index` is at most the length, names an occurrence when it is
/// below it, and no occurrence comes before it.
pub proof fn lemma_first_index_bound(s: Seq<char>, c: char)
    ensures
        first_index(s, c) <= s.len(),
        first_index(s, c) < s.len() ==> s[first_index(s, c) as int] == c,
        forall|j: int| 0 <= j < first_index(s, c) ==> s[j] != c,
    decreases s.len(),
{
    if s.len() > 0 && s[0] != c {
        let t = s.subrange(1, s.len() as int);
        lemma_first_index_bound(t, c);
        assert forall|j: int| 0 <= j < first_index(s, c) implies s[j] != c by {
            if j > 0 {
                assert(s[j] == t[j - 1]);
            }
        }
    }
}

/// The index of the first `c` in `v[from..to]`, or `to`.
pub fn find_char(v: &Vec<char>, c: char, from: usize, to: usize) -> (k: usize)
    requires
        from <= to <= v.len(),
    ensures
        from <= k <= to,
        k - from == first_index(v@.subrange(from as int, to as int), c),
        k < to ==> v@[k as int] == c,
        forall|j: int| from <= j < k ==> v@[j] != c,
{
    let mut k = from;
    while k < to && v[k] != c
        invariant
            from <= k <= to <= v.len(),
            forall|j: int| from <= j < k ==> v@[j] != c,
        decreases to - k,
    {
        k = k + 1;
    }
    proof {
        let sub = v@.subrange(from as int, to as int);
        assert forall|j: int| 0 <= j < k - from implies sub[j] != c by {
            assert(sub[j] == v@[from + j]);
        }
        if k < to {
            assert(sub[k - from] == v@[k as int]);
        }
        lemma_first_index_prefix(sub, c, k - from);
    }
    k
}

pub proof fn lemma_first_index_prefix(s: Seq<char>, c: char, i: int)
    requires
        0 <= i <= s.len(),
        forall|j: int| 0 <= j < i ==> s[j] != c,
        i == s.len() || s[i] == c,
    ensures
        first_index(s, c) == i,
    decreases i,
{
    if i > 0 {
        let t = s.subrange(1, s.len() as int);
        assert forall|j: int| 0 <= j < i - 1 implies t[j] != c by {
            assert(t[j] == s[j + 1]);
        }
        lemma_first_index_prefix(t, c, i - 1);
    }
}

proof fn lemma_count_zero_until_first(s: Seq<char>, c: char, i: int)
    requires
        0 <= i <= s.len(),
        forall|j: int| 0 <= j < i ==> s[j] != c,
    ensures
        count_char(s.subrange(0, i), c) == 0,
    decreases i,
{
    if i > 0 {
        lemma_count_zero_until_first(s, c, i - 1);
        lemma_count_char_split(s, c, i - 1);
    } else {
        assert(s.subrange(0, 0) =~= Seq::<char>::empty());
    }
}

/// The characters of `s` as a vector.
pub fn chars_of(s: &str) -> (v: Vec<char>)
    ensures
        v@ == s@,
{
    let n = s.unicode_len();
    let mut v: Vec<char> = Vec::new();
    let mut i: usize = 0;
    while i < n
        invariant
            n == s@.len(),
            i <= n,
            v@ == s@.subrange(0, i as int),
        decreases n - i,
    {
        v.push(s.get_char(i));
        i = i + 1;
        proof {
            assert(v@ =~= s@.subrange(0, i as int));
        }
    }
    proof {
        assert(s@.subrange(0, n as int) =~= s@);
    }
    v
}

/// The index of the first non-whitespace character (or the length).
fn skip_whitespace(v: &Vec<char>) -> (i: usize)
    ensures
        i <= v.len(),
        forall|j: int| 0 <= j < i ==> is_whitespace(#[trigger] v@[j]),
        i == v.len() || !is_whitespace(v@[i as int]),
{
    let mut i: usize = 0;
    while i < v.len() && char_is_whitespace(v[i])
        invariant
            i <= v.len(),
            forall|j: int| 0 <= j < i ==> is_whitespace(#[trigger] v@[j]),
        decreases v.len() - i,
    {
        i = i + 1;
    }
    i
}

/// The end of the text once trailing whitespace after `start` is dropped.
fn trailing_end(v: &Vec<char>, start: usize) -> (k: usize)
    requires
        start <= v.len(),
    ensures
        start <= k <= v.len(),
        forall|j: int| k <= j < v.len() ==> is_whitespace(#[trigger] v@[j]),
        k == start || !is_whitespace(v@[k - 1]),
{
    let mut k: usize = v.len();
    while k > start && char_is_whitespace(v[k - 1])
        invariant
            start <= k <= v.len(),
            forall|j: int| k <= j < v.len() ==> is_whitespace(#[trigger] v@[j]),
        decreases k,
    {
        k = k - 1;
    }
    k
}

/// The bounds of `v` once leading and trailing Unicode whitespace is dropped.
pub fn trim_bounds(v: &Vec<char>) -> (r: (usize, usize))
    ensures
        r.0 <= r.1 <= v.len(),
        trim(v@) == v@.subrange(r.0 as int, r.1 as int),
{
    let start = skip_whitespace(v);
    let end = trailing_end(v, start);
    proof {
        let t = v@.subrange(start as int, end as int);
        lemma_trim_start_index(v@, start as int);
        let ts = v@.subrange(start as int, v@.len() as int);
        assert forall|j: int| end - start <= j < ts.len() implies is_whitespace(#[trigger] ts[j]) by {
            assert(ts[j] == v@[start + j]);
        }
        if end > start {
            assert(ts[end - start - 1] == v@[end - 1]);
        }
        lemma_trim_end_index(ts, end - start);
        assert(ts.subrange(0, end - start) =~= t);
    }
    (start, end)
}

/// `str::trim`, as a new string.
pub fn trimmed(s: &str) -> (r: String)
    ensures
        r@ == trim(s@),
{
    let v = chars_of(s);
    let (a, b) = trim_bounds(&v);
    string_of(&v, a, b)
}

/// Whether `v[from..to]` is made of ASCII digits only.
fn digits_between(v: &Vec<char>, from: usize, to: usize) -> (b: bool)
    requires
        from <= to <= v.len(),
    ensures
        b == all_digits(v@.subrange(from as int, to as int)),
{
    let mut i = from;
    while i < to
        invariant
            from <= i <= to <= v.len(),
            forall|j: int| from <= j < i ==> is_ascii_digit(#[trigger] v@[j]),
        decreases to - i,
    {
        if !char_is_ascii_digit(v[i]) {
            proof {
                assert(v@.subrange(from as int, to as int)[i - from] == v@[i as int]);
            }
            return false;
        }
        i = i + 1;
    }
    proof {
        assert forall|j: int| 0 <= j < to - from implies is_ascii_digit(
            #[trigger] v@.subrange(from as int, to as int)[j],
        ) by {
            assert(v@.subrange(from as int, to as int)[j] == v@[from + j]);
        }
    }
    true
}

/// Checks a numeric text; `Ok` exactly when `numeric_check` accepts it.
pub fn validate_numeric(value: &str) -> (r: Result<(), Error>)
    ensures
        match numeric_check(value@) {
            Ok(_) => r is Ok,
            Err(m) => r matches Err(e) && e.is_plain() && e@ == m,
        },
{
    let v = chars_of(value);
    let start = skip_whitespace(&v);
    let end = trailing_end(&v, start);
    let ghost t = v@.subrange(start as int, end as int);
    proof {
        lemma_trim_start_index(v@, start as int);
        let ts = v@.subrange(start as int, v@.len() as int);
        assert forall|j: int| end - start <= j < ts.len() implies is_whitespace(#[trigger] ts[j]) by {
            assert(ts[j] == v@[start + j]);
        }
        if end > start {
            assert(ts[end - start - 1] == v@[end - 1]);
        }
        lemma_trim_end_index(ts, end - start);
        assert(ts.subrange(0, end - start) =~= t);
        assert(trim(value@) == t);
    }
    if start == end {
        return Err(Error::message(owned("numeric value cannot be empty")));
    }
    let mut ustart = start;
    if v[start] == '-' || v[start] == '+' {
        ustart = start + 1;
    }
    proof {
        assert(unsigned_part(t) =~= v@.subrange(ustart as int, end as int));
    }
    check_unsigned(&v, ustart, end)
}

/// Applies `unsigned_check` to `v[ustart..end]`.
fn check_unsigned(v: &Vec<char>, ustart: usize, end: usize) -> (r: Result<(), Error>)
    requires
        ustart <= end <= v.len(),
    ensures
        match unsigned_check(v@.subrange(ustart as int, end as int)) {
            Ok(_) => r is Ok,
            Err(m) => r matches Err(e) && e.is_plain() && e@ == m,
        },
{
    let ghost u = v@.subrange(ustart as int, end as int);
    let mut i = ustart;
    while i < end && v[i] != '.'
        invariant
            ustart <= i <= end <= v.len(),
            forall|j: int| ustart <= j < i ==> v@[j] != '.',
        decreases end - i,
    {
        i = i + 1;
    }
    let dot = i;
    proof {
        assert forall|j: int| 0 <= j < dot - ustart implies u[j] != '.' by {
            assert(u[j] == v@[ustart + j]);
        }
        if dot < end {
            assert(u[dot - ustart] == v@[dot as int]);
        }
        lemma_first_index_prefix(u, '.', dot - ustart);
        lemma_count_zero_until_first(u, '.', dot - ustart);
    }
    if dot == end {
        proof {
            assert(u.subrange(0, u.len() as int) =~= u);
        }
        if ustart == end {
            return Err(Error::message(owned("numeric value must contain digits")));
        }
        if !digits_between(v, ustart, end) {
            return Err(Error::message(owned("numeric integer part must be ascii digits")));
        }
        return Ok(());
    }
    let mut k = dot + 1;
    while k < end && v[k] != '.'
        invariant
            dot < k <= end <= v.len(),
            forall|j: int| dot < j < k ==> v@[j] != '.',
        decreases end - k,
    {
        k = k + 1;
    }
    proof {
        let a = (dot - ustart) as int;
        let b = (k - ustart) as int;
        assert forall|j: int| a + 1 <= j < b implies u[j] != '.' by {
            assert(u[j] == v@[ustart + j]);
        }
        lemma_count_char_split(u, '.', a);
        assert(u[a] == v@[dot as int]);
        lemma_count_no_more(u, '.', a + 1, b);
        if k < end {
            assert(u[b] == v@[k as int]);
            lemma_count_char_split(u, '.', b);
            lemma_count_prefix_le(u, '.', b + 1);
        } else {
            assert(u.subrange(0, u.len() as int) =~= u);
        }
    }
    if k < end {
        return Err(Error::message(owned("numeric value may only contain one decimal point")));
    }
    proof {
        assert(v@.subrange(ustart as int, dot as int) =~= u.subrange(0, (dot - ustart) as int));
        assert(v@.subrange(dot + 1, end as int) =~= u.subrange(dot - ustart + 1, u.len() as int));
    }
    if dot > ustart && !digits_between(v, ustart, dot) {
        return Err(Error::message(owned("numeric integer part must be ascii digits")));
    }
    if dot + 1 == end || !digits_between(v, dot + 1, end) {
        return Err(Error::message(owned("numeric fractional part must be ascii digits")));
    }
    Ok(())
}

/// How many times `c` occurs in `v`.
pub fn count_occurrences(v: &Vec<char>, c: char) -> (k: usize)
    ensures
        k == count_char(v@, c),
{
    let mut k: usize = 0;
    let mut i: usize = 0;
    proof {
        assert(v@.subrange(0, 0) =~= Seq::<char>::empty());
    }
    while i < v.len()
        invariant
            i <= v.len(),
            k <= i,
            k == count_char(v@.subrange(0, i as int), c),
        decreases v.len() - i,
    {
        proof {
            lemma_count_char_split(v@, c, i as int);
        }
        if v[i] == c {
            k = k + 1;
        }
        i = i + 1;
    }
    proof {
        assert(v@.subrange(0, v.len() as int) =~= v@);
    }
    k
}

proof fn lemma_count_no_more(s: Seq<char>, c: char, from: int, to: int)
    requires
        0 <= from <= to <= s.len(),
        forall|j: int| from <= j < to ==> s[j] != c,
    ensures
        count_char(s.subrange(0, to), c) == count_char(s.subrange(0, from), c),
    decreases to - from,
{
    if to > from {
        lemma_count_no_more(s, c, from, to - 1);
        lemma_count_char_split(s, c, to - 1);
    }
}

proof fn lemma_count_prefix_le(s: Seq<char>, c: char, i: int)
    requires
        0 <= i <= s.len(),
    ensures
        count_char(s.subrange(0, i), c) <= count_char(s, c),
    decreases s.len() - i,
{
    if i < s.len() {
        lemma_count_char_split(s, c, i);
        lemma_count_prefix_le(s, c, i + 1);
    } else {
        assert(s.subrange(0, i) =~= s);
    }
}

impl Numeric {
    /// A numeric from text, refused when `numeric_check` refuses it.
    pub fn new(value: &str) -> (r: Result<Numeric, Error>)
        ensures
            match numeric_check(value@) {
                Ok(_) => r matches Ok(n) && n@ == value@,
                Err(m) => r matches Err(e) && e.is_plain() && e@ == m,
            },
    {
        match validate_numeric(value) {
            Ok(()) => Ok(Numeric(owned(value))),
            Err(e) => Err(e),
        }
    }

    /// The text of the number.
    pub fn as_str(&self) -> (s: &str)
        ensures
            s@ == self@,
    {
        self.0.as_str()
    }

    /// A numeric for an integer (`From<i64>`).
    pub fn from_i64(value: i64) -> (n: Numeric)
        ensures
            n@ == crate::text::idec(value as int),
    {
        let mut s = String::new();
        crate::text::push_signed_decimal(&mut s, value);
        proof {
            assert(Seq::<char>::empty() + crate::text::idec(value as int) =~= crate::text::idec(value as int));
        }
        Numeric(s)
    }
}

// ---------------------------------------------------------------------------
// Database types and values
// ---------------------------------------------------------------------------

/// A PostgreSQL column type known to the query layer.
#[derive(Clone, Copy, Debug, PartialEq, Eq, Structural)]
pub enum DbType {
    Int16,
    Int32,
    Int64,
    Bool,
    Float32,
    Float64,
    Numeric,
    Text,
    Json,
    Uuid,
    TimestampTz,
    Timestamp,
    Date,
    Time,
    Bytea,
    Int16Array,
    Int32Array,
    Int64Array,
    BoolArray,
    Float32Array,
    Float64Array,
    NumericArray,
    TextArray,
    JsonArray,
    UuidArray,
    TimestampTzArray,
    TimestampArray,
    DateArray,
    TimeArray,
    ByteaArray,
}

/// The PostgreSQL name used in `::type` casts.
pub open spec fn cast_name(t: DbType) -> Seq<char> {
    match t {
        DbType::Int16 => "smallint"@,
        DbType::Int32 => "integer"@,
        DbType::Int64 => "bigint"@,
        DbType::Bool => "boolean"@,
        DbType::Float32 => "real"@,
        DbType::Float64 => "double precision"@,
        DbType::Numeric => "numeric"@,
        DbType::Text => "text"@,
        DbType::Json => "jsonb"@,
        DbType::Uuid => "uuid"@,
        DbType::TimestampTz => "timestamptz"@,
        DbType::Timestamp => "timestamp"@,
        DbType::Date => "date"@,
        DbType::Time => "time"@,
        DbType::Bytea => "bytea"@,
        DbType::Int16Array => "smallint[]"@,
        DbType::Int32Array => "integer[]"@,
        DbType::Int64Array => "bigint[]"@,
        DbType::BoolArray => "boolean[]"@,
        DbType::Float32Array => "real[]"@,
        DbType::Float64Array => "double precision[]"@,
        DbType::NumericArray => "numeric[]"@,
        DbType::TextArray => "text[]"@,
        DbType::JsonArray => "jsonb[]"@,
        DbType::UuidArray => "uuid[]"@,
        DbType::TimestampTzArray => "timestamptz[]"@,
        DbType::TimestampArray => "timestamp[]"@,
        DbType::DateArray => "date[]"@,
        DbType::TimeArray => "time[]"@,
        DbType::ByteaArray => "bytea[]"@,
    }
}

/// The element type of an array type.
pub open spec fn element_type(t: DbType) -> Option<DbType> {
    match t {
        DbType::Int16Array => Some(DbType::Int16),
        DbType::Int32Array => Some(DbType::Int32),
        DbType::Int64Array => Some(DbType::Int64),
        DbType::BoolArray => Some(DbType::Bool),
        DbType::Float32Array => Some(DbType::Float32),
        DbType::Float64Array => Some(DbType::Float64),
        DbType::NumericArray => Some(DbType::Numeric),
        DbType::TextArray => Some(DbType::Text),
        DbType::JsonArray => Some(DbType::Json),
        DbType::UuidArray => Some(DbType::Uuid),
        DbType::TimestampTzArray => Some(DbType::TimestampTz),
        DbType::TimestampArray => Some(DbType::Timestamp),
        DbType::DateArray => Some(DbType::Date),
        DbType::TimeArray => Some(DbType::Time),
        DbType::ByteaArray => Some(DbType::Bytea),
        _ => None,
    }
}

/// The cast names of the types: an array type is cast as its element's
/// name followed by `[]`, no other name ends in `]`, and no two types share
/// a name.
pub proof fn law_cast_names(t1: DbType, t2: DbType)
    ensures
        element_type(t1) matches Some(e) ==> cast_name(t1) == cast_name(e) + "[]"@,
        element_type(t1) is None ==> cast_name(t1).last() != ']',
        t1 != t2 ==> cast_name(t1) != cast_name(t2),
{
    reveal_strlit("[]");
    reveal_strlit("smallint");
    reveal_strlit("smallint[]");
    reveal_strlit("integer");
    reveal_strlit("integer[]");
    reveal_strlit("bigint");
    reveal_strlit("bigint[]");
    reveal_strlit("boolean");
    reveal_strlit("boolean[]");
    reveal_strlit("real");
    reveal_strlit("real[]");
    reveal_strlit("double precision");
    reveal_strlit("double precision[]");
    reveal_strlit("numeric");
    reveal_strlit("numeric[]");
    reveal_strlit("text");
    reveal_strlit("text[]");
    reveal_strlit("jsonb");
    reveal_strlit("jsonb[]");
    reveal_strlit("uuid");
    reveal_strlit("uuid[]");
    reveal_strlit("timestamptz");
    reveal_strlit("timestamptz[]");
    reveal_strlit("timestamp");
    reveal_strlit("timestamp[]");
    reveal_strlit("date");
    reveal_strlit("date[]");
    reveal_strlit("time");
    reveal_strlit("time[]");
    reveal_strlit("bytea");
    reveal_strlit("bytea[]");
    if t1 != t2 && cast_name(t1) == cast_name(t2) {
        assert(cast_name(t1).len() == cast_name(t2).len());
        assert(cast_name(t1)[0] == cast_name(t2)[0]);
        assert(cast_name(t1)[1] == cast_name(t2)[1]);
        assert(cast_name(t1)[cast_name(t1).len() - 1] == cast_name(t2)[cast_name(t2).len() - 1]);
        assert(cast_name(t1)[cast_name(t1).len() - 3] == cast_name(t2)[cast_name(t2).len() - 3]);
    }
}

impl DbType {
    /// The PostgreSQL name of the type, as written after `::`.
    pub fn postgres_cast(self) -> (s: &'static str)
        ensures
            s@ == cast_name(self),
    {
        match self {
            DbType::Int16 => "smallint",
            DbType::Int32 => "integer",
            DbType::Int64 => "bigint",
            DbType::Bool => "boolean",
            DbType::Float32 => "real",
            DbType::Float64 => "double precision",
            DbType::Numeric => "numeric",
            DbType::Text => "text",
            DbType::Json => "jsonb",
            DbType::Uuid => "uuid",
            DbType::TimestampTz => "timestamptz",
            DbType::Timestamp => "timestamp",
            DbType::Date => "date",
            DbType::Time => "time",
            DbType::Bytea => "bytea",
            DbType::Int16Array => "smallint[]",
            DbType::Int32Array => "integer[]",
            DbType::Int64Array => "bigint[]",
            DbType::BoolArray => "boolean[]",
            DbType::Float32Array => "real[]",
            DbType::Float64Array => "double precision[]",
            DbType::NumericArray => "numeric[]",
            DbType::TextArray => "text[]",
            DbType::JsonArray => "jsonb[]",
            DbType::UuidArray => "uuid[]",
            DbType::TimestampTzArray => "timestamptz[]",
            DbType::TimestampArray => "timestamp[]",
            DbType::DateArray => "date[]",
            DbType::TimeArray => "time[]",
            DbType::ByteaArray => "bytea[]",
        }
    }

    /// The element type when `self` is an array type.
    pub fn array_element(self) -> (r: Option<DbType>)
        ensures
            r == element_type(self),
    {
        match self {
            DbType::Int16Array => Some(DbType::Int16),
            DbType::Int32Array => Some(DbType::Int32),
            DbType::Int64Array => Some(DbType::Int64),
            DbType::BoolArray => Some(DbType::Bool),
            DbType::Float32Array => Some(DbType::Float32),
            DbType::Float64Array => Some(DbType::Float64),
            DbType::NumericArray => Some(DbType::Numeric),
            DbType::TextArray => Some(DbType::Text),
            DbType::JsonArray => Some(DbType::Json),
            DbType::UuidArray => Some(DbType::Uuid),
            DbType::TimestampTzArray => Some(DbType::TimestampTz),
            DbType::TimestampArray => Some(DbType::Timestamp),
            DbType::DateArray => Some(DbType::Date),
            DbType::TimeArray => Some(DbType::Time),
            DbType::ByteaArray => Some(DbType::Bytea),
            _ => None,
        }
    }
}

/// A value bound into a query. Floating-point values are carried as their
/// IEEE-754 bit patterns, UUIDs as their 128-bit integer, JSON as its text
/// and the date/time types as their canonical text.
#[derive(Debug, PartialEq)]
pub enum DbValue {
    Null(DbType),
    Int16(i16),
    Int32(i32),
    Int64(i64),
    Bool(bool),
    Float32(u32),
    Float64(u64),
    Numeric(Numeric),
    Text(String),
    Json(String),
    Uuid(u128),
    TimestampTz(String),
    Timestamp(String),
    Date(String),
    Time(String),
    Bytea(Vec<u8>),
    Int16Array(Vec<i16>),
    Int32Array(Vec<i32>),
    Int64Array(Vec<i64>),
    BoolArray(Vec<bool>),
    Float32Array(Vec<u32>),
    Float64Array(Vec<u64>),
    NumericArray(Vec<Numeric>),
    TextArray(Vec<String>),
    JsonArray(Vec<String>),
    UuidArray(Vec<u128>),
    TimestampTzArray(Vec<String>),
    TimestampArray(Vec<String>),
    DateArray(Vec<String>),
    TimeArray(Vec<String>),
    ByteaArray(Vec<Vec<u8>>),
}

/// The mathematical content of a `DbValue`.
pub enum DbValueView {
    Null(DbType),
    Int16(i16),
    Int32(i32),
    Int64(i64),
    Bool(bool),
    Float32(u32),
    Float64(u64),
    Numeric(Seq<char>),
    Text(Seq<char>),
    Json(Seq<char>),
    Uuid(u128),
    TimestampTz(Seq<char>),
    Timestamp(Seq<char>),
    Date(Seq<char>),
    Time(Seq<char>),
    Bytea(Seq<u8>),
    Int16Array(Seq<i16>),
    Int32Array(Seq<i32>),
    Int64Array(Seq<i64>),
    BoolArray(Seq<bool>),
    Float32Array(Seq<u32>),
    Float64Array(Seq<u64>),
    NumericArray(Seq<Seq<char>>),
    TextArray(Seq<Seq<char>>),
    JsonArray(Seq<Seq<char>>),
    UuidArray(Seq<u128>),
    TimestampTzArray(Seq<Seq<char>>),
    TimestampArray(Seq<Seq<char>>),
    DateArray(Seq<Seq<char>>),
    TimeArray(Seq<Seq<char>>),
    ByteaArray(Seq<Seq<u8>>),
}

impl View for DbValue {
    type V = DbValueView;

    open spec fn view(&self) -> DbValueView {
        match self {
            DbValue::Null(x) => DbValueView::Null(*x),
            DbValue::Int16(x) => DbValueView::Int16(*x),
            DbValue::Int32(x) => DbValueView::Int32(*x),
            DbValue::Int64(x) => DbValueView::Int64(*x),
            DbValue::Bool(x) => DbValueView::Bool(*x),
            DbValue::Float32(x) => DbValueView::Float32(*x),
            DbValue::Float64(x) => DbValueView::Float64(*x),
            DbValue::Numeric(x) => DbValueView::Numeric(x@),
            DbValue::Text(x) => DbValueView::Text(x@),
            DbValue::Json(x) => DbValueView::Json(x@),
            DbValue::Uuid(x) => DbValueView::Uuid(*x),
            DbValue::TimestampTz(x) => DbValueView::TimestampTz(x@),
            DbValue::Timestamp(x) => DbValueView::Timestamp(x@),
            DbValue::Date(x) => DbValueView::Date(x@),
            DbValue::Time(x) => DbValueView::Time(x@),
            DbValue::Bytea(x) => DbValueView::Bytea(x@),
            DbValue::Int16Array(x) => DbValueView::Int16Array(x@),
            DbValue::Int32Array(x) => DbValueView::Int32Array(x@),
            DbValue::Int64Array(x) => DbValueView::Int64Array(x@),
            DbValue::BoolArray(x) => DbValueView::BoolArray(x@),
            DbValue::Float32Array(x) => DbValueView::Float32Array(x@),
            DbValue::Float64Array(x) => DbValueView::Float64Array(x@),
            DbValue::NumericArray(x) => DbValueView::NumericArray(x@.map_values(|n: Numeric| n@)),
            DbValue::TextArray(x) => DbValueView::TextArray(x@.map_values(|s: String| s@)),
            DbValue::JsonArray(x) => DbValueView::JsonArray(x@.map_values(|s: String| s@)),
            DbValue::UuidArray(x) => DbValueView::UuidArray(x@),
            DbValue::TimestampTzArray(x) => DbValueView::TimestampTzArray(x@.map_values(|s: String| s@)),
            DbValue::TimestampArray(x) => DbValueView::TimestampArray(x@.map_values(|s: String| s@)),
            DbValue::DateArray(x) => DbValueView::DateArray(x@.map_values(|s: String| s@)),
            DbValue::TimeArray(x) => DbValueView::TimeArray(x@.map_values(|s: String| s@)),
            DbValue::ByteaArray(x) => DbValueView::ByteaArray(x@.map_values(|b: Vec<u8>| b@)),
        }
    }
}

/// The type of a value: its own for typed nulls, else its variant's.
pub open spec fn value_type(v: DbValueView) -> DbType {
    match v {
        DbValueView::Null(t) => t,
        DbValueView::Int16(_) => DbType::Int16,
        DbValueView::Int32(_) => DbType::Int32,
        DbValueView::Int64(_) => DbType::Int64,
        DbValueView::Bool(_) => DbType::Bool,
        DbValueView::Float32(_) => DbType::Float32,
        DbValueView::Float64(_) => DbType::Float64,
        DbValueView::Numeric(_) => DbType::Numeric,
        DbValueView::Text(_) => DbType::Text,
        DbValueView::Json(_) => DbType::Json,
        DbValueView::Uuid(_) => DbType::Uuid,
        DbValueView::TimestampTz(_) => DbType::TimestampTz,
        DbValueView::Timestamp(_) => DbType::Timestamp,
        DbValueView::Date(_) => DbType::Date,
        DbValueView::Time(_) => DbType::Time,
        DbValueView::Bytea(_) => DbType::Bytea,
        DbValueView::Int16Array(_) => DbType::Int16Array,
        DbValueView::Int32Array(_) => DbType::Int32Array,
        DbValueView::Int64Array(_) => DbType::Int64Array,
        DbValueView::BoolArray(_) => DbType::BoolArray,
        DbValueView::Float32Array(_) => DbType::Float32Array,
        DbValueView::Float64Array(_) => DbType::Float64Array,
        DbValueView::NumericArray(_) => DbType::NumericArray,
        DbValueView::TextArray(_) => DbType::TextArray,
        DbValueView::JsonArray(_) => DbType::JsonArray,
        DbValueView::UuidArray(_) => DbType::UuidArray,
        DbValueView::TimestampTzArray(_) => DbType::TimestampTzArray,
        DbValueView::TimestampArray(_) => DbType::TimestampArray,
        DbValueView::DateArray(_) => DbType::DateArray,
        DbValueView::TimeArray(_) => DbType::TimeArray,
        DbValueView::ByteaArray(_) => DbType::ByteaArray,
    }
}

fn clone_copy_vec<T: Copy>(v: &Vec<T>) -> (r: Vec<T>)
    ensures
        r@ == v@,
{
    let mut r: Vec<T> = Vec::new();
    let mut i: usize = 0;
    while i < v.len()
        invariant
            i <= v.len(),
            r@ == v@.subrange(0, i as int),
        decreases v.len() - i,
    {
        r.push(v[i]);
        i = i + 1;
        proof {
            assert(r@ =~= v@.subrange(0, i as int));
        }
    }
    proof {
        assert(v@.subrange(0, v.len() as int) =~= v@);
    }
    r
}

fn clone_string_vec(v: &Vec<String>) -> (r: Vec<String>)
    ensures
        r@.map_values(|s: String| s@) == v@.map_values(|s: String| s@),
{
    let mut r: Vec<String> = Vec::new();
    let mut i: usize = 0;
    while i < v.len()
        invariant
            i <= v.len(),
            r@.len() == i,
            forall|j: int| 0 <= j < i ==> #[trigger] r@[j] == v@[j],
        decreases v.len() - i,
    {
        r.push(v[i].clone());
        i = i + 1;
    }
    proof {
        assert(r@.map_values(|s: String| s@) =~= v@.map_values(|s: String| s@));
    }
    r
}

fn clone_numeric_vec(v: &Vec<Numeric>) -> (r: Vec<Numeric>)
    ensures
        r@.map_values(|n: Numeric| n@) == v@.map_values(|n: Numeric| n@),
{
    let mut r: Vec<Numeric> = Vec::new();
    let mut i: usize = 0;
    while i < v.len()
        invariant
            i <= v.len(),
            r@.len() == i,
            forall|j: int| 0 <= j < i ==> #[trigger] r@[j] == v@[j],
        decreases v.len() - i,
    {
        r.push(v[i].clone());
        i = i + 1;
    }
    proof {
        assert(r@.map_values(|n: Numeric| n@) =~= v@.map_values(|n: Numeric| n@));
    }
    r
}

fn clone_bytes_vec(v: &Vec<Vec<u8>>) -> (r: Vec<Vec<u8>>)
    ensures
        r@.map_values(|b: Vec<u8>| b@) == v@.map_values(|b: Vec<u8>| b@),
{
    let mut r: Vec<Vec<u8>> = Vec::new();
    let mut i: usize = 0;
    while i < v.len()
        invariant
            i <= v.len(),
            r@.len() == i,
            forall|j: int| 0 <= j < i ==> #[trigger] r@[j]@ == v@[j]@,
        decreases v.len() - i,
    {
        r.push(clone_copy_vec(&v[i]));
        i = i + 1;
    }
    proof {
        assert(r@.map_values(|b: Vec<u8>| b@) =~= v@.map_values(|b: Vec<u8>| b@));
    }
    r
}

impl Clone for DbValue {
    fn clone(&self) -> (r: Self)
        ensures
            r@ == self@,
    {
        match self {
            DbValue::Null(x) => DbValue::Null(*x),
            DbValue::Int16(x) => DbValue::Int16(*x),
            DbValue::Int32(x) => DbValue::Int32(*x),
            DbValue::Int64(x) => DbValue::Int64(*x),
            DbValue::Bool(x) => DbValue::Bool(*x),
            DbValue::Float32(x) => DbValue::Float32(*x),
            DbValue::Float64(x) => DbValue::Float64(*x),
            DbValue::Numeric(x) => DbValue::Numeric(x.clone()),
            DbValue::Text(x) => DbValue::Text(x.clone()),
            DbValue::Json(x) => DbValue::Json(x.clone()),
            DbValue::Uuid(x) => DbValue::Uuid(*x),
            DbValue::TimestampTz(x) => DbValue::TimestampTz(x.clone()),
            DbValue::Timestamp(x) => DbValue::Timestamp(x.clone()),
            DbValue::Date(x) => DbValue::Date(x.clone()),
            DbValue::Time(x) => DbValue::Time(x.clone()),
            DbValue::Bytea(x) => DbValue::Bytea(clone_copy_vec(x)),
            DbValue::Int16Array(x) => DbValue::Int16Array(clone_copy_vec(x)),
            DbValue::Int32Array(x) => DbValue::Int32Array(clone_copy_vec(x)),
            DbValue::Int64Array(x) => DbValue::Int64Array(clone_copy_vec(x)),
            DbValue::BoolArray(x) => DbValue::BoolArray(clone_copy_vec(x)),
            DbValue::Float32Array(x) => DbValue::Float32Array(clone_copy_vec(x)),
            DbValue::Float64Array(x) => DbValue::Float64Array(clone_copy_vec(x)),
            DbValue::NumericArray(x) => DbValue::NumericArray(clone_numeric_vec(x)),
            DbValue::TextArray(x) => DbValue::TextArray(clone_string_vec(x)),
            DbValue::JsonArray(x) => DbValue::JsonArray(clone_string_vec(x)),
            DbValue::UuidArray(x) => DbValue::UuidArray(clone_copy_vec(x)),
            DbValue::TimestampTzArray(x) => DbValue::TimestampTzArray(clone_string_vec(x)),
            DbValue::TimestampArray(x) => DbValue::TimestampArray(clone_string_vec(x)),
            DbValue::DateArray(x) => DbValue::DateArray(clone_string_vec(x)),
            DbValue::TimeArray(x) => DbValue::TimeArray(clone_string_vec(x)),
            DbValue::ByteaArray(x) => DbValue::ByteaArray(clone_bytes_vec(x)),
        }
    }
}

impl DbValue {
    /// A typed SQL `NULL`.
    pub fn null(db_type: DbType) -> (v: DbValue)
        ensures
            v@ == DbValueView::Null(db_type),
    {
        DbValue::Null(db_type)
    }

    /// The type of the value.
    pub fn db_type(&self) -> (t: DbType)
        ensures
            t == value_type(self@),
    {
        match self {
            DbValue::Null(x) => *x,
            DbValue::Int16(x) => DbType::Int16,
            DbValue::Int32(x) => DbType::Int32,
            DbValue::Int64(x) => DbType::Int64,
            DbValue::Bool(x) => DbType::Bool,
            DbValue::Float32(x) => DbType::Float32,
            DbValue::Float64(x) => DbType::Float64,
            DbValue::Numeric(x) => DbType::Numeric,
            DbValue::Text(x) => DbType::Text,
            DbValue::Json(x) => DbType::Json,
            DbValue::Uuid(x) => DbType::Uuid,
            DbValue::TimestampTz(x) => DbType::TimestampTz,
            DbValue::Timestamp(x) => DbType::Timestamp,
            DbValue::Date(x) => DbType::Date,
            DbValue::Time(x) => DbType::Time,
            DbValue::Bytea(x) => DbType::Bytea,
            DbValue::Int16Array(x) => DbType::Int16Array,
            DbValue::Int32Array(x) => DbType::Int32Array,
            DbValue::Int64Array(x) => DbType::Int64Array,
            DbValue::BoolArray(x) => DbType::BoolArray,
            DbValue::Float32Array(x) => DbType::Float32Array,
            DbValue::Float64Array(x) => DbType::Float64Array,
            DbValue::NumericArray(x) => DbType::NumericArray,
            DbValue::TextArray(x) => DbType::TextArray,
            DbValue::JsonArray(x) => DbType::JsonArray,
            DbValue::UuidArray(x) => DbType::UuidArray,
            DbValue::TimestampTzArray(x) => DbType::TimestampTzArray,
            DbValue::TimestampArray(x) => DbType::TimestampArray,
            DbValue::DateArray(x) => DbType::DateArray,
            DbValue::TimeArray(x) => DbType::TimeArray,
            DbValue::ByteaArray(x) => DbType::ByteaArray,
        }
    }
}

// ---------------------------------------------------------------------------
// References
// ---------------------------------------------------------------------------

/// A table, optionally aliased.
#[derive(Debug, PartialEq)]
pub struct TableRef {
    pub name: String,
    pub alias: Option<String>,
}

impl Clone for TableRef {
    fn clone(&self) -> (r: Self)
        ensures
            r == *self,
    {
        TableRef { name: self.name.clone(), alias: self.alias.clone() }
    }
}

impl TableRef {
    pub fn new(name: &str) -> (t: TableRef)
        ensures
            t.name@ == name@,
            t.alias is None,
    {
        TableRef { name: owned(name), alias: None }
    }

    pub fn aliased(self, alias: &str) -> (t: TableRef)
        ensures
            t.name == self.name,
            t.alias matches Some(a) && a@ == alias@,
    {
        TableRef { name: self.name, alias: Some(owned(alias)) }
    }
}

/// A source of rows: a table or an aliased subquery.
#[derive(Debug, PartialEq)]
pub enum FromItem {
    Table(TableRef),
    Subquery { query: Box<QueryAst>, alias: String },
}

/// A column, optionally qualified by a table, aliased and typed.
#[derive(Debug, PartialEq)]
pub struct ColumnRef {
    pub table: Option<String>,
    pub name: String,
    pub alias: Option<String>,
    pub db_type: Option<DbType>,
}

impl Clone for ColumnRef {
    fn clone(&self) -> (r: Self)
        ensures
            r == *self,
    {
        ColumnRef {
            table: self.table.clone(),
            name: self.name.clone(),
            alias: self.alias.clone(),
            db_type: self.db_type,
        }
    }
}

impl ColumnRef {
    pub fn new(table: &str, name: &str) -> (c: ColumnRef)
        ensures
            c.table matches Some(t) && t@ == table@,
            c.name@ == name@,
            c.alias is None,
            c.db_type is None,
    {
        ColumnRef { table: Some(owned(table)), name: owned(name), alias: None, db_type: None }
    }

    pub fn bare(name: &str) -> (c: ColumnRef)
        ensures
            c.table is None,
            c.name@ == name@,
            c.alias is None,
            c.db_type is None,
    {
        ColumnRef { table: None, name: owned(name), alias: None, db_type: None }
    }

    pub fn typed(self, db_type: DbType) -> (c: ColumnRef)
        ensures
            c.table == self.table,
            c.name == self.name,
            c.alias == self.alias,
            c.db_type == Some(db_type),
    {
        ColumnRef { table: self.table, name: self.name, alias: self.alias, db_type: Some(db_type) }
    }

    pub fn aliased(self, alias: &str) -> (c: ColumnRef)
        ensures
            c.table == self.table,
            c.name == self.name,
            c.alias matches Some(a) && a@ == alias@,
            c.db_type == self.db_type,
    {
        ColumnRef { table: self.table, name: self.name, alias: Some(owned(alias)), db_type: self.db_type }
    }
}

// ---------------------------------------------------------------------------
// Expressions
// ---------------------------------------------------------------------------

#[derive(Clone, Copy, Debug, PartialEq, Eq, Structural)]
pub enum AggregateFn {
    Count,
    Sum,
    Avg,
    Min,
    Max,
}

#[derive(Debug, PartialEq)]
pub struct AggregateExpr {
    pub function: AggregateFn,
    pub expr: Option<Box<Expr>>,
    pub distinct: bool,
}

#[derive(Debug, PartialEq)]
pub struct AggregateNode {
    pub aggregate: AggregateExpr,
    pub alias: String,
}

#[derive(Debug, PartialEq)]
pub struct CaseWhen {
    pub condition: Condition,
    pub result: Box<Expr>,
}

#[derive(Debug, PartialEq)]
pub struct CaseExpr {
    pub whens: Vec<CaseWhen>,
    pub else_expr: Option<Box<Expr>>,
}

#[derive(Clone, Debug, PartialEq)]
pub enum JsonPathSegment {
    Key(String),
    Index(i64),
}

#[derive(Clone, Copy, Debug, PartialEq, Eq, Structural)]
pub enum JsonPathMode {
    Json,
    Text,
}

#[derive(Debug, PartialEq)]
pub struct JsonPathExpr {
    pub expr: Box<Expr>,
    pub path: Vec<JsonPathSegment>,
    pub mode: JsonPathMode,
}

#[derive(Clone, Copy, Debug, PartialEq, Eq, Structural)]
pub enum JsonPredicateOp {
    Contains,
    ContainedBy,
    HasKey,
    HasAnyKeys,
    HasAllKeys,
}

/// The right-hand side of a JSON predicate; `Json` holds the JSON text.
#[derive(Debug, PartialEq)]
pub enum JsonPredicateValue {
    Json(String),
    Key(String),
    Keys(Vec<String>),
}

#[derive(Debug, PartialEq)]
pub struct FunctionCall {
    pub name: String,
    pub args: Vec<Expr>,
}

#[derive(Clone, Copy, Debug, PartialEq, Eq, Structural)]
pub enum UnaryOperator {
    Not,
    Negate,
}

#[derive(Debug, PartialEq)]
pub struct UnaryExpr {
    pub operator: UnaryOperator,
    pub expr: Box<Expr>,
}

#[derive(Debug, PartialEq)]
pub enum BinaryOperator {
    Add,
    Subtract,
    Multiply,
    Divide,
    Concat,
    Custom(String),
}

#[derive(Debug, PartialEq)]
pub struct BinaryExpr {
    pub left: Box<Expr>,
    pub operator: BinaryOperator,
    pub right: Box<Expr>,
}

#[derive(Clone, Copy, Debug, PartialEq, Eq, Structural)]
pub enum WindowFrameUnits {
    Rows,
    Range,
}

#[derive(Clone, Copy, Debug, PartialEq, Eq, Structural)]
pub enum WindowFrameBound {
    UnboundedPreceding,
    Preceding(u64),
    CurrentRow,
    Following(u64),
    UnboundedFollowing,
}

#[derive(Clone, Copy, Debug, PartialEq, Eq, Structural)]
pub struct WindowFrame {
    pub units: WindowFrameUnits,
    pub start: WindowFrameBound,
    pub end: Option<WindowFrameBound>,
}

#[derive(Debug, PartialEq)]
pub struct WindowSpec {
    pub partition_by: Vec<Expr>,
    pub order_by: Vec<OrderBy>,
    pub frame: Option<WindowFrame>,
}

#[derive(Debug, PartialEq)]
pub struct WindowExpr {
    pub function: Box<Expr>,
    pub window: WindowSpec,
}

#[derive(Debug, PartialEq)]
pub enum Expr {
    Column(ColumnRef),
    Excluded(ColumnRef),
    Value(DbValue),
    Cast { expr: Box<Expr>, db_type: DbType },
    Aggregate(AggregateExpr),
    Function(Box<FunctionCall>),
    Unary(Box<UnaryExpr>),
    Binary(Box<BinaryExpr>),
    Subquery(Box<QueryAst>),
    Window(Box<WindowExpr>),
    Case(Box<CaseExpr>),
    JsonPath(Box<JsonPathExpr>),
    Raw(String),
}

// ---------------------------------------------------------------------------
// Conditions
// ---------------------------------------------------------------------------

#[derive(Clone, Copy, Debug, PartialEq, Eq, Structural)]
pub enum ComparisonOp {
    Eq,
    IEq,
    NotEq,
    Gt,
    Gte,
    Lt,
    Lte,
    Like,
    NotLike,
    ILike,
}

/// The display text of a comparison operator: its SQL spelling, with the
/// case-insensitive equality shown as `IEQ`.
pub open spec fn comparison_text(op: ComparisonOp) -> Seq<char> {
    match op {
        ComparisonOp::Eq => "="@,
        ComparisonOp::IEq => "IEQ"@,
        ComparisonOp::NotEq => "<>"@,
        ComparisonOp::Gt => ">"@,
        ComparisonOp::Gte => ">="@,
        ComparisonOp::Lt => "<"@,
        ComparisonOp::Lte => "<="@,
        ComparisonOp::Like => "LIKE"@,
        ComparisonOp::NotLike => "NOT LIKE"@,
        ComparisonOp::ILike => "ILIKE"@,
    }
}

impl ComparisonOp {
    /// The operator's display text.
    pub fn to_text(&self) -> (s: &'static str)
        ensures
            s@ == comparison_text(*self),
    {
        match self {
            ComparisonOp::Eq => "=",
            ComparisonOp::IEq => "IEQ",
            ComparisonOp::NotEq => "<>",
            ComparisonOp::Gt => ">",
            ComparisonOp::Gte => ">=",
            ComparisonOp::Lt => "<",
            ComparisonOp::Lte => "<=",
            ComparisonOp::Like => "LIKE",
            ComparisonOp::NotLike => "NOT LIKE",
            ComparisonOp::ILike => "ILIKE",
        }
    }
}

#[derive(Debug, PartialEq)]
#[allow(inconsistent_fields)]
pub enum Condition {
    Comparison { left: Expr, op: ComparisonOp, right: Expr },
    InList { expr: Expr, values: Vec<DbValue> },
    JsonPredicate { expr: Expr, op: JsonPredicateOp, value: JsonPredicateValue },
    FullText { columns: Vec<ColumnRef>, query: String },
    And(Vec<Condition>),
    Or(Vec<Condition>),
    Not(Box<Condition>),
    IsNull(Expr),
    IsNotNull(Expr),
    Exists(Box<QueryAst>),
    Raw { sql: String, bindings: Vec<DbValue> },
}

// ---------------------------------------------------------------------------
// Statements
// ---------------------------------------------------------------------------

#[derive(Clone, Copy, Debug, PartialEq, Eq, Structural)]
pub enum OrderDirection {
    Asc,
    Desc,
}

#[derive(Debug, PartialEq)]
pub struct OrderBy {
    pub expr: Expr,
    pub direction: OrderDirection,
}

#[derive(Debug, PartialEq)]
pub struct SelectItem {
    pub expr: Expr,
    pub alias: Option<String>,
}

#[derive(Clone, Copy, Debug, PartialEq, Eq, Structural)]
pub enum JoinKind {
    Inner,
    Left,
    Right,
    Full,
    Cross,
}

#[derive(Debug, PartialEq)]
pub struct JoinNode {
    pub kind: JoinKind,
    pub table: FromItem,
    pub lateral: bool,
    pub on: Option<Condition>,
}

#[derive(Clone, Copy, Debug, PartialEq, Eq, Structural)]
pub enum LockStrength {
    Update,
    NoKeyUpdate,
    Share,
    KeyShare,
}

#[derive(Clone, Copy, Debug, PartialEq, Eq, Structural)]
pub enum LockBehavior {
    Wait,
    NoWait,
    SkipLocked,
}

#[derive(Clone, Debug, PartialEq)]
pub struct LockClause {
    pub strength: LockStrength,
    pub of: Vec<String>,
    pub behavior: LockBehavior,
}

#[derive(Clone, Copy, Debug, PartialEq, Eq, Structural)]
pub enum RelationKind {
    HasMany,
    HasOne,
    BelongsTo,
    ManyToMany,
}

#[derive(Debug, PartialEq)]
pub struct PivotNode {
    pub table: TableRef,
    pub local_key: ColumnRef,
    pub foreign_key: ColumnRef,
}

#[derive(Debug, PartialEq)]
pub struct RelationNode {
    pub name: String,
    pub kind: RelationKind,
    pub target: TableRef,
    pub local_key: ColumnRef,
    pub foreign_key: ColumnRef,
    pub pivot: Option<PivotNode>,
    pub filters: Option<Condition>,
    pub children: Vec<RelationNode>,
    pub aggregates: Vec<AggregateNode>,
}

#[derive(Debug, PartialEq)]
pub struct SelectNode {
    pub from: FromItem,
    pub distinct: bool,
    pub columns: Vec<SelectItem>,
    pub joins: Vec<JoinNode>,
    pub condition: Option<Condition>,
    pub group_by: Vec<Expr>,
    pub having: Option<Condition>,
    pub order_by: Vec<OrderBy>,
    pub limit: Option<u64>,
    pub offset: Option<u64>,
    pub lock: Option<LockClause>,
    pub relations: Vec<RelationNode>,
    pub aggregates: Vec<AggregateNode>,
}

#[derive(Clone, Debug, PartialEq)]
pub enum OnConflictTarget {
    Columns(Vec<ColumnRef>),
    Constraint(String),
}

#[derive(Debug, PartialEq)]
pub struct OnConflictUpdate {
    pub assignments: Vec<(ColumnRef, Expr)>,
    pub condition: Option<Condition>,
}

#[derive(Debug, PartialEq)]
pub enum OnConflictAction {
    DoNothing,
    DoUpdate(Box<OnConflictUpdate>),
}

#[derive(Debug, PartialEq)]
pub struct OnConflictNode {
    pub target: Option<OnConflictTarget>,
    pub action: OnConflictAction,
}

#[derive(Debug, PartialEq)]
pub enum InsertSource {
    Values(Vec<Vec<(ColumnRef, Expr)>>),
    Select(Box<QueryAst>),
}

#[derive(Debug, PartialEq)]
pub struct InsertNode {
    pub into: TableRef,
    pub source: InsertSource,
    pub on_conflict: Option<OnConflictNode>,
    pub returning: Vec<SelectItem>,
}

#[derive(Debug, PartialEq)]
pub struct UpdateNode {
    pub table: TableRef,
    pub values: Vec<(ColumnRef, Expr)>,
    pub from: Vec<FromItem>,
    pub condition: Option<Condition>,
    pub returning: Vec<SelectItem>,
}

#[derive(Debug, PartialEq)]
pub struct DeleteNode {
    pub from: TableRef,
    pub using: Vec<FromItem>,
    pub condition: Option<Condition>,
    pub returning: Vec<SelectItem>,
}

#[derive(Clone, Copy, Debug, PartialEq, Eq, Structural)]
pub enum CteMaterialization {
    Materialized,
    NotMaterialized,
}

#[derive(Debug, PartialEq)]
pub struct CteNode {
    pub name: String,
    pub query: Box<QueryAst>,
    pub recursive: bool,
    pub materialization: Option<CteMaterialization>,
}

#[derive(Clone, Copy, Debug, PartialEq, Eq, Structural)]
pub enum SetOperator {
    Union,
    UnionAll,
}

#[derive(Debug, PartialEq)]
pub struct SetOperationNode {
    pub left: Box<QueryAst>,
    pub operator: SetOperator,
    pub right: Box<QueryAst>,
    pub order_by: Vec<OrderBy>,
    pub limit: Option<u64>,
    pub offset: Option<u64>,
}

#[derive(Debug, PartialEq)]
pub enum QueryBody {
    Select(Box<SelectNode>),
    Insert(Box<InsertNode>),
    Update(Box<UpdateNode>),
    Delete(Box<DeleteNode>),
    SetOperation(Box<SetOperationNode>),
}

#[derive(Debug, PartialEq)]
pub struct QueryAst {
    pub with: Vec<CteNode>,
    pub body: QueryBody,
}

} // verus!
