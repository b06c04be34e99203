//! SQL observability helpers: literal redaction and query fingerprints.
//!
//! Both scan the SQL text once, left to right. The spec functions below
//! describe each scan as a recursion over the index of the next character,
//! with the helpers that find where a literal, a comment or a number ends.
use vstd::prelude::*;

use std::time::Duration;

use crate::ast::{chars_of, trim, trim_bounds, DbType};
use crate::config::{DatabaseConfig, ObservabilityConfig};
use crate::error::Error;
use crate::text::{
    char_is_ascii_alphanumeric, char_is_ascii_digit, char_is_whitespace, is_ascii_alphanumeric,
    is_ascii_digit, is_whitespace, lower_ascii, lower_char, lower_seq, owned, push_char, push_wide_decimal, str_eq, string_of, dec,
};

verus! {

/// ASCII letters, digits and `_`.
pub open spec fn is_ident_char(c: char) -> bool {
    is_ascii_alphanumeric(c) || c == '_'
}

pub open spec fn prev_is_ident(prev: Option<char>) -> bool {
    match prev {
        Some(c) => is_ident_char(c),
        None => false,
    }
}

/// The index just past a single-quoted literal whose body starts at `j`;
/// a doubled quote inside the body is an escaped quote.
pub open spec fn quoted_end(s: Seq<char>, j: int) -> int
    decreases s.len() - j,
{
    if j < 0 || j >= s.len() {
        s.len() as int
    } else if s[j] == '\'' {
        if j + 1 < s.len() && s[j + 1] == '\'' {
            quoted_end(s, j + 2)
        } else {
            j + 1
        }
    } else {
        quoted_end(s, j + 1)
    }
}

/// The first index from `j` on that is not an ASCII digit.
pub open spec fn digits_end(s: Seq<char>, j: int) -> int
    decreases s.len() - j,
{
    if j < 0 || j >= s.len() || !is_ascii_digit(s[j]) {
        if j < 0 { 0 } else { j }
    } else {
        digits_end(s, j + 1)
    }
}

/// The first index from `j` on that is neither an ASCII digit nor `.`.
pub open spec fn number_end(s: Seq<char>, j: int) -> int
    decreases s.len() - j,
{
    if j < 0 || j >= s.len() || !(is_ascii_digit(s[j]) || s[j] == '.') {
        if j < 0 { 0 } else { j }
    } else {
        number_end(s, j + 1)
    }
}

/// The index of the first newline from `j` on, or the length.
pub open spec fn line_end(s: Seq<char>, j: int) -> int
    decreases s.len() - j,
{
    if j < 0 || j >= s.len() {
        s.len() as int
    } else if s[j] == '\n' {
        j
    } else {
        line_end(s, j + 1)
    }
}

/// The index of the `/` that closes a block comment whose body starts at
/// `j`, where `saw_star` tells whether the character before `j` in the
/// body is `*`; the length when the comment is not closed.
pub open spec fn block_close(s: Seq<char>, j: int, saw_star: bool) -> int
    decreases s.len() - j,
{
    if j < 0 || j >= s.len() {
        s.len() as int
    } else if saw_star && s[j] == '/' {
        j
    } else {
        block_close(s, j + 1, s[j] == '*')
    }
}

/// The index of the `$` that ends a dollar-quote tag whose name starts at
/// `j`, when the name is made of identifier characters only.
pub open spec fn dollar_close(s: Seq<char>, j: int) -> Option<int>
    decreases s.len() - j,
{
    if j < 0 || j >= s.len() {
        None
    } else if s[j] == '$' {
        Some(j)
    } else if is_ident_char(s[j]) {
        dollar_close(s, j + 1)
    } else {
        None
    }
}

/// The index just past the first occurrence of `d` at or after `m`, or the
/// length when `d` does not occur again.
pub open spec fn delimiter_end(s: Seq<char>, d: Seq<char>, m: int) -> int
    decreases s.len() - m,
{
    if m < 0 || m + d.len() > s.len() {
        s.len() as int
    } else if d.len() == 0 || s.subrange(m, m + d.len()) == d {
        m + d.len()
    } else {
        delimiter_end(s, d, m + 1)
    }
}

/// Whether a single-quoted literal starts at `c`: a quote, or an `E`/`N`
/// prefix (any case) directly before a quote that does not end an identifier.
pub open spec fn starts_quoted(c: char, next: Option<char>, prev: Option<char>) -> bool {
    c == '\'' || ((c == 'e' || c == 'E' || c == 'n' || c == 'N') && next == Some('\'')
        && !prev_is_ident(prev))
}

pub proof fn lemma_quoted_end(s: Seq<char>, j: int)
    requires
        0 <= j <= s.len(),
    ensures
        j <= quoted_end(s, j) <= s.len(),
    decreases s.len() - j,
{
    if j < s.len() {
        if s[j] == '\'' {
            if j + 1 < s.len() && s[j + 1] == '\'' {
                lemma_quoted_end(s, j + 2);
            }
        } else {
            lemma_quoted_end(s, j + 1);
        }
    }
}

pub proof fn lemma_digits_end(s: Seq<char>, j: int)
    requires
        0 <= j <= s.len(),
    ensures
        j <= digits_end(s, j) <= s.len(),
    decreases s.len() - j,
{
    if j < s.len() && is_ascii_digit(s[j]) {
        lemma_digits_end(s, j + 1);
    }
}

pub proof fn lemma_number_end(s: Seq<char>, j: int)
    requires
        0 <= j <= s.len(),
    ensures
        j <= number_end(s, j) <= s.len(),
    decreases s.len() - j,
{
    if j < s.len() && (is_ascii_digit(s[j]) || s[j] == '.') {
        lemma_number_end(s, j + 1);
    }
}

pub proof fn lemma_line_end(s: Seq<char>, j: int)
    requires
        0 <= j <= s.len(),
    ensures
        j <= line_end(s, j) <= s.len(),
        line_end(s, j) < s.len() ==> s[line_end(s, j)] == '\n',
    decreases s.len() - j,
{
    if j < s.len() && s[j] != '\n' {
        lemma_line_end(s, j + 1);
    }
}

pub proof fn lemma_block_close(s: Seq<char>, j: int, saw_star: bool)
    requires
        0 <= j <= s.len(),
    ensures
        j <= block_close(s, j, saw_star) <= s.len(),
    decreases s.len() - j,
{
    if j < s.len() && !(saw_star && s[j] == '/') {
        lemma_block_close(s, j + 1, s[j] == '*');
    }
}

pub proof fn lemma_dollar_close(s: Seq<char>, j: int)
    requires
        0 <= j,
    ensures
        dollar_close(s, j) matches Some(k) ==> j <= k < s.len() && s[k] == '$',
    decreases s.len() - j,
{
    if j < s.len() && s[j] != '$' && is_ident_char(s[j]) {
        lemma_dollar_close(s, j + 1);
    }
}

pub proof fn lemma_delimiter_end(s: Seq<char>, d: Seq<char>, m: int)
    requires
        0 <= m,
    ensures
        delimiter_end(s, d, m) <= s.len(),
        m + d.len() <= delimiter_end(s, d, m) || delimiter_end(s, d, m) == s.len(),
    decreases s.len() - m,
{
    if m + d.len() <= s.len() && d.len() != 0 && s.subrange(m, m + d.len()) != d {
        lemma_delimiter_end(s, d, m + 1);
    }
}

/// The redacted text of `s` from index `i` on, where `prev` is the last
/// character written before `i`: comments become `-- redacted` and
/// `/* redacted */`, string literals, dollar-quoted bodies and numbers that
/// do not end an identifier become `?`, and everything else is kept.
pub open spec fn redact_from(s: Seq<char>, i: int, prev: Option<char>) -> Seq<char>
    decreases s.len() - i,
{
    if i < 0 || i >= s.len() {
        Seq::empty()
    } else {
        let c = s[i];
        let next = if i + 1 < s.len() { Some(s[i + 1]) } else { None };
        if c == '-' && next == Some('-') {
            let k = line_end(s, i + 2);
            proof {
                lemma_line_end(s, i + 2);
            }
            if k < s.len() {
                "-- redacted\n"@ + redact_from(s, k + 1, Some('\n'))
            } else {
                "-- redacted"@
            }
        } else if c == '/' && next == Some('*') {
            let k = block_close(s, i + 2, false);
            proof {
                lemma_block_close(s, i + 2, false);
            }
            if k < s.len() {
                "/* redacted */"@ + redact_from(s, k + 1, Some('/'))
            } else {
                "/* redacted */"@
            }
        } else if c == '$' && !prev_is_ident(prev) && dollar_close(s, i + 1) is Some {
            let close = dollar_close(s, i + 1)->0;
            proof {
                lemma_dollar_close(s, i + 1);
            }
            let d = s.subrange(i, close + 1);
            let e = delimiter_end(s, d, close + 1);
            proof {
                lemma_delimiter_end(s, d, close + 1);
            }
            "?"@ + redact_from(s, e, Some('?'))
        } else if starts_quoted(c, next, prev) {
            let e = if c == '\'' { quoted_end(s, i + 1) } else { quoted_end(s, i + 2) };
            proof {
                if c == '\'' {
                    lemma_quoted_end(s, i + 1);
                } else {
                    lemma_quoted_end(s, i + 2);
                }
            }
            "?"@ + redact_from(s, e, Some('?'))
        } else if is_ascii_digit(c) && !prev_is_ident(prev) {
            let e = number_end(s, i + 1);
            proof {
                lemma_number_end(s, i + 1);
            }
            "?"@ + redact_from(s, e, Some('?'))
        } else {
            seq![c] + redact_from(s, i + 1, Some(c))
        }
    }
}

/// SQL with its literals and comments redacted.
pub open spec fn redacted(s: Seq<char>) -> Seq<char> {
    redact_from(s, 0, None)
}


/// Appends `c` to a normalized text, after one space when whitespace was
/// skipped since the last character written.
pub open spec fn push_norm(out: Seq<char>, pending: bool, c: char) -> Seq<char> {
    (if pending && out.len() > 0 { out.push(' ') } else { out }).push(c)
}

pub open spec fn ends_ident(out: Seq<char>) -> bool {
    out.len() > 0 && is_ident_char(out.last())
}

/// The fingerprint scan from index `i`, with the normalized text `out`
/// written so far and `pending` telling whether whitespace was skipped:
/// runs of whitespace become one space, literals, `$n` and `?` bindings
/// and numbers that do not end an identifier become `?`, and the rest is
/// lowercased.
pub open spec fn fingerprint_from(s: Seq<char>, i: int, out: Seq<char>, pending: bool) -> Seq<char>
    decreases s.len() - i,
{
    if i < 0 || i >= s.len() {
        out
    } else {
        let c = s[i];
        if is_whitespace(c) {
            fingerprint_from(s, i + 1, out, true)
        } else if c == '\'' {
            let e = quoted_end(s, i + 1);
            proof {
                lemma_quoted_end(s, i + 1);
            }
            fingerprint_from(s, e, push_norm(out, pending, '?'), false)
        } else if c == '$' && i + 1 < s.len() && is_ascii_digit(s[i + 1]) {
            let e = digits_end(s, i + 1);
            proof {
                lemma_digits_end(s, i + 1);
            }
            fingerprint_from(s, e, push_norm(out, pending, '?'), false)
        } else if c == '?' {
            fingerprint_from(s, i + 1, push_norm(out, pending, '?'), false)
        } else if is_ascii_digit(c) && !(!pending && ends_ident(out)) {
            let e = number_end(s, i + 1);
            proof {
                lemma_number_end(s, i + 1);
            }
            fingerprint_from(s, e, push_norm(out, pending, '?'), false)
        } else {
            fingerprint_from(s, i + 1, push_norm(out, pending, lower_char(c)), false)
        }
    }
}

/// The fingerprint of a SQL text: its normalized form, trimmed.
pub open spec fn fingerprint(s: Seq<char>) -> Seq<char> {
    trim(fingerprint_from(s, 0, Seq::empty(), false))
}

/// Neither end of the text is whitespace.
pub open spec fn clean_ends(out: Seq<char>) -> bool {
    out.len() == 0 || (!is_whitespace(out[0]) && !is_whitespace(out.last()))
}

proof fn lemma_push_norm_clean(out: Seq<char>, pending: bool, c: char)
    requires
        clean_ends(out),
        !is_whitespace(c),
    ensures
        clean_ends(push_norm(out, pending, c)),
        push_norm(out, pending, c).last() == c,
{
    let t = if pending && out.len() > 0 { out.push(' ') } else { out };
    assert(t.len() == 0 || t[0] == out[0]);
}

proof fn lemma_lower_not_whitespace(c: char)
    requires
        !is_whitespace(c),
    ensures
        !is_whitespace(lower_char(c)),
{
}

proof fn lemma_trim_clean(out: Seq<char>)
    requires
        clean_ends(out),
    ensures
        trim(out) == out,
{
}

/// Whitespace occurs only as single spaces, each between two characters
/// that are not whitespace.
pub open spec fn single_spaced(out: Seq<char>) -> bool {
    forall|i: int|
        0 <= i < out.len() && is_whitespace(#[trigger] out[i]) ==> out[i] == ' ' && 0 < i && i + 1
            < out.len() && !is_whitespace(out[i - 1]) && !is_whitespace(out[i + 1])
}

proof fn lemma_push_norm_single_spaced(out: Seq<char>, pending: bool, c: char)
    requires
        single_spaced(out),
        !is_whitespace(c),
    ensures
        single_spaced(push_norm(out, pending, c)),
{
    let t = if pending && out.len() > 0 { out.push(' ') } else { out };
    let u = t.push(c);
    if out.len() > 0 {
        assert(!is_whitespace(out[out.len() - 1]));
    }
    assert forall|i: int| 0 <= i < u.len() && is_whitespace(#[trigger] u[i]) implies u[i] == ' ' && 0
        < i && i + 1 < u.len() && !is_whitespace(u[i - 1]) && !is_whitespace(u[i + 1]) by {
        if i < out.len() {
            assert(u[i] == out[i]);
            assert(u[i - 1] == out[i - 1]);
            assert(u[i + 1] == out[i + 1]);
        }
    }
}

proof fn lemma_fingerprint_from_single_spaced(s: Seq<char>, i: int, out: Seq<char>, pending: bool)
    requires
        single_spaced(out),
    ensures
        single_spaced(fingerprint_from(s, i, out, pending)),
    decreases s.len() - i,
{
    if i < 0 || i >= s.len() {
    } else {
        let c = s[i];
        if is_whitespace(c) {
            lemma_fingerprint_from_single_spaced(s, i + 1, out, true);
        } else if c == '\'' {
            lemma_quoted_end(s, i + 1);
            lemma_push_norm_single_spaced(out, pending, '?');
            lemma_fingerprint_from_single_spaced(s, quoted_end(s, i + 1), push_norm(out, pending, '?'), false);
        } else if c == '$' && i + 1 < s.len() && is_ascii_digit(s[i + 1]) {
            lemma_digits_end(s, i + 1);
            lemma_push_norm_single_spaced(out, pending, '?');
            lemma_fingerprint_from_single_spaced(s, digits_end(s, i + 1), push_norm(out, pending, '?'), false);
        } else if c == '?' {
            lemma_push_norm_single_spaced(out, pending, '?');
            lemma_fingerprint_from_single_spaced(s, i + 1, push_norm(out, pending, '?'), false);
        } else if is_ascii_digit(c) && !(!pending && ends_ident(out)) {
            lemma_number_end(s, i + 1);
            lemma_push_norm_single_spaced(out, pending, '?');
            lemma_fingerprint_from_single_spaced(s, number_end(s, i + 1), push_norm(out, pending, '?'), false);
        } else {
            lemma_lower_not_whitespace(c);
            lemma_push_norm_single_spaced(out, pending, lower_char(c));
            lemma_fingerprint_from_single_spaced(s, i + 1, push_norm(out, pending, lower_char(c)), false);
        }
    }
}

/// A fingerprint holds whitespace only as single spaces between two other
/// characters: each run of whitespace outside a literal became one space,
/// and none is left at either end.
pub proof fn law_fingerprint_single_spaced(sql: Seq<char>)
    ensures
        single_spaced(fingerprint(sql)),
{
    let raw = fingerprint_from(sql, 0, Seq::empty(), false);
    lemma_fingerprint_from_single_spaced(sql, 0, Seq::empty(), false);
    if raw.len() > 0 {
        assert(!is_whitespace(raw[0]));
        assert(!is_whitespace(raw[raw.len() - 1]));
    }
    lemma_trim_clean(raw);
}

proof fn lemma_quoted_end_shift(x: Seq<char>, t: Seq<char>, j: int)
    requires
        0 <= j,
    ensures
        quoted_end(x + t, x.len() + j) == x.len() + quoted_end(t, j),
    decreases t.len() - j,
{
    let s = x + t;
    if j < t.len() {
        assert(s[x.len() + j] == t[j]);
        if t[j] == '\'' {
            if j + 1 < t.len() {
                assert(s[x.len() + j + 1] == t[j + 1]);
            }
            if j + 1 < t.len() && t[j + 1] == '\'' {
                lemma_quoted_end_shift(x, t, j + 2);
            }
        } else {
            lemma_quoted_end_shift(x, t, j + 1);
        }
    }
}

proof fn lemma_digits_end_shift(x: Seq<char>, t: Seq<char>, j: int)
    requires
        0 <= j,
    ensures
        digits_end(x + t, x.len() + j) == x.len() + digits_end(t, j),
    decreases t.len() - j,
{
    if j < t.len() {
        assert((x + t)[x.len() + j] == t[j]);
        if is_ascii_digit(t[j]) {
            lemma_digits_end_shift(x, t, j + 1);
        }
    }
}

proof fn lemma_number_end_shift(x: Seq<char>, t: Seq<char>, j: int)
    requires
        0 <= j,
    ensures
        number_end(x + t, x.len() + j) == x.len() + number_end(t, j),
    decreases t.len() - j,
{
    if j < t.len() {
        assert((x + t)[x.len() + j] == t[j]);
        if is_ascii_digit(t[j]) || t[j] == '.' {
            lemma_number_end_shift(x, t, j + 1);
        }
    }
}

/// The fingerprint scan of a text reads only what follows the scan's
/// position: a text in front of it changes nothing.
proof fn lemma_fingerprint_from_shift(x: Seq<char>, t: Seq<char>, i: int, out: Seq<char>, pending: bool)
    requires
        0 <= i,
    ensures
        fingerprint_from(x + t, x.len() + i, out, pending) == fingerprint_from(t, i, out, pending),
    decreases t.len() - i,
{
    let s = x + t;
    let k = x.len() + i;
    if i < t.len() {
        let c = t[i];
        assert(s[k] == c);
        if i + 1 < t.len() {
            assert(s[k + 1] == t[i + 1]);
        }
        if is_whitespace(c) {
            lemma_fingerprint_from_shift(x, t, i + 1, out, true);
        } else if c == '\'' {
            lemma_quoted_end_shift(x, t, i + 1);
            lemma_quoted_end(t, i + 1);
            lemma_fingerprint_from_shift(x, t, quoted_end(t, i + 1), push_norm(out, pending, '?'), false);
        } else if c == '$' && i + 1 < t.len() && is_ascii_digit(t[i + 1]) {
            lemma_digits_end_shift(x, t, i + 1);
            lemma_digits_end(t, i + 1);
            lemma_fingerprint_from_shift(x, t, digits_end(t, i + 1), push_norm(out, pending, '?'), false);
        } else if c == '?' {
            lemma_fingerprint_from_shift(x, t, i + 1, push_norm(out, pending, '?'), false);
        } else if is_ascii_digit(c) && !(!pending && ends_ident(out)) {
            lemma_number_end_shift(x, t, i + 1);
            lemma_number_end(t, i + 1);
            lemma_fingerprint_from_shift(x, t, number_end(t, i + 1), push_norm(out, pending, '?'), false);
        } else {
            lemma_fingerprint_from_shift(x, t, i + 1, push_norm(out, pending, lower_char(c)), false);
        }
    }
}

proof fn lemma_dec_digits(n: nat)
    ensures
        dec(n).len() > 0,
        forall|k: int| 0 <= k < dec(n).len() ==> is_ascii_digit(#[trigger] dec(n)[k]),
    decreases n,
{
    if n >= 10 {
        lemma_dec_digits(n / 10);
        assert forall|k: int| 0 <= k < dec(n).len() implies is_ascii_digit(#[trigger] dec(n)[k]) by {
            if k < dec(n / 10).len() {
                assert(dec(n)[k] == dec(n / 10)[k]);
            }
        }
    }
}

/// `digits_end` stops right after a run of digits.
proof fn lemma_digits_end_run(s: Seq<char>, j: int, k: int)
    requires
        0 <= j <= k <= s.len(),
        forall|m: int| j <= m < k ==> is_ascii_digit(#[trigger] s[m]),
        k == s.len() || !is_ascii_digit(s[k]),
    ensures
        digits_end(s, j) == k,
    decreases k - j,
{
    if j < k {
        lemma_digits_end_run(s, j + 1, k);
    }
}

/// A numbered binding `$n`, whatever the number of its digits, becomes one
/// `?` in the fingerprint, and the scan goes on right after its digits, as
/// long as no digit follows them.
pub proof fn law_fingerprint_numbered_binding(n: nat, rest: Seq<char>, out: Seq<char>, pending: bool)
    requires
        rest.len() == 0 || !is_ascii_digit(rest[0]),
    ensures
        fingerprint_from(seq!['$'] + dec(n) + rest, 0, out, pending)
            == fingerprint_from(rest, 0, push_norm(out, pending, '?'), false),
        fingerprint_from(seq!['$'] + dec(n) + rest, 0, out, pending)
            == fingerprint_from(seq!['$', '1'] + rest, 0, out, pending),
        fingerprint(seq!['$'] + dec(n) + rest) == fingerprint(seq!['$', '1'] + rest),
        fingerprint(seq!['$'] + dec(n) + rest) == trim(fingerprint_from(rest, 0, seq!['?'], false)),
{
    lemma_dec_digits(n);
    lemma_binding_skipped(dec(n), rest, out, pending);
    lemma_binding_skipped(dec(n), rest, Seq::empty(), false);
    lemma_binding_skipped(seq!['1'], rest, out, pending);
    lemma_binding_skipped(seq!['1'], rest, Seq::empty(), false);
    assert(push_norm(Seq::<char>::empty(), false, '?') =~= seq!['?']);
    assert(seq!['$'] + seq!['1'] + rest =~= seq!['$', '1'] + rest);
}

proof fn lemma_binding_skipped(d: Seq<char>, rest: Seq<char>, out: Seq<char>, pending: bool)
    requires
        d.len() > 0,
        forall|k: int| 0 <= k < d.len() ==> is_ascii_digit(#[trigger] d[k]),
        rest.len() == 0 || !is_ascii_digit(rest[0]),
    ensures
        fingerprint_from(seq!['$'] + d + rest, 0, out, pending)
            == fingerprint_from(rest, 0, push_norm(out, pending, '?'), false),
{
    let x = seq!['$'] + d;
    let s = x + rest;
    assert(s[0] == '$');
    assert(s[1] == d[0]);
    assert forall|m: int| 1 <= m < x.len() implies is_ascii_digit(#[trigger] s[m]) by {
        assert(s[m] == d[m - 1]);
    }
    if rest.len() > 0 {
        assert(s[x.len() as int] == rest[0]);
    }
    lemma_digits_end_run(s, 1, x.len() as int);
    lemma_fingerprint_from_shift(x, rest, 0, push_norm(out, pending, '?'), false);
    assert(x.len() + 0 == x.len());
}

/// `quoted_end` stops right after the closing quote of a body without quotes.
proof fn lemma_quoted_end_run(s: Seq<char>, j: int, k: int)
    requires
        0 <= j <= k < s.len(),
        forall|m: int| j <= m < k ==> #[trigger] s[m] != '\'',
        s[k] == '\'',
        k + 1 == s.len() || s[k + 1] != '\'',
    ensures
        quoted_end(s, j) == k + 1,
    decreases k - j,
{
    if j < k {
        lemma_quoted_end_run(s, j + 1, k);
    }
}

/// A quoted literal without quotes inside becomes one `?` in the
/// fingerprint, and the scan goes on right after its closing quote, as long
/// as no quote follows it.
pub proof fn law_fingerprint_quoted_literal(body: Seq<char>, rest: Seq<char>, out: Seq<char>, pending: bool)
    requires
        forall|m: int| 0 <= m < body.len() ==> #[trigger] body[m] != '\'',
        rest.len() == 0 || rest[0] != '\'',
    ensures
        fingerprint_from(seq!['\''] + body + seq!['\''] + rest, 0, out, pending)
            == fingerprint_from(rest, 0, push_norm(out, pending, '?'), false),
{
    let x = seq!['\''] + body + seq!['\''];
    let s = x + rest;
    assert(s[0] == '\'');
    assert forall|m: int| 1 <= m < x.len() - 1 implies #[trigger] s[m] != '\'' by {
        assert(s[m] == body[m - 1]);
    }
    assert(s[x.len() - 1] == '\'');
    if rest.len() > 0 {
        assert(s[x.len() as int] == rest[0]);
    }
    lemma_quoted_end_run(s, 1, x.len() - 1);
    lemma_fingerprint_from_shift(x, rest, 0, push_norm(out, pending, '?'), false);
    assert(x.len() + 0 == x.len());
}

fn is_ident(c: char) -> (b: bool)
    ensures
        b == is_ident_char(c),
{
    char_is_ascii_alphanumeric(c) || c == '_'
}

fn prev_ident(prev: Option<char>) -> (b: bool)
    ensures
        b == prev_is_ident(prev),
{
    match prev {
        Some(c) => is_ident(c),
        None => false,
    }
}

fn quoted_end_at(v: &Vec<char>, j: usize) -> (k: usize)
    requires
        j <= v.len(),
    ensures
        k == quoted_end(v@, j as int),
{
    let mut k = j;
    while k < v.len()
        invariant
            j <= k <= v.len(),
            quoted_end(v@, k as int) == quoted_end(v@, j as int),
        decreases v.len() - k,
    {
        if v[k] == '\'' {
            if k + 1 < v.len() && v[k + 1] == '\'' {
                k = k + 2;
            } else {
                return k + 1;
            }
        } else {
            k = k + 1;
        }
    }
    k
}

fn digits_end_at(v: &Vec<char>, j: usize) -> (k: usize)
    requires
        j <= v.len(),
    ensures
        k == digits_end(v@, j as int),
{
    let mut k = j;
    while k < v.len() && char_is_ascii_digit(v[k])
        invariant
            j <= k <= v.len(),
            digits_end(v@, k as int) == digits_end(v@, j as int),
        decreases v.len() - k,
    {
        k = k + 1;
    }
    k
}

fn number_end_at(v: &Vec<char>, j: usize) -> (k: usize)
    requires
        j <= v.len(),
    ensures
        k == number_end(v@, j as int),
{
    let mut k = j;
    while k < v.len() && (char_is_ascii_digit(v[k]) || v[k] == '.')
        invariant
            j <= k <= v.len(),
            number_end(v@, k as int) == number_end(v@, j as int),
        decreases v.len() - k,
    {
        k = k + 1;
    }
    k
}

fn line_end_at(v: &Vec<char>, j: usize) -> (k: usize)
    requires
        j <= v.len(),
    ensures
        k == line_end(v@, j as int),
{
    let mut k = j;
    while k < v.len() && v[k] != '\n'
        invariant
            j <= k <= v.len(),
            line_end(v@, k as int) == line_end(v@, j as int),
        decreases v.len() - k,
    {
        k = k + 1;
    }
    k
}

fn block_close_at(v: &Vec<char>, j: usize) -> (k: usize)
    requires
        j <= v.len(),
    ensures
        k == block_close(v@, j as int, false),
{
    let mut k = j;
    let mut saw_star = false;
    while k < v.len() && !(saw_star && v[k] == '/')
        invariant
            j <= k <= v.len(),
            block_close(v@, k as int, saw_star) == block_close(v@, j as int, false),
        decreases v.len() - k,
    {
        saw_star = v[k] == '*';
        k = k + 1;
    }
    k
}

fn dollar_close_at(v: &Vec<char>, j: usize) -> (r: Option<usize>)
    requires
        j <= v.len(),
    ensures
        match dollar_close(v@, j as int) {
            Some(k) => r == Some(k as usize),
            None => r is None,
        },
{
    let mut k = j;
    while k < v.len()
        invariant
            j <= k <= v.len(),
            dollar_close(v@, k as int) == dollar_close(v@, j as int),
        decreases v.len() - k,
    {
        if v[k] == '$' {
            return Some(k);
        }
        if !is_ident(v[k]) {
            return None;
        }
        k = k + 1;
    }
    None
}

/// Whether `v[m..m + len]` equals `v[start..start + len]`.
fn same_run(v: &Vec<char>, m: usize, start: usize, len: usize) -> (b: bool)
    requires
        m + len <= v.len(),
        start + len <= v.len(),
    ensures
        b == (v@.subrange(m as int, m + len) == v@.subrange(start as int, start + len)),
{
    let ghost a = v@.subrange(m as int, m + len);
    let ghost z = v@.subrange(start as int, start + len);
    let mut t: usize = 0;
    while t < len
        invariant
            t <= len,
            m + len <= v.len(),
            start + len <= v.len(),
            a == v@.subrange(m as int, m + len),
            z == v@.subrange(start as int, start + len),
            forall|q: int| 0 <= q < t ==> #[trigger] a[q] == z[q],
        decreases len - t,
    {
        if v[m + t] != v[start + t] {
            proof {
                assert(a[t as int] != z[t as int]);
            }
            return false;
        }
        proof {
            assert(a[t as int] == z[t as int]);
        }
        t = t + 1;
    }
    proof {
        assert(a =~= z);
    }
    true
}

/// The index just past the next occurrence of `v[start..=close]` at or
/// after `m`, or the length.
fn delimiter_end_at(v: &Vec<char>, start: usize, close: usize, m: usize) -> (k: usize)
    requires
        start <= close < v.len(),
        m <= v.len(),
    ensures
        k == delimiter_end(v@, v@.subrange(start as int, close + 1), m as int),
{
    let ghost d = v@.subrange(start as int, close + 1);
    let len = close + 1 - start;
    let mut p = m;
    while len <= v.len() - p
        invariant
            start <= close < v.len(),
            len == close + 1 - start,
            len == d.len(),
            d == v@.subrange(start as int, close + 1),
            p <= v.len(),
            delimiter_end(v@, d, p as int) == delimiter_end(v@, d, m as int),
        decreases v.len() - p,
    {
        if same_run(v, p, start, len) {
            return p + len;
        }
        p = p + 1;
    }
    v.len()
}

/// SQL text with comments, string literals, dollar-quoted bodies and
/// numbers that do not end an identifier replaced.
pub fn redact_sql_literals(sql: &str) -> (r: String)
    ensures
        r@ == redacted(sql@),
{
    let v = chars_of(sql);
    let ghost s = v@;
    let mut out = String::new();
    let mut i: usize = 0;
    let mut prev: Option<char> = None;
    proof {
        assert(out@ + redact_from(s, 0, None) =~= redacted(s));
    }
    while i < v.len()
        invariant
            s == v@,
            i <= v.len(),
            out@ + redact_from(s, i as int, prev) == redacted(s),
        decreases v.len() - i,
    {
        let ghost o0 = out@;
        let c = v[i];
        let next: Option<char> = if i + 1 < v.len() { Some(v[i + 1]) } else { None };
        if c == '-' && next == Some('-') {
            let k = line_end_at(&v, i + 2);
            proof {
                lemma_line_end(s, i + 2);
            }
            if k < v.len() {
                out.append("-- redacted\n");
                proof {
                    assert(out@ + redact_from(s, k + 1, Some('\n')) =~= o0 + redact_from(s, i as int, prev));
                }
                i = k + 1;
                prev = Some('\n');
            } else {
                out.append("-- redacted");
                proof {
                    assert(out@ + redact_from(s, v.len() as int, prev) =~= o0 + redact_from(s, i as int, prev));
                }
                i = v.len();
            }
        } else if c == '/' && next == Some('*') {
            let k = block_close_at(&v, i + 2);
            proof {
                lemma_block_close(s, i + 2, false);
            }
            out.append("/* redacted */");
            if k < v.len() {
                proof {
                    assert(out@ + redact_from(s, k + 1, Some('/')) =~= o0 + redact_from(s, i as int, prev));
                }
                i = k + 1;
                prev = Some('/');
            } else {
                proof {
                    assert(out@ + redact_from(s, v.len() as int, prev) =~= o0 + redact_from(s, i as int, prev));
                }
                i = v.len();
            }
        } else {
            let tag: Option<usize> = if c == '$' && !prev_ident(prev) {
                dollar_close_at(&v, i + 1)
            } else {
                None
            };
            match tag {
                Some(close) => {
                    proof {
                        lemma_dollar_close(s, i + 1);
                    }
                    let e = delimiter_end_at(&v, i, close, close + 1);
                    proof {
                        lemma_delimiter_end(s, s.subrange(i as int, close + 1), close + 1);
                    }
                    out.append("?");
                    proof {
                        assert(out@ + redact_from(s, e as int, Some('?')) =~= o0 + redact_from(s, i as int, prev));
                    }
                    i = e;
                    prev = Some('?');
                },
                None => {
                    let quoted = c == '\'' || ((c == 'e' || c == 'E' || c == 'n' || c == 'N')
                        && next == Some('\'') && !prev_ident(prev));
                    if quoted {
                        let e = if c == '\'' {
                            quoted_end_at(&v, i + 1)
                        } else {
                            quoted_end_at(&v, i + 2)
                        };
                        proof {
                            if c == '\'' {
                                lemma_quoted_end(s, i + 1);
                            } else {
                                lemma_quoted_end(s, i + 2);
                            }
                        }
                        out.append("?");
                        proof {
                            assert(out@ + redact_from(s, e as int, Some('?')) =~= o0 + redact_from(s, i as int, prev));
                        }
                        i = e;
                        prev = Some('?');
                    } else if char_is_ascii_digit(c) && !prev_ident(prev) {
                        let e = number_end_at(&v, i + 1);
                        proof {
                            lemma_number_end(s, i + 1);
                        }
                        out.append("?");
                        proof {
                            assert(out@ + redact_from(s, e as int, Some('?')) =~= o0 + redact_from(s, i as int, prev));
                        }
                        i = e;
                        prev = Some('?');
                    } else {
                        push_char(&mut out, c);
                        proof {
                            assert(out@ + redact_from(s, i + 1, Some(c)) =~= o0 + redact_from(s, i as int, prev));
                        }
                        i = i + 1;
                        prev = Some(c);
                    }
                },
            }
        }
    }
    proof {
        assert(out@ =~= redacted(s));
    }
    out
}


/// Appends `c` after one space when whitespace was skipped since the last
/// character written (and something was written).
fn push_normalized(out: &mut String, pending: bool, c: char)
    ensures
        final(out)@ == push_norm(old(out)@, pending, c),
{
    if pending && out.unicode_len() > 0 {
        push_char(out, ' ');
    }
    push_char(out, c);
}

/// The fingerprint of a SQL text: whitespace runs collapsed to one space,
/// bindings, literals and numbers replaced by `?`, the rest lowercased.
pub fn sql_fingerprint(sql: &str) -> (r: String)
    ensures
        r@ == fingerprint(sql@),
{
    let v = chars_of(sql);
    let ghost s = v@;
    let mut out = String::new();
    let mut pending = false;
    let mut last_ident = false;
    let mut i: usize = 0;
    while i < v.len()
        invariant
            s == v@,
            i <= v.len(),
            fingerprint_from(s, i as int, out@, pending) == fingerprint_from(s, 0, Seq::empty(), false),
            last_ident == ends_ident(out@),
            clean_ends(out@),
        decreases v.len() - i,
    {
        let c = v[i];
        let ghost o0 = out@;
        if char_is_whitespace(c) {
            pending = true;
            i = i + 1;
        } else if c == '\'' {
            let e = quoted_end_at(&v, i + 1);
            proof {
                lemma_quoted_end(s, i + 1);
                lemma_push_norm_clean(o0, pending, '?');
            }
            push_normalized(&mut out, pending, '?');
            pending = false;
            last_ident = false;
            i = e;
        } else if c == '$' && i + 1 < v.len() && char_is_ascii_digit(v[i + 1]) {
            let e = digits_end_at(&v, i + 1);
            proof {
                lemma_digits_end(s, i + 1);
                lemma_push_norm_clean(o0, pending, '?');
            }
            push_normalized(&mut out, pending, '?');
            pending = false;
            last_ident = false;
            i = e;
        } else if c == '?' {
            proof {
                lemma_push_norm_clean(o0, pending, '?');
            }
            push_normalized(&mut out, pending, '?');
            pending = false;
            last_ident = false;
            i = i + 1;
        } else if char_is_ascii_digit(c) && !(!pending && last_ident) {
            let e = number_end_at(&v, i + 1);
            proof {
                lemma_number_end(s, i + 1);
                lemma_push_norm_clean(o0, pending, '?');
            }
            push_normalized(&mut out, pending, '?');
            pending = false;
            last_ident = false;
            i = e;
        } else {
            let lc = lower_ascii(c);
            proof {
                lemma_lower_not_whitespace(c);
                lemma_push_norm_clean(o0, pending, lc);
            }
            push_normalized(&mut out, pending, lc);
            pending = false;
            last_ident = is_ident(lc);
            i = i + 1;
        }
    }
    proof {
        lemma_trim_clean(out@);
    }
    out
}


// ---------------------------------------------------------------------------
// Type names, query context and logging settings
// ---------------------------------------------------------------------------

/// `s` without its double quotes.
pub open spec fn drop_quotes(s: Seq<char>) -> Seq<char>
    decreases s.len(),
{
    if s.len() == 0 {
        Seq::empty()
    } else {
        drop_quotes(s.drop_last()) + (if s.last() == '"' { Seq::empty() } else { seq![s.last()] })
    }
}

/// The lookup key of a PostgreSQL type name: trimmed, unquoted and
/// lowercased, with an `element[]` array written `_element`.
pub open spec fn normalized_type_name(t: Seq<char>) -> Seq<char> {
    let n = lower_seq(drop_quotes(trim(t)));
    if n.len() >= 2 && n[n.len() - 2] == '[' && n[n.len() - 1] == ']' {
        seq!['_'] + trim(n.subrange(0, n.len() - 2))
    } else {
        n
    }
}

/// The lookup key of a PostgreSQL type name.
pub fn normalize_type_name(pg_type: &str) -> (r: String)
    ensures
        r@ == normalized_type_name(pg_type@),
{
    let v = chars_of(pg_type);
    let (a, b) = trim_bounds(&v);
    let ghost t = v@.subrange(a as int, b as int);
    let mut n: Vec<char> = Vec::new();
    let mut k = a;
    proof {
        assert(v@.subrange(a as int, a as int) =~= Seq::<char>::empty());
        assert(n@ =~= lower_seq(drop_quotes(Seq::<char>::empty())));
    }
    while k < b
        invariant
            a <= k <= b <= v.len(),
            t == v@.subrange(a as int, b as int),
            n@ == lower_seq(drop_quotes(v@.subrange(a as int, k as int))),
        decreases b - k,
    {
        let ghost before = v@.subrange(a as int, k as int);
        let c = v[k];
        proof {
            assert(v@.subrange(a as int, k + 1).drop_last() =~= before);
            assert(v@.subrange(a as int, k + 1).last() == c);
        }
        if c != '"' {
            n.push(lower_ascii(c));
        }
        k = k + 1;
        proof {
            assert(n@ =~= lower_seq(drop_quotes(v@.subrange(a as int, k as int))));
        }
    }
    let len = n.len();
    if len >= 2 && n[len - 2] == '[' && n[len - 1] == ']' {
        let mut m: Vec<char> = Vec::new();
        let mut j: usize = 0;
        while j < len - 2
            invariant
                len == n.len(),
                len >= 2,
                j <= len - 2,
                m@ == n@.subrange(0, j as int),
            decreases len - 2 - j,
        {
            m.push(n[j]);
            j = j + 1;
            proof {
                assert(m@ =~= n@.subrange(0, j as int));
            }
        }
        let (c, d) = trim_bounds(&m);
        let mut r = String::new();
        push_char(&mut r, '_');
        let body = string_of(&m, c, d);
        r.append(body.as_str());
        proof {
            assert(r@ =~= seq!['_'] + trim(n@.subrange(0, len - 2)));
        }
        r
    } else {
        string_of(&n, 0, len)
    }
}

/// The type adapter of the latest registration under a lookup key.
pub open spec fn adapter_of(entries: Seq<(String, DbType)>, key: Seq<char>) -> Option<DbType>
    decreases entries.len(),
{
    if entries.len() == 0 {
        None
    } else if entries.last().0@ == key {
        Some(entries.last().1)
    } else {
        adapter_of(entries.drop_last(), key)
    }
}

/// The column types registered for PostgreSQL type names that the query
/// layer does not know by itself, by lookup key.
#[derive(Debug)]
pub struct TypeAdapters {
    entries: Vec<(String, DbType)>,
}

impl TypeAdapters {
    /// The type registered under a lookup key, if any.
    pub closed spec fn adapter(&self, key: Seq<char>) -> Option<DbType> {
        adapter_of(self.entries@, key)
    }

    /// No adapters.
    pub fn new() -> (r: Self)
        ensures
            forall|key: Seq<char>| #[trigger] r.adapter(key) is None,
    {
        TypeAdapters { entries: Vec::new() }
    }

    /// Registers `db_type` for a PostgreSQL type name, replacing what its
    /// lookup key had.
    pub fn register_type_adapter(&mut self, postgres_type_name: &str, db_type: DbType)
        ensures
            forall|key: Seq<char>| #[trigger] final(self).adapter(key) == if key == normalized_type_name(postgres_type_name@) {
                Some(db_type)
            } else {
                old(self).adapter(key)
            },
    {
        let key = normalize_type_name(postgres_type_name);
        let ghost before = self.entries@;
        self.entries.push((key, db_type));
        proof {
            assert(self.entries@.drop_last() =~= before);
        }
    }

    /// The type registered for a PostgreSQL type name, by its lookup key.
    pub fn registered_type_adapter(&self, postgres_type_name: &str) -> (r: Option<DbType>)
        ensures
            r == self.adapter(normalized_type_name(postgres_type_name@)),
    {
        let key = normalize_type_name(postgres_type_name);
        let mut i: usize = self.entries.len();
        proof {
            assert(self.entries@.subrange(0, i as int) =~= self.entries@);
        }
        while i > 0
            invariant
                i <= self.entries@.len(),
                key@ == normalized_type_name(postgres_type_name@),
                self.adapter(key@) == adapter_of(self.entries@.subrange(0, i as int), key@),
            decreases i,
        {
            let ghost prefix = self.entries@.subrange(0, i as int);
            proof {
                assert(prefix.drop_last() =~= self.entries@.subrange(0, i - 1));
                assert(prefix.last() == self.entries@[i - 1]);
            }
            if str_eq(self.entries[i - 1].0.as_str(), key.as_str()) {
                return Some(self.entries[i - 1].1);
            }
            i = i - 1;
        }
        None
    }
}

/// ` in `label`` when a label is given, then ` while running `sql``.
pub open spec fn query_context(sql: Seq<char>, label: Option<Seq<char>>) -> Seq<char> {
    (match label {
        Some(l) => " in `"@ + l + "`"@,
        None => Seq::empty(),
    }) + " while running `"@ + sql + "`"@
}

/// Where an error happened: the query's label, if any, and its SQL.
pub fn format_query_context(sql: &str, label: Option<&str>) -> (r: String)
    ensures
        r@ == query_context(sql@, match label { Some(l) => Some(l@), None => None }),
{
    let mut r = String::new();
    match label {
        Some(l) => {
            r.append(" in `");
            r.append(l);
            r.append("`");
        },
        None => {},
    }
    r.append(" while running `");
    r.append(sql);
    r.append("`");
    proof {
        assert(r@ =~= query_context(sql@, match label { Some(l) => Some(l@), None => None }));
    }
    r
}

/// The error for a column whose PostgreSQL type has no decoder.
pub fn unsupported_type_error(
    name: &str,
    pg_type: &str,
    normalized_type: &str,
    sql: &str,
    label: Option<&str>,
) -> (e: Error)
    ensures
        e.is_plain(),
        e@ == "unsupported postgres type `"@ + pg_type@ + "` (normalized lookup `"@
            + normalized_type@ + "`) for column `"@ + name@ + "`"@
            + query_context(sql@, match label { Some(l) => Some(l@), None => None })
            + "; register a database type adapter or add first-class support"@,
{
    let mut m = owned("unsupported postgres type `");
    m.append(pg_type);
    m.append("` (normalized lookup `");
    m.append(normalized_type);
    m.append("`) for column `");
    m.append(name);
    m.append("`");
    let ctx = format_query_context(sql, label);
    m.append(ctx.as_str());
    m.append("; register a database type adapter or add first-class support");
    Error::message(m)
}

/// The SQL kept for observability: redacted unless redaction is off.
pub fn sql_for_observability(sql: &str, redact_literals: bool) -> (r: String)
    ensures
        r@ == (if redact_literals { redacted(sql@) } else { sql@ }),
{
    if redact_literals {
        redact_sql_literals(sql)
    } else {
        owned(sql)
    }
}

/// What `Duration::from_millis` returns for `ms`.
pub uninterp spec fn millis_duration(ms: u64) -> Duration;

/// `Duration::from_millis`: the contract names the duration of `ms`
/// milliseconds and says, as std documents, that it holds `ms` whole
/// milliseconds (`as_millis` gives `ms` back).
#[verifier::external_body]
fn duration_from_millis(ms: u64) -> (d: Duration)
    ensures
        d == millis_duration(ms),
        duration_ms(d) == ms as u128,
{
    Duration::from_millis(ms)
}

/// How SQL statements are logged and sampled.
#[derive(Debug)]
pub struct SqlLogConfig {
    pub capture_enabled: bool,
    pub log_queries: bool,
    pub log_query_bindings: bool,
    pub redact_sql_literals: bool,
    pub slow_threshold: Option<Duration>,
    pub slow_query_retention: usize,
}

impl SqlLogConfig {
    /// The logging settings of a database configuration; capture is on
    /// unless the observability settings turn it off, and slow queries are
    /// sampled only when capture is on and a positive threshold is set.
    pub fn from_configs(config: &DatabaseConfig, observability: Option<&ObservabilityConfig>) -> (r: Self)
        ensures
            r.capture_enabled == (match observability {
                Some(o) => o.capture_enabled,
                None => true,
            }),
            r.log_queries == config.log_queries,
            r.log_query_bindings == config.log_query_bindings,
            r.redact_sql_literals == config.redact_sql_literals,
            r.slow_threshold == (if r.capture_enabled && config.slow_query_threshold_ms > 0 {
                Some(millis_duration(config.slow_query_threshold_ms))
            } else {
                None
            }),
            r.slow_threshold matches Some(d) ==> duration_ms(d) == config.slow_query_threshold_ms as u128,
            r.slow_query_retention == config.slow_query_retention,
    {
        let capture_enabled = match observability {
            Some(o) => o.capture_enabled,
            None => true,
        };
        let slow_threshold = if capture_enabled && config.slow_query_threshold_ms > 0 {
            Some(duration_from_millis(config.slow_query_threshold_ms))
        } else {
            None
        };
        SqlLogConfig {
            capture_enabled,
            log_queries: config.log_queries,
            log_query_bindings: config.log_query_bindings,
            redact_sql_literals: config.redact_sql_literals,
            slow_threshold,
            slow_query_retention: config.slow_query_retention,
        }
    }

    /// Nothing captured or logged; SQL that is shown anyway is redacted.
    pub fn disabled() -> (r: Self)
        ensures
            !r.capture_enabled,
            !r.log_queries,
            !r.log_query_bindings,
            r.redact_sql_literals,
            r.slow_threshold is None,
            r.slow_query_retention == 0,
    {
        SqlLogConfig {
            capture_enabled: false,
            log_queries: false,
            log_query_bindings: false,
            redact_sql_literals: true,
            slow_threshold: None,
            slow_query_retention: 0,
        }
    }
}

/// Per-query execution options: a timeout, a label for logs and errors,
/// and whether reads must go to the write pool.
#[derive(Debug, PartialEq, Eq)]
pub struct QueryExecutionOptions {
    pub timeout: Option<Duration>,
    pub label: Option<String>,
    pub use_write_pool: bool,
}

impl Default for QueryExecutionOptions {
    fn default() -> (r: Self)
        ensures
            r.timeout is None,
            r.label is None,
            !r.use_write_pool,
    {
        QueryExecutionOptions { timeout: None, label: None, use_write_pool: false }
    }
}

impl QueryExecutionOptions {
    /// The same options with a timeout.
    pub fn with_timeout(self, timeout: Duration) -> (r: Self)
        ensures
            r.timeout == Some(timeout),
            r.label == self.label,
            r.use_write_pool == self.use_write_pool,
    {
        QueryExecutionOptions { timeout: Some(timeout), label: self.label, use_write_pool: self.use_write_pool }
    }

    /// The same options with a label.
    pub fn with_label(self, label: &str) -> (r: Self)
        ensures
            r.timeout == self.timeout,
            r.label matches Some(l) && l@ == label@,
            r.use_write_pool == self.use_write_pool,
    {
        QueryExecutionOptions { timeout: self.timeout, label: Some(owned(label)), use_write_pool: self.use_write_pool }
    }

    /// The same options, reading from the write pool.
    pub fn with_write_pool(self) -> (r: Self)
        ensures
            r.timeout == self.timeout,
            r.label == self.label,
            r.use_write_pool,
    {
        QueryExecutionOptions { timeout: self.timeout, label: self.label, use_write_pool: true }
    }
}

/// ` for `label`` when the options carry a label, else nothing.
pub fn label_suffix(options: &QueryExecutionOptions) -> (r: String)
    ensures
        r@ == (match options.label {
            Some(l) => " for `"@ + l@ + "`"@,
            None => Seq::empty(),
        }),
{
    match &options.label {
        Some(l) => {
            let mut r = owned(" for `");
            r.append(l.as_str());
            r.append("`");
            r
        },
        None => String::new(),
    }
}

/// What `Duration::as_millis` returns for a duration.
pub uninterp spec fn duration_ms(d: Duration) -> u128;

/// `Duration::as_millis`: the contract names the whole milliseconds of the
/// duration and says nothing more of them.
#[verifier::external_body]
fn duration_as_millis(d: &Duration) -> (r: u128)
    ensures
        r == duration_ms(*d),
{
    d.as_millis()
}

/// A timeout in whole milliseconds, as decimal text.
pub fn timeout_millis(timeout: &Duration) -> (r: String)
    ensures
        r@ == dec(duration_ms(*timeout) as nat),
{
    let mut r = String::new();
    push_wide_decimal(&mut r, duration_as_millis(timeout));
    proof {
        assert(Seq::<char>::empty() + dec(duration_ms(*timeout) as nat) =~= dec(duration_ms(*timeout) as nat));
    }
    r
}

/// The label of a query as it ends an error message.
pub open spec fn label_text(options: QueryExecutionOptions) -> Seq<char> {
    match options.label {
        Some(l) => " for `"@ + l@ + "`"@,
        None => Seq::empty(),
    }
}

/// The error when a query outlives its timeout; the duration reads
/// `unknown` without one.
pub fn outer_timeout_error(options: &QueryExecutionOptions, action: &str, sql: &str) -> (e: Error)
    ensures
        e.is_plain(),
        e@ == "database "@ + action@ + " timed out after "@ + match options.timeout {
            Some(d) => dec(duration_ms(d) as nat),
            None => "unknown"@,
        } + "ms"@ + label_text(*options) + " while running `"@ + sql@ + "`"@,
{
    let mut m = owned("database ");
    m.append(action);
    m.append(" timed out after ");
    match &options.timeout {
        Some(d) => push_wide_decimal(&mut m, duration_as_millis(d)),
        None => m.append("unknown"),
    }
    m.append("ms");
    let suffix = label_suffix(options);
    m.append(suffix.as_str());
    m.append(" while running `");
    m.append(sql);
    m.append("`");
    Error::message(m)
}

/// Whether `t` occurs in `s`.
pub open spec fn has_infix(s: Seq<char>, t: Seq<char>) -> bool {
    exists|i: int| 0 <= i && i + t.len() <= s.len() && #[trigger] s.subrange(i, i + t.len()) == t
}

/// Whether a database error is PostgreSQL's statement timeout: SQLSTATE
/// `57014` with a message that mentions the statement timeout, in any case.
pub fn is_statement_timeout(code: Option<&str>, message: &str) -> (r: bool)
    ensures
        r == (code matches Some(c) && c@ == "57014"@ && has_infix(lower_seq(message@), "statement timeout"@)),
{
    let is_cancel = match code {
        Some(c) => str_eq(c, "57014"),
        None => false,
    };
    if !is_cancel {
        return false;
    }
    let v = chars_of(message);
    let mut lower: Vec<char> = Vec::new();
    let mut k: usize = 0;
    while k < v.len()
        invariant
            k <= v@.len(),
            v@ == message@,
            lower@ == lower_seq(v@.subrange(0, k as int)),
        decreases v@.len() - k,
    {
        lower.push(lower_ascii(v[k]));
        proof {
            assert(v@.subrange(0, k + 1).drop_last() =~= v@.subrange(0, k as int));
            assert(lower@ =~= lower_seq(v@.subrange(0, k + 1)));
        }
        k = k + 1;
    }
    proof {
        assert(v@.subrange(0, v@.len() as int) =~= v@);
    }
    let needle = chars_of("statement timeout");
    let n = lower.len();
    let m = needle.len();
    if m > n {
        proof {
            assert forall|i: int| 0 <= i && i + m <= n implies #[trigger] lower@.subrange(i, i + m) != needle@ by {}
        }
        return false;
    }
    let mut i: usize = 0;
    while i <= n - m
        invariant
            code matches Some(c) && c@ == "57014"@,
            lower@ == lower_seq(message@),
            needle@ == "statement timeout"@,
            n == lower@.len(),
            m == needle@.len(),
            m <= n,
            i <= n - m + 1,
            forall|j: int| 0 <= j < i ==> #[trigger] lower@.subrange(j, j + m) != needle@,
        decreases n - i,
    {
        let mut same = true;
        let mut k: usize = 0;
        while k < m
            invariant
                n == lower@.len(),
                m == needle@.len(),
                i + m <= n,
                k <= m,
                same == (forall|l: int| 0 <= l < k ==> lower@[i + l] == needle@[l]),
            decreases m - k,
        {
            if lower[i + k] != needle[k] {
                same = false;
            }
            k = k + 1;
        }
        if same {
            proof {
                assert(lower@.subrange(i as int, i + m) =~= needle@);
            }
            return true;
        }
        proof {
            if lower@.subrange(i as int, i + m) == needle@ {
                assert forall|l: int| 0 <= l < m implies lower@[i + l] == needle@[l] by {
                    assert(lower@.subrange(i as int, i + m)[l] == lower@[i + l]);
                }
            }
        }
        i = i + 1;
    }
    false
}

/// The error of a failed database operation: a statement timeout names
/// the timeout (zero without one); any other failure is reported as such.
/// `error` is the driver's message.
pub fn operation_error(options: &QueryExecutionOptions, action: &str, sql: &str, statement_timeout: bool, error: &str) -> (e:
    Error)
    ensures
        statement_timeout ==> e@ == "database "@ + action@ + " timed out after "@ + dec(match options.timeout {
            Some(d) => duration_ms(d) as nat,
            None => 0nat,
        }) + "ms"@ + label_text(*options) + " while running `"@ + sql@ + "`: "@ + error@,
        !statement_timeout ==> e@ == "database "@ + action@ + " failed"@ + label_text(*options) + " while running `"@ + sql@
            + "`: "@ + error@,
{
    let mut m = owned("database ");
    m.append(action);
    if statement_timeout {
        m.append(" timed out after ");
        let ms: u128 = match &options.timeout {
            Some(d) => duration_as_millis(d),
            None => 0,
        };
        push_wide_decimal(&mut m, ms);
        m.append("ms");
    } else {
        m.append(" failed");
    }
    let suffix = label_suffix(options);
    m.append(suffix.as_str());
    m.append(" while running `");
    m.append(sql);
    m.append("`: ");
    m.append(error);
    Error::message(m)
}

/// The error when a database stream's worker panicked, with the panic's
/// message.
pub fn database_stream_panic_error(message: &str) -> (e: Error)
    ensures
        e.is_plain(),
        e@ == "database stream panicked: "@ + message@,
{
    let mut m = owned("database stream panicked: ");
    m.append(message);
    Error::message(m)
}

/// A slow statement kept for the observability report.
#[derive(Debug, PartialEq, Eq)]
pub struct SlowQueryEntry {
    pub sql: String,
    pub duration_ms: u64,
    pub label: Option<String>,
    pub request_id: Option<String>,
    pub trace_id: Option<String>,
    pub recorded_at: String,
}

impl Clone for SlowQueryEntry {
    fn clone(&self) -> (r: Self)
        ensures
            r == *self,
    {
        SlowQueryEntry {
            sql: self.sql.clone(),
            duration_ms: self.duration_ms,
            label: self.label.clone(),
            request_id: self.request_id.clone(),
            trace_id: self.trace_id.clone(),
            recorded_at: self.recorded_at.clone(),
        }
    }
}

} // verus!
