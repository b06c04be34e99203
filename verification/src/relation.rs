//! Relation names inferred from table names, the key types a `belongs_to`
//! relation accepts, and the bookkeeping of eager loading: which parent
//! keys a query asks for, and which related rows each parent receives.
use vstd::prelude::*;

use crate::ast::{chars_of, DbValue, DbValueView};
use crate::record::{db_type_label, type_label, uuid_string, uuid_text};
use crate::extensions::{clones_of, owned_rows};
use crate::error::Error;
use crate::text::{dec, idec, owned, push_char, push_decimal, push_signed_decimal, str_eq, string_of};

verus! {

/// The index just after the last `c` in `s`, or 0 when there is none.
pub open spec fn after_last(s: Seq<char>, c: char) -> int
    decreases s.len(),
{
    if s.len() == 0 {
        0
    } else if s.last() == c {
        s.len() as int
    } else {
        after_last(s.drop_last(), c)
    }
}

/// The table name without its schema: the text after the last `.`.
pub open spec fn basename(t: Seq<char>) -> Seq<char> {
    t.subrange(after_last(t, '.'), t.len() as int)
}

pub open spec fn ends_with(s: Seq<char>, suffix: Seq<char>) -> bool {
    s.len() >= suffix.len() && s.subrange(s.len() - suffix.len(), s.len() as int) == suffix
}

pub open spec fn stem(s: Seq<char>, k: nat) -> Seq<char> {
    s.subrange(0, s.len() - k)
}

/// The singular of a plural relation name: `ies` becomes `y`; `sses`,
/// `shes`, `ches`, `xes` and `zes` lose their `es`; a final `s` that does
/// not follow another `s` is dropped; other names are kept.
pub open spec fn singular(n: Seq<char>) -> Seq<char> {
    if ends_with(n, "ies"@) {
        stem(n, 3) + "y"@
    } else if ends_with(n, "sses"@) {
        stem(n, 4) + "ss"@
    } else if ends_with(n, "shes"@) {
        stem(n, 4) + "sh"@
    } else if ends_with(n, "ches"@) {
        stem(n, 4) + "ch"@
    } else if ends_with(n, "xes"@) {
        stem(n, 3) + "x"@
    } else if ends_with(n, "zes"@) {
        stem(n, 3) + "z"@
    } else if ends_with(n, "s"@) && !ends_with(stem(n, 1), "s"@) {
        stem(n, 1)
    } else {
        n
    }
}

proof fn lemma_after_last(s: Seq<char>, c: char)
    ensures
        0 <= after_last(s, c) <= s.len(),
        after_last(s, c) > 0 ==> s[after_last(s, c) - 1] == c,
        forall|j: int| after_last(s, c) <= j < s.len() ==> s[j] != c,
    decreases s.len(),
{
    if s.len() > 0 && s.last() != c {
        let t = s.drop_last();
        lemma_after_last(t, c);
        assert forall|j: int| after_last(s, c) <= j < s.len() implies s[j] != c by {
            if j < s.len() - 1 {
                assert(s[j] == t[j]);
            }
        }
        if after_last(s, c) > 0 {
            assert(s[after_last(s, c) - 1] == t[after_last(s, c) - 1]);
        }
    }
}

/// The index just after the last `c` in `v`, or 0.
fn after_last_index(v: &Vec<char>, c: char) -> (k: usize)
    ensures
        k == after_last(v@, c),
{
    let mut k = v.len();
    proof {
        assert(v@.subrange(0, k as int) =~= v@);
    }
    while k > 0 && v[k - 1] != c
        invariant
            k <= v.len(),
            after_last(v@.subrange(0, k as int), c) == after_last(v@, c),
        decreases k,
    {
        proof {
            assert(v@.subrange(0, k as int).drop_last() =~= v@.subrange(0, k - 1));
        }
        k = k - 1;
    }
    k
}

/// Whether `v[..end]` ends with `lit`.
fn ends_with_text(v: &Vec<char>, end: usize, lit: &str) -> (b: bool)
    requires
        end <= v.len(),
    ensures
        b == ends_with(v@.subrange(0, end as int), lit@),
{
    let n = lit.unicode_len();
    if n > end {
        return false;
    }
    let start = end - n;
    let ghost a = v@.subrange(0, end as int).subrange(start as int, end as int);
    let mut i: usize = 0;
    while i < n
        invariant
            n == lit@.len(),
            start + n == end,
            end <= v.len(),
            i <= n,
            a == v@.subrange(0, end as int).subrange(start as int, end as int),
            forall|j: int| 0 <= j < i ==> #[trigger] a[j] == lit@[j],
        decreases n - i,
    {
        if v[start + i] != lit.get_char(i) {
            proof {
                assert(a[i as int] != lit@[i as int]);
            }
            return false;
        }
        proof {
            assert(a[i as int] == lit@[i as int]);
        }
        i = i + 1;
    }
    proof {
        assert(a =~= lit@);
    }
    true
}

/// The table name without its schema.
pub fn relation_basename(table_name: &str) -> (r: String)
    ensures
        r@ == basename(table_name@),
{
    let v = chars_of(table_name);
    let k = after_last_index(&v, '.');
    proof {
        lemma_after_last(v@, '.');
    }
    string_of(&v, k, v.len())
}

/// The singular form of a plural relation name.
pub fn singularize_relation_name(name: &str) -> (r: String)
    ensures
        r@ == singular(name@),
{
    let v = chars_of(name);
    let n = v.len();
    proof {
        assert(v@.subrange(0, n as int) =~= v@);
        reveal_strlit("ies");
        reveal_strlit("sses");
        reveal_strlit("shes");
        reveal_strlit("ches");
        reveal_strlit("xes");
        reveal_strlit("zes");
        reveal_strlit("s");
    }
    if ends_with_text(&v, n, "ies") {
        let mut r = string_of(&v, 0, n - 3);
        r.append("y");
        return r;
    }
    if ends_with_text(&v, n, "sses") {
        let mut r = string_of(&v, 0, n - 4);
        r.append("ss");
        return r;
    }
    if ends_with_text(&v, n, "shes") {
        let mut r = string_of(&v, 0, n - 4);
        r.append("sh");
        return r;
    }
    if ends_with_text(&v, n, "ches") {
        let mut r = string_of(&v, 0, n - 4);
        r.append("ch");
        return r;
    }
    if ends_with_text(&v, n, "xes") {
        let mut r = string_of(&v, 0, n - 3);
        r.append("x");
        return r;
    }
    if ends_with_text(&v, n, "zes") {
        let mut r = string_of(&v, 0, n - 3);
        r.append("z");
        return r;
    }
    if ends_with_text(&v, n, "s") {
        proof {
            reveal_strlit("s");
            assert(v@.subrange(0, n - 1) =~= stem(v@, 1));
        }
        if !ends_with_text(&v, n - 1, "s") {
            return string_of(&v, 0, n - 1);
        }
    }
    string_of(&v, 0, n)
}

/// The name of a collection relation to a table: the table's name
/// without its schema.
pub fn infer_collection_relation_name(table_name: &str) -> (r: String)
    ensures
        r@ == basename(table_name@),
{
    relation_basename(table_name)
}

/// The name of a single-row relation to a table: the singular of the
/// table's name without its schema.
pub fn infer_singular_relation_name(table_name: &str) -> (r: String)
    ensures
        r@ == singular(basename(table_name@)),
{
    let base = relation_basename(table_name);
    singularize_relation_name(base.as_str())
}

/// What a `belongs_to` foreign key may be: the owner's key type itself or
/// its `Option`. Only those two have it.
pub trait Sealed<Key> {}

impl<Key> Sealed<Key> for Key {}

impl<Key> Sealed<Key> for Option<Key> {}

/// Marker for a `belongs_to` foreign key that is either `Key` or
/// `Option<Key>`, so that nullable foreign-key columns are accepted while
/// the key types still have to agree.
pub trait BelongsToForeignKey<Key>: Sealed<Key> {}

impl<Key> BelongsToForeignKey<Key> for Key {}

impl<Key> BelongsToForeignKey<Key> for Option<Key> {}

// ---------------------------------------------------------------------------
// Eager loading: keys and the distribution of related rows
// ---------------------------------------------------------------------------

/// Whether parent `q` has relation key `k`.
pub open spec fn has_key(keys: Seq<Option<String>>, q: int, k: Seq<char>) -> bool {
    keys[q] matches Some(key) && key@ == k
}

/// The parents that bring a relation key first seen, in parent order:
/// the keys that one query asks for, each once.
pub open spec fn first_key_parents(keys: Seq<Option<String>>) -> Seq<int>
    decreases keys.len(),
{
    if keys.len() == 0 {
        Seq::empty()
    } else {
        let p = keys.len() - 1;
        let earlier = first_key_parents(keys.drop_last());
        match keys[p] {
            Some(k) => if (exists|q: int| 0 <= q < p && #[trigger] has_key(keys, q, k@)) {
                earlier
            } else {
                earlier.push(p)
            },
            None => earlier,
        }
    }
}

fn key_seen(keys: &Vec<Option<String>>, before: usize, key: &String) -> (r: bool)
    requires
        before <= keys@.len(),
    ensures
        r == exists|q: int| 0 <= q < before && #[trigger] has_key(keys@, q, key@),
{
    let mut q: usize = 0;
    while q < before
        invariant
            before <= keys@.len(),
            q <= before,
            forall|j: int| 0 <= j < q ==> !#[trigger] has_key(keys@, j, key@),
        decreases before - q,
    {
        match &keys[q] {
            Some(k) => {
                if str_eq(k.as_str(), key.as_str()) {
                    proof {
                        assert(has_key(keys@, q as int, key@));
                    }
                    return true;
                }
            },
            None => {},
        }
        q = q + 1;
    }
    false
}

/// The parents whose relation keys a query must ask for: each key once,
/// from the first parent that has it; parents without a key ask nothing.
pub fn first_key_parent_indices(keys: &Vec<Option<String>>) -> (r: Vec<usize>)
    ensures
        r@.map_values(|i: usize| i as int) == first_key_parents(keys@),
{
    let mut r: Vec<usize> = Vec::new();
    let mut p: usize = 0;
    while p < keys.len()
        invariant
            p <= keys@.len(),
            r@.map_values(|i: usize| i as int) == first_key_parents(keys@.subrange(0, p as int)),
        decreases keys@.len() - p,
    {
        let ghost before = r@;
        let ghost prefix = keys@.subrange(0, p + 1);
        proof {
            assert(prefix.drop_last() =~= keys@.subrange(0, p as int));
            assert forall|q: int, k: Seq<char>| 0 <= q < p implies has_key(prefix, q, k) == has_key(keys@, q, k) by {
                assert(prefix[q] == keys@[q]);
            }
        }
        match &keys[p] {
            Some(k) => {
                let seen = key_seen(keys, p, k);
                proof {
                    if seen {
                        let q = choose|q: int| 0 <= q < p && #[trigger] has_key(keys@, q, k@);
                        assert(has_key(prefix, q, k@));
                    } else {
                        assert forall|q: int| 0 <= q < p implies !#[trigger] has_key(prefix, q, k@) by {
                            assert(!has_key(keys@, q, k@));
                        }
                    }
                }
                if !seen {
                    r.push(p);
                    proof {
                        assert(r@.map_values(|i: usize| i as int) =~= before.map_values(|i: usize| i as int).push(p as int));
                    }
                }
            },
            None => {},
        }
        p = p + 1;
    }
    proof {
        assert(keys@.subrange(0, keys@.len() as int) =~= keys@);
    }
    r
}

proof fn lemma_owned_rows_push<T>(rows: Seq<(String, T)>, x: (String, T), k: Seq<char>)
    ensures
        owned_rows(rows.push(x), k) == owned_rows(rows, k) + (if x.0@ == k {
            seq![x.1]
        } else {
            Seq::<T>::empty()
        }),
    decreases rows.len(),
{
    let tail = if x.0@ == k {
        seq![x.1]
    } else {
        Seq::<T>::empty()
    };
    if rows.len() == 0 {
        assert(rows.push(x).drop_first() =~= Seq::<(String, T)>::empty());
        assert(owned_rows(rows.push(x), k) =~= tail + owned_rows(Seq::<(String, T)>::empty(), k));
        assert(owned_rows(rows, k) + tail =~= tail);
    } else {
        lemma_owned_rows_push(rows.drop_first(), x, k);
        assert(rows.push(x).drop_first() =~= rows.drop_first().push(x));
        assert(rows.push(x)[0] == rows[0]);
        let head = if rows[0].0@ == k {
            seq![rows[0].1]
        } else {
            Seq::<T>::empty()
        };
        assert(owned_rows(rows.push(x), k) == head + owned_rows(rows.drop_first().push(x), k));
        assert(head + (owned_rows(rows.drop_first(), k) + tail) =~= (head + owned_rows(rows.drop_first(), k)) + tail);
    }
}

/// Whether no parent after `p` shares its relation key `k`.
pub open spec fn last_with_key(keys: Seq<Option<String>>, p: int, k: Seq<char>) -> bool {
    forall|q: int| p < q < keys.len() ==> !#[trigger] has_key(keys, q, k)
}

fn last_parent_with_key(keys: &Vec<Option<String>>, p: usize, key: &String) -> (r: bool)
    requires
        p < keys@.len(),
    ensures
        r == last_with_key(keys@, p as int, key@),
{
    let len = keys.len();
    let mut q: usize = p + 1;
    while q < len
        invariant
            len == keys@.len(),
            p < q <= keys@.len(),
            forall|j: int| p < j < q ==> !#[trigger] has_key(keys@, j, key@),
        decreases keys@.len() - q,
    {
        match &keys[q] {
            Some(k) => {
                if str_eq(k.as_str(), key.as_str()) {
                    proof {
                        assert(has_key(keys@, q as int, key@));
                    }
                    return false;
                }
            },
            None => {},
        }
        q = q + 1;
    }
    true
}

fn find_group<T>(groups: &Vec<(String, Vec<T>)>, key: &str) -> (r: Option<usize>)
    ensures
        match r {
            Some(g) => g < groups@.len() && groups@[g as int].0@ == key@,
            None => forall|g: int| 0 <= g < groups@.len() ==> (#[trigger] groups@[g]).0@ != key@,
        },
{
    let mut g: usize = 0;
    while g < groups.len()
        invariant
            g <= groups@.len(),
            forall|j: int| 0 <= j < g ==> (#[trigger] groups@[j]).0@ != key@,
        decreases groups@.len() - g,
    {
        if str_eq(groups[g].0.as_str(), key) {
            return Some(g);
        }
        g = g + 1;
    }
    None
}

/// The related rows each parent receives, in parent order: the rows whose
/// key is the parent's relation key, in the order they came; none for a
/// parent without a key. Parents that share a key get clones, except the
/// last of them, which gets the rows themselves.
pub fn distribute_related_rows<T: Clone>(keys: &Vec<Option<String>>, rows: Vec<(String, T)>) -> (r: Vec<Vec<T>>)
    ensures
        r@.len() == keys@.len(),
        forall|p: int| 0 <= p < keys@.len() ==> match keys@[p] {
            None => (#[trigger] r@[p])@.len() == 0,
            Some(k) => if last_with_key(keys@, p, k@) {
                r@[p]@ == owned_rows(rows@, k@)
            } else {
                clones_of(owned_rows(rows@, k@), r@[p]@)
            },
        },
{
    let ghost all = rows@;
    let mut groups: Vec<(String, Vec<T>)> = Vec::new();
    let mut rest = rows;
    let mut i: usize = 0;
    let n = rest.len();
    proof {
        assert(all.subrange(0, 0) =~= Seq::<(String, T)>::empty());
        assert(rest@ =~= all.subrange(0, n as int));
    }
    // Group the rows by key, keeping their order.
    while rest.len() > 0
        invariant
            n == all.len(),
            i + rest@.len() == n,
            rest@ == all.subrange(i as int, n as int),
            forall|g: int| 0 <= g < groups@.len() ==> (#[trigger] groups@[g]).1@ == owned_rows(
                all.subrange(0, i as int),
                groups@[g].0@,
            ),
            forall|g1: int, g2: int| 0 <= g1 < g2 < groups@.len() ==> (#[trigger] groups@[g1]).0@ != (
            #[trigger] groups@[g2]).0@,
            forall|k: Seq<char>| (forall|g: int| 0 <= g < groups@.len() ==> (#[trigger] groups@[g]).0@ != k) ==> (
            #[trigger] owned_rows(all.subrange(0, i as int), k)).len() == 0,
        decreases rest@.len(),
    {
        let item = rest.remove(0);
        let ghost before = groups@;
        let ghost prefix = all.subrange(0, i as int);
        proof {
            assert(i < n);
            assert(item == all[i as int]);
            assert(all.subrange(0, i + 1) =~= prefix.push(item));
            assert(rest@ =~= all.subrange(i + 1, n as int));
        }
        let (key, value) = item;
        let ghost item_key = key@;
        match find_group(&groups, key.as_str()) {
            Some(g) => {
                let (group_key, mut values) = groups.remove(g);
                values.push(value);
                groups.insert(g, (group_key, values));
                proof {
                    assert forall|h: int| 0 <= h < groups@.len() implies (#[trigger] groups@[h]).1@ == owned_rows(
                        all.subrange(0, i + 1),
                        groups@[h].0@,
                    ) by {
                        lemma_owned_rows_push(prefix, item, groups@[h].0@);
                        if h != g {
                            assert(groups@[h] == before[h]);
                        }
                    }
                    assert forall|g1: int, g2: int| 0 <= g1 < g2 < groups@.len() implies (#[trigger] groups@[g1]).0@ != (
                    #[trigger] groups@[g2]).0@ by {
                        assert(groups@[g1].0@ == before[g1].0@);
                        assert(groups@[g2].0@ == before[g2].0@);
                    }
                    assert forall|k: Seq<char>| (forall|h: int| 0 <= h < groups@.len() ==> (#[trigger] groups@[h]).0@ != k)
                        implies (#[trigger] owned_rows(all.subrange(0, i + 1), k)).len() == 0 by {
                        lemma_owned_rows_push(prefix, item, k);
                        assert forall|h: int| 0 <= h < before.len() implies (#[trigger] before[h]).0@ != k by {
                            assert(groups@[h].0@ == before[h].0@);
                        }
                        assert(groups@[g as int].0@ == item_key);
                    }
                }
            },
            None => {
                let mut values: Vec<T> = Vec::new();
                values.push(value);
                groups.push((key, values));
                proof {
                    assert forall|h: int| 0 <= h < groups@.len() implies (#[trigger] groups@[h]).1@ == owned_rows(
                        all.subrange(0, i + 1),
                        groups@[h].0@,
                    ) by {
                        lemma_owned_rows_push(prefix, item, groups@[h].0@);
                        if h < before.len() {
                            assert(groups@[h] == before[h]);
                            assert(before[h].0@ != item_key);
                        } else {
                            assert(owned_rows(prefix, item_key).len() == 0);
                            assert(groups@[h].1@ =~= owned_rows(prefix, item_key) + seq![item.1]);
                        }
                    }
                    assert forall|g1: int, g2: int| 0 <= g1 < g2 < groups@.len() implies (#[trigger] groups@[g1]).0@ != (
                    #[trigger] groups@[g2]).0@ by {
                        if g2 < before.len() {
                            assert(groups@[g1] == before[g1] && groups@[g2] == before[g2]);
                        } else {
                            assert(groups@[g1] == before[g1]);
                        }
                    }
                    assert forall|k: Seq<char>| (forall|h: int| 0 <= h < groups@.len() ==> (#[trigger] groups@[h]).0@ != k)
                        implies (#[trigger] owned_rows(all.subrange(0, i + 1), k)).len() == 0 by {
                        lemma_owned_rows_push(prefix, item, k);
                        assert(groups@[before.len() as int].0@ == item_key);
                        assert forall|h: int| 0 <= h < before.len() implies (#[trigger] before[h]).0@ != k by {
                            assert(groups@[h] == before[h]);
                        }
                    }
                }
            },
        }
        i = i + 1;
    }
    proof {
        assert(all.subrange(0, n as int) =~= all);
    }
    // Hand each parent its group: clones until the last parent of a key.
    let mut r: Vec<Vec<T>> = Vec::new();
    let mut p: usize = 0;
    while p < keys.len()
        invariant
            p <= keys@.len(),
            r@.len() == p,
            forall|g: int| 0 <= g < groups@.len() ==> (#[trigger] groups@[g]).1@ == owned_rows(all, groups@[g].0@),
            forall|g1: int, g2: int| 0 <= g1 < g2 < groups@.len() ==> (#[trigger] groups@[g1]).0@ != (
            #[trigger] groups@[g2]).0@,
            forall|k: Seq<char>| (forall|g: int| 0 <= g < groups@.len() ==> (#[trigger] groups@[g]).0@ != k) ==> (
            #[trigger] owned_rows(all, k)).len() == 0 || (forall|q: int| p <= q < keys@.len() ==> !#[trigger] has_key(keys@, q, k)),
            forall|q: int| 0 <= q < p ==> match keys@[q] {
                None => (#[trigger] r@[q])@.len() == 0,
                Some(k) => if last_with_key(keys@, q, k@) {
                    r@[q]@ == owned_rows(all, k@)
                } else {
                    clones_of(owned_rows(all, k@), r@[q]@)
                },
            },
        decreases keys@.len() - p,
    {
        let ghost before = groups@;
        let ghost r_before = r@;
        match &keys[p] {
            None => {
                r.push(Vec::new());
            },
            Some(key) => {
                proof {
                    assert(has_key(keys@, p as int, key@));
                }
                match find_group(&groups, key.as_str()) {
                    None => {
                        r.push(Vec::new());
                        proof {
                            assert(owned_rows(all, key@).len() == 0);
                            assert(clones_of(owned_rows(all, key@), r@[p as int]@));
                        }
                    },
                    Some(g) => {
                        if last_parent_with_key(keys, p, key) {
                            let (_, values) = groups.remove(g);
                            r.push(values);
                            proof {
                                assert forall|g1: int, g2: int| 0 <= g1 < g2 < groups@.len() implies (#[trigger] groups@[g1]).0@
                                    != (#[trigger] groups@[g2]).0@ by {
                                    let a = if g1 < g { g1 } else { g1 + 1 };
                                    let b = if g2 < g { g2 } else { g2 + 1 };
                                    assert(groups@[g1] == before[a] && groups@[g2] == before[b]);
                                }
                                assert forall|h: int| 0 <= h < groups@.len() implies (#[trigger] groups@[h]).1@ == owned_rows(
                                    all,
                                    groups@[h].0@,
                                ) by {
                                    let a = if h < g { h } else { h + 1 };
                                    assert(groups@[h] == before[a]);
                                }
                                assert forall|k: Seq<char>| (forall|h: int| 0 <= h < groups@.len() ==> (#[trigger] groups@[h]).0@
                                    != k) implies (#[trigger] owned_rows(all, k)).len() == 0 || (forall|q: int| p + 1 <= q
                                    < keys@.len() ==> !#[trigger] has_key(keys@, q, k)) by {
                                    if k != key@ {
                                        assert forall|h: int| 0 <= h < before.len() implies (#[trigger] before[h]).0@ != k by {
                                            if h < g {
                                                assert(groups@[h] == before[h]);
                                            } else if h > g {
                                                assert(groups@[h - 1] == before[h]);
                                            }
                                        }
                                    }
                                }
                            }
                        } else {
                            let values = groups[g].1.clone();
                            r.push(values);
                        }
                    },
                }
            },
        }
        proof {
            assert forall|q: int| 0 <= q < p + 1 implies match keys@[q] {
                None => (#[trigger] r@[q])@.len() == 0,
                Some(k) => if last_with_key(keys@, q, k@) {
                    r@[q]@ == owned_rows(all, k@)
                } else {
                    clones_of(owned_rows(all, k@), r@[q]@)
                },
            } by {
                if q < p {
                    assert(r@[q] == r_before[q]);
                }
            }
        }
        p = p + 1;
    }
    r
}

/// The error for a relation callback that panicked.
pub fn relation_callback_panic_error(callback: &str, message: &str) -> (e: Error)
    ensures
        e.is_plain(),
        e@ == callback@ + " panicked: "@ + message@,
{
    let mut m = owned(callback);
    m.append(" panicked: ");
    m.append(message);
    Error::message(m)
}

/// The error of a relation that failed to load, naming the relation, what
/// it was doing and its target table.
pub fn relation_load_error(relation: &str, target: &str, action: &str, error: &Error) -> (e: Error)
    ensures
        e.is_plain(),
        e@ == "relation `"@ + relation@ + "` failed to "@ + action@ + " from target `"@ + target@ + "`: "@ + error@,
{
    let mut m = owned("relation `");
    m.append(relation);
    m.append("` failed to ");
    m.append(action);
    m.append(" from target `");
    m.append(target);
    m.append("`: ");
    m.append(error.message.as_str());
    Error::message(m)
}

/// The error of a many-to-many relation that failed to load, naming also
/// its pivot table.
pub fn many_to_many_load_error(relation: &str, target: &str, pivot: &str, action: &str, error: &Error) -> (e: Error)
    ensures
        e.is_plain(),
        e@ == "many-to-many relation `"@ + relation@ + "` failed to "@ + action@ + " from target `"@ + target@
            + "` via pivot `"@ + pivot@ + "`: "@ + error@,
{
    let mut m = owned("many-to-many relation `");
    m.append(relation);
    m.append("` failed to ");
    m.append(action);
    m.append(" from target `");
    m.append(target);
    m.append("` via pivot `");
    m.append(pivot);
    m.append("`: ");
    m.append(error.message.as_str());
    Error::message(m)
}

// ---------------------------------------------------------------------------
// Relation keys
// ---------------------------------------------------------------------------

/// Integers printed as a list: `[a, b, c]` without the brackets.
pub open spec fn int_list(s: Seq<int>) -> Seq<char>
    decreases s.len(),
{
    if s.len() == 0 {
        Seq::empty()
    } else if s.len() == 1 {
        idec(s[0])
    } else {
        int_list(s.drop_last()) + ", "@ + idec(s.last())
    }
}

/// Booleans printed as a list, without the brackets.
pub open spec fn bool_list(s: Seq<bool>) -> Seq<char>
    decreases s.len(),
{
    if s.len() == 0 {
        Seq::empty()
    } else if s.len() == 1 {
        bool_text(s[0])
    } else {
        bool_list(s.drop_last()) + ", "@ + bool_text(s.last())
    }
}

pub open spec fn bool_text(b: bool) -> Seq<char> {
    if b {
        "true"@
    } else {
        "false"@
    }
}

/// The text key by which eager loading groups values: the value's kind and
/// the value. Floating-point values and lists of floats, numerics, texts,
/// UUIDs and times are printed by the caller (`None` here).
pub open spec fn relation_key_of(v: DbValueView) -> Option<Seq<char>> {
    match v {
        DbValueView::Null(t) => Some("null:"@ + type_label(t)),
        DbValueView::Int16(x) => Some("i16:"@ + idec(x as int)),
        DbValueView::Int32(x) => Some("i32:"@ + idec(x as int)),
        DbValueView::Int64(x) => Some("i64:"@ + idec(x as int)),
        DbValueView::Bool(b) => Some("bool:"@ + bool_text(b)),
        DbValueView::Numeric(n) => Some("numeric:"@ + n),
        DbValueView::Text(t) => Some("text:"@ + t),
        DbValueView::Json(t) => Some("json:"@ + t),
        DbValueView::Uuid(u) => Some("uuid:"@ + uuid_text(u)),
        DbValueView::TimestampTz(t) => Some("timestamptz:"@ + t),
        DbValueView::Timestamp(t) => Some("timestamp:"@ + t),
        DbValueView::Date(t) => Some("date:"@ + t),
        DbValueView::Time(t) => Some("time:"@ + t),
        DbValueView::Bytea(b) => Some("bytea:"@ + dec(b.len())),
        DbValueView::Int16Array(a) => Some("i16[]:["@ + int_list(a.map_values(|x: i16| x as int)) + "]"@),
        DbValueView::Int32Array(a) => Some("i32[]:["@ + int_list(a.map_values(|x: i32| x as int)) + "]"@),
        DbValueView::Int64Array(a) => Some("i64[]:["@ + int_list(a.map_values(|x: i64| x as int)) + "]"@),
        DbValueView::BoolArray(a) => Some("bool[]:["@ + bool_list(a) + "]"@),
        DbValueView::ByteaArray(a) => Some("bytea[]:"@ + dec(a.len())),
        _ => None,
    }
}

fn push_int_list(out: &mut String, values: &Vec<i64>)
    ensures
        final(out)@ == old(out)@ + int_list(values@.map_values(|x: i64| x as int)),
{
    let ghost o0 = out@;
    let ghost all = values@.map_values(|x: i64| x as int);
    let mut i: usize = 0;
    proof {
        assert(all.subrange(0, 0) =~= Seq::<int>::empty());
        assert(o0 + int_list(Seq::<int>::empty()) =~= o0);
    }
    while i < values.len()
        invariant
            i <= values@.len(),
            all == values@.map_values(|x: i64| x as int),
            out@ == o0 + int_list(all.subrange(0, i as int)),
        decreases values@.len() - i,
    {
        let ghost before = out@;
        if i > 0 {
            out.append(", ");
        }
        push_signed_decimal(out, values[i]);
        proof {
            let p = all.subrange(0, i + 1);
            assert(p.drop_last() =~= all.subrange(0, i as int));
            assert(p.last() == values@[i as int] as int);
            if i == 0 {
                assert(p.len() == 1);
                assert(out@ =~= o0 + int_list(p));
            } else {
                assert(out@ =~= o0 + int_list(p));
            }
        }
        i = i + 1;
    }
    proof {
        assert(all.subrange(0, values@.len() as int) =~= all);
    }
}

fn push_bool_list(out: &mut String, values: &Vec<bool>)
    ensures
        final(out)@ == old(out)@ + bool_list(values@),
{
    let ghost o0 = out@;
    let mut i: usize = 0;
    proof {
        assert(values@.subrange(0, 0) =~= Seq::<bool>::empty());
        assert(o0 + bool_list(Seq::<bool>::empty()) =~= o0);
    }
    while i < values.len()
        invariant
            i <= values@.len(),
            out@ == o0 + bool_list(values@.subrange(0, i as int)),
        decreases values@.len() - i,
    {
        if i > 0 {
            out.append(", ");
        }
        if values[i] {
            out.append("true");
        } else {
            out.append("false");
        }
        proof {
            let p = values@.subrange(0, i + 1);
            assert(p.drop_last() =~= values@.subrange(0, i as int));
            assert(p.last() == values@[i as int]);
            assert(out@ =~= o0 + bool_list(p));
        }
        i = i + 1;
    }
    proof {
        assert(values@.subrange(0, values@.len() as int) =~= values@);
    }
}

fn keyed(prefix: &str, rest: &str) -> (r: String)
    ensures
        r@ == prefix@ + rest@,
{
    let mut r = owned(prefix);
    r.append(rest);
    r
}

/// The relation key of a value, where the library prints it (see
/// `relation_key_of`).
pub fn relation_key_text(value: &DbValue) -> (r: Option<String>)
    ensures
        match relation_key_of(value@) {
            Some(k) => r matches Some(s) && s@ == k,
            None => r is None,
        },
{
    match value {
        DbValue::Null(t) => Some(keyed("null:", db_type_label(*t))),
        DbValue::Int16(x) => {
            let mut r = owned("i16:");
            push_signed_decimal(&mut r, *x as i64);
            Some(r)
        },
        DbValue::Int32(x) => {
            let mut r = owned("i32:");
            push_signed_decimal(&mut r, *x as i64);
            Some(r)
        },
        DbValue::Int64(x) => {
            let mut r = owned("i64:");
            push_signed_decimal(&mut r, *x);
            Some(r)
        },
        DbValue::Bool(b) => Some(keyed("bool:", if *b { "true" } else { "false" })),
        DbValue::Numeric(n) => Some(keyed("numeric:", n.as_str())),
        DbValue::Text(t) => Some(keyed("text:", t.as_str())),
        DbValue::Json(t) => Some(keyed("json:", t.as_str())),
        DbValue::Uuid(u) => {
            let text = uuid_string(*u);
            Some(keyed("uuid:", text.as_str()))
        },
        DbValue::TimestampTz(t) => Some(keyed("timestamptz:", t.as_str())),
        DbValue::Timestamp(t) => Some(keyed("timestamp:", t.as_str())),
        DbValue::Date(t) => Some(keyed("date:", t.as_str())),
        DbValue::Time(t) => Some(keyed("time:", t.as_str())),
        DbValue::Bytea(b) => {
            let mut r = owned("bytea:");
            push_decimal(&mut r, b.len() as u64);
            Some(r)
        },
        DbValue::Int16Array(a) => {
            let mut wide: Vec<i64> = Vec::new();
            let mut i: usize = 0;
            while i < a.len()
                invariant
                    i <= a@.len(),
                    wide@.len() == i,
                    forall|j: int| 0 <= j < i ==> wide@[j] as int == a@[j] as int,
                decreases a@.len() - i,
            {
                wide.push(a[i] as i64);
                i = i + 1;
            }
            proof {
                assert(wide@.map_values(|x: i64| x as int) =~= a@.map_values(|x: i16| x as int));
            }
            let mut r = owned("i16[]:[");
            push_int_list(&mut r, &wide);
            r.append("]");
            Some(r)
        },
        DbValue::Int32Array(a) => {
            let mut wide: Vec<i64> = Vec::new();
            let mut i: usize = 0;
            while i < a.len()
                invariant
                    i <= a@.len(),
                    wide@.len() == i,
                    forall|j: int| 0 <= j < i ==> wide@[j] as int == a@[j] as int,
                decreases a@.len() - i,
            {
                wide.push(a[i] as i64);
                i = i + 1;
            }
            proof {
                assert(wide@.map_values(|x: i64| x as int) =~= a@.map_values(|x: i32| x as int));
            }
            let mut r = owned("i32[]:[");
            push_int_list(&mut r, &wide);
            r.append("]");
            Some(r)
        },
        DbValue::Int64Array(a) => {
            let mut r = owned("i64[]:[");
            push_int_list(&mut r, a);
            r.append("]");
            Some(r)
        },
        DbValue::BoolArray(a) => {
            let mut r = owned("bool[]:[");
            push_bool_list(&mut r, a);
            r.append("]");
            Some(r)
        },
        DbValue::ByteaArray(a) => {
            let mut r = owned("bytea[]:");
            push_decimal(&mut r, a.len() as u64);
            Some(r)
        },
        _ => None,
    }
}

} // verus!
