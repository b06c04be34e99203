//! Offset and cursor pagination: page arithmetic, response metadata,
//! navigation links and the `page` / `per_page` query parameters.
use vstd::prelude::*;

use base64::engine::general_purpose::URL_SAFE_NO_PAD;
use base64::Engine;

use crate::ast::{all_digits, chars_of, find_char, first_index, lemma_first_index_bound};
use crate::config::DatabaseConfig;
use crate::error::Error;
use crate::text::{dec, digit_char, is_ascii_digit, owned, push_char, push_decimal, string_of};
use vstd::utf8::{decode_utf8, encode_utf8, valid_utf8};

verus! {

/// A page request: the 1-based page number and the page size.
#[derive(Clone, Copy, Debug, PartialEq, Eq, Structural)]
pub struct Pagination {
    pub page: u64,
    pub per_page: u64,
}

pub open spec fn at_least_one(v: u64) -> u64 {
    if v < 1 { 1 } else { v }
}

impl Pagination {
    pub const DEFAULT_PAGE: u64 = 1;

    pub const DEFAULT_PER_PAGE: u64 = 15;

    /// A page request; a page number or size of zero becomes one.
    pub fn new(page: u64, per_page: u64) -> (r: Self)
        ensures
            r.page == at_least_one(page),
            r.per_page == at_least_one(per_page),
    {
        Pagination {
            page: if page < 1 { 1 } else { page },
            per_page: if per_page < 1 { 1 } else { per_page },
        }
    }

    /// A page request from optional values, with the configured page size
    /// as the default.
    pub fn from_config(config: &DatabaseConfig, page: Option<u64>, per_page: Option<u64>) -> (r: Self)
        ensures
            r == Self::options_spec(page, per_page, config.default_per_page),
    {
        Self::from_options_with_default_per_page(page, per_page, config.default_per_page)
    }

    pub open spec fn options_spec(page: Option<u64>, per_page: Option<u64>, default_per_page: u64) -> Self {
        Pagination {
            page: at_least_one(match page {
                Some(p) => p,
                None => 1,
            }),
            per_page: at_least_one(match per_page {
                Some(p) => p,
                None => default_per_page,
            }),
        }
    }

    /// A page request from optional values: page one and the given page
    /// size when they are missing.
    pub fn from_options_with_default_per_page(
        page: Option<u64>,
        per_page: Option<u64>,
        default_per_page: u64,
    ) -> (r: Self)
        ensures
            r == Self::options_spec(page, per_page, default_per_page),
    {
        let p = match page {
            Some(p) => p,
            None => Self::DEFAULT_PAGE,
        };
        let pp = match per_page {
            Some(p) => p,
            None => default_per_page,
        };
        Self::new(p, pp)
    }

    /// The number of rows before the page.
    pub fn offset(&self) -> (r: u64)
        requires
            self.page >= 1,
            (self.page - 1) * self.per_page <= u64::MAX,
        ensures
            r == (self.page - 1) * self.per_page,
    {
        (self.page - 1) * self.per_page
    }
}

impl Default for Pagination {
    /// Page one, fifteen rows.
    fn default() -> (r: Self)
        ensures
            r.page == 1,
            r.per_page == 15,
    {
        Self::new(Self::DEFAULT_PAGE, Self::DEFAULT_PER_PAGE)
    }
}

/// The metadata of a page of results.
#[derive(Clone, Copy, Debug, PartialEq, Eq, Structural)]
pub struct PaginationMeta {
    pub current_page: u64,
    pub per_page: u64,
    pub total: u64,
    pub last_page: u64,
}

/// Links to the next and previous pages, when there are such pages.
#[derive(Clone, Debug, PartialEq, Eq)]
pub struct PaginationLinks {
    pub next: Option<String>,
    pub prev: Option<String>,
}

/// A page of results with its request and the total number of rows.
#[derive(Debug)]
pub struct Paginated<T> {
    pub data: Vec<T>,
    pub pagination: Pagination,
    pub total: u64,
}

/// A page of results ready to be serialized, with its metadata and links.
#[derive(Debug)]
pub struct PaginatedResponse<T> {
    pub data: Vec<T>,
    pub meta: PaginationMeta,
    pub links: PaginationLinks,
}

/// The last page number: one for an empty result, else the number of
/// pages the rows fill.
pub open spec fn last_page_of(total: u64, per_page: u64) -> int {
    if total == 0 {
        1
    } else {
        (total + per_page - 1) / (per_page as int)
    }
}

impl<T> Paginated<T> {
    /// The page's metadata.
    pub fn meta(&self) -> (m: PaginationMeta)
        requires
            self.pagination.per_page > 0 || self.total == 0,
        ensures
            m.current_page == self.pagination.page,
            m.per_page == self.pagination.per_page,
            m.total == self.total,
            m.last_page == last_page_of(self.total, self.pagination.per_page),
    {
        let per_page = self.pagination.per_page;
        let last_page = if self.total == 0 {
            1
        } else {
            let q = self.total / per_page;
            let extra: u64 = if self.total % per_page == 0 { 0 } else { 1 };
            proof {
                assert(q * per_page + self.total % per_page == self.total) by (nonlinear_arith)
                    requires
                        q == self.total / per_page,
                        per_page > 0,
                ;
                assert((self.total + per_page - 1) / (per_page as int) == q + extra) by (nonlinear_arith)
                    requires
                        q == self.total / per_page,
                        per_page > 0,
                        q * per_page + self.total % per_page == self.total,
                        0 <= self.total % per_page < per_page,
                        extra == (if self.total % per_page == 0 { 0int } else { 1int }),
                ;
                assert(q <= self.total) by (nonlinear_arith)
                    requires
                        q == self.total / per_page,
                        per_page > 0,
                ;
                assert(extra == 1 ==> q < self.total) by (nonlinear_arith)
                    requires
                        q * per_page + self.total % per_page == self.total,
                        extra == (if self.total % per_page == 0 { 0int } else { 1int }),
                        per_page > 0,
                        q >= 0,
                ;
            }
            q + extra
        };
        PaginationMeta { current_page: self.pagination.page, per_page, total: self.total, last_page }
    }

    /// Links to the pages around this one, on `base_url`.
    pub fn links(&self, base_url: &str) -> (l: PaginationLinks)
        requires
            self.pagination.per_page > 0 || self.total == 0,
        ensures
            links_match(l, self.pagination.page, self.pagination.per_page,
                last_page_of(self.total, self.pagination.per_page), base_url@),
    {
        let meta = self.meta();
        pagination_links_from_meta(&meta, base_url)
    }

    /// The response for this page, borrowing its rows.
    pub fn to_response(&self, base_url: &str) -> (r: PaginatedResponse<&T>)
        requires
            self.pagination.per_page > 0 || self.total == 0,
        ensures
            r.meta.current_page == self.pagination.page,
            r.meta.per_page == self.pagination.per_page,
            r.meta.total == self.total,
            r.meta.last_page == last_page_of(self.total, self.pagination.per_page),
            links_match(r.links, self.pagination.page, self.pagination.per_page,
                last_page_of(self.total, self.pagination.per_page), base_url@),
            r.data@.len() == self.data@.len(),
            forall|i: int| 0 <= i < self.data@.len() ==> *(#[trigger] r.data@[i]) == self.data@[i],
    {
        let meta = self.meta();
        let links = pagination_links_from_meta(&meta, base_url);
        let mut data: Vec<&T> = Vec::new();
        let mut i: usize = 0;
        while i < self.data.len()
            invariant
                i <= self.data@.len(),
                data@.len() == i,
                forall|j: int| 0 <= j < i ==> *(#[trigger] data@[j]) == self.data@[j],
            decreases self.data@.len() - i,
        {
            data.push(&self.data[i]);
            i = i + 1;
        }
        PaginatedResponse { data, meta, links }
    }

    /// The response for this page, each row mapped by `map_item`.
    pub fn map_response<R, F: Fn(&T) -> R>(&self, base_url: &str, map_item: F) -> (r: PaginatedResponse<R>)
        requires
            self.pagination.per_page > 0 || self.total == 0,
            forall|x: &T| #[trigger] map_item.requires((x,)),
        ensures
            r.meta.current_page == self.pagination.page,
            r.meta.per_page == self.pagination.per_page,
            r.meta.total == self.total,
            r.meta.last_page == last_page_of(self.total, self.pagination.per_page),
            links_match(r.links, self.pagination.page, self.pagination.per_page,
                last_page_of(self.total, self.pagination.per_page), base_url@),
            r.data.len() == self.data.len(),
            forall|i: int| 0 <= i < self.data.len() ==> map_item.ensures((&self.data@[i],), #[trigger] r.data@[i]),
    {
        let meta = self.meta();
        let links = pagination_links_from_meta(&meta, base_url);
        let mut data: Vec<R> = Vec::new();
        let mut i: usize = 0;
        while i < self.data.len()
            invariant
                i <= self.data.len(),
                data.len() == i,
                forall|x: &T| #[trigger] map_item.requires((x,)),
                forall|j: int| 0 <= j < i ==> map_item.ensures((&self.data@[j],), #[trigger] data@[j]),
            decreases self.data.len() - i,
        {
            let item = map_item(&self.data[i]);
            data.push(item);
            i = i + 1;
        }
        PaginatedResponse { data, meta, links }
    }
}

/// The links of a page: the next page while it is before the last, the
/// previous page while it is after the first.
pub open spec fn links_match(l: PaginationLinks, current: u64, per_page: u64, last: int, base: Seq<char>) -> bool {
    &&& (if current < last {
        l.next matches Some(n) && n@ == page_link(base, (current + 1) as nat, per_page as nat)
    } else {
        l.next is None
    })
    &&& (if current > 1 {
        l.prev matches Some(p) && p@ == page_link(base, (current - 1) as nat, per_page as nat)
    } else {
        l.prev is None
    })
}

/// The links for the metadata of a page.
pub fn pagination_links_from_meta(meta: &PaginationMeta, base_url: &str) -> (l: PaginationLinks)
    ensures
        links_match(l, meta.current_page, meta.per_page, meta.last_page as int, base_url@),
{
    let next = if meta.current_page < meta.last_page {
        Some(pagination_link(base_url, meta.current_page + 1, meta.per_page))
    } else {
        None
    };
    let prev = if meta.current_page > 1 {
        Some(pagination_link(base_url, meta.current_page - 1, meta.per_page))
    } else {
        None
    };
    PaginationLinks { next, prev }
}

/// `s` cut at its first `c`: the text before it and, when `c` occurs, the
/// text after it.
pub open spec fn split_first(s: Seq<char>, c: char) -> (Seq<char>, Option<Seq<char>>) {
    let k = first_index(s, c) as int;
    if k < s.len() {
        (s.subrange(0, k), Some(s.subrange(k + 1, s.len() as int)))
    } else {
        (s, None)
    }
}

/// A query parameter is kept unless it is empty or names `page` or
/// `per_page`.
pub open spec fn keep_param(p: Seq<char>) -> bool {
    let key = split_first(p, '=').0;
    p.len() > 0 && key != "page"@ && key != "per_page"@
}

/// The kept `&`-separated parameters of a query, each followed by `&`.
pub open spec fn kept_params(q: Seq<char>) -> Seq<char>
    decreases q.len(),
{
    let k = first_index(q, '&') as int;
    let part = q.subrange(0, k);
    let head = if keep_param(part) { part + "&"@ } else { Seq::empty() };
    if k < q.len() {
        proof {
            lemma_first_index_bound(q, '&');
        }
        head + kept_params(q.subrange(k + 1, q.len() as int))
    } else {
        head
    }
}

/// The link to `page` of `per_page` rows on `base`: its path, its other
/// query parameters, then `page` and `per_page`, and its fragment.
pub open spec fn page_link(base: Seq<char>, page: nat, per_page: nat) -> Seq<char> {
    let (b, fragment) = split_first(base, '#');
    let (path, query) = split_first(b, '?');
    let q = match query {
        Some(q) => q,
        None => Seq::empty(),
    };
    let query = kept_params(q) + "page="@ + dec(page) + "&per_page="@ + dec(per_page);
    match fragment {
        Some(f) => path + "?"@ + query + "#"@ + f,
        None => path + "?"@ + query,
    }
}

/// Whether `v[from..to]` is the text `lit`.
fn range_is(v: &Vec<char>, from: usize, to: usize, lit: &str) -> (b: bool)
    requires
        from <= to <= v.len(),
    ensures
        b == (v@.subrange(from as int, to as int) == lit@),
{
    let n = lit.unicode_len();
    if to - from != n {
        return false;
    }
    let ghost a = v@.subrange(from as int, to as int);
    let mut i: usize = 0;
    while i < n
        invariant
            n == lit@.len(),
            to - from == n,
            from <= to <= v.len(),
            i <= n,
            a == v@.subrange(from as int, to as int),
            forall|j: int| 0 <= j < i ==> #[trigger] a[j] == lit@[j],
        decreases n - i,
    {
        if v[from + i] != lit.get_char(i) {
            proof {
                assert(a[i as int] != lit@[i as int]);
            }
            return false;
        }
        proof {
            assert(a[i as int] == lit@[i as int]);
        }
        i = i + 1;
    }
    proof {
        assert(a =~= lit@);
    }
    true
}

/// Appends the kept parameters of `v[from..to]`.
fn push_kept_params(out: &mut String, v: &Vec<char>, from: usize, to: usize)
    requires
        from <= to <= v.len(),
    ensures
        final(out)@ == old(out)@ + kept_params(v@.subrange(from as int, to as int)),
    decreases to - from,
{
    let ghost q = v@.subrange(from as int, to as int);
    let k = find_char(v, '&', from, to);
    let e = find_char(v, '=', from, k);
    proof {
        assert(q.subrange(0, k - from) =~= v@.subrange(from as int, k as int));
        let part = v@.subrange(from as int, k as int);
        let fk = first_index(part, '=') as int;
        lemma_first_index_bound(part, '=');
        assert(split_first(part, '=').0 =~= v@.subrange(from as int, e as int));
    }
    let keep = k > from && !range_is(v, from, e, "page") && !range_is(v, from, e, "per_page");
    let ghost o0 = out@;
    if keep {
        let part = string_of(v, from, k);
        out.append(part.as_str());
        out.append("&");
    }
    if k < to {
        proof {
            assert(q.subrange(k - from + 1, q.len() as int) =~= v@.subrange(k + 1, to as int));
        }
        push_kept_params(out, v, k + 1, to);
    }
    proof {
        assert(out@ =~= o0 + kept_params(q));
    }
}

/// The link to `page` of `per_page` rows on `base_url`: its existing
/// `page` and `per_page` parameters are replaced and its other parameters
/// and fragment kept.
pub fn pagination_link(base_url: &str, page: u64, per_page: u64) -> (r: String)
    ensures
        r@ == page_link(base_url@, page as nat, per_page as nat),
{
    let v = chars_of(base_url);
    let ghost s = v@;
    let h = find_char(&v, '#', 0, v.len());
    let qm = find_char(&v, '?', 0, h);
    proof {
        assert(s.subrange(0, s.len() as int) =~= s);
        assert(s.subrange(0, h as int).subrange(0, qm as int) =~= s.subrange(0, qm as int));
    }
    let mut out = string_of(&v, 0, qm);
    out.append("?");
    let ghost o1 = out@;
    if qm < h {
        push_kept_params(&mut out, &v, qm + 1, h);
        proof {
            assert(s.subrange(0, h as int).subrange(qm + 1, h as int) =~= s.subrange(qm + 1, h as int));
        }
    } else {
        proof {
            assert(Seq::<char>::empty().len() == 0);
            assert(kept_params(Seq::<char>::empty()) =~= Seq::<char>::empty()) by {
                assert(Seq::<char>::empty().subrange(0, 0) =~= Seq::<char>::empty());
            }
            assert(out@ =~= o1 + kept_params(Seq::<char>::empty()));
        }
    }
    out.append("page=");
    push_decimal(&mut out, page);
    out.append("&per_page=");
    push_decimal(&mut out, per_page);
    if h < v.len() {
        out.append("#");
        let fragment = string_of(&v, h + 1, v.len());
        out.append(fragment.as_str());
    }
    proof {
        assert(out@ =~= page_link(s, page as nat, per_page as nat));
    }
    out
}

/// The pages up to the last one hold every row, and only an empty result
/// has an empty last page (it is then the first page).
pub proof fn law_last_page_covers_rows(total: u64, per_page: u64)
    requires
        per_page > 0,
    ensures
        last_page_of(total, per_page) >= 1,
        total <= last_page_of(total, per_page) * per_page,
        total > 0 ==> (last_page_of(total, per_page) - 1) * per_page < total,
{
    if total > 0 {
        let q = (total + per_page - 1) / (per_page as int);
        assert(q * per_page <= total + per_page - 1 < q * per_page + per_page) by (nonlinear_arith)
            requires
                q == (total + per_page - 1) / (per_page as int),
                per_page > 0,
        ;
        assert(q >= 1) by (nonlinear_arith)
            requires
                q * per_page + per_page > total + per_page - 1,
                total > 0,
                per_page > 0,
        ;
        assert((q - 1) * per_page == q * per_page - per_page) by (nonlinear_arith);
    }
}

proof fn lemma_dec_digits(n: nat)
    ensures
        forall|i: int| 0 <= i < dec(n).len() ==> is_ascii_digit(#[trigger] dec(n)[i]),
    decreases n,
{
    if n >= 10 {
        lemma_dec_digits(n / 10);
        let p = dec(n / 10);
        assert(dec(n) == p.push(digit_char(n % 10)));
        assert forall|i: int| 0 <= i < dec(n).len() implies is_ascii_digit(#[trigger] dec(n)[i]) by {
            if i < p.len() {
                assert(dec(n)[i] == p[i]);
            }
        }
    }
}

proof fn lemma_kept_params_avoids(q: Seq<char>, c: char)
    requires
        c != '&',
        forall|i: int| 0 <= i < q.len() ==> q[i] != c,
    ensures
        forall|i: int| 0 <= i < kept_params(q).len() ==> kept_params(q)[i] != c,
    decreases q.len(),
{
    reveal_strlit("&");
    lemma_first_index_bound(q, '&');
    let k = first_index(q, '&') as int;
    let part = q.subrange(0, k);
    let head = if keep_param(part) { part + "&"@ } else { Seq::empty() };
    assert forall|i: int| 0 <= i < head.len() implies head[i] != c by {
        if i < part.len() {
            assert(head[i] == q[i]);
        }
    }
    if k < q.len() {
        let rest = q.subrange(k + 1, q.len() as int);
        lemma_kept_params_avoids(rest, c);
        assert forall|i: int| 0 <= i < kept_params(q).len() implies kept_params(q)[i] != c by {
            assert(kept_params(q) == head + kept_params(rest));
            if i >= head.len() {
                assert(kept_params(q)[i] == kept_params(rest)[i - head.len()]);
            }
        }
    }
}

/// The kept parameters of a parameter followed by `&` and more text.
proof fn lemma_kept_params_step(part: Seq<char>, r: Seq<char>)
    requires
        forall|i: int| 0 <= i < part.len() ==> part[i] != '&',
    ensures
        kept_params(part + "&"@ + r) == (if keep_param(part) { part + "&"@ } else { Seq::empty() })
            + kept_params(r),
{
    reveal_strlit("&");
    let s = part + "&"@ + r;
    assert forall|j: int| 0 <= j < part.len() implies s[j] != '&' by {
        assert(s[j] == part[j]);
    }
    assert(s[part.len() as int] == '&');
    crate::ast::lemma_first_index_prefix(s, '&', part.len() as int);
    assert(s.subrange(0, part.len() as int) =~= part);
    assert(s.subrange(part.len() as int + 1, s.len() as int) =~= r);
}

/// Parameters already kept are kept again, in front of whatever follows.
proof fn lemma_kept_params_append(q: Seq<char>, t: Seq<char>)
    ensures
        kept_params(kept_params(q) + t) == kept_params(q) + kept_params(t),
    decreases q.len(),
{
    reveal_strlit("&");
    lemma_first_index_bound(q, '&');
    let k = first_index(q, '&') as int;
    let part = q.subrange(0, k);
    assert forall|i: int| 0 <= i < part.len() implies part[i] != '&' by {
        assert(part[i] == q[i]);
    }
    if k < q.len() {
        let rest = q.subrange(k + 1, q.len() as int);
        lemma_kept_params_append(rest, t);
        if keep_param(part) {
            assert(kept_params(q) == part + "&"@ + kept_params(rest));
            assert(kept_params(q) + t =~= part + "&"@ + (kept_params(rest) + t));
            lemma_kept_params_step(part, kept_params(rest) + t);
            assert(kept_params(kept_params(q) + t) =~= part + "&"@ + (kept_params(rest) + kept_params(t)));
            assert(kept_params(q) + kept_params(t) =~= part + "&"@ + (kept_params(rest) + kept_params(t)));
        } else {
            assert(kept_params(q) =~= kept_params(rest));
        }
    } else {
        assert(part =~= q);
        if keep_param(part) {
            assert(kept_params(q) == q + "&"@);
            lemma_kept_params_step(q, t);
            assert(kept_params(kept_params(q) + t) =~= q + "&"@ + kept_params(t));
        } else {
            assert(kept_params(q) =~= Seq::<char>::empty());
            assert(kept_params(q) + t =~= t);
            assert(kept_params(q) + kept_params(t) =~= kept_params(t));
        }
    }
}

/// The page parameters that a link writes are never kept.
proof fn lemma_page_params_dropped(page: nat, per_page: nat)
    ensures
        kept_params("page="@ + dec(page) + "&per_page="@ + dec(per_page)) == Seq::<char>::empty(),
{
    reveal_strlit("page=");
    reveal_strlit("&per_page=");
    reveal_strlit("per_page=");
    reveal_strlit("page");
    reveal_strlit("per_page");
    reveal_strlit("&");
    lemma_dec_digits(page);
    lemma_dec_digits(per_page);
    let part1 = "page="@ + dec(page);
    let part2 = "per_page="@ + dec(per_page);
    assert forall|i: int| 0 <= i < part1.len() implies part1[i] != '&' by {
        if i >= 5 {
            assert(part1[i] == dec(page)[i - 5]);
        }
    }
    assert forall|i: int| 0 <= i < part2.len() implies part2[i] != '&' by {
        if i >= 9 {
            assert(part2[i] == dec(per_page)[i - 9]);
        }
    }
    assert("page="@ + dec(page) + "&per_page="@ + dec(per_page) =~= part1 + "&"@ + part2);
    lemma_kept_params_step(part1, part2);
    crate::ast::lemma_first_index_prefix(part1, '=', 4);
    assert(split_first(part1, '=').0 =~= "page"@);
    crate::ast::lemma_first_index_prefix(part2, '&', part2.len() as int);
    crate::ast::lemma_first_index_prefix(part2, '=', 8);
    assert(split_first(part2, '=').0 =~= "per_page"@);
    assert(part2.subrange(0, part2.len() as int) =~= part2);
    assert(kept_params(part2) =~= Seq::<char>::empty());
}

/// A link replaces the page parameters of its base and keeps its path, its
/// other parameters and its fragment, so a link made from a link is the
/// link made from the first base.
pub proof fn law_page_link_relinks(base: Seq<char>, page: nat, per_page: nat, page2: nat, per_page2: nat)
    ensures
        page_link(page_link(base, page, per_page), page2, per_page2) == page_link(base, page2, per_page2),
{
    reveal_strlit("page=");
    reveal_strlit("&per_page=");
    reveal_strlit("?");
    reveal_strlit("#");
    lemma_dec_digits(page);
    lemma_dec_digits(per_page);
    let kb = first_index(base, '#') as int;
    lemma_first_index_bound(base, '#');
    let b = split_first(base, '#').0;
    let fragment = split_first(base, '#').1;
    assert forall|i: int| 0 <= i < b.len() implies b[i] != '#' by {
        if kb < base.len() {
            assert(b[i] == base[i]);
        }
    }
    let kp = first_index(b, '?') as int;
    lemma_first_index_bound(b, '?');
    let path = split_first(b, '?').0;
    let q = match split_first(b, '?').1 {
        Some(q) => q,
        None => Seq::empty(),
    };
    assert forall|i: int| 0 <= i < path.len() implies path[i] != '#' && path[i] != '?' by {
        if kp < b.len() {
            assert(path[i] == b[i]);
        }
    }
    assert forall|i: int| 0 <= i < q.len() implies q[i] != '#' by {
        if kp < b.len() {
            assert(q[i] == b[kp + 1 + i]);
        }
    }
    lemma_kept_params_avoids(q, '#');
    let kq = kept_params(q);
    let t = "page="@ + dec(page) + "&per_page="@ + dec(per_page);
    let big_q = kq + t;
    assert(kq + "page="@ + dec(page) + "&per_page="@ + dec(per_page) =~= big_q);
    assert forall|i: int| 0 <= i < big_q.len() implies big_q[i] != '#' by {
        if i >= kq.len() {
            let j = i - kq.len();
            if j >= 5 && j < 5 + dec(page).len() {
                assert(big_q[i] == dec(page)[j - 5]);
            } else if j >= 15 + dec(page).len() {
                assert(big_q[i] == dec(per_page)[j - 15 - dec(page).len()]);
            }
        }
    }
    let b2 = path + "?"@ + big_q;
    assert forall|j: int| 0 <= j < b2.len() implies b2[j] != '#' by {
        if j > path.len() {
            assert(b2[j] == big_q[j - path.len() - 1]);
        }
    }
    let link = page_link(base, page, per_page);
    match fragment {
        Some(f) => {
            assert(link =~= b2 + "#"@ + f);
            assert(link[b2.len() as int] == '#');
            assert forall|j: int| 0 <= j < b2.len() implies link[j] != '#' by {
                assert(link[j] == b2[j]);
            }
            crate::ast::lemma_first_index_prefix(link, '#', b2.len() as int);
            assert(link.subrange(0, b2.len() as int) =~= b2);
            assert(link.subrange(b2.len() as int + 1, link.len() as int) =~= f);
        },
        None => {
            assert(link =~= b2);
            crate::ast::lemma_first_index_prefix(link, '#', link.len() as int);
            assert(link.subrange(0, link.len() as int) =~= link);
        },
    }
    assert(split_first(link, '#').0 == b2);
    assert(split_first(link, '#').1 == fragment);
    assert forall|j: int| 0 <= j < path.len() implies b2[j] != '?' by {
        assert(b2[j] == path[j]);
    }
    assert(b2[path.len() as int] == '?');
    crate::ast::lemma_first_index_prefix(b2, '?', path.len() as int);
    assert(b2.subrange(0, path.len() as int) =~= path);
    assert(b2.subrange(path.len() as int + 1, b2.len() as int) =~= big_q);
    lemma_kept_params_append(q, t);
    lemma_page_params_dropped(page, per_page);
    assert(kept_params(big_q) =~= kq);
}

// ---------------------------------------------------------------------------
// Query parameters
// ---------------------------------------------------------------------------

pub open spec fn digit_value(c: char) -> nat {
    ((c as u32) - ('0' as u32)) as nat
}

/// The value of a run of decimal digits.
pub open spec fn digits_value(s: Seq<char>) -> nat
    decreases s.len(),
{
    if s.len() == 0 {
        0
    } else {
        digits_value(s.drop_last()) * 10 + digit_value(s.last())
    }
}

/// What `str::parse::<u64>` accepts: an optional `+` and then decimal
/// digits whose value fits in 64 bits.
pub open spec fn parse_u64_spec(s: Seq<char>) -> Option<u64> {
    let d = if s.len() > 0 && s[0] == '+' { s.subrange(1, s.len() as int) } else { s };
    if d.len() > 0 && all_digits(d) && digits_value(d) <= u64::MAX {
        Some(digits_value(d) as u64)
    } else {
        None
    }
}

proof fn lemma_digits_value_grows(s: Seq<char>, c: char)
    requires
        is_ascii_digit(c),
    ensures
        digits_value(s.push(c)) >= digits_value(s),
        digits_value(s.push(c)) == digits_value(s) * 10 + digit_value(c),
{
    assert(s.push(c).drop_last() =~= s);
}

proof fn lemma_digits_value_prefix(s: Seq<char>, i: int)
    requires
        0 <= i <= s.len(),
        all_digits(s),
    ensures
        digits_value(s.subrange(0, i)) <= digits_value(s),
    decreases s.len() - i,
{
    if i < s.len() {
        lemma_digits_value_prefix(s, i + 1);
        assert(s.subrange(0, i + 1) =~= s.subrange(0, i).push(s[i]));
        lemma_digits_value_grows(s.subrange(0, i), s[i]);
    } else {
        assert(s.subrange(0, i) =~= s);
    }
}

/// `str::parse::<u64>`.
pub fn parse_u64(text: &str) -> (r: Option<u64>)
    ensures
        r == parse_u64_spec(text@),
{
    let v = chars_of(text);
    let ghost s = v@;
    let start: usize = if v.len() > 0 && v[0] == '+' { 1 } else { 0 };
    let ghost d = s.subrange(start as int, s.len() as int);
    proof {
        assert(d =~= (if s.len() > 0 && s[0] == '+' { s.subrange(1, s.len() as int) } else { s }));
    }
    if start == v.len() {
        return None;
    }
    let mut value: u64 = 0;
    let mut i = start;
    proof {
        assert(d.subrange(0, 0) =~= Seq::<char>::empty());
    }
    while i < v.len()
        invariant
            s == v@,
            s == text@,
            start <= i <= v.len(),
            start < v.len(),
            d == (if s.len() > 0 && s[0] == '+' { s.subrange(1, s.len() as int) } else { s }),
            d == s.subrange(start as int, s.len() as int),
            forall|j: int| start <= j < i ==> is_ascii_digit(#[trigger] s[j]),
            value == digits_value(d.subrange(0, i - start)),
        decreases v.len() - i,
    {
        let c = v[i];
        if !('0' <= c && c <= '9') {
            proof {
                assert(d[i - start] == c);
                assert(!is_ascii_digit(d[i - start]));
                assert(!all_digits(d));
            }
            return None;
        }
        let digit: u64 = (c as u32 - '0' as u32) as u64;
        proof {
            assert(d.subrange(0, i - start + 1) =~= d.subrange(0, i - start).push(c));
            lemma_digits_value_grows(d.subrange(0, i - start), c);
        }
        if value > (u64::MAX - digit) / 10 {
            proof {
                assert(value * 10 + digit > u64::MAX) by (nonlinear_arith)
                    requires
                        value > (u64::MAX - digit) / 10,
                        digit <= 9,
                ;
                assert(digit == digit_value(c));
                assert(digits_value(d.subrange(0, i - start + 1)) == value * 10 + digit);
                if all_digits(d) {
                    lemma_digits_value_prefix(d, i - start + 1);
                    assert(digits_value(d) > u64::MAX);
                }
            }
            return None;
        }
        value = value * 10 + digit;
        i = i + 1;
    }
    proof {
        assert(d.subrange(0, i - start) =~= d);
        assert forall|j: int| 0 <= j < d.len() implies is_ascii_digit(#[trigger] d[j]) by {
            assert(d[j] == s[start + j]);
        }
    }
    Some(value)
}


/// The message for a `page` or `per_page` value that is not an unsigned
/// integer.
pub open spec fn invalid_value_message(field: Seq<char>, value: Seq<char>) -> Seq<char> {
    "invalid pagination query parameter `"@ + field + "`: expected unsigned integer, got `"@
        + value + "`"@
}

/// Parses a `page` or `per_page` value; a value that is not an unsigned
/// integer is a client error (400, `invalid_pagination`).
pub fn parse_pagination_query_value(field: &str, value: &str) -> (r: Result<u64, Error>)
    ensures
        match parse_u64_spec(value@) {
            Some(n) => r == Ok::<u64, Error>(n),
            None => r matches Err(e) && e@ == invalid_value_message(field@, value@)
                && e.status == Some(400u16) && (e.code matches Some(c) && c@ == "invalid_pagination"@),
        },
{
    match parse_u64(value) {
        Some(n) => Ok(n),
        None => {
            let mut m = owned("invalid pagination query parameter `");
            m.append(field);
            m.append("`: expected unsigned integer, got `");
            m.append(value);
            m.append("`");
            Err(Error::http_with_code(400, m, "invalid_pagination"))
        },
    }
}

/// The `page` and `per_page` values found in the pairs from index `i` on,
/// starting from `page` and `per_page`; a later pair overrides an earlier
/// one and the first invalid value is an error.
pub open spec fn query_fields(
    pairs: Seq<(Seq<char>, Seq<char>)>,
    i: int,
    page: Option<u64>,
    per_page: Option<u64>,
) -> Result<(Option<u64>, Option<u64>), Seq<char>>
    decreases pairs.len() - i,
{
    if i < 0 || i >= pairs.len() {
        Ok((page, per_page))
    } else {
        let (key, value) = pairs[i];
        if key == "page"@ {
            match parse_u64_spec(value) {
                Some(n) => query_fields(pairs, i + 1, Some(n), per_page),
                None => Err(invalid_value_message("page"@, value)),
            }
        } else if key == "per_page"@ {
            match parse_u64_spec(value) {
                Some(n) => query_fields(pairs, i + 1, page, Some(n)),
                None => Err(invalid_value_message("per_page"@, value)),
            }
        } else {
            query_fields(pairs, i + 1, page, per_page)
        }
    }
}

pub open spec fn pair_views(pairs: Seq<(String, String)>) -> Seq<(Seq<char>, Seq<char>)> {
    pairs.map_values(|p: (String, String)| (p.0@, p.1@))
}

/// The page request of decoded query pairs.
pub open spec fn pairs_pagination(pairs: Seq<(Seq<char>, Seq<char>)>, default_per_page: u64) -> Result<Pagination, Seq<char>> {
    match query_fields(pairs, 0, None, None) {
        Ok((page, per_page)) => Ok(Pagination::options_spec(page, per_page, default_per_page)),
        Err(m) => Err(m),
    }
}

/// The page request of the decoded pairs of a query string: `page` and
/// `per_page` are read, other parameters ignored.
pub fn pagination_from_pairs(pairs: &Vec<(String, String)>, default_per_page: u64) -> (r: Result<Pagination, Error>)
    ensures
        match pairs_pagination(pair_views(pairs@), default_per_page) {
            Ok(p) => r == Ok::<Pagination, Error>(p),
            Err(m) => r matches Err(e) && e@ == m && e.status == Some(400u16)
                && (e.code matches Some(c) && c@ == "invalid_pagination"@),
        },
{
    let ghost pv = pair_views(pairs@);
    let mut page: Option<u64> = None;
    let mut per_page: Option<u64> = None;
    let mut i: usize = 0;
    while i < pairs.len()
        invariant
            i <= pairs.len(),
            pv == pair_views(pairs@),
            query_fields(pv, i as int, page, per_page) == query_fields(pv, 0, None, None),
        decreases pairs.len() - i,
    {
        let key = &pairs[i].0;
        let value = &pairs[i].1;
        proof {
            assert(pv[i as int] == (key@, value@));
        }
        if str_is(key.as_str(), "page") {
            match parse_pagination_query_value("page", value.as_str()) {
                Ok(n) => {
                    page = Some(n);
                },
                Err(e) => {
                    return Err(e);
                },
            }
        } else if str_is(key.as_str(), "per_page") {
            match parse_pagination_query_value("per_page", value.as_str()) {
                Ok(n) => {
                    per_page = Some(n);
                },
                Err(e) => {
                    return Err(e);
                },
            }
        }
        i = i + 1;
    }
    Ok(Pagination::from_options_with_default_per_page(page, per_page, default_per_page))
}

/// Whether a text is `lit`.
fn str_is(s: &str, lit: &str) -> (b: bool)
    ensures
        b == (s@ == lit@),
{
    let n = s.unicode_len();
    if n != lit.unicode_len() {
        return false;
    }
    let mut i: usize = 0;
    while i < n
        invariant
            n == s@.len(),
            n == lit@.len(),
            i <= n,
            forall|j: int| 0 <= j < i ==> #[trigger] s@[j] == lit@[j],
        decreases n - i,
    {
        if s.get_char(i) != lit.get_char(i) {
            return false;
        }
        i = i + 1;
    }
    proof {
        assert(s@ =~= lit@);
    }
    true
}

/// The decoded name and value pairs that `url::form_urlencoded::parse`
/// yields for a query text, in order.
pub uninterp spec fn form_pairs(query: Seq<char>) -> Seq<(Seq<char>, Seq<char>)>;

/// `url::form_urlencoded::parse`: the contract names its pairs and says
/// nothing of how the text is split and decoded.
#[verifier::external_body]
fn parse_form_pairs(query: &str) -> (r: Vec<(String, String)>)
    ensures
        pair_views(r@) == form_pairs(query@),
{
    url::form_urlencoded::parse(query.as_bytes()).map(|(k, v)| (k.into_owned(), v.into_owned())).collect()
}

/// The page request of a request's query string: page one and
/// `default_per_page` rows unless the query sets them.
pub fn pagination_from_query(query: Option<&str>, default_per_page: u64) -> (r: Result<Pagination, Error>)
    ensures
        match query {
            None => r == Ok::<Pagination, Error>(Pagination::options_spec(None, None, default_per_page)),
            Some(q) => match pairs_pagination(form_pairs(q@), default_per_page) {
                Ok(p) => r == Ok::<Pagination, Error>(p),
                    Err(m) => r matches Err(e) && e@ == m && e.status == Some(400u16)
                    && (e.code matches Some(c) && c@ == "invalid_pagination"@),
            },
        },
{
    match query {
        None => Ok(Pagination::from_options_with_default_per_page(None, None, default_per_page)),
        Some(q) => {
            let pairs = parse_form_pairs(q);
            pagination_from_pairs(&pairs, default_per_page)
        },
    }
}

// ---------------------------------------------------------------------------
// Cursor pagination
// ---------------------------------------------------------------------------

/// A cursor page request: the cursors to start after or end before, and
/// the page size.
#[derive(Clone, Debug, PartialEq, Eq)]
pub struct CursorPagination {
    pub after: Option<String>,
    pub before: Option<String>,
    pub per_page: u64,
}

impl CursorPagination {
    /// A first page of `per_page` rows (at least one).
    pub fn new(per_page: u64) -> (r: Self)
        ensures
            r.after is None,
            r.before is None,
            r.per_page == at_least_one(per_page),
    {
        CursorPagination { after: None, before: None, per_page: if per_page < 1 { 1 } else { per_page } }
    }

    /// The same request, starting after `cursor`.
    pub fn after(self, cursor: &str) -> (r: Self)
        ensures
            r.after matches Some(c) && c@ == cursor@,
            r.before == self.before,
            r.per_page == self.per_page,
    {
        CursorPagination { after: Some(owned(cursor)), before: self.before, per_page: self.per_page }
    }

    /// The same request, ending before `cursor`.
    pub fn before(self, cursor: &str) -> (r: Self)
        ensures
            r.after == self.after,
            r.before matches Some(c) && c@ == cursor@,
            r.per_page == self.per_page,
    {
        CursorPagination { after: self.after, before: Some(owned(cursor)), per_page: self.per_page }
    }
}

/// Whether there are rows after and before a cursor page.
#[derive(Clone, Copy, Debug, PartialEq, Eq, Structural)]
pub struct CursorMeta {
    pub has_next: bool,
    pub has_prev: bool,
    pub per_page: u64,
}

/// The cursors of the pages around a cursor page.
#[derive(Clone, Debug, PartialEq, Eq)]
pub struct CursorInfo {
    pub next: Option<String>,
    pub prev: Option<String>,
}

/// A cursor page of results.
#[derive(Debug)]
pub struct CursorPaginated<T> {
    pub data: Vec<T>,
    pub meta: CursorMeta,
    pub cursors: CursorInfo,
}

/// The character of a 6-bit value in the URL-safe base64 alphabet
/// (RFC 4648, section 5): `A`-`Z`, `a`-`z`, `0`-`9`, `-` and `_`.
pub open spec fn base64_url_char(v: int) -> char {
    if v < 26 {
        ('A' as int + v) as char
    } else if v < 52 {
        ('a' as int + (v - 26)) as char
    } else if v < 62 {
        ('0' as int + (v - 52)) as char
    } else if v == 62 {
        '-'
    } else {
        '_'
    }
}

/// URL-safe base64 of bytes without padding: each group of three bytes
/// gives four characters, a last group of one or two bytes gives two or
/// three.
pub open spec fn base64_url(bytes: Seq<u8>) -> Seq<char>
    decreases bytes.len(),
{
    let b0 = if bytes.len() > 0 { bytes[0] as int } else { 0 };
    let b1 = if bytes.len() > 1 { bytes[1] as int } else { 0 };
    let b2 = if bytes.len() > 2 { bytes[2] as int } else { 0 };
    if bytes.len() == 0 {
        Seq::empty()
    } else if bytes.len() == 1 {
        seq![base64_url_char(b0 / 4), base64_url_char((b0 % 4) * 16)]
    } else if bytes.len() == 2 {
        seq![base64_url_char(b0 / 4), base64_url_char((b0 % 4) * 16 + b1 / 16), base64_url_char((b1 % 16) * 4)]
    } else {
        seq![
            base64_url_char(b0 / 4),
            base64_url_char((b0 % 4) * 16 + b1 / 16),
            base64_url_char((b1 % 16) * 4 + b2 / 64),
            base64_url_char(b2 % 64),
        ] + base64_url(bytes.subrange(3, bytes.len() as int))
    }
}

/// The cursor text of a value: the URL-safe, unpadded base64 of its UTF-8
/// bytes.
pub open spec fn cursor_encoding(text: Seq<char>) -> Seq<char> {
    base64_url(encode_utf8(text))
}

/// What `URL_SAFE_NO_PAD.decode` gives for the UTF-8 bytes of a text: the
/// decoded bytes, or the crate's error message.
pub uninterp spec fn cursor_decoding(text: Seq<char>) -> Result<Seq<u8>, Seq<char>>;

/// Whether a text decodes to `bytes`.
pub open spec fn decodes_to(text: Seq<char>, bytes: Seq<u8>) -> bool {
    cursor_decoding(text) matches Ok(b) && b == bytes
}

/// `base64::engine::general_purpose::URL_SAFE_NO_PAD.encode`: the URL-safe
/// alphabet without padding, as the engine documents, applied to the UTF-8
/// bytes of the text; and decoding it with the same engine gives the bytes
/// back.
#[verifier::external_body]
fn base64_url_encode(text: &str) -> (r: String)
    ensures
        r@ == cursor_encoding(text@),
        decodes_to(r@, encode_utf8(text@)),
{
    URL_SAFE_NO_PAD.encode(text.as_bytes())
}

/// `base64::engine::general_purpose::URL_SAFE_NO_PAD.decode`: the contract
/// names the outcome, the bytes or the error's message.
#[verifier::external_body]
fn base64_url_decode(text: &str) -> (r: Result<Vec<u8>, String>)
    ensures
        r is Ok <==> cursor_decoding(text@) is Ok,
        r matches Ok(bytes) ==> (cursor_decoding(text@) matches Ok(b) && bytes@ == b),
        r matches Err(e) ==> (cursor_decoding(text@) matches Err(m) && e@ == m),
{
    match URL_SAFE_NO_PAD.decode(text.as_bytes()) {
        Ok(bytes) => Ok(bytes),
        Err(error) => Err(error.to_string()),
    }
}

/// What `String::from_utf8` reports for bytes that are not UTF-8.
pub uninterp spec fn utf8_error_text(bytes: Seq<u8>) -> Seq<char>;

/// `String::from_utf8`: as std documents, the text of the bytes exactly
/// when they are valid UTF-8; otherwise the error's message, named.
#[verifier::external_body]
fn utf8_string(bytes: Vec<u8>) -> (r: Result<String, String>)
    ensures
        r is Ok <==> valid_utf8(bytes@),
        r matches Ok(s) ==> s@ == decode_utf8(bytes@),
        r matches Err(e) ==> e@ == utf8_error_text(bytes@),
{
    match String::from_utf8(bytes) {
        Ok(text) => Ok(text),
        Err(error) => Err(error.to_string()),
    }
}

/// The text a cursor stands for, or why it is refused.
pub open spec fn cursor_text(raw: Seq<char>) -> Result<Seq<char>, Seq<char>> {
    match cursor_decoding(raw) {
        Err(m) => Err("invalid cursor: "@ + m),
        Ok(bytes) => if valid_utf8(bytes) {
            Ok(decode_utf8(bytes))
        } else {
            Err("invalid cursor encoding: "@ + utf8_error_text(bytes))
        },
    }
}

/// The text of a cursor: its URL-safe base64 decoding, read as UTF-8.
/// Parsing the text into the cursor column's type is the caller's.
pub fn decode_cursor(raw: &str) -> (r: Result<String, Error>)
    ensures
        match cursor_text(raw@) {
            Ok(t) => r matches Ok(s) && s@ == t,
            Err(m) => r matches Err(e) && e.is_plain() && e@ == m,
        },
{
    match base64_url_decode(raw) {
        Err(m) => {
            let mut message = owned("invalid cursor: ");
            message.append(m.as_str());
            Err(Error::message(message))
        },
        Ok(bytes) => match utf8_string(bytes) {
            Ok(text) => Ok(text),
            Err(m) => {
                let mut message = owned("invalid cursor encoding: ");
                message.append(m.as_str());
                Err(Error::message(message))
            },
        },
    }
}

/// The error for a cursor whose text does not parse as a value of the
/// cursor column's type.
pub fn invalid_cursor_value_error() -> (e: Error)
    ensures
        e.is_plain(),
        e@ == "invalid cursor value"@,
{
    Error::message(owned("invalid cursor value"))
}

/// The side of a cursor that a page starts from.
#[derive(Debug, PartialEq, Eq)]
pub enum CursorBound {
    /// Rows after the cursor's value, ascending.
    After(String),
    /// Rows before the cursor's value, descending.
    Before(String),
}

/// How a cursor page is fetched: its bound (an `after` cursor wins over a
/// `before` one), the order of the cursor column, and one row more than
/// the page, to tell whether another page follows.
#[derive(Debug, PartialEq, Eq)]
pub struct CursorFetch {
    pub bound: Option<CursorBound>,
    pub ascending: bool,
    pub limit: u64,
}

/// The fetch of a cursor page request.
pub fn plan_cursor_fetch(cursor: &CursorPagination) -> (r: CursorFetch)
    requires
        cursor.per_page < u64::MAX,
    ensures
        r.limit == cursor.per_page + 1,
        match cursor.after {
            Some(a) => r.bound matches Some(CursorBound::After(c)) && c@ == a@ && r.ascending,
            None => match cursor.before {
                Some(b) => r.bound matches Some(CursorBound::Before(c)) && c@ == b@ && !r.ascending,
                None => r.bound is None && r.ascending,
            },
        },
{
    let limit = cursor.per_page + 1;
    match &cursor.after {
        Some(a) => CursorFetch { bound: Some(CursorBound::After(a.clone())), ascending: true, limit },
        None => match &cursor.before {
            Some(b) => CursorFetch { bound: Some(CursorBound::Before(b.clone())), ascending: false, limit },
            None => CursorFetch { bound: None, ascending: true, limit },
        },
    }
}

/// The rows a cursor page keeps of what its fetch returned: without the
/// extra row when there is one, and back in ascending order for a request
/// with a `before` cursor.
pub open spec fn cursor_page_rows<T>(cursor: CursorPagination, rows: Seq<T>) -> Seq<T> {
    let kept = if rows.len() > cursor.per_page {
        rows.drop_last()
    } else {
        rows
    };
    if cursor.before is None {
        kept
    } else {
        kept.reverse()
    }
}

/// The page of a cursor request from the rows its fetch returned: a next
/// page follows a forward page with an extra row; a previous page precedes
/// a forward page with an `after` cursor; a `before` page has a next page
/// and has a previous one when it got an extra row. No cursors are set.
pub fn finish_cursor_page<T>(cursor: &CursorPagination, rows: Vec<T>) -> (r: CursorPaginated<T>)
    ensures
        r.data@ == cursor_page_rows(*cursor, rows@),
        r.meta == (CursorMeta {
            has_next: if cursor.before is None {
                rows@.len() > cursor.per_page
            } else {
                true
            },
            has_prev: if cursor.before is None {
                cursor.after is Some
            } else {
                rows@.len() > cursor.per_page
            },
            per_page: cursor.per_page,
        }),
        r.cursors.next is None,
        r.cursors.prev is None,
{
    let ghost all = rows@;
    let mut rows = rows;
    let has_more = rows.len() as u64 > cursor.per_page;
    if has_more {
        rows.pop();
    }
    let forward = cursor.before.is_none();
    let data = if forward {
        rows
    } else {
        let ghost kept = rows@;
        let mut reversed: Vec<T> = Vec::new();
        while rows.len() > 0
            invariant
                rows@ == kept.subrange(0, rows@.len() as int),
                rows@.len() <= kept.len(),
                reversed@ == kept.subrange(rows@.len() as int, kept.len() as int).reverse(),
            decreases rows@.len(),
        {
            let ghost n = rows@.len();
            let item = rows.pop().unwrap();
            proof {
                assert(item == kept[n - 1]);
                assert(rows@ =~= kept.subrange(0, n - 1));
                assert(reversed@.push(item) =~= kept.subrange(n - 1, kept.len() as int).reverse());
            }
            reversed.push(item);
        }
        reversed
    };
    let has_next = if forward { has_more } else { true };
    let has_prev = if forward { cursor.after.is_some() } else { has_more };
    proof {
        if !forward {
            assert(data@ =~= cursor_page_rows(*cursor, all));
        }
    }
    CursorPaginated {
        data,
        meta: CursorMeta { has_next, has_prev, per_page: cursor.per_page },
        cursors: CursorInfo { next: None, prev: None },
    }
}

impl<T> CursorPaginated<T> {
    /// The cursor for a displayed value: its URL-safe base64 encoding,
    /// which `decode_cursor` reads back as the value.
    pub fn encode_cursor(value: &str) -> (r: String)
        ensures
            r@ == cursor_encoding(value@),
            cursor_text(r@) == Ok::<Seq<char>, Seq<char>>(value@),
    {
        let r = base64_url_encode(value);
        proof {
            vstd::utf8::encode_utf8_valid_utf8(value@);
            vstd::utf8::encode_utf8_decode_utf8(value@);
        }
        r
    }

    /// Sets the previous cursor from the first value when there is a
    /// previous page, and the next cursor from the last value when there is
    /// a next page.
    pub fn with_cursors(self, first_value: Option<&str>, last_value: Option<&str>) -> (r: Self)
        ensures
            r.meta == self.meta,
            r.data@ == self.data@,
            self.meta.has_prev ==> match first_value {
                Some(v) => r.cursors.prev matches Some(c) && c@ == cursor_encoding(v@),
                None => r.cursors.prev is None,
            },
            !self.meta.has_prev ==> r.cursors.prev == self.cursors.prev,
            self.meta.has_next ==> match last_value {
                Some(v) => r.cursors.next matches Some(c) && c@ == cursor_encoding(v@),
                None => r.cursors.next is None,
            },
            !self.meta.has_next ==> r.cursors.next == self.cursors.next,
    {
        let CursorPaginated { data, meta, cursors } = self;
        let CursorInfo { next, prev } = cursors;
        let prev = if meta.has_prev {
            match first_value {
                Some(v) => Some(Self::encode_cursor(v)),
                None => None,
            }
        } else {
            prev
        };
        let next = if meta.has_next {
            match last_value {
                Some(v) => Some(Self::encode_cursor(v)),
                None => None,
            }
        } else {
            next
        };
        CursorPaginated { data, meta, cursors: CursorInfo { next, prev } }
    }
}

} // verus!
