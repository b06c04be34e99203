//! The per-request cache of model extension rows (attachments,
//! translations, metadata): which model ids are known per model type, and
//! which rows were loaded for which model id, so that one batched query
//! serves every model of a request.
use vstd::prelude::*;

use crate::ast::DbValue;
use crate::error::Error;
use crate::lifecycle::{sorted_insert, strictly_sorted, views_of};
use crate::record::{uuid_text, DbRecord};
use crate::relation::{basename, relation_basename};
use crate::text::{char_is_whitespace, is_whitespace, owned, seq_lt, str_eq};

verus! {

// ---------------------------------------------------------------------------
// Cache shapes
// ---------------------------------------------------------------------------

/// Which translations a cached load covers.
#[derive(Debug)]
pub enum TranslationCacheShape {
    Single { locale: String, field: String },
    Locale { locale: String },
    Field { field: String },
    All,
}

/// The view of a translation shape.
pub enum TranslationShapeView {
    Single { locale: Seq<char>, field: Seq<char> },
    Locale { locale: Seq<char> },
    Field { field: Seq<char> },
    All,
}

impl View for TranslationCacheShape {
    type V = TranslationShapeView;

    open spec fn view(&self) -> TranslationShapeView {
        match self {
            TranslationCacheShape::Single { locale, field } => TranslationShapeView::Single {
                locale: locale@,
                field: field@,
            },
            TranslationCacheShape::Locale { locale } => TranslationShapeView::Locale { locale: locale@ },
            TranslationCacheShape::Field { field } => TranslationShapeView::Field { field: field@ },
            TranslationCacheShape::All => TranslationShapeView::All,
        }
    }
}

/// Which metadata a cached load covers: one key, or every key.
#[derive(Debug)]
pub enum MetadataCacheShape {
    Key(String),
    All,
}

/// The view of a metadata shape.
pub enum MetadataShapeView {
    Key(Seq<char>),
    All,
}

impl View for MetadataCacheShape {
    type V = MetadataShapeView;

    open spec fn view(&self) -> MetadataShapeView {
        match self {
            MetadataCacheShape::Key(k) => MetadataShapeView::Key(k@),
            MetadataCacheShape::All => MetadataShapeView::All,
        }
    }
}

/// A shape by which cached loads are told apart: comparable and copyable
/// by its view.
pub trait CacheShape: View + Sized {
    fn same_shape(&self, other: &Self) -> (r: bool)
        ensures
            r == (self@ == other@),
    ;

    fn copy_shape(&self) -> (r: Self)
        ensures
            r@ == self@,
    ;
}

/// An attachment load is told apart by its collection name.
impl CacheShape for String {
    fn same_shape(&self, other: &Self) -> (r: bool) {
        str_eq(self.as_str(), other.as_str())
    }

    fn copy_shape(&self) -> (r: Self) {
        self.clone()
    }
}

impl CacheShape for TranslationCacheShape {
    fn same_shape(&self, other: &Self) -> (r: bool) {
        match (self, other) {
            (
                TranslationCacheShape::Single { locale: a, field: b },
                TranslationCacheShape::Single { locale: c, field: d },
            ) => str_eq(a.as_str(), c.as_str()) && str_eq(b.as_str(), d.as_str()),
            (TranslationCacheShape::Locale { locale: a }, TranslationCacheShape::Locale { locale: c }) => str_eq(
                a.as_str(),
                c.as_str(),
            ),
            (TranslationCacheShape::Field { field: a }, TranslationCacheShape::Field { field: c }) => str_eq(
                a.as_str(),
                c.as_str(),
            ),
            (TranslationCacheShape::All, TranslationCacheShape::All) => true,
            _ => false,
        }
    }

    fn copy_shape(&self) -> (r: Self) {
        match self {
            TranslationCacheShape::Single { locale, field } => TranslationCacheShape::Single {
                locale: locale.clone(),
                field: field.clone(),
            },
            TranslationCacheShape::Locale { locale } => TranslationCacheShape::Locale { locale: locale.clone() },
            TranslationCacheShape::Field { field } => TranslationCacheShape::Field { field: field.clone() },
            TranslationCacheShape::All => TranslationCacheShape::All,
        }
    }
}

impl CacheShape for MetadataCacheShape {
    fn same_shape(&self, other: &Self) -> (r: bool) {
        match (self, other) {
            (MetadataCacheShape::Key(a), MetadataCacheShape::Key(b)) => str_eq(a.as_str(), b.as_str()),
            (MetadataCacheShape::All, MetadataCacheShape::All) => true,
            _ => false,
        }
    }

    fn copy_shape(&self) -> (r: Self) {
        match self {
            MetadataCacheShape::Key(k) => MetadataCacheShape::Key(k.clone()),
            MetadataCacheShape::All => MetadataCacheShape::All,
        }
    }
}

// ---------------------------------------------------------------------------
// Loaded rows
// ---------------------------------------------------------------------------

/// The rows loaded for one model id under one model type and shape.
pub struct LoadedRows<S, R> {
    pub model_type: String,
    pub shape: S,
    pub id: String,
    pub rows: Vec<R>,
}

pub open spec fn loads_key<S: View, R>(e: LoadedRows<S, R>, t: Seq<char>, s: S::V, id: Seq<char>) -> bool {
    e.model_type@ == t && e.shape@ == s && e.id@ == id
}

/// The rows of the latest load for a model type, shape and id.
pub open spec fn loaded_rows<S: View, R>(es: Seq<LoadedRows<S, R>>, t: Seq<char>, s: S::V, id: Seq<char>) -> Option<Seq<R>>
    decreases es.len(),
{
    if es.len() == 0 {
        None
    } else if loads_key(es.last(), t, s, id) {
        Some(es.last().rows@)
    } else {
        loaded_rows(es.drop_last(), t, s, id)
    }
}

/// Whether `b` holds clones of the rows of `a`, in order.
pub open spec fn clones_of<R: Clone>(a: Seq<R>, b: Seq<R>) -> bool {
    a.len() == b.len() && forall|i: int| 0 <= i < a.len() ==> cloned::<R>(a[i], b[i])
}

/// Whether a forgetting of `t`, `shape` (any shape when `None`) and `id`
/// covers a load key.
pub open spec fn forgets<V>(t: Seq<char>, shape: Option<V>, id: Seq<char>, t2: Seq<char>, s2: V, id2: Seq<char>) -> bool {
    t2 == t && id2 == id && match shape {
        Some(s) => s2 == s,
        None => true,
    }
}

/// The rows that `id` owns, in order.
pub open spec fn owned_rows<R>(rows: Seq<(String, R)>, id: Seq<char>) -> Seq<R>
    decreases rows.len(),
{
    if rows.len() == 0 {
        Seq::empty()
    } else {
        (if rows[0].0@ == id {
            seq![rows[0].1]
        } else {
            Seq::empty()
        }) + owned_rows(rows.drop_first(), id)
    }
}

/// The index of the first `id` in `ids`, or -1.
pub open spec fn first_index(ids: Seq<Seq<char>>, id: Seq<char>) -> int
    decreases ids.len(),
{
    if ids.len() == 0 {
        -1
    } else if first_index(ids.drop_last(), id) >= 0 {
        first_index(ids.drop_last(), id)
    } else if ids.last() == id {
        ids.len() - 1
    } else {
        -1
    }
}

/// The index of the last `id` in `ids`, or -1.
pub open spec fn last_index(ids: Seq<Seq<char>>, id: Seq<char>) -> int
    decreases ids.len(),
{
    if ids.len() == 0 {
        -1
    } else if ids.last() == id {
        ids.len() - 1
    } else {
        last_index(ids.drop_last(), id)
    }
}

/// The rows a store leaves for an id that it names: the rows the id owns,
/// or none when the id is named more than once (its later mentions find
/// its rows already handed out).
pub open spec fn stored_rows<R>(ids: Seq<Seq<char>>, rows: Seq<(String, R)>, id: Seq<char>) -> Seq<R> {
    if first_index(ids, id) == last_index(ids, id) {
        owned_rows(rows, id)
    } else {
        Seq::empty()
    }
}

proof fn lemma_first_index(ids: Seq<Seq<char>>, id: Seq<char>)
    ensures
        -1 <= first_index(ids, id) < ids.len(),
        first_index(ids, id) >= 0 ==> ids[first_index(ids, id)] == id,
        forall|j: int| 0 <= j < ids.len() && ids[j] == id ==> first_index(ids, id) >= 0 && first_index(ids, id) <= j,
    decreases ids.len(),
{
    if ids.len() > 0 {
        let d = ids.drop_last();
        lemma_first_index(d, id);
        assert forall|j: int| 0 <= j < ids.len() && ids[j] == id implies first_index(ids, id) >= 0 && first_index(
            ids,
            id,
        ) <= j by {
            if j < ids.len() - 1 {
                assert(d[j] == ids[j]);
            }
        }
        if first_index(d, id) >= 0 {
            assert(d[first_index(d, id)] == ids[first_index(d, id)]);
        }
    }
}

proof fn lemma_last_index(ids: Seq<Seq<char>>, id: Seq<char>)
    ensures
        -1 <= last_index(ids, id) < ids.len(),
        last_index(ids, id) >= 0 ==> ids[last_index(ids, id)] == id,
        last_index(ids, id) >= 0 <==> ids.contains(id),
    decreases ids.len(),
{
    if ids.len() > 0 {
        let d = ids.drop_last();
        lemma_last_index(d, id);
        if ids.last() != id {
            if last_index(d, id) >= 0 {
                assert(d[last_index(d, id)] == ids[last_index(d, id)]);
            }
            if ids.contains(id) {
                let j = choose|j: int| 0 <= j < ids.len() && ids[j] == id;
                assert(j < ids.len() - 1);
                assert(d[j] == id);
            }
            if d.contains(id) {
                let j = choose|j: int| 0 <= j < d.len() && d[j] == id;
                assert(ids[j] == id);
            }
        } else {
            assert(ids[ids.len() - 1] == id);
        }
    }
}

/// The index of the first id equal to `id`.
fn find_first(ids: &Vec<String>, id: &str) -> (r: Option<usize>)
    ensures
        match r {
            Some(g) => g as int == first_index(views_of(ids@), id@),
            None => first_index(views_of(ids@), id@) == -1,
        },
{
    let ghost iv = views_of(ids@);
    proof {
        lemma_first_index(iv, id@);
    }
    let mut g: usize = 0;
    while g < ids.len()
        invariant
            iv == views_of(ids@),
            g <= ids@.len(),
            -1 <= first_index(iv, id@) < iv.len(),
            first_index(iv, id@) >= 0 ==> iv[first_index(iv, id@)] == id@,
            forall|j: int| 0 <= j < iv.len() && iv[j] == id@ ==> first_index(iv, id@) >= 0 && first_index(iv, id@) <= j,
            forall|j: int| 0 <= j < g ==> iv[j] != id@,
        decreases ids@.len() - g,
    {
        if str_eq(ids[g].as_str(), id) {
            proof {
                assert(iv[g as int] == ids@[g as int]@);
            }
            return Some(g);
        }
        proof {
            assert(iv[g as int] == ids@[g as int]@);
        }
        g = g + 1;
    }
    proof {
        if first_index(iv, id@) >= 0 {
            assert(iv[first_index(iv, id@)] == id@);
        }
    }
    None
}

/// The ids of `ids` that `keep` accepts, in order.
pub open spec fn keep_ids(ids: Seq<Seq<char>>, keep: spec_fn(Seq<char>) -> bool) -> Seq<Seq<char>>
    decreases ids.len(),
{
    if ids.len() == 0 {
        Seq::empty()
    } else if keep(ids.last()) {
        keep_ids(ids.drop_last(), keep).push(ids.last())
    } else {
        keep_ids(ids.drop_last(), keep)
    }
}

/// Text with nothing but whitespace: what `str::trim` empties.
pub open spec fn blank(s: Seq<char>) -> bool {
    forall|i: int| 0 <= i < s.len() ==> is_whitespace(#[trigger] s[i])
}

/// Whether the text is blank.
pub fn is_blank(s: &str) -> (r: bool)
    ensures
        r == blank(s@),
{
    let n = s.unicode_len();
    let mut i: usize = 0;
    while i < n
        invariant
            n == s@.len(),
            i <= n,
            forall|j: int| 0 <= j < i ==> is_whitespace(#[trigger] s@[j]),
        decreases n - i,
    {
        if !char_is_whitespace(s.get_char(i)) {
            return false;
        }
        i = i + 1;
    }
    true
}

/// The loads of one kind of extension row, by model type, shape and id.
pub struct RowCache<S, R> {
    loads: Vec<LoadedRows<S, R>>,
}

impl<S: CacheShape, R> RowCache<S, R> {
    /// The rows loaded for a model type, shape and id, if they were.
    pub closed spec fn rows_of(&self, t: Seq<char>, s: S::V, id: Seq<char>) -> Option<Seq<R>> {
        loaded_rows(self.loads@, t, s, id)
    }

    /// A cache with nothing loaded.
    pub fn new() -> (r: Self)
        ensures
            forall|t: Seq<char>, s: S::V, id: Seq<char>| #[trigger] r.rows_of(t, s, id) is None,
    {
        RowCache { loads: Vec::new() }
    }

    fn find(&self, t: &str, s: &S, id: &str) -> (r: Option<usize>)
        ensures
            match r {
                Some(i) => i < self.loads@.len() && self.rows_of(t@, s@, id@) == Some(self.loads@[i as int].rows@),
                None => self.rows_of(t@, s@, id@) is None,
            },
    {
        let mut i: usize = self.loads.len();
        proof {
            assert(self.loads@.subrange(0, i as int) =~= self.loads@);
        }
        while i > 0
            invariant
                i <= self.loads@.len(),
                self.rows_of(t@, s@, id@) == loaded_rows(self.loads@.subrange(0, i as int), t@, s@, id@),
            decreases i,
        {
            let ghost prefix = self.loads@.subrange(0, i as int);
            proof {
                assert(prefix.drop_last() =~= self.loads@.subrange(0, i - 1));
                assert(prefix.last() == self.loads@[i - 1]);
            }
            let e = &self.loads[i - 1];
            if str_eq(e.model_type.as_str(), t) && e.shape.same_shape(s) && str_eq(e.id.as_str(), id) {
                return Some(i - 1);
            }
            i = i - 1;
        }
        None
    }

    /// Whether rows are loaded for a model type, shape and id.
    pub fn is_loaded(&self, t: &str, s: &S, id: &str) -> (r: bool)
        ensures
            r == self.rows_of(t@, s@, id@) is Some,
    {
        self.find(t, s, id).is_some()
    }

    /// Clones of the rows loaded for a model type, shape and id, if they
    /// were loaded.
    pub fn cached(&self, t: &str, s: &S, id: &str) -> (r: Option<Vec<R>>)
        where R: Clone,
        ensures
            match self.rows_of(t@, s@, id@) {
                Some(rows) => r matches Some(v) && clones_of(rows, v@),
                None => r is None,
            },
    {
        match self.find(t, s, id) {
            Some(i) => Some(self.loads[i].rows.clone()),
            None => None,
        }
    }

    /// The ids of `ids` that nothing is loaded for under a model type and
    /// shape, in order.
    pub fn missing_ids(&self, t: &str, s: &S, ids: &Vec<String>) -> (r: Vec<String>)
        ensures
            views_of(r@) == keep_ids(views_of(ids@), |id: Seq<char>| self.rows_of(t@, s@, id) is None),
    {
        let ghost iv = views_of(ids@);
        let ghost keep = |id: Seq<char>| self.rows_of(t@, s@, id) is None;
        let mut r: Vec<String> = Vec::new();
        let mut i: usize = 0;
        while i < ids.len()
            invariant
                iv == views_of(ids@),
                keep == (|id: Seq<char>| self.rows_of(t@, s@, id) is None),
                i <= ids@.len(),
                views_of(r@) == keep_ids(iv.subrange(0, i as int), keep),
            decreases ids@.len() - i,
        {
            let ghost before = r@;
            let loaded = self.is_loaded(t, s, ids[i].as_str());
            if !loaded {
                r.push(ids[i].clone());
            }
            proof {
                let p = iv.subrange(0, i + 1);
                assert(p.drop_last() =~= iv.subrange(0, i as int));
                assert(p.last() == ids@[i as int]@);
                if !loaded {
                    assert(views_of(r@) =~= views_of(before).push(ids@[i as int]@));
                }
            }
            i = i + 1;
        }
        proof {
            assert(iv.subrange(0, ids@.len() as int) =~= iv);
        }
        r
    }

    /// Records the rows loaded for `ids` under a model type and shape: each
    /// id's rows replace what was loaded for it, and rows of ids that are not
    /// named are dropped. `rows` pairs each row with the id that owns it.
    pub fn store(&mut self, t: &str, s: &S, ids: &Vec<String>, rows: Vec<(String, R)>)
        ensures
            forall|t2: Seq<char>, s2: S::V, id2: Seq<char>| #[trigger] final(self).rows_of(t2, s2, id2) == if t2 == t@
                && s2 == s@ && views_of(ids@).contains(id2) {
                Some(stored_rows(views_of(ids@), rows@, id2))
            } else {
                old(self).rows_of(t2, s2, id2)
            },
    {
        let ghost iv = views_of(ids@);
        let ghost all_rows = rows@;
        let n = ids.len();
        let mut groups: Vec<Vec<R>> = Vec::new();
        while groups.len() < n
            invariant
                groups@.len() <= n,
                forall|g: int| 0 <= g < groups@.len() ==> (#[trigger] groups@[g])@ == Seq::<R>::empty(),
            decreases n - groups@.len(),
        {
            groups.push(Vec::new());
        }
        let mut rest = rows;
        proof {
            assert(all_rows.subrange(all_rows.len() as int, all_rows.len() as int) =~= Seq::<(String, R)>::empty());
            assert(rest@ =~= all_rows.subrange(0, rest@.len() as int));
        }
        // Hand each row, from the last, to the first mention of its owner.
        while rest.len() > 0
            invariant
                iv == views_of(ids@),
                n == ids@.len(),
                groups@.len() == n,
                rest@.len() <= all_rows.len(),
                rest@ == all_rows.subrange(0, rest@.len() as int),
                forall|g: int| 0 <= g < n ==> (#[trigger] groups@[g])@ == if first_index(iv, iv[g]) == g {
                    owned_rows(all_rows.subrange(rest@.len() as int, all_rows.len() as int), iv[g])
                } else {
                    Seq::<R>::empty()
                },
            decreases rest@.len(),
        {
            let m = rest.len();
            let ghost before = groups@;
            let ghost suffix = all_rows.subrange(m as int, all_rows.len() as int);
            let ghost longer = all_rows.subrange(m - 1, all_rows.len() as int);
            let (owner, r) = rest.pop().unwrap();
            proof {
                assert(longer[0] == all_rows[m - 1]);
                assert(longer.drop_first() =~= suffix);
                assert(rest@ =~= all_rows.subrange(0, m - 1));
            }
            match find_first(ids, owner.as_str()) {
                Some(g) => {
                    proof {
                        lemma_first_index(iv, owner@);
                        assert(iv.len() == n);
                    }
                    let mut group = groups.remove(g);
                    group.insert(0, r);
                    groups.insert(g, group);
                    proof {
                        lemma_first_index(iv, owner@);
                        assert forall|h: int| 0 <= h < n implies (#[trigger] groups@[h])@ == if first_index(iv, iv[h]) == h {
                            owned_rows(longer, iv[h])
                        } else {
                            Seq::<R>::empty()
                        } by {
                            if h == g {
                                assert(groups@[h] == group);
                                assert(group@ =~= seq![r] + before[h]@);
                            } else {
                                assert(groups@[h] == before[h]);
                                if first_index(iv, iv[h]) == h && iv[h] == owner@ {
                                    assert(first_index(iv, owner@) == h);
                                }
                                assert(owned_rows(longer, iv[h]) =~= (if longer[0].0@ == iv[h] {
                                    seq![longer[0].1]
                                } else {
                                    Seq::empty()
                                }) + owned_rows(suffix, iv[h]));
                            }
                        }
                    }
                },
                None => {
                    proof {
                        lemma_first_index(iv, owner@);
                        assert forall|h: int| 0 <= h < n implies (#[trigger] groups@[h])@ == if first_index(iv, iv[h]) == h {
                            owned_rows(longer, iv[h])
                        } else {
                            Seq::<R>::empty()
                        } by {
                            assert(iv[h] != owner@);
                            assert(owned_rows(longer, iv[h]) =~= owned_rows(suffix, iv[h]));
                        }
                    }
                },
            }
        }
        proof {
            assert(all_rows.subrange(0, all_rows.len() as int) =~= all_rows);
        }
        let ghost all_groups = groups@;
        let mut gi: usize = 0;
        while gi < n
            invariant
                iv == views_of(ids@),
                n == ids@.len(),
                all_groups.len() == n,
                gi <= n,
                groups@ == all_groups.subrange(gi as int, n as int),
                forall|t2: Seq<char>, s2: S::V, id2: Seq<char>| #[trigger] self.rows_of(t2, s2, id2) == if t2 == t@ && s2 == s@
                    && last_index(iv.subrange(0, gi as int), id2) >= 0 {
                    Some(all_groups[last_index(iv.subrange(0, gi as int), id2)]@)
                } else {
                    old(self).rows_of(t2, s2, id2)
                },
            decreases n - gi,
        {
            let group = groups.remove(0);
            proof {
                assert(group == all_groups[gi as int]);
                assert(groups@ =~= all_groups.subrange(gi + 1, n as int));
            }
            let id = ids[gi].clone();
            let ghost head = *self;
            self.forget(t, Some(s), id.as_str());
            let ghost mid = *self;
            self.loads.push(LoadedRows { model_type: owned(t), shape: s.copy_shape(), id, rows: group });
            proof {
                let p = iv.subrange(0, gi + 1);
                assert(p.drop_last() =~= iv.subrange(0, gi as int));
                assert(p.last() == iv[gi as int]);
                assert(iv[gi as int] == ids@[gi as int]@);
                assert forall|t2: Seq<char>, s2: S::V, id2: Seq<char>| #[trigger] self.rows_of(t2, s2, id2) == if t2 == t@ && s2
                    == s@ && last_index(p, id2) >= 0 {
                    Some(all_groups[last_index(p, id2)]@)
                } else {
                    old(self).rows_of(t2, s2, id2)
                } by {
                    assert(self.loads@.drop_last() =~= mid.loads@);
                    assert(mid.rows_of(t2, s2, id2) == if forgets(t@, Some(s@), iv[gi as int], t2, s2, id2) {
                        None
                    } else {
                        head.rows_of(t2, s2, id2)
                    });
                    assert(head.rows_of(t2, s2, id2) == if t2 == t@ && s2 == s@ && last_index(iv.subrange(0, gi as int), id2)
                        >= 0 {
                        Some(all_groups[last_index(iv.subrange(0, gi as int), id2)]@)
                    } else {
                        old(self).rows_of(t2, s2, id2)
                    });
                }
            }
            gi = gi + 1;
        }
        proof {
            assert(iv.subrange(0, n as int) =~= iv);
            assert forall|t2: Seq<char>, s2: S::V, id2: Seq<char>| #[trigger] self.rows_of(t2, s2, id2) == if t2 == t@ && s2 == s@
                && iv.contains(id2) {
                Some(stored_rows(iv, all_rows, id2))
            } else {
                old(self).rows_of(t2, s2, id2)
            } by {
                lemma_last_index(iv, id2);
                lemma_first_index(iv, id2);
                if t2 == t@ && s2 == s@ && iv.contains(id2) {
                    let li = last_index(iv, id2);
                    assert(iv[li] == id2);
                }
            }
        }
    }

    /// Forgets the loads of `t` and `id`, under `shape` or, without one,
    /// under every shape.
    pub fn forget(&mut self, t: &str, shape: Option<&S>, id: &str)
        ensures
            forall|t2: Seq<char>, s2: S::V, id2: Seq<char>| #[trigger] final(self).rows_of(t2, s2, id2) == if forgets(
                t@,
                match shape { Some(s) => Some(s@), None => None },
                id@,
                t2,
                s2,
                id2,
            ) {
                None
            } else {
                old(self).rows_of(t2, s2, id2)
            },
    {
        let ghost gone = match shape { Some(s) => Some(s@), None => None };
        let ghost before = self.loads@;
        let mut old_loads: Vec<LoadedRows<S, R>> = Vec::new();
        std::mem::swap(&mut old_loads, &mut self.loads);
        let mut kept: Vec<LoadedRows<S, R>> = Vec::new();
        let mut rest = old_loads;
        let ghost all = rest@;
        // Take the loads from the front, keeping those that stay.
        let mut k: usize = 0;
        let n = rest.len();
        while rest.len() > 0
            invariant
                all == before,
                gone == match shape {
                    Some(s) => Some(s@),
                    None => None,
                },
                n == all.len(),
                k + rest@.len() == n,
                rest@ == all.subrange(k as int, n as int),
                forall|t2: Seq<char>, s2: S::V, id2: Seq<char>| #[trigger] loaded_rows(kept@, t2, s2, id2) == if forgets(t@, gone, id@, t2, s2, id2) {
                    None
                } else {
                    loaded_rows(all.subrange(0, k as int), t2, s2, id2)
                },
            decreases rest@.len(),
        {
            let e = rest.remove(0);
            proof {
                assert(k < n);
                assert(e == all[k as int]);
            }
            let same_shape = match shape {
                Some(s) => e.shape.same_shape(s),
                None => true,
            };
            let drop_it = str_eq(e.model_type.as_str(), t) && str_eq(e.id.as_str(), id) && same_shape;
            proof {
                assert(drop_it == (e.model_type@ == t@ && e.id@ == id@ && match gone {
                    Some(g) => e.shape@ == g,
                    None => true,
                }));
            }
            let ghost kept_before = kept@;
            if !drop_it {
                kept.push(e);
            }
            proof {
                let p = all.subrange(0, k + 1);
                assert(p.drop_last() =~= all.subrange(0, k as int));
                assert(p.last() == e);
                assert forall|t2: Seq<char>, s2: S::V, id2: Seq<char>| #[trigger] loaded_rows(kept@, t2, s2, id2) == if forgets(t@, gone, id@, t2, s2, id2) {
                    None
                } else {
                    loaded_rows(p, t2, s2, id2)
                } by {
                    if !drop_it {
                        assert(kept@.drop_last() =~= kept_before);
                        assert(kept@.last() == e);
                        assert(loaded_rows(kept_before, t2, s2, id2) == if forgets(t@, gone, id@, t2, s2, id2) {
                            None
                        } else {
                            loaded_rows(all.subrange(0, k as int), t2, s2, id2)
                        });
                    } else {
                        assert(kept@ == kept_before);
                        assert(loaded_rows(kept_before, t2, s2, id2) == if forgets(t@, gone, id@, t2, s2, id2) {
                            None
                        } else {
                            loaded_rows(all.subrange(0, k as int), t2, s2, id2)
                        });
                    }
                    if loads_key(e, t2, s2, id2) {
                        assert(loaded_rows(p, t2, s2, id2) == Some(e.rows@));
                    } else {
                        assert(loaded_rows(p, t2, s2, id2) == loaded_rows(all.subrange(0, k as int), t2, s2, id2));
                    }
                }
                assert(rest@ =~= all.subrange(k + 1, n as int));
            }
            k = k + 1;
        }
        proof {
            assert(all.subrange(0, n as int) =~= all);
        }
        self.loads = kept;
    }
}

// ---------------------------------------------------------------------------
// Known model ids
// ---------------------------------------------------------------------------

/// The model ids known per model type, as (type, id) pairs.
pub open spec fn pairs_of(v: Seq<(String, String)>) -> Set<(Seq<char>, Seq<char>)> {
    Set::new(|p: (Seq<char>, Seq<char>)| exists|i: int| 0 <= i < v.len() && (#[trigger] v[i]).0@ == p.0 && v[i].1@ == p.1)
}

/// The pairs that registering `ids` under `t` adds: the ids that are not
/// blank.
pub open spec fn registered_pairs(t: Seq<char>, ids: Seq<Seq<char>>) -> Set<(Seq<char>, Seq<char>)> {
    Set::new(|p: (Seq<char>, Seq<char>)| p.0 == t && ids.contains(p.1) && !blank(p.1))
}

/// Adds the pair `(t, id)` unless it is there.
fn add_pair(pairs: &mut Vec<(String, String)>, t: &str, id: &str)
    ensures
        pairs_of(final(pairs)@) == pairs_of(old(pairs)@).insert((t@, id@)),
{
    let mut i: usize = 0;
    while i < pairs.len()
        invariant
            i <= pairs@.len(),
            forall|j: int| 0 <= j < i ==> !((#[trigger] pairs@[j]).0@ == t@ && pairs@[j].1@ == id@),
        decreases pairs@.len() - i,
    {
        if str_eq(pairs[i].0.as_str(), t) && str_eq(pairs[i].1.as_str(), id) {
            proof {
                assert(pairs_of(pairs@).contains((t@, id@)));
                assert(pairs_of(pairs@).insert((t@, id@)) =~= pairs_of(pairs@));
            }
            return;
        }
        i = i + 1;
    }
    let ghost before = pairs@;
    pairs.push((owned(t), owned(id)));
    proof {
        assert forall|q: (Seq<char>, Seq<char>)| pairs_of(pairs@).contains(q) <==> pairs_of(before).insert((t@, id@)).contains(q) by {
            if pairs_of(pairs@).contains(q) {
                let j = choose|j: int| 0 <= j < pairs@.len() && (#[trigger] pairs@[j]).0@ == q.0 && pairs@[j].1@ == q.1;
                if j < before.len() {
                    assert(before[j] == pairs@[j]);
                }
            }
            if pairs_of(before).contains(q) {
                let j = choose|j: int| 0 <= j < before.len() && (#[trigger] before[j]).0@ == q.0 && before[j].1@ == q.1;
                assert(pairs@[j] == before[j]);
            }
            if q == (t@, id@) {
                assert(pairs@[before.len() as int].0@ == t@);
            }
        }
        assert(pairs_of(pairs@) =~= pairs_of(before).insert((t@, id@)));
    }
}

/// Registers the ids that are not blank under `t`.
fn add_ids(pairs: &mut Vec<(String, String)>, t: &str, ids: &Vec<String>)
    ensures
        pairs_of(final(pairs)@) == pairs_of(old(pairs)@).union(registered_pairs(t@, views_of(ids@))),
{
    let ghost start = pairs_of(pairs@);
    let ghost iv = views_of(ids@);
    let mut i: usize = 0;
    while i < ids.len()
        invariant
            iv == views_of(ids@),
            i <= ids@.len(),
            pairs_of(pairs@) == start.union(registered_pairs(t@, iv.subrange(0, i as int))),
        decreases ids@.len() - i,
    {
        let ghost before = pairs_of(pairs@);
        let id = ids[i].as_str();
        if !is_blank(id) {
            add_pair(pairs, t, id);
        }
        proof {
            let p = iv.subrange(0, i + 1);
            assert(p[i as int] == id@);
            assert forall|q: (Seq<char>, Seq<char>)| registered_pairs(t@, p).contains(q) <==> (registered_pairs(
                t@,
                iv.subrange(0, i as int),
            ).contains(q) || (q == (t@, id@) && !blank(id@))) by {
                if p.contains(q.1) {
                    let j = choose|j: int| 0 <= j < p.len() && p[j] == q.1;
                    if j < i {
                        assert(iv.subrange(0, i as int)[j] == q.1);
                    }
                }
                if iv.subrange(0, i as int).contains(q.1) {
                    let j = choose|j: int| 0 <= j < i && iv.subrange(0, i as int)[j] == q.1;
                    assert(p[j] == q.1);
                }
            }
            assert(pairs_of(pairs@) =~= start.union(registered_pairs(t@, p)));
        }
        i = i + 1;
    }
    proof {
        assert(iv.subrange(0, ids@.len() as int) =~= iv);
    }
}

/// The ids known for `t`, in id order.
fn ids_of_type(pairs: &Vec<(String, String)>, t: &str) -> (r: Vec<String>)
    ensures
        strictly_sorted(views_of(r@)),
        forall|id: Seq<char>| views_of(r@).contains(id) <==> pairs_of(pairs@).contains((t@, id)),
{
    let mut r: Vec<String> = Vec::new();
    let mut i: usize = 0;
    while i < pairs.len()
        invariant
            i <= pairs@.len(),
            strictly_sorted(views_of(r@)),
            forall|id: Seq<char>| views_of(r@).contains(id) <==> exists|j: int| 0 <= j < i && (#[trigger] pairs@[j]).0@ == t@
                && pairs@[j].1@ == id,
        decreases pairs@.len() - i,
    {
        let ghost before = views_of(r@);
        let ghost matched = pairs@[i as int].0@ == t@;
        let ghost new_id = pairs@[i as int].1@;
        if str_eq(pairs[i].0.as_str(), t) {
            let inserted = sorted_insert(&mut r, pairs[i].1.as_str());
            proof {
                if inserted {
                    let p = choose|p: int| 0 <= p <= before.len() && views_of(r@) == before.insert(p, new_id);
                    assert forall|id: Seq<char>| views_of(r@).contains(id) <==> (before.contains(id) || id == new_id) by {
                        let after = before.insert(p, new_id);
                        if after.contains(id) {
                            let k = choose|k: int| 0 <= k < after.len() && after[k] == id;
                            if k < p {
                                assert(before[k] == id);
                            } else if k > p {
                                assert(before[k - 1] == id);
                            }
                        }
                        if before.contains(id) {
                            let k = choose|k: int| 0 <= k < before.len() && before[k] == id;
                            if k < p {
                                assert(after[k] == id);
                            } else {
                                assert(after[k + 1] == id);
                            }
                        }
                        if id == new_id {
                            assert(after[p] == id);
                        }
                    }
                } else {
                    assert(views_of(r@) == before);
                }
            }
        }
        proof {
            assert(forall|id: Seq<char>| views_of(r@).contains(id) <==> (before.contains(id) || (matched && id == new_id)));
            assert forall|id: Seq<char>| views_of(r@).contains(id) <==> exists|j: int| 0 <= j < i + 1 && (#[trigger] pairs@[j]).0@
                == t@ && pairs@[j].1@ == id by {
                let old_has = exists|j: int| 0 <= j < i && (#[trigger] pairs@[j]).0@ == t@ && pairs@[j].1@ == id;
                assert(before.contains(id) <==> old_has);
                if views_of(r@).contains(id) {
                    if before.contains(id) {
                        let j = choose|j: int| 0 <= j < i && (#[trigger] pairs@[j]).0@ == t@ && pairs@[j].1@ == id;
                        assert(0 <= j < i + 1 && pairs@[j].0@ == t@ && pairs@[j].1@ == id);
                    } else {
                        assert(pairs@[i as int].0@ == t@ && pairs@[i as int].1@ == id);
                    }
                }
                if exists|j: int| 0 <= j < i + 1 && (#[trigger] pairs@[j]).0@ == t@ && pairs@[j].1@ == id {
                    let j = choose|j: int| 0 <= j < i + 1 && (#[trigger] pairs@[j]).0@ == t@ && pairs@[j].1@ == id;
                    if j < i {
                        assert(old_has);
                    }
                }
            }
        }
        i = i + 1;
    }
    proof {
        assert forall|id: Seq<char>| views_of(r@).contains(id) <==> pairs_of(pairs@).contains((t@, id)) by {
            if pairs_of(pairs@).contains((t@, id)) {
                let j = choose|j: int| 0 <= j < pairs@.len() && (#[trigger] pairs@[j]).0@ == t@ && pairs@[j].1@ == id;
                assert(exists|j2: int| 0 <= j2 < pairs@.len() && (#[trigger] pairs@[j2]).0@ == t@ && pairs@[j2].1@ == id);
            }
        }
    }
    r
}

proof fn lemma_keep_ids(ids: Seq<Seq<char>>, keep: spec_fn(Seq<char>) -> bool)
    ensures
        forall|x: Seq<char>| #[trigger] keep_ids(ids, keep).contains(x) <==> (ids.contains(x) && keep(x)),
        strictly_sorted(ids) ==> strictly_sorted(keep_ids(ids, keep)),
    decreases ids.len(),
{
    if ids.len() > 0 {
        let d = ids.drop_last();
        let k = keep_ids(d, keep);
        lemma_keep_ids(d, keep);
        assert forall|x: Seq<char>| keep_ids(ids, keep).contains(x) <==> (ids.contains(x) && keep(x)) by {
            if ids.contains(x) && x != ids.last() {
                let j = choose|j: int| 0 <= j < ids.len() && ids[j] == x;
                assert(d[j] == x);
            }
            if d.contains(x) {
                let j = choose|j: int| 0 <= j < d.len() && d[j] == x;
                assert(ids[j] == x);
            }
            if keep(ids.last()) {
                let kk = k.push(ids.last());
                if kk.contains(x) {
                    let j = choose|j: int| 0 <= j < kk.len() && kk[j] == x;
                    if j < k.len() {
                        assert(k[j] == x);
                    }
                }
                if k.contains(x) {
                    let j = choose|j: int| 0 <= j < k.len() && k[j] == x;
                    assert(kk[j] == x);
                }
                if x == ids.last() {
                    assert(kk[k.len() as int] == x);
                }
            }
            if x == ids.last() {
                assert(ids[ids.len() - 1] == x);
            }
        }
        if strictly_sorted(ids) {
            assert(strictly_sorted(d)) by {
                assert forall|a: int, b: int| 0 <= a < b < d.len() implies seq_lt(#[trigger] d[a], #[trigger] d[b]) by {
                    assert(d[a] == ids[a] && d[b] == ids[b]);
                }
            }
            if keep(ids.last()) {
                let kk = k.push(ids.last());
                assert forall|a: int, b: int| 0 <= a < b < kk.len() implies seq_lt(#[trigger] kk[a], #[trigger] kk[b]) by {
                    if b < k.len() {
                        assert(kk[a] == k[a] && kk[b] == k[b]);
                    } else {
                        assert(kk[a] == k[a]);
                        assert(k.contains(k[a]));
                        assert(d.contains(k[a]));
                        let j = choose|j: int| 0 <= j < d.len() && d[j] == k[a];
                        assert(ids[j] == k[a]);
                        assert(seq_lt(ids[j], ids[ids.len() - 1]));
                    }
                }
            }
        }
    }
}

/// A metadata row together with its key.
pub struct MetaRow<M> {
    pub key: String,
    pub row: M,
}

impl<M: Clone> Clone for MetaRow<M> {
    fn clone(&self) -> (r: Self)
        ensures
            r.key@ == self.key@,
            cloned::<M>(self.row, r.row),
    {
        MetaRow { key: self.key.clone(), row: self.row.clone() }
    }
}

/// The metadata rows with key `k`, in order.
pub open spec fn keyed_rows<M>(rows: Seq<MetaRow<M>>, k: Seq<char>) -> Seq<MetaRow<M>>
    decreases rows.len(),
{
    if rows.len() == 0 {
        Seq::empty()
    } else if rows.last().key@ == k {
        keyed_rows(rows.drop_last(), k).push(rows.last())
    } else {
        keyed_rows(rows.drop_last(), k)
    }
}

/// Whether metadata under a shape is at hand for an id: loaded under that
/// shape, or, for one key, loaded under every key.
pub open spec fn metadata_at_hand<M>(
    exact: Option<Seq<MetaRow<M>>>,
    every_key: Option<Seq<MetaRow<M>>>,
    shape: MetadataShapeView,
) -> bool {
    exact is Some || (shape is Key && every_key is Some)
}

/// The per-request cache of model extension rows: the model ids known per
/// model type, and the attachment, translation and metadata rows loaded per
/// model type, shape and id.
pub struct ModelExtensionCache<A, T, M> {
    model_ids: Vec<(String, String)>,
    attachments: RowCache<String, A>,
    translations: RowCache<TranslationCacheShape, T>,
    metadata: RowCache<MetadataCacheShape, MetaRow<M>>,
}

impl<A, T, M> ModelExtensionCache<A, T, M> {
    /// The (model type, id) pairs known.
    pub closed spec fn known(&self) -> Set<(Seq<char>, Seq<char>)> {
        pairs_of(self.model_ids@)
    }

    /// The attachments loaded for a model type, collection and id.
    pub closed spec fn attachment_rows(&self, t: Seq<char>, collection: Seq<char>, id: Seq<char>) -> Option<Seq<A>> {
        self.attachments.rows_of(t, collection, id)
    }

    /// The translations loaded for a model type, shape and id.
    pub closed spec fn translation_rows(&self, t: Seq<char>, shape: TranslationShapeView, id: Seq<char>) -> Option<Seq<T>> {
        self.translations.rows_of(t, shape, id)
    }

    /// The metadata loaded for a model type, shape and id.
    pub closed spec fn metadata_rows(&self, t: Seq<char>, shape: MetadataShapeView, id: Seq<char>) -> Option<Seq<MetaRow<M>>> {
        self.metadata.rows_of(t, shape, id)
    }

    /// Whether two caches hold the same loaded rows.
    pub open spec fn same_loads(&self, other: &Self) -> bool {
        &&& forall|t: Seq<char>, c: Seq<char>, id: Seq<char>| #[trigger] self.attachment_rows(t, c, id) == other.attachment_rows(t, c, id)
        &&& forall|t: Seq<char>, s: TranslationShapeView, id: Seq<char>| #[trigger] self.translation_rows(t, s, id)
            == other.translation_rows(t, s, id)
        &&& forall|t: Seq<char>, s: MetadataShapeView, id: Seq<char>| #[trigger] self.metadata_rows(t, s, id)
            == other.metadata_rows(t, s, id)
    }

    /// A cache that knows no ids and holds no rows.
    pub fn new() -> (r: Self)
        ensures
            r.known() == Set::<(Seq<char>, Seq<char>)>::empty(),
            forall|t: Seq<char>, c: Seq<char>, id: Seq<char>| #[trigger] r.attachment_rows(t, c, id) is None,
            forall|t: Seq<char>, s: TranslationShapeView, id: Seq<char>| #[trigger] r.translation_rows(t, s, id) is None,
            forall|t: Seq<char>, s: MetadataShapeView, id: Seq<char>| #[trigger] r.metadata_rows(t, s, id) is None,
    {
        let r = ModelExtensionCache {
            model_ids: Vec::new(),
            attachments: RowCache::new(),
            translations: RowCache::new(),
            metadata: RowCache::new(),
        };
        proof {
            assert(r.known() =~= Set::<(Seq<char>, Seq<char>)>::empty());
        }
        r
    }

    /// Knows the ids that are not blank under `model_type`.
    pub fn insert_model_ids(&mut self, model_type: &str, ids: &Vec<String>)
        ensures
            final(self).known() == old(self).known().union(registered_pairs(model_type@, views_of(ids@))),
            final(self).same_loads(old(self)),
    {
        add_ids(&mut self.model_ids, model_type, ids);
    }

    /// Knows the ids that are not blank under `model_type` and, when the
    /// type is qualified by a schema, under its name without the schema.
    pub fn register_model_ids(&mut self, model_type: &str, ids: &Vec<String>)
        ensures
            final(self).known() == old(self).known().union(registered_pairs(model_type@, views_of(ids@))).union(
                if basename(model_type@) != model_type@ {
                    registered_pairs(basename(model_type@), views_of(ids@))
                } else {
                    Set::empty()
                },
            ),
            final(self).same_loads(old(self)),
    {
        add_ids(&mut self.model_ids, model_type, ids);
        let base = relation_basename(model_type);
        if !str_eq(base.as_str(), model_type) {
            add_ids(&mut self.model_ids, base.as_str(), ids);
        } else {
            proof {
                assert(old(self).known().union(registered_pairs(model_type@, views_of(ids@))).union(Set::empty())
                    =~= old(self).known().union(registered_pairs(model_type@, views_of(ids@))));
            }
        }
    }

    /// The ids known for `model_type`, in id order.
    pub fn known_ids(&self, model_type: &str) -> (r: Vec<String>)
        ensures
            strictly_sorted(views_of(r@)),
            forall|id: Seq<char>| views_of(r@).contains(id) <==> self.known().contains((model_type@, id)),
    {
        ids_of_type(&self.model_ids, model_type)
    }

    /// Knows `current_id` under `model_type`; then the ids known for the
    /// type, in id order.
    fn known_ids_with(&mut self, model_type: &str, current_id: &str) -> (r: Vec<String>)
        ensures
            final(self).known() == old(self).known().union(registered_pairs(model_type@, seq![current_id@])),
            final(self).same_loads(old(self)),
            strictly_sorted(views_of(r@)),
            forall|id: Seq<char>| views_of(r@).contains(id) <==> final(self).known().contains((model_type@, id)),
    {
        let mut current: Vec<String> = Vec::new();
        current.push(owned(current_id));
        proof {
            assert(views_of(current@) =~= seq![current_id@]);
        }
        self.insert_model_ids(model_type, &current);
        self.known_ids(model_type)
    }
}

impl<A, T, M> ModelExtensionCache<A, T, M> {
    /// Clones of the attachments loaded for a model id and collection, if
    /// they were loaded.
    pub fn cached_attachments(&self, attachable_type: &str, collection: &str, attachable_id: &str) -> (r: Option<Vec<A>>)
        where A: Clone,
        ensures
            match self.attachment_rows(attachable_type@, collection@, attachable_id@) {
                Some(rows) => r matches Some(v) && clones_of(rows, v@),
                None => r is None,
            },
    {
        let c = owned(collection);
        self.attachments.cached(attachable_type, &c, attachable_id)
    }

    /// Knows `current_id`; then the known ids of the type, in id order,
    /// whose attachments of the collection are not loaded: the batch that
    /// one query loads.
    pub fn missing_attachment_ids_for_known(&mut self, attachable_type: &str, collection: &str, current_id: &str) -> (r: Vec<
        String,
    >)
        ensures
            final(self).known() == old(self).known().union(registered_pairs(attachable_type@, seq![current_id@])),
            final(self).same_loads(old(self)),
            strictly_sorted(views_of(r@)),
            forall|id: Seq<char>| views_of(r@).contains(id) <==> (final(self).known().contains((attachable_type@, id))
                && final(self).attachment_rows(attachable_type@, collection@, id) is None),
    {
        let known = self.known_ids_with(attachable_type, current_id);
        let c = owned(collection);
        let r = self.attachments.missing_ids(attachable_type, &c, &known);
        proof {
            let keep = |id: Seq<char>| self.attachments.rows_of(attachable_type@, c@, id) is None;
            lemma_keep_ids(views_of(known@), keep);
            assert(views_of(r@) == keep_ids(views_of(known@), keep));
            assert forall|id: Seq<char>| views_of(r@).contains(id) <==> (self.known().contains((attachable_type@, id))
                && self.attachment_rows(attachable_type@, collection@, id) is None) by {
                assert(keep(id) == (self.attachment_rows(attachable_type@, collection@, id) is None));
                assert(views_of(known@).contains(id) <==> self.known().contains((attachable_type@, id)));
                assert(keep_ids(views_of(known@), keep).contains(id) <==> (views_of(known@).contains(id) && keep(id)));
            }
        }
        r
    }

    /// Knows `ids`; then those of them, in order, whose attachments of the
    /// collection are not loaded.
    pub fn missing_attachment_ids(&mut self, attachable_type: &str, collection: &str, ids: &Vec<String>) -> (r: Vec<String>)
        ensures
            final(self).known() == old(self).known().union(registered_pairs(attachable_type@, views_of(ids@))),
            final(self).same_loads(old(self)),
            views_of(r@) == keep_ids(
                views_of(ids@),
                |id: Seq<char>| final(self).attachment_rows(attachable_type@, collection@, id) is None,
            ),
    {
        self.insert_model_ids(attachable_type, ids);
        let c = owned(collection);
        let r = self.attachments.missing_ids(attachable_type, &c, ids);
        proof {
            let k1 = |id: Seq<char>| self.attachments.rows_of(attachable_type@, c@, id) is None;
            let k2 = |id: Seq<char>| self.attachment_rows(attachable_type@, collection@, id) is None;
            assert(k1 =~= k2);
        }
        r
    }

    /// Records the attachments of a collection loaded for `ids`; each row
    /// comes with the id of the model it belongs to.
    pub fn store_attachments(&mut self, attachable_type: &str, collection: &str, ids: &Vec<String>, rows: Vec<(String, A)>)
        ensures
            final(self).known() == old(self).known(),
            forall|t: Seq<char>, s: TranslationShapeView, id: Seq<char>| #[trigger] final(self).translation_rows(t, s, id)
                == old(self).translation_rows(t, s, id),
            forall|t: Seq<char>, s: MetadataShapeView, id: Seq<char>| #[trigger] final(self).metadata_rows(t, s, id)
                == old(self).metadata_rows(t, s, id),
            forall|t: Seq<char>, c: Seq<char>, id: Seq<char>| #[trigger] final(self).attachment_rows(t, c, id) == if t
                == attachable_type@ && c == collection@ && views_of(ids@).contains(id) {
                Some(stored_rows(views_of(ids@), rows@, id))
            } else {
                old(self).attachment_rows(t, c, id)
            },
    {
        let c = owned(collection);
        self.attachments.store(attachable_type, &c, ids, rows);
    }

    /// Forgets the attachments of a model, in every collection.
    pub fn invalidate_attachments(&mut self, attachable_type: &str, attachable_id: &str)
        ensures
            final(self).known() == old(self).known(),
            forall|t: Seq<char>, s: TranslationShapeView, id: Seq<char>| #[trigger] final(self).translation_rows(t, s, id)
                == old(self).translation_rows(t, s, id),
            forall|t: Seq<char>, s: MetadataShapeView, id: Seq<char>| #[trigger] final(self).metadata_rows(t, s, id)
                == old(self).metadata_rows(t, s, id),
            forall|t: Seq<char>, c: Seq<char>, id: Seq<char>| #[trigger] final(self).attachment_rows(t, c, id) == if t
                == attachable_type@ && id == attachable_id@ {
                None
            } else {
                old(self).attachment_rows(t, c, id)
            },
    {
        self.attachments.forget(attachable_type, None, attachable_id);
    }

    /// Forgets the attachments of a model in one collection.
    pub fn invalidate_attachment_collection(&mut self, attachable_type: &str, attachable_id: &str, collection: &str)
        ensures
            final(self).known() == old(self).known(),
            forall|t: Seq<char>, s: TranslationShapeView, id: Seq<char>| #[trigger] final(self).translation_rows(t, s, id)
                == old(self).translation_rows(t, s, id),
            forall|t: Seq<char>, s: MetadataShapeView, id: Seq<char>| #[trigger] final(self).metadata_rows(t, s, id)
                == old(self).metadata_rows(t, s, id),
            forall|t: Seq<char>, c: Seq<char>, id: Seq<char>| #[trigger] final(self).attachment_rows(t, c, id) == if t
                == attachable_type@ && c == collection@ && id == attachable_id@ {
                None
            } else {
                old(self).attachment_rows(t, c, id)
            },
    {
        let c = owned(collection);
        self.attachments.forget(attachable_type, Some(&c), attachable_id);
    }
}

impl<A, T, M> ModelExtensionCache<A, T, M> {
    /// Clones of the translations loaded for a model id under a shape, if
    /// they were loaded.
    pub fn cached_translations(
        &self,
        translatable_type: &str,
        shape: &TranslationCacheShape,
        translatable_id: &str,
    ) -> (r: Option<Vec<T>>)
        where T: Clone,
        ensures
            match self.translation_rows(translatable_type@, shape@, translatable_id@) {
                Some(rows) => r matches Some(v) && clones_of(rows, v@),
                None => r is None,
            },
    {
        self.translations.cached(translatable_type, shape, translatable_id)
    }

    /// Knows `current_id`; then the known ids of the type, in id order,
    /// whose translations under the shape are not loaded.
    pub fn missing_translation_ids_for_known(
        &mut self,
        translatable_type: &str,
        shape: &TranslationCacheShape,
        current_id: &str,
    ) -> (r: Vec<String>)
        ensures
            final(self).known() == old(self).known().union(registered_pairs(translatable_type@, seq![current_id@])),
            final(self).same_loads(old(self)),
            strictly_sorted(views_of(r@)),
            forall|id: Seq<char>| views_of(r@).contains(id) <==> (final(self).known().contains((translatable_type@, id))
                && final(self).translation_rows(translatable_type@, shape@, id) is None),
    {
        let known = self.known_ids_with(translatable_type, current_id);
        let r = self.translations.missing_ids(translatable_type, shape, &known);
        proof {
            let keep = |id: Seq<char>| self.translations.rows_of(translatable_type@, shape@, id) is None;
            lemma_keep_ids(views_of(known@), keep);
            assert(views_of(r@) == keep_ids(views_of(known@), keep));
            assert forall|id: Seq<char>| views_of(r@).contains(id) <==> (self.known().contains((translatable_type@, id))
                && self.translation_rows(translatable_type@, shape@, id) is None) by {
                assert(keep(id) == (self.translation_rows(translatable_type@, shape@, id) is None));
                assert(views_of(known@).contains(id) <==> self.known().contains((translatable_type@, id)));
                assert(keep_ids(views_of(known@), keep).contains(id) <==> (views_of(known@).contains(id) && keep(id)));
            }
        }
        r
    }

    /// Knows `ids`; then those of them, in order, whose translations under
    /// the shape are not loaded.
    pub fn missing_translation_ids(&mut self, translatable_type: &str, shape: &TranslationCacheShape, ids: &Vec<String>) -> (r:
        Vec<String>)
        ensures
            final(self).known() == old(self).known().union(registered_pairs(translatable_type@, views_of(ids@))),
            final(self).same_loads(old(self)),
            views_of(r@) == keep_ids(
                views_of(ids@),
                |id: Seq<char>| final(self).translation_rows(translatable_type@, shape@, id) is None,
            ),
    {
        self.insert_model_ids(translatable_type, ids);
        let r = self.translations.missing_ids(translatable_type, shape, ids);
        proof {
            let k1 = |id: Seq<char>| self.translations.rows_of(translatable_type@, shape@, id) is None;
            let k2 = |id: Seq<char>| self.translation_rows(translatable_type@, shape@, id) is None;
            assert(k1 =~= k2);
        }
        r
    }

    /// Records the translations loaded under a shape for `ids`; each row
    /// comes with the id of the model it belongs to.
    pub fn store_translations(
        &mut self,
        translatable_type: &str,
        shape: TranslationCacheShape,
        ids: &Vec<String>,
        rows: Vec<(String, T)>,
    )
        ensures
            final(self).known() == old(self).known(),
            forall|t: Seq<char>, c: Seq<char>, id: Seq<char>| #[trigger] final(self).attachment_rows(t, c, id)
                == old(self).attachment_rows(t, c, id),
            forall|t: Seq<char>, s: MetadataShapeView, id: Seq<char>| #[trigger] final(self).metadata_rows(t, s, id)
                == old(self).metadata_rows(t, s, id),
            forall|t: Seq<char>, s: TranslationShapeView, id: Seq<char>| #[trigger] final(self).translation_rows(t, s, id)
                == if t == translatable_type@ && s == shape@ && views_of(ids@).contains(id) {
                Some(stored_rows(views_of(ids@), rows@, id))
            } else {
                old(self).translation_rows(t, s, id)
            },
    {
        self.translations.store(translatable_type, &shape, ids, rows);
    }

    /// Forgets the translations of a model, under every shape.
    pub fn invalidate_translations(&mut self, translatable_type: &str, translatable_id: &str)
        ensures
            final(self).known() == old(self).known(),
            forall|t: Seq<char>, c: Seq<char>, id: Seq<char>| #[trigger] final(self).attachment_rows(t, c, id)
                == old(self).attachment_rows(t, c, id),
            forall|t: Seq<char>, s: MetadataShapeView, id: Seq<char>| #[trigger] final(self).metadata_rows(t, s, id)
                == old(self).metadata_rows(t, s, id),
            forall|t: Seq<char>, s: TranslationShapeView, id: Seq<char>| #[trigger] final(self).translation_rows(t, s, id)
                == if t == translatable_type@ && id == translatable_id@ {
                None
            } else {
                old(self).translation_rows(t, s, id)
            },
    {
        self.translations.forget(translatable_type, None, translatable_id);
    }
}

impl<A, T, M> ModelExtensionCache<A, T, M> {
    /// The metadata at hand for a model id under a shape: the rows loaded
    /// under that shape, or, for one key, the rows with that key among those
    /// loaded under every key; none when neither was loaded.
    pub open spec fn metadata_at(&self, t: Seq<char>, shape: MetadataShapeView, id: Seq<char>) -> Option<Seq<MetaRow<M>>> {
        match self.metadata_rows(t, shape, id) {
            Some(rows) => Some(rows),
            None => match shape {
                MetadataShapeView::Key(k) => match self.metadata_rows(t, MetadataShapeView::All, id) {
                    Some(rows) => Some(keyed_rows(rows, k)),
                    None => None,
                },
                MetadataShapeView::All => None,
            },
        }
    }

    /// Clones of the metadata at hand for a model id under a shape (see
    /// `metadata_at`).
    pub fn cached_metadata(&self, metadatable_type: &str, shape: &MetadataCacheShape, metadatable_id: &str) -> (r: Option<
        Vec<MetaRow<M>>,
    >)
        where M: Clone,
        ensures
            match self.metadata_at(metadatable_type@, shape@, metadatable_id@) {
                Some(rows) => r matches Some(v) && clones_of(rows, v@),
                None => r is None,
            },
    {
        if let Some(rows) = self.metadata.cached(metadatable_type, shape, metadatable_id) {
            return Some(rows);
        }
        let requested = match shape {
            MetadataCacheShape::Key(k) => k,
            MetadataCacheShape::All => {
                return None;
            },
        };
        let every = MetadataCacheShape::All;
        match self.metadata.find(metadatable_type, &every, metadatable_id) {
            None => None,
            Some(i) => {
                let rows = &self.metadata.loads[i].rows;
                let ghost all = rows@;
                let mut picked: Vec<MetaRow<M>> = Vec::new();
                let mut j: usize = 0;
                while j < rows.len()
                    invariant
                        all == rows@,
                        j <= all.len(),
                        clones_of(keyed_rows(all.subrange(0, j as int), requested@), picked@),
                    decreases all.len() - j,
                {
                    let ghost before = picked@;
                    if str_eq(rows[j].key.as_str(), requested.as_str()) {
                        picked.push(rows[j].clone());
                    }
                    proof {
                        let p = all.subrange(0, j + 1);
                        assert(p.drop_last() =~= all.subrange(0, j as int));
                        assert(p.last() == all[j as int]);
                    }
                    j = j + 1;
                }
                proof {
                    assert(all.subrange(0, all.len() as int) =~= all);
                }
                Some(picked)
            },
        }
    }

    /// Knows `current_id`; then the known ids of the type, in id order,
    /// whose metadata under the shape is not at hand.
    pub fn missing_metadata_ids_for_known(&mut self, metadatable_type: &str, shape: &MetadataCacheShape, current_id: &str) -> (r:
        Vec<String>)
        ensures
            final(self).known() == old(self).known().union(registered_pairs(metadatable_type@, seq![current_id@])),
            final(self).same_loads(old(self)),
            strictly_sorted(views_of(r@)),
            forall|id: Seq<char>| views_of(r@).contains(id) <==> (final(self).known().contains((metadatable_type@, id))
                && !metadata_at_hand(
                final(self).metadata_rows(metadatable_type@, shape@, id),
                final(self).metadata_rows(metadatable_type@, MetadataShapeView::All, id),
                shape@,
            )),
    {
        let known = self.known_ids_with(metadatable_type, current_id);
        let r = self.metadata_not_at_hand(metadatable_type, shape, &known);
        proof {
            let keep = |id: Seq<char>| !metadata_at_hand(
                self.metadata_rows(metadatable_type@, shape@, id),
                self.metadata_rows(metadatable_type@, MetadataShapeView::All, id),
                shape@,
            );
            lemma_keep_ids(views_of(known@), keep);
            assert forall|id: Seq<char>| views_of(r@).contains(id) <==> (self.known().contains((metadatable_type@, id))
                && keep(id)) by {
                assert(views_of(known@).contains(id) <==> self.known().contains((metadatable_type@, id)));
                assert(keep_ids(views_of(known@), keep).contains(id) <==> (views_of(known@).contains(id) && keep(id)));
            }
        }
        r
    }

    /// Knows `ids`; then those of them, in order, whose metadata under the
    /// shape is not at hand.
    pub fn missing_metadata_ids(&mut self, metadatable_type: &str, shape: &MetadataCacheShape, ids: &Vec<String>) -> (r: Vec<
        String,
    >)
        ensures
            final(self).known() == old(self).known().union(registered_pairs(metadatable_type@, views_of(ids@))),
            final(self).same_loads(old(self)),
            views_of(r@) == keep_ids(
                views_of(ids@),
                |id: Seq<char>| !metadata_at_hand(
                    final(self).metadata_rows(metadatable_type@, shape@, id),
                    final(self).metadata_rows(metadatable_type@, MetadataShapeView::All, id),
                    shape@,
                ),
            ),
    {
        self.insert_model_ids(metadatable_type, ids);
        self.metadata_not_at_hand(metadatable_type, shape, ids)
    }

    fn metadata_not_at_hand(&self, metadatable_type: &str, shape: &MetadataCacheShape, ids: &Vec<String>) -> (r: Vec<String>)
        ensures
            views_of(r@) == keep_ids(
                views_of(ids@),
                |id: Seq<char>| !metadata_at_hand(
                    self.metadata_rows(metadatable_type@, shape@, id),
                    self.metadata_rows(metadatable_type@, MetadataShapeView::All, id),
                    shape@,
                ),
            ),
    {
        let ghost iv = views_of(ids@);
        let ghost keep = |id: Seq<char>| !metadata_at_hand(
            self.metadata_rows(metadatable_type@, shape@, id),
            self.metadata_rows(metadatable_type@, MetadataShapeView::All, id),
            shape@,
        );
        let every = MetadataCacheShape::All;
        let keyed = match shape {
            MetadataCacheShape::Key(_) => true,
            MetadataCacheShape::All => false,
        };
        let mut r: Vec<String> = Vec::new();
        let mut i: usize = 0;
        while i < ids.len()
            invariant
                iv == views_of(ids@),
                keep == (|id: Seq<char>| !metadata_at_hand(
                    self.metadata_rows(metadatable_type@, shape@, id),
                    self.metadata_rows(metadatable_type@, MetadataShapeView::All, id),
                    shape@,
                )),
                keyed == shape@ is Key,
                every@ == MetadataShapeView::All,
                i <= ids@.len(),
                views_of(r@) == keep_ids(iv.subrange(0, i as int), keep),
            decreases ids@.len() - i,
        {
            let ghost before = r@;
            let id = ids[i].as_str();
            let at_hand = self.metadata.is_loaded(metadatable_type, shape, id) || (keyed && self.metadata.is_loaded(
                metadatable_type,
                &every,
                id,
            ));
            if !at_hand {
                r.push(ids[i].clone());
            }
            proof {
                let p = iv.subrange(0, i + 1);
                assert(p.drop_last() =~= iv.subrange(0, i as int));
                assert(p.last() == id@);
                assert(keep(id@) == !at_hand);
                if !at_hand {
                    assert(views_of(r@) =~= views_of(before).push(id@));
                }
            }
            i = i + 1;
        }
        proof {
            assert(iv.subrange(0, ids@.len() as int) =~= iv);
        }
        r
    }

    /// Records the metadata loaded under a shape for `ids`; each row comes
    /// with the id of the model it belongs to.
    pub fn store_metadata(&mut self, metadatable_type: &str, shape: MetadataCacheShape, ids: &Vec<String>, rows: Vec<(String, MetaRow<M>)>)
        ensures
            final(self).known() == old(self).known(),
            forall|t: Seq<char>, c: Seq<char>, id: Seq<char>| #[trigger] final(self).attachment_rows(t, c, id)
                == old(self).attachment_rows(t, c, id),
            forall|t: Seq<char>, s: TranslationShapeView, id: Seq<char>| #[trigger] final(self).translation_rows(t, s, id)
                == old(self).translation_rows(t, s, id),
            forall|t: Seq<char>, s: MetadataShapeView, id: Seq<char>| #[trigger] final(self).metadata_rows(t, s, id)
                == if t == metadatable_type@ && s == shape@ && views_of(ids@).contains(id) {
                Some(stored_rows(views_of(ids@), rows@, id))
            } else {
                old(self).metadata_rows(t, s, id)
            },
    {
        self.metadata.store(metadatable_type, &shape, ids, rows);
    }

    /// Forgets the metadata of a model, under every shape.
    pub fn invalidate_metadata(&mut self, metadatable_type: &str, metadatable_id: &str)
        ensures
            final(self).known() == old(self).known(),
            forall|t: Seq<char>, c: Seq<char>, id: Seq<char>| #[trigger] final(self).attachment_rows(t, c, id)
                == old(self).attachment_rows(t, c, id),
            forall|t: Seq<char>, s: TranslationShapeView, id: Seq<char>| #[trigger] final(self).translation_rows(t, s, id)
                == old(self).translation_rows(t, s, id),
            forall|t: Seq<char>, s: MetadataShapeView, id: Seq<char>| #[trigger] final(self).metadata_rows(t, s, id)
                == if t == metadatable_type@ && id == metadatable_id@ {
                None
            } else {
                old(self).metadata_rows(t, s, id)
            },
    {
        self.metadata.forget(metadatable_type, None, metadatable_id);
    }
}

// ---------------------------------------------------------------------------
// Model ids from records
// ---------------------------------------------------------------------------

/// The id of a record under its primary key: its text, or its UUID in
/// hyphenated form, when that is not empty.
pub open spec fn record_id(record: DbRecord, primary_key: Seq<char>) -> Option<Seq<char>> {
    match record.field(primary_key) {
        Some(DbValue::Text(s)) => if s@.len() > 0 {
            Some(s@)
        } else {
            None
        },
        Some(DbValue::Uuid(u)) => Some(uuid_text(u)),
        _ => None,
    }
}

/// The ids of the records that have one, in order.
pub open spec fn record_ids(records: Seq<DbRecord>, primary_key: Seq<char>) -> Seq<Seq<char>>
    decreases records.len(),
{
    if records.len() == 0 {
        Seq::empty()
    } else {
        match record_id(records.last(), primary_key) {
            Some(id) => record_ids(records.drop_last(), primary_key).push(id),
            None => record_ids(records.drop_last(), primary_key),
        }
    }
}

/// The ids of loaded records under their primary key, in order; records
/// without a text or UUID id, or with an empty one, are skipped.
pub fn model_record_ids(records: &Vec<DbRecord>, primary_key: &str) -> (r: Vec<String>)
    requires
        forall|i: int| 0 <= i < records@.len() ==> (#[trigger] records@[i]).well_formed(),
    ensures
        views_of(r@) == record_ids(records@, primary_key@),
{
    let mut r: Vec<String> = Vec::new();
    let mut i: usize = 0;
    while i < records.len()
        invariant
            i <= records@.len(),
            forall|k: int| 0 <= k < records@.len() ==> (#[trigger] records@[k]).well_formed(),
            views_of(r@) == record_ids(records@.subrange(0, i as int), primary_key@),
        decreases records@.len() - i,
    {
        let ghost before = r@;
        let record = &records[i];
        proof {
            assert(record.well_formed());
        }
        match record.try_text_or_uuid(primary_key) {
            Ok(id) => {
                if id.unicode_len() > 0 {
                    r.push(id);
                }
            },
            Err(_) => {},
        }
        proof {
            let p = records@.subrange(0, i + 1);
            assert(p.drop_last() =~= records@.subrange(0, i as int));
            assert(p.last() == records@[i as int]);
            assert(uuid_text(0).len() == 36);
            if views_of(r@).len() > views_of(before).len() {
                assert(views_of(r@) =~= views_of(before).push(r@.last()@));
            }
        }
        i = i + 1;
    }
    proof {
        assert(records@.subrange(0, records@.len() as int) =~= records@);
    }
    r
}

impl<A, T, M> ModelExtensionCache<A, T, M> {
    /// Knows the ids of loaded records of a model type (see
    /// `register_model_ids`).
    pub fn register_model_records(&mut self, model_type: &str, primary_key: &str, records: &Vec<DbRecord>)
        requires
            forall|i: int| 0 <= i < records@.len() ==> (#[trigger] records@[i]).well_formed(),
        ensures
            final(self).known() == old(self).known().union(registered_pairs(model_type@, record_ids(records@, primary_key@))).union(
                if basename(model_type@) != model_type@ {
                    registered_pairs(basename(model_type@), record_ids(records@, primary_key@))
                } else {
                    Set::empty()
                },
            ),
            final(self).same_loads(old(self)),
    {
        let ids = model_record_ids(records, primary_key);
        self.register_model_ids(model_type, &ids);
    }
}

// ---------------------------------------------------------------------------
// UUID ids
// ---------------------------------------------------------------------------

/// What `uuid::Uuid::parse_str` makes of a text: the UUID's value, or the
/// crate's error message.
pub uninterp spec fn uuid_parse(text: Seq<char>) -> Result<u128, Seq<char>>;

/// `uuid::Uuid::parse_str`, with the UUID as its 128-bit value and an error
/// as its message. Claims only that the result is `uuid_parse` of the text:
/// which texts the crate accepts is left unsaid.
#[verifier::external_body]
fn parse_uuid(text: &str) -> (r: Result<u128, String>)
    ensures
        r is Ok <==> uuid_parse(text@) is Ok,
        r matches Ok(v) ==> (uuid_parse(text@) matches Ok(w) && w == v),
        r matches Err(e) ==> (uuid_parse(text@) matches Err(m) && e@ == m),
{
    match uuid::Uuid::parse_str(text) {
        Ok(id) => Ok(id.as_u128()),
        Err(error) => Err(error.to_string()),
    }
}

/// The message for an id that is not a UUID.
pub open spec fn not_a_uuid_message(id: Seq<char>, error: Seq<char>) -> Seq<char> {
    "model extension batching expected UUID id `"@ + id + "`: "@ + error
}

/// The UUIDs of model ids, for a batched query on a UUID key; the first id
/// that is not a UUID is refused.
pub fn uuid_array_from_ids(ids: &Vec<String>) -> (r: Result<Vec<u128>, Error>)
    ensures
        (forall|i: int| 0 <= i < ids@.len() ==> uuid_parse(#[trigger] ids@[i]@) is Ok) ==> (r matches Ok(v)
            && v@.len() == ids@.len()
            && forall|i: int| 0 <= i < ids@.len() ==> uuid_parse(#[trigger] ids@[i]@) == Ok::<u128, Seq<char>>(v@[i])),
        forall|k: int| 0 <= k < ids@.len() && (forall|j: int| 0 <= j < k ==> uuid_parse(#[trigger] ids@[j]@) is Ok) ==> ((
        #[trigger] uuid_parse(ids@[k]@)) matches Err(m) ==> (r matches Err(e) && e.is_plain() && e@ == not_a_uuid_message(ids@[k]@, m))),
{
    let mut values: Vec<u128> = Vec::new();
    let mut i: usize = 0;
    while i < ids.len()
        invariant
            i <= ids@.len(),
            values@.len() == i,
            forall|j: int| 0 <= j < i ==> uuid_parse(#[trigger] ids@[j]@) == Ok::<u128, Seq<char>>(values@[j]),
        decreases ids@.len() - i,
    {
        match parse_uuid(ids[i].as_str()) {
            Ok(v) => values.push(v),
            Err(error) => {
                let mut m = owned("model extension batching expected UUID id `");
                m.append(ids[i].as_str());
                m.append("`: ");
                m.append(error.as_str());
                proof {
                    assert forall|k: int| 0 <= k < ids@.len() && (forall|j: int| 0 <= j < k ==> uuid_parse(#[trigger] ids@[j]@) is Ok)
                        && (#[trigger] uuid_parse(ids@[k]@)) is Err implies k == i by {
                        if k < i {
                        } else if k > i {
                            assert(uuid_parse(ids@[i as int]@) is Ok);
                        }
                    }
                }
                return Err(Error::message(m));
            },
        }
        i = i + 1;
    }
    Ok(values)
}

// ---------------------------------------------------------------------------
// Laws
// ---------------------------------------------------------------------------

/// What a store records, a read gives back: once rows are stored for ids
/// that name a model once, that model's rows are the rows it owns, and it
/// is no longer among the ids missing their rows.
pub proof fn law_stored_rows_are_read_back<S: CacheShape, R>(
    before: RowCache<S, R>,
    after: RowCache<S, R>,
    t: Seq<char>,
    s: S::V,
    ids: Seq<Seq<char>>,
    rows: Seq<(String, R)>,
    id: Seq<char>,
)
    requires
        forall|t2: Seq<char>, s2: S::V, id2: Seq<char>| #[trigger] after.rows_of(t2, s2, id2) == if t2 == t && s2 == s
            && ids.contains(id2) {
            Some(stored_rows(ids, rows, id2))
        } else {
            before.rows_of(t2, s2, id2)
        },
        ids.contains(id),
        first_index(ids, id) == last_index(ids, id),
    ensures
        after.rows_of(t, s, id) == Some(owned_rows(rows, id)),
        !keep_ids(ids, |x: Seq<char>| after.rows_of(t, s, x) is None).contains(id),
{
    lemma_keep_ids(ids, |x: Seq<char>| after.rows_of(t, s, x) is None);
}

/// A store leaves what it does not name alone: the rows of other model
/// types, shapes and ids are what they were.
pub proof fn law_store_keeps_other_rows<S: CacheShape, R>(
    before: RowCache<S, R>,
    after: RowCache<S, R>,
    t: Seq<char>,
    s: S::V,
    ids: Seq<Seq<char>>,
    rows: Seq<(String, R)>,
    t2: Seq<char>,
    s2: S::V,
    id2: Seq<char>,
)
    requires
        forall|t3: Seq<char>, s3: S::V, id3: Seq<char>| #[trigger] after.rows_of(t3, s3, id3) == if t3 == t && s3 == s
            && ids.contains(id3) {
            Some(stored_rows(ids, rows, id3))
        } else {
            before.rows_of(t3, s3, id3)
        },
        t2 != t || s2 != s || !ids.contains(id2),
    ensures
        after.rows_of(t2, s2, id2) == before.rows_of(t2, s2, id2),
{
    assert(after.rows_of(t2, s2, id2) == before.rows_of(t2, s2, id2));
}

/// An invalidated model has nothing loaded under any shape, so the next
/// batch that asks for it loads it again.
pub proof fn law_invalidated_rows_are_missing<S: CacheShape, R>(
    before: RowCache<S, R>,
    after: RowCache<S, R>,
    t: Seq<char>,
    id: Seq<char>,
    s: S::V,
    ids: Seq<Seq<char>>,
)
    requires
        forall|t2: Seq<char>, s2: S::V, id2: Seq<char>| #[trigger] after.rows_of(t2, s2, id2) == if forgets(
            t,
            None::<S::V>,
            id,
            t2,
            s2,
            id2,
        ) {
            None
        } else {
            before.rows_of(t2, s2, id2)
        },
        ids.contains(id),
    ensures
        after.rows_of(t, s, id) is None,
        keep_ids(ids, |x: Seq<char>| after.rows_of(t, s, x) is None).contains(id),
{
    assert(forgets(t, None::<S::V>, id, t, s, id));
    assert(after.rows_of(t, s, id) is None);
    lemma_keep_ids(ids, |x: Seq<char>| after.rows_of(t, s, x) is None);
}

/// Metadata loaded under every key answers a request for one key: a model
/// whose metadata is loaded under every key is never among the ids missing
/// the metadata of one key.
pub proof fn law_all_metadata_covers_each_key<A, T, M>(
    cache: ModelExtensionCache<A, T, M>,
    t: Seq<char>,
    k: Seq<char>,
    ids: Seq<Seq<char>>,
    id: Seq<char>,
)
    requires
        cache.metadata_rows(t, MetadataShapeView::All, id) is Some,
    ensures
        !keep_ids(
            ids,
            |x: Seq<char>| !metadata_at_hand(
                cache.metadata_rows(t, MetadataShapeView::Key(k), x),
                cache.metadata_rows(t, MetadataShapeView::All, x),
                MetadataShapeView::Key(k),
            ),
        ).contains(id),
{
    let keep = |x: Seq<char>| !metadata_at_hand(
        cache.metadata_rows(t, MetadataShapeView::Key(k), x),
        cache.metadata_rows(t, MetadataShapeView::All, x),
        MetadataShapeView::Key(k),
    );
    lemma_keep_ids(ids, keep);
    assert(!keep(id));
    assert(keep =~= (|x: Seq<char>| !metadata_at_hand(
        cache.metadata_rows(t, MetadataShapeView::Key(k), x),
        cache.metadata_rows(t, MetadataShapeView::All, x),
        MetadataShapeView::Key(k),
    )));
}

/// What a store of attachments records, a read gives back: after the
/// attachments of a collection are stored for ids that name a model once,
/// that model's attachments are the rows it owns, in the order given, and
/// it is no longer among the ids missing attachments of that collection.
pub proof fn law_stored_attachments_are_read_back<A, T, M>(
    before: ModelExtensionCache<A, T, M>,
    after: ModelExtensionCache<A, T, M>,
    t: Seq<char>,
    collection: Seq<char>,
    ids: Seq<Seq<char>>,
    rows: Seq<(String, A)>,
    id: Seq<char>,
)
    requires
        forall|t2: Seq<char>, c2: Seq<char>, id2: Seq<char>| #[trigger] after.attachment_rows(t2, c2, id2) == if t2 == t
            && c2 == collection && ids.contains(id2) {
            Some(stored_rows(ids, rows, id2))
        } else {
            before.attachment_rows(t2, c2, id2)
        },
        ids.contains(id),
        first_index(ids, id) == last_index(ids, id),
    ensures
        after.attachment_rows(t, collection, id) == Some(owned_rows(rows, id)),
        !keep_ids(ids, |x: Seq<char>| after.attachment_rows(t, collection, x) is None).contains(id),
{
    let keep = |x: Seq<char>| after.attachment_rows(t, collection, x) is None;
    lemma_keep_ids(ids, keep);
    assert(after.attachment_rows(t, collection, id) == Some(owned_rows(rows, id)));
    assert(!keep(id));
}

/// Metadata stored under every key answers a read of one key: after the
/// metadata of ids that name a model once is stored under every key, and
/// while nothing is loaded for that model under the key itself, the
/// metadata at hand for the key is the model's rows with that key, in the
/// order given, and the model is not missing it.
pub proof fn law_all_metadata_is_read_back_by_key<A, T, M>(
    before: ModelExtensionCache<A, T, M>,
    after: ModelExtensionCache<A, T, M>,
    t: Seq<char>,
    ids: Seq<Seq<char>>,
    rows: Seq<(String, MetaRow<M>)>,
    id: Seq<char>,
    k: Seq<char>,
)
    requires
        forall|t2: Seq<char>, s2: MetadataShapeView, id2: Seq<char>| #[trigger] after.metadata_rows(t2, s2, id2) == if t2 == t
            && s2 == MetadataShapeView::All && ids.contains(id2) {
            Some(stored_rows(ids, rows, id2))
        } else {
            before.metadata_rows(t2, s2, id2)
        },
        ids.contains(id),
        first_index(ids, id) == last_index(ids, id),
        after.metadata_rows(t, MetadataShapeView::Key(k), id) is None,
    ensures
        after.metadata_at(t, MetadataShapeView::Key(k), id) == Some(keyed_rows(owned_rows(rows, id), k)),
        !keep_ids(
            ids,
            |x: Seq<char>| !metadata_at_hand(
                after.metadata_rows(t, MetadataShapeView::Key(k), x),
                after.metadata_rows(t, MetadataShapeView::All, x),
                MetadataShapeView::Key(k),
            ),
        ).contains(id),
{
    assert(after.metadata_rows(t, MetadataShapeView::All, id) == Some(owned_rows(rows, id)));
    law_all_metadata_covers_each_key(after, t, k, ids, id);
}

} // verus!
