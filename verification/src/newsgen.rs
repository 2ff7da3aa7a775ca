//! The news generator: articles written as text files with a header of
//! directives, rendered to HTML, and a least-recently-used cache of rendered
//! pages keyed by the files they come from and when those were modified.
//!
//! Reading files, the cache file and the templates is left to the caller.
use vstd::prelude::*;
use vstd::std_specs::cmp::PartialEqSpecImpl;
use crate::lru::{
    inserted, key_index, lru_capacity, lru_entries, lru_get, lru_insert, lru_new,
    lru_remove_lru, refreshed, without_key,
};
use crate::http::{html_page, plain, Response, ResponseModel};
use crate::markdown::{markdown_html, markdown_to_html};
use crate::text::{
    chars_eq, chars_of, find_colon_space, find_colon_space_in, join, lines, next_line, slice_range,
    str_eq, string_of, string_of_all,
};
use lru_cache::LruCache;

verus! {

/// A file of the news directory: its path and when it was last modified
/// (nanoseconds since the UNIX epoch, negative before it).
pub struct FileIndex {
    filename: String,
    modified_time: i128,
}

impl View for FileIndex {
    type V = (Seq<char>, i128);

    closed spec fn view(&self) -> (Seq<char>, i128) {
        (self.filename@, self.modified_time)
    }
}

impl FileIndex {
    pub fn new(filename: String, modified_time: i128) -> (r: FileIndex)
        ensures
            r@ == (filename@, modified_time),
    {
        FileIndex { filename, modified_time }
    }

    pub fn filename(&self) -> (r: &str)
        ensures
            r@ == self@.0,
    {
        self.filename.as_str()
    }

    pub fn modified_time(&self) -> (r: i128)
        ensures
            r == self@.1,
    {
        self.modified_time
    }

    /// A copy of this index.
    pub fn copy(&self) -> (r: FileIndex)
        ensures
            r@ == self@,
    {
        FileIndex { filename: self.filename.clone(), modified_time: self.modified_time }
    }
}

impl PartialEq for FileIndex {
    fn eq(&self, other: &FileIndex) -> (r: bool) {
        self.filename == other.filename && self.modified_time == other.modified_time
    }
}

impl PartialEqSpecImpl for FileIndex {
    open spec fn obeys_eq_spec() -> bool {
        true
    }

    open spec fn eq_spec(&self, other: &FileIndex) -> bool {
        self@ == other@
    }
}

/// The views of a list of file indexes.
pub open spec fn indexes_view(v: Seq<FileIndex>) -> Seq<(Seq<char>, i128)> {
    v.map_values(|f: FileIndex| f@)
}

/// What a cache entry is for: one article's file, or the table of contents
/// of a whole directory listing.
pub enum CacheKey {
    Document(FileIndex),
    Aggregate(Vec<FileIndex>),
}

/// A cache key as mathematical values.
pub enum CacheKeyModel {
    Document((Seq<char>, i128)),
    Aggregate(Seq<(Seq<char>, i128)>),
}

impl View for CacheKey {
    type V = CacheKeyModel;

    open spec fn view(&self) -> CacheKeyModel {
        match self {
            CacheKey::Document(f) => CacheKeyModel::Document(f@),
            CacheKey::Aggregate(v) => CacheKeyModel::Aggregate(indexes_view(v@)),
        }
    }
}

/// Whether two listings count as the same: as long as each other, and every
/// file of the first one is somewhere in the second.
pub open spec fn listings_match(a: Seq<(Seq<char>, i128)>, b: Seq<(Seq<char>, i128)>) -> bool {
    a.len() == b.len() && forall|i: int| 0 <= i < a.len() ==> #[trigger] in_listing(a[i], b)
}

/// Whether a file is in a listing.
pub open spec fn in_listing(x: (Seq<char>, i128), b: Seq<(Seq<char>, i128)>) -> bool {
    exists|j: int| 0 <= j < b.len() && b[j] == x
}

/// Whether two cache keys count as equal: same kind, and the same file, or
/// matching listings.
pub open spec fn keys_match(a: CacheKeyModel, b: CacheKeyModel) -> bool {
    match a {
        CacheKeyModel::Document(x) => match b {
            CacheKeyModel::Document(y) => x == y,
            CacheKeyModel::Aggregate(_) => false,
        },
        CacheKeyModel::Aggregate(x) => match b {
            CacheKeyModel::Aggregate(y) => listings_match(x, y),
            CacheKeyModel::Document(_) => false,
        },
    }
}

fn file_index_eq(a: &FileIndex, b: &FileIndex) -> (r: bool)
    ensures
        r == (a@ == b@),
{
    a.filename == b.filename && a.modified_time == b.modified_time
}

/// Whether `x` is among `list[..]`.
fn contains_index(list: &Vec<FileIndex>, x: &FileIndex) -> (r: bool)
    ensures
        r == in_listing(x@, indexes_view(list@)),
{
    let mut j: usize = 0;
    while j < list.len()
        invariant
            j <= list@.len(),
            forall|k: int| 0 <= k < j ==> x@ != #[trigger] indexes_view(list@)[k],
        decreases list.len() - j,
    {
        if file_index_eq(x, &list[j]) {
            assert(x@ == indexes_view(list@)[j as int]);
            return true;
        }
        j = j + 1;
    }
    false
}

impl CacheKey {
    /// The file of a document key.
    pub fn unwrap_document(&self) -> (r: &FileIndex)
        requires
            self is Document,
        ensures
            self@ == CacheKeyModel::Document(r@),
    {
        match self {
            CacheKey::Document(result) => result,
            CacheKey::Aggregate(_) => vstd::pervasive::unreached(),
        }
    }

    /// The listing of an aggregate key.
    pub fn unwrap_aggregate(&self) -> (r: &Vec<FileIndex>)
        requires
            self is Aggregate,
        ensures
            self@ == CacheKeyModel::Aggregate(indexes_view(r@)),
    {
        match self {
            CacheKey::Aggregate(result) => result,
            CacheKey::Document(_) => vstd::pervasive::unreached(),
        }
    }

    /// A copy of this key.
    pub fn copy(&self) -> (r: CacheKey)
        ensures
            r@ == self@,
    {
        match self {
            CacheKey::Document(f) => CacheKey::Document(f.copy()),
            CacheKey::Aggregate(list) => {
                let mut out: Vec<FileIndex> = Vec::new();
                let mut i: usize = 0;
                while i < list.len()
                    invariant
                        i <= list@.len(),
                        out@.len() == i,
                        forall|k: int| 0 <= k < i ==> #[trigger] out@[k]@ == list@[k]@,
                    decreases list.len() - i,
                {
                    out.push(list[i].copy());
                    i = i + 1;
                }
                assert(indexes_view(out@) =~= indexes_view(list@));
                CacheKey::Aggregate(out)
            },
        }
    }

    /// Whether two keys are the same key (same kind, same files in the same
    /// order).
    pub fn same(&self, other: &CacheKey) -> (r: bool)
        ensures
            r == (self@ == other@),
    {
        match (self, other) {
            (CacheKey::Document(a), CacheKey::Document(b)) => file_index_eq(a, b),
            (CacheKey::Aggregate(a), CacheKey::Aggregate(b)) => {
                if a.len() != b.len() {
                    assert(indexes_view(a@).len() != indexes_view(b@).len());
                    return false;
                }
                let mut i: usize = 0;
                assert(self@ == CacheKeyModel::Aggregate(indexes_view(a@)));
                assert(other@ == CacheKeyModel::Aggregate(indexes_view(b@)));
                while i < a.len()
                    invariant
                        self@ == CacheKeyModel::Aggregate(indexes_view(a@)),
                        other@ == CacheKeyModel::Aggregate(indexes_view(b@)),
                        i <= a@.len() == b@.len(),
                        forall|k: int| 0 <= k < i ==> #[trigger] a@[k]@ == b@[k]@,
                    decreases a.len() - i,
                {
                    if !file_index_eq(&a[i], &b[i]) {
                        assert(indexes_view(a@)[i as int] != indexes_view(b@)[i as int]);
                        return false;
                    }
                    i = i + 1;
                }
                assert(indexes_view(a@) =~= indexes_view(b@));
                true
            },
            (CacheKey::Document(_), CacheKey::Aggregate(_)) => false,
            (CacheKey::Aggregate(_), CacheKey::Document(_)) => false,
        }
    }
}

impl PartialEq for CacheKey {
    fn eq(&self, other: &CacheKey) -> (r: bool) {
        match self {
            CacheKey::Document(index) => match other {
                CacheKey::Document(other_index) => {
                    let r = file_index_eq(index, other_index);
                    assert(self@ == CacheKeyModel::Document(index@));
                    assert(other@ == CacheKeyModel::Document(other_index@));
                    r
                },
                CacheKey::Aggregate(_) => false,
            },
            CacheKey::Aggregate(list) => match other {
                CacheKey::Aggregate(other_list) => {
                    if list.len() != other_list.len() {
                        assert(indexes_view(list@).len() != indexes_view(other_list@).len());
                        assert(self@ == CacheKeyModel::Aggregate(indexes_view(list@)));
                        assert(other@ == CacheKeyModel::Aggregate(indexes_view(other_list@)));
                        return false;
                    }
                    let mut i: usize = 0;
                    assert(self@ == CacheKeyModel::Aggregate(indexes_view(list@)));
                    assert(other@ == CacheKeyModel::Aggregate(indexes_view(other_list@)));
                    while i < list.len()
                        invariant
                            self@ == CacheKeyModel::Aggregate(indexes_view(list@)),
                            other@ == CacheKeyModel::Aggregate(indexes_view(other_list@)),
                            i <= list@.len() == other_list@.len(),
                            forall|k: int|
                                0 <= k < i ==> #[trigger] in_listing(
                                    indexes_view(list@)[k],
                                    indexes_view(other_list@),
                                ),
                        decreases list.len() - i,
                    {
                        let found = contains_index(other_list, &list[i]);
                        assert(indexes_view(list@)[i as int] == list@[i as int]@);
                        if !found {
                            return false;
                        }
                        i = i + 1;
                    }
                    assert(indexes_view(list@).len() == indexes_view(other_list@).len());
                    assert(listings_match(indexes_view(list@), indexes_view(other_list@)));
                    true
                },
                CacheKey::Document(_) => false,
            },
        }
    }
}

impl PartialEqSpecImpl for CacheKey {
    open spec fn obeys_eq_spec() -> bool {
        true
    }

    open spec fn eq_spec(&self, other: &CacheKey) -> bool {
        keys_match(self@, other@)
    }
}

// ---------------------------------------------------------------------------
// Facts about the cache's entry lists
// ---------------------------------------------------------------------------

/// Whether no two entries share a key.
pub open spec fn distinct_keys<K>(e: Seq<(K, Seq<char>)>) -> bool {
    forall|i: int, j: int| 0 <= i < e.len() && 0 <= j < e.len() && i != j ==> e[i].0 != e[j].0
}

/// Whether `k` is the key of some entry.
pub open spec fn has_key<K>(e: Seq<(K, Seq<char>)>, k: K) -> bool {
    exists|i: int| 0 <= i < e.len() && e[i].0 == k
}

pub proof fn lemma_key_index<K>(e: Seq<(K, Seq<char>)>, k: K)
    ensures
        key_index(e, k) matches Some(i) ==> 0 <= i < e.len() && e[i].0 == k,
        key_index(e, k) is None <==> !has_key(e, k),
        distinct_keys(e) ==> forall|i: int|
            0 <= i < e.len() && e[i].0 == k ==> key_index(e, k) == Some(i),
    decreases e.len(),
{
    if e.len() > 0 {
        let d = e.drop_last();
        lemma_key_index(d, k);
        if e.last().0 != k {
            if has_key(e, k) {
                let i = choose|i: int| 0 <= i < e.len() && e[i].0 == k;
                assert(d[i].0 == k);
            }
            if has_key(d, k) {
                let i = choose|i: int| 0 <= i < d.len() && d[i].0 == k;
                assert(e[i].0 == k);
            }
        } else {
            assert(e[e.len() - 1].0 == k);
        }
        if distinct_keys(e) {
            assert(distinct_keys(d)) by {
                assert forall|i: int, j: int|
                    0 <= i < d.len() && 0 <= j < d.len() && i != j implies d[i].0 != d[j].0 by {
                    assert(d[i] == e[i] && d[j] == e[j]);
                }
            }
            assert forall|i: int| 0 <= i < e.len() && e[i].0 == k implies key_index(e, k) == Some(
                i,
            ) by {
                if i < e.len() - 1 {
                    assert(d[i] == e[i]);
                }
            }
        }
    }
}

pub proof fn lemma_without_key<K>(e: Seq<(K, Seq<char>)>, k: K)
    ensures
        !has_key(without_key(e, k), k),
        forall|x: (K, Seq<char>)| without_key(e, k).contains(x) ==> e.contains(x),
        forall|x: (K, Seq<char>)| e.contains(x) && x.0 != k ==> without_key(e, k).contains(x),
        distinct_keys(e) ==> distinct_keys(without_key(e, k)),
        !has_key(e, k) ==> without_key(e, k) == e,
        without_key(e, k).len() <= e.len(),
        has_key(e, k) && distinct_keys(e) ==> without_key(e, k).len() == e.len() - 1,
    decreases e.len(),
{
    if e.len() > 0 {
        let d = e.drop_last();
        lemma_without_key(d, k);
        let w = without_key(d, k);
        assert forall|x: (K, Seq<char>)| d.contains(x) implies e.contains(x) by {
            let i = choose|i: int| 0 <= i < d.len() && d[i] == x;
            assert(e[i] == x);
        }
        assert forall|x: (K, Seq<char>)| e.contains(x) implies d.contains(x) || x == e.last() by {
            let i = choose|i: int| 0 <= i < e.len() && e[i] == x;
            if i < e.len() - 1 {
                assert(d[i] == x);
            }
        }
        if distinct_keys(e) {
            assert(distinct_keys(d)) by {
                assert forall|i: int, j: int|
                    0 <= i < d.len() && 0 <= j < d.len() && i != j implies d[i].0 != d[j].0 by {
                    assert(d[i] == e[i] && d[j] == e[j]);
                }
            }
            assert(!has_key(d, e.last().0)) by {
                if has_key(d, e.last().0) {
                    let i = choose|i: int| 0 <= i < d.len() && d[i].0 == e.last().0;
                    assert(e[i] == d[i]);
                }
            }
        }
        if e.last().0 != k {
            let r = w.push(e.last());
            assert(r.last() == e.last());
            assert forall|x: (K, Seq<char>)| r.contains(x) implies w.contains(x) || x == e.last() by {
                let i = choose|i: int| 0 <= i < r.len() && r[i] == x;
                if i < w.len() {
                    assert(w[i] == x);
                }
            }
            assert forall|x: (K, Seq<char>)| w.contains(x) implies r.contains(x) by {
                let i = choose|i: int| 0 <= i < w.len() && w[i] == x;
                assert(r[i] == x);
            }
            assert(r.contains(e.last())) by {
                assert(r[r.len() - 1] == e.last());
            }
            assert(!has_key(r, k)) by {
                if has_key(r, k) {
                    let i = choose|i: int| 0 <= i < r.len() && r[i].0 == k;
                    if i < w.len() {
                        assert(w[i] == r[i]);
                    }
                }
            }
            if distinct_keys(e) {
                assert forall|i: int, j: int|
                    0 <= i < r.len() && 0 <= j < r.len() && i != j implies r[i].0 != r[j].0 by {
                    if i < w.len() && j < w.len() {
                        assert(r[i] == w[i] && r[j] == w[j]);
                    } else if i < w.len() {
                        assert(w.contains(r[i])) by {
                            assert(w[i] == r[i]);
                        }
                        assert(d.contains(r[i]));
                        assert(has_key(d, r[i].0)) by {
                            let t = choose|t: int| 0 <= t < d.len() && d[t] == r[i];
                        }
                    } else if j < w.len() {
                        assert(w.contains(r[j])) by {
                            assert(w[j] == r[j]);
                        }
                        assert(d.contains(r[j]));
                        assert(has_key(d, r[j].0)) by {
                            let t = choose|t: int| 0 <= t < d.len() && d[t] == r[j];
                        }
                    }
                }
            }
            if !has_key(e, k) {
                assert(!has_key(d, k)) by {
                    if has_key(d, k) {
                        let i = choose|i: int| 0 <= i < d.len() && d[i].0 == k;
                        assert(e[i] == d[i]);
                    }
                }
                assert(r =~= e);
            }
            if has_key(e, k) {
                let i = choose|i: int| 0 <= i < e.len() && e[i].0 == k;
                assert(i < d.len());
                assert(d[i] == e[i]);
                assert(has_key(d, k));
            }
        } else {
            assert(has_key(e, k)) by {
                assert(e[e.len() - 1].0 == k);
            }
            if distinct_keys(e) {
                assert(!has_key(d, k));
            }
        }
    }
}

/// The cache keys' views.
pub open spec fn key_models(keys: Seq<CacheKey>) -> Seq<CacheKeyModel> {
    keys.map_values(|k: CacheKey| k@)
}

/// Entries keyed by position in the key table, seen with their keys.
pub open spec fn model_entries(e: Seq<(u64, Seq<char>)>, km: Seq<CacheKeyModel>) -> Seq<
    (CacheKeyModel, Seq<char>),
> {
    e.map_values(|p: (u64, Seq<char>)| (km[p.0 as int], p.1))
}

/// Whether every entry's key is a position in a table of `n` keys.
pub open spec fn ids_below(e: Seq<(u64, Seq<char>)>, n: nat) -> bool {
    forall|i: int| 0 <= i < e.len() ==> (#[trigger] e[i]).0 < n
}

/// Whether no key occurs twice in the table.
pub open spec fn injective(km: Seq<CacheKeyModel>) -> bool {
    forall|i: int, j: int| 0 <= i < km.len() && 0 <= j < km.len() && i != j ==> km[i] != km[j]
}

proof fn lemma_model_entries_drop_last(e: Seq<(u64, Seq<char>)>, km: Seq<CacheKeyModel>)
    requires
        e.len() > 0,
    ensures
        model_entries(e.drop_last(), km) == model_entries(e, km).drop_last(),
        model_entries(e, km).last() == (km[e.last().0 as int], e.last().1),
{
    assert(model_entries(e.drop_last(), km) =~= model_entries(e, km).drop_last());
}

proof fn lemma_model_entries_push(
    e: Seq<(u64, Seq<char>)>,
    km: Seq<CacheKeyModel>,
    x: (u64, Seq<char>),
)
    ensures
        model_entries(e.push(x), km) == model_entries(e, km).push((km[x.0 as int], x.1)),
{
    assert(model_entries(e.push(x), km) =~= model_entries(e, km).push((km[x.0 as int], x.1)));
}

proof fn lemma_ids_below_contains(e: Seq<(u64, Seq<char>)>, f: Seq<(u64, Seq<char>)>, n: nat)
    requires
        ids_below(e, n),
        forall|x: (u64, Seq<char>)| f.contains(x) ==> e.contains(x),
    ensures
        ids_below(f, n),
{
    assert forall|i: int| 0 <= i < f.len() implies (#[trigger] f[i]).0 < n by {
        assert(f.contains(f[i]));
        let t = choose|t: int| 0 <= t < e.len() && e[t] == f[i];
        assert(e[t].0 < n);
    }
}

/// Looking a key up by its position in the table is looking it up by the
/// key itself.
proof fn lemma_key_index_models(e: Seq<(u64, Seq<char>)>, km: Seq<CacheKeyModel>, j: u64)
    requires
        ids_below(e, km.len()),
        injective(km),
        j < km.len(),
    ensures
        key_index(model_entries(e, km), km[j as int]) == key_index(e, j),
        model_entries(without_key(e, j), km) == without_key(model_entries(e, km), km[j as int]),
    decreases e.len(),
{
    if e.len() > 0 {
        let d = e.drop_last();
        assert(ids_below(d, km.len())) by {
            assert forall|i: int| 0 <= i < d.len() implies (#[trigger] d[i]).0 < km.len() by {
                assert(d[i] == e[i]);
            }
        }
        lemma_key_index_models(d, km, j);
        lemma_model_entries_drop_last(e, km);
        assert(e[e.len() - 1].0 < km.len());
        let m = model_entries(e, km);
        assert(m.drop_last() == model_entries(d, km));
        if e.last().0 != j {
            assert(km[e.last().0 as int] != km[j as int]);
            lemma_model_entries_push(without_key(d, j), km, e.last());
        }
    } else {
        assert(model_entries(e, km) =~= Seq::<(CacheKeyModel, Seq<char>)>::empty());
    }
}

/// A key that is not in the table is not among the entries.
proof fn lemma_key_index_absent(e: Seq<(u64, Seq<char>)>, km: Seq<CacheKeyModel>, k: CacheKeyModel)
    requires
        ids_below(e, km.len()),
        forall|t: int| 0 <= t < km.len() ==> km[t] != k,
    ensures
        key_index(model_entries(e, km), k) is None,
        without_key(model_entries(e, km), k) == model_entries(e, km),
{
    let m = model_entries(e, km);
    lemma_key_index(m, k);
    lemma_without_key(m, k);
    assert(!has_key(m, k)) by {
        if has_key(m, k) {
            let i = choose|i: int| 0 <= i < m.len() && m[i].0 == k;
            assert(e[i].0 < km.len());
        }
    }
}

/// Growing the key table changes nothing for entries whose positions were
/// already in it.
proof fn lemma_model_entries_extend(
    e: Seq<(u64, Seq<char>)>,
    km: Seq<CacheKeyModel>,
    k: CacheKeyModel,
)
    requires
        ids_below(e, km.len()),
    ensures
        model_entries(e, km.push(k)) == model_entries(e, km),
{
    assert forall|i: int| 0 <= i < e.len() implies #[trigger] model_entries(e, km.push(k))[i]
        == model_entries(e, km)[i] by {
        assert(e[i].0 < km.len());
    }
    assert(model_entries(e, km.push(k)) =~= model_entries(e, km));
}

/// The entries after inserting each of `items` in turn.
pub open spec fn inserted_all(
    e: Seq<(CacheKeyModel, Seq<char>)>,
    items: Seq<(CacheKeyModel, Seq<char>)>,
    cap: nat,
) -> Seq<(CacheKeyModel, Seq<char>)>
    decreases items.len(),
{
    if items.len() == 0 {
        e
    } else {
        inserted(inserted_all(e, items.drop_last(), cap), items.last().0, items.last().1, cap)
    }
}

/// The rendered pages cached, least recently used first.
pub struct Newsgen {
    cache: LruCache<u64, String>,
    keys: Vec<CacheKey>,
}

impl Newsgen {
    /// The entries of the cache, from the least to the most recently used.
    pub closed spec fn entries(&self) -> Seq<(CacheKeyModel, Seq<char>)> {
        model_entries(lru_entries(self.cache), key_models(self.keys@))
    }

    /// How many entries the cache keeps at most.
    pub closed spec fn capacity(&self) -> nat {
        lru_capacity(self.cache)
    }

    /// Whether the cache's bookkeeping is consistent.
    pub closed spec fn wf(&self) -> bool {
        &&& injective(key_models(self.keys@))
        &&& ids_below(lru_entries(self.cache), self.keys@.len())
        &&& distinct_keys(lru_entries(self.cache))
        &&& lru_entries(self.cache).len() <= lru_capacity(self.cache)
    }

    /// The facts about the entries that hold of every consistent cache: no
    /// key twice, and no more entries than the capacity.
    pub proof fn lemma_wf(&self)
        requires
            self.wf(),
        ensures
            distinct_keys(self.entries()),
            self.entries().len() <= self.capacity(),
    {
        let e = lru_entries(self.cache);
        let km = key_models(self.keys@);
        let m = self.entries();
        assert forall|i: int, j: int|
            0 <= i < m.len() && 0 <= j < m.len() && i != j implies m[i].0 != m[j].0 by {
            assert(e[i].0 < km.len() && e[j].0 < km.len());
            assert(e[i].0 != e[j].0);
        }
    }

    /// An empty cache that keeps at most `cache_size` entries.
    pub fn new(cache_size: usize) -> (r: Newsgen)
        ensures
            r.wf(),
            r.entries() == Seq::<(CacheKeyModel, Seq<char>)>::empty(),
            r.capacity() == cache_size,
    {
        let r = Newsgen { cache: lru_new(cache_size), keys: Vec::new() };
        assert(r.entries() =~= Seq::<(CacheKeyModel, Seq<char>)>::empty());
        r
    }

    /// The position of `key` in the key table.
    fn key_id(&self, key: &CacheKey) -> (r: Option<usize>)
        ensures
            r matches Some(j) ==> j < self.keys@.len() && key_models(self.keys@)[j as int] == key@,
            r is None ==> forall|t: int|
                0 <= t < self.keys@.len() ==> key_models(self.keys@)[t] != key@,
    {
        let mut j: usize = 0;
        while j < self.keys.len()
            invariant
                j <= self.keys@.len(),
                forall|t: int| 0 <= t < j ==> key_models(self.keys@)[t] != key@,
            decreases self.keys.len() - j,
        {
            if self.keys[j].same(key) {
                return Some(j);
            }
            j = j + 1;
        }
        None
    }

    /// The cached page for `key`, if any; its entry becomes the most
    /// recently used.
    pub fn lookup(&mut self, key: &CacheKey) -> (r: Option<String>)
        requires
            old(self).wf(),
        ensures
            final(self).wf(),
            match key_index(old(self).entries(), key@) {
                Some(i) => r matches Some(v) && v@ == old(self).entries()[i].1,
                None => r is None,
            },
            final(self).entries() == refreshed(old(self).entries(), key@),
            final(self).capacity() == old(self).capacity(),
    {
        let ghost km = key_models(self.keys@);
        let ghost e = lru_entries(self.cache);
        match self.key_id(key) {
            None => {
                proof {
                    lemma_key_index_absent(e, km, key@);
                }
                None
            },
            Some(j) => {
                proof {
                    lemma_key_index_models(e, km, j as u64);
                    lemma_key_index(e, j as u64);
                    lemma_without_key(e, j as u64);
                }
                let r = lru_get(&mut self.cache, j as u64);
                proof {
                    let e2 = lru_entries(self.cache);
                    match key_index(e, j as u64) {
                        Some(i) => {
                            lemma_model_entries_push(without_key(e, j as u64), km, e[i]);
                            assert(model_entries(e, km)[i] == (km[e[i].0 as int], e[i].1));
                            assert(e2 == without_key(e, j as u64).push(e[i]));
                            lemma_ids_below_contains(e, without_key(e, j as u64), km.len());
                            assert forall|a: int, b: int|
                                0 <= a < e2.len() && 0 <= b < e2.len() && a != b implies e2[a].0
                                != e2[b].0 by {
                                let w = without_key(e, j as u64);
                                if a < w.len() && b < w.len() {
                                    assert(e2[a] == w[a] && e2[b] == w[b]);
                                } else if a < w.len() {
                                    assert(e2[a] == w[a]);
                                } else if b < w.len() {
                                    assert(e2[b] == w[b]);
                                }
                            }
                        },
                        None => {},
                    }
                }
                r
            },
        }
    }

    /// Caches `html` for `key` as the most recently used entry, dropping the
    /// least recently used one when the cache is over capacity.
    pub fn store(&mut self, key: CacheKey, html: String)
        requires
            old(self).wf(),
        ensures
            final(self).wf(),
            final(self).entries() == inserted(old(self).entries(), key@, html@, old(self).capacity()),
            final(self).capacity() == old(self).capacity(),
    {
        let ghost km0 = key_models(self.keys@);
        let ghost e = lru_entries(self.cache);
        let ghost k = key@;
        let j = match self.key_id(&key) {
            Some(j) => j,
            None => {
                proof {
                    lemma_key_index_absent(e, km0, k);
                    lemma_model_entries_extend(e, km0, k);
                    assert(key_models(self.keys@.push(key)) =~= km0.push(k));
                }
                let n = self.keys.len();
                self.keys.push(key);
                n
            },
        };
        let ghost km = key_models(self.keys@);
        proof {
            assert(injective(km)) by {
                assert forall|a: int, b: int|
                    0 <= a < km.len() && 0 <= b < km.len() && a != b implies km[a] != km[b] by {
                    if a < km0.len() && b < km0.len() {
                        assert(km[a] == km0[a] && km[b] == km0[b]);
                    } else if a < km0.len() {
                        assert(km[a] == km0[a]);
                    } else if b < km0.len() {
                        assert(km[b] == km0[b]);
                    }
                }
            }
            assert(ids_below(e, km.len())) by {
                assert forall|i: int| 0 <= i < e.len() implies (#[trigger] e[i]).0 < km.len() by {
                    assert(e[i].0 < km0.len());
                }
            }
            assert(model_entries(e, km) == model_entries(e, km0)) by {
                if km.len() != km0.len() {
                    lemma_model_entries_extend(e, km0, k);
                    assert(km =~= km0.push(k));
                } else {
                    assert(km =~= km0);
                }
            }
            assert(km[j as int] == k);
            lemma_key_index_models(e, km, j as u64);
            lemma_without_key(e, j as u64);
        }
        lru_insert(&mut self.cache, j as u64, html);
        proof {
            let w = without_key(e, j as u64);
            let e2 = w.push((j as u64, html@));
            let cap = lru_capacity(self.cache);
            lemma_model_entries_push(w, km, (j as u64, html@));
            lemma_ids_below_contains(e, w, km.len());
            assert(ids_below(e2, km.len()));
            assert(distinct_keys(e2)) by {
                assert forall|a: int, b: int|
                    0 <= a < e2.len() && 0 <= b < e2.len() && a != b implies e2[a].0 != e2[b].0 by {
                    if a < w.len() && b < w.len() {
                        assert(e2[a] == w[a] && e2[b] == w[b]);
                    } else if a < w.len() {
                        assert(e2[a] == w[a]);
                    } else if b < w.len() {
                        assert(e2[b] == w[b]);
                    }
                }
            }
            if e2.len() > cap {
                let e3 = e2.drop_first();
                assert(model_entries(e3, km) =~= model_entries(e2, km).drop_first());
                assert(ids_below(e3, km.len())) by {
                    assert forall|i: int| 0 <= i < e3.len() implies (#[trigger] e3[i]).0 < km.len() by {
                        assert(e3[i] == e2[i + 1]);
                    }
                }
                assert(distinct_keys(e3)) by {
                    assert forall|a: int, b: int|
                        0 <= a < e3.len() && 0 <= b < e3.len() && a != b implies e3[a].0 != e3[b].0 by {
                        assert(e3[a] == e2[a + 1] && e3[b] == e2[b + 1]);
                    }
                }
            }
        }
    }

    /// Takes every entry out of the cache, least recently used first.
    pub fn drain(&mut self) -> (r: Vec<(CacheKey, String)>)
        requires
            old(self).wf(),
        ensures
            final(self).wf(),
            final(self).entries() == Seq::<(CacheKeyModel, Seq<char>)>::empty(),
            final(self).capacity() == old(self).capacity(),
            r@.map_values(|p: (CacheKey, String)| (p.0@, p.1@)) == old(self).entries(),
    {
        let mut result: Vec<(CacheKey, String)> = Vec::new();
        let ghost all = self.entries();
        let ghost km = key_models(self.keys@);
        assert(all =~= Seq::<(CacheKeyModel, Seq<char>)>::empty() + self.entries());
        loop
            invariant
                self.wf(),
                km == key_models(self.keys@),
                all == old(self).entries(),
                self.capacity() == old(self).capacity(),
                all == result@.map_values(|p: (CacheKey, String)| (p.0@, p.1@)) + self.entries(),
            decreases lru_entries(self.cache).len(),
        {
            let ghost e = lru_entries(self.cache);
            match lru_remove_lru(&mut self.cache) {
                None => {
                    assert(self.entries() =~= Seq::<(CacheKeyModel, Seq<char>)>::empty());
                    assert(all =~= result@.map_values(|p: (CacheKey, String)| (p.0@, p.1@)));
                    return result;
                },
                Some((id, value)) => {
                    let ghost e2 = e.drop_first();
                    assert(e[0].0 < km.len());
                    assert(id == e[0].0);
                    assert(id < self.keys.len());
                    let idx = id as usize;
                    assert(idx as int == id as int);
                    let key = self.keys[idx].copy();
                    assert(key@ == km[id as int]);
                    proof {
                        assert(model_entries(e2, km) =~= model_entries(e, km).drop_first());
                        assert(ids_below(e2, km.len())) by {
                            assert forall|i: int| 0 <= i < e2.len() implies (#[trigger] e2[i]).0 < km.len() by {
                                assert(e2[i] == e[i + 1]);
                            }
                        }
                        assert(distinct_keys(e2)) by {
                            assert forall|a: int, b: int|
                                0 <= a < e2.len() && 0 <= b < e2.len() && a != b implies e2[a].0 != e2[b].0 by {
                                assert(e2[a] == e[a + 1] && e2[b] == e[b + 1]);
                            }
                        }
                    }
                    let ghost before = result@.map_values(|p: (CacheKey, String)| (p.0@, p.1@));
                    result.push((key, value));
                    proof {
                        assert(result@.map_values(|p: (CacheKey, String)| (p.0@, p.1@)) =~= before.push(
                            (km[id as int], value@),
                        ));
                        assert(model_entries(e, km)[0] == (km[e[0].0 as int], e[0].1));
                        assert(all =~= result@.map_values(|p: (CacheKey, String)| (p.0@, p.1@))
                            + self.entries());
                    }
                },
            }
        }
    }

    /// Caches each of `items` in turn, as loading the cache file does.
    pub fn load(&mut self, items: Vec<(CacheKey, String)>)
        requires
            old(self).wf(),
        ensures
            final(self).wf(),
            final(self).entries() == inserted_all(
                old(self).entries(),
                items@.map_values(|p: (CacheKey, String)| (p.0@, p.1@)),
                old(self).capacity(),
            ),
            final(self).capacity() == old(self).capacity(),
    {
        let ghost iv = items@.map_values(|p: (CacheKey, String)| (p.0@, p.1@));
        let ghost start = self.entries();
        let mut i: usize = 0;
        assert(iv.take(0) =~= Seq::<(CacheKeyModel, Seq<char>)>::empty());
        while i < items.len()
            invariant
                i <= items@.len() == iv.len(),
                iv == items@.map_values(|p: (CacheKey, String)| (p.0@, p.1@)),
                self.wf(),
                self.capacity() == old(self).capacity(),
                self.entries() == inserted_all(start, iv.take(i as int), old(self).capacity()),
            decreases items.len() - i,
        {
            let key = items[i].0.copy();
            let value = items[i].1.clone();
            assert(iv.take(i + 1).drop_last() =~= iv.take(i as int));
            assert(iv[i as int] == (items@[i as int].0@, items@[i as int].1@));
            self.store(key, value);
            i = i + 1;
        }
        assert(iv.take(items@.len() as int) =~= iv);
    }
}

/// Once a page is stored, looking its key up gives it back, as long as the
/// cache keeps at least one entry.
pub proof fn lemma_lookup_after_store(
    e: Seq<(CacheKeyModel, Seq<char>)>,
    key: CacheKeyModel,
    html: Seq<char>,
    cap: nat,
)
    requires
        cap > 0,
    ensures
        key_index(inserted(e, key, html, cap), key) matches Some(i) && inserted(
            e,
            key,
            html,
            cap,
        )[i].1 == html,
{
    let w = without_key(e, key);
    let e2 = w.push((key, html));
    lemma_without_key(e, key);
    let r = inserted(e, key, html, cap);
    assert(r.last() == (key, html));
    assert(r.drop_last() == (if e2.len() > cap {
        e2.drop_first().drop_last()
    } else {
        w
    }));
}

/// Taking every entry out of a cache and inserting them, in that order,
/// into an empty cache of the same capacity gives the same entries back: the
/// cache file round-trips.
pub proof fn lemma_drain_load_roundtrip(e: Seq<(CacheKeyModel, Seq<char>)>, cap: nat)
    requires
        distinct_keys(e),
        e.len() <= cap,
    ensures
        inserted_all(Seq::empty(), e, cap) == e,
    decreases e.len(),
{
    if e.len() > 0 {
        let d = e.drop_last();
        assert(distinct_keys(d)) by {
            assert forall|i: int, j: int|
                0 <= i < d.len() && 0 <= j < d.len() && i != j implies d[i].0 != d[j].0 by {
                assert(d[i] == e[i] && d[j] == e[j]);
            }
        }
        lemma_drain_load_roundtrip(d, cap);
        assert(!has_key(d, e.last().0)) by {
            if has_key(d, e.last().0) {
                let i = choose|i: int| 0 <= i < d.len() && d[i].0 == e.last().0;
                assert(e[i] == d[i]);
            }
        }
        lemma_without_key(d, e.last().0);
        assert(d.push(e.last()) =~= e);
    }
}

// ---------------------------------------------------------------------------
// Articles
// ---------------------------------------------------------------------------

/// An article as mathematical values.
pub struct DocumentModel {
    pub uuid: Seq<char>,
    pub category: Seq<char>,
    pub slug: Seq<char>,
    pub pubdate: Seq<char>,
    pub headline: Seq<char>,
    pub brief: Seq<char>,
    pub takeaways: Seq<Seq<char>>,
    pub document_text: Seq<char>,
}

/// An article with every field empty but its uuid.
pub open spec fn empty_document(uuid: Seq<char>) -> DocumentModel {
    DocumentModel {
        uuid,
        category: Seq::empty(),
        slug: Seq::empty(),
        pubdate: Seq::empty(),
        headline: Seq::empty(),
        brief: Seq::empty(),
        takeaways: Seq::empty(),
        document_text: Seq::empty(),
    }
}

/// The name of a header line's directive: what comes before the first
/// `": "`, or the whole line.
pub open spec fn directive_key(h: Seq<char>) -> Seq<char> {
    match find_colon_space(h) {
        Some(i) => h.take(i),
        None => h,
    }
}

/// The value of a header line's directive: what comes after the first
/// `": "`.
pub open spec fn directive_value(h: Seq<char>) -> Seq<char> {
    match find_colon_space(h) {
        Some(i) => h.skip(i + 2),
        None => Seq::empty(),
    }
}

/// Whether a name is one of the directives an article header knows.
pub open spec fn is_directive_name(k: Seq<char>) -> bool {
    ||| k == "Category"@
    ||| k == "Url"@
    ||| k == "Pubdate"@
    ||| k == "Headline"@
    ||| k == "Brief"@
    ||| k == "Takeaway"@
}

/// Whether a header line can be read: a known directive must come with a
/// value.
pub open spec fn header_line_ok(h: Seq<char>) -> bool {
    is_directive_name(directive_key(h)) ==> find_colon_space(h) is Some
}

/// What one header line does to an article: `Category`, `Url`, `Pubdate`,
/// `Headline` and `Brief` set a field, `Takeaway` adds a takeaway, anything
/// else is ignored.
pub open spec fn apply_directive(d: DocumentModel, h: Seq<char>) -> DocumentModel {
    let k = directive_key(h);
    let v = directive_value(h);
    if k == "Category"@ {
        DocumentModel { category: v, ..d }
    } else if k == "Url"@ {
        DocumentModel { slug: v, ..d }
    } else if k == "Pubdate"@ {
        DocumentModel { pubdate: v, ..d }
    } else if k == "Headline"@ {
        DocumentModel { headline: v, ..d }
    } else if k == "Brief"@ {
        DocumentModel { brief: v, ..d }
    } else if k == "Takeaway"@ {
        DocumentModel { takeaways: d.takeaways.push(v), ..d }
    } else {
        d
    }
}

/// An article after the header lines, in order.
pub open spec fn apply_directives(d: DocumentModel, hs: Seq<Seq<char>>) -> DocumentModel
    decreases hs.len(),
{
    if hs.len() == 0 {
        d
    } else {
        apply_directive(apply_directives(d, hs.drop_last()), hs.last())
    }
}

proof fn lemma_apply_directives_keeps(d: DocumentModel, hs: Seq<Seq<char>>)
    ensures
        apply_directives(d, hs).uuid == d.uuid,
        apply_directives(d, hs).document_text == d.document_text,
    decreases hs.len(),
{
    if hs.len() > 0 {
        lemma_apply_directives_keeps(d, hs.drop_last());
    }
}

/// How many lines the header has: the lines before the first empty one.
pub open spec fn header_count(ls: Seq<Seq<char>>) -> nat
    decreases ls.len(),
{
    if ls.len() == 0 || ls[0].len() == 0 {
        0
    } else {
        1 + header_count(ls.drop_first())
    }
}

/// One step through the lines of a text: `line` is the line at `i`.
proof fn lemma_line_step(ls: Seq<Seq<char>>, i: int, line: Seq<char>, rest: Seq<Seq<char>>)
    requires
        0 <= i <= ls.len(),
        ls.skip(i) == seq![line] + rest,
    ensures
        i < ls.len(),
        ls[i] == line,
        ls.skip(i + 1) == rest,
{
    assert(ls.skip(i).len() == 1 + rest.len());
    assert(ls.skip(i)[0] == ls[i]);
    assert(ls.skip(i + 1) =~= ls.skip(i).drop_first());
    assert((seq![line] + rest).drop_first() =~= rest);
}

proof fn lemma_header_count(ls: Seq<Seq<char>>, i: int)
    requires
        0 <= i <= ls.len(),
        forall|j: int| 0 <= j < i ==> #[trigger] ls[j].len() > 0,
        i == ls.len() || ls[i].len() == 0,
    ensures
        header_count(ls) == i,
    decreases i,
{
    if i > 0 {
        let d = ls.drop_first();
        assert forall|j: int| 0 <= j < i - 1 implies #[trigger] d[j].len() > 0 by {
            assert(d[j] == ls[j + 1]);
        }
        lemma_header_count(d, i - 1);
    }
}

/// Whether every header line of a text can be read.
pub open spec fn headers_ok(text: Seq<char>) -> bool {
    let ls = lines(text);
    forall|i: int| 0 <= i < header_count(ls) ==> header_line_ok(#[trigger] ls[i])
}

/// The article a text describes: the header lines up to the first empty
/// line set its fields; the lines after that empty line, joined with `\n`,
/// are its text.
pub open spec fn document_spec(uuid: Seq<char>, text: Seq<char>) -> DocumentModel {
    let ls = lines(text);
    let k = header_count(ls) as int;
    DocumentModel {
        document_text: if k < ls.len() {
            join(ls.skip(k + 1), "\n"@)
        } else {
            Seq::empty()
        },
        ..apply_directives(empty_document(uuid), ls.take(k))
    }
}

/// An article of the news directory.
pub struct Document {
    uuid: String,
    category: String,
    slug: String,
    pubdate: String,
    headline: String,
    brief: String,
    takeaways: Vec<String>,
    document_text: String,
}

impl View for Document {
    type V = DocumentModel;

    closed spec fn view(&self) -> DocumentModel {
        DocumentModel {
            uuid: self.uuid@,
            category: self.category@,
            slug: self.slug@,
            pubdate: self.pubdate@,
            headline: self.headline@,
            brief: self.brief@,
            takeaways: self.takeaways@.map_values(|t: String| t@),
            document_text: self.document_text@,
        }
    }
}

/// Whether a directive name is `name`.
fn key_is(key: &[char], name: &str) -> (r: bool)
    ensures
        r == (key@ == name@),
{
    chars_eq(key, chars_of(name).as_slice())
}

impl Document {
    /// An article with every field empty.
    pub fn new() -> (r: Document)
        ensures
            r@ == empty_document(Seq::empty()),
    {
        let r = Document {
            uuid: String::new(),
            category: String::new(),
            slug: String::new(),
            pubdate: String::new(),
            headline: String::new(),
            brief: String::new(),
            takeaways: Vec::new(),
            document_text: String::new(),
        };
        assert(r@.takeaways =~= Seq::<Seq<char>>::empty());
        r
    }

    /// Whether every header line of a text can be read (see
    /// [`Document::from_text`]).
    pub fn headers_readable(text: &str) -> (r: bool)
        ensures
            r == headers_ok(text@),
    {
        let s = chars_of(text);
        let ghost ls = lines(s@);
        let mut p: usize = 0;
        let mut i: usize = 0;
        assert(s@.skip(0) =~= s@);
        while p < s.len()
            invariant
                i <= p <= s@.len(),
                s@ == text@,
                ls == lines(s@),
                i <= ls.len(),
                lines(s@.skip(p as int)) == ls.skip(i as int),
                forall|j: int| 0 <= j < i ==> #[trigger] ls[j].len() > 0,
                forall|j: int| 0 <= j < i ==> header_line_ok(#[trigger] ls[j]),
            decreases s.len() - p,
        {
            let (line, q) = next_line(s.as_slice(), p);
            proof {
                lemma_line_step(ls, i as int, line@, lines(s@.skip(q as int)));
            }
            if line.len() == 0 {
                proof {
                    lemma_header_count(ls, i as int);
                }
                return true;
            }
            let ok = match find_colon_space_in(line.as_slice()) {
                Some(_) => true,
                None => !(key_is(line.as_slice(), "Category") || key_is(line.as_slice(), "Url")
                    || key_is(line.as_slice(), "Pubdate") || key_is(line.as_slice(), "Headline")
                    || key_is(line.as_slice(), "Brief") || key_is(line.as_slice(), "Takeaway")),
            };
            if !ok {
                proof {
                    lemma_header_count_at_least(ls, i as int);
                }
                return false;
            }
            p = q;
            i = i + 1;
        }
        proof {
            assert(s@.skip(p as int) =~= Seq::<char>::empty());
            assert(lines(Seq::<char>::empty()) =~= Seq::<Seq<char>>::empty());
            assert(ls.len() == i);
            lemma_header_count(ls, i as int);
        }
        true
    }

    /// Reads an article from its text, `uuid` being the uuid of its file.
    /// The header lines, up to the first empty line, are directives
    /// `Name: value`; the lines after that empty line are the article's
    /// Markdown text. A known directive without a value is not accepted.
    pub fn from_text(uuid: String, text: &str) -> (r: Document)
        requires
            headers_ok(text@),
        ensures
            r@ == document_spec(uuid@, text@),
    {
        let mut result = Document::new();
        result.uuid = uuid;
        let s = chars_of(text);
        let ghost ls = lines(s@);
        let ghost init = empty_document(uuid@);
        let mut p: usize = 0;
        let mut i: usize = 0;
        let mut found_blank = false;
        assert(s@.skip(0) =~= s@);
        assert(ls.take(0) =~= Seq::<Seq<char>>::empty());
        assert(result@ == init) by {
            assert(result@.takeaways =~= Seq::<Seq<char>>::empty());
        }
        loop
            invariant_except_break
                !found_blank,
                forall|j: int| 0 <= j < i ==> #[trigger] ls[j].len() > 0,
                result@ == apply_directives(init, ls.take(i as int)),
            invariant
                i <= p <= s@.len(),
                s@ == text@,
                ls == lines(s@),
                init == empty_document(uuid@),
                headers_ok(text@),
                i <= ls.len(),
                lines(s@.skip(p as int)) == ls.skip(i as int),
            ensures
                found_blank ==> 0 < i && header_count(ls) == i - 1 && result@ == apply_directives(
                    init,
                    ls.take(i - 1),
                ),
                !found_blank ==> p == s@.len() && header_count(ls) == i && result@
                    == apply_directives(init, ls.take(i as int)),
            decreases s.len() - p,
        {
            if p >= s.len() {
                proof {
                    assert(s@.skip(p as int) =~= Seq::<char>::empty());
                    assert(lines(Seq::<char>::empty()) =~= Seq::<Seq<char>>::empty());
                    assert(ls.skip(i as int).len() == 0);
                    lemma_header_count(ls, i as int);
                }
                break;
            }
            let (line, q) = next_line(s.as_slice(), p);
            proof {
                lemma_line_step(ls, i as int, line@, lines(s@.skip(q as int)));
            }
            p = q;
            if line.len() == 0 {
                proof {
                    lemma_header_count(ls, i as int);
                }
                found_blank = true;
                i = i + 1;
                break;
            }
            proof {
                lemma_header_count_at_least(ls, i as int);
                assert(header_line_ok(ls[i as int]));
                assert(ls.take(i + 1).drop_last() =~= ls.take(i as int));
            }
            let ghost before = result@;
            let ls_line = line.as_slice();
            let (key_end, value_start) = match find_colon_space_in(ls_line) {
                Some(c) => (c, c + 2),
                None => (line.len(), line.len()),
            };
            let key = slice_range(ls_line, 0, key_end);
            let value = string_of(ls_line, value_start, line.len());
            proof {
                assert(key@ == directive_key(line@)) by {
                    if key_end == line.len() {
                        assert(key@ =~= line@);
                    } else {
                        assert(key@ =~= line@.take(key_end as int));
                    }
                }
                assert(value@ == directive_value(line@) || find_colon_space(line@) is None) by {
                    if value_start < line.len() || find_colon_space(line@) is Some {
                        assert(value@ =~= line@.skip(value_start as int));
                    }
                }
            }
            if key_is(key.as_slice(), "Category") {
                result.category = value;
            } else if key_is(key.as_slice(), "Url") {
                result.slug = value;
            } else if key_is(key.as_slice(), "Pubdate") {
                result.pubdate = value;
            } else if key_is(key.as_slice(), "Headline") {
                result.headline = value;
            } else if key_is(key.as_slice(), "Brief") {
                result.brief = value;
            } else if key_is(key.as_slice(), "Takeaway") {
                result.takeaways.push(value);
                assert(result@.takeaways =~= before.takeaways.push(directive_value(line@)));
            }
            assert(result@ == apply_directive(before, line@));
            i = i + 1;
        }
        if !found_blank {
            proof {
                assert(s@.skip(p as int) =~= Seq::<char>::empty());
                assert(lines(Seq::<char>::empty()) =~= Seq::<Seq<char>>::empty());
                assert(ls.skip(i as int).len() == 0);
                assert(ls.len() == i);
                lemma_apply_directives_keeps(init, ls.take(i as int));
            }
            assert(result@ == document_spec(uuid@, text@));
            return result;
        }
        // The rest of the lines is the article's text.
        let ghost k = i;
        let mut out = String::new();
        let mut first = true;
        assert(ls.subrange(k as int, k as int) =~= Seq::<Seq<char>>::empty());
        while p < s.len()
            invariant
                k <= i <= ls.len(),
                i <= p <= s@.len(),
                s@ == text@,
                ls == lines(s@),
                lines(s@.skip(p as int)) == ls.skip(i as int),
                first == (i == k),
                out@ == join(ls.subrange(k as int, i as int), "\n"@),
            decreases s.len() - p,
        {
            let (line, q) = next_line(s.as_slice(), p);
            proof {
                lemma_line_step(ls, i as int, line@, lines(s@.skip(q as int)));
                assert(ls.subrange(k as int, i + 1).drop_last() =~= ls.subrange(k as int, i as int));
            }
            if !first {
                out.append("\n");
            }
            out.append(string_of_all(line.as_slice()).as_str());
            first = false;
            p = q;
            i = i + 1;
        }
        proof {
            assert(s@.skip(p as int) =~= Seq::<char>::empty());
            assert(lines(Seq::<char>::empty()) =~= Seq::<Seq<char>>::empty());
            assert(ls.subrange(k as int, i as int) =~= ls.skip(k as int));
        }
        result.document_text = out;
        result
    }

    /// Renders the article's Markdown text to HTML, in place.
    pub fn convert_markdown(&mut self)
        ensures
            final(self)@ == (DocumentModel {
                document_text: markdown_html(old(self)@.document_text),
                ..old(self)@
            }),
    {
        self.document_text = markdown_to_html(self.document_text.as_str());
    }

    pub fn uuid(&self) -> (r: &str)
        ensures
            r@ == self@.uuid,
    {
        self.uuid.as_str()
    }

    pub fn category(&self) -> (r: &str)
        ensures
            r@ == self@.category,
    {
        self.category.as_str()
    }

    pub fn slug(&self) -> (r: &str)
        ensures
            r@ == self@.slug,
    {
        self.slug.as_str()
    }

    pub fn pubdate(&self) -> (r: &str)
        ensures
            r@ == self@.pubdate,
    {
        self.pubdate.as_str()
    }

    pub fn headline(&self) -> (r: &str)
        ensures
            r@ == self@.headline,
    {
        self.headline.as_str()
    }

    pub fn brief(&self) -> (r: &str)
        ensures
            r@ == self@.brief,
    {
        self.brief.as_str()
    }

    pub fn takeaways(&self) -> (r: &Vec<String>)
        ensures
            r@.map_values(|t: String| t@) == self@.takeaways,
    {
        &self.takeaways
    }

    pub fn document_text(&self) -> (r: &str)
        ensures
            r@ == self@.document_text,
    {
        self.document_text.as_str()
    }
}

proof fn lemma_header_count_at_least(ls: Seq<Seq<char>>, i: int)
    requires
        0 <= i < ls.len(),
        forall|j: int| 0 <= j < i ==> #[trigger] ls[j].len() > 0,
        ls[i].len() > 0,
    ensures
        header_count(ls) > i,
    decreases i,
{
    if i > 0 {
        let d = ls.drop_first();
        assert forall|j: int| 0 <= j < i - 1 implies #[trigger] d[j].len() > 0 by {
            assert(d[j] == ls[j + 1]);
        }
        assert(d[i - 1] == ls[i]);
        assert(ls[0].len() > 0);
        lemma_header_count_at_least(d, i - 1);
    }
}


// ---------------------------------------------------------------------------
// Table of contents
// ---------------------------------------------------------------------------

/// The categories of a list, each once, in the order in which they first
/// appear.
pub open spec fn first_appearances(cats: Seq<Seq<char>>) -> Seq<Seq<char>>
    decreases cats.len(),
{
    if cats.len() == 0 {
        Seq::empty()
    } else {
        let prev = first_appearances(cats.drop_last());
        if prev.contains(cats.last()) {
            prev
        } else {
            prev.push(cats.last())
        }
    }
}

/// The positions, in increasing order, at which a list holds `c`.
pub open spec fn indices_of(cats: Seq<Seq<char>>, c: Seq<char>) -> Seq<int>
    decreases cats.len(),
{
    if cats.len() == 0 {
        Seq::empty()
    } else {
        let prev = indices_of(cats.drop_last(), c);
        if cats.last() == c {
            prev.push(cats.len() - 1)
        } else {
            prev
        }
    }
}

/// The categories of a list of articles.
pub open spec fn categories(docs: Seq<Document>) -> Seq<Seq<char>> {
    docs.map_values(|d: Document| d@.category)
}

/// The table of contents of a list of articles: for each category, in the
/// order in which it first appears, the positions of its articles.
pub open spec fn toc_spec(docs: Seq<Document>) -> Seq<(Seq<char>, Seq<int>)> {
    let cats = categories(docs);
    first_appearances(cats).map_values(|c: Seq<char>| (c, indices_of(cats, c)))
}

/// The view of a table of contents.
pub open spec fn toc_view(t: Seq<(String, Vec<usize>)>) -> Seq<(Seq<char>, Seq<int>)> {
    t.map_values(|g: (String, Vec<usize>)| (g.0@, g.1@.map_values(|x: usize| x as int)))
}

proof fn lemma_indices_of(cats: Seq<Seq<char>>, c: Seq<char>, i: int)
    ensures
        indices_of(cats, c).contains(i) <==> (0 <= i < cats.len() && cats[i] == c),
    decreases cats.len(),
{
    if cats.len() > 0 {
        let d = cats.drop_last();
        lemma_indices_of(d, c, i);
        let prev = indices_of(d, c);
        if cats.last() == c {
            let f = prev.push(cats.len() - 1);
            assert(f.contains(i) <==> (prev.contains(i) || i == cats.len() - 1)) by {
                if i == cats.len() - 1 {
                    assert(f[prev.len() as int] == i);
                }
                if f.contains(i) {
                    let k = choose|k: int| 0 <= k < f.len() && #[trigger] f[k] == i;
                    if k < prev.len() {
                        assert(prev[k] == i);
                    }
                }
                if prev.contains(i) {
                    let k = choose|k: int| 0 <= k < prev.len() && #[trigger] prev[k] == i;
                    assert(f[k] == i);
                }
            }
        }
        if 0 <= i < d.len() {
            assert(d[i] == cats[i]);
        }
    }
}

proof fn lemma_first_appearances(cats: Seq<Seq<char>>)
    ensures
        forall|c: Seq<char>| #[trigger]
            first_appearances(cats).contains(c) <==> cats.contains(c),
        forall|g: int, h: int|
            0 <= g < h < first_appearances(cats).len() ==> first_appearances(cats)[g]
                != first_appearances(cats)[h],
    decreases cats.len(),
{
    if cats.len() > 0 {
        let d = cats.drop_last();
        lemma_first_appearances(d);
        let prev = first_appearances(d);
        assert forall|c: Seq<char>| #[trigger]
            first_appearances(cats).contains(c) <==> cats.contains(c) by {
            if cats.contains(c) {
                let k = choose|k: int| 0 <= k < cats.len() && cats[k] == c;
                if k < d.len() {
                    assert(d[k] == c);
                    assert(d.contains(c));
                }
            }
            if d.contains(c) {
                let k = choose|k: int| 0 <= k < d.len() && d[k] == c;
                assert(cats[k] == c);
            }
            if !prev.contains(cats.last()) {
                let f = prev.push(cats.last());
                assert(f[prev.len() as int] == cats.last());
                if f.contains(c) {
                    let k = choose|k: int| 0 <= k < f.len() && f[k] == c;
                    if k < prev.len() {
                        assert(prev[k] == c);
                    }
                }
                if prev.contains(c) {
                    let k = choose|k: int| 0 <= k < prev.len() && prev[k] == c;
                    assert(f[k] == c);
                }
            }
            assert(cats[cats.len() - 1] == cats.last());
        }
    }
}

/// Every article of the table of contents is listed under its own category
/// and under no other, and no category is listed twice.
pub proof fn lemma_toc_partition(docs: Seq<Document>, i: int)
    requires
        0 <= i < docs.len(),
    ensures
        forall|g: int|
            0 <= g < toc_spec(docs).len() ==> ((#[trigger] toc_spec(docs)[g]).1.contains(i)
                <==> toc_spec(docs)[g].0 == docs[i]@.category),
        exists|g: int|
            0 <= g < toc_spec(docs).len() && (#[trigger] toc_spec(docs)[g]).0 == docs[i]@.category,
        forall|g: int, h: int|
            0 <= g < h < toc_spec(docs).len() ==> toc_spec(docs)[g].0 != toc_spec(docs)[h].0,
{
    let cats = categories(docs);
    let groups = first_appearances(cats);
    let t = toc_spec(docs);
    lemma_first_appearances(cats);
    assert(cats[i] == docs[i]@.category);
    assert forall|g: int| 0 <= g < t.len() implies ((#[trigger] t[g]).1.contains(i) <==> t[g].0
        == docs[i]@.category) by {
        lemma_indices_of(cats, groups[g], i);
    }
    assert(cats.contains(cats[i]));
    assert(groups.contains(cats[i]));
    let g = choose|g: int| 0 <= g < groups.len() && groups[g] == cats[i];
    assert(t[g].0 == docs[i]@.category);
}

impl Newsgen {
    /// Groups articles by category for the table of contents: each category
    /// once, in the order in which it first appears, with the positions in
    /// `data` of its articles, in order.
    pub fn sort_toc_data(&self, data: &Vec<Document>) -> (r: Vec<(String, Vec<usize>)>)
        ensures
            toc_view(r@) == toc_spec(data@),
    {
        let ghost cats = categories(data@);
        // The categories, each once.
        let mut names: Vec<String> = Vec::new();
        let mut i: usize = 0;
        while i < data.len()
            invariant
                i <= data@.len(),
                cats == categories(data@),
                names@.map_values(|n: String| n@) == first_appearances(cats.take(i as int)),
            decreases data.len() - i,
        {
            let c = data[i].category();
            proof {
                assert(cats.take(i + 1).drop_last() =~= cats.take(i as int));
                assert(cats[i as int] == c@);
            }
            let ghost before = names@.map_values(|n: String| n@);
            let mut j: usize = 0;
            let mut seen = false;
            while j < names.len()
                invariant
                    j <= names@.len(),
                    before == names@.map_values(|n: String| n@),
                    seen == exists|t: int| 0 <= t < j && before[t] == c@,
                decreases names.len() - j,
            {
                if str_eq(names[j].as_str(), c) {
                    seen = true;
                }
                assert(before[j as int] == names@[j as int]@);
                j = j + 1;
            }
            if !seen {
                names.push(c.to_owned());
                assert(names@.map_values(|n: String| n@) =~= before.push(c@));
            }
            i = i + 1;
        }
        assert(cats.take(data@.len() as int) =~= cats);
        let ghost groups = first_appearances(cats);
        // The positions of each category's articles.
        let mut result: Vec<(String, Vec<usize>)> = Vec::new();
        let mut g: usize = 0;
        while g < names.len()
            invariant
                g <= names@.len(),
                cats == categories(data@),
                names@.map_values(|n: String| n@) == groups,
                groups == first_appearances(cats),
                toc_view(result@) == toc_spec(data@).take(g as int),
            decreases names.len() - g,
        {
            let name = names[g].as_str();
            assert(name@ == groups[g as int]);
            let mut members: Vec<usize> = Vec::new();
            let mut k: usize = 0;
            while k < data.len()
                invariant
                    k <= data@.len(),
                    cats == categories(data@),
                    members@.map_values(|x: usize| x as int) == indices_of(cats.take(k as int), name@),
                decreases data.len() - k,
            {
                proof {
                    assert(cats.take(k + 1).drop_last() =~= cats.take(k as int));
                    assert(cats[k as int] == data@[k as int]@.category);
                }
                let ghost before = members@.map_values(|x: usize| x as int);
                if str_eq(data[k].category(), name) {
                    members.push(k);
                    assert(members@.map_values(|x: usize| x as int) =~= before.push(k as int));
                }
                k = k + 1;
            }
            assert(cats.take(data@.len() as int) =~= cats);
            let ghost prev = toc_view(result@);
            result.push((names[g].clone(), members));
            proof {
                assert(toc_view(result@) =~= prev.push(toc_spec(data@)[g as int]));
                assert(toc_spec(data@).take(g + 1) =~= toc_spec(data@).take(g as int).push(
                    toc_spec(data@)[g as int],
                ));
            }
            g = g + 1;
        }
        assert(toc_spec(data@).take(g as int) =~= toc_spec(data@));
        result
    }
}


// ---------------------------------------------------------------------------
// Responses
// ---------------------------------------------------------------------------

/// How serving one article ended.
pub enum ArticleOutcome {
    /// The uuid keystore could not be read.
    KeystoreUnreadable,
    /// No article has this uuid, or its file is gone.
    NotFound,
    /// The cache file exists but could not be read.
    CacheUnreadable,
    /// There was no cache file and none could be created.
    CacheNotCreated,
    /// The article file's modification time could not be read.
    MetadataUnreadable,
    /// The page was in the cache.
    Cached(String),
    /// The article file could not be read.
    DocumentUnreadable,
    /// The article could not be rendered.
    RenderFailed,
    /// The page was rendered, but the cache could not be saved.
    CacheNotSaved,
    /// The page was rendered and the cache saved.
    Rendered(String),
}

/// The response for each way serving an article can end.
pub open spec fn article_response_spec(o: ArticleOutcome) -> ResponseModel {
    match o {
        ArticleOutcome::KeystoreUnreadable => plain(
            500,
            "Internal server error: Could not open uuid keystore"@,
        ),
        ArticleOutcome::NotFound => plain(404, "Not found"@),
        ArticleOutcome::CacheUnreadable => plain(500, "Internal server error: Could not open cache file"@),
        ArticleOutcome::CacheNotCreated => plain(
            500,
            "Internal server error: Could not create cache file"@,
        ),
        ArticleOutcome::MetadataUnreadable => plain(
            500,
            "Internal server error: Cannot read path metadata"@,
        ),
        ArticleOutcome::Cached(page) => html_page(page@),
        ArticleOutcome::DocumentUnreadable => plain(
            500,
            "Internal server error: Cannot open markdown document"@,
        ),
        ArticleOutcome::RenderFailed => plain(500, "Internal server error: Failed to render document"@),
        ArticleOutcome::CacheNotSaved => plain(500, "Internal server error: Failed to save cache file"@),
        ArticleOutcome::Rendered(page) => html_page(page@),
    }
}

/// How serving the table of contents ended.
pub enum TocOutcome {
    /// The news directory could not be listed.
    DirectoryUnreadable,
    /// The cache file exists but could not be read.
    CacheUnreadable,
    /// There was no cache file and none could be created.
    CacheNotCreated,
    /// The page was in the cache.
    Cached(String),
    /// An article file could not be read.
    DocumentUnreadable,
    /// The table of contents could not be rendered.
    RenderFailed,
    /// The page was rendered, but the cache could not be saved.
    CacheNotSaved,
    /// The page was rendered and the cache saved.
    Rendered(String),
}

/// The response for each way serving the table of contents can end.
pub open spec fn toc_response_spec(o: TocOutcome) -> ResponseModel {
    match o {
        TocOutcome::DirectoryUnreadable => plain(
            500,
            "Internal server error: Unable to get directory list"@,
        ),
        TocOutcome::CacheUnreadable => plain(500, "Internal server error: Could not open cache file"@),
        TocOutcome::CacheNotCreated => plain(500, "Internal server error: Could not create cache file"@),
        TocOutcome::Cached(page) => html_page(page@),
        TocOutcome::DocumentUnreadable => plain(500, "Internal server error: Failed to open document"@),
        TocOutcome::RenderFailed => plain(500, "Internal server error: Failed to render document"@),
        TocOutcome::CacheNotSaved => plain(500, "Internal server error: Failed to save cache file"@),
        TocOutcome::Rendered(page) => html_page(page@),
    }
}

impl Newsgen {
    /// The response to a request for one article, once serving it has
    /// ended as `outcome` says.
    pub fn article_response(outcome: ArticleOutcome) -> (r: Response)
        ensures
            r@ == article_response_spec(outcome),
    {
        match outcome {
            ArticleOutcome::KeystoreUnreadable => Response::create(
                500,
                "text/plain",
                "Internal server error: Could not open uuid keystore",
            ),
            ArticleOutcome::NotFound => Response::create(404, "text/plain", "Not found"),
            ArticleOutcome::CacheUnreadable => Response::create(
                500,
                "text/plain",
                "Internal server error: Could not open cache file",
            ),
            ArticleOutcome::CacheNotCreated => Response::create(
                500,
                "text/plain",
                "Internal server error: Could not create cache file",
            ),
            ArticleOutcome::MetadataUnreadable => Response::create(
                500,
                "text/plain",
                "Internal server error: Cannot read path metadata",
            ),
            ArticleOutcome::Cached(page) => Response::create(200, "text/html", page.as_str()),
            ArticleOutcome::DocumentUnreadable => Response::create(
                500,
                "text/plain",
                "Internal server error: Cannot open markdown document",
            ),
            ArticleOutcome::RenderFailed => Response::create(
                500,
                "text/plain",
                "Internal server error: Failed to render document",
            ),
            ArticleOutcome::CacheNotSaved => Response::create(
                500,
                "text/plain",
                "Internal server error: Failed to save cache file",
            ),
            ArticleOutcome::Rendered(page) => Response::create(200, "text/html", page.as_str()),
        }
    }

    /// The response to a request for the table of contents, once serving
    /// it has ended as `outcome` says.
    pub fn toc_response(outcome: TocOutcome) -> (r: Response)
        ensures
            r@ == toc_response_spec(outcome),
    {
        match outcome {
            TocOutcome::DirectoryUnreadable => Response::create(
                500,
                "text/plain",
                "Internal server error: Unable to get directory list",
            ),
            TocOutcome::CacheUnreadable => Response::create(
                500,
                "text/plain",
                "Internal server error: Could not open cache file",
            ),
            TocOutcome::CacheNotCreated => Response::create(
                500,
                "text/plain",
                "Internal server error: Could not create cache file",
            ),
            TocOutcome::Cached(page) => Response::create(200, "text/html", page.as_str()),
            TocOutcome::DocumentUnreadable => Response::create(
                500,
                "text/plain",
                "Internal server error: Failed to open document",
            ),
            TocOutcome::RenderFailed => Response::create(
                500,
                "text/plain",
                "Internal server error: Failed to render document",
            ),
            TocOutcome::CacheNotSaved => Response::create(
                500,
                "text/plain",
                "Internal server error: Failed to save cache file",
            ),
            TocOutcome::Rendered(page) => Response::create(200, "text/html", page.as_str()),
        }
    }
}

/// A page found in the cache is answered exactly like a freshly rendered
/// one: a 200 HTML page with that body, no redirect and no cookies.
pub proof fn lemma_cached_article_served_as_rendered(page: String)
    ensures
        article_response_spec(ArticleOutcome::Cached(page)) == article_response_spec(
            ArticleOutcome::Rendered(page),
        ),
        article_response_spec(ArticleOutcome::Cached(page)) == (ResponseModel {
            code: 200,
            content_type: "text/html"@,
            redirect: Seq::empty(),
            body: page@,
            cookies: Seq::empty(),
        }),
{
}

/// A cached table of contents is answered exactly like a freshly rendered
/// one: a 200 HTML page whose body is the cached page.
pub proof fn lemma_cached_toc_served_as_rendered(page: String)
    ensures
        toc_response_spec(TocOutcome::Cached(page)) == toc_response_spec(
            TocOutcome::Rendered(page),
        ),
        toc_response_spec(TocOutcome::Cached(page)) == (ResponseModel {
            code: 200,
            content_type: "text/html"@,
            redirect: Seq::empty(),
            body: page@,
            cookies: Seq::empty(),
        }),
{
}

/// Whether a listing holds a file with the same name and the same
/// modification time as `f`.
pub open spec fn has_file_with_time(f: (Seq<char>, i128), y: Seq<(Seq<char>, i128)>) -> bool {
    exists|j: int| 0 <= j < y.len() && y[j].0 == f.0 && y[j].1 == f.1
}

/// Two document keys are equal exactly when they name the same file with the
/// same modification time; two aggregate keys are equal exactly when their
/// listings are as long and every file of the first, with its modification
/// time, is in the second; keys of different kinds are never equal.
pub proof fn lemma_keys_match_compares_files_and_times(
    f: (Seq<char>, i128),
    g: (Seq<char>, i128),
    x: Seq<(Seq<char>, i128)>,
    y: Seq<(Seq<char>, i128)>,
)
    ensures
        keys_match(CacheKeyModel::Document(f), CacheKeyModel::Document(g)) <==> (f.0 == g.0 && f.1
            == g.1),
        keys_match(CacheKeyModel::Aggregate(x), CacheKeyModel::Aggregate(y)) <==> (x.len()
            == y.len() && forall|i: int|
            0 <= i < x.len() ==> #[trigger] has_file_with_time(x[i], y)),
        !keys_match(CacheKeyModel::Document(f), CacheKeyModel::Aggregate(y)),
        !keys_match(CacheKeyModel::Aggregate(x), CacheKeyModel::Document(g)),
{
    assert forall|i: int| 0 <= i < x.len() implies #[trigger] has_file_with_time(x[i], y)
        == in_listing(x[i], y) by {
        if in_listing(x[i], y) {
            let j = choose|j: int| 0 <= j < y.len() && y[j] == x[i];
            assert(y[j].0 == x[i].0 && y[j].1 == x[i].1);
        }
        if has_file_with_time(x[i], y) {
            let j = choose|j: int| 0 <= j < y.len() && y[j].0 == x[i].0 && y[j].1 == x[i].1;
            assert(y[j] == x[i]);
        }
    }
    if keys_match(CacheKeyModel::Aggregate(x), CacheKeyModel::Aggregate(y)) {
        assert(listings_match(x, y));
        assert forall|i: int| 0 <= i < x.len() implies #[trigger] has_file_with_time(x[i], y) by {
            assert(in_listing(x[i], y));
        }
    }
    if x.len() == y.len() && forall|i: int|
        0 <= i < x.len() ==> #[trigger] has_file_with_time(x[i], y) {
        assert forall|i: int| 0 <= i < x.len() implies #[trigger] in_listing(x[i], y) by {
            assert(has_file_with_time(x[i], y));
        }
        assert(listings_match(x, y));
    }
}

/// Serving an article answers a 200 HTML page exactly when a page was found
/// in the cache or rendered, with that page as body; every other way of
/// ending is a plain-text answer, 404 when the article is unknown and 500
/// otherwise. No answer redirects or sets a cookie.
pub proof fn lemma_article_responses(o: ArticleOutcome)
    ensures
        article_response_spec(o).redirect == Seq::<char>::empty(),
        article_response_spec(o).cookies.len() == 0,
        (o matches ArticleOutcome::Cached(p) || o matches ArticleOutcome::Rendered(p)) ==> {
            &&& article_response_spec(o).code == 200
            &&& article_response_spec(o).content_type == "text/html"@
        },
        o matches ArticleOutcome::Cached(p) ==> article_response_spec(o).body == p@,
        o matches ArticleOutcome::Rendered(p) ==> article_response_spec(o).body == p@,
        !(o is Cached || o is Rendered) ==> article_response_spec(o).content_type == "text/plain"@,
        o is NotFound ==> article_response_spec(o).code == 404 && article_response_spec(o).body
            == "Not found"@,
        !(o is Cached || o is Rendered || o is NotFound) ==> article_response_spec(o).code == 500,
{
}

/// Serving the table of contents answers a 200 HTML page exactly when a
/// page was found in the cache or rendered, with that page as body; every
/// other way of ending is a plain-text 500. No answer redirects or sets a
/// cookie.
pub proof fn lemma_toc_responses(o: TocOutcome)
    ensures
        toc_response_spec(o).redirect == Seq::<char>::empty(),
        toc_response_spec(o).cookies.len() == 0,
        (o is Cached || o is Rendered) ==> {
            &&& toc_response_spec(o).code == 200
            &&& toc_response_spec(o).content_type == "text/html"@
        },
        o matches TocOutcome::Cached(p) ==> toc_response_spec(o).body == p@,
        o matches TocOutcome::Rendered(p) ==> toc_response_spec(o).body == p@,
        !(o is Cached || o is Rendered) ==> toc_response_spec(o).code == 500
            && toc_response_spec(o).content_type == "text/plain"@,
{
}

/// Two cache keys are `==` exactly when they are of the same kind and name
/// the same file with the same modification time, or listings as long as
/// each other where every file of the first, with its modification time, is
/// in the second.
pub proof fn lemma_cache_key_eq(a: CacheKey, b: CacheKey)
    ensures
        vstd::std_specs::cmp::PartialEqSpec::eq_spec(&a, &b) <==> match (a@, b@) {
            (CacheKeyModel::Document(f), CacheKeyModel::Document(g)) => f.0 == g.0 && f.1 == g.1,
            (CacheKeyModel::Aggregate(x), CacheKeyModel::Aggregate(y)) => x.len() == y.len()
                && forall|i: int| 0 <= i < x.len() ==> #[trigger] has_file_with_time(x[i], y),
            _ => false,
        },
{
    match (a@, b@) {
        (CacheKeyModel::Document(f), CacheKeyModel::Document(g)) => {
            lemma_keys_match_compares_files_and_times(f, g, Seq::empty(), Seq::empty());
        },
        (CacheKeyModel::Aggregate(x), CacheKeyModel::Aggregate(y)) => {
            lemma_keys_match_compares_files_and_times(
                (Seq::empty(), 0),
                (Seq::empty(), 0),
                x,
                y,
            );
        },
        (CacheKeyModel::Document(f), CacheKeyModel::Aggregate(y)) => {
            lemma_keys_match_compares_files_and_times(f, f, y, y);
        },
        (CacheKeyModel::Aggregate(x), CacheKeyModel::Document(g)) => {
            lemma_keys_match_compares_files_and_times(g, g, x, x);
        },
    }
}

} // verus!
