//! A bounded cache of open documents' sources. When full, inserting a new
//! document evicts the one whose last insertion is oldest.
use vstd::prelude::*;
use crate::indexer::ParsedFile;

verus! {

struct CachedDocument {
    path: String,
    source: String,
}

/// Open documents, oldest insertion first.
pub struct DocumentCache {
    files: Vec<CachedDocument>,
    capacity: usize,
}

/// The cached `(path, source)` pairs, least recently inserted first.
pub open spec fn no_dup_paths(e: Seq<(Seq<char>, Seq<char>)>) -> bool {
    forall|i: int, j: int| 0 <= i < j < e.len() ==> e[i].0 != e[j].0
}

/// What every cache holds: distinct paths, at most `cap` of them, and a
/// capacity of at least two.
pub open spec fn valid_entries(e: Seq<(Seq<char>, Seq<char>)>, cap: nat) -> bool {
    &&& no_dup_paths(e)
    &&& e.len() <= cap
    &&& cap >= 2
}

pub open spec fn has_path(e: Seq<(Seq<char>, Seq<char>)>, p: Seq<char>) -> bool {
    exists|i: int| 0 <= i < e.len() && e[i].0 == p
}

/// `e` without the entry of `p`.
pub open spec fn without_path(e: Seq<(Seq<char>, Seq<char>)>, p: Seq<char>) -> Seq<(Seq<char>, Seq<char>)>
    decreases e.len(),
{
    if e.len() == 0 {
        e
    } else {
        let rest = without_path(e.drop_last(), p);
        if e.last().0 == p {
            rest
        } else {
            rest.push(e.last())
        }
    }
}

/// The source cached for `p`, if any.
pub open spec fn source_of(e: Seq<(Seq<char>, Seq<char>)>, p: Seq<char>) -> Option<Seq<char>>
    decreases e.len(),
{
    if e.len() == 0 {
        None
    } else if e.last().0 == p {
        Some(e.last().1)
    } else {
        source_of(e.drop_last(), p)
    }
}

/// The entries after inserting `src` for `p` into a cache of capacity `cap`:
/// a new path arriving at a full cache evicts the oldest entry; the path's
/// entry becomes the newest.
pub open spec fn cache_insert(
    e: Seq<(Seq<char>, Seq<char>)>,
    cap: nat,
    p: Seq<char>,
    src: Seq<char>,
) -> Seq<(Seq<char>, Seq<char>)> {
    let e1 = if e.len() >= cap && !has_path(e, p) {
        e.drop_first()
    } else {
        e
    };
    without_path(e1, p).push((p, src))
}

spec fn entries_of(files: Seq<CachedDocument>) -> Seq<(Seq<char>, Seq<char>)> {
    files.map_values(|d: CachedDocument| (d.path@, d.source@))
}

/// The position of `path` among `files`.
fn position_in(files: &Vec<CachedDocument>, path: &str) -> (r: Option<usize>)
    ensures
        match r {
            Some(k) => k < entries_of(files@).len() && entries_of(files@)[k as int].0 == path@,
            None => !has_path(entries_of(files@), path@),
        },
{
    let pc = crate::text::chars_of(path);
    let mut i: usize = 0;
    while i < files.len()
        invariant
            i <= files@.len(),
            pc@ == path@,
            forall|q: int| 0 <= q < i ==> #[trigger] entries_of(files@)[q].0 != path@,
        decreases files@.len() - i,
    {
        let here = crate::text::chars_of(files[i].path.as_str());
        if crate::indexer::chars_eq(here.as_slice(), pc.as_slice()) {
            return Some(i);
        }
        i = i + 1;
    }
    None
}

impl DocumentCache {
    pub closed spec fn entries(&self) -> Seq<(Seq<char>, Seq<char>)> {
        entries_of(self.files@)
    }

    pub closed spec fn cap(&self) -> nat {
        self.capacity as nat
    }

    /// The cache's invariant: distinct paths, at most `capacity` of them, capacity at least two.
    #[verifier::type_invariant]
    spec fn well_formed(self) -> bool {
        valid_entries(self.entries(), self.cap())
    }

    /// An empty cache for `capacity` documents (at least two).
    pub fn new(capacity: usize) -> (r: DocumentCache)
        ensures
            valid_entries(r.entries(), r.cap()),
            r.entries().len() == 0,
            r.cap() == if capacity < 2 {
                2
            } else {
                capacity
            },
    {
        let c = if capacity < 2 {
            2
        } else {
            capacity
        };
        let files: Vec<CachedDocument> = Vec::new();
        assert(files@.map_values(|d: CachedDocument| (d.path@, d.source@)) =~= seq![]);
        DocumentCache { files, capacity: c }
    }

    /// The cached source of `path`.
    pub fn get_source(&self, path: &str) -> (r: Option<String>)
        ensures
            match r {
                Some(s) => source_of(self.entries(), path@) == Some(s@),
                None => source_of(self.entries(), path@) is None,
            },
    {
        let pc = crate::text::chars_of(path);
        let mut i = self.files.len();
        assert(self.entries().subrange(0, i as int) =~= self.entries());
        while i > 0
            invariant
                i <= self.files@.len(),
                pc@ == path@,
                source_of(self.entries(), path@) == source_of(
                    self.entries().subrange(0, i as int),
                    path@,
                ),
            decreases i,
        {
            let ghost e = self.entries().subrange(0, i as int);
            assert(e.drop_last() =~= self.entries().subrange(0, i - 1));
            let here = crate::text::chars_of(self.files[i - 1].path.as_str());
            if crate::indexer::chars_eq(here.as_slice(), pc.as_slice()) {
                return Some(self.files[i - 1].source.clone());
            }
            i = i - 1;
        }
        None
    }

    /// Caches `source` for `path` (the version and parse result are not kept).
    pub fn insert(&mut self, path: String, source: String, _version: i64, _parsed: ParsedFile)
        ensures
            valid_entries(final(self).entries(), final(self).cap()),
            final(self).cap() == old(self).cap(),
            final(self).entries() == cache_insert(old(self).entries(), old(self).cap(), path@, source@),
    {
        proof {
            use_type_invariant(&*self);
        }
        let ghost e0 = self.entries();
        let mut files: Vec<CachedDocument> = Vec::new();
        std::mem::swap(&mut files, &mut self.files);
        let pos = position_in(&files, path.as_str());
        if files.len() >= self.capacity && pos.is_none() {
            files.remove(0);
            assert(entries_of(files@) =~= e0.drop_first());
        }
        let ghost e1 = entries_of(files@);
        match position_in(&files, path.as_str()) {
            Some(k) => {
                files.remove(k);
                assert(entries_of(files@) =~= e1.remove(k as int));
                proof {
                    lemma_without_path_single(e1, path@, k as int);
                }
            },
            None => {
                proof {
                    lemma_without_path_absent(e1, path@);
                }
            },
        }
        let ghost e2 = entries_of(files@);
        assert(e2 == without_path(e1, path@));
        proof {
            lemma_without_path_no_dup(e1, path@);
        }
        files.push(CachedDocument { path, source });
        assert(entries_of(files@) =~= e2.push((path@, source@)));
        self.files = files;
    }

    /// Drops the cached source of `path`.
    pub fn remove(&mut self, path: &str)
        ensures
            valid_entries(final(self).entries(), final(self).cap()),
            final(self).cap() == old(self).cap(),
            final(self).entries() == without_path(old(self).entries(), path@),
    {
        proof {
            use_type_invariant(&*self);
            lemma_without_path_no_dup(self.entries(), path@);
        }
        let ghost e1 = self.entries();
        let mut files: Vec<CachedDocument> = Vec::new();
        std::mem::swap(&mut files, &mut self.files);
        match position_in(&files, path) {
            Some(k) => {
                files.remove(k);
                assert(entries_of(files@) =~= e1.remove(k as int));
                proof {
                    lemma_without_path_single(e1, path@, k as int);
                }
            },
            None => {
                proof {
                    lemma_without_path_absent(e1, path@);
                }
            },
        }
        self.files = files;
    }
}

pub proof fn lemma_without_path_absent(e: Seq<(Seq<char>, Seq<char>)>, p: Seq<char>)
    requires
        !has_path(e, p),
    ensures
        without_path(e, p) == e,
    decreases e.len(),
{
    if e.len() > 0 {
        assert(!has_path(e.drop_last(), p)) by {
            if has_path(e.drop_last(), p) {
                let i = choose|i: int| 0 <= i < e.drop_last().len() && e.drop_last()[i].0 == p;
                assert(e[i].0 == p);
            }
        }
        lemma_without_path_absent(e.drop_last(), p);
        assert(e.last().0 != p) by {
            if e.last().0 == p {
                assert(e[e.len() - 1].0 == p);
            }
        }
        assert(e.drop_last().push(e.last()) =~= e);
    }
}

pub proof fn lemma_without_path_single(e: Seq<(Seq<char>, Seq<char>)>, p: Seq<char>, k: int)
    requires
        no_dup_paths(e),
        0 <= k < e.len(),
        e[k].0 == p,
    ensures
        without_path(e, p) == e.remove(k),
    decreases e.len(),
{
    if k == e.len() - 1 {
        assert(!has_path(e.drop_last(), p)) by {
            if has_path(e.drop_last(), p) {
                let i = choose|i: int| 0 <= i < e.drop_last().len() && e.drop_last()[i].0 == p;
                assert(e[i].0 == p);
            }
        }
        lemma_without_path_absent(e.drop_last(), p);
        assert(e.remove(k) =~= e.drop_last());
    } else {
        lemma_without_path_single(e.drop_last(), p, k);
        assert(e.last().0 != p) by {
            assert(e[e.len() - 1].0 != e[k].0);
        }
        assert(e.drop_last().remove(k).push(e.last()) =~= e.remove(k));
    }
}

pub proof fn lemma_without_path_no_dup(e: Seq<(Seq<char>, Seq<char>)>, p: Seq<char>)
    requires
        no_dup_paths(e),
    ensures
        no_dup_paths(without_path(e, p)),
        !has_path(without_path(e, p), p),
        without_path(e, p).len() <= e.len(),
        forall|x: Seq<char>| has_path(without_path(e, p), x) ==> has_path(e, x),
    decreases e.len(),
{
    if e.len() > 0 {
        lemma_without_path_no_dup(e.drop_last(), p);
        let rest = without_path(e.drop_last(), p);
        assert forall|x: Seq<char>| has_path(e.drop_last(), x) implies has_path(e, x) by {
            let i = choose|i: int| 0 <= i < e.drop_last().len() && e.drop_last()[i].0 == x;
            assert(e[i].0 == x);
        }
        if e.last().0 != p {
            assert(!has_path(rest, e.last().0)) by {
                if has_path(rest, e.last().0) {
                    assert(has_path(e.drop_last(), e.last().0));
                    let i = choose|i: int| 0 <= i < e.drop_last().len() && e.drop_last()[i].0 == e.last().0;
                    assert(e[i].0 == e[e.len() - 1].0);
                }
            }
            let r2 = rest.push(e.last());
            assert forall|x: Seq<char>| has_path(r2, x) implies has_path(e, x) by {
                let i = choose|i: int| 0 <= i < r2.len() && r2[i].0 == x;
                if i == r2.len() - 1 {
                    assert(e[e.len() - 1].0 == x);
                } else {
                    assert(has_path(rest, x));
                }
            }
            assert(!has_path(r2, p)) by {
                if has_path(r2, p) {
                    let i = choose|i: int| 0 <= i < r2.len() && r2[i].0 == p;
                    if i < rest.len() {
                        assert(has_path(rest, p));
                    }
                }
            }
            assert forall|i: int, j: int| 0 <= i < j < r2.len() implies r2[i].0 != r2[j].0 by {
                if j == r2.len() - 1 {
                    assert(rest[i].0 == r2[i].0);
                }
            }
        }
    }
}

proof fn lemma_source_absent(e: Seq<(Seq<char>, Seq<char>)>, q: Seq<char>)
    requires
        !has_path(e, q),
    ensures
        source_of(e, q) is None,
{
    lemma_without_path_absent(e, q);
    lemma_get_after_remove(e, q);
}

proof fn lemma_source_without(e: Seq<(Seq<char>, Seq<char>)>, p: Seq<char>, q: Seq<char>)
    requires
        q != p,
    ensures
        source_of(without_path(e, p), q) == source_of(e, q),
    decreases e.len(),
{
    if e.len() > 0 {
        lemma_source_without(e.drop_last(), p, q);
        let rest = without_path(e.drop_last(), p);
        if e.last().0 != p {
            assert(rest.push(e.last()).drop_last() =~= rest);
        }
    }
}

proof fn lemma_source_drop_first(e: Seq<(Seq<char>, Seq<char>)>, q: Seq<char>)
    requires
        e.len() > 0,
        e[0].0 != q,
    ensures
        source_of(e.drop_first(), q) == source_of(e, q),
    decreases e.len(),
{
    if e.len() > 1 {
        assert(e.drop_first().drop_last() =~= e.drop_last().drop_first());
        lemma_source_drop_first(e.drop_last(), q);
    } else {
        assert(e.drop_first() =~= Seq::<(Seq<char>, Seq<char>)>::empty());
        assert(e.drop_last() =~= Seq::<(Seq<char>, Seq<char>)>::empty());
    }
}

/// Caching a document keeps the cache valid, and the cached sources change
/// only as least-recently-inserted eviction says: the document's own source
/// is the new one; when a new path arrives at a full cache, the document
/// inserted longest ago (the first entry) is evicted; every other document
/// keeps exactly what it had, and none is added.
pub proof fn lemma_insert_evicts_oldest(e: Seq<(Seq<char>, Seq<char>)>, cap: nat, p: Seq<char>, src: Seq<char>)
    requires
        valid_entries(e, cap),
    ensures
        ({
            let r = cache_insert(e, cap, p, src);
            let evicts = e.len() >= cap && !has_path(e, p);
            &&& valid_entries(r, cap)
            &&& source_of(r, p) == Some(src)
            &&& evicts ==> e[0].0 != p && source_of(r, e[0].0) is None
            &&& forall|q: Seq<char>|
                q != p && !(evicts && q == e[0].0) ==> #[trigger] source_of(r, q) == source_of(e, q)
        }),
{
    let evicts = e.len() >= cap && !has_path(e, p);
    let e1 = if evicts {
        e.drop_first()
    } else {
        e
    };
    if evicts {
        assert(no_dup_paths(e1)) by {
            assert forall|i: int, j: int| 0 <= i < j < e1.len() implies e1[i].0 != e1[j].0 by {
                assert(e1[i] == e[i + 1] && e1[j] == e[j + 1]);
            }
        }
        assert(e[0].0 != p) by {
            if e[0].0 == p {
                assert(has_path(e, p));
            }
        }
        assert(!has_path(e1, e[0].0)) by {
            if has_path(e1, e[0].0) {
                let i = choose|i: int| 0 <= i < e1.len() && e1[i].0 == e[0].0;
                assert(e[i + 1].0 == e[0].0);
            }
        }
        lemma_source_absent(e1, e[0].0);
        lemma_source_without(e1, p, e[0].0);
    }
    lemma_without_path_no_dup(e1, p);
    let w = without_path(e1, p);
    let r = w.push((p, src));
    assert(r == cache_insert(e, cap, p, src));
    assert(r.drop_last() =~= w);
    if has_path(e1, p) {
        let k = choose|k: int| 0 <= k < e1.len() && e1[k].0 == p;
        lemma_without_path_single(e1, p, k);
    }
    assert(no_dup_paths(r)) by {
        assert forall|i: int, j: int| 0 <= i < j < r.len() implies r[i].0 != r[j].0 by {
            if j == r.len() - 1 {
                assert(w[i].0 == r[i].0);
                if w[i].0 == p {
                    assert(has_path(w, p));
                }
            } else {
                assert(w[i] == r[i] && w[j] == r[j]);
            }
        }
    }
    assert forall|q: Seq<char>| q != p && !(evicts && q == e[0].0) implies #[trigger] source_of(r, q) == source_of(e, q) by {
        lemma_source_without(e1, p, q);
        if evicts {
            lemma_source_drop_first(e, q);
        }
    }
}

/// A document's source can be read back right after it is cached.
pub proof fn lemma_get_after_insert(e: Seq<(Seq<char>, Seq<char>)>, cap: nat, p: Seq<char>, src: Seq<char>)
    ensures
        source_of(cache_insert(e, cap, p, src), p) == Some(src),
{
}

/// Once a document leaves the cache, its source is no longer cached.
pub proof fn lemma_get_after_remove(e: Seq<(Seq<char>, Seq<char>)>, p: Seq<char>)
    ensures
        source_of(without_path(e, p), p) is None,
    decreases e.len(),
{
    if e.len() > 0 {
        lemma_get_after_remove(e.drop_last(), p);
        let rest = without_path(e.drop_last(), p);
        assert(rest.push(e.last()).drop_last() =~= rest);
    }
}

} // verus!
