use vstd::prelude::*;
use crate::model::{DocView, FunctionDoc, PackageIdentity, docs_view};
use crate::paths::{cache_dir_spec, lemma_cache_dir_injective, parse_cache_dir};
use crate::order::{
    id_lt, lemma_id_lt_asymmetric, lemma_id_lt_irreflexive, lemma_id_lt_total,
    lemma_id_lt_transitive, str_lt,
};

verus! {

/// The cached documentation of one package.
pub struct PackageDocs {
    pub identity: PackageIdentity,
    pub docs: Vec<FunctionDoc>,
}

/// Every loaded package cache, one entry per identity, kept in the order of
/// package name and then version.
pub struct Catalog {
    entries: Vec<PackageDocs>,
}

pub open spec fn entry_id(es: Seq<PackageDocs>, i: int) -> (Seq<char>, Seq<char>) {
    es[i].identity@
}

/// The entries are strictly ordered by identity, so no identity occurs twice.
pub open spec fn sorted(es: Seq<PackageDocs>) -> bool {
    forall|i: int, j: int|
        0 <= i < j < es.len() ==> #[trigger] id_lt(entry_id(es, i), entry_id(es, j))
}

pub open spec fn has_id(es: Seq<PackageDocs>, k: (Seq<char>, Seq<char>)) -> bool {
    exists|i: int| 0 <= i < es.len() && entry_id(es, i) == k
}

pub open spec fn index_of(es: Seq<PackageDocs>, k: (Seq<char>, Seq<char>)) -> int {
    choose|i: int| 0 <= i < es.len() && entry_id(es, i) == k
}

/// The documentation held for each identity.
pub open spec fn contents(es: Seq<PackageDocs>) -> Map<(Seq<char>, Seq<char>), Seq<DocView>> {
    Map::new(|k: (Seq<char>, Seq<char>)| has_id(es, k), |k: (Seq<char>, Seq<char>)| docs_view(es[index_of(es, k)].docs@))
}

/// The entries as plain values, in their order.
pub open spec fn listing(es: Seq<PackageDocs>) -> Seq<((Seq<char>, Seq<char>), Seq<DocView>)> {
    es.map_values(|e: PackageDocs| (e.identity@, docs_view(e.docs@)))
}

proof fn lemma_unique_index(es: Seq<PackageDocs>, i: int, j: int)
    requires
        sorted(es),
        0 <= i < es.len(),
        0 <= j < es.len(),
        entry_id(es, i) == entry_id(es, j),
    ensures
        i == j,
{
    if i < j {
        assert(id_lt(entry_id(es, i), entry_id(es, j)));
        lemma_id_lt_irreflexive(entry_id(es, i));
    } else if j < i {
        assert(id_lt(entry_id(es, j), entry_id(es, i)));
        lemma_id_lt_irreflexive(entry_id(es, i));
    }
}

proof fn lemma_index_of(es: Seq<PackageDocs>, i: int)
    requires
        sorted(es),
        0 <= i < es.len(),
    ensures
        has_id(es, entry_id(es, i)),
        index_of(es, entry_id(es, i)) == i,
        contents(es)[entry_id(es, i)] == docs_view(es[i].docs@),
{
    let k = entry_id(es, i);
    assert(has_id(es, k));
    let j = index_of(es, k);
    lemma_unique_index(es, i, j);
}

impl Catalog {
    /// The documentation held for each package identity.
    pub closed spec fn spec_contents(&self) -> Map<(Seq<char>, Seq<char>), Seq<DocView>> {
        contents(self.entries@)
    }

    /// The packages and their documentation, ordered by name, then version.
    pub closed spec fn spec_listing(&self) -> Seq<((Seq<char>, Seq<char>), Seq<DocView>)> {
        listing(self.entries@)
    }

    pub closed spec fn wf(&self) -> bool {
        sorted(self.entries@)
    }

    /// The listing holds exactly the catalog's contents, one entry per
    /// identity, ordered by package name and then version.
    pub proof fn lemma_listing_matches_contents(&self)
        requires
            self.wf(),
        ensures
            forall|i: int, j: int|
                0 <= i < j < self.spec_listing().len() ==> id_lt(
                    #[trigger] self.spec_listing()[i].0,
                    #[trigger] self.spec_listing()[j].0,
                ),
            forall|i: int|
                0 <= i < self.spec_listing().len() ==> self.spec_contents().contains_key(
                    #[trigger] self.spec_listing()[i].0,
                ) && self.spec_contents()[self.spec_listing()[i].0] == self.spec_listing()[i].1,
            forall|k: (Seq<char>, Seq<char>)|
                #[trigger] self.spec_contents().contains_key(k) ==> exists|i: int|
                    0 <= i < self.spec_listing().len() && self.spec_listing()[i].0 == k,
    {
        let es = self.entries@;
        assert forall|i: int, j: int| 0 <= i < j < self.spec_listing().len() implies id_lt(
            #[trigger] self.spec_listing()[i].0,
            #[trigger] self.spec_listing()[j].0,
        ) by {
            assert(id_lt(entry_id(es, i), entry_id(es, j)));
        }
        assert forall|i: int| 0 <= i < self.spec_listing().len() implies self.spec_contents().contains_key(
            #[trigger] self.spec_listing()[i].0,
        ) && self.spec_contents()[self.spec_listing()[i].0] == self.spec_listing()[i].1 by {
            lemma_index_of(es, i);
        }
        assert forall|k: (Seq<char>, Seq<char>)| #[trigger] self.spec_contents().contains_key(k) implies exists|i: int|
            0 <= i < self.spec_listing().len() && self.spec_listing()[i].0 == k by {
            let i = index_of(es, k);
            assert(self.spec_listing()[i].0 == k);
        }
    }

    /// A catalog with no package.
    pub fn new() -> (r: Catalog)
        ensures
            r.wf(),
            r.spec_contents() == Map::<(Seq<char>, Seq<char>), Seq<DocView>>::empty(),
            r.spec_listing() == Seq::<((Seq<char>, Seq<char>), Seq<DocView>)>::empty(),
    {
        let r = Catalog { entries: Vec::new() };
        assert(r.spec_contents() =~= Map::<(Seq<char>, Seq<char>), Seq<DocView>>::empty());
        assert(r.spec_listing() =~= Seq::<((Seq<char>, Seq<char>), Seq<DocView>)>::empty());
        r
    }

    /// The number of packages held.
    pub fn len(&self) -> (r: usize)
        ensures
            r == self.spec_listing().len(),
    {
        self.entries.len()
    }

    /// The entry at position `i` of the listing.
    pub fn entry(&self, i: usize) -> (r: &PackageDocs)
        requires
            i < self.spec_listing().len(),
        ensures
            (r.identity@, docs_view(r.docs@)) == self.spec_listing()[i as int],
    {
        &self.entries[i]
    }

    /// The documentation held for `id`, if any.
    pub fn get(&self, id: &PackageIdentity) -> (r: Option<&Vec<FunctionDoc>>)
        requires
            self.wf(),
        ensures
            r matches Some(d) ==> self.spec_contents().contains_key(id@) && docs_view(d@)
                == self.spec_contents()[id@],
            r is None ==> !self.spec_contents().contains_key(id@),
    {
        let mut i: usize = 0;
        while i < self.entries.len()
            invariant
                self.wf(),
                i <= self.entries@.len(),
                forall|j: int| 0 <= j < i ==> entry_id(self.entries@, j) != id@,
            decreases self.entries.len() - i,
        {
            let e = &self.entries[i];
            if e.identity.name == id.name && e.identity.version == id.version {
                proof {
                    lemma_index_of(self.entries@, i as int);
                }
                return Some(&e.docs);
            }
            i = i + 1;
        }
        None
    }

    /// Stores `docs` as the whole documentation of `id`. Whatever was held
    /// for `id` before is replaced, not merged; other packages are untouched.
    pub fn put(&mut self, id: PackageIdentity, docs: Vec<FunctionDoc>)
        requires
            old(self).wf(),
        ensures
            final(self).wf(),
            final(self).spec_contents() == old(self).spec_contents().insert(id@, docs_view(docs@)),
    {
        let ghost es = self.entries@;
        let ghost k = id@;
        let n = self.entries.len();
        let mut p: usize = 0;
        let mut go = true;
        while go && p < n
            invariant
                n == self.entries@.len(),
                self.entries@ == es,
                k == id@,
                p <= n,
                forall|j: int| 0 <= j < p ==> id_lt(#[trigger] entry_id(es, j), k),
                !go ==> p < n && !id_lt(entry_id(es, p as int), k),
            decreases (n - p) as int + (if go { 1int } else { 0int }),
        {
            if str_lt_id(&self.entries[p].identity, &id) {
                p = p + 1;
            } else {
                go = false;
            }
        }
        // Every entry from p on comes after or equals the new identity.
        proof {
            if p < n {
                lemma_id_lt_total(entry_id(es, p as int), k);
            }
        }
        let same = p < n && self.entries[p].identity.name == id.name
            && self.entries[p].identity.version == id.version;
        let entry = PackageDocs { identity: id, docs };
        let ghost ge = entry;
        if same {
            self.entries.remove(p);
            self.entries.insert(p, entry);
            let ghost ns = self.entries@;
            assert(ns =~= es.update(p as int, entry));
            assert forall|i: int, j: int| 0 <= i < j < ns.len() implies #[trigger] id_lt(
                entry_id(ns, i),
                entry_id(ns, j),
            ) by {
                assert(id_lt(entry_id(es, i), entry_id(es, j)));
            }
            proof {
                lemma_contents_update(self.entries@, es, p as int, ge);
            }
        } else {
            self.entries.insert(p, entry);
            let ghost ns = self.entries@;
            assert(ns =~= es.insert(p as int, entry));
            proof {
                if p < n {
                    assert(id_lt(k, entry_id(es, p as int)));
                }
            }
            assert forall|i: int, j: int| 0 <= i < j < ns.len() implies #[trigger] id_lt(
                entry_id(ns, i),
                entry_id(ns, j),
            ) by {
                assert(entry_id(ns, p as int) == k);
                if i < p {
                    assert(entry_id(ns, i) == entry_id(es, i));
                } else if i > p {
                    assert(entry_id(ns, i) == entry_id(es, i - 1));
                }
                if j < p {
                    assert(entry_id(ns, j) == entry_id(es, j));
                } else if j > p {
                    assert(entry_id(ns, j) == entry_id(es, j - 1));
                }
                if j < p {
                    assert(id_lt(entry_id(es, i), entry_id(es, j)));
                } else if j == p {
                } else if i == p {
                    if j - 1 > p {
                        assert(id_lt(entry_id(es, p as int), entry_id(es, j - 1)));
                        lemma_id_lt_transitive(k, entry_id(es, p as int), entry_id(es, j - 1));
                    }
                } else if i < p {
                    assert(id_lt(entry_id(es, i), k));
                    assert(id_lt(k, entry_id(es, p as int)));
                    lemma_id_lt_transitive(entry_id(es, i), k, entry_id(es, p as int));
                    if j - 1 > p {
                        assert(id_lt(entry_id(es, p as int), entry_id(es, j - 1)));
                        lemma_id_lt_transitive(entry_id(es, i), entry_id(es, p as int), entry_id(es, j - 1));
                    }
                } else {
                    assert(id_lt(entry_id(es, i - 1), entry_id(es, j - 1)));
                }
            }
            proof {
                lemma_contents_insert(self.entries@, es, p as int, ge);
            }
        }
    }

}

proof fn lemma_contents_update(ns: Seq<PackageDocs>, es: Seq<PackageDocs>, p: int, e: PackageDocs)
    requires
        sorted(es),
        sorted(ns),
        0 <= p < es.len(),
        entry_id(es, p) == e.identity@,
        ns == es.update(p, e),
    ensures
        contents(ns) == contents(es).insert(e.identity@, docs_view(e.docs@)),
{
    let k = e.identity@;
    assert forall|q: (Seq<char>, Seq<char>)| #[trigger] has_id(ns, q) == (has_id(es, q) || q == k) by {
        if has_id(es, q) {
            let i = index_of(es, q);
            if i != p {
                assert(entry_id(ns, i) == q);
            }
        }
        if q == k {
            assert(entry_id(ns, p) == q);
        }
        if has_id(ns, q) {
            let i = index_of(ns, q);
            if i != p {
                assert(entry_id(es, i) == q);
            }
        }
    }
    assert forall|q: (Seq<char>, Seq<char>)| has_id(ns, q) implies #[trigger] contents(ns)[q]
        == contents(es).insert(k, docs_view(e.docs@))[q] by {
        let i = index_of(ns, q);
        lemma_index_of(ns, i);
        assert(entry_id(ns, p) == k);
        if i != p {
            if q == k {
                lemma_unique_index(ns, i, p);
            }
            assert(entry_id(es, i) == q);
            lemma_index_of(es, i);
        }
    }
    assert(contents(ns) =~= contents(es).insert(k, docs_view(e.docs@)));
}

proof fn lemma_contents_insert(ns: Seq<PackageDocs>, es: Seq<PackageDocs>, p: int, e: PackageDocs)
    requires
        sorted(es),
        sorted(ns),
        0 <= p <= es.len(),
        ns == es.insert(p, e),
    ensures
        contents(ns) == contents(es).insert(e.identity@, docs_view(e.docs@)),
{
    let k = e.identity@;
    assert(entry_id(ns, p) == k);
    assert forall|q: (Seq<char>, Seq<char>)| #[trigger] has_id(ns, q) == (has_id(es, q) || q == k) by {
        if has_id(es, q) {
            let i = index_of(es, q);
            if i < p {
                assert(entry_id(ns, i) == q);
            } else {
                assert(entry_id(ns, i + 1) == q);
            }
        }
        if has_id(ns, q) {
            let i = index_of(ns, q);
            if i < p {
                assert(entry_id(es, i) == q);
            } else if i > p {
                assert(entry_id(es, i - 1) == q);
            }
        }
    }
    assert forall|q: (Seq<char>, Seq<char>)| has_id(ns, q) implies #[trigger] contents(ns)[q]
        == contents(es).insert(k, docs_view(e.docs@))[q] by {
        let i = index_of(ns, q);
        lemma_index_of(ns, i);
        lemma_index_of(ns, p);
        if i < p {
            assert(entry_id(es, i) == q);
            lemma_index_of(es, i);
        } else if i > p {
            assert(entry_id(es, i - 1) == q);
            lemma_index_of(es, i - 1);
        }
    }
    assert(contents(ns) =~= contents(es).insert(k, docs_view(e.docs@)));
}

/// Whether identity `a` comes strictly before identity `b`.
pub fn str_lt_id(a: &PackageIdentity, b: &PackageIdentity) -> (r: bool)
    ensures
        r == id_lt(a@, b@),
{
    if str_lt(a.name.as_str(), b.name.as_str()) {
        true
    } else if a.name == b.name {
        str_lt(a.version.as_str(), b.version.as_str())
    } else {
        false
    }
}

/// One cache directory found under the cache root: its name, and its
/// records if the cache file in it could be read and decoded.
pub struct CacheListing {
    pub dir_name: String,
    pub docs: Option<Vec<FunctionDoc>>,
}

impl View for CacheListing {
    type V = (Seq<char>, Option<Seq<DocView>>);

    open spec fn view(&self) -> (Seq<char>, Option<Seq<DocView>>) {
        (
            self.dir_name@,
            match self.docs {
                Some(d) => Some(docs_view(d@)),
                None => None,
            },
        )
    }
}

pub open spec fn listings_view(v: Seq<CacheListing>) -> Seq<(Seq<char>, Option<Seq<DocView>>)> {
    v.map_values(|l: CacheListing| l@)
}

/// The identity whose cache directory is called `name`, where there is one.
pub open spec fn dir_identity(name: Seq<char>) -> Option<(Seq<char>, Seq<char>)> {
    if exists|id: (Seq<char>, Seq<char>)| cache_dir_spec(id) == name {
        Some(choose|id: (Seq<char>, Seq<char>)| cache_dir_spec(id) == name)
    } else {
        None
    }
}

/// Whether a found cache is used: its directory names an identity and its
/// file was decoded.
pub open spec fn usable(l: (Seq<char>, Option<Seq<DocView>>)) -> bool {
    dir_identity(l.0) is Some && l.1 is Some
}

/// What loading the found caches gives: each usable one under its identity,
/// later ones in the list taking the place of earlier ones; the others are
/// left out.
pub open spec fn load_spec(s: Seq<(Seq<char>, Option<Seq<DocView>>)>) -> Map<
    (Seq<char>, Seq<char>),
    Seq<DocView>,
>
    decreases s.len(),
{
    if s.len() == 0 {
        Map::empty()
    } else {
        let prev = load_spec(s.drop_last());
        let l = s.last();
        if usable(l) {
            prev.insert(dir_identity(l.0)->0, l.1->0)
        } else {
            prev
        }
    }
}

/// The names of the found caches that are not used, in order.
pub open spec fn skipped_spec(s: Seq<(Seq<char>, Option<Seq<DocView>>)>) -> Seq<Seq<char>>
    decreases s.len(),
{
    if s.len() == 0 {
        seq![]
    } else {
        let prev = skipped_spec(s.drop_last());
        if usable(s.last()) {
            prev
        } else {
            prev.push(s.last().0)
        }
    }
}

proof fn lemma_dir_identity(name: Seq<char>, id: (Seq<char>, Seq<char>))
    requires
        cache_dir_spec(id) == name,
    ensures
        dir_identity(name) == Some(id),
{
    let c = choose|x: (Seq<char>, Seq<char>)| cache_dir_spec(x) == name;
    if c != id {
        lemma_cache_dir_injective(c, id);
    }
}

/// A cache that cannot be read for one package costs only that package: a
/// usable cache for identity `b`, with no later cache in the list for the
/// same directory, is loaded whatever the other caches hold.
pub proof fn lemma_load_keeps_usable(
    s: Seq<(Seq<char>, Option<Seq<DocView>>)>,
    j: int,
    b: (Seq<char>, Seq<char>),
    d: Seq<DocView>,
)
    requires
        0 <= j < s.len(),
        s[j] == (cache_dir_spec(b), Some(d)),
        forall|k: int| j < k < s.len() ==> (#[trigger] s[k]).0 != cache_dir_spec(b),
    ensures
        load_spec(s).contains_key(b),
        load_spec(s)[b] == d,
    decreases s.len(),
{
    lemma_dir_identity(cache_dir_spec(b), b);
    if j < s.len() - 1 {
        let t = s.drop_last();
        assert(t[j] == s[j]);
        assert forall|k: int| j < k < t.len() implies (#[trigger] t[k]).0 != cache_dir_spec(b) by {
            assert(t[k] == s[k]);
        }
        lemma_load_keeps_usable(t, j, b, d);
        let l = s.last();
        if usable(l) {
            let id = dir_identity(l.0)->0;
            assert(cache_dir_spec(id) == l.0);
            assert(s[s.len() - 1].0 != cache_dir_spec(b));
        }
    }
}

impl Catalog {
    /// Builds the catalog from the caches found under the cache root. A cache
    /// whose directory name is not one that `cache_dir_name` gives, or whose
    /// file could not be decoded, is skipped and its name reported; it never
    /// keeps the others from loading.
    pub fn load(found: Vec<CacheListing>) -> (r: (Catalog, Vec<String>))
        ensures
            r.0.wf(),
            r.0.spec_contents() == load_spec(listings_view(found@)),
            r.1@.map_values(|n: String| n@) == skipped_spec(listings_view(found@)),
    {
        let ghost fv = listings_view(found@);
        let mut cat = Catalog::new();
        let mut skipped: Vec<String> = Vec::new();
        let mut rest = found;
        let ghost total = rest@;
        let n = rest.len();
        // Reverse the listings, so that popping yields them front to back.
        let mut items: Vec<CacheListing> = Vec::new();
        while rest.len() > 0
            invariant
                rest@.len() + items@.len() == n,
                total.len() == n,
                forall|k: int| 0 <= k < rest@.len() ==> rest@[k] == total[k],
                forall|k: int| 0 <= k < items@.len() ==> items@[k] == total[n - 1 - k],
            decreases rest.len(),
        {
            let l = rest.pop().unwrap();
            items.push(l);
        }
        let mut i: usize = 0;
        assert(fv.take(0) =~= seq![]);
        assert(skipped@.map_values(|s: String| s@) =~= seq![]);
        while i < n
            invariant
                i <= n,
                items@.len() == n - i,
                total.len() == n,
                fv == listings_view(total),
                forall|k: int| 0 <= k < n - i ==> items@[k] == total[n - 1 - k],
                cat.wf(),
                cat.spec_contents() == load_spec(fv.take(i as int)),
                skipped@.map_values(|s: String| s@) == skipped_spec(fv.take(i as int)),
            decreases n - i,
        {
            let l = items.pop().unwrap();
            assert(l == total[i as int]);
            assert(fv.take(i + 1).drop_last() =~= fv.take(i as int));
            assert(fv.take(i + 1).last() == l@);
            let ghost prev_sk = skipped@.map_values(|s: String| s@);
            match (parse_cache_dir(l.dir_name.as_str()), l.docs) {
                (Some(id), Some(docs)) => {
                    proof {
                        lemma_dir_identity(l.dir_name@, id@);
                    }
                    cat.put(id, docs);
                },
                (pid, _) => {
                    proof {
                        if pid is Some {
                            lemma_dir_identity(l.dir_name@, pid->0@);
                        }
                    }
                    skipped.push(l.dir_name);
                    assert(skipped@.map_values(|s: String| s@) =~= prev_sk.push(l@.0));
                },
            }
            i = i + 1;
        }
        assert(fv.take(n as int) =~= fv);
        (cat, skipped)
    }
}

} // verus!
