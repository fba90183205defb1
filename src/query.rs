use vstd::prelude::*;
use crate::model::{DocView, FunctionDoc, PackageIdentity, docs_view, str_eq};
use crate::store::Catalog;

verus! {

/// One answer to a query: a function and the package it comes from.
pub struct Hit {
    pub identity: PackageIdentity,
    pub doc: FunctionDoc,
}

impl View for Hit {
    type V = ((Seq<char>, Seq<char>), DocView);

    open spec fn view(&self) -> ((Seq<char>, Seq<char>), DocView) {
        (self.identity@, self.doc@)
    }
}

pub open spec fn hits_view(v: Seq<Hit>) -> Seq<((Seq<char>, Seq<char>), DocView)> {
    v.map_values(|h: Hit| h@)
}

/// `needle` occurs somewhere in `hay`.
pub open spec fn is_substring(needle: Seq<char>, hay: Seq<char>) -> bool {
    exists|i: int|
        0 <= i <= hay.len() - needle.len() && #[trigger] hay.subrange(i, i + needle.len()) == needle
}

/// Whether a record answers the query `q`: with `exact`, its final path
/// segment is `q`; without, its final path segment contains `q`.
pub open spec fn answers(d: DocView, q: Seq<char>, exact: bool) -> bool {
    d.path.len() > 0 && if exact {
        d.path.last() == q
    } else {
        is_substring(q, d.path.last())
    }
}

/// The records of one package that answer `q`, in declaration order.
pub open spec fn package_hits(
    id: (Seq<char>, Seq<char>),
    docs: Seq<DocView>,
    q: Seq<char>,
    exact: bool,
) -> Seq<((Seq<char>, Seq<char>), DocView)>
    decreases docs.len(),
{
    if docs.len() == 0 {
        seq![]
    } else {
        let before = package_hits(id, docs.drop_last(), q, exact);
        if answers(docs.last(), q, exact) {
            before.push((id, docs.last()))
        } else {
            before
        }
    }
}

/// The records of all listed packages that answer `q`, package by package.
pub open spec fn all_hits(
    l: Seq<((Seq<char>, Seq<char>), Seq<DocView>)>,
    q: Seq<char>,
    exact: bool,
) -> Seq<((Seq<char>, Seq<char>), DocView)>
    decreases l.len(),
{
    if l.len() == 0 {
        seq![]
    } else {
        all_hits(l.drop_last(), q, exact) + package_hits(l.last().0, l.last().1, q, exact)
    }
}

/// The answer to `q`: every exact match of the final path segment, or, where
/// there is none in any package, every function whose final segment
/// contains `q`.
pub open spec fn resolution(
    l: Seq<((Seq<char>, Seq<char>), Seq<DocView>)>,
    q: Seq<char>,
) -> Seq<((Seq<char>, Seq<char>), DocView)> {
    if all_hits(l, q, true).len() > 0 {
        all_hits(l, q, true)
    } else {
        all_hits(l, q, false)
    }
}

/// Whether `needle` occurs in `hay` at position `i`.
fn occurs_at(hay: &str, needle: &str, i: usize) -> (r: bool)
    requires
        i + needle@.len() <= hay@.len(),
    ensures
        r == (hay@.subrange(i as int, i + needle@.len()) == needle@),
{
    let n = hay.unicode_len();
    let m = needle.unicode_len();
    let mut j: usize = 0;
    while j < m
        invariant
            n == hay@.len(),
            m == needle@.len(),
            i + m <= hay@.len(),
            j <= m,
            forall|t: int| 0 <= t < j ==> hay@[i + t] == needle@[t],
        decreases m - j,
    {
        if hay.get_char(i + j) != needle.get_char(j) {
            assert(hay@.subrange(i as int, i + m)[j as int] != needle@[j as int]);
            return false;
        }
        j = j + 1;
    }
    assert(hay@.subrange(i as int, i + m) =~= needle@);
    true
}

/// Whether `needle` occurs anywhere in `hay`.
pub fn contains_str(hay: &str, needle: &str) -> (r: bool)
    ensures
        r == is_substring(needle@, hay@),
{
    let n = hay.unicode_len();
    let m = needle.unicode_len();
    if m > n {
        return false;
    }
    let mut i: usize = 0;
    while i <= n - m
        invariant
            n == hay@.len(),
            m == needle@.len(),
            m <= n,
            i <= n - m + 1,
            forall|t: int|
                0 <= t < i ==> #[trigger] hay@.subrange(t, t + m) != needle@,
        decreases n - m + 1 - i,
    {
        if occurs_at(hay, needle, i) {
            return true;
        }
        if i == n - m {
            return false;
        }
        i = i + 1;
    }
    false
}

/// Whether the record answers `q` (see `answers`).
pub fn doc_answers(d: &FunctionDoc, q: &str, exact: bool) -> (r: bool)
    ensures
        r == answers(d@, q@, exact),
{
    let n = d.path.len();
    if n == 0 {
        return false;
    }
    let last = d.path[n - 1].as_str();
    if exact {
        str_eq(last, q)
    } else {
        contains_str(last, q)
    }
}

fn collect(cat: &Catalog, q: &str, exact: bool) -> (r: Vec<Hit>)
    ensures
        hits_view(r@) == all_hits(cat.spec_listing(), q@, exact),
{
    let ghost l = cat.spec_listing();
    let mut out: Vec<Hit> = Vec::new();
    let mut i: usize = 0;
    assert(l.take(0) =~= seq![]);
    assert(hits_view(out@) =~= all_hits(l.take(0), q@, exact));
    while i < cat.len()
        invariant
            l == cat.spec_listing(),
            i <= l.len(),
            hits_view(out@) == all_hits(l.take(i as int), q@, exact),
        decreases l.len() - i,
    {
        let e = cat.entry(i);
        let ghost id = e.identity@;
        let ghost ds = docs_view(e.docs@);
        let ghost base = hits_view(out@);
        let mut j: usize = 0;
        assert(ds.take(0) =~= seq![]);
        assert(hits_view(out@) =~= base + package_hits(id, ds.take(0), q@, exact));
        while j < e.docs.len()
            invariant
                j <= e.docs@.len(),
                ds == docs_view(e.docs@),
                id == e.identity@,
                hits_view(out@) == base + package_hits(id, ds.take(j as int), q@, exact),
            decreases e.docs.len() - j,
        {
            let d = &e.docs[j];
            assert(ds.take(j + 1).drop_last() =~= ds.take(j as int));
            assert(ds.take(j + 1).last() == d@);
            if doc_answers(d, q, exact) {
                let h = Hit { identity: e.identity.duplicate(), doc: d.duplicate() };
                assert(h@ == (id, d@));
                let ghost prev = hits_view(out@);
                out.push(h);
                assert(hits_view(out@) =~= prev.push(h@));
                assert(package_hits(id, ds.take(j + 1), q@, exact) == package_hits(
                    id,
                    ds.take(j as int),
                    q@,
                    exact,
                ).push((id, d@)));
                assert(hits_view(out@) =~= base + package_hits(id, ds.take(j + 1), q@, exact));
            } else {
                assert(hits_view(out@) =~= base + package_hits(id, ds.take(j + 1), q@, exact));
            }
            j = j + 1;
        }
        assert(ds.take(j as int) =~= ds);
        assert(l.take(i + 1).drop_last() =~= l.take(i as int));
        assert(l.take(i + 1).last() == (id, ds));
        i = i + 1;
    }
    assert(l.take(l.len() as int) =~= l);
    out
}

/// Answers the query `q` against every package of the catalog: the exact
/// matches on the final path segment if there are any, else the substring
/// matches; ordered by package (name, then version) and then by declaration
/// order. An empty answer is an ordinary outcome.
pub fn resolve(cat: &Catalog, q: &str) -> (r: Vec<Hit>)
    ensures
        hits_view(r@) == resolution(cat.spec_listing(), q@),
{
    let exact = collect(cat, q, true);
    if exact.len() > 0 {
        exact
    } else {
        collect(cat, q, false)
    }
}

/// Answers each query term in turn and joins the answers in term order.
pub fn resolve_terms(cat: &Catalog, terms: &Vec<String>) -> (r: Vec<Hit>)
    ensures
        hits_view(r@) == terms@.map_values(|t: String| resolution(cat.spec_listing(), t@)).flatten(),
{
    let ghost parts = terms@.map_values(|t: String| resolution(cat.spec_listing(), t@));
    let mut out: Vec<Hit> = Vec::new();
    let mut i: usize = 0;
    assert(parts.take(0).flatten() =~= seq![]);
    while i < terms.len()
        invariant
            i <= terms@.len(),
            parts == terms@.map_values(|t: String| resolution(cat.spec_listing(), t@)),
            hits_view(out@) == parts.take(i as int).flatten(),
        decreases terms.len() - i,
    {
        let mut part = resolve(cat, terms[i].as_str());
        let ghost before = hits_view(out@);
        let ghost pv = hits_view(part@);
        out.append(&mut part);
        assert(hits_view(out@) =~= before + pv);
        assert(parts.take(i + 1) =~= parts.take(i as int).push(parts[i as int]));
        proof {
            parts.take(i as int).lemma_flatten_push(parts[i as int]);
        }
        i = i + 1;
    }
    assert(parts.take(terms@.len() as int) =~= parts);
    out
}

/// One answer as text: the signature, then the package it comes from.
pub fn render_hit(h: &Hit) -> (r: String)
    ensures
        r@ == h.doc.signature@ + "    // "@ + h.identity.name@ + " "@ + h.identity.version@,
{
    let mut s = h.doc.signature.clone();
    s.append("    // ");
    s.append(h.identity.name.as_str());
    s.append(" ");
    s.append(h.identity.version.as_str());
    s
}

} // verus!
