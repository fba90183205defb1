use vstd::prelude::*;
use crate::extract::{Node, extract, extraction};
use crate::model::{DocView, PackageIdentity, docs_view};
use crate::store::Catalog;

verus! {

/// The ways in which generating or querying documentation fails.
#[derive(Clone, Copy, Debug, PartialEq, Eq, Structural)]
pub enum ErrorKind {
    /// The manifest is missing, malformed, or lacks the package name or version.
    ConfigError,
    /// None of the conventional entry files exists.
    EntryPointError,
    /// The entry file did not parse, or parsed with diagnosed errors.
    ParseError,
    /// A cache file could not be read or written.
    IoError,
    /// The location of the cache root could not be found.
    HomeDirUnavailable,
}

/// The entry files probed, in order: the library's first, then the binary's.
pub open spec fn entry_candidates_spec() -> Seq<Seq<char>> {
    seq!["src/lib.rs"@, "src/main.rs"@]
}

/// The relative paths of the conventional entry files, in probing order.
pub fn entry_candidates() -> (r: Vec<String>)
    ensures
        r@.len() == entry_candidates_spec().len(),
        forall|i: int| 0 <= i < r@.len() ==> #[trigger] r@[i]@ == entry_candidates_spec()[i],
{
    let mut v: Vec<String> = Vec::new();
    v.push(String::from_str("src/lib.rs"));
    v.push(String::from_str("src/main.rs"));
    v
}

/// The first probed candidate that exists, if any.
pub fn select_entry(present: &Vec<bool>) -> (r: Option<usize>)
    ensures
        r matches Some(i) ==> i < present@.len() && present@[i as int] && forall|j: int|
            0 <= j < i ==> !present@[j],
        r is None ==> forall|j: int| 0 <= j < present@.len() ==> !present@[j],
{
    let mut i: usize = 0;
    while i < present.len()
        invariant
            i <= present@.len(),
            forall|j: int| 0 <= j < i ==> !present@[j],
        decreases present.len() - i,
    {
        if present[i] {
            return Some(i);
        }
        i = i + 1;
    }
    None
}

/// What the syntax adapter made of the entry file.
pub enum ParseOutcome {
    /// A tree of top-level items, and the number of errors diagnosed while
    /// parsing it.
    Parsed { items: Vec<Node>, diagnostics: usize },
    /// The parser gave up.
    Failed,
}

/// What is known of one package root before its documentation is made.
pub struct PackageSource {
    /// The package root, as given; it names the package in reports.
    pub root: String,
    /// `package.name` of the manifest, if it is there and a string.
    pub name: Option<String>,
    /// `package.version` of the manifest, if it is there and a string.
    pub version: Option<String>,
    /// The parse of the entry file; `None` where no entry file exists.
    pub entry: Option<ParseOutcome>,
}

/// What generating documentation for `src` gives: the identity and its
/// records, or the error.
pub open spec fn outcome(src: PackageSource) -> Result<((Seq<char>, Seq<char>), Seq<DocView>), ErrorKind> {
    match (src.name, src.version) {
        (Some(n), Some(v)) => match src.entry {
            None => Err(ErrorKind::EntryPointError),
            Some(ParseOutcome::Failed) => Err(ErrorKind::ParseError),
            Some(ParseOutcome::Parsed { items, diagnostics }) => {
                if diagnostics > 0 {
                    Err(ErrorKind::ParseError)
                } else {
                    Ok(((n@, v@), extraction(items)))
                }
            },
        },
        _ => Err(ErrorKind::ConfigError),
    }
}

/// The catalog contents after generating for `src`: on success the package's
/// records replace whatever was held for it; on failure nothing changes.
pub open spec fn apply_outcome(
    m: Map<(Seq<char>, Seq<char>), Seq<DocView>>,
    src: PackageSource,
) -> Map<(Seq<char>, Seq<char>), Seq<DocView>> {
    match outcome(src) {
        Ok((id, docs)) => m.insert(id, docs),
        Err(_) => m,
    }
}

/// Makes the documentation of one package and stores it in the catalog,
/// replacing what was held for the same identity. A missing or incomplete
/// manifest, a missing entry file, or a failed parse stores nothing.
pub fn generate(cat: &mut Catalog, src: PackageSource) -> (r: Result<PackageIdentity, ErrorKind>)
    requires
        old(cat).wf(),
    ensures
        final(cat).wf(),
        final(cat).spec_contents() == apply_outcome(old(cat).spec_contents(), src),
        match outcome(src) {
            Ok((id, _)) => r matches Ok(got) && got@ == id,
            Err(e) => r == Err::<PackageIdentity, ErrorKind>(e),
        },
{
    let ghost s = src;
    match (src.name, src.version) {
        (Some(n), Some(v)) => match src.entry {
            None => Err(ErrorKind::EntryPointError),
            Some(ParseOutcome::Failed) => Err(ErrorKind::ParseError),
            Some(ParseOutcome::Parsed { items, diagnostics }) => {
                if diagnostics > 0 {
                    Err(ErrorKind::ParseError)
                } else {
                    let docs = extract(&items);
                    let id = PackageIdentity::new(n, v);
                    let back = id.duplicate();
                    cat.put(id, docs);
                    Ok(back)
                }
            },
        },
        _ => Err(ErrorKind::ConfigError),
    }
}

/// A package whose documentation could not be made.
pub struct Failure {
    pub root: String,
    pub kind: ErrorKind,
}

/// The result of generating for several packages.
pub struct BatchReport {
    /// The identities whose documentation was stored, in order.
    pub generated: Vec<PackageIdentity>,
    /// The packages that failed, in order, with the reason.
    pub failures: Vec<Failure>,
    /// Overall success: true unless every attempted package failed.
    pub ok: bool,
}

pub open spec fn apply_all(
    m: Map<(Seq<char>, Seq<char>), Seq<DocView>>,
    s: Seq<PackageSource>,
) -> Map<(Seq<char>, Seq<char>), Seq<DocView>>
    decreases s.len(),
{
    if s.len() == 0 {
        m
    } else {
        apply_outcome(apply_all(m, s.drop_last()), s.last())
    }
}

pub open spec fn failures_spec(s: Seq<PackageSource>) -> Seq<(Seq<char>, ErrorKind)>
    decreases s.len(),
{
    if s.len() == 0 {
        seq![]
    } else {
        let prev = failures_spec(s.drop_last());
        match outcome(s.last()) {
            Ok(_) => prev,
            Err(e) => prev.push((s.last().root@, e)),
        }
    }
}

pub open spec fn generated_spec(s: Seq<PackageSource>) -> Seq<(Seq<char>, Seq<char>)>
    decreases s.len(),
{
    if s.len() == 0 {
        seq![]
    } else {
        let prev = generated_spec(s.drop_last());
        match outcome(s.last()) {
            Ok((id, _)) => prev.push(id),
            Err(_) => prev,
        }
    }
}

/// The overall verdict of a batch: it fails only when there was at least one
/// package and every one of them failed.
pub open spec fn batch_ok(s: Seq<PackageSource>) -> bool {
    s.len() == 0 || generated_spec(s).len() > 0
}

/// Generates for each package in turn. One package's failure is recorded and
/// the next package is tried.
pub fn generate_all(cat: &mut Catalog, sources: Vec<PackageSource>) -> (r: BatchReport)
    requires
        old(cat).wf(),
    ensures
        final(cat).wf(),
        final(cat).spec_contents() == apply_all(old(cat).spec_contents(), sources@),
        r.generated@.map_values(|id: PackageIdentity| id@) == generated_spec(sources@),
        r.failures@.map_values(|f: Failure| (f.root@, f.kind)) == failures_spec(sources@),
        r.ok == batch_ok(sources@),
{
    let ghost total = sources@;
    let ghost m0 = cat.spec_contents();
    let n = sources.len();
    let mut rest = sources;
    let mut items: Vec<PackageSource> = Vec::new();
    while rest.len() > 0
        invariant
            rest@.len() + items@.len() == n,
            total.len() == n,
            forall|k: int| 0 <= k < rest@.len() ==> rest@[k] == total[k],
            forall|k: int| 0 <= k < items@.len() ==> items@[k] == total[n - 1 - k],
        decreases rest.len(),
    {
        let s = rest.pop().unwrap();
        items.push(s);
    }
    let mut generated: Vec<PackageIdentity> = Vec::new();
    let mut failures: Vec<Failure> = Vec::new();
    let mut i: usize = 0;
    assert(total.take(0) =~= seq![]);
    assert(generated@.map_values(|id: PackageIdentity| id@) =~= seq![]);
    assert(failures@.map_values(|f: Failure| (f.root@, f.kind)) =~= seq![]);
    while i < n
        invariant
            i <= n,
            items@.len() == n - i,
            total.len() == n,
            forall|k: int| 0 <= k < n - i ==> items@[k] == total[n - 1 - k],
            cat.wf(),
            cat.spec_contents() == apply_all(m0, total.take(i as int)),
            generated@.map_values(|id: PackageIdentity| id@) == generated_spec(total.take(i as int)),
            failures@.map_values(|f: Failure| (f.root@, f.kind)) == failures_spec(total.take(i as int)),
        decreases n - i,
    {
        let src = items.pop().unwrap();
        assert(src == total[i as int]);
        assert(total.take(i + 1).drop_last() =~= total.take(i as int));
        assert(total.take(i + 1).last() == src);
        let root = src.root.clone();
        let ghost g0 = generated@.map_values(|id: PackageIdentity| id@);
        let ghost f0 = failures@.map_values(|f: Failure| (f.root@, f.kind));
        match generate(cat, src) {
            Ok(id) => {
                generated.push(id);
                assert(generated@.map_values(|id: PackageIdentity| id@) =~= g0.push(id@));
            },
            Err(kind) => {
                let f = Failure { root, kind };
                failures.push(f);
                assert(failures@.map_values(|f: Failure| (f.root@, f.kind)) =~= f0.push(
                    (root@, kind),
                ));
            },
        }
        i = i + 1;
    }
    assert(total.take(n as int) =~= total);
    let ok = n == 0 || generated.len() > 0;
    BatchReport { generated, failures, ok }
}

} // verus!
