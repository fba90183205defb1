use vstd::prelude::*;
use crate::generate::{
    ErrorKind, PackageSource, apply_all, apply_outcome, batch_ok, failures_spec, generated_spec,
    outcome,
};
use crate::model::DocView;
use crate::paths::cache_dir_spec;
use crate::store::{lemma_load_keeps_usable, load_spec};

verus! {

/// Generating and then loading the cache reproduces the extraction: after a
/// successful generation the catalog holds exactly the extracted records for
/// the package, and a cache stored under the package's directory name loads
/// back under its identity with the same records, in the same order.
pub proof fn lemma_generate_then_load(
    m: Map<(Seq<char>, Seq<char>), Seq<DocView>>,
    src: PackageSource,
    id: (Seq<char>, Seq<char>),
    docs: Seq<DocView>,
)
    requires
        outcome(src) == Ok::<((Seq<char>, Seq<char>), Seq<DocView>), ErrorKind>((id, docs)),
    ensures
        apply_outcome(m, src)[id] == docs,
        load_spec(seq![(cache_dir_spec(id), Some(apply_outcome(m, src)[id]))])[id] == docs,
{
    let s = seq![(cache_dir_spec(id), Some(docs))];
    lemma_load_keeps_usable(s, 0, id, docs);
}

/// Generating twice for the same package keeps only the second run's records:
/// nothing of the first run is merged in.
pub proof fn lemma_regenerate_replaces(
    m: Map<(Seq<char>, Seq<char>), Seq<DocView>>,
    first: PackageSource,
    second: PackageSource,
    id: (Seq<char>, Seq<char>),
    docs: Seq<DocView>,
)
    requires
        outcome(first) is Ok,
        outcome(first)->Ok_0.0 == id,
        outcome(second) == Ok::<((Seq<char>, Seq<char>), Seq<DocView>), ErrorKind>((id, docs)),
    ensures
        apply_outcome(apply_outcome(m, first), second) == m.insert(id, docs),
{
    assert(apply_outcome(apply_outcome(m, first), second) =~= m.insert(id, docs));
}

/// A package without an entry file fails with `EntryPointError` and leaves
/// the stored documentation as it was.
pub proof fn lemma_missing_entry_stores_nothing(
    m: Map<(Seq<char>, Seq<char>), Seq<DocView>>,
    src: PackageSource,
)
    requires
        src.name is Some,
        src.version is Some,
        src.entry is None,
    ensures
        outcome(src) == Err::<((Seq<char>, Seq<char>), Seq<DocView>), ErrorKind>(
            ErrorKind::EntryPointError,
        ),
        apply_outcome(m, src) == m,
{
}

/// With one package that generates and one whose parse fails, the batch
/// stores the first, stores nothing for the second, reports the second's
/// root with `ParseError`, and succeeds overall.
pub proof fn lemma_partial_failure(
    m: Map<(Seq<char>, Seq<char>), Seq<DocView>>,
    good: PackageSource,
    bad: PackageSource,
    id: (Seq<char>, Seq<char>),
    docs: Seq<DocView>,
)
    requires
        outcome(good) == Ok::<((Seq<char>, Seq<char>), Seq<DocView>), ErrorKind>((id, docs)),
        outcome(bad) == Err::<((Seq<char>, Seq<char>), Seq<DocView>), ErrorKind>(
            ErrorKind::ParseError,
        ),
    ensures
        apply_all(m, seq![good, bad]) == m.insert(id, docs),
        generated_spec(seq![good, bad]) == seq![id],
        failures_spec(seq![good, bad]) == seq![(bad.root@, ErrorKind::ParseError)],
        batch_ok(seq![good, bad]),
{
    let s = seq![good, bad];
    assert(s.drop_last() =~= seq![good]);
    assert(s.drop_last().drop_last() =~= Seq::<PackageSource>::empty());
    assert(s.last() == bad);
    assert(s.drop_last().last() == good);
    assert(apply_all(m, s.drop_last().drop_last()) == m);
    assert(apply_all(m, s.drop_last()) == apply_outcome(m, good));
    assert(generated_spec(s.drop_last().drop_last()) == Seq::<(Seq<char>, Seq<char>)>::empty());
    assert(generated_spec(s.drop_last()) =~= seq![id]);
    assert(failures_spec(s.drop_last().drop_last()) == Seq::<(Seq<char>, ErrorKind)>::empty());
    assert(failures_spec(s.drop_last()) =~= Seq::<(Seq<char>, ErrorKind)>::empty());
    assert(generated_spec(s) =~= seq![id]);
    assert(failures_spec(s) =~= seq![(bad.root@, ErrorKind::ParseError)]);
}

} // verus!
