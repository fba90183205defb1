use oxidoc::extract::{extract, Node};
use oxidoc::generate::{
    entry_candidates, generate, generate_all, select_entry, ErrorKind, PackageSource,
    ParseOutcome,
};
use oxidoc::model::{Abi, Constness, FunctionDoc, PackageIdentity, Unsafety, Visibility};
use oxidoc::order::str_lt;
use oxidoc::paths::{cache_dir_name, cache_file_name, parse_cache_dir};
use oxidoc::query::{contains_str, render_hit, resolve, resolve_terms, Hit};
use oxidoc::store::{CacheListing, Catalog};

fn s(x: &str) -> String {
    x.to_string()
}

fn func(name: &str, body: Vec<Node>) -> Node {
    Node::Function {
        name: s(name),
        signature: format!("fn {}()", name),
        unsafety: Unsafety::Normal,
        constness: Constness::NotConst,
        visibility: Visibility::Public,
        abi: Abi::Rust,
        body,
    }
}

fn doc(path: &[&str]) -> FunctionDoc {
    FunctionDoc {
        path: path.iter().map(|p| s(p)).collect(),
        signature: format!("fn {}()", path[path.len() - 1]),
        unsafety: Unsafety::Normal,
        constness: Constness::NotConst,
        visibility: Visibility::Public,
        abi: Abi::Rust,
    }
}

fn id(name: &str, version: &str) -> PackageIdentity {
    PackageIdentity::new(s(name), s(version))
}

fn paths_of(docs: &[FunctionDoc]) -> Vec<Vec<String>> {
    docs.iter().map(|d| d.path.clone()).collect()
}

fn hit_paths(hits: &[Hit]) -> Vec<(String, Vec<String>)> {
    hits.iter().map(|h| (h.identity.name.clone(), h.doc.path.clone())).collect()
}

fn source(root: &str, name: &str, version: &str, items: Vec<Node>) -> PackageSource {
    PackageSource {
        root: s(root),
        name: Some(s(name)),
        version: Some(s(version)),
        entry: Some(ParseOutcome::Parsed { items, diagnostics: 0 }),
    }
}

fn fixture_catalog() -> Catalog {
    let mut cat = Catalog::new();
    cat.put(id("zeta", "1.0.0"), vec![doc(&["foo"]), doc(&["foobar"])]);
    cat.put(id("alpha", "0.1.0"), vec![doc(&["bar", "foo"])]);
    cat
}

#[test]
fn extract_walks_in_preorder_with_scope_paths() {
    let items = vec![
        func("top", vec![func("inner", vec![])]),
        Node::Module {
            name: s("bar"),
            items: vec![
                func("foo", vec![]),
                Node::Module { name: s("deep"), items: vec![func("leaf", vec![])] },
            ],
        },
        func("last", vec![]),
    ];
    let docs = extract(&items);
    assert_eq!(
        paths_of(&docs),
        vec![
            vec![s("top")],
            vec![s("top"), s("inner")],
            vec![s("bar"), s("foo")],
            vec![s("bar"), s("deep"), s("leaf")],
            vec![s("last")],
        ]
    );
    assert_eq!(docs[0].signature, "fn top()");
}

#[test]
fn extract_skips_methods_closures_and_macros() {
    let items = vec![
        Node::Scope { items: vec![Node::Method { name: s("method") }, func("nested", vec![])] },
        Node::Closure,
        Node::MacroCall,
        Node::Other,
        func("kept", vec![Node::Closure]),
    ];
    let docs = extract(&items);
    assert_eq!(paths_of(&docs), vec![vec![s("nested")], vec![s("kept")]]);
}

#[test]
fn extract_keeps_modifiers() {
    let items = vec![Node::Function {
        name: s("raw"),
        signature: s("pub const unsafe extern \"C\" fn raw()"),
        unsafety: Unsafety::Unsafe,
        constness: Constness::Const,
        visibility: Visibility::Private,
        abi: Abi::C,
        body: vec![],
    }];
    let docs = extract(&items);
    assert_eq!(docs.len(), 1);
    assert_eq!(docs[0].unsafety, Unsafety::Unsafe);
    assert_eq!(docs[0].constness, Constness::Const);
    assert_eq!(docs[0].visibility, Visibility::Private);
    assert_eq!(docs[0].abi, Abi::C);
    assert_eq!(docs[0].signature, "pub const unsafe extern \"C\" fn raw()");
}

#[test]
fn extract_of_empty_tree_is_empty() {
    assert!(extract(&vec![]).is_empty());
}

#[test]
fn abi_names_round_trip() {
    assert_eq!(Abi::from_name("C"), Some(Abi::C));
    assert_eq!(Abi::from_name("ptx-kernel"), Some(Abi::PtxKernel));
    assert_eq!(Abi::from_name("thiscall"), Some(Abi::Thiscall));
    assert_eq!(Abi::Msp430Interrupt.name(), "msp430-interrupt");
    assert_eq!(Abi::from_name("c"), None);
    assert_eq!(Abi::from_name("made-up"), None);
}

#[test]
fn resolve_prefers_exact_final_segment() {
    let cat = fixture_catalog();
    let hits = resolve(&cat, "foo");
    assert_eq!(
        hit_paths(&hits),
        vec![(s("alpha"), vec![s("bar"), s("foo")]), (s("zeta"), vec![s("foo")])]
    );
}

#[test]
fn resolve_falls_back_to_substring() {
    let cat = fixture_catalog();
    let hits = resolve(&cat, "fooba");
    assert_eq!(hit_paths(&hits), vec![(s("zeta"), vec![s("foobar")])]);
    let hits = resolve(&cat, "oo");
    assert_eq!(
        hit_paths(&hits),
        vec![
            (s("alpha"), vec![s("bar"), s("foo")]),
            (s("zeta"), vec![s("foo")]),
            (s("zeta"), vec![s("foobar")]),
        ]
    );
}

#[test]
fn resolve_with_no_match_is_empty() {
    let cat = fixture_catalog();
    assert!(resolve(&cat, "qux").is_empty());
    assert!(resolve(&Catalog::new(), "foo").is_empty());
}

#[test]
fn resolve_terms_joins_in_term_order() {
    let cat = fixture_catalog();
    let hits = resolve_terms(&cat, &vec![s("foobar"), s("foo")]);
    assert_eq!(
        hit_paths(&hits),
        vec![
            (s("zeta"), vec![s("foobar")]),
            (s("alpha"), vec![s("bar"), s("foo")]),
            (s("zeta"), vec![s("foo")]),
        ]
    );
}

#[test]
fn render_hit_shows_signature_and_origin() {
    let hit = Hit { identity: id("serde", "1.0.0"), doc: doc(&["de", "from_str"]) };
    assert_eq!(render_hit(&hit), "fn from_str()    // serde 1.0.0");
}

#[test]
fn contains_str_finds_substrings() {
    assert!(contains_str("foobar", "oba"));
    assert!(contains_str("foobar", ""));
    assert!(!contains_str("foo", "foobar"));
    assert!(!contains_str("foobar", "baz"));
}

#[test]
fn str_lt_is_lexicographic() {
    assert!(str_lt("abc", "abd"));
    assert!(str_lt("ab", "abc"));
    assert!(!str_lt("abc", "abc"));
    assert!(!str_lt("b", "abc"));
}

#[test]
fn cache_dir_names_escape_and_stay_distinct() {
    assert_eq!(cache_dir_name(&id("serde", "1.0.0")), "serde-1.0.0");
    assert_eq!(cache_dir_name(&id("a-b", "c")), "a%2db-c");
    assert_eq!(cache_dir_name(&id("a", "b-c")), "a-b%2dc");
    assert_eq!(cache_dir_name(&id("x/y", "..")), "x%2fy-..");
    assert_eq!(cache_dir_name(&id("p%", "ü")), "p%25-ü");
    assert_ne!(cache_dir_name(&id("a-b", "c")), cache_dir_name(&id("a", "b-c")));
    assert_eq!(cache_file_name(&id("serde", "1.0.0")), "serde-1.0.0.json");
}

#[test]
fn cache_dir_names_parse_back() {
    for (n, v) in [("a-b", "c"), ("x/y", ".."), ("p%", "ü"), ("", ""), ("serde", "1.0.0")] {
        let back = parse_cache_dir(&cache_dir_name(&id(n, v))).unwrap();
        assert_eq!(back.name, n);
        assert_eq!(back.version, v);
    }
    assert!(parse_cache_dir("nodash").is_none());
    assert!(parse_cache_dir("a-b-c").is_none());
    assert!(parse_cache_dir("a%2-b").is_none());
    assert!(parse_cache_dir("a%61-b").is_none());
    assert!(parse_cache_dir("a/b-c").is_none());
}

#[test]
fn put_replaces_whole_package() {
    let mut cat = Catalog::new();
    cat.put(id("p", "1"), vec![doc(&["a"]), doc(&["b"])]);
    cat.put(id("q", "1"), vec![doc(&["c"])]);
    cat.put(id("p", "1"), vec![doc(&["z"])]);
    assert_eq!(paths_of(cat.get(&id("p", "1")).unwrap()), vec![vec![s("z")]]);
    assert_eq!(paths_of(cat.get(&id("q", "1")).unwrap()), vec![vec![s("c")]]);
    assert!(cat.get(&id("p", "2")).is_none());
    assert_eq!(cat.len(), 2);
    assert_eq!(cat.entry(0).identity.name, "p");
}

#[test]
fn generate_then_load_round_trips() {
    let items = vec![func("one", vec![]), Node::Module { name: s("m"), items: vec![func("two", vec![])] }];
    let expected = paths_of(&extract(&items));
    let mut cat = Catalog::new();
    let got = generate(&mut cat, source("/p", "pkg", "0.2.0", items)).unwrap();
    assert_eq!(got.name, "pkg");
    let stored = cat.get(&got).unwrap();
    assert_eq!(paths_of(stored), expected);
    let copy: Vec<FunctionDoc> = stored
        .iter()
        .map(|d| FunctionDoc {
            path: d.path.clone(),
            signature: d.signature.clone(),
            unsafety: d.unsafety,
            constness: d.constness,
            visibility: d.visibility,
            abi: d.abi,
        })
        .collect();
    let (loaded, skipped) =
        Catalog::load(vec![CacheListing { dir_name: cache_dir_name(&got), docs: Some(copy) }]);
    assert!(skipped.is_empty());
    assert_eq!(paths_of(loaded.get(&id("pkg", "0.2.0")).unwrap()), expected);
}

#[test]
fn regenerate_leaves_no_residue() {
    let mut cat = Catalog::new();
    generate(&mut cat, source("/p", "pkg", "1", vec![func("old", vec![]), func("gone", vec![])])).unwrap();
    generate(&mut cat, source("/p", "pkg", "1", vec![func("new", vec![])])).unwrap();
    assert_eq!(paths_of(cat.get(&id("pkg", "1")).unwrap()), vec![vec![s("new")]]);
    assert_eq!(cat.len(), 1);
}

#[test]
fn corrupt_cache_does_not_block_others() {
    let (cat, skipped) = Catalog::load(vec![
        CacheListing { dir_name: s("a-1.0"), docs: None },
        CacheListing { dir_name: s("b-2.0"), docs: Some(vec![doc(&["f"])]) },
        CacheListing { dir_name: s("not/a-dir-name"), docs: Some(vec![doc(&["g"])]) },
    ]);
    assert_eq!(skipped, vec![s("a-1.0"), s("not/a-dir-name")]);
    assert!(cat.get(&id("a", "1.0")).is_none());
    assert_eq!(paths_of(cat.get(&id("b", "2.0")).unwrap()), vec![vec![s("f")]]);
    assert_eq!(cat.len(), 1);
}

#[test]
fn missing_entry_point_fails_and_stores_nothing() {
    let mut cat = Catalog::new();
    let src = PackageSource { root: s("/p"), name: Some(s("p")), version: Some(s("1")), entry: None };
    assert_eq!(generate(&mut cat, src).err(), Some(ErrorKind::EntryPointError));
    assert_eq!(cat.len(), 0);
}

#[test]
fn manifest_without_version_is_config_error() {
    let mut cat = Catalog::new();
    let src = PackageSource {
        root: s("/p"),
        name: Some(s("p")),
        version: None,
        entry: Some(ParseOutcome::Parsed { items: vec![], diagnostics: 0 }),
    };
    assert_eq!(generate(&mut cat, src).err(), Some(ErrorKind::ConfigError));
    assert_eq!(cat.len(), 0);
}

#[test]
fn diagnosed_parse_is_parse_error() {
    let mut cat = Catalog::new();
    let src = PackageSource {
        root: s("/p"),
        name: Some(s("p")),
        version: Some(s("1")),
        entry: Some(ParseOutcome::Parsed { items: vec![func("f", vec![])], diagnostics: 1 }),
    };
    assert_eq!(generate(&mut cat, src).err(), Some(ErrorKind::ParseError));
    assert_eq!(cat.len(), 0);
}

#[test]
fn generate_all_reports_partial_failure() {
    let mut cat = Catalog::new();
    let bad = PackageSource {
        root: s("/pkgs/b"),
        name: Some(s("b")),
        version: Some(s("1")),
        entry: Some(ParseOutcome::Failed),
    };
    let report = generate_all(&mut cat, vec![source("/pkgs/a", "a", "1", vec![func("f", vec![])]), bad]);
    assert!(report.ok);
    assert_eq!(report.generated.len(), 1);
    assert_eq!(report.generated[0].name, "a");
    assert_eq!(report.failures.len(), 1);
    assert_eq!(report.failures[0].root, "/pkgs/b");
    assert_eq!(report.failures[0].kind, ErrorKind::ParseError);
    assert!(cat.get(&id("a", "1")).is_some());
    assert!(cat.get(&id("b", "1")).is_none());
}

#[test]
fn generate_all_fails_only_when_all_fail() {
    let mut cat = Catalog::new();
    let none = PackageSource { root: s("/x"), name: None, version: None, entry: None };
    let report = generate_all(&mut cat, vec![none]);
    assert!(!report.ok);
    assert_eq!(report.failures[0].kind, ErrorKind::ConfigError);
    let report = generate_all(&mut cat, vec![]);
    assert!(report.ok);
}

#[test]
fn entry_point_probing_order() {
    assert_eq!(entry_candidates(), vec![s("src/lib.rs"), s("src/main.rs")]);
    assert_eq!(select_entry(&vec![true, true]), Some(0));
    assert_eq!(select_entry(&vec![false, true]), Some(1));
    assert_eq!(select_entry(&vec![false, false]), None);
}
