use rustdoc_seeker::{
    fix_associated_item_kind, map_doc_item_kind, DocItem, DocItemKind, ItemPayload, LevMatcher,
    LevStartsMatcher, LinkType, RawCrate, RawItem, RegexMatcher, RustDoc, RustDocParseError,
    RustDocSeeker, StructKind, SubseqMatcher, TypeItem, UnionMatcher, VariantKind, Visibility,
    SUPPORTED_FORMAT_VERSION,
};

fn item(id: u64, name: Option<&str>, inner: ItemPayload) -> RawItem {
    RawItem {
        id,
        name: name.map(|n| n.to_string()),
        visibility: Visibility::Public,
        docs: None,
        inner,
    }
}

/// The corpus of the scenarios: `alloc::vec::Vec` with three `dedup*`
/// methods.
fn dedup_corpus() -> RawCrate {
    RawCrate {
        root: 0,
        format_version: SUPPORTED_FORMAT_VERSION,
        items: vec![
            item(0, Some("alloc"), ItemPayload::Module { items: vec![1] }),
            item(1, Some("vec"), ItemPayload::Module { items: vec![2] }),
            item(
                2,
                Some("Vec"),
                ItemPayload::Struct {
                    kind: StructKind::Plain { fields: vec![] },
                    impls: vec![3],
                },
            ),
            item(3, None, ItemPayload::Impl { items: vec![4, 5, 6] }),
            item(4, Some("dedup"), ItemPayload::Function { has_body: true }),
            item(5, Some("dedup_by"), ItemPayload::Function { has_body: true }),
            item(6, Some("dedup_by_key"), ItemPayload::Function { has_body: true }),
        ],
    }
}

fn build_seeker(c: &RawCrate) -> RustDocSeeker {
    RustDoc::from_graph(c).unwrap().build().unwrap()
}

fn urls<M: rustdoc_seeker::Matcher>(s: &RustDocSeeker, m: &M) -> Vec<String> {
    s.search(m).iter().map(|d| d.fmt_url()).collect()
}

const DEDUP_URLS: [&str; 3] = [
    "alloc/vec/struct.Vec.html#method.dedup",
    "alloc/vec/struct.Vec.html#method.dedup_by",
    "alloc/vec/struct.Vec.html#method.dedup_by_key",
];

#[test]
fn scenario_regex() {
    let s = build_seeker(&dedup_corpus());
    let m = RegexMatcher::new(".*dedup.*").unwrap();
    assert_eq!(urls(&s, &m), DEDUP_URLS.to_vec());
}

#[test]
fn scenario_fuzzy() {
    let s = build_seeker(&dedup_corpus());
    let m = LevMatcher::new("dedXp", 1).unwrap();
    assert_eq!(urls(&s, &m), vec!["alloc/vec/struct.Vec.html#method.dedup"]);
}

#[test]
fn scenario_subsequence() {
    let s = build_seeker(&dedup_corpus());
    let m = SubseqMatcher::new("dedup".to_string());
    assert_eq!(urls(&s, &m), DEDUP_URLS.to_vec());
}

#[test]
fn scenario_union_idempotent() {
    let s = build_seeker(&dedup_corpus());
    let subseq = SubseqMatcher::new("dedup".to_string());
    let regex = RegexMatcher::new(".*dedup.*").unwrap();
    let union = UnionMatcher::new(subseq, regex);
    assert_eq!(urls(&s, &union), DEDUP_URLS.to_vec());
}

#[test]
fn scenario_union_combines_disjoint() {
    let s = build_seeker(&dedup_corpus());
    let exact_vec = RegexMatcher::new("Vec").unwrap();
    let exact_dedup = RegexMatcher::new("dedup").unwrap();
    let union = UnionMatcher::new(exact_vec, exact_dedup);
    let got = urls(&s, &union);
    assert!(got.contains(&"alloc/vec/struct.Vec.html".to_string()));
    assert!(got.contains(&"alloc/vec/struct.Vec.html#method.dedup".to_string()));
}

#[test]
fn scenario_prefix_fuzzy() {
    let s = build_seeker(&dedup_corpus());
    let m = LevStartsMatcher::new("dedXp", 1).unwrap();
    // Every name starting with something one edit away from the query.
    assert_eq!(urls(&s, &m), DEDUP_URLS.to_vec());
    let none = LevStartsMatcher::new("zzzz", 1).unwrap();
    assert_eq!(urls(&s, &none), Vec::<String>::new());
}

#[test]
fn subsequence_rejects_non_subsequence() {
    let s = build_seeker(&dedup_corpus());
    let m = SubseqMatcher::new("dedupz".to_string());
    assert_eq!(urls(&s, &m), Vec::<String>::new());
}

#[test]
fn fuzzy_distance_is_respected() {
    let s = build_seeker(&dedup_corpus());
    // "dedup_by" is three edits from "dedup", so distance one only finds
    // the exact-ish match.
    let m = LevMatcher::new("dedup", 1).unwrap();
    assert_eq!(urls(&s, &m), vec!["alloc/vec/struct.Vec.html#method.dedup"]);
}

#[test]
fn determinism_same_graph_same_catalogue() {
    let a = RustDoc::from_graph(&dedup_corpus()).unwrap();
    let b = RustDoc::from_graph(&dedup_corpus()).unwrap();
    assert_eq!(a.len(), b.len());
    for i in 0..a.len() {
        assert_eq!(a.get(i).fmt_url(), b.get(i).fmt_url());
        assert_eq!(a.get(i).fmt_naive(), b.get(i).fmt_naive());
        assert_eq!(a.get(i).name(), b.get(i).name());
        assert_eq!(a.get(i).kind(), b.get(i).kind());
    }
}

#[test]
fn catalogue_is_sorted_and_complete() {
    let rd = RustDoc::from_graph(&dedup_corpus()).unwrap();
    let names: Vec<String> = (0..rd.len()).map(|i| rd.get(i).name().to_string()).collect();
    assert_eq!(
        names,
        vec!["Vec", "alloc", "dedup", "dedup_by", "dedup_by_key", "vec"]
    );
    let urls: Vec<String> = (0..rd.len()).map(|i| rd.get(i).fmt_url()).collect();
    assert_eq!(
        urls,
        vec![
            "alloc/vec/struct.Vec.html",
            "/alloc/index.html",
            "alloc/vec/struct.Vec.html#method.dedup",
            "alloc/vec/struct.Vec.html#method.dedup_by",
            "alloc/vec/struct.Vec.html#method.dedup_by_key",
            "alloc/vec/index.html",
        ]
    );
}

#[test]
fn naive_rendering() {
    let rd = RustDoc::from_graph(&dedup_corpus()).unwrap();
    let naive: Vec<String> = (0..rd.len()).map(|i| rd.get(i).fmt_naive()).collect();
    assert!(naive.contains(&"alloc::vec::Vec::method.dedup".to_string()));
    assert!(naive.contains(&"alloc::vec::struct.Vec".to_string()));
}

#[test]
fn unsupported_version_is_rejected() {
    let mut c = dedup_corpus();
    c.format_version = SUPPORTED_FORMAT_VERSION + 1;
    match RustDoc::from_graph(&c) {
        Err(RustDocParseError::UnsupportedFormatVersion(v)) => {
            assert_eq!(v, SUPPORTED_FORMAT_VERSION + 1)
        }
        _ => panic!("a wrong format version must be rejected"),
    }
}

#[test]
fn empty_graph_builds_empty_index() {
    let c = RawCrate { root: 0, format_version: SUPPORTED_FORMAT_VERSION, items: vec![] };
    let s = build_seeker(&c);
    assert_eq!(s.len(), 0);
    let m = SubseqMatcher::new(String::new());
    assert_eq!(urls(&s, &m), Vec::<String>::new());
}

#[test]
fn restricted_visibility_prunes_everything() {
    let mut c = dedup_corpus();
    // Make the `Vec` struct restricted: neither it nor anything anchored
    // on it may appear.
    c.items[2].visibility = Visibility::Restricted;
    let rd = RustDoc::from_graph(&c).unwrap();
    let names: Vec<String> = (0..rd.len()).map(|i| rd.get(i).name().to_string()).collect();
    assert_eq!(names, vec!["alloc", "vec"]);
}

#[test]
fn reexport_fanout_two_chains_two_entries() {
    // `f` lives in module `a`, which is re-exported twice: directly under
    // the alias `g`, and through a chain of two imports under `h`; each
    // distinct chain contributes one more entry, differing only in path.
    let c = RawCrate {
        root: 0,
        format_version: SUPPORTED_FORMAT_VERSION,
        items: vec![
            item(0, Some("mycrate"), ItemPayload::Module { items: vec![1, 2, 3] }),
            item(1, Some("a"), ItemPayload::Module { items: vec![5] }),
            item(2, Some("b"), ItemPayload::Module { items: vec![6] }),
            item(3, Some("c"), ItemPayload::Module { items: vec![7] }),
            item(5, Some("f"), ItemPayload::Function { has_body: true }),
            item(
                6,
                None,
                ItemPayload::Import { name: "g".to_string(), id: Some(1), glob: false },
            ),
            item(
                7,
                None,
                ItemPayload::Import { name: "h".to_string(), id: Some(6), glob: false },
            ),
        ],
    };
    let rd = RustDoc::from_graph(&c).unwrap();
    let f_urls: Vec<String> = (0..rd.len())
        .filter(|&i| rd.get(i).name() == "f")
        .map(|i| rd.get(i).fmt_url())
        .collect();
    assert_eq!(
        f_urls,
        vec![
            "mycrate/a/fn.f.html",
            "mycrate/b/g/fn.f.html",
            "mycrate/c/h/fn.f.html",
        ]
    );
    for i in 0..rd.len() {
        if rd.get(i).name() == "f" {
            assert_eq!(rd.get(i).kind(), DocItemKind::Function);
        }
    }
}

#[test]
fn glob_import_adds_no_segment_named_import_uses_alias() {
    // `inner::f`, with `inner` glob-imported at the root and `f` also
    // re-exported under the alias `g`.
    let c = RawCrate {
        root: 0,
        format_version: SUPPORTED_FORMAT_VERSION,
        items: vec![
            item(0, Some("mycrate"), ItemPayload::Module { items: vec![1, 2, 4] }),
            item(1, Some("inner"), ItemPayload::Module { items: vec![3] }),
            item(
                2,
                None,
                ItemPayload::Import { name: "inner".to_string(), id: Some(1), glob: true },
            ),
            item(3, Some("f"), ItemPayload::Function { has_body: true }),
            item(
                4,
                None,
                ItemPayload::Import { name: "g".to_string(), id: Some(1), glob: false },
            ),
        ],
    };
    let rd = RustDoc::from_graph(&c).unwrap();
    let f_urls: Vec<String> = (0..rd.len())
        .filter(|&i| rd.get(i).name() == "f")
        .map(|i| rd.get(i).fmt_url())
        .collect();
    // The glob import contributes the bare re-export site with no segment
    // of its own; the named import contributes its alias, not the
    // module's name.
    assert_eq!(
        f_urls,
        vec!["mycrate/fn.f.html", "mycrate/g/fn.f.html", "mycrate/inner/fn.f.html"]
    );
}

#[test]
fn import_cycle_fails_closed() {
    let c = RawCrate {
        root: 0,
        format_version: SUPPORTED_FORMAT_VERSION,
        items: vec![
            item(0, Some("mycrate"), ItemPayload::Module { items: vec![1, 2] }),
            item(
                1,
                None,
                ItemPayload::Import { name: "x".to_string(), id: Some(2), glob: false },
            ),
            item(
                2,
                None,
                ItemPayload::Import { name: "y".to_string(), id: Some(1), glob: false },
            ),
        ],
    };
    let rd = RustDoc::from_graph(&c).unwrap();
    let names: Vec<String> = (0..rd.len()).map(|i| rd.get(i).name().to_string()).collect();
    assert_eq!(names, vec!["mycrate"]);
}

#[test]
fn sub_associated_item_anchor() {
    // A struct-style enum variant's field is anchored two levels deep.
    let c = RawCrate {
        root: 0,
        format_version: SUPPORTED_FORMAT_VERSION,
        items: vec![
            item(0, Some("style"), ItemPayload::Module { items: vec![1] }),
            item(1, Some("Color"), ItemPayload::Enum { variants: vec![2], impls: vec![] }),
            item(
                2,
                Some("Rgb"),
                ItemPayload::Variant { kind: VariantKind::Struct { fields: vec![3] } },
            ),
            item(3, Some("r"), ItemPayload::StructField),
        ],
    };
    let rd = RustDoc::from_graph(&c).unwrap();
    let r_urls: Vec<String> = (0..rd.len())
        .filter(|&i| rd.get(i).name() == "r")
        .map(|i| rd.get(i).fmt_url())
        .collect();
    assert_eq!(r_urls, vec!["style/enum.Color.html#variant.Rgb.structfield.r"]);
}

#[test]
fn tuple_fields_have_no_anchor() {
    let c = RawCrate {
        root: 0,
        format_version: SUPPORTED_FORMAT_VERSION,
        items: vec![
            item(0, Some("m"), ItemPayload::Module { items: vec![1] }),
            item(
                1,
                Some("P"),
                ItemPayload::Struct {
                    kind: StructKind::Tuple { fields: vec![Some(2)] },
                    impls: vec![],
                },
            ),
            item(2, Some("0"), ItemPayload::StructField),
        ],
    };
    let rd = RustDoc::from_graph(&c).unwrap();
    let names: Vec<String> = (0..rd.len()).map(|i| rd.get(i).name().to_string()).collect();
    assert_eq!(names, vec!["P", "m"]);
}

#[test]
fn prelude_module_children_are_skipped() {
    let c = RawCrate {
        root: 0,
        format_version: SUPPORTED_FORMAT_VERSION,
        items: vec![
            item(0, Some("mycrate"), ItemPayload::Module { items: vec![1] }),
            item(1, Some("prelude"), ItemPayload::Module { items: vec![2] }),
            item(2, Some("f"), ItemPayload::Function { has_body: true }),
        ],
    };
    let rd = RustDoc::from_graph(&c).unwrap();
    let names: Vec<String> = (0..rd.len()).map(|i| rd.get(i).name().to_string()).collect();
    // `f` has no parent link, so it contributes nothing.
    assert_eq!(names, vec!["mycrate", "prelude"]);
}

#[test]
fn trait_members_split_into_method_kinds() {
    let c = RawCrate {
        root: 0,
        format_version: SUPPORTED_FORMAT_VERSION,
        items: vec![
            item(0, Some("m"), ItemPayload::Module { items: vec![1] }),
            item(1, Some("T"), ItemPayload::Trait { items: vec![2, 3] }),
            item(2, Some("required"), ItemPayload::Function { has_body: false }),
            item(3, Some("provided"), ItemPayload::Function { has_body: true }),
        ],
    };
    let rd = RustDoc::from_graph(&c).unwrap();
    for i in 0..rd.len() {
        match rd.get(i).name() {
            "required" => assert_eq!(rd.get(i).kind(), DocItemKind::TyMethod),
            "provided" => assert_eq!(rd.get(i).kind(), DocItemKind::Method),
            _ => {}
        }
    }
    let urls: Vec<String> = (0..rd.len()).map(|i| rd.get(i).fmt_url()).collect();
    assert!(urls.contains(&"m/trait.T.html#tymethod.required".to_string()));
    assert!(urls.contains(&"m/trait.T.html#method.provided".to_string()));
}

#[test]
fn type_item_rendering() {
    let t = TypeItem { kind: DocItemKind::Module, name: "vec".to_string() };
    assert_eq!(t.render(), "module.vec");
    let t = TypeItem { kind: DocItemKind::Macro, name: "vec".to_string() };
    assert_eq!(t.render(), "macro.vec");
    let t = TypeItem { kind: DocItemKind::Function, name: "vec".to_string() };
    assert_eq!(t.render(), "fn.vec");
    let t = TypeItem { kind: DocItemKind::Typedef, name: "vec".to_string() };
    assert_eq!(t.render(), "type.vec");
}

#[test]
fn is_associated_item_kinds() {
    assert!(DocItemKind::Method.is_associated_item());
    assert!(DocItemKind::TyMethod.is_associated_item());
    assert!(DocItemKind::AssociatedConst.is_associated_item());
    assert!(DocItemKind::AssociatedType.is_associated_item());
    assert!(!DocItemKind::Function.is_associated_item());
    assert!(!DocItemKind::Module.is_associated_item());
}

#[test]
fn entry_set_deduplicates() {
    let e = || DocItem {
        name: TypeItem { kind: DocItemKind::Function, name: "f".to_string() },
        link_type: LinkType::Page,
        path: "m".to_string(),
        desc: String::new(),
    };
    let rd = RustDoc::new(vec![e(), e(), e()]);
    assert_eq!(rd.len(), 1);
    let mut rd = rd;
    rd.insert(e());
    assert_eq!(rd.len(), 1);
    rd.insert(DocItem {
        name: TypeItem { kind: DocItemKind::Function, name: "f".to_string() },
        link_type: LinkType::Page,
        path: "other".to_string(),
        desc: String::new(),
    });
    assert_eq!(rd.len(), 2);
    // Sorted by path once the names tie.
    assert_eq!(rd.get(0).fmt_url(), "m/fn.f.html");
    assert_eq!(rd.get(1).fmt_url(), "other/fn.f.html");
}

#[test]
fn descriptions_carry_over() {
    let mut c = dedup_corpus();
    c.items[4].docs = Some("Removes consecutive repeated elements.".to_string());
    let rd = RustDoc::from_graph(&c).unwrap();
    let mut seen = false;
    for i in 0..rd.len() {
        if rd.get(i).name() == "dedup" {
            assert_eq!(rd.get(i).desc(), "Removes consecutive repeated elements.");
            seen = true;
        }
    }
    assert!(seen);
}

#[test]
fn search_respects_sorted_order() {
    let s = build_seeker(&dedup_corpus());
    let m = SubseqMatcher::new("e".to_string());
    let got = urls(&s, &m);
    // Every name containing the byte "e" comes back, in catalogue order.
    assert_eq!(
        got,
        vec![
            "alloc/vec/struct.Vec.html",
            "alloc/vec/struct.Vec.html#method.dedup",
            "alloc/vec/struct.Vec.html#method.dedup_by",
            "alloc/vec/struct.Vec.html#method.dedup_by_key",
            "alloc/vec/index.html",
        ]
    );
}

#[test]
fn map_doc_item_kind_maps_payloads() {
    assert_eq!(
        map_doc_item_kind(&item(0, Some("m"), ItemPayload::Module { items: vec![] })),
        DocItemKind::Module
    );
    assert_eq!(
        map_doc_item_kind(&item(0, Some("f"), ItemPayload::Function { has_body: true })),
        DocItemKind::Function
    );
    assert_eq!(
        map_doc_item_kind(&item(0, Some("t"), ItemPayload::TypeAlias)),
        DocItemKind::Typedef
    );
    assert_eq!(
        map_doc_item_kind(&item(
            0,
            Some("d"),
            ItemPayload::ProcMacro { kind: rustdoc_seeker::MacroKind::Derive }
        )),
        DocItemKind::DeriveMacro
    );
}

#[test]
fn fix_associated_item_kind_splits_functions() {
    let mut k = DocItemKind::Function;
    fix_associated_item_kind(&mut k, &item(0, Some("f"), ItemPayload::Function { has_body: true }));
    assert_eq!(k, DocItemKind::Method);
    let mut k = DocItemKind::Function;
    fix_associated_item_kind(
        &mut k,
        &item(0, Some("f"), ItemPayload::Function { has_body: false }),
    );
    assert_eq!(k, DocItemKind::TyMethod);
    let mut k = DocItemKind::Struct;
    fix_associated_item_kind(&mut k, &item(0, Some("s"), ItemPayload::Function { has_body: true }));
    assert_eq!(k, DocItemKind::Struct);
}

#[test]
fn equal_keys_are_contiguous() {
    // Three entries share the name `f`; in the sorted catalogue they form
    // one maximal run, and a search for that key returns exactly the run.
    let c = RawCrate {
        root: 0,
        format_version: SUPPORTED_FORMAT_VERSION,
        items: vec![
            item(0, Some("mycrate"), ItemPayload::Module { items: vec![1, 2, 3] }),
            item(1, Some("a"), ItemPayload::Module { items: vec![5] }),
            item(2, Some("b"), ItemPayload::Module { items: vec![6] }),
            item(3, Some("c"), ItemPayload::Module { items: vec![7] }),
            item(5, Some("f"), ItemPayload::Function { has_body: true }),
            item(
                6,
                None,
                ItemPayload::Import { name: "g".to_string(), id: Some(1), glob: false },
            ),
            item(
                7,
                None,
                ItemPayload::Import { name: "h".to_string(), id: Some(6), glob: false },
            ),
        ],
    };
    let rd = RustDoc::from_graph(&c).unwrap();
    let positions: Vec<usize> = (0..rd.len()).filter(|&i| rd.get(i).name() == "f").collect();
    assert_eq!(positions.len(), 3);
    for w in positions.windows(2) {
        assert_eq!(w[1], w[0] + 1);
    }
    let s = rd.build().unwrap();
    let m = SubseqMatcher::new("f".to_string());
    let got = urls(&s, &m);
    assert_eq!(
        got,
        vec!["mycrate/a/fn.f.html", "mycrate/b/g/fn.f.html", "mycrate/c/h/fn.f.html"]
    );
}

#[test]
fn merging_corpora_unions_entry_sets() {
    let core_ish = RawCrate {
        root: 0,
        format_version: SUPPORTED_FORMAT_VERSION,
        items: vec![
            item(0, Some("core"), ItemPayload::Module { items: vec![1] }),
            item(1, Some("iter"), ItemPayload::Module { items: vec![] }),
        ],
    };
    let mut all = RustDoc::from_graph(&core_ish).unwrap();
    let alloc_ish = RustDoc::from_graph(&dedup_corpus()).unwrap();
    all.merge(&alloc_ish);
    let names: Vec<String> = (0..all.len()).map(|i| all.get(i).name().to_string()).collect();
    assert_eq!(
        names,
        vec![
            "Vec", "alloc", "core", "dedup", "dedup_by", "dedup_by_key", "iter", "vec",
        ]
    );
    // Merging again changes nothing: the union is a set union.
    let before = all.len();
    let again = RustDoc::from_graph(&dedup_corpus()).unwrap();
    all.merge(&again);
    assert_eq!(all.len(), before);
    let s = all.build().unwrap();
    let m = SubseqMatcher::new("dedup".to_string());
    let got = urls(&s, &m);
    assert_eq!(got.len(), 3);
}
