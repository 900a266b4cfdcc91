use symbol_index::index::SymbolIndex;
use symbol_index::query::Query;
use symbol_index::symbols::{DeclarationLocation, FileSymbol, FileSymbolKind, SyntaxNodePtr};

fn sym(name: &str, kind: FileSymbolKind) -> FileSymbol {
    FileSymbol {
        name: name.to_string(),
        loc: DeclarationLocation {
            hir_file_id: 1,
            ptr: SyntaxNodePtr { start: 0, end: 10 },
            name_ptr: SyntaxNodePtr { start: 0, end: 4 },
        },
        kind,
        container_name: None,
    }
}

fn names_and_kinds(results: &[FileSymbol]) -> Vec<(String, FileSymbolKind)> {
    results.iter().map(|s| (s.name.clone(), s.kind)).collect()
}

fn index_of(symbols: Vec<FileSymbol>) -> SymbolIndex {
    SymbolIndex::new(symbols)
}

#[test]
fn subsequence_case_insensitive() {
    let idx = index_of(vec![
        sym("FooBar", FileSymbolKind::Struct),
        sym("foobaz", FileSymbolKind::Function),
        sym("qux", FileSymbolKind::Function),
    ]);
    let q = Query::new("fb".to_string());
    let res = q.search(&[&idx]);
    assert_eq!(
        names_and_kinds(&res),
        vec![
            ("FooBar".to_string(), FileSymbolKind::Struct),
            ("foobaz".to_string(), FileSymbolKind::Function),
        ]
    );
}

#[test]
fn subsequence_uppercase_query() {
    let idx = index_of(vec![
        sym("FooBar", FileSymbolKind::Struct),
        sym("foobaz", FileSymbolKind::Function),
        sym("qux", FileSymbolKind::Function),
    ]);
    let q = Query::new("FB".to_string());
    let res = q.search(&[&idx]);
    assert_eq!(res.len(), 2);
    assert_eq!(res[0].name, "FooBar");
    assert_eq!(res[1].name, "foobaz");
}

#[test]
fn only_types_keeps_type_kinds() {
    let idx = index_of(vec![
        sym("FooBar", FileSymbolKind::Struct),
        sym("foobaz", FileSymbolKind::Function),
        sym("qux", FileSymbolKind::Function),
    ]);
    let mut q = Query::new("f".to_string());
    q.only_types();
    let res = q.search(&[&idx]);
    assert_eq!(
        names_and_kinds(&res),
        vec![("FooBar".to_string(), FileSymbolKind::Struct)]
    );
}

#[test]
fn exact_matches_original_case() {
    let idx = index_of(vec![
        sym("Foo", FileSymbolKind::Struct),
        sym("foo", FileSymbolKind::Function),
    ]);
    let mut q = Query::new("Foo".to_string());
    q.exact();
    let res = q.search(&[&idx]);
    assert_eq!(
        names_and_kinds(&res),
        vec![("Foo".to_string(), FileSymbolKind::Struct)]
    );
}

#[test]
fn case_sensitive_containment() {
    let idx = index_of(vec![
        sym("FooBar", FileSymbolKind::Struct),
        sym("foobar", FileSymbolKind::Function),
    ]);
    let mut q = Query::new("FB".to_string());
    q.case_sensitive();
    let res = q.search(&[&idx]);
    assert_eq!(
        names_and_kinds(&res),
        vec![("FooBar".to_string(), FileSymbolKind::Struct)]
    );
}

#[test]
fn limit_caps_results() {
    let names = [
        "aone", "atwo", "athree", "afour", "afive", "asix", "aseven", "aeight", "anine", "aten",
    ];
    let symbols: Vec<FileSymbol> =
        names.iter().map(|n| sym(n, FileSymbolKind::Function)).collect();
    let idx = index_of(symbols);
    let mut q = Query::new("a".to_string());
    q.limit(3);
    let res = q.search(&[&idx]);
    assert_eq!(res.len(), 3);
}

#[test]
fn limit_zero_returns_nothing() {
    let idx = index_of(vec![sym("alpha", FileSymbolKind::Struct)]);
    let mut q = Query::new("a".to_string());
    q.limit(0);
    let res = q.search(&[&idx]);
    assert!(res.is_empty());
}

#[test]
fn union_across_indexes() {
    let a = index_of(vec![sym("Alpha", FileSymbolKind::Struct)]);
    let b = index_of(vec![sym("alpha", FileSymbolKind::Function)]);
    let q = Query::new("a".to_string());
    let res = q.search(&[&a, &b]);
    let mut got = names_and_kinds(&res);
    got.sort_by(|x, y| x.0.cmp(&y.0));
    assert_eq!(
        got,
        vec![
            ("Alpha".to_string(), FileSymbolKind::Struct),
            ("alpha".to_string(), FileSymbolKind::Function),
        ]
    );
    assert_eq!(res.len(), 2);
}

#[test]
fn union_same_key_reports_both_indexes() {
    let a = index_of(vec![sym("same", FileSymbolKind::Struct)]);
    let b = index_of(vec![sym("same", FileSymbolKind::Function)]);
    let q = Query::new("same".to_string());
    let res = q.search(&[&a, &b]);
    assert_eq!(res.len(), 2);
}

#[test]
fn results_come_in_lowercase_name_order() {
    let idx = index_of(vec![
        sym("zeta", FileSymbolKind::Function),
        sym("Alpha", FileSymbolKind::Struct),
        sym("Mid", FileSymbolKind::Enum),
        sym("beta", FileSymbolKind::Function),
    ]);
    let q = Query::new("".to_string());
    let res = q.search(&[&idx]);
    let names: Vec<String> = res.iter().map(|s| s.name.to_ascii_lowercase()).collect();
    let mut expect = names.clone();
    expect.sort();
    assert_eq!(names, expect);
    assert_eq!(res.len(), 4);
}

#[test]
fn empty_query_matches_everything() {
    let idx = index_of(vec![
        sym("one", FileSymbolKind::Function),
        sym("two", FileSymbolKind::Struct),
    ]);
    let q = Query::new(String::new());
    let res = q.search(&[&idx]);
    assert_eq!(res.len(), 2);
}

#[test]
fn no_match_returns_empty() {
    let idx = index_of(vec![sym("alpha", FileSymbolKind::Struct)]);
    let q = Query::new("xyz".to_string());
    let res = q.search(&[&idx]);
    assert!(res.is_empty());
}

#[test]
fn empty_index_returns_empty() {
    let idx = index_of(Vec::new());
    let q = Query::new("a".to_string());
    let res = q.search(&[&idx]);
    assert!(res.is_empty());
    assert_eq!(idx.len(), 0);
}

#[test]
fn equal_lowercase_names_form_one_batch() {
    let idx = index_of(vec![
        sym("Value", FileSymbolKind::Struct),
        sym("value", FileSymbolKind::Function),
        sym("VALUE", FileSymbolKind::Const),
    ]);
    let mut q = Query::new("value".to_string());
    q.exact();
    let res = q.search(&[&idx]);
    assert_eq!(
        names_and_kinds(&res),
        vec![("value".to_string(), FileSymbolKind::Function)]
    );
    assert_eq!(idx.len(), 3);
}

#[test]
fn clone_preserves_record_fields() {
    let s = sym("alpha", FileSymbolKind::Struct);
    let c = s.clone();
    assert_eq!(s, c);
}

#[test]
fn index_equality_depends_on_records_only() {
    let a = index_of(vec![
        sym("beta", FileSymbolKind::Function),
        sym("Alpha", FileSymbolKind::Struct),
    ]);
    let b = index_of(vec![
        sym("Alpha", FileSymbolKind::Struct),
        sym("beta", FileSymbolKind::Function),
    ]);
    assert!(a == b);
    let c = index_of(vec![sym("Alpha", FileSymbolKind::Struct)]);
    assert!(a != c);
}

#[test]
fn database_wf_check_accepts_and_rejects() {
    let db = symbol_index::semantics::SymbolsDatabase {
        modules: Vec::new(),
        bodies: Vec::new(),
        impls: Vec::new(),
        traits: Vec::new(),
        crates: vec![symbol_index::semantics::CrateData {
            module_ids: vec![0],
        }],
        source_roots: Vec::new(),
        local_roots: Vec::new(),
        library_roots: Vec::new(),
        cancelled: false,
    };
    assert!(!db.check_wf());
    let mut ok = db;
    ok.crates.clear();
    assert!(ok.check_wf());
}

#[test]
fn same_key_results_come_in_index_order() {
    let a = index_of(vec![
        sym("aaa", FileSymbolKind::Const),
        sym("same", FileSymbolKind::Struct),
    ]);
    let b = index_of(vec![sym("same", FileSymbolKind::Function)]);
    let q = Query::new("same".to_string());
    let res = q.search(&[&a, &b]);
    assert_eq!(
        names_and_kinds(&res),
        vec![
            ("same".to_string(), FileSymbolKind::Struct),
            ("same".to_string(), FileSymbolKind::Function),
        ]
    );
}

#[test]
fn node_bytes_slices_the_stored_range() {
    let root = "mod demo { fn alpha() {} }";
    let ptr = SyntaxNodePtr { start: 11, end: 21 };
    let bytes = symbol_index::symbols::node_bytes(root, &ptr).unwrap();
    assert_eq!(bytes, b"fn alpha()".to_vec());
    let beyond = SyntaxNodePtr {
        start: 0,
        end: root.len() as u32 + 1,
    };
    assert!(symbol_index::symbols::node_bytes(root, &beyond).is_none());
    let backwards = SyntaxNodePtr { start: 5, end: 2 };
    assert!(symbol_index::symbols::node_bytes(root, &backwards).is_none());
}

#[test]
fn is_type_covers_the_type_kinds() {
    assert!(FileSymbolKind::Struct.is_type());
    assert!(FileSymbolKind::Enum.is_type());
    assert!(FileSymbolKind::Trait.is_type());
    assert!(FileSymbolKind::TypeAlias.is_type());
    assert!(FileSymbolKind::Union.is_type());
    assert!(!FileSymbolKind::Function.is_type());
    assert!(!FileSymbolKind::Const.is_type());
    assert!(!FileSymbolKind::Static.is_type());
    assert!(!FileSymbolKind::Module.is_type());
    assert!(!FileSymbolKind::Macro.is_type());
}
