use symbol_index::collector::collect_module_symbols;
use symbol_index::query::Query;
use symbol_index::semantics::{
    AssocItem, BodyData, Container, CrateData, FileEntry, ImplData, ItemSource, MacroData,
    ModuleData, NameInfo, ScopeData, ScopeDecl, SourceInfo, SourceRootData, SymbolsDatabase,
    TraitData,
};
use symbol_index::symbols::{FileSymbolKind, SyntaxNodePtr};
use symbol_index::world::{
    crate_symbols, index_resolve, library_symbols, module_symbols, world_symbols, SymbolsError,
};

fn nptr(a: u32, b: u32) -> SyntaxNodePtr {
    SyntaxNodePtr { start: a, end: b }
}

fn named_src(name: &str, at: u32) -> SourceInfo {
    SourceInfo {
        hir_file_id: 1,
        ptr: nptr(at, at + 20),
        name: Some(NameInfo {
            text: name.to_string(),
            ptr: nptr(at + 1, at + 2),
        }),
    }
}

fn item(container: Container, name: &str, at: u32) -> ItemSource {
    ItemSource {
        container,
        src: named_src(name, at),
    }
}

fn empty_scope() -> ScopeData {
    ScopeData {
        declarations: Vec::new(),
        impls: Vec::new(),
        unnamed_consts: Vec::new(),
        macro_declarations: Vec::new(),
    }
}

/// A workspace of one crate: module 0 holds a struct, a function with a
/// body, a trait with a method, an impl with a method and a macro; the
/// function's body nests module 1 holding one struct.
fn walk_db() -> SymbolsDatabase {
    SymbolsDatabase {
        modules: vec![
            ModuleData {
                declaration: None,
                scope: ScopeData {
                    declarations: vec![
                        ScopeDecl::Struct {
                            src: named_src("Foo", 10),
                        },
                        ScopeDecl::Function {
                            item: item(Container::Module(0), "bar", 40),
                            body_id: 0,
                        },
                        ScopeDecl::Trait {
                            src: named_src("Tr", 80),
                            trait_id: 0,
                        },
                    ],
                    impls: vec![0],
                    unnamed_consts: Vec::new(),
                    macro_declarations: vec![MacroData {
                        name: Some("mk".to_string()),
                        src: Some(named_src("mk", 120)),
                    }],
                },
            },
            ModuleData {
                declaration: Some(named_src("inner", 60)),
                scope: ScopeData {
                    declarations: vec![
                        ScopeDecl::Struct {
                            src: named_src("Deep", 65),
                        },
                        ScopeDecl::Module { module_id: 2 },
                    ],
                    impls: Vec::new(),
                    unnamed_consts: Vec::new(),
                    macro_declarations: Vec::new(),
                },
            },
            ModuleData {
                declaration: Some(named_src("deeper", 70)),
                scope: empty_scope(),
            },
        ],
        bodies: vec![BodyData {
            name: Some("bar".to_string()),
            nested_modules: vec![1],
        }],
        impls: vec![ImplData {
            items: vec![AssocItem::Function(item(Container::Impl(0), "im", 90))],
        }],
        traits: vec![TraitData {
            name: Some("Tr".to_string()),
            src: named_src("Tr", 80),
            items: vec![AssocItem::Function(item(Container::Trait(0), "tm", 100))],
        }],
        crates: vec![CrateData { module_ids: vec![0] }],
        source_roots: vec![SourceRootData {
            root_id: 7,
            crates: vec![0],
            files: Vec::new(),
        }],
        local_roots: vec![7],
        library_roots: Vec::new(),
        cancelled: false,
    }
}

#[test]
fn collector_emits_each_named_declaration() {
    let db = walk_db();
    let symbols = collect_module_symbols(&db, 0).unwrap();
    let mut got: Vec<(String, FileSymbolKind, Option<String>)> = symbols
        .iter()
        .map(|s| (s.name.clone(), s.kind, s.container_name.clone()))
        .collect();
    got.sort();
    let mut expect = vec![
        ("Foo".to_string(), FileSymbolKind::Struct, None),
        ("bar".to_string(), FileSymbolKind::Function, None),
        ("Tr".to_string(), FileSymbolKind::Trait, None),
        ("mk".to_string(), FileSymbolKind::Macro, None),
        ("im".to_string(), FileSymbolKind::Function, None),
        (
            "tm".to_string(),
            FileSymbolKind::Function,
            Some("Tr".to_string()),
        ),
        (
            "deeper".to_string(),
            FileSymbolKind::Module,
            Some("bar".to_string()),
        ),
        (
            "Deep".to_string(),
            FileSymbolKind::Struct,
            Some("bar".to_string()),
        ),
    ];
    expect.sort();
    assert_eq!(got, expect);
}

#[test]
fn collector_drops_records_without_a_name() {
    let mut db = walk_db();
    db.modules[0].scope.declarations.push(ScopeDecl::Struct {
        src: SourceInfo {
            hir_file_id: 1,
            ptr: nptr(200, 220),
            name: None,
        },
    });
    let symbols = collect_module_symbols(&db, 0).unwrap();
    assert_eq!(symbols.len(), 8);
}

#[test]
fn cancellation_aborts_the_walk() {
    let mut db = walk_db();
    db.cancelled = true;
    assert!(collect_module_symbols(&db, 0).is_err());
    match module_symbols(&db, 0) {
        Err(e) => assert_eq!(e, SymbolsError::Cancelled),
        Ok(_) => panic!("expected cancellation"),
    }
    let q = Query::new("f".to_string());
    assert_eq!(
        world_symbols(&db, q).unwrap_err(),
        SymbolsError::Cancelled
    );
}

#[test]
fn world_symbols_returns_workspace_records_in_name_order() {
    let db = walk_db();
    let q = Query::new("".to_string());
    let res = world_symbols(&db, q).unwrap();
    let names: Vec<String> = res.iter().map(|s| s.name.clone()).collect();
    assert_eq!(
        names,
        vec!["bar", "Deep", "deeper", "Foo", "im", "mk", "tm", "Tr"]
    );
}

#[test]
fn crate_symbols_covers_one_crate() {
    let db = walk_db();
    let q = Query::new("deep".to_string());
    let res = crate_symbols(&db, 0, q).unwrap();
    assert_eq!(res.len(), 2);
    assert_eq!(res[0].name, "Deep");
    assert_eq!(res[0].container_name, Some("bar".to_string()));
    assert_eq!(res[1].name, "deeper");
}

#[test]
fn library_indexes_exist_but_hold_no_records() {
    let mut db = walk_db();
    db.library_roots = vec![9];
    db.source_roots.push(SourceRootData {
        root_id: 9,
        crates: Vec::new(),
        files: vec![FileEntry {
            file_id: 3,
            text: "fn main() {}".to_string(),
        }],
    });
    let libs = library_symbols(&db);
    assert_eq!(libs.len(), 1);
    assert_eq!(libs[0].0, 9);
    assert_eq!(libs[0].1.len(), 0);
    let mut q = Query::new("main".to_string());
    q.libs();
    let res = world_symbols(&db, q).unwrap();
    assert!(res.is_empty());
}

#[test]
fn index_resolve_is_exact_and_capped_at_four() {
    let mut db = walk_db();
    let mut decls: Vec<ScopeDecl> = Vec::new();
    for i in 0..5 {
        decls.push(ScopeDecl::Struct {
            src: named_src("Dup", 300 + 10 * i),
        });
    }
    db.modules.push(ModuleData {
        declaration: Some(named_src("dups", 290)),
        scope: ScopeData {
            declarations: decls,
            impls: Vec::new(),
            unnamed_consts: Vec::new(),
            macro_declarations: Vec::new(),
        },
    });
    db.crates.push(CrateData {
        module_ids: vec![3],
    });
    db.source_roots[0].crates.push(1);
    let res = index_resolve(&db, "Dup").unwrap();
    assert_eq!(res.len(), 4);
    for s in &res {
        assert_eq!(s.name, "Dup");
    }
    let none = index_resolve(&db, "dup").unwrap();
    assert!(none.is_empty());
}

#[test]
fn module_symbols_builds_a_per_granule_index() {
    let db = walk_db();
    let idx = module_symbols(&db, 0).unwrap();
    assert_eq!(idx.len(), 8);
    let idx1 = module_symbols(&db, 1).unwrap();
    assert_eq!(idx1.len(), 2);
}

#[test]
fn unnamed_consts_reach_nested_modules() {
    let mut db = walk_db();
    db.bodies.push(BodyData {
        name: None,
        nested_modules: vec![1],
    });
    db.modules[0].scope.unnamed_consts = vec![1];
    let symbols = collect_module_symbols(&db, 0).unwrap();
    let deep: Vec<_> = symbols.iter().filter(|s| s.name == "Deep").collect();
    assert_eq!(deep.len(), 2);
    let via_unnamed: Vec<_> = symbols
        .iter()
        .filter(|s| s.name == "deeper" && s.container_name.is_none())
        .collect();
    assert_eq!(via_unnamed.len(), 1);
}

#[test]
fn empty_scope_yields_no_records() {
    let db = SymbolsDatabase {
        modules: vec![ModuleData {
            declaration: None,
            scope: empty_scope(),
        }],
        bodies: Vec::new(),
        impls: Vec::new(),
        traits: Vec::new(),
        crates: vec![CrateData {
            module_ids: vec![0],
        }],
        source_roots: vec![SourceRootData {
            root_id: 1,
            crates: vec![0],
            files: Vec::new(),
        }],
        local_roots: vec![1],
        library_roots: Vec::new(),
        cancelled: false,
    };
    let symbols = collect_module_symbols(&db, 0).unwrap();
    assert!(symbols.is_empty());
    let q = Query::new("".to_string());
    let res = world_symbols(&db, q).unwrap();
    assert!(res.is_empty());
}
