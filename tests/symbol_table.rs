use symbol_resolver::resolver::{Declaration, Kind, ResolveError, SymbolTable, MAX_IMPORT_DEPTH};

fn decl(name: &str, kind: Kind) -> Declaration {
    Declaration { name: name.to_string(), kind, refs: Vec::new(), bindings: Vec::new() }
}

#[test]
fn add_module_rejects_duplicate_path() {
    let mut t = SymbolTable::new();
    assert_eq!(t.add_module("types"), Ok(0));
    assert_eq!(t.add_module("consumer"), Ok(1));
    assert_eq!(t.add_module("types"), Err(ResolveError::DuplicateModule));
    assert_eq!(t.modules.len(), 2);
}

#[test]
fn register_rejects_same_name_and_kind() {
    let mut t = SymbolTable::new();
    t.add_module("types").unwrap();
    assert_eq!(t.register("types", decl("X", Kind::Const)), Ok(()));
    assert_eq!(t.register("types", decl("X", Kind::Const)), Err(ResolveError::DuplicateDeclaration));
    // another kind of the same name is a separate namespace
    assert_eq!(t.register("types", decl("X", Kind::Struct)), Ok(()));
    // implementation blocks are anonymous
    assert_eq!(t.register("types", decl("X", Kind::Impl)), Ok(()));
    assert_eq!(t.register("types", decl("X", Kind::Impl)), Ok(()));
    assert_eq!(t.register("nowhere", decl("Y", Kind::Const)), Err(ResolveError::NotFound));
    assert_eq!(t.decls.len(), 4);
}

#[test]
fn add_import_rejects_conflicting_alias() {
    let mut t = SymbolTable::new();
    t.add_module("a").unwrap();
    t.add_module("b").unwrap();
    t.register("a", decl("Local", Kind::Function)).unwrap();
    assert_eq!(t.add_import("a", "b", "Thing", "Local"), Err(ResolveError::ConflictingAlias));
    assert_eq!(t.add_import("a", "b", "Thing", "Other"), Ok(()));
    assert_eq!(t.add_import("a", "b", "Stuff", "Other"), Err(ResolveError::ConflictingAlias));
    assert_eq!(t.add_import("missing", "b", "Thing", "T"), Err(ResolveError::NotFound));
}

#[test]
fn lookup_and_resolve_alias() {
    let mut t = SymbolTable::new();
    t.add_module("a").unwrap();
    t.add_module("b").unwrap();
    t.register("b", decl("X", Kind::Const)).unwrap();
    t.add_import("a", "b", "X", "Y").unwrap();
    assert_eq!(t.lookup("b", "X", Kind::Const), Ok(0));
    assert_eq!(t.lookup("b", "X", Kind::Static), Err(ResolveError::NotFound));
    assert_eq!(t.lookup("a", "Y", Kind::Const), Err(ResolveError::NotFound));
    assert_eq!(t.resolve_alias("a", "Y"), Ok(("b".to_string(), "X".to_string())));
    assert_eq!(t.resolve_alias("a", "X"), Err(ResolveError::NotFound));
    assert_eq!(t.resolve_alias("c", "Y"), Err(ResolveError::NotFound));
}

#[test]
fn resolve_own_declarations() {
    let mut t = SymbolTable::new();
    t.add_module("m").unwrap();
    t.register("m", decl("A", Kind::Const)).unwrap();
    t.register("m", decl("A", Kind::Struct)).unwrap();
    t.register("m", decl("f", Kind::Function)).unwrap();
    assert_eq!(t.resolve("m", "A", Kind::Const), Ok(0));
    assert_eq!(t.resolve("m", "A", Kind::Struct), Ok(1));
    assert_eq!(t.resolve("m", "f", Kind::Function), Ok(2));
}

#[test]
fn resolve_unknown_name_is_unresolved() {
    let mut t = SymbolTable::new();
    t.add_module("m").unwrap();
    t.register("m", decl("A", Kind::Const)).unwrap();
    assert_eq!(t.resolve("m", "B", Kind::Const), Err(ResolveError::UnresolvedReference));
    assert_eq!(t.resolve("m", "A", Kind::Function), Err(ResolveError::UnresolvedReference));
    assert_eq!(t.resolve("absent", "A", Kind::Const), Err(ResolveError::UnresolvedReference));
}

#[test]
fn resolve_through_two_aliases() {
    let mut t = SymbolTable::new();
    t.add_module("a").unwrap();
    t.add_module("b").unwrap();
    t.add_module("c").unwrap();
    t.register("b", decl("Other", Kind::Const)).unwrap();
    t.register("b", decl("X", Kind::Const)).unwrap();
    t.add_import("a", "b", "X", "Y").unwrap();
    t.add_import("c", "a", "Y", "Z").unwrap();
    assert_eq!(t.resolve("c", "Z", Kind::Const), Ok(1));
    assert_eq!(t.resolve("a", "Y", Kind::Const), Ok(1));
}

#[test]
fn resolve_import_of_missing_module_is_unresolved() {
    let mut t = SymbolTable::new();
    t.add_module("a").unwrap();
    t.add_import("a", "gone", "X", "X").unwrap();
    assert_eq!(t.resolve("a", "X", Kind::Const), Err(ResolveError::UnresolvedReference));
}

#[test]
fn resolve_import_cycle() {
    let mut t = SymbolTable::new();
    t.add_module("a").unwrap();
    t.add_module("b").unwrap();
    t.add_import("a", "b", "X", "X").unwrap();
    t.add_import("b", "a", "X", "X").unwrap();
    assert_eq!(t.resolve("a", "X", Kind::Const), Err(ResolveError::ImportCycle));
}

#[test]
fn resolve_chain_at_depth_bound() {
    // a chain of exactly MAX_IMPORT_DEPTH imports resolves; one more does not
    let n = MAX_IMPORT_DEPTH + 1;
    let mut t = SymbolTable::new();
    for i in 0..=n {
        t.add_module(&format!("m{}", i)).unwrap();
    }
    t.register(&format!("m{}", n), decl("X", Kind::Static)).unwrap();
    for i in 0..n {
        t.add_import(&format!("m{}", i), &format!("m{}", i + 1), "X", "X").unwrap();
    }
    assert_eq!(t.resolve("m1", "X", Kind::Static), Ok(0));
    assert_eq!(t.resolve("m0", "X", Kind::Static), Err(ResolveError::ImportCycle));
}
