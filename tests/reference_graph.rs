use symbol_resolver::dispatch::{ImplRecord, ImplRegistry, MethodRef};
use symbol_resolver::graph::{build, Target};
use symbol_resolver::resolver::{
    BindingSite, Declaration, Kind, Reference, ResolveError, SymbolTable, UseKind,
};

fn decl(name: &str, kind: Kind) -> Declaration {
    Declaration { name: name.to_string(), kind, refs: Vec::new(), bindings: Vec::new() }
}

fn symbol(name: &str, kind: Kind) -> Reference {
    Reference { name: name.to_string(), use_kind: UseKind::Symbol(kind) }
}

fn associated(ty: &str, method: &str) -> Reference {
    Reference { name: ty.to_string(), use_kind: UseKind::Associated(method.to_string()) }
}

fn method_call(var: &str, method: &str) -> Reference {
    Reference { name: var.to_string(), use_kind: UseKind::Method(method.to_string()) }
}

fn binding(var: &str, ty: &str, iface: &str) -> BindingSite {
    BindingSite { variable: var.to_string(), concrete_type: ty.to_string(), interface: iface.to_string() }
}

fn record(tr: Option<&str>, ty: &str, module: &str, methods: &[&str]) -> ImplRecord {
    ImplRecord {
        trait_name: tr.map(|s| s.to_string()),
        concrete_type: ty.to_string(),
        module: module.to_string(),
        methods: methods.iter().map(|m| m.to_string()).collect(),
    }
}

/// Declares `types` and `helper`, and `consumer` importing from both.
/// Returns the table, and the indices of SHARED_CONSTANT and of
/// consumer_function.
fn consumer_program(with_other: bool) -> (SymbolTable, ImplRegistry, usize, usize) {
    let mut t = SymbolTable::new();
    let mut reg = ImplRegistry::new();
    t.add_module("types").unwrap();
    t.add_module("helper").unwrap();
    t.add_module("consumer").unwrap();
    if with_other {
        // registered first, so declaration order would favour it
        t.add_module("other").unwrap();
        t.register("other", decl("OtherStruct", Kind::Struct)).unwrap();
        t.register("other", decl("OtherStruct", Kind::Impl)).unwrap();
        reg.register(record(Some("SharedInterface"), "OtherStruct", "other", &["get_name"])).unwrap();
    }
    t.register("types", decl("SharedStruct", Kind::Struct)).unwrap();
    t.register("types", decl("SharedInterface", Kind::Trait)).unwrap();
    t.register("types", decl("SharedStruct", Kind::Impl)).unwrap();
    t.register("types", decl("SharedStruct", Kind::Impl)).unwrap();
    t.register("types", decl("SharedType", Kind::TypeAlias)).unwrap();
    t.register("types", decl("SHARED_CONSTANT", Kind::Const)).unwrap();
    let constant = t.lookup("types", "SHARED_CONSTANT", Kind::Const).unwrap();
    t.register("helper", decl("helper_function", Kind::Function)).unwrap();
    reg.register(record(None, "SharedStruct", "types", &["new", "method"])).unwrap();
    reg.register(record(Some("SharedInterface"), "SharedStruct", "types", &["get_name"])).unwrap();
    for name in ["SharedInterface", "SharedStruct", "SharedType", "SHARED_CONSTANT"] {
        t.add_import("consumer", "types", name, name).unwrap();
    }
    t.add_import("consumer", "helper", "helper_function", "helper_function").unwrap();
    let mut f = decl("consumer_function", Kind::Function);
    f.refs.push(symbol("helper_function", Kind::Function));
    f.refs.push(associated("SharedStruct", "new"));
    f.refs.push(associated("SharedStruct", "method"));
    f.refs.push(method_call("iface", "get_name"));
    f.refs.push(symbol("SHARED_CONSTANT", Kind::Const));
    f.refs.push(symbol("SharedType", Kind::TypeAlias));
    f.bindings.push(binding("iface", "SharedStruct", "SharedInterface"));
    t.register("consumer", f).unwrap();
    let consumer = t.lookup("consumer", "consumer_function", Kind::Function).unwrap();
    (t, reg, constant, consumer)
}

#[test]
fn consumer_graph_end_to_end() {
    let (t, reg, constant, consumer) = consumer_program(false);
    let g = build(&t, &reg);
    assert_eq!(g.diagnostic_count(), 0);
    assert_eq!(g.entries.len(), 6);
    let helper = t.lookup("helper", "helper_function", Kind::Function).unwrap();
    let alias = t.lookup("types", "SharedType", Kind::TypeAlias).unwrap();
    let inherent = reg.find(None, "SharedStruct").unwrap();
    let iface = reg.find(Some("SharedInterface"), "SharedStruct").unwrap();
    assert!(g.has_edge(consumer, Target::Decl(helper)));
    assert!(g.has_edge(consumer, Target::Method(MethodRef { record: inherent, method: 0 })));
    assert!(g.has_edge(consumer, Target::Method(MethodRef { record: inherent, method: 1 })));
    assert!(g.has_edge(consumer, Target::Method(MethodRef { record: iface, method: 0 })));
    assert!(g.has_edge(consumer, Target::Decl(constant)));
    assert!(g.has_edge(consumer, Target::Decl(alias)));
    // entries come in order of occurrence
    for (i, e) in g.entries.iter().enumerate() {
        assert_eq!(e.decl, consumer);
        assert_eq!(e.pos, i);
        assert_eq!(e.module, 2);
    }
}

#[test]
fn dispatch_ignores_other_implementation() {
    let (t, reg, _, consumer) = consumer_program(true);
    let g = build(&t, &reg);
    assert_eq!(g.diagnostic_count(), 0);
    let shared = reg.find(Some("SharedInterface"), "SharedStruct").unwrap();
    let other = reg.find(Some("SharedInterface"), "OtherStruct").unwrap();
    assert_eq!(other, 0);
    assert!(g.has_edge(consumer, Target::Method(MethodRef { record: shared, method: 0 })));
    assert!(!g.has_edge(consumer, Target::Method(MethodRef { record: other, method: 0 })));
    assert_eq!(g.entries[3].outcome, Ok(Target::Method(MethodRef { record: shared, method: 0 })));
}

#[test]
fn graph_collects_every_error() {
    let mut t = SymbolTable::new();
    let mut reg = ImplRegistry::new();
    t.add_module("m").unwrap();
    t.add_module("a").unwrap();
    t.add_module("b").unwrap();
    t.add_import("a", "b", "X", "X").unwrap();
    t.add_import("b", "a", "X", "X").unwrap();
    t.register("m", decl("Lonely", Kind::Struct)).unwrap();
    t.register("m", decl("Plain", Kind::Struct)).unwrap();
    reg.register(record(None, "Plain", "m", &["new"])).unwrap();
    reg.register(record(Some("I"), "Plain", "m", &["one"])).unwrap();
    t.add_import("m", "a", "X", "Cyc").unwrap();
    let mut f = decl("f", Kind::Function);
    f.refs.push(symbol("missing", Kind::Const));
    f.refs.push(symbol("Cyc", Kind::Const));
    f.refs.push(associated("Lonely", "new"));
    f.refs.push(associated("Plain", "absent"));
    f.refs.push(method_call("v", "two"));
    f.refs.push(method_call("unbound", "one"));
    f.refs.push(associated("Plain", "new"));
    f.bindings.push(binding("v", "Plain", "I"));
    t.register("m", f).unwrap();
    let g = build(&t, &reg);
    assert_eq!(g.entries.len(), 7);
    assert_eq!(g.diagnostic_count(), 6);
    assert_eq!(g.entries[0].outcome, Err(ResolveError::UnresolvedReference));
    assert_eq!(g.entries[1].outcome, Err(ResolveError::ImportCycle));
    assert_eq!(g.entries[2].outcome, Err(ResolveError::MethodNotImplemented));
    assert_eq!(g.entries[3].outcome, Err(ResolveError::MethodNotImplemented));
    assert_eq!(g.entries[4].outcome, Err(ResolveError::MethodNotImplemented));
    assert_eq!(g.entries[5].outcome, Err(ResolveError::UnresolvedReference));
    assert_eq!(g.entries[6].outcome, Ok(Target::Method(MethodRef { record: 0, method: 0 })));
}

#[test]
fn graph_of_empty_table() {
    let t = SymbolTable::new();
    let reg = ImplRegistry::new();
    let g = build(&t, &reg);
    assert_eq!(g.entries.len(), 0);
    assert_eq!(g.diagnostic_count(), 0);
}

#[test]
fn entries_follow_module_path_then_name() {
    let mut t = SymbolTable::new();
    let reg = ImplRegistry::new();
    t.add_module("zeta").unwrap();
    t.add_module("alpha").unwrap();
    let mut z = decl("first", Kind::Function);
    z.refs.push(symbol("nothing", Kind::Const));
    t.register("zeta", z).unwrap();
    let mut b = decl("b_fn", Kind::Function);
    b.refs.push(symbol("x", Kind::Const));
    b.refs.push(symbol("y", Kind::Const));
    t.register("alpha", b).unwrap();
    let mut a = decl("a_fn", Kind::Function);
    a.refs.push(symbol("a_fn", Kind::Function));
    t.register("alpha", a).unwrap();
    let g = build(&t, &reg);
    assert_eq!(g.order, vec![2, 1, 0]);
    let locs: Vec<(usize, usize)> = g.entries.iter().map(|e| (e.decl, e.pos)).collect();
    assert_eq!(locs, vec![(2, 0), (1, 0), (1, 1), (0, 0)]);
    assert_eq!(g.entries[0].outcome, Ok(Target::Decl(2)));
    assert_eq!(g.diagnostic_count(), 3);
}
