use symbol_resolver::dispatch::{Dispatcher, ImplRecord, ImplRegistry, MethodRef};
use symbol_resolver::resolver::ResolveError;

fn record(tr: Option<&str>, ty: &str, module: &str, methods: &[&str]) -> ImplRecord {
    ImplRecord {
        trait_name: tr.map(|s| s.to_string()),
        concrete_type: ty.to_string(),
        module: module.to_string(),
        methods: methods.iter().map(|m| m.to_string()).collect(),
    }
}

#[test]
fn duplicate_implementation_is_refused() {
    let mut reg = ImplRegistry::new();
    assert_eq!(reg.register(record(Some("SharedInterface"), "SharedStruct", "types", &["get_name"])), Ok(()));
    assert_eq!(
        reg.register(record(Some("SharedInterface"), "SharedStruct", "other", &["get_name", "extra"])),
        Err(ResolveError::DuplicateImplementation)
    );
    assert_eq!(reg.records.len(), 1);
    assert_eq!(reg.find(Some("SharedInterface"), "SharedStruct"), Ok(0));
    assert_eq!(reg.records[0].module, "types");
}

#[test]
fn inherent_and_trait_impls_are_separate() {
    let mut reg = ImplRegistry::new();
    assert_eq!(reg.register(record(None, "SharedStruct", "types", &["new", "method"])), Ok(()));
    assert_eq!(reg.register(record(Some("SharedInterface"), "SharedStruct", "types", &["get_name"])), Ok(()));
    assert_eq!(reg.register(record(None, "SharedStruct", "types", &["new"])), Err(ResolveError::DuplicateImplementation));
    assert_eq!(reg.find(None, "SharedStruct"), Ok(0));
    assert_eq!(reg.find(Some("SharedInterface"), "SharedStruct"), Ok(1));
    assert_eq!(reg.find(Some("TestInterface"), "SharedStruct"), Err(ResolveError::NotFound));
    assert_eq!(reg.find(None, "TestStruct"), Err(ResolveError::NotFound));
}

#[test]
fn same_concrete_type_dispatches_identically() {
    let mut reg = ImplRegistry::new();
    reg.register(record(Some("SharedInterface"), "SharedStruct", "types", &["get_name"])).unwrap();
    let mut d = Dispatcher::new();
    d.bind("first", "SharedStruct", "SharedInterface");
    d.bind("second", "SharedStruct", "SharedInterface");
    let a = d.dispatch(&reg, "first", "get_name");
    let b = d.dispatch(&reg, "second", "get_name");
    assert_eq!(a, Ok(MethodRef { record: 0, method: 0 }));
    assert_eq!(a, b);
}

#[test]
fn dispatch_follows_bound_type_not_order() {
    let mut reg = ImplRegistry::new();
    reg.register(record(Some("SharedInterface"), "OtherStruct", "other", &["get_name"])).unwrap();
    reg.register(record(Some("SharedInterface"), "SharedStruct", "types", &["get_name"])).unwrap();
    let mut d = Dispatcher::new();
    d.bind("iface", "SharedStruct", "SharedInterface");
    assert_eq!(d.dispatch(&reg, "iface", "get_name"), Ok(MethodRef { record: 1, method: 0 }));
    d.bind("other", "OtherStruct", "SharedInterface");
    assert_eq!(d.dispatch(&reg, "other", "get_name"), Ok(MethodRef { record: 0, method: 0 }));
    // rebinding a variable replaces its concrete type
    d.bind("iface", "OtherStruct", "SharedInterface");
    assert_eq!(d.dispatch(&reg, "iface", "get_name"), Ok(MethodRef { record: 0, method: 0 }));
}

#[test]
fn dispatch_errors() {
    let mut reg = ImplRegistry::new();
    reg.register(record(Some("SharedInterface"), "SharedStruct", "types", &["get_name"])).unwrap();
    let mut d = Dispatcher::new();
    d.bind("iface", "SharedStruct", "SharedInterface");
    d.bind("test", "TestStruct", "SharedInterface");
    assert_eq!(d.dispatch(&reg, "iface", "get_value"), Err(ResolveError::MethodNotImplemented));
    assert_eq!(d.dispatch(&reg, "test", "get_name"), Err(ResolveError::NotFound));
    assert_eq!(d.dispatch(&reg, "unbound", "get_name"), Err(ResolveError::UnresolvedReference));
}
