use web_log_backend::registry::{Registry, RegistryError};
use web_log_backend::schema::{
    derive_path, FieldDescriptor, FieldKind, MessageShape, MethodDescriptor, ServiceDescriptor,
};

fn shape(name: &str) -> MessageShape {
    MessageShape::new(name, vec![FieldDescriptor::new("value", FieldKind::Text)])
}

fn service(name: &str, methods: &[&str]) -> ServiceDescriptor {
    let mut service = ServiceDescriptor::new(name);
    for method in methods {
        service.add_method(method, shape("Request"), shape("Response"));
    }
    service
}

#[test]
fn path_is_derived_from_service_and_method() {
    assert_eq!(derive_path("hello.v1.HelloService", "SayHello"), "/hello.v1.HelloService/SayHello");
    assert_eq!(derive_path("", ""), "//");
    let method = MethodDescriptor::new("pkg.Service", "Do", shape("In"), shape("Out"));
    assert_eq!(method.path(), "/pkg.Service/Do");
    assert_eq!(method.service(), "pkg.Service");
    assert_eq!(method.name(), "Do");
    assert_eq!(method.request(), &shape("In"));
    assert_eq!(method.response(), &shape("Out"));
}

#[test]
fn service_keeps_methods_in_order() {
    let service = service("pkg.Service", &["A", "B", "C"]);
    assert_eq!(service.name(), "pkg.Service");
    let paths: Vec<&str> = service.methods().iter().map(|m| m.path()).collect();
    assert_eq!(paths, vec!["/pkg.Service/A", "/pkg.Service/B", "/pkg.Service/C"]);
}

#[test]
fn registered_methods_are_resolved_by_path() {
    let mut registry = Registry::new();
    assert_eq!(registry.len(), 0);
    assert_eq!(registry.register(service("pkg.One", &["A", "B"])), Ok(()));
    assert_eq!(registry.register(service("pkg.Two", &["A"])), Ok(()));
    assert_eq!(registry.len(), 3);
    assert_eq!(registry.index_of("/pkg.One/A"), Some(0));
    assert_eq!(registry.index_of("/pkg.One/B"), Some(1));
    assert_eq!(registry.index_of("/pkg.Two/A"), Some(2));
    let found = registry.resolve("/pkg.One/B").unwrap();
    assert_eq!(found.name(), "B");
    assert_eq!(found.service(), "pkg.One");
    assert_eq!(registry.get(2).unwrap().path(), "/pkg.Two/A");
    assert!(registry.get(3).is_none());
}

#[test]
fn unknown_path_resolves_to_nothing() {
    let mut registry = Registry::new();
    registry.register(service("pkg.One", &["A"])).unwrap();
    assert!(registry.resolve("/pkg.One/B").is_none());
    assert!(registry.resolve("/pkg.One/A/").is_none());
    assert!(registry.resolve("pkg.One/A").is_none());
    assert!(registry.resolve("").is_none());
    assert_eq!(registry.index_of("/pkg.One/a"), None);
}

#[test]
fn colliding_service_is_refused_and_nothing_is_added() {
    let mut registry = Registry::new();
    registry.register(service("pkg.One", &["A", "B"])).unwrap();
    let refused = registry.register(service("pkg.One", &["C", "B", "A"]));
    assert_eq!(refused, Err(RegistryError::DuplicatePath("/pkg.One/B".to_string())));
    assert_eq!(registry.len(), 2);
    assert!(registry.resolve("/pkg.One/C").is_none());
    assert_eq!(registry.register(service("pkg.One", &["C"])), Ok(()));
    assert_eq!(registry.len(), 3);
}

#[test]
fn two_methods_of_one_service_that_collide_are_both_refused() {
    let mut registry = Registry::new();
    let refused = registry.register(service("pkg.One", &["A", "B", "A"]));
    assert_eq!(refused, Err(RegistryError::DuplicatePath("/pkg.One/A".to_string())));
    assert_eq!(registry.len(), 0);
    assert!(registry.resolve("/pkg.One/A").is_none());
    assert!(registry.resolve("/pkg.One/B").is_none());
}

#[test]
fn paths_collide_across_services_when_the_names_join_alike() {
    let mut registry = Registry::new();
    registry.register(service("a/b", &["c"])).unwrap();
    let refused = registry.register(service("a", &["b/c"]));
    assert_eq!(refused, Err(RegistryError::DuplicatePath("/a/b/c".to_string())));
    assert_eq!(registry.len(), 1);
}

#[test]
fn sealing_twice_fails() {
    let mut registry = Registry::new();
    assert!(!registry.is_sealed());
    assert_eq!(registry.seal(), Ok(()));
    assert!(registry.is_sealed());
    assert_eq!(registry.seal(), Err(RegistryError::AlreadySealed));
    assert_eq!(registry.seal(), Err(RegistryError::AlreadySealed));
    assert!(registry.is_sealed());
}

#[test]
fn registering_after_sealing_fails() {
    let mut registry = Registry::new();
    registry.register(service("pkg.One", &["A"])).unwrap();
    registry.seal().unwrap();
    assert_eq!(registry.register(service("pkg.Two", &["A"])), Err(RegistryError::Sealed));
    assert_eq!(registry.register(service("pkg.One", &["A"])), Err(RegistryError::Sealed));
    assert_eq!(registry.len(), 1);
    assert_eq!(registry.resolve("/pkg.One/A").unwrap().name(), "A");
}

#[test]
fn shape_knows_whether_its_names_are_distinct() {
    let distinct = MessageShape::new(
        "M",
        vec![
            FieldDescriptor::new("a", FieldKind::Text),
            FieldDescriptor::new("b", FieldKind::Integer),
            FieldDescriptor::new("A", FieldKind::Boolean),
        ],
    );
    assert!(distinct.has_distinct_names());
    let repeated = MessageShape::new(
        "M",
        vec![
            FieldDescriptor::new("a", FieldKind::Text),
            FieldDescriptor::new("b", FieldKind::Integer),
            FieldDescriptor::new("a", FieldKind::Boolean),
        ],
    );
    assert!(!repeated.has_distinct_names());
    assert!(MessageShape::new("Empty", vec![]).has_distinct_names());
}
