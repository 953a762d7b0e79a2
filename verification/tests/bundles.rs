//! Tests of bundle construction and the operation registry: duplicate
//! operation names always fail, in whatever order they are registered.

use sapphillon::BundleError;
use sapphillon::ExtensionBundle;
use sapphillon::HostOperation;
use sapphillon::OperationRegistry;
use sapphillon::Shape;

fn op(name: &str) -> HostOperation {
    HostOperation {
        name: name.to_string(),
        params: vec![Shape::Integer],
        output: Shape::Integer,
    }
}

#[test]
fn build_keeps_all_parts() {
    let bundle = ExtensionBundle::build(
        "math".to_string(),
        vec![op("add"), op("mul")],
        vec!["core".to_string()],
        vec!["const TAU = 6.283185307179586;".to_string()],
    )
    .unwrap();
    assert_eq!(bundle.name, "math");
    assert_eq!(bundle.operations.len(), 2);
    assert_eq!(bundle.operations[0].name, "add");
    assert_eq!(bundle.operations[1].name, "mul");
    assert_eq!(bundle.dependencies, vec!["core".to_string()]);
    assert_eq!(bundle.resources.len(), 1);
}

#[test]
fn duplicate_operation_names_fail_in_either_order() {
    let forward = ExtensionBundle::build(
        "ext".to_string(),
        vec![op("sum"), op("print"), op("sum")],
        vec![],
        vec![],
    );
    match forward {
        Err(BundleError::DuplicateOperationName { name }) => assert_eq!(name, "sum"),
        other => panic!("expected DuplicateOperationName, got {other:?}"),
    }

    let backward = ExtensionBundle::build(
        "ext".to_string(),
        vec![op("sum"), op("print"), op("sum")].into_iter().rev().collect(),
        vec![],
        vec![],
    );
    match backward {
        Err(BundleError::DuplicateOperationName { name }) => assert_eq!(name, "sum"),
        other => panic!("expected DuplicateOperationName, got {other:?}"),
    }
}

#[test]
fn registry_rejects_a_taken_name_and_keeps_its_contents() {
    let mut registry = OperationRegistry::new();
    registry.register(op("sum")).unwrap();
    registry.register(op("print")).unwrap();
    assert!(registry.contains_name(&"sum".to_string()));
    assert!(!registry.contains_name(&"missing".to_string()));

    match registry.register(op("sum")) {
        Err(BundleError::DuplicateOperationName { name }) => assert_eq!(name, "sum"),
        other => panic!("expected DuplicateOperationName, got {other:?}"),
    }

    let operations = registry.into_operations();
    assert_eq!(operations.len(), 2);
    assert_eq!(operations[0].name, "sum");
    assert_eq!(operations[1].name, "print");

    let bundle = ExtensionBundle::build("ext".to_string(), operations, vec![], vec![]).unwrap();
    assert_eq!(bundle.operations.len(), 2);
}

#[test]
fn empty_operation_name_is_rejected() {
    let built = ExtensionBundle::build("ext".to_string(), vec![op("")], vec![], vec![]);
    assert!(matches!(built, Err(BundleError::EmptyOperationName)));

    let mut registry = OperationRegistry::new();
    assert!(matches!(
        registry.register(op("")),
        Err(BundleError::EmptyOperationName)
    ));
    assert!(registry.into_operations().is_empty());
}

#[test]
fn empty_bundle_is_bare() {
    let bundle = ExtensionBundle::empty("shell".to_string());
    assert_eq!(bundle.name, "shell");
    assert!(bundle.operations.is_empty());
    assert!(bundle.dependencies.is_empty());
    assert!(bundle.resources.is_empty());
}
