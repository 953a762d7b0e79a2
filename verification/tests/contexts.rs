//! Tests of the context lifecycle: initialization, dependency-ordered
//! bundle installation, failure isolation, and the uninitialized-run
//! policy.

use sapphillon::EngineError;
use sapphillon::ExtensionBundle;
use sapphillon::HostOperation;
use sapphillon::InitError;
use sapphillon::RunOutcome;
use sapphillon::SapphillonRuntime;
use sapphillon::Shape;
use sapphillon::SourcePosition;

fn bare_bundle(name: &str, dependencies: &[&str]) -> ExtensionBundle {
    ExtensionBundle::build(
        name.to_string(),
        vec![],
        dependencies.iter().map(|d| d.to_string()).collect(),
        vec![],
    )
    .unwrap()
}

#[test]
fn run_with_zero_operations_succeeds_on_clean_outcome() {
    let mut ctx = SapphillonRuntime::new();
    ctx.initialize(vec![]).unwrap();
    let request = ctx.prepare_run("1 + 1;", "workflow.js").unwrap();
    assert_eq!(request.script, "1 + 1;");
    assert!(ctx.complete_run(RunOutcome::Success).is_ok());
}

#[test]
fn run_surfaces_engine_failure_as_engine_error() {
    let mut ctx = SapphillonRuntime::new();
    ctx.initialize(vec![]).unwrap();
    ctx.prepare_run("this is not valid syntax &&&", "workflow.js")
        .unwrap();
    let outcome = RunOutcome::Failure {
        message: "SyntaxError: Unexpected identifier 'is'".to_string(),
        position: Some(SourcePosition {
            module: "workflow.js".to_string(),
            line: 1,
            column: 6,
        }),
    };
    match ctx.complete_run(outcome) {
        Err(EngineError::Script { message, position }) => {
            assert_eq!(message, "SyntaxError: Unexpected identifier 'is'");
            let position = position.unwrap();
            assert_eq!(position.module, "workflow.js");
            assert_eq!(position.line, 1);
            assert_eq!(position.column, 6);
        }
        other => panic!("expected a script error, got {other:?}"),
    }
}

#[test]
fn uninitialized_context_fails_fast() {
    let ctx = SapphillonRuntime::new();
    match ctx.prepare_run("1 + 1;", "workflow.js") {
        Err(EngineError::NotInitialized) => {}
        other => panic!("expected NotInitialized, got {other:?}"),
    }
    assert!(ctx.installed_names().is_empty());
}

#[test]
fn context_survives_sequential_runs_and_a_failed_run() {
    let mut ctx = SapphillonRuntime::new();
    ctx.initialize(vec![bare_bundle("state", &[])]).unwrap();

    ctx.prepare_run("x = 1;", "workflow.js").unwrap();
    assert!(ctx.complete_run(RunOutcome::Success).is_ok());

    ctx.prepare_run("x += 1;", "workflow.js").unwrap();
    assert!(ctx.complete_run(RunOutcome::Success).is_ok());

    // A failing script does not poison the context: the installed set is
    // unchanged and further, independent runs still go through.
    ctx.prepare_run("throw new Error('boom');", "workflow.js")
        .unwrap();
    let failed = ctx.complete_run(RunOutcome::Failure {
        message: "Uncaught Error: boom".to_string(),
        position: None,
    });
    assert!(failed.is_err());
    assert_eq!(ctx.installed_names(), vec!["state".to_string()]);
    ctx.prepare_run("assertEquals(x, 2)", "workflow.js").unwrap();
    assert!(ctx.complete_run(RunOutcome::Success).is_ok());

    // A fresh context shares nothing with the first one.
    let other = SapphillonRuntime::new();
    assert!(other.installed_names().is_empty());
    assert!(other.prepare_run("x;", "workflow.js").is_err());
}

#[test]
fn initialization_is_idempotent_once_ready() {
    let mut ctx = SapphillonRuntime::new();
    ctx.initialize(vec![bare_bundle("first", &[])]).unwrap();
    // Re-initialization is silently ignored: the installed set is frozen.
    ctx.initialize(vec![bare_bundle("second", &[])]).unwrap();
    assert_eq!(ctx.installed_names(), vec!["first".to_string()]);
}

#[test]
fn bundles_install_in_dependency_order_regardless_of_argument_order() {
    let mut ctx = SapphillonRuntime::new();
    let a = bare_bundle("a", &[]);
    let b = bare_bundle("b", &["a"]);
    ctx.initialize(vec![b, a]).unwrap();
    assert_eq!(
        ctx.installed_names(),
        vec!["a".to_string(), "b".to_string()]
    );

    let mut ctx2 = SapphillonRuntime::new();
    let a = bare_bundle("a", &[]);
    let b = bare_bundle("b", &["a"]);
    ctx2.initialize(vec![a, b]).unwrap();
    assert_eq!(
        ctx2.installed_names(),
        vec!["a".to_string(), "b".to_string()]
    );
}

#[test]
fn dependency_chain_installs_dependencies_first() {
    let mut ctx = SapphillonRuntime::new();
    let base = bare_bundle("base", &[]);
    let middle = bare_bundle("middle", &["base"]);
    let top = bare_bundle("top", &["middle", "base"]);
    ctx.initialize(vec![top, middle, base]).unwrap();
    assert_eq!(
        ctx.installed_names(),
        vec!["base".to_string(), "middle".to_string(), "top".to_string()]
    );
}

#[test]
fn dependency_cycle_fails_and_leaves_context_uninitialized() {
    let mut ctx = SapphillonRuntime::new();
    let a = bare_bundle("a", &["b"]);
    let b = bare_bundle("b", &["a"]);
    match ctx.initialize(vec![a, b]) {
        Err(InitError::DependencyCycle) => {}
        other => panic!("expected DependencyCycle, got {other:?}"),
    }
    // Still uninitialized: running fails fast and nothing is installed.
    assert!(ctx.installed_names().is_empty());
    assert!(ctx.prepare_run("1 + 1;", "workflow.js").is_err());

    // The same two bundles without the cycle initialize fine afterwards.
    let a = bare_bundle("a", &[]);
    let b = bare_bundle("b", &["a"]);
    ctx.initialize(vec![a, b]).unwrap();
    assert_eq!(
        ctx.installed_names(),
        vec!["a".to_string(), "b".to_string()]
    );
}

#[test]
fn missing_dependency_is_reported_by_name() {
    let mut ctx = SapphillonRuntime::new();
    let b = bare_bundle("b", &["ghost"]);
    match ctx.initialize(vec![b]) {
        Err(InitError::MissingDependency { name }) => assert_eq!(name, "ghost"),
        other => panic!("expected MissingDependency, got {other:?}"),
    }
    assert!(ctx.installed_names().is_empty());
}

#[test]
fn duplicate_bundle_names_are_rejected() {
    let mut ctx = SapphillonRuntime::new();
    let first = bare_bundle("twin", &[]);
    let second = bare_bundle("twin", &[]);
    match ctx.initialize(vec![first, second]) {
        Err(InitError::DuplicateBundleName { name }) => assert_eq!(name, "twin"),
        other => panic!("expected DuplicateBundleName, got {other:?}"),
    }
    assert!(ctx.installed_names().is_empty());
}

#[test]
fn installed_operations_are_resolved_by_name() {
    let mut ctx = SapphillonRuntime::new();
    assert!(ctx.find_operation(&"sum".to_string()).is_none());

    let core = ExtensionBundle::build(
        "core".to_string(),
        vec![HostOperation {
            name: "print".to_string(),
            params: vec![Shape::Text],
            output: Shape::Unit,
        }],
        vec![],
        vec![],
    )
    .unwrap();
    let math = ExtensionBundle::build(
        "math".to_string(),
        vec![HostOperation {
            name: "sum".to_string(),
            params: vec![Shape::Sequence(Box::new(Shape::Integer))],
            output: Shape::Integer,
        }],
        vec!["core".to_string()],
        vec![],
    )
    .unwrap();
    ctx.initialize(vec![math, core]).unwrap();

    let sum = ctx.find_operation(&"sum".to_string()).unwrap();
    assert_eq!(sum.name, "sum");
    assert!(matches!(sum.output, Shape::Integer));
    let print = ctx.find_operation(&"print".to_string()).unwrap();
    assert_eq!(print.name, "print");
    assert!(ctx.find_operation(&"missing".to_string()).is_none());
}

#[test]
fn self_dependency_is_a_cycle() {
    let mut ctx = SapphillonRuntime::new();
    let selfish = bare_bundle("selfish", &["selfish"]);
    match ctx.initialize(vec![selfish]) {
        Err(InitError::DependencyCycle) => {}
        other => panic!("expected DependencyCycle, got {other:?}"),
    }
}
