//! Tests of the execution pipeline: ephemeral runs, context reuse, and
//! host operations invoked by scripts.

use sapphillon::HostOperation;
use sapphillon::RunOutcome;
use sapphillon::SapphillonRuntime;
use sapphillon::Shape;
use sapphillon::Value;
use sapphillon::marshal_arguments;
use sapphillon::marshal_return;
use sapphillon::run_script;

fn sum_operation(name: &str) -> HostOperation {
    HostOperation {
        name: name.to_string(),
        params: vec![Shape::Sequence(Box::new(Shape::Integer))],
        output: Shape::Integer,
    }
}

#[test]
fn test_extension() {
    let script = r#"
        Deno.core.print("aa\n");
        console.log(Deno.core.ops.test_op([1, 2, 3, 4, 5]));
        "#;

    let result = run_script(script, vec![sum_operation("test_op")]);
    println!("[test_extension] result: {result:?}");
    let (context, request) = result.unwrap();
    assert_eq!(context.installed_names(), vec!["ext".to_string()]);
    assert_eq!(request.script, script);
    assert_eq!(request.module_id, "workflow.js");
}

#[test]
fn test_run_script() {
    let script = "1 + 1;";

    let result = run_script(script, vec![]);
    assert!(result.is_ok());
    let (context, request) = result.unwrap();
    assert_eq!(request.script, "1 + 1;");
    assert!(context.complete_run(RunOutcome::Success).is_ok());
}

#[test]
fn test_run_script_hello() {
    let script = "a = 1 + 1; console.log('Hello, world!');console.log(a);";

    let mut sapphillon_runtime = SapphillonRuntime::new();
    assert!(sapphillon_runtime.initialize(vec![]).is_ok());

    let result = sapphillon_runtime.prepare_run(script, "workflow.js");
    assert!(result.is_ok(), "Script should be accepted for execution");
    assert!(sapphillon_runtime.complete_run(RunOutcome::Success).is_ok());
}

#[test]
fn test_system() {
    let op = sum_operation("test_op");

    let script = r#"
        Deno.core.print("Running test_op...\n");
        let sum = Deno.core.ops.test_op([1, 2, 3, 4, 5]);
        Deno.core.print("Sum: " + sum + "\n");
    "#;

    let (context, request) = run_script(script, vec![op]).unwrap();
    assert_eq!(request.script, script);

    // What the engine does when the script calls the operation: the
    // arguments are checked against the declared shapes, the native
    // callable computes on the converted values, and the result is
    // checked on the way back.
    let op = sum_operation("test_op");
    let args = vec![Value::Sequence(vec![
        Value::Integer(1),
        Value::Integer(2),
        Value::Integer(3),
        Value::Integer(4),
        Value::Integer(5),
    ])];
    assert!(marshal_arguments(&op, &args).is_ok());
    let numbers = args[0].as_integer_sequence().unwrap();
    let sum: i64 = numbers.iter().sum();
    let returned = Value::Integer(sum);
    assert!(marshal_return(&op, &returned).is_ok());
    assert_eq!(returned.as_integer(), Some(15));

    let run = context.prepare_run(&request.script, "test.js").unwrap();
    assert_eq!(run.module_id, "test.js");
    assert!(context.complete_run(RunOutcome::Success).is_ok());
}
