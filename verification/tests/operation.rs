use turbopack_node::message::EvalJavaScriptIncomingMessage as Incoming;
use turbopack_node::operation::{Dependency, LoopAction, LoopOperation};

type Operation = LoopOperation<u8, String, (String, String)>;

/// Drives a loop over messages, and gives the output, the reads in the order in
/// which they are waited for, the build dependencies and the reported errors.
fn run(messages: Vec<Incoming<u8>>) -> (Incoming<u8>, Vec<String>, Vec<String>, Vec<(u32, u8)>) {
    let mut operation = Operation::new();
    let mut builds = Vec::new();
    let mut errors = Vec::new();
    let mut messages = messages.into_iter();
    while operation.is_receiving() {
        match operation.received(messages.next().unwrap(), 7u32) {
            LoopAction::ReadFile { path } => operation.file_read_started(path),
            LoopAction::ReadDir { path, glob } => operation.dir_read_started((path, glob)),
            LoopAction::EmitBuildDependency { context_path, path } => {
                assert_eq!(context_path, 7);
                builds.push(path);
            }
            LoopAction::EmitEvaluation(issue) => errors.push((issue.context(), issue.error)),
            LoopAction::Continue => {}
        }
    }
    let mut waits = Vec::new();
    while let Some(dependency) = operation.next_dependency() {
        waits.push(match dependency {
            Dependency::File(path) => path,
            Dependency::Dir((path, glob)) => format!("{path}:{glob}"),
        });
    }
    (operation.into_output(), waits, builds, errors)
}

fn file(path: &str) -> Incoming<u8> {
    Incoming::FileDependency { path: path.to_string() }
}

fn dir(path: &str, glob: &str) -> Incoming<u8> {
    Incoming::DirDependency { path: path.to_string(), glob: glob.to_string() }
}

fn build(path: &str) -> Incoming<u8> {
    Incoming::BuildDependency { path: path.to_string() }
}

fn value(s: &str) -> Incoming<u8> {
    Incoming::Value { data: s.to_string() }
}

#[test]
fn first_output_ends_the_loop() {
    let (output, waits, builds, errors) = run(vec![value("a"), value("b")]);
    assert!(matches!(output, Incoming::Value { data } if data == "a"));
    assert!(waits.is_empty() && builds.is_empty() && errors.is_empty());
    let (output, ..) = run(vec![Incoming::End { data: None }, file("a")]);
    assert!(matches!(output, Incoming::End { data: None }));
}

#[test]
fn files_are_waited_for_before_directories() {
    let (output, waits, _, _) = run(vec![
        dir("d1", "*.js"),
        file("f1"),
        dir("d2", "**"),
        file("f2"),
        Incoming::End { data: Some("x".to_string()) },
        file("f3"),
    ]);
    assert!(matches!(output, Incoming::End { data: Some(data) } if data == "x"));
    assert_eq!(waits, vec!["f1", "f2", "d1:*.js", "d2:**"]);
}

#[test]
fn build_dependencies_raise_issues() {
    let (_, waits, builds, errors) = run(vec![build("a"), build("b"), value("x")]);
    assert_eq!(builds, vec!["a", "b"]);
    assert!(waits.is_empty() && errors.is_empty());
}

#[test]
fn error_raises_an_issue_and_ends_the_loop() {
    let (output, waits, _, errors) = run(vec![file("f"), Incoming::Error(42)]);
    assert!(matches!(output, Incoming::Error(42)));
    assert_eq!(errors, vec![(7, 42)]);
    assert_eq!(waits, vec!["f"]);
}

#[test]
fn dependencies_do_not_end_the_loop() {
    let mut operation = Operation::new();
    for message in vec![file("f"), dir("d", "*"), build("b")] {
        assert!(!message.is_output());
        operation.received(message, 0u32);
        assert!(operation.is_receiving());
    }
    assert!(value("x").is_output());
    assert!(Incoming::Error(1u8).is_output());
    operation.received(value("x"), 0u32);
    assert!(!operation.is_receiving());
}

#[test]
fn successive_loops_take_outputs_in_order() {
    let messages =
        || vec![file("f1"), value("a"), file("f2"), build("b"), value("b"), Incoming::Error(1)];
    let (first, waits, ..) = run(messages());
    assert!(matches!(first, Incoming::Value { data } if data == "a"));
    assert_eq!(waits, vec!["f1"]);
    let (second, waits, builds, _) = run(messages().into_iter().skip(2).collect());
    assert!(matches!(second, Incoming::Value { data } if data == "b"));
    assert_eq!(waits, vec!["f2"]);
    assert_eq!(builds, vec!["b"]);
    let (third, ..) = run(messages().into_iter().skip(5).collect());
    assert!(matches!(third, Incoming::Error(1)));
}
