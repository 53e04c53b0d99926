//! End-to-end tests: one source fragment at a time through the full
//! pipeline, against a persistent session.

use vernacular::runtime::{Runtime, FragmentOutcome};
use vernacular::errors::Error;

fn run(rt: &mut Runtime, src: &str) -> (Vec<String>, Option<Error>) {
    match rt.process_input(src) {
        FragmentOutcome::Executed { output, error, .. } => (output, error),
        FragmentOutcome::CompileFailed(e) => panic!("compilation failed: {:?}", e),
    }
}

fn compile_failure(rt: &mut Runtime, src: &str) -> Error {
    match rt.process_input(src) {
        FragmentOutcome::CompileFailed(e) => e,
        FragmentOutcome::Executed { .. } => panic!("expected a compilation failure"),
    }
}

#[test]
fn whole_declaration_rejects_fractional_value_at_store_time() {
    let mut rt = Runtime::new();
    let (output, error) = run(&mut rt, "let x: Whole = 3.5");
    assert!(matches!(error, Some(Error::TypeMismatch { .. })));
    assert!(output.is_empty());
}

#[test]
fn whole_declaration_accepts_zero_fraction_and_loads_as_whole() {
    let mut rt = Runtime::new();
    let (_, error) = run(&mut rt, "let x: Whole = 3.0");
    assert!(error.is_none());
    let (output, error) = run(&mut rt, "show(x)");
    assert!(error.is_none());
    assert_eq!(output, vec!["3".to_string()]);
}

#[test]
fn continuation_joins_lines_but_parsing_still_rejects() {
    let mut rt = Runtime::new();
    let e = compile_failure(&mut rt, "let x: Whole = 5 \\\n6 show(x)");
    assert!(matches!(e, Error::ParseError(_)));
}

#[test]
fn continuation_preprocessing_joins_with_a_space() {
    let rt = Runtime::new();
    let p = rt.preprocess_input("let x = 1\\\nshow(x)").unwrap();
    assert_eq!(p, "let x = 1 show(x)".to_string());
}

#[test]
fn preprocessing_keeps_inner_line_breaks() {
    let rt = Runtime::new();
    let p = rt.preprocess_input("let a = 1\nshow(a)\n").unwrap();
    assert_eq!(p, "let a = 1\nshow(a)".to_string());
}

#[test]
fn environment_and_types_persist_across_fragments() {
    let mut rt = Runtime::new();
    let (_, error) = run(&mut rt, "let y: Text = \"hi\"");
    assert!(error.is_none());
    let (output, error) = run(&mut rt, "show(y)");
    assert!(error.is_none());
    assert_eq!(output, vec!["hi".to_string()]);
    // The declared type is also visible to the next fragment's static
    // pass, which rejects an ill-typed reassignment before it runs.
    let e = compile_failure(&mut rt, "y = 5");
    assert!(matches!(e, Error::TypeError { .. }));
}

#[test]
fn unknown_function_fails_and_prints_nothing() {
    let mut rt = Runtime::new();
    let (output, error) = run(&mut rt, "foo()");
    match error {
        Some(Error::UnknownFunction(name)) => assert_eq!(name, "foo".to_string()),
        other => panic!("expected an unknown-function failure, got {:?}", other),
    }
    assert!(output.is_empty());
}

#[test]
fn false_conditional_skips_body_and_resumes_after_it() {
    let mut rt = Runtime::new();
    let (_, error) = run(&mut rt, "let b: Truth = false");
    assert!(error.is_none());
    let (output, error) = run(&mut rt, "if b {\n show(1)\n}\nshow(2)");
    assert!(error.is_none());
    assert_eq!(output, vec!["2".to_string()]);
}

#[test]
fn true_conditional_runs_body() {
    let mut rt = Runtime::new();
    let (_, error) = run(&mut rt, "let b: Truth = true");
    assert!(error.is_none());
    let (output, error) = run(&mut rt, "if b {\n show(1)\n}\nshow(2)");
    assert!(error.is_none());
    assert_eq!(output, vec!["1".to_string(), "2".to_string()]);
}

#[test]
fn false_while_loop_never_runs_its_body() {
    let mut rt = Runtime::new();
    let (_, error) = run(&mut rt, "let b: Truth = false");
    assert!(error.is_none());
    let (output, error) = run(&mut rt, "while b {\n show(1)\n}\nshow(9)");
    assert!(error.is_none());
    assert_eq!(output, vec!["9".to_string()]);
}

#[test]
fn undefined_variable_load_fails() {
    let mut rt = Runtime::new();
    let (output, error) = run(&mut rt, "show(zz)");
    match error {
        Some(Error::UndefinedVariable(name)) => assert_eq!(name, "zz".to_string()),
        other => panic!("expected an undefined-variable failure, got {:?}", other),
    }
    assert!(output.is_empty());
}

#[test]
fn store_then_load_round_trips_the_exact_value() {
    let mut rt = Runtime::new();
    let (_, error) = run(&mut rt, "let v = 12.25");
    assert!(error.is_none());
    let (output, error) = run(&mut rt, "show(v)");
    assert!(error.is_none());
    assert_eq!(output, vec!["12.25".to_string()]);
}

#[test]
fn interpolation_concatenates_in_source_order() {
    let mut rt = Runtime::new();
    let (_, error) = run(&mut rt, "let n = 7");
    assert!(error.is_none());
    let (output, error) = run(&mut rt, "show(\"a{n}b\")");
    assert!(error.is_none());
    assert_eq!(output, vec!["a7b".to_string()]);
}

#[test]
fn interpolation_with_three_parts_keeps_order() {
    let mut rt = Runtime::new();
    let (_, error) = run(&mut rt, "let p = 1\nlet q = 2");
    assert!(error.is_none());
    let (output, error) = run(&mut rt, "show(\"{p}-{q}\")");
    assert!(error.is_none());
    assert_eq!(output, vec!["1-2".to_string()]);
}

#[test]
fn arithmetic_has_conventional_precedence() {
    let mut rt = Runtime::new();
    let (output, error) = run(&mut rt, "show(1 + 2 * 3)");
    assert!(error.is_none());
    assert_eq!(output, vec!["7".to_string()]);
}

#[test]
fn division_yields_fractional_results() {
    let mut rt = Runtime::new();
    let (output, error) = run(&mut rt, "show(7 / 2)");
    assert!(error.is_none());
    assert_eq!(output, vec!["3.5".to_string()]);
}

#[test]
fn subtraction_below_zero_prints_negative() {
    let mut rt = Runtime::new();
    let (output, error) = run(&mut rt, "show(1 - 2)");
    assert!(error.is_none());
    assert_eq!(output, vec!["-1".to_string()]);
}

#[test]
fn arithmetic_on_text_fails_with_type_mismatch() {
    let mut rt = Runtime::new();
    let (_, error) = run(&mut rt, "show(\"a\" + \"b\")");
    assert!(matches!(error, Some(Error::TypeMismatch { .. })));
}

#[test]
fn cast_to_whole_floors() {
    let mut rt = Runtime::new();
    let (output, error) = run(&mut rt, "show(7.9 as Whole)");
    assert!(error.is_none());
    assert_eq!(output, vec!["7".to_string()]);
}

#[test]
fn cast_to_decimal_is_identity() {
    let mut rt = Runtime::new();
    let (output, error) = run(&mut rt, "show(5.5 as Decimal)");
    assert!(error.is_none());
    assert_eq!(output, vec!["5.5".to_string()]);
}

#[test]
fn static_type_error_rejects_text_declared_as_number() {
    let mut rt = Runtime::new();
    let e = compile_failure(&mut rt, "let s: Text = 5");
    assert!(matches!(e, Error::TypeError { .. }));
}

#[test]
fn lex_error_on_unexpected_character() {
    let mut rt = Runtime::new();
    let e = compile_failure(&mut rt, "let $ = 1");
    assert!(matches!(e, Error::LexError(_)));
}

#[test]
fn compile_failure_leaves_environment_untouched() {
    let mut rt = Runtime::new();
    let (_, error) = run(&mut rt, "let keep = 4");
    assert!(error.is_none());
    let _ = compile_failure(&mut rt, "let keep = ");
    let (output, error) = run(&mut rt, "show(keep)");
    assert!(error.is_none());
    assert_eq!(output, vec!["4".to_string()]);
}

#[test]
fn runtime_failure_keeps_earlier_effects() {
    let mut rt = Runtime::new();
    let (output, error) = run(&mut rt, "let a = 1\nshow(a)\nfoo()");
    assert!(matches!(error, Some(Error::UnknownFunction(_))));
    assert_eq!(output, vec!["1".to_string()]);
    let (output, error) = run(&mut rt, "show(a)");
    assert!(error.is_none());
    assert_eq!(output, vec!["1".to_string()]);
}

#[test]
fn truth_and_nothing_have_canonical_forms() {
    let mut rt = Runtime::new();
    let (output, error) = run(&mut rt, "show(true)\nshow(false)\nshow(nothing)");
    assert!(error.is_none());
    assert_eq!(
        output,
        vec!["true".to_string(), "false".to_string(), "nothing".to_string()],
    );
}

#[test]
fn blank_fragment_executes_with_no_output() {
    let mut rt = Runtime::new();
    let (output, error) = run(&mut rt, " \t\r\n \n");
    assert!(error.is_none());
    assert!(output.is_empty());
}

#[test]
fn trailing_unicode_whitespace_is_trimmed_before_the_backslash_check() {
    let rt = Runtime::new();
    // A form feed after the backslash is trailing whitespace: the line is
    // still a continuation.
    let p = rt.preprocess_input("let x = 1\\\u{000C}\nshow(x)").unwrap();
    assert_eq!(p, "let x = 1 show(x)".to_string());
}
