//! End-to-end scenarios: source text in, printed object or error message
//! out, exactly as the driver reports them.

use unlisp::defs::display_string;
use unlisp::defs::Runtime;
use unlisp::exceptions::run_with_global_ex_handler;
use unlisp::predefined::init;
use unlisp::reader::read_and_parse;
use unlisp::reader::Reader;
use unlisp::DEFAULT_FUEL;

/// Reads, lowers and evaluates every form of `src` in a fresh runtime;
/// the result is the last form's printed value, or the first error.
fn run(src: &str) -> Result<String, String> {
    let mut rt = Runtime::new();
    init(&mut rt);
    let mut reader = Reader::create(src);
    let mut last: Option<String> = None;
    loop {
        match read_and_parse(&mut reader) {
            Ok(Some(hir)) => {
                let hirs = vec![hir];
                match run_with_global_ex_handler(&mut rt, &hirs, DEFAULT_FUEL) {
                    Ok(obj) => last = Some(display_string(&rt, obj)),
                    Err(msg) => return Err(msg),
                }
            },
            Ok(None) => break,
            Err(e) => return Err(e.message().clone()),
        }
    }
    Ok(last.expect("no form in input"))
}

#[test]
fn addition() {
    assert_eq!(run("(+ 1 2 3)").unwrap(), "Object[int64, 6]");
}

#[test]
fn subtraction() {
    assert_eq!(run("(- 10 1 2)").unwrap(), "Object[int64, 7]");
}

#[test]
fn lambda_application() {
    assert_eq!(run("((lambda (x) (+ x 1)) 41)").unwrap(), "Object[int64, 42]");
}

#[test]
fn free_variable_capture() {
    assert_eq!(
        run("(((lambda (x) (lambda (y) (+ x y))) 3) 4)").unwrap(),
        "Object[int64, 7]"
    );
}

#[test]
fn first_and_rest_over_cons() {
    assert_eq!(run("(first (cons 1 (cons 2 nil)))").unwrap(), "Object[int64, 1]");
    assert_eq!(
        run("(first (rest (cons 1 (cons 2 nil))))").unwrap(),
        "Object[int64, 2]"
    );
}

#[test]
fn adding_nil_reports_a_cast_error() {
    assert_eq!(run("(+ 1 nil)").unwrap_err(), "cannot cast list to int");
}

#[test]
fn missing_argument_reports_an_arity_error() {
    assert_eq!(
        run("((lambda (x) x))").unwrap_err(),
        "wrong number of arguments (0) passed to lambda"
    );
}

#[test]
fn unknown_function_reports_an_undefined_function_error() {
    assert_eq!(run("(undefined-fn)").unwrap_err(), "undefined function undefined-fn");
}

#[test]
fn capture_survives_leaving_the_enclosing_frame() {
    // The closure returned from the outer lambda still sees x after the
    // outer call has returned.
    assert_eq!(
        run("((lambda (x) ((lambda (y) (+ x y)) 10)) 5)").unwrap(),
        "Object[int64, 15]"
    );
}

#[test]
fn nil_evaluates_to_the_empty_list() {
    assert_eq!(run("nil").unwrap(), "Object[list, 0]");
}

#[test]
fn lambda_evaluates_to_a_function_object() {
    assert_eq!(run("(lambda (x y) x)").unwrap(), "Object[fn, 2]");
}

#[test]
fn equal_answers_the_value_or_nil() {
    assert_eq!(run("(equal 4 4)").unwrap(), "Object[int64, 4]");
    assert_eq!(run("(equal 4 5)").unwrap(), "Object[list, 0]");
    assert_eq!(run("(equal (cons 1 nil) (cons 1 nil))").unwrap(), "Object[list, 1]");
}

#[test]
fn cons_builds_lists() {
    assert_eq!(run("(cons 1 (cons 2 nil))").unwrap(), "Object[list, 2]");
    assert_eq!(run("(rest (cons 1 nil))").unwrap(), "Object[list, 0]");
}

#[test]
fn first_of_the_empty_list_aborts() {
    assert_eq!(run("(first nil)").unwrap_err(), "cannot do first on empty list");
}

#[test]
fn too_many_arguments_reports_an_arity_error() {
    assert_eq!(
        run("((lambda (x) x) 1 2)").unwrap_err(),
        "wrong number of arguments (2) passed to lambda"
    );
}

#[test]
fn calling_a_non_function_reports_a_cast_error() {
    assert_eq!(run("((+ 1 2) 3)").unwrap_err(), "cannot cast int to function");
}

#[test]
fn unbound_variable_is_an_undefined_symbol() {
    assert_eq!(run("(+ 1 y)").unwrap_err(), "undefined symbol y");
}

#[test]
fn several_forms_evaluate_in_order() {
    assert_eq!(run("(+ 1 2) (+ 3 4)").unwrap(), "Object[int64, 7]");
}

#[test]
fn shadowing_uses_the_innermost_binding() {
    assert_eq!(
        run("((lambda (x) ((lambda (x) x) 2)) 1)").unwrap(),
        "Object[int64, 2]"
    );
}

#[test]
fn an_exhausted_step_budget_is_reported() {
    let mut rt = Runtime::new();
    init(&mut rt);
    let mut reader = Reader::create("(+ 1 2)");
    let hir = read_and_parse(&mut reader).unwrap().unwrap();
    let hirs = vec![hir];
    let e = run_with_global_ex_handler(&mut rt, &hirs, 0).unwrap_err();
    assert_eq!(e, "evaluation fuel exhausted");
}
