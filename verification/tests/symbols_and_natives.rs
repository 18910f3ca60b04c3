//! Tests of the symbol table and the built-in functions.

use unlisp::defs::unlisp_rt_nil_object;
use unlisp::defs::unlisp_rt_object_is_nil;
use unlisp::defs::Object;
use unlisp::defs::Runtime;
use unlisp::eval::invoke_function;
use unlisp::exceptions::Failure;
use unlisp::predefined::init;
use unlisp::predefined::native_add_invoke;
use unlisp::predefined::native_cons_invoke;
use unlisp::predefined::native_equal_invoke;
use unlisp::predefined::native_first_invoke;
use unlisp::predefined::native_rest_invoke;
use unlisp::predefined::native_set_fn_invoke;
use unlisp::predefined::native_set_macro_invoke;
use unlisp::predefined::native_sub_invoke;
use unlisp::predefined::native_symbol_fn_invoke;
use unlisp::symbols::bind;
use unlisp::symbols::get_or_intern_symbol;
use unlisp::symbols::lookup_function;
use unlisp::symbols::unlisp_rt_intern_sym;

fn rt_error_message(f: Failure) -> String {
    unlisp::exceptions::failure_message(&f)
}

/// Symbol uniqueness: equal names intern to the same record.
#[test]
fn interning_is_idempotent() {
    let mut rt = Runtime::new();
    let a = get_or_intern_symbol(&mut rt, "alpha");
    let b = get_or_intern_symbol(&mut rt, "beta");
    let a2 = unlisp_rt_intern_sym(&mut rt, "alpha");
    let b2 = get_or_intern_symbol(&mut rt, "beta");
    assert_eq!(a, a2);
    assert_eq!(b, b2);
    assert_ne!(a, b);
    assert_eq!(rt.symbols.len(), 2);
}

#[test]
fn bind_is_visible_to_lookup() {
    let mut rt = Runtime::new();
    init(&mut rt);
    let s = get_or_intern_symbol(&mut rt, "my-fn");
    assert_eq!(lookup_function(&rt, s), None);
    let plus = get_or_intern_symbol(&mut rt, "+");
    let plus_fn = lookup_function(&rt, plus).expect("+ must be bound after init");
    bind(&mut rt, s, plus_fn);
    assert_eq!(lookup_function(&rt, s), Some(plus_fn));
}

#[test]
fn init_binds_every_builtin() {
    let mut rt = Runtime::new();
    init(&mut rt);
    for name in [
        "+",
        "-",
        "equal",
        "set-fn",
        "symbol-function",
        "cons",
        "rest",
        "first",
        "apply",
        "set-macro",
    ] {
        let s = get_or_intern_symbol(&mut rt, name);
        assert!(lookup_function(&rt, s).is_some(), "{} not bound", name);
    }
}

#[test]
fn add_sums_and_reports_casts() {
    let mut rt = Runtime::new();
    let args = vec![Object::from_int(1), Object::from_int(2), Object::from_int(3)];
    assert_eq!(native_add_invoke(&args).unwrap(), Object::from_int(6));
    let empty: Vec<Object> = Vec::new();
    assert_eq!(native_add_invoke(&empty).unwrap(), Object::from_int(0));
    let nil = unlisp_rt_nil_object(&mut rt);
    let bad = vec![Object::from_int(1), nil];
    let e = native_add_invoke(&bad).unwrap_err();
    assert_eq!(rt_error_message(e), "cannot cast list to int");
}

#[test]
fn sub_subtracts_the_rest() {
    let args = vec![Object::from_int(10), Object::from_int(1), Object::from_int(2)];
    assert_eq!(native_sub_invoke(&args).unwrap(), Object::from_int(7));
    let args = vec![Object::from_int(10)];
    assert_eq!(native_sub_invoke(&args).unwrap(), Object::from_int(10));
}

#[test]
fn equal_is_structural_on_lists() {
    let mut rt = Runtime::new();
    let nil1 = unlisp_rt_nil_object(&mut rt);
    let nil2 = unlisp_rt_nil_object(&mut rt);
    let a = native_cons_invoke(&mut rt, Object::from_int(1), nil1).unwrap();
    let b = native_cons_invoke(&mut rt, Object::from_int(1), nil2).unwrap();
    // structurally equal although allocated separately
    let r = native_equal_invoke(&mut rt, a, b).unwrap();
    assert_eq!(r, a);
    // different contents answer nil
    let c = native_cons_invoke(&mut rt, Object::from_int(2), nil2).unwrap();
    let r = native_equal_invoke(&mut rt, a, c).unwrap();
    assert!(unlisp_rt_object_is_nil(&rt, r));
    // plain integers by value
    let r = native_equal_invoke(&mut rt, Object::from_int(4), Object::from_int(4)).unwrap();
    assert_eq!(r, Object::from_int(4));
}

#[test]
fn cons_first_rest() {
    let mut rt = Runtime::new();
    let nil = unlisp_rt_nil_object(&mut rt);
    let l2 = native_cons_invoke(&mut rt, Object::from_int(2), nil).unwrap();
    let l12 = native_cons_invoke(&mut rt, Object::from_int(1), l2).unwrap();
    assert_eq!(native_first_invoke(&rt, l12).unwrap(), Object::from_int(1));
    let tail = native_rest_invoke(&mut rt, l12).unwrap();
    assert_eq!(native_first_invoke(&rt, tail).unwrap(), Object::from_int(2));
    let empty = native_rest_invoke(&mut rt, tail).unwrap();
    let e = native_first_invoke(&rt, empty).unwrap_err();
    assert_eq!(rt_error_message(e), "cannot do first on empty list");
    // rest of the empty list is nil again
    let still_nil = native_rest_invoke(&mut rt, empty).unwrap();
    assert!(unlisp_rt_object_is_nil(&rt, still_nil));
    // cons demands a list
    let e = native_cons_invoke(&mut rt, Object::from_int(1), Object::from_int(2)).unwrap_err();
    assert_eq!(rt_error_message(e), "cannot cast int to list");
}

#[test]
fn set_fn_and_symbol_function() {
    let mut rt = Runtime::new();
    init(&mut rt);
    let plus = get_or_intern_symbol(&mut rt, "+");
    let plus_fn = lookup_function(&rt, plus).unwrap();
    let s = get_or_intern_symbol(&mut rt, "my-add");
    let r = native_set_fn_invoke(
        &mut rt,
        Object::from_symbol(s),
        Object::from_function(plus_fn),
    )
    .unwrap();
    assert!(unlisp_rt_object_is_nil(&rt, r));
    let f = native_symbol_fn_invoke(&rt, Object::from_symbol(s)).unwrap();
    assert_eq!(f, Object::from_function(plus_fn));
    // an unbound symbol has no function
    let t = get_or_intern_symbol(&mut rt, "unbound");
    let e = native_symbol_fn_invoke(&rt, Object::from_symbol(t)).unwrap_err();
    assert_eq!(rt_error_message(e), "undefined function unbound");
}

#[test]
fn set_macro_marks_the_descriptor() {
    let mut rt = Runtime::new();
    init(&mut rt);
    let plus = get_or_intern_symbol(&mut rt, "+");
    let plus_fn = lookup_function(&rt, plus).unwrap();
    assert!(!rt.funcs[plus_fn].is_macro);
    let r = native_set_macro_invoke(&mut rt, Object::from_function(plus_fn)).unwrap();
    assert!(unlisp_rt_object_is_nil(&rt, r));
    assert!(rt.funcs[plus_fn].is_macro);
}

#[test]
fn apply_flattens_the_trailing_list() {
    let mut rt = Runtime::new();
    init(&mut rt);
    let plus = get_or_intern_symbol(&mut rt, "+");
    let plus_fn = lookup_function(&rt, plus).unwrap();
    let apply = get_or_intern_symbol(&mut rt, "apply");
    let apply_fn = lookup_function(&rt, apply).unwrap();
    let nil = unlisp_rt_nil_object(&mut rt);
    let l3 = native_cons_invoke(&mut rt, Object::from_int(3), nil).unwrap();
    let l23 = native_cons_invoke(&mut rt, Object::from_int(2), l3).unwrap();
    // (apply + 1 (list 2 3)) == 6
    let args = vec![Object::from_function(plus_fn), Object::from_int(1), l23];
    let r = invoke_function(&mut rt, apply_fn, args, 10_000).unwrap();
    assert_eq!(r, Object::from_int(6));
}

#[test]
fn invoke_checks_arity() {
    let mut rt = Runtime::new();
    init(&mut rt);
    let first = get_or_intern_symbol(&mut rt, "first");
    let first_fn = lookup_function(&rt, first).unwrap();
    let e = invoke_function(&mut rt, first_fn, Vec::new(), 10_000).unwrap_err();
    assert_eq!(
        rt_error_message(e),
        "wrong number of arguments (0) passed to first"
    );
}
