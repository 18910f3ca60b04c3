//! Tests of the tagged-object ABI: packing, unpacking, the nil predicate,
//! the arity check and the display format.

use unlisp::defs::display_string;
use unlisp::defs::unlisp_rt_check_arity;
use unlisp::defs::unlisp_rt_int_from_obj;
use unlisp::defs::unlisp_rt_nil_object;
use unlisp::defs::unlisp_rt_object_from_int;
use unlisp::defs::unlisp_rt_object_is_nil;
use unlisp::defs::FnBody;
use unlisp::defs::Function;
use unlisp::defs::FunctionType;
use unlisp::defs::NativeId;
use unlisp::defs::ObjType;
use unlisp::defs::Object;
use unlisp::defs::Runtime;
use unlisp::predefined::native_cons_invoke;

fn rt_with_fn(arg_count: u64, has_restarg: bool) -> (Runtime, usize) {
    let mut rt = Runtime::new();
    rt.funcs.push(Function {
        ty: FunctionType::Function,
        name: None,
        arglist: Vec::new(),
        arg_count,
        is_macro: false,
        body: FnBody::Native(NativeId::Add),
        has_restarg,
        captured: Vec::new(),
    });
    (rt, 0)
}

#[test]
fn pack_unpack_int_roundtrip() {
    for i in [0i64, 1, -1, 42, i64::MAX, i64::MIN] {
        let o = Object::from_int(i);
        assert_eq!(o.unpack_int().unwrap(), i);
    }
}

#[test]
fn pack_unpack_pointers_roundtrip() {
    let o = Object::from_list(7);
    assert_eq!(o.unpack_list().unwrap(), 7);
    let o = Object::from_symbol(3);
    assert_eq!(o.unpack_symbol().unwrap(), 3);
    let o = Object::from_function(11);
    assert_eq!(o.unpack_function().unwrap(), 11);
}

#[test]
fn unpack_mismatch_raises_cast_error() {
    let o = Object::from_int(1);
    let e = o.unpack_list().unwrap_err();
    assert_eq!(e.message, "cannot cast int to list");
    let e = o.unpack_symbol().unwrap_err();
    assert_eq!(e.message, "cannot cast int to symbol");
    let e = o.unpack_function().unwrap_err();
    assert_eq!(e.message, "cannot cast int to function");
    let o = Object::from_list(0);
    let e = o.unpack_int().unwrap_err();
    assert_eq!(e.message, "cannot cast list to int");
    let o = Object::from_function(0);
    let e = o.unpack_int().unwrap_err();
    assert_eq!(e.message, "cannot cast function to int");
    let o = Object::from_symbol(0);
    let e = o.unpack_int().unwrap_err();
    assert_eq!(e.message, "cannot cast symbol to int");
}

#[test]
fn rt_helpers_pack_and_unpack() {
    let o = unlisp_rt_object_from_int(9);
    assert_eq!(unlisp_rt_int_from_obj(o).unwrap(), 9);
}

#[test]
fn nil_is_nil_and_nothing_else_is() {
    let mut rt = Runtime::new();
    let nil = unlisp_rt_nil_object(&mut rt);
    assert!(unlisp_rt_object_is_nil(&rt, nil));
    assert!(!unlisp_rt_object_is_nil(&rt, Object::from_int(0)));
    // a non-empty list is not nil
    let one = native_cons_invoke(&mut rt, Object::from_int(1), nil).unwrap();
    assert!(!unlisp_rt_object_is_nil(&rt, one));
}

#[test]
fn kind_codes_are_stable() {
    assert_eq!(ObjType::Int64.code(), 1);
    assert_eq!(ObjType::List.code(), 2);
    assert_eq!(ObjType::Symbol.code(), 3);
    assert_eq!(ObjType::Function.code(), 4);
    assert_eq!(FunctionType::Function.code(), 0);
    assert_eq!(FunctionType::Closure.code(), 1);
}

#[test]
fn check_arity_exact() {
    let (rt, f) = rt_with_fn(2, false);
    assert!(!unlisp_rt_check_arity(&rt, f, 0));
    assert!(!unlisp_rt_check_arity(&rt, f, 1));
    assert!(unlisp_rt_check_arity(&rt, f, 2));
    assert!(!unlisp_rt_check_arity(&rt, f, 3));
}

#[test]
fn check_arity_with_restarg() {
    let (rt, f) = rt_with_fn(1, true);
    assert!(!unlisp_rt_check_arity(&rt, f, 0));
    assert!(unlisp_rt_check_arity(&rt, f, 1));
    assert!(unlisp_rt_check_arity(&rt, f, 2));
    assert!(unlisp_rt_check_arity(&rt, f, 9));
}

#[test]
fn display_formats() {
    let mut rt = Runtime::new();
    assert_eq!(display_string(&rt, Object::from_int(6)), "Object[int64, 6]");
    assert_eq!(display_string(&rt, Object::from_int(-45)), "Object[int64, -45]");
    let nil = unlisp_rt_nil_object(&mut rt);
    assert_eq!(display_string(&rt, nil), "Object[list, 0]");
    let one = native_cons_invoke(&mut rt, Object::from_int(5), nil).unwrap();
    assert_eq!(display_string(&rt, one), "Object[list, 1]");
    let (rt2, f) = rt_with_fn(2, false);
    assert_eq!(display_string(&rt2, Object::from_function(f)), "Object[fn, 2]");
    let mut rt3 = Runtime::new();
    let s = unlisp::symbols::get_or_intern_symbol(&mut rt3, "hello");
    assert_eq!(display_string(&rt3, Object::from_symbol(s)), "Object[symbol, hello]");
}

#[test]
fn decimal_rendering() {
    assert_eq!(unlisp::text::u64_to_string(0), "0");
    assert_eq!(unlisp::text::u64_to_string(90217), "90217");
    assert_eq!(unlisp::text::i64_to_string(i64::MIN), "-9223372036854775808");
    assert_eq!(unlisp::text::i64_to_string(i64::MAX), "9223372036854775807");
}
