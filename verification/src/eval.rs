//! The closure compiler and the evaluator.
//!
//! A lambda becomes a heap-allocated function descriptor carrying the
//! captured free variables in its trailing slots; invoking the resulting
//! object re-enters the closure's code through a trampoline that reads the
//! captured slots and hands them, followed by the call's arguments, to the
//! raw body. `eval_spec` and its companions are the functional
//! specification of the whole machine; every executable function here is
//! proved to compute exactly what they say. Evaluation is fuelled: each
//! step spends one unit, and an exhausted budget reports a distinct
//! failure.

use vstd::prelude::*;
use vstd::string::StringExecFns;

use crate::defs::alloc_cons;
use crate::defs::alloc_nil;
use crate::defs::arity_ok;
use crate::defs::copy_objects;
use crate::defs::eval_result_view;
use crate::defs::lemma_alloc_cons;
use crate::defs::lemma_alloc_nil;
use crate::defs::lemma_extends_obj_wf;
use crate::defs::lemma_extends_trans;
use crate::defs::lemma_push_func;
use crate::defs::objs_wf;
use crate::defs::push_func;
use crate::defs::rt_extends;
use crate::defs::unpack_function_spec;
use crate::defs::unpack_list_spec;
use crate::defs::unlisp_rt_check_arity;
use crate::defs::Code;
use crate::defs::CodeM;
use crate::defs::List;
use crate::defs::Node;
use crate::defs::FnBody;
use crate::defs::FnBodyM;
use crate::defs::Function;
use crate::defs::FunctionM;
use crate::defs::FunctionType;
use crate::defs::NativeId;
use crate::defs::Object;
use crate::defs::RtM;
use crate::defs::Runtime;
use crate::exceptions::apply_missing_list_msg;
use crate::exceptions::arity_error_msg;
use crate::exceptions::empty_call_msg;
use crate::exceptions::raise_arity_error;
use crate::exceptions::raise_undef_fn_error;
use crate::exceptions::undef_fn_error_msg;
use crate::exceptions::undefined_sym_msg;
use crate::exceptions::Failure;
use crate::exceptions::FailureM;
use crate::predefined::add_spec;
use crate::predefined::cons_spec;
use crate::predefined::equal_spec;
use crate::predefined::first_result;
use crate::predefined::native_add_invoke;
use crate::predefined::native_cons_invoke;
use crate::predefined::native_equal_invoke;
use crate::predefined::native_first_invoke;
use crate::predefined::native_rest_invoke;
use crate::predefined::native_set_fn_invoke;
use crate::predefined::native_set_macro_invoke;
use crate::predefined::native_sub_invoke;
use crate::predefined::native_symbol_fn_invoke;
use crate::predefined::rest_spec;
use crate::predefined::set_fn_spec;
use crate::predefined::set_macro_spec;
use crate::predefined::sub_spec;
use crate::predefined::symbol_function_result;
use crate::repr::clone_hirs;
use crate::repr::clone_opt_string;
use crate::repr::clone_strings;
use crate::repr::hir_view;
use crate::repr::hir_views;
use crate::repr::lemma_hir_views;
use crate::repr::names_view;
use crate::repr::Closure;
use crate::repr::ClosureM;
use crate::repr::HIRM;
use crate::repr::HIR;
use crate::symbols::get_or_intern_symbol;
use crate::symbols::intern_spec;
use crate::symbols::lookup_function;
use crate::text::str_eql;

verus! {

// ------------------------------------------------------------------
// Lexical environments
// ------------------------------------------------------------------

/// A lexical environment: bindings from names to values, innermost last.
pub type Env = Vec<(String, Object)>;

/// Its mathematical image.
pub type EnvM = Seq<(Seq<char>, Object)>;

pub open spec fn env_view(e: Seq<(String, Object)>) -> EnvM {
    Seq::new(e.len(), |i: int| (e[i].0@, e[i].1))
}

/// The innermost binding of `x`, if any.
pub open spec fn env_lookup(env: EnvM, x: Seq<char>) -> Option<Object>
    decreases env.len(),
{
    if env.len() == 0 {
        Option::None
    } else if env.last().0 == x {
        Option::Some(env.last().1)
    } else {
        env_lookup(env.drop_last(), x)
    }
}

/// Every bound value points into the arena.
pub open spec fn env_wf(rt: RtM, env: EnvM) -> bool {
    forall|i: int| 0 <= i < env.len() ==> rt.obj_wf((#[trigger] env[i]).1)
}

pub proof fn lemma_env_lookup_wf(rt: RtM, env: EnvM, x: Seq<char>)
    requires
        env_wf(rt, env),
    ensures
        match env_lookup(env, x) {
            Option::Some(v) => rt.obj_wf(v),
            Option::None => true,
        },
    decreases env.len(),
{
    if env.len() > 0 && env.last().0 != x {
        assert(env_wf(rt, env.drop_last()));
        lemma_env_lookup_wf(rt, env.drop_last(), x);
    }
}

pub proof fn lemma_env_wf_extends(new: RtM, old: RtM, env: EnvM)
    requires
        rt_extends(new, old),
        env_wf(old, env),
    ensures
        env_wf(new, env),
{
    assert forall|i: int| 0 <= i < env.len() implies new.obj_wf((#[trigger] env[i]).1) by {
        lemma_extends_obj_wf(new, old, env[i].1);
    }
}

/// Looks a name up, innermost binding first.
#[verifier::loop_isolation(false)]
pub fn lookup_env(env: &Env, x: &str) -> (r: Option<Object>)
    ensures
        r == env_lookup(env_view(env@), x@),
{
    let ghost full = env_view(env@);
    let mut i: usize = env.len();
    proof {
        assert(full.take(env@.len() as int) =~= full);
    }
    while i > 0
        invariant
            0 <= i <= env@.len(),
            env_lookup(full, x@) == env_lookup(full.take(i as int), x@),
        decreases i,
    {
        let pair = &env[i - 1];
        proof {
            assert(full.take(i as int).last() == (env@[i - 1].0@, env@[i - 1].1));
        }
        if str_eql(pair.0.as_str(), x) {
            return Option::Some(pair.1);
        }
        proof {
            assert(full.take(i as int).drop_last() =~= full.take(i - 1));
        }
        i = i - 1;
    }
    proof {
        assert(full.take(0) =~= Seq::<(Seq<char>, Object)>::empty());
    }
    Option::None
}

// ------------------------------------------------------------------
// Captures and the descriptor
// ------------------------------------------------------------------

/// The values of the free variables `names[i..]` in `env`, in capture
/// order; the first unbound name is the error.
pub open spec fn captures_spec(env: EnvM, names: Seq<Seq<char>>, i: int) -> Result<
    Seq<Object>,
    Seq<char>,
>
    decreases names.len() - i,
{
    if !(0 <= i < names.len()) {
        Result::Ok(Seq::empty())
    } else {
        match env_lookup(env, names[i]) {
            Option::None => Result::Err(names[i]),
            Option::Some(v) => match captures_spec(env, names, i + 1) {
                Result::Err(m) => Result::Err(m),
                Result::Ok(vs) => Result::Ok(seq![v] + vs),
            },
        }
    }
}

/// Captured values are exactly the creation-time lookups, in order.
pub proof fn lemma_captures_are_lookups(env: EnvM, names: Seq<Seq<char>>, i: int)
    requires
        0 <= i <= names.len(),
    ensures
        match captures_spec(env, names, i) {
            Result::Ok(vs) => vs.len() == names.len() - i && forall|k: int|
                0 <= k < vs.len() ==> env_lookup(env, names[i + k]) == Option::Some(
                    #[trigger] vs[k],
                ),
            Result::Err(_) => true,
        },
    decreases names.len() - i,
{
    if i < names.len() {
        lemma_captures_are_lookups(env, names, i + 1);
    }
}

pub proof fn lemma_captures_wf(rt: RtM, env: EnvM, names: Seq<Seq<char>>, i: int)
    requires
        env_wf(rt, env),
        0 <= i <= names.len(),
    ensures
        match captures_spec(env, names, i) {
            Result::Ok(vs) => objs_wf(rt, vs),
            Result::Err(_) => true,
        },
    decreases names.len() - i,
{
    if i < names.len() {
        lemma_env_lookup_wf(rt, env, names[i]);
        lemma_captures_wf(rt, env, names, i + 1);
    }
}

/// The descriptor a closure materialises to: kind closure, the lambda's
/// name, its parameters, no macro flag, the compiled code, and one slot
/// per captured value.
pub open spec fn closure_descriptor(c: ClosureM, vals: Seq<Object>) -> FunctionM {
    FunctionM {
        ty: FunctionType::Closure,
        name: c.lambda.name,
        arglist: c.lambda.arglist,
        arg_count: c.lambda.arglist.len() as u64,
        is_macro: false,
        body: FnBodyM::Code(
            CodeM {
                params: c.lambda.arglist,
                restarg: c.lambda.restarg,
                free_names: c.free_vars,
                body: c.lambda.body,
            },
        ),
        has_restarg: c.lambda.restarg is Some,
        captured: vals,
    }
}

/// What compiling a closure does: look every free variable up in the
/// current environment, materialise the descriptor, and wrap it as a
/// function object. An unbound free variable is a code-generation error.
pub open spec fn compile_closure_spec(rt: RtM, env: EnvM, c: ClosureM) -> (RtM, Result<
    Object,
    FailureM,
>) {
    match captures_spec(env, c.free_vars, 0) {
        Result::Err(n) => (rt, Result::Err(FailureM::Undefined(undefined_sym_msg(n)))),
        Result::Ok(vals) => (
            push_func(rt, closure_descriptor(c, vals)),
            Result::Ok(Object::Function(rt.funcs.len() as usize)),
        ),
    }
}

/// Closure capture: the new descriptor's slots hold exactly the values the
/// free variables had in the environment when the closure was compiled, in
/// capture order.
pub proof fn lemma_closure_capture(rt: RtM, env: EnvM, c: ClosureM)
    requires
        compile_closure_spec(rt, env, c).1 is Ok,
    ensures
        ({
            let (rt2, r) = compile_closure_spec(rt, env, c);
            let fi = rt.funcs.len() as int;
            &&& r == Result::<Object, FailureM>::Ok(Object::Function(rt.funcs.len() as usize))
            &&& rt2.funcs.len() == rt.funcs.len() + 1
            &&& rt2.funcs[fi].captured.len() == c.free_vars.len()
            &&& forall|k: int|
                0 <= k < c.free_vars.len() ==> env_lookup(env, c.free_vars[k]) == Option::Some(
                    #[trigger] rt2.funcs[fi].captured[k],
                )
        }),
{
    lemma_captures_are_lookups(env, c.free_vars, 0);
}

/// Capture immunity: however the arena and the surrounding environment
/// change after creation, the descriptor's slots keep the creation-time
/// values (descriptors are never rewritten, apart from the macro flag).
pub proof fn lemma_closure_capture_stable(rt: RtM, env: EnvM, c: ClosureM, later: RtM)
    requires
        compile_closure_spec(rt, env, c).1 is Ok,
        rt_extends(later, compile_closure_spec(rt, env, c).0),
    ensures
        ({
            let fi = rt.funcs.len() as int;
            &&& fi < later.funcs.len()
            &&& later.funcs[fi].captured.len() == c.free_vars.len()
            &&& forall|k: int|
                0 <= k < c.free_vars.len() ==> env_lookup(env, c.free_vars[k]) == Option::Some(
                    #[trigger] later.funcs[fi].captured[k],
                )
        }),
{
    lemma_closure_capture(rt, env, c);
    let (rt2, _) = compile_closure_spec(rt, env, c);
    let fi = rt.funcs.len() as int;
    assert(crate::defs::fn_stable(later.funcs[fi], rt2.funcs[fi]));
}

// ------------------------------------------------------------------
// The invocation environment
// ------------------------------------------------------------------

/// Bindings pairing `names` with `vals`, positionwise.
pub open spec fn zip_bindings(names: Seq<Seq<char>>, vals: Seq<Object>) -> EnvM
    decreases names.len(),
{
    if names.len() == 0 || vals.len() == 0 {
        Seq::empty()
    } else {
        seq![(names[0], vals[0])] + zip_bindings(names.drop_first(), vals.drop_first())
    }
}

pub proof fn lemma_zip_props(names: Seq<Seq<char>>, vals: Seq<Object>)
    ensures
        zip_bindings(names, vals).len() == if names.len() <= vals.len() {
            names.len()
        } else {
            vals.len()
        },
        forall|k: int|
            0 <= k < zip_bindings(names, vals).len() ==> #[trigger] zip_bindings(names, vals)[k]
                == (names[k], vals[k]),
    decreases names.len(),
{
    if names.len() > 0 && vals.len() > 0 {
        lemma_zip_props(names.drop_first(), vals.drop_first());
        assert forall|k: int| 0 <= k < zip_bindings(names, vals).len() implies #[trigger] zip_bindings(
            names,
            vals,
        )[k] == (names[k], vals[k]) by {
            if k > 0 {
                assert(zip_bindings(names, vals)[k] == zip_bindings(
                    names.drop_first(),
                    vals.drop_first(),
                )[k - 1]);
                assert(names.drop_first()[k - 1] == names[k]);
                assert(vals.drop_first()[k - 1] == vals[k]);
            }
        }
    }
}

/// The bindings the raw function starts from: the captured values under
/// their names, then the fixed parameters under theirs.
pub open spec fn invoke_env_base(c: CodeM, freevals: Seq<Object>, args: Seq<Object>) -> EnvM {
    zip_bindings(c.free_names, freevals) + zip_bindings(
        c.params,
        args.take(c.params.len() as int),
    )
}

/// Materialises the arguments past the fixed parameters as a list.
pub open spec fn alloc_list_spec(rt: RtM, vals: Seq<Object>) -> (RtM, Object)
    decreases vals.len(),
{
    if vals.len() == 0 {
        alloc_nil(rt)
    } else {
        let (rt1, tail) = alloc_list_spec(rt, vals.drop_first());
        match tail {
            Object::List(ti) => alloc_cons(rt1, vals[0], ti as int),
            _ => (rt1, tail),
        }
    }
}

/// The environment (and any rest-list allocation) the trampoline hands the
/// raw function: a function of the descriptor's code, its captured slots
/// and the call's arguments alone.
pub open spec fn invoke_env_spec(rt: RtM, c: CodeM, freevals: Seq<Object>, args: Seq<Object>) -> (
    RtM,
    EnvM,
) {
    let base = invoke_env_base(c, freevals, args);
    match c.restarg {
        Option::None => (rt, base),
        Option::Some(rname) => {
            let (rt1, o) = alloc_list_spec(rt, args.skip(c.params.len() as int));
            (rt1, base.push((rname, o)))
        },
    }
}

// ------------------------------------------------------------------
// The specification of evaluation
// ------------------------------------------------------------------

/// One native step. A descriptor whose arity does not match the built-in's
/// true shape never arises from `init`, but the specification is total:
/// short argument lists answer zero.
pub open spec fn native_step_spec(rt: RtM, id: NativeId, args: Seq<Object>, fuel: nat) -> (
    RtM,
    Result<Object, FailureM>,
)
    decreases fuel, 1nat,
{
    match id {
        NativeId::Add => add_spec(rt, args),
        NativeId::Sub => if args.len() < 1 {
            (rt, Result::Ok(Object::Int64(0)))
        } else {
            sub_spec(rt, args)
        },
        NativeId::Equal => if args.len() < 2 {
            (rt, Result::Ok(Object::Int64(0)))
        } else {
            equal_spec(rt, args[0], args[1])
        },
        NativeId::SetFn => if args.len() < 2 {
            (rt, Result::Ok(Object::Int64(0)))
        } else {
            set_fn_spec(rt, args[0], args[1])
        },
        NativeId::SymbolFunction => if args.len() < 1 {
            (rt, Result::Ok(Object::Int64(0)))
        } else {
            (rt, symbol_function_result(rt, args[0]))
        },
        NativeId::Cons => if args.len() < 2 {
            (rt, Result::Ok(Object::Int64(0)))
        } else {
            cons_spec(rt, args[0], args[1])
        },
        NativeId::Rest => if args.len() < 1 {
            (rt, Result::Ok(Object::Int64(0)))
        } else {
            rest_spec(rt, args[0])
        },
        NativeId::First => if args.len() < 1 {
            (rt, Result::Ok(Object::Int64(0)))
        } else {
            (rt, first_result(rt, args[0]))
        },
        NativeId::SetMacro => if args.len() < 1 {
            (rt, Result::Ok(Object::Int64(0)))
        } else {
            set_macro_spec(rt, args[0])
        },
        NativeId::Apply => if args.len() < 1 {
            (rt, Result::Ok(Object::Int64(0)))
        } else {
            apply_step_spec(rt, args, fuel)
        },
    }
}

/// What `apply` does: flatten the arguments before the trailing list into
/// that list and invoke the function on the whole.
pub open spec fn apply_step_spec(rt: RtM, args: Seq<Object>, fuel: nat) -> (RtM, Result<
    Object,
    FailureM,
>)
    decreases fuel, 0nat,
{
    if fuel == 0 {
        (rt, Result::Err(FailureM::OutOfFuel))
    } else {
        match unpack_function_spec(args[0]) {
            Result::Err(m) => (rt, Result::Err(FailureM::Rt(m))),
            Result::Ok(fi) => {
                if args.len() < 2 {
                    (rt, Result::Err(FailureM::Fatal(apply_missing_list_msg())))
                } else {
                    match unpack_list_spec(args.last()) {
                        Result::Err(m) => (rt, Result::Err(FailureM::Rt(m))),
                        Result::Ok(li) => {
                            let flat = args.subrange(1, args.len() - 1) + rt.list_seq(li as int);
                            invoke_spec(rt, fi as int, flat, (fuel - 1) as nat)
                        },
                    }
                }
            },
        }
    }
}

/// The raw function: evaluates the body under bindings built from the
/// given capture values and arguments directly.
pub open spec fn raw_call_spec(
    rt: RtM,
    c: CodeM,
    freevals: Seq<Object>,
    args: Seq<Object>,
    fuel: nat,
) -> (RtM, Result<Object, FailureM>)
    decreases fuel, 1nat,
{
    let (rt1, env) = invoke_env_spec(rt, c, freevals, args);
    eval_body_spec(rt1, env, c.body, 0, fuel)
}

/// Invoking a function object: check the arity, then either run the
/// built-in or enter the closure through its trampoline, which reads the
/// captured slots and calls the raw function.
pub open spec fn invoke_spec(rt: RtM, fi: int, args: Seq<Object>, fuel: nat) -> (RtM, Result<
    Object,
    FailureM,
>)
    decreases fuel, 2nat,
{
    if fuel == 0 {
        (rt, Result::Err(FailureM::OutOfFuel))
    } else {
        let f = rt.funcs[fi];
        if !arity_ok(f, args.len() as u64) {
            (rt, Result::Err(FailureM::Rt(arity_error_msg(f.name, args.len() as u64))))
        } else {
            match f.body {
                FnBodyM::Native(id) => native_step_spec(rt, id, args, fuel),
                FnBodyM::Code(c) => raw_call_spec(rt, c, f.captured, args, (fuel - 1) as nat),
            }
        }
    }
}

/// Trampoline transparency: invoking a closure through its descriptor is
/// exactly the raw call on its captured slots followed by the arguments.
pub proof fn lemma_trampoline_transparency(rt: RtM, fi: int, args: Seq<Object>, fuel: nat)
    requires
        fuel > 0,
        arity_ok(rt.funcs[fi], args.len() as u64),
    ensures
        ({
            let f = rt.funcs[fi];
            match f.body {
                FnBodyM::Code(c) => invoke_spec(rt, fi, args, fuel) == raw_call_spec(
                    rt,
                    c,
                    f.captured,
                    args,
                    (fuel - 1) as nat,
                ),
                FnBodyM::Native(_) => true,
            }
        }),
{
}

/// Evaluating one expression.
pub open spec fn eval_spec(rt: RtM, env: EnvM, h: HIRM, fuel: nat) -> (RtM, Result<
    Object,
    FailureM,
>)
    decreases fuel, 0nat,
{
    if fuel == 0 {
        (rt, Result::Err(FailureM::OutOfFuel))
    } else {
        match h {
            HIRM::IntLiteral(i) => (rt, Result::Ok(Object::Int64(i))),
            HIRM::NilLiteral => {
                let (rt1, o) = alloc_nil(rt);
                (rt1, Result::Ok(o))
            },
            HIRM::Var(x) => match env_lookup(env, x) {
                Option::Some(v) => (rt, Result::Ok(v)),
                Option::None => (rt, Result::Err(FailureM::Undefined(undefined_sym_msg(x)))),
            },
            HIRM::Lambda(c) => compile_closure_spec(rt, env, c),
            HIRM::CallGlobal(name, args) => {
                let (rt1, si) = intern_spec(rt, name);
                match rt1.symbols[si].function {
                    Option::None => (rt1, Result::Err(FailureM::Rt(undef_fn_error_msg(name)))),
                    Option::Some(fi) => {
                        let (rt2, r) = eval_list_spec(rt1, env, args, 0, (fuel - 1) as nat);
                        match r {
                            Result::Err(f) => (rt2, Result::Err(f)),
                            Result::Ok(vals) => invoke_spec(rt2, fi, vals, (fuel - 1) as nat),
                        }
                    },
                }
            },
            HIRM::CallExpr(items) => {
                if items.len() == 0 {
                    (rt, Result::Err(FailureM::Fatal(empty_call_msg())))
                } else {
                    let (rt1, rh) = eval_spec(rt, env, items[0], (fuel - 1) as nat);
                    match rh {
                        Result::Err(f) => (rt1, Result::Err(f)),
                        Result::Ok(fo) => match unpack_function_spec(fo) {
                            Result::Err(m) => (rt1, Result::Err(FailureM::Rt(m))),
                            Result::Ok(fi) => {
                                let (rt2, r) = eval_list_spec(
                                    rt1,
                                    env,
                                    items,
                                    1,
                                    (fuel - 1) as nat,
                                );
                                match r {
                                    Result::Err(f) => (rt2, Result::Err(f)),
                                    Result::Ok(vals) => invoke_spec(
                                        rt2,
                                        fi as int,
                                        vals,
                                        (fuel - 1) as nat,
                                    ),
                                }
                            },
                        },
                    }
                }
            },
        }
    }
}

/// Evaluating `items[i..]` left to right, collecting the values.
pub open spec fn eval_list_spec(rt: RtM, env: EnvM, items: Seq<HIRM>, i: int, fuel: nat) -> (
    RtM,
    Result<Seq<Object>, FailureM>,
)
    decreases fuel, 0nat,
{
    if fuel == 0 {
        (rt, Result::Err(FailureM::OutOfFuel))
    } else if i >= items.len() {
        (rt, Result::Ok(Seq::empty()))
    } else {
        let (rt1, r) = eval_spec(rt, env, items[i], (fuel - 1) as nat);
        match r {
            Result::Err(f) => (rt1, Result::Err(f)),
            Result::Ok(v) => {
                let (rt2, r2) = eval_list_spec(rt1, env, items, i + 1, (fuel - 1) as nat);
                match r2 {
                    Result::Err(f) => (rt2, Result::Err(f)),
                    Result::Ok(vs) => (rt2, Result::Ok(seq![v] + vs)),
                }
            },
        }
    }
}

/// Evaluating `body[i..]` in sequence: the value is the last form's; an
/// empty body yields nil.
pub open spec fn eval_body_spec(rt: RtM, env: EnvM, body: Seq<HIRM>, i: int, fuel: nat) -> (
    RtM,
    Result<Object, FailureM>,
)
    decreases fuel, 0nat,
{
    if fuel == 0 {
        (rt, Result::Err(FailureM::OutOfFuel))
    } else if i >= body.len() {
        let (rt1, o) = alloc_nil(rt);
        (rt1, Result::Ok(o))
    } else if i == body.len() - 1 {
        eval_spec(rt, env, body[i], (fuel - 1) as nat)
    } else {
        let (rt1, r) = eval_spec(rt, env, body[i], (fuel - 1) as nat);
        match r {
            Result::Err(f) => (rt1, Result::Err(f)),
            Result::Ok(_) => eval_body_spec(rt1, env, body, i + 1, (fuel - 1) as nat),
        }
    }
}


// ------------------------------------------------------------------
// The executable machine
// ------------------------------------------------------------------

fn undefined_sym_failure(name: &str) -> (f: Failure)
    ensures
        f@ == FailureM::Undefined(undefined_sym_msg(name@)),
{
    let mut m = String::from_str("undefined symbol ");
    m.append(name);
    Failure::Undefined(m)
}

/// Collects the values of the free variables, in capture order.
#[verifier::loop_isolation(false)]
fn capture_free_vars(env: &Env, names: &Vec<String>) -> (r: Result<Vec<Object>, Failure>)
    ensures
        ({
            let spec_r = captures_spec(env_view(env@), names_view(names@), 0);
            match (r, spec_r) {
                (Result::Ok(v), Result::Ok(vs)) => v@ == vs,
                (Result::Err(f), Result::Err(n)) => f@ == FailureM::Undefined(
                    undefined_sym_msg(n),
                ),
                _ => false,
            }
        }),
{
    let ghost envm = env_view(env@);
    let ghost nm = names_view(names@);
    let mut acc: Vec<Object> = Vec::new();
    let mut i: usize = 0;
    proof {
        match captures_spec(envm, nm, 0) {
            Result::Ok(vs) => {
                assert(Seq::<Object>::empty() + vs =~= vs);
            },
            Result::Err(_) => {},
        }
    }
    while i < names.len()
        invariant
            0 <= i <= names@.len(),
            captures_spec(envm, nm, 0) == (match captures_spec(envm, nm, i as int) {
                Result::Ok(vs) => Result::<Seq<Object>, Seq<char>>::Ok(acc@ + vs),
                Result::Err(m) => Result::<Seq<Object>, Seq<char>>::Err(m),
            }),
        decreases names@.len() - i,
    {
        proof {
            assert(nm[i as int] == names@[i as int]@);
        }
        match lookup_env(env, names[i].as_str()) {
            Option::Some(v) => {
                proof {
                    assert(acc@.push(v) =~= acc@ + seq![v]);
                    match captures_spec(envm, nm, i + 1) {
                        Result::Ok(vs2) => {
                            assert((acc@ + seq![v]) + vs2 =~= acc@ + (seq![v] + vs2));
                        },
                        Result::Err(_) => {},
                    }
                }
                acc.push(v);
                i = i + 1;
            },
            Option::None => {
                return Result::Err(undefined_sym_failure(names[i].as_str()));
            },
        }
    }
    proof {
        assert(acc@ + Seq::<Object>::empty() =~= acc@);
    }
    Result::Ok(acc)
}

/// Compiles a closure: captures the free variables, materialises the
/// descriptor with its capture slots, and wraps it as a function object.
pub fn compile_closure(rt: &mut Runtime, env: &Env, closure: &Closure) -> (r: Result<
    Object,
    Failure,
>)
    requires
        old(rt)@.wf(),
        env_wf(old(rt)@, env_view(env@)),
    ensures
        final(rt)@.wf(),
        rt_extends(final(rt)@, old(rt)@),
        (final(rt)@, eval_result_view(r)) == compile_closure_spec(
            old(rt)@,
            env_view(env@),
            closure@,
        ),
        r matches Result::Ok(o) ==> final(rt)@.obj_wf(o),
{
    let captured = match capture_free_vars(env, &closure.free_vars) {
        Result::Ok(v) => v,
        Result::Err(f) => {
            return Result::Err(f);
        },
    };
    proof {
        lemma_captures_wf(rt@, env_view(env@), names_view(closure.free_vars@), 0);
        lemma_captures_are_lookups(env_view(env@), names_view(closure.free_vars@), 0);
    }
    let ghost capm = captured@;
    let fi = rt.funcs.len();
    let count = closure.lambda.arglist.len() as u64;
    let f = Function {
        ty: FunctionType::Closure,
        name: clone_opt_string(&closure.lambda.name),
        arglist: clone_strings(&closure.lambda.arglist),
        arg_count: count,
        is_macro: false,
        body: FnBody::Code(
            Code {
                params: clone_strings(&closure.lambda.arglist),
                restarg: clone_opt_string(&closure.lambda.restarg),
                free_names: clone_strings(&closure.free_vars),
                body: clone_hirs(&closure.lambda.body),
            },
        ),
        has_restarg: closure.lambda.restarg.is_some(),
        captured,
    };
    proof {
        assert(f@ == closure_descriptor(closure@, capm));
        lemma_push_func(rt@, f@);
    }
    rt.funcs.push(f);
    proof {
        assert(rt@.funcs =~= old(rt)@.funcs.push(closure_descriptor(closure@, capm)));
        assert(rt@.lists =~= old(rt)@.lists);
        assert(rt@.nodes =~= old(rt)@.nodes);
        assert(rt@.symbols =~= old(rt)@.symbols);
        assert(rt@ == compile_closure_spec(old(rt)@, env_view(env@), closure@).0);
    }
    Result::Ok(Object::from_function(fi))
}

/// Allocates one cons cell in front of the list at `li`.
fn alloc_cons_exec(rt: &mut Runtime, x: Object, li: usize) -> (o: Object)
    requires
        old(rt)@.wf(),
        old(rt)@.obj_wf(x),
        (li as int) < old(rt)@.lists.len(),
    ensures
        (final(rt)@, o) == alloc_cons(old(rt)@, x, li as int),
        final(rt)@.wf(),
        rt_extends(final(rt)@, old(rt)@),
        final(rt)@.obj_wf(o),
        o is List,
{
    let n = rt.lists.len();
    proof {
        assert(rt@.list_wf_at(li as int));
        lemma_alloc_cons(rt@, x, li as int);
    }
    let len = rt.lists[li].len;
    let ni = rt.nodes.len();
    rt.nodes.push(Node { val: x, next: li });
    rt.lists.push(List { node: Option::Some(ni), len: len + 1 });
    proof {
        let (rt2, o2) = alloc_cons(old(rt)@, x, li as int);
        assert(rt@.nodes =~= rt2.nodes);
        assert(rt@.lists =~= rt2.lists);
        assert(rt@.symbols =~= rt2.symbols);
        assert(rt@.funcs =~= rt2.funcs);
        assert(rt@ == rt2);
    }
    Object::from_list(n)
}

/// Materialises the given values as a fresh list, last cell first.
#[verifier::loop_isolation(false)]
fn alloc_list(rt: &mut Runtime, vals: &Vec<Object>) -> (o: Object)
    requires
        old(rt)@.wf(),
        objs_wf(old(rt)@, vals@),
    ensures
        (final(rt)@, o) == alloc_list_spec(old(rt)@, vals@),
        final(rt)@.wf(),
        rt_extends(final(rt)@, old(rt)@),
        final(rt)@.obj_wf(o),
        o is List,
{
    proof {
        lemma_alloc_nil(rt@);
        assert(vals@.skip(vals@.len() as int) =~= Seq::<Object>::empty());
    }
    let mut o = Object::nil(rt);
    let mut j: usize = vals.len();
    while j > 0
        invariant
            0 <= j <= vals@.len(),
            rt@.wf(),
            rt_extends(rt@, old(rt)@),
            (rt@, o) == alloc_list_spec(old(rt)@, vals@.skip(j as int)),
            rt@.obj_wf(o),
            o is List,
        decreases j,
    {
        j = j - 1;
        let x = vals[j];
        proof {
            assert(old(rt)@.obj_wf(vals@[j as int]));
            lemma_extends_obj_wf(rt@, old(rt)@, x);
            assert(vals@.skip(j as int).drop_first() =~= vals@.skip(j + 1));
            assert(vals@.skip(j as int)[0] == vals@[j as int]);
        }
        let li = match o {
            Object::List(li) => li,
            _ => {
                proof {
                    assert(false);
                }
                0
            },
        };
        let ghost pre = rt@;
        o = alloc_cons_exec(rt, x, li);
        proof {
            lemma_extends_trans(old(rt)@, pre, rt@);
        }
    }
    proof {
        assert(vals@.skip(0) =~= vals@);
    }
    o
}

/// Reads the elements of the list at `li` into a vector.
#[verifier::loop_isolation(false)]
fn list_to_vec(rt: &Runtime, li: usize) -> (v: Vec<Object>)
    requires
        rt@.wf(),
        (li as int) < rt@.lists.len(),
    ensures
        v@ == rt@.list_seq(li as int),
        objs_wf(rt@, v@),
{
    let mut v: Vec<Object> = Vec::new();
    let mut cur = li;
    proof {
        assert(Seq::<Object>::empty() + rt@.list_seq(li as int) =~= rt@.list_seq(li as int));
    }
    while rt.lists[cur].node.is_some()
        invariant
            (cur as int) < rt@.lists.len(),
            rt@.list_seq(li as int) == v@ + rt@.list_seq(cur as int),
            objs_wf(rt@, v@),
        decreases rt@.lists[cur as int].len,
    {
        proof {
            assert(rt@.list_wf_at(cur as int));
        }
        match rt.lists[cur].node {
            Option::Some(n) => {
                let x = rt.nodes[n].val;
                let nxt = rt.nodes[n].next;
                proof {
                    assert(rt@.list_seq(cur as int) == seq![x] + rt@.list_seq(nxt as int));
                    assert((v@ + seq![x]) + rt@.list_seq(nxt as int) =~= v@ + (seq![x]
                        + rt@.list_seq(nxt as int)));
                    assert(v@.push(x) =~= v@ + seq![x]);
                }
                v.push(x);
                cur = nxt;
            },
            Option::None => {
                proof {
                    assert(false);
                }
            },
        }
    }
    proof {
        assert(rt@.list_seq(cur as int) =~= Seq::<Object>::empty());
        assert(v@ + Seq::<Object>::empty() =~= v@);
    }
    v
}

/// Appends `count` bindings pairing `names` with `vals`.
#[verifier::loop_isolation(false)]
fn append_bindings(env: &mut Env, names: &Vec<String>, vals: &Vec<Object>, count: usize)
    requires
        count <= names@.len(),
        count <= vals@.len(),
    ensures
        final(env)@.len() == old(env)@.len() + count,
        forall|k: int| 0 <= k < old(env)@.len() ==> #[trigger] final(env)@[k] == old(env)@[k],
        forall|k: int|
            0 <= k < count ==> (#[trigger] final(env)@[old(env)@.len() + k]).0@ == names@[k]@
                && final(env)@[old(env)@.len() + k].1 == vals@[k],
{
    let mut i: usize = 0;
    while i < count
        invariant
            0 <= i <= count,
            env@.len() == old(env)@.len() + i,
            forall|k: int| 0 <= k < old(env)@.len() ==> #[trigger] env@[k] == old(env)@[k],
            forall|k: int|
                0 <= k < i ==> (#[trigger] env@[old(env)@.len() + k]).0@ == names@[k]@
                    && env@[old(env)@.len() + k].1 == vals@[k],
        decreases count - i,
    {
        env.push((names[i].clone(), vals[i]));
        i = i + 1;
    }
}

/// Invokes the function at `fi` on the given arguments: the arity check,
/// then the built-in or the closure's trampoline.
pub fn invoke_function(rt: &mut Runtime, fi: usize, args: Vec<Object>, fuel: u64) -> (r: Result<
    Object,
    Failure,
>)
    requires
        old(rt)@.wf(),
        (fi as int) < old(rt)@.funcs.len(),
        objs_wf(old(rt)@, args@),
    ensures
        final(rt)@.wf(),
        rt_extends(final(rt)@, old(rt)@),
        (final(rt)@, eval_result_view(r)) == invoke_spec(
            old(rt)@,
            fi as int,
            args@,
            fuel as nat,
        ),
        r matches Result::Ok(o) ==> final(rt)@.obj_wf(o),
    decreases fuel,
{
    if fuel == 0 {
        return Result::Err(Failure::OutOfFuel);
    }
    let n = args.len() as u64;
    if !unlisp_rt_check_arity(rt, fi, n) {
        let e = match &rt.funcs[fi].name {
            Option::Some(s) => raise_arity_error(Option::Some(s), rt.funcs[fi].arg_count, n),
            Option::None => raise_arity_error(Option::None, rt.funcs[fi].arg_count, n),
        };
        return Result::Err(Failure::Rt(e));
    }
    proof {
        assert(rt@.func_wf_at(fi as int));
    }
    let native_id: Option<NativeId> = match &rt.funcs[fi].body {
        FnBody::Native(id) => Option::Some(*id),
        FnBody::Code(_) => Option::None,
    };
    match native_id {
        Option::Some(id) => {
            match id {
                NativeId::Add => native_add_invoke(&args),
                NativeId::Sub => {
                    if args.len() < 1 {
                        Result::Ok(Object::Int64(0))
                    } else {
                        native_sub_invoke(&args)
                    }
                },
                NativeId::Equal => {
                    if args.len() < 2 {
                        Result::Ok(Object::Int64(0))
                    } else {
                        native_equal_invoke(rt, args[0], args[1])
                    }
                },
                NativeId::SetFn => {
                    if args.len() < 2 {
                        Result::Ok(Object::Int64(0))
                    } else {
                        native_set_fn_invoke(rt, args[0], args[1])
                    }
                },
                NativeId::SymbolFunction => {
                    if args.len() < 1 {
                        Result::Ok(Object::Int64(0))
                    } else {
                        native_symbol_fn_invoke(rt, args[0])
                    }
                },
                NativeId::Cons => {
                    if args.len() < 2 {
                        Result::Ok(Object::Int64(0))
                    } else {
                        native_cons_invoke(rt, args[0], args[1])
                    }
                },
                NativeId::Rest => {
                    if args.len() < 1 {
                        Result::Ok(Object::Int64(0))
                    } else {
                        native_rest_invoke(rt, args[0])
                    }
                },
                NativeId::First => {
                    if args.len() < 1 {
                        Result::Ok(Object::Int64(0))
                    } else {
                        native_first_invoke(rt, args[0])
                    }
                },
                NativeId::SetMacro => {
                    if args.len() < 1 {
                        Result::Ok(Object::Int64(0))
                    } else {
                        native_set_macro_invoke(rt, args[0])
                    }
                },
                NativeId::Apply => {
                    if args.len() < 1 {
                        Result::Ok(Object::Int64(0))
                    } else {
                        let fobj = args[0];
                        let fi2 = match fobj.unpack_function() {
                            Result::Ok(f2) => f2,
                            Result::Err(e) => {
                                return Result::Err(Failure::Rt(e));
                            },
                        };
                        if args.len() < 2 {
                            return Result::Err(
                                Failure::Fatal(
                                    String::from_str("apply expects a trailing argument list"),
                                ),
                            );
                        }
                        let last = args[args.len() - 1];
                        let li = match last.unpack_list() {
                            Result::Ok(l) => l,
                            Result::Err(e) => {
                                return Result::Err(Failure::Rt(e));
                            },
                        };
                        proof {
                            assert(old(rt)@.obj_wf(args@[args@.len() - 1]));
                            assert(old(rt)@.obj_wf(args@[0]));
                        }
                        let mut flat: Vec<Object> = Vec::new();
                        let stop = args.len() - 1;
                        let mut j: usize = 1;
                        while j < stop
                            invariant
                                1 <= j <= stop,
                                stop == args@.len() - 1,
                                flat@ =~= args@.subrange(1, j as int),
                            decreases stop - j,
                        {
                            proof {
                                assert(args@.subrange(1, j + 1) =~= args@.subrange(
                                    1,
                                    j as int,
                                ).push(args@[j as int]));
                            }
                            flat.push(args[j]);
                            j = j + 1;
                        }
                        let mut tail = list_to_vec(rt, li);
                        flat.append(&mut tail);
                        proof {
                            assert(flat@ =~= args@.subrange(1, args@.len() - 1) + rt@.list_seq(
                                li as int,
                            ));
                            assert forall|k: int| 0 <= k < flat@.len() implies rt@.obj_wf(
                                #[trigger] flat@[k],
                            ) by {
                                if k < args@.len() - 2 {
                                    assert(flat@[k] == args@[k + 1]);
                                }
                            }
                        }
                        invoke_function(rt, fi2, flat, fuel - 1)
                    }
                },
            }
        },
        Option::None => {
            let cparts = match &rt.funcs[fi].body {
                FnBody::Code(c) => (
                    clone_strings(&c.params),
                    clone_opt_string(&c.restarg),
                    clone_strings(&c.free_names),
                    clone_hirs(&c.body),
                ),
                FnBody::Native(_) => {
                    proof {
                        assert(false);
                    }
                    (Vec::new(), Option::<String>::None, Vec::<String>::new(), Vec::<HIR>::new())
                },
            };
            let params = cparts.0;
            let restarg = cparts.1;
            let free_names = cparts.2;
            let body = cparts.3;
            let captured = copy_objects(&rt.funcs[fi].captured);
            let pc = params.len();
            let fc = free_names.len();
            let ghost cm = (match rt@.funcs[fi as int].body {
                FnBodyM::Code(c) => c,
                FnBodyM::Native(_) => arbitrary(),
            });
            let mut env2: Env = Vec::new();
            append_bindings(&mut env2, &free_names, &captured, fc);
            let ghost env_a = env2@;
            append_bindings(&mut env2, &params, &args, pc);
            proof {
                assert(rt@.funcs[fi as int].body == FnBodyM::Code(cm));
                assert(cm.free_names == names_view(free_names@));
                assert(cm.params == names_view(params@));
                assert(cm.body == hir_views(body@));
                assert(captured@ == rt@.funcs[fi as int].captured);
                assert(cm.free_names.len() == captured@.len());
                assert(cm.params.len() == pc as int);
                lemma_zip_props(cm.free_names, captured@);
                lemma_zip_props(cm.params, args@.take(pc as int));
                assert(args@.take(pc as int).len() == pc as int);
                let base = invoke_env_base(cm, captured@, args@);
                assert(base.len() == fc + pc);
                assert forall|k: int| 0 <= k < env2@.len() implies env_view(env2@)[k]
                    == invoke_env_base(cm, captured@, args@)[k] by {
                    assert(env_view(env2@)[k] == (env2@[k].0@, env2@[k].1));
                    if k < fc {
                        assert(base[k] == zip_bindings(cm.free_names, captured@)[k]);
                        assert(zip_bindings(cm.free_names, captured@)[k] == (
                            cm.free_names[k],
                            captured@[k],
                        ));
                        assert(cm.free_names[k] == free_names@[k]@);
                        assert(env2@[k] == env_a[k]);
                        assert(env_a[0 + k].0@ == free_names@[k]@);
                        assert(env_a[0 + k].1 == captured@[k]);
                    } else {
                        assert(base[k] == zip_bindings(cm.params, args@.take(pc as int))[k
                            - fc]);
                        assert(zip_bindings(cm.params, args@.take(pc as int))[k - fc] == (
                            cm.params[k - fc],
                            args@.take(pc as int)[k - fc],
                        ));
                        assert(cm.params[k - fc] == params@[k - fc]@);
                        assert(args@.take(pc as int)[k - fc] == args@[k - fc]);
                        assert(env_a.len() == fc as int);
                        assert(env2@[env_a.len() + (k - fc)].0@ == params@[k - fc]@);
                        assert(env2@[env_a.len() + (k - fc)].1 == args@[k - fc]);
                    }
                }
                assert(env_view(env2@) =~= invoke_env_base(cm, captured@, args@));
            }
            let ghost base_env = env_view(env2@);
            let ghost rt_mid: RtM;
            match restarg {
                Option::Some(rname) => {
                    let mut restv: Vec<Object> = Vec::new();
                    let total = args.len();
                    let mut j: usize = pc;
                    while j < total
                        invariant
                            pc <= j <= total,
                            total == args@.len(),
                            restv@ =~= args@.subrange(pc as int, j as int),
                        decreases total - j,
                    {
                        proof {
                            assert(args@.subrange(pc as int, j + 1) =~= args@.subrange(
                                pc as int,
                                j as int,
                            ).push(args@[j as int]));
                        }
                        restv.push(args[j]);
                        j = j + 1;
                    }
                    proof {
                        assert(restv@ =~= args@.skip(pc as int));
                        assert(objs_wf(rt@, restv@)) by {
                            assert forall|k: int| 0 <= k < restv@.len() implies rt@.obj_wf(
                                #[trigger] restv@[k],
                            ) by {
                                assert(restv@[k] == args@[pc + k]);
                            }
                        }
                    }
                    let o = alloc_list(rt, &restv);
                    env2.push((rname, o));
                    proof {
                        rt_mid = rt@;
                        assert(env_view(env2@) =~= base_env.push((rname@, o)));
                    }
                },
                Option::None => {
                    proof {
                        rt_mid = rt@;
                    }
                },
            }
            proof {
                assert((rt_mid, env_view(env2@)) == invoke_env_spec(
                    old(rt)@,
                    cm,
                    captured@,
                    args@,
                ));
                assert(env_wf(rt_mid, env_view(env2@)));
            }
            let r = eval_body(rt, &env2, &body, 0, fuel - 1);
            proof {
                lemma_extends_trans(old(rt)@, rt_mid, rt@);
            }
            r
        },
    }
}

/// Evaluates one expression in the given environment.
pub fn eval_hir(rt: &mut Runtime, env: &Env, h: &HIR, fuel: u64) -> (r: Result<Object, Failure>)
    requires
        old(rt)@.wf(),
        env_wf(old(rt)@, env_view(env@)),
    ensures
        final(rt)@.wf(),
        rt_extends(final(rt)@, old(rt)@),
        (final(rt)@, eval_result_view(r)) == eval_spec(
            old(rt)@,
            env_view(env@),
            hir_view(*h),
            fuel as nat,
        ),
        r matches Result::Ok(o) ==> final(rt)@.obj_wf(o),
    decreases fuel,
{
    if fuel == 0 {
        return Result::Err(Failure::OutOfFuel);
    }
    match h {
        HIR::IntLiteral(i) => Result::Ok(Object::from_int(*i)),
        HIR::NilLiteral => {
            proof {
                lemma_alloc_nil(rt@);
            }
            Result::Ok(Object::nil(rt))
        },
        HIR::Var(s) => {
            match lookup_env(env, s.as_str()) {
                Option::Some(v) => {
                    proof {
                        lemma_env_lookup_wf(rt@, env_view(env@), s@);
                    }
                    Result::Ok(v)
                },
                Option::None => Result::Err(undefined_sym_failure(s.as_str())),
            }
        },
        HIR::Lambda(c) => compile_closure(rt, env, c),
        HIR::CallGlobal(name, argexprs) => {
            proof {
                lemma_hir_views(argexprs@);
            }
            let si = get_or_intern_symbol(rt, name.as_str());
            let ghost rt1 = rt@;
            proof {
                lemma_env_wf_extends(rt1, old(rt)@, env_view(env@));
                assert(rt@.sym_wf_at(si as int));
            }
            match lookup_function(rt, si) {
                Option::None => Result::Err(Failure::Rt(raise_undef_fn_error(name.as_str()))),
                Option::Some(f2) => {
                    let vals = match eval_list(rt, env, argexprs, 0, fuel - 1) {
                        Result::Ok(v) => v,
                        Result::Err(e) => {
                            proof {
                                lemma_extends_trans(old(rt)@, rt1, rt@);
                            }
                            return Result::Err(e);
                        },
                    };
                    let ghost rt2 = rt@;
                    let r = invoke_function(rt, f2, vals, fuel - 1);
                    proof {
                        lemma_extends_trans(rt1, rt2, rt@);
                        lemma_extends_trans(old(rt)@, rt1, rt@);
                    }
                    r
                },
            }
        },
        HIR::CallExpr(items) => {
            proof {
                lemma_hir_views(items@);
            }
            if items.len() == 0 {
                return Result::Err(Failure::Fatal(String::from_str("empty call")));
            }
            let head = match eval_hir(rt, env, &items[0], fuel - 1) {
                Result::Ok(v) => v,
                Result::Err(e) => {
                    return Result::Err(e);
                },
            };
            let ghost rt1 = rt@;
            let f2 = match head.unpack_function() {
                Result::Ok(f2) => f2,
                Result::Err(e) => {
                    return Result::Err(Failure::Rt(e));
                },
            };
            proof {
                lemma_env_wf_extends(rt1, old(rt)@, env_view(env@));
            }
            let vals = match eval_list(rt, env, items, 1, fuel - 1) {
                Result::Ok(v) => v,
                Result::Err(e) => {
                    proof {
                        lemma_extends_trans(old(rt)@, rt1, rt@);
                    }
                    return Result::Err(e);
                },
            };
            let ghost rt2 = rt@;
            let r = invoke_function(rt, f2, vals, fuel - 1);
            proof {
                lemma_extends_trans(rt1, rt2, rt@);
                lemma_extends_trans(old(rt)@, rt1, rt@);
            }
            r
        },
    }
}

/// Evaluates `items[start..]`, collecting the values left to right.
pub fn eval_list(rt: &mut Runtime, env: &Env, items: &Vec<HIR>, start: usize, fuel: u64) -> (r:
    Result<Vec<Object>, Failure>)
    requires
        old(rt)@.wf(),
        env_wf(old(rt)@, env_view(env@)),
        start <= items@.len(),
    ensures
        final(rt)@.wf(),
        rt_extends(final(rt)@, old(rt)@),
        ({
            let (rt2, r2) = eval_list_spec(
                old(rt)@,
                env_view(env@),
                hir_views(items@),
                start as int,
                fuel as nat,
            );
            final(rt)@ == rt2 && match (r, r2) {
                (Result::Ok(v), Result::Ok(vs)) => v@ == vs && objs_wf(final(rt)@, v@),
                (Result::Err(f), Result::Err(fm)) => f@ == fm,
                _ => false,
            }
        }),
    decreases fuel,
{
    if fuel == 0 {
        return Result::Err(Failure::OutOfFuel);
    }
    proof {
        lemma_hir_views(items@);
    }
    if start == items.len() {
        return Result::Ok(Vec::new());
    }
    let v0 = match eval_hir(rt, env, &items[start], fuel - 1) {
        Result::Ok(v) => v,
        Result::Err(e) => {
            return Result::Err(e);
        },
    };
    let ghost mid = rt@;
    proof {
        lemma_env_wf_extends(mid, old(rt)@, env_view(env@));
    }
    let mut rest = match eval_list(rt, env, items, start + 1, fuel - 1) {
        Result::Ok(v) => v,
        Result::Err(e) => {
            proof {
                lemma_extends_trans(old(rt)@, mid, rt@);
            }
            return Result::Err(e);
        },
    };
    proof {
        lemma_extends_trans(old(rt)@, mid, rt@);
        lemma_extends_obj_wf(rt@, mid, v0);
    }
    let ghost restg = rest@;
    let mut v: Vec<Object> = Vec::new();
    v.push(v0);
    v.append(&mut rest);
    proof {
        assert(v@ =~= seq![v0] + restg);
    }
    Result::Ok(v)
}

/// Evaluates `body[start..]` in sequence; the last value is the result,
/// and an empty body yields nil.
pub fn eval_body(rt: &mut Runtime, env: &Env, body: &Vec<HIR>, start: usize, fuel: u64) -> (r:
    Result<Object, Failure>)
    requires
        old(rt)@.wf(),
        env_wf(old(rt)@, env_view(env@)),
        start <= body@.len(),
    ensures
        final(rt)@.wf(),
        rt_extends(final(rt)@, old(rt)@),
        (final(rt)@, eval_result_view(r)) == eval_body_spec(
            old(rt)@,
            env_view(env@),
            hir_views(body@),
            start as int,
            fuel as nat,
        ),
        r matches Result::Ok(o) ==> final(rt)@.obj_wf(o),
    decreases fuel,
{
    if fuel == 0 {
        return Result::Err(Failure::OutOfFuel);
    }
    proof {
        lemma_hir_views(body@);
    }
    if start == body.len() {
        proof {
            lemma_alloc_nil(rt@);
        }
        let o = Object::nil(rt);
        return Result::Ok(o);
    }
    if start + 1 == body.len() {
        return eval_hir(rt, env, &body[start], fuel - 1);
    }
    match eval_hir(rt, env, &body[start], fuel - 1) {
        Result::Ok(_) => {},
        Result::Err(e) => {
            return Result::Err(e);
        },
    }
    let ghost mid = rt@;
    proof {
        lemma_env_wf_extends(mid, old(rt)@, env_view(env@));
    }
    let r = eval_body(rt, env, body, start + 1, fuel - 1);
    proof {
        lemma_extends_trans(old(rt)@, mid, rt@);
    }
    r
}

/// Evaluates a sequence of top-level expressions; the last value is the
/// result.
pub fn eval_hirs(rt: &mut Runtime, hirs: &Vec<HIR>, fuel: u64) -> (r: Result<Object, Failure>)
    requires
        old(rt)@.wf(),
    ensures
        final(rt)@.wf(),
        rt_extends(final(rt)@, old(rt)@),
        (final(rt)@, eval_result_view(r)) == eval_body_spec(
            old(rt)@,
            Seq::empty(),
            hir_views(hirs@),
            0,
            fuel as nat,
        ),
        r matches Result::Ok(o) ==> final(rt)@.obj_wf(o),
{
    let env: Env = Vec::new();
    proof {
        assert(env_view(env@) =~= Seq::<(Seq<char>, Object)>::empty());
    }
    eval_body(rt, &env, hirs, 0, fuel)
}

} // verus!
