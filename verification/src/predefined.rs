//! The built-in functions the runtime binds before user code runs, and
//! their registration. Each built-in has a specification over the arena
//! model; the `apply` built-in, which re-enters evaluation, lives with the
//! evaluator.

use vstd::prelude::*;
use vstd::string::StringExecFns;

use crate::defs::alloc_cons;
use crate::defs::alloc_nil;
use crate::defs::eval_result_view;
use crate::defs::lemma_alloc_cons;
use crate::defs::lemma_alloc_nil;
use crate::defs::lemma_extends_trans;
use crate::defs::lemma_push_func;
use crate::defs::lemma_set_macro;
use crate::defs::push_func;
use crate::defs::rt_extends;
use crate::defs::set_macro_rt;
use crate::defs::unpack_function_spec;
use crate::defs::unpack_int_spec;
use crate::defs::unpack_list_spec;
use crate::defs::unpack_symbol_spec;
use crate::defs::clone_function_as_macro;
use crate::defs::FnBody;
use crate::defs::FnBodyM;
use crate::defs::Function;
use crate::defs::FunctionM;
use crate::defs::FunctionType;
use crate::defs::List;
use crate::defs::NativeId;
use crate::defs::Node;
use crate::defs::Object;
use crate::defs::RtM;
use crate::defs::Runtime;
use crate::exceptions::first_empty_msg;
use crate::exceptions::raise_undef_fn_error;
use crate::exceptions::undef_fn_error_msg;
use crate::exceptions::Failure;
use crate::exceptions::FailureM;
use crate::repr::names_view;
use crate::symbols::bind;
use crate::symbols::bind_spec;
use crate::symbols::get_or_intern_symbol;
use crate::symbols::intern_spec;
use crate::symbols::lemma_bind;
use crate::symbols::lemma_intern;

verus! {

/// Folds integer addition over `args[i..]`, wrapping as 64-bit arithmetic
/// does; the first non-integer aborts with its cast error.
pub open spec fn sum_list(args: Seq<Object>, i: int, acc: i64) -> Result<i64, Seq<char>>
    decreases args.len() - i,
{
    if !(0 <= i < args.len()) {
        Result::Ok(acc)
    } else {
        match unpack_int_spec(args[i]) {
            Result::Err(m) => Result::Err(m),
            Result::Ok(x) => sum_list(args, i + 1, vstd::wrapping::i64_specs::wrapping_add(acc, x)),
        }
    }
}

/// What `+` returns: the sum of its integer arguments, zero for none.
pub open spec fn add_result(args: Seq<Object>) -> Result<Object, FailureM> {
    match sum_list(args, 0, 0) {
        Result::Ok(s) => Result::Ok(Object::Int64(s)),
        Result::Err(m) => Result::Err(FailureM::Rt(m)),
    }
}

/// Folds integer subtraction over `args[i..]`.
pub open spec fn sub_list(args: Seq<Object>, i: int, acc: i64) -> Result<i64, Seq<char>>
    decreases args.len() - i,
{
    if !(0 <= i < args.len()) {
        Result::Ok(acc)
    } else {
        match unpack_int_spec(args[i]) {
            Result::Err(m) => Result::Err(m),
            Result::Ok(x) => sub_list(args, i + 1, vstd::wrapping::i64_specs::wrapping_sub(acc, x)),
        }
    }
}

/// What `-` returns: the first argument minus the remaining ones.
pub open spec fn sub_result(args: Seq<Object>) -> Result<Object, FailureM> {
    match unpack_int_spec(args[0]) {
        Result::Err(m) => Result::Err(FailureM::Rt(m)),
        Result::Ok(x) => match sub_list(args, 1, x) {
            Result::Err(m) => Result::Err(FailureM::Rt(m)),
            Result::Ok(v) => Result::Ok(Object::Int64(v)),
        },
    }
}

/// Structural equality of objects: integers by value, lists elementwise,
/// symbols and functions by identity of their records.
pub open spec fn obj_eq_spec(rt: RtM, a: Object, b: Object) -> bool
    decreases (match a {
        Object::List(i) => i as int + 1,
        _ => 0int,
    }),
    when rt.wf() && rt.obj_wf(a) && rt.obj_wf(b)
    via obj_eq_decreases
{
    match (a, b) {
        (Object::Int64(x), Object::Int64(y)) => x == y,
        (Object::Symbol(x), Object::Symbol(y)) => x == y,
        (Object::Function(x), Object::Function(y)) => x == y,
        (Object::List(x), Object::List(y)) => {
            let lx = rt.lists[x as int];
            let ly = rt.lists[y as int];
            if lx.len != ly.len {
                false
            } else {
                match (lx.node, ly.node) {
                    (Option::None, Option::None) => true,
                    (Option::Some(nx), Option::Some(ny)) => obj_eq_spec(
                        rt,
                        rt.nodes[nx].val,
                        rt.nodes[ny].val,
                    ) && obj_eq_spec(
                        rt,
                        Object::List(rt.nodes[nx].next as usize),
                        Object::List(rt.nodes[ny].next as usize),
                    ),
                    _ => false,
                }
            }
        },
        _ => false,
    }
}

#[via_fn]
proof fn obj_eq_decreases(rt: RtM, a: Object, b: Object) {
    if rt.wf() && rt.obj_wf(a) && rt.obj_wf(b) {
        match (a, b) {
            (Object::List(x), Object::List(y)) => {
                assert(rt.list_wf_at(x as int));
                assert(rt.list_wf_at(y as int));
            },
            _ => {},
        }
    }
}

/// Decides structural equality.
pub fn obj_equal(rt: &Runtime, a: Object, b: Object) -> (r: bool)
    requires
        rt@.wf(),
        rt@.obj_wf(a),
        rt@.obj_wf(b),
    ensures
        r == obj_eq_spec(rt@, a, b),
    decreases (match a {
        Object::List(i) => i as int + 1,
        _ => 0int,
    }),
{
    match (a, b) {
        (Object::Int64(x), Object::Int64(y)) => x == y,
        (Object::Symbol(x), Object::Symbol(y)) => x == y,
        (Object::Function(x), Object::Function(y)) => x == y,
        (Object::List(x), Object::List(y)) => {
            proof {
                assert(rt@.list_wf_at(x as int));
                assert(rt@.list_wf_at(y as int));
            }
            let lx = rt.lists[x];
            let ly = rt.lists[y];
            if lx.len != ly.len {
                false
            } else {
                match (lx.node, ly.node) {
                    (Option::None, Option::None) => true,
                    (Option::Some(nx), Option::Some(ny)) => {
                        let vx = rt.nodes[nx].val;
                        let vy = rt.nodes[ny].val;
                        if obj_equal(rt, vx, vy) {
                            obj_equal(
                                rt,
                                Object::List(rt.nodes[nx].next),
                                Object::List(rt.nodes[ny].next),
                            )
                        } else {
                            false
                        }
                    },
                    _ => false,
                }
            }
        },
        _ => false,
    }
}

/// What `+` does to the arena (nothing) and returns.
pub open spec fn add_spec(rt: RtM, args: Seq<Object>) -> (RtM, Result<Object, FailureM>) {
    (rt, add_result(args))
}

/// What `-` does to the arena (nothing) and returns.
pub open spec fn sub_spec(rt: RtM, args: Seq<Object>) -> (RtM, Result<Object, FailureM>) {
    (rt, sub_result(args))
}

/// What `equal` does: the first argument when structurally equal, else a
/// fresh nil.
pub open spec fn equal_spec(rt: RtM, x: Object, y: Object) -> (RtM, Result<Object, FailureM>) {
    if obj_eq_spec(rt, x, y) {
        (rt, Result::Ok(x))
    } else {
        let (rt1, o) = alloc_nil(rt);
        (rt1, Result::Ok(o))
    }
}

/// What `set-fn` does: bind the function to the symbol, return nil.
pub open spec fn set_fn_spec(rt: RtM, sym: Object, func: Object) -> (RtM, Result<
    Object,
    FailureM,
>) {
    match unpack_symbol_spec(sym) {
        Result::Err(m) => (rt, Result::Err(FailureM::Rt(m))),
        Result::Ok(si) => match unpack_function_spec(func) {
            Result::Err(m) => (rt, Result::Err(FailureM::Rt(m))),
            Result::Ok(fi) => {
                let rt1 = bind_spec(rt, si as int, fi as int);
                let (rt2, o) = alloc_nil(rt1);
                (rt2, Result::Ok(o))
            },
        },
    }
}

/// What `symbol-function` returns: the symbol's binding; an undefined
/// function error when the symbol has none.
pub open spec fn symbol_function_result(rt: RtM, sym: Object) -> Result<Object, FailureM> {
    match unpack_symbol_spec(sym) {
        Result::Err(m) => Result::Err(FailureM::Rt(m)),
        Result::Ok(si) => match rt.symbols[si as int].function {
            Option::Some(fi) => Result::Ok(Object::Function(fi as usize)),
            Option::None => Result::Err(
                FailureM::Rt(undef_fn_error_msg(rt.symbols[si as int].name)),
            ),
        },
    }
}

/// What `cons` does: a fresh list with `x` prepended.
pub open spec fn cons_spec(rt: RtM, x: Object, l: Object) -> (RtM, Result<Object, FailureM>) {
    match unpack_list_spec(l) {
        Result::Err(m) => (rt, Result::Err(FailureM::Rt(m))),
        Result::Ok(li) => {
            let (rt1, o) = alloc_cons(rt, x, li as int);
            (rt1, Result::Ok(o))
        },
    }
}

/// What `rest` does: the tail of the list; a fresh nil for the empty list.
pub open spec fn rest_spec(rt: RtM, l: Object) -> (RtM, Result<Object, FailureM>) {
    match unpack_list_spec(l) {
        Result::Err(m) => (rt, Result::Err(FailureM::Rt(m))),
        Result::Ok(li) => {
            let l0 = rt.lists[li as int];
            if l0.len == 0 {
                let (rt1, o) = alloc_nil(rt);
                (rt1, Result::Ok(o))
            } else {
                match l0.node {
                    Option::Some(n) => (
                        rt,
                        Result::Ok(Object::List(rt.nodes[n].next as usize)),
                    ),
                    Option::None => (rt, Result::Ok(Object::List(0))),
                }
            }
        },
    }
}

/// What `first` returns: the head of the list. The empty list has no
/// head; that aborts execution outright, not through the channel.
pub open spec fn first_result(rt: RtM, l: Object) -> Result<Object, FailureM> {
    match unpack_list_spec(l) {
        Result::Err(m) => Result::Err(FailureM::Rt(m)),
        Result::Ok(li) => {
            let l0 = rt.lists[li as int];
            if l0.len == 0 {
                Result::Err(FailureM::Fatal(first_empty_msg()))
            } else {
                match l0.node {
                    Option::Some(n) => Result::Ok(rt.nodes[n].val),
                    Option::None => Result::Ok(Object::Int64(0)),
                }
            }
        },
    }
}

/// What `set-macro` does: mark the descriptor as a macro, return nil.
pub open spec fn set_macro_spec(rt: RtM, f: Object) -> (RtM, Result<Object, FailureM>) {
    match unpack_function_spec(f) {
        Result::Err(m) => (rt, Result::Err(FailureM::Rt(m))),
        Result::Ok(fi) => {
            let rt1 = set_macro_rt(rt, fi as int);
            let (rt2, o) = alloc_nil(rt1);
            (rt2, Result::Ok(o))
        },
    }
}

/// Sums integer arguments; zero for none.
#[verifier::loop_isolation(false)]
pub fn native_add_invoke(args: &Vec<Object>) -> (r: Result<Object, Failure>)
    ensures
        eval_result_view(r) == add_result(args@),
{
    let mut sum: i64 = 0;
    let mut i: usize = 0;
    while i < args.len()
        invariant
            0 <= i <= args@.len(),
            sum_list(args@, 0, 0) == sum_list(args@, i as int, sum),
        decreases args@.len() - i,
    {
        match args[i].unpack_int() {
            Result::Ok(x) => {
                proof {
                    assert(sum_list(args@, i as int, sum) == sum_list(
                        args@,
                        i + 1,
                        vstd::wrapping::i64_specs::wrapping_add(sum, x),
                    ));
                }
                sum = sum.wrapping_add(x);
                i = i + 1;
            },
            Result::Err(e) => {
                return Result::Err(Failure::Rt(e));
            },
        }
    }
    Result::Ok(Object::Int64(sum))
}

/// Subtracts the remaining integer arguments from the first.
#[verifier::loop_isolation(false)]
pub fn native_sub_invoke(args: &Vec<Object>) -> (r: Result<Object, Failure>)
    requires
        args@.len() >= 1,
    ensures
        eval_result_view(r) == sub_result(args@),
{
    let mut acc: i64 = match args[0].unpack_int() {
        Result::Ok(x) => x,
        Result::Err(e) => {
            return Result::Err(Failure::Rt(e));
        },
    };
    let mut i: usize = 1;
    while i < args.len()
        invariant
            1 <= i <= args@.len(),
            sub_list(args@, 1, sub_result_start(args@)) == sub_list(args@, i as int, acc),
            unpack_int_spec(args@[0]) == Result::<i64, Seq<char>>::Ok(sub_result_start(args@)),
        decreases args@.len() - i,
    {
        match args[i].unpack_int() {
            Result::Ok(x) => {
                proof {
                    assert(sub_list(args@, i as int, acc) == sub_list(
                        args@,
                        i + 1,
                        vstd::wrapping::i64_specs::wrapping_sub(acc, x),
                    ));
                }
                acc = acc.wrapping_sub(x);
                i = i + 1;
            },
            Result::Err(e) => {
                return Result::Err(Failure::Rt(e));
            },
        }
    }
    Result::Ok(Object::Int64(acc))
}

/// The value `-` starts from: its first argument as an integer.
spec fn sub_result_start(args: Seq<Object>) -> i64 {
    match unpack_int_spec(args[0]) {
        Result::Ok(x) => x,
        Result::Err(_) => 0,
    }
}

/// `equal`: the first argument if the two are structurally equal, else nil.
pub fn native_equal_invoke(rt: &mut Runtime, x: Object, y: Object) -> (r: Result<Object, Failure>)
    requires
        old(rt)@.wf(),
        old(rt)@.obj_wf(x),
        old(rt)@.obj_wf(y),
    ensures
        final(rt)@.wf(),
        rt_extends(final(rt)@, old(rt)@),
        (final(rt)@, eval_result_view(r)) == equal_spec(old(rt)@, x, y),
{
    if obj_equal(rt, x, y) {
        Result::Ok(x)
    } else {
        proof {
            lemma_alloc_nil(rt@);
        }
        let o = Object::nil(rt);
        Result::Ok(o)
    }
}

/// `set-fn`: binds the function to the symbol and returns nil.
pub fn native_set_fn_invoke(rt: &mut Runtime, sym: Object, func: Object) -> (r: Result<
    Object,
    Failure,
>)
    requires
        old(rt)@.wf(),
        old(rt)@.obj_wf(sym),
        old(rt)@.obj_wf(func),
    ensures
        final(rt)@.wf(),
        rt_extends(final(rt)@, old(rt)@),
        (final(rt)@, eval_result_view(r)) == set_fn_spec(old(rt)@, sym, func),
{
    let si = match sym.unpack_symbol() {
        Result::Ok(si) => si,
        Result::Err(e) => {
            return Result::Err(Failure::Rt(e));
        },
    };
    let fi = match func.unpack_function() {
        Result::Ok(fi) => fi,
        Result::Err(e) => {
            return Result::Err(Failure::Rt(e));
        },
    };
    proof {
        lemma_bind(rt@, si as int, fi as int);
    }
    bind(rt, si, fi);
    let ghost mid = rt@;
    proof {
        lemma_alloc_nil(rt@);
    }
    let o = Object::nil(rt);
    proof {
        lemma_extends_trans(old(rt)@, mid, rt@);
    }
    Result::Ok(o)
}

/// `symbol-function`: the symbol's function binding. A function-tagged
/// object always carries a descriptor, so a symbol without a binding
/// cannot be wrapped as one; an undefined-function error is raised
/// instead.
pub fn native_symbol_fn_invoke(rt: &Runtime, sym: Object) -> (r: Result<Object, Failure>)
    requires
        rt@.wf(),
        rt@.obj_wf(sym),
    ensures
        eval_result_view(r) == symbol_function_result(rt@, sym),
        r matches Result::Ok(o) ==> rt@.obj_wf(o),
{
    let si = match sym.unpack_symbol() {
        Result::Ok(si) => si,
        Result::Err(e) => {
            return Result::Err(Failure::Rt(e));
        },
    };
    proof {
        assert(rt@.sym_wf_at(si as int));
    }
    match rt.symbols[si].function {
        Option::Some(fi) => Result::Ok(Object::Function(fi)),
        Option::None => Result::Err(
            Failure::Rt(raise_undef_fn_error(rt.symbols[si].name.as_str())),
        ),
    }
}

/// `cons`: prepends `x` to the list.
pub fn native_cons_invoke(rt: &mut Runtime, x: Object, l: Object) -> (r: Result<Object, Failure>)
    requires
        old(rt)@.wf(),
        old(rt)@.obj_wf(x),
        old(rt)@.obj_wf(l),
    ensures
        final(rt)@.wf(),
        rt_extends(final(rt)@, old(rt)@),
        (final(rt)@, eval_result_view(r)) == cons_spec(old(rt)@, x, l),
{
    let li = match l.unpack_list() {
        Result::Ok(li) => li,
        Result::Err(e) => {
            return Result::Err(Failure::Rt(e));
        },
    };
    let n = rt.lists.len();
    proof {
        assert(rt@.list_wf_at(li as int));
        lemma_alloc_cons(rt@, x, li as int);
    }
    let len = rt.lists[li].len;
    let ni = rt.nodes.len();
    rt.nodes.push(Node { val: x, next: li });
    rt.lists.push(List { node: Option::Some(ni), len: len + 1 });
    proof {
        let (rt2, o) = alloc_cons(old(rt)@, x, li as int);
        assert(rt@.nodes =~= rt2.nodes);
        assert(rt@.lists =~= rt2.lists);
        assert(rt@.symbols =~= rt2.symbols);
        assert(rt@.funcs =~= rt2.funcs);
        assert(rt@ == rt2);
    }
    Result::Ok(Object::from_list(n))
}

/// `rest`: the tail of the list; nil for the empty list.
pub fn native_rest_invoke(rt: &mut Runtime, l: Object) -> (r: Result<Object, Failure>)
    requires
        old(rt)@.wf(),
        old(rt)@.obj_wf(l),
    ensures
        final(rt)@.wf(),
        rt_extends(final(rt)@, old(rt)@),
        (final(rt)@, eval_result_view(r)) == rest_spec(old(rt)@, l),
        r matches Result::Ok(o) ==> final(rt)@.obj_wf(o),
{
    let li = match l.unpack_list() {
        Result::Ok(li) => li,
        Result::Err(e) => {
            return Result::Err(Failure::Rt(e));
        },
    };
    proof {
        assert(rt@.list_wf_at(li as int));
    }
    if rt.lists[li].len == 0 {
        proof {
            lemma_alloc_nil(rt@);
        }
        let o = Object::nil(rt);
        Result::Ok(o)
    } else {
        match rt.lists[li].node {
            Option::Some(n) => Result::Ok(Object::from_list(rt.nodes[n].next)),
            Option::None => {
                proof {
                    assert(false);
                }
                Result::Ok(Object::from_list(0))
            },
        }
    }
}

/// `first`: the head of the list; the empty list aborts execution
/// outright.
pub fn native_first_invoke(rt: &Runtime, l: Object) -> (r: Result<Object, Failure>)
    requires
        rt@.wf(),
        rt@.obj_wf(l),
    ensures
        eval_result_view(r) == first_result(rt@, l),
        r matches Result::Ok(o) ==> rt@.obj_wf(o),
{
    let li = match l.unpack_list() {
        Result::Ok(li) => li,
        Result::Err(e) => {
            return Result::Err(Failure::Rt(e));
        },
    };
    proof {
        assert(rt@.list_wf_at(li as int));
    }
    if rt.lists[li].len == 0 {
        Result::Err(Failure::Fatal(String::from_str("cannot do first on empty list")))
    } else {
        match rt.lists[li].node {
            Option::Some(n) => Result::Ok(rt.nodes[n].val),
            Option::None => {
                proof {
                    assert(false);
                }
                Result::Ok(Object::from_int(0))
            },
        }
    }
}

/// `set-macro`: marks the function descriptor as a macro and returns nil.
pub fn native_set_macro_invoke(rt: &mut Runtime, f: Object) -> (r: Result<Object, Failure>)
    requires
        old(rt)@.wf(),
        old(rt)@.obj_wf(f),
    ensures
        final(rt)@.wf(),
        rt_extends(final(rt)@, old(rt)@),
        (final(rt)@, eval_result_view(r)) == set_macro_spec(old(rt)@, f),
{
    let fi = match f.unpack_function() {
        Result::Ok(fi) => fi,
        Result::Err(e) => {
            return Result::Err(Failure::Rt(e));
        },
    };
    proof {
        lemma_set_macro(rt@, fi as int);
    }
    let nf = clone_function_as_macro(&rt.funcs[fi]);
    rt.funcs.set(fi, nf);
    let ghost mid = rt@;
    proof {
        assert(rt@.funcs =~= set_macro_rt(old(rt)@, fi as int).funcs);
        assert(rt@.lists =~= old(rt)@.lists);
        assert(rt@.nodes =~= old(rt)@.nodes);
        assert(rt@.symbols =~= old(rt)@.symbols);
        assert(rt@ == set_macro_rt(old(rt)@, fi as int));
        lemma_alloc_nil(rt@);
    }
    let o = Object::nil(rt);
    proof {
        lemma_extends_trans(old(rt)@, mid, rt@);
    }
    Result::Ok(o)
}

/// How registering one built-in changes the arena: intern the name, push
/// the descriptor, bind the symbol to it.
pub open spec fn init_symbol_fn_spec(
    rt: RtM,
    id: NativeId,
    name: Seq<char>,
    arglist: Seq<Seq<char>>,
    vararg: bool,
) -> RtM {
    let (rt1, si) = intern_spec(rt, name);
    let f = FunctionM {
        ty: FunctionType::Function,
        name: Option::Some(name),
        arglist,
        arg_count: arglist.len() as u64,
        is_macro: false,
        body: FnBodyM::Native(id),
        has_restarg: vararg,
        captured: Seq::empty(),
    };
    bind_spec(push_func(rt1, f), si, rt1.funcs.len() as int)
}

pub proof fn lemma_init_symbol_fn(
    rt: RtM,
    id: NativeId,
    name: Seq<char>,
    arglist: Seq<Seq<char>>,
    vararg: bool,
)
    requires
        rt.wf(),
        arglist.len() < 0x1_0000_0000_0000_0000,
    ensures
        ({
            let rt2 = init_symbol_fn_spec(rt, id, name, arglist, vararg);
            &&& rt2.wf()
            &&& rt_extends(rt2, rt)
            &&& rt2.lists == rt.lists
            &&& rt2.nodes == rt.nodes
        }),
{
    lemma_intern(rt, name);
    let (rt1, si) = intern_spec(rt, name);
    let f = FunctionM {
        ty: FunctionType::Function,
        name: Option::Some(name),
        arglist,
        arg_count: arglist.len() as u64,
        is_macro: false,
        body: FnBodyM::Native(id),
        has_restarg: vararg,
        captured: Seq::empty(),
    };
    lemma_push_func(rt1, f);
    let rt2 = push_func(rt1, f);
    lemma_bind(rt2, si, rt1.funcs.len() as int);
    lemma_extends_trans(rt, rt1, rt2);
    lemma_extends_trans(rt, rt2, bind_spec(rt2, si, rt1.funcs.len() as int));
}

/// Registers one built-in: interns the name, materialises the descriptor,
/// and binds the symbol to it.
pub fn init_symbol_fn(
    rt: &mut Runtime,
    id: NativeId,
    name: &str,
    arglist: Vec<String>,
    vararg: bool,
)
    requires
        old(rt)@.wf(),
    ensures
        final(rt)@.wf(),
        rt_extends(final(rt)@, old(rt)@),
        final(rt)@ == init_symbol_fn_spec(
            old(rt)@,
            id,
            name@,
            names_view(arglist@),
            vararg,
        ),
{
    let count = arglist.len() as u64;
    proof {
        assert(names_view(arglist@).len() == arglist@.len());
        assert(arglist@.len() == count as int);
        lemma_init_symbol_fn(old(rt)@, id, name@, names_view(arglist@), vararg);
        lemma_intern(old(rt)@, name@);
    }
    let si = get_or_intern_symbol(rt, name);
    let ghost rt1 = rt@;
    let fi = rt.funcs.len();
    rt.funcs.push(
        Function {
            ty: FunctionType::Function,
            name: Option::Some(String::from_str(name)),
            arglist,
            arg_count: count,
            is_macro: false,
            body: FnBody::Native(id),
            has_restarg: vararg,
            captured: Vec::new(),
        },
    );
    proof {
        let f = FunctionM {
            ty: FunctionType::Function,
            name: Option::Some(name@),
            arglist: names_view(arglist@),
            arg_count: count,
            is_macro: false,
            body: FnBodyM::Native(id),
            has_restarg: vararg,
            captured: Seq::empty(),
        };
        assert(rt@.funcs =~= rt1.funcs.push(f));
        assert(rt@.lists =~= rt1.lists);
        assert(rt@.nodes =~= rt1.nodes);
        assert(rt@.symbols =~= rt1.symbols);
        assert(rt@ == push_func(rt1, f));
        lemma_push_func(rt1, f);
    }
    bind(rt, si, fi);
}

/// How registering every built-in changes the arena.
pub open spec fn init_spec(rt: RtM) -> RtM {
    let r1 = init_symbol_fn_spec(rt, NativeId::Add, "+"@, Seq::empty(), true);
    let r2 = init_symbol_fn_spec(r1, NativeId::Sub, "-"@, seq!["x"@], true);
    let r3 = init_symbol_fn_spec(r2, NativeId::Equal, "equal"@, seq!["x"@, "y"@], false);
    let r4 = init_symbol_fn_spec(r3, NativeId::SetFn, "set-fn"@, seq!["sym"@, "func"@], false);
    let r5 = init_symbol_fn_spec(
        r4,
        NativeId::SymbolFunction,
        "symbol-function"@,
        seq!["sym"@],
        false,
    );
    let r6 = init_symbol_fn_spec(r5, NativeId::Cons, "cons"@, seq!["x"@, "list"@], false);
    let r7 = init_symbol_fn_spec(r6, NativeId::Rest, "rest"@, seq!["list"@], false);
    let r8 = init_symbol_fn_spec(r7, NativeId::First, "first"@, seq!["list"@], false);
    let r9 = init_symbol_fn_spec(r8, NativeId::Apply, "apply"@, seq!["f"@], true);
    init_symbol_fn_spec(r9, NativeId::SetMacro, "set-macro"@, seq!["f"@], false)
}

/// Interns and binds every built-in; run before user code.
pub fn init(rt: &mut Runtime)
    requires
        old(rt)@.wf(),
    ensures
        final(rt)@.wf(),
        rt_extends(final(rt)@, old(rt)@),
        final(rt)@ == init_spec(old(rt)@),
{
    let ghost r0 = rt@;
    let a1: Vec<String> = Vec::new();
    proof {
        assert(names_view(a1@) =~= Seq::<Seq<char>>::empty());
    }
    init_symbol_fn(rt, NativeId::Add, "+", a1, true);
    let ghost r1 = rt@;
    let a2 = vec![String::from_str("x")];
    proof {
        assert(names_view(a2@) =~= seq!["x"@]);
    }
    init_symbol_fn(rt, NativeId::Sub, "-", a2, true);
    let ghost r2 = rt@;
    let a3 = vec![String::from_str("x"), String::from_str("y")];
    proof {
        assert(names_view(a3@) =~= seq!["x"@, "y"@]);
    }
    init_symbol_fn(rt, NativeId::Equal, "equal", a3, false);
    let ghost r3 = rt@;
    let a4 = vec![String::from_str("sym"), String::from_str("func")];
    proof {
        assert(names_view(a4@) =~= seq!["sym"@, "func"@]);
    }
    init_symbol_fn(rt, NativeId::SetFn, "set-fn", a4, false);
    let ghost r4 = rt@;
    let a5 = vec![String::from_str("sym")];
    proof {
        assert(names_view(a5@) =~= seq!["sym"@]);
    }
    init_symbol_fn(rt, NativeId::SymbolFunction, "symbol-function", a5, false);
    let ghost r5 = rt@;
    let a6 = vec![String::from_str("x"), String::from_str("list")];
    proof {
        assert(names_view(a6@) =~= seq!["x"@, "list"@]);
    }
    init_symbol_fn(rt, NativeId::Cons, "cons", a6, false);
    let ghost r6 = rt@;
    let a7 = vec![String::from_str("list")];
    proof {
        assert(names_view(a7@) =~= seq!["list"@]);
    }
    init_symbol_fn(rt, NativeId::Rest, "rest", a7, false);
    let ghost r7 = rt@;
    let a8 = vec![String::from_str("list")];
    proof {
        assert(names_view(a8@) =~= seq!["list"@]);
    }
    init_symbol_fn(rt, NativeId::First, "first", a8, false);
    let ghost r8 = rt@;
    let a9 = vec![String::from_str("f")];
    proof {
        assert(names_view(a9@) =~= seq!["f"@]);
    }
    init_symbol_fn(rt, NativeId::Apply, "apply", a9, true);
    let ghost r9 = rt@;
    let a10 = vec![String::from_str("f")];
    proof {
        assert(names_view(a10@) =~= seq!["f"@]);
    }
    init_symbol_fn(rt, NativeId::SetMacro, "set-macro", a10, false);
    proof {
        lemma_extends_trans(r0, r1, r2);
        lemma_extends_trans(r0, r2, r3);
        lemma_extends_trans(r0, r3, r4);
        lemma_extends_trans(r0, r4, r5);
        lemma_extends_trans(r0, r5, r6);
        lemma_extends_trans(r0, r6, r7);
        lemma_extends_trans(r0, r7, r8);
        lemma_extends_trans(r0, r8, r9);
        lemma_extends_trans(r0, r9, rt@);
    }
}

} // verus!
