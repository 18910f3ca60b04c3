//! The exception channel: runtime helpers abort compiled execution by
//! raising an error that carries a single human-readable message.
//!
//! The channel is modelled by error values that the evaluator threads to
//! the innermost handler, in place of a global long-jump slot; what is
//! observable is the same either way: execution is aborted and exactly one
//! message is delivered.

use vstd::prelude::*;
use vstd::string::StringExecFns;

use crate::defs::rt_extends;
use crate::defs::Object;
use crate::defs::Runtime;
use crate::eval::eval_body_spec;
use crate::eval::eval_hirs;
use crate::repr::hir_views;
use crate::repr::HIR;
use crate::text::dec_str;
use crate::text::u64_to_string;

verus! {

/// An error travelling through the exception channel.
#[derive(Debug, Clone)]
pub struct RtError {
    pub message: String,
}

/// Everything that can abort evaluation.
#[derive(Debug, Clone)]
pub enum Failure {
    /// Raised by a runtime helper through the exception channel.
    Rt(RtError),
    /// A name that is bound neither lexically nor as a function: the code
    /// generator rejects such a reference. The payload is the full message.
    Undefined(String),
    /// A condition that aborts execution outright rather than raising
    /// through the channel.
    Fatal(String),
    /// The evaluation step budget ran out.
    OutOfFuel,
}

/// The mathematical image of a `Failure`.
pub enum FailureM {
    Rt(Seq<char>),
    Undefined(Seq<char>),
    Fatal(Seq<char>),
    OutOfFuel,
}

impl View for Failure {
    type V = FailureM;

    open spec fn view(&self) -> FailureM {
        match self {
            Failure::Rt(e) => FailureM::Rt(e.message@),
            Failure::Undefined(m) => FailureM::Undefined(m@),
            Failure::Fatal(m) => FailureM::Fatal(m@),
            Failure::OutOfFuel => FailureM::OutOfFuel,
        }
    }
}

/// The name a raised arity error reports: anonymous functions answer to
/// "lambda".
pub open spec fn spec_fn_name(name: Option<Seq<char>>) -> Seq<char> {
    match name {
        Option::None => "lambda"@,
        Option::Some(n) => n,
    }
}

pub open spec fn arity_error_msg(name: Option<Seq<char>>, actual: u64) -> Seq<char> {
    "wrong number of arguments ("@ + dec_str(actual as nat) + ") passed to "@ + spec_fn_name(
        name,
    )
}

pub open spec fn undef_fn_error_msg(name: Seq<char>) -> Seq<char> {
    "undefined function "@ + name
}

pub open spec fn cast_error_msg(from: Seq<char>, to: Seq<char>) -> Seq<char> {
    "cannot cast "@ + from + " to "@ + to
}

pub open spec fn undefined_sym_msg(name: Seq<char>) -> Seq<char> {
    "undefined symbol "@ + name
}

pub open spec fn first_empty_msg() -> Seq<char> {
    "cannot do first on empty list"@
}

pub open spec fn empty_call_msg() -> Seq<char> {
    "empty call"@
}

pub open spec fn apply_missing_list_msg() -> Seq<char> {
    "apply expects a trailing argument list"@
}

pub open spec fn fuel_msg() -> Seq<char> {
    "evaluation fuel exhausted"@
}

/// The message the handler delivers for each kind of failure.
pub open spec fn failure_msg(f: FailureM) -> Seq<char> {
    match f {
        FailureM::Rt(m) => m,
        FailureM::Undefined(m) => m,
        FailureM::Fatal(m) => m,
        FailureM::OutOfFuel => fuel_msg(),
    }
}

/// Formats the message for a dynamic call with the wrong number of
/// arguments. The expected count is part of the channel's interface but,
/// as in the message format above, does not appear in the text.
pub fn raise_arity_error(name: Option<&String>, _expected: u64, actual: u64) -> (e: RtError)
    ensures
        e.message@ == arity_error_msg(
            match name {
                Option::None => Option::None,
                Option::Some(n) => Option::Some(n@),
            },
            actual,
        ),
{
    let mut m = String::from_str("wrong number of arguments (");
    let count = u64_to_string(actual);
    m.append(count.as_str());
    m.append(") passed to ");
    match name {
        Option::None => m.append("lambda"),
        Option::Some(n) => m.append(n.as_str()),
    }
    RtError { message: m }
}

/// Formats the message for a call through a symbol with no function binding.
pub fn raise_undef_fn_error(name: &str) -> (e: RtError)
    ensures
        e.message@ == undef_fn_error_msg(name@),
{
    let mut m = String::from_str("undefined function ");
    m.append(name);
    RtError { message: m }
}

/// Formats the message for unpacking a tagged object at the wrong kind.
pub fn raise_cast_error(from: String, to: String) -> (e: RtError)
    ensures
        e.message@ == cast_error_msg(from@, to@),
{
    let mut m = String::from_str("cannot cast ");
    m.append(from.as_str());
    m.append(" to ");
    m.append(to.as_str());
    RtError { message: m }
}

/// The message delivered to the handler for a failure.
pub fn failure_message(f: &Failure) -> (m: String)
    ensures
        m@ == failure_msg(f@),
{
    match f {
        Failure::Rt(e) => e.message.clone(),
        Failure::Undefined(m) => m.clone(),
        Failure::Fatal(m) => m.clone(),
        Failure::OutOfFuel => String::from_str("evaluation fuel exhausted"),
    }
}

/// Runs top-level expressions under the exception handler: a normal
/// return is success; any raise aborts execution and delivers exactly its
/// message as the failure.
pub fn run_with_global_ex_handler(rt: &mut Runtime, hirs: &Vec<HIR>, fuel: u64) -> (r: Result<
    Object,
    String,
>)
    requires
        old(rt)@.wf(),
    ensures
        final(rt)@.wf(),
        rt_extends(final(rt)@, old(rt)@),
        ({
            let (rt2, r2) = eval_body_spec(
                old(rt)@,
                Seq::empty(),
                hir_views(hirs@),
                0,
                fuel as nat,
            );
            final(rt)@ == rt2 && match (r, r2) {
                (Result::Ok(o), Result::Ok(o2)) => o == o2 && final(rt)@.obj_wf(o),
                (Result::Err(m), Result::Err(f)) => m@ == failure_msg(f),
                _ => false,
            }
        }),
{
    match eval_hirs(rt, hirs, fuel) {
        Result::Ok(o) => Result::Ok(o),
        Result::Err(f) => Result::Err(failure_message(&f)),
    }
}


} // verus!
