//! Surface forms and the high-level representation the evaluator consumes.
//!
//! The reader produces `Form` trees; lowering turns a form into `HIR`, the
//! shape the closure compiler works on: literals, variable references, calls
//! and lambdas whose free variables have been computed.

use vstd::prelude::*;

use crate::error::SyntaxError;

verus! {

/// An s-expression as the reader yields it.
#[derive(Debug)]
pub enum Form {
    List(Vec<Form>),
    T,
    Symbol(String),
    Integer(i64),
    String(String),
}

/// The mathematical image of a form.
pub enum FormM {
    List(Seq<FormM>),
    T,
    Symbol(Seq<char>),
    Integer(i64),
    String(Seq<char>),
}

pub open spec fn form_views(v: Seq<Form>) -> Seq<FormM>
    decreases v,
{
    if v.len() == 0 {
        Seq::empty()
    } else {
        seq![form_view(v[0])] + form_views(v.drop_first())
    }
}

pub open spec fn form_view(f: Form) -> FormM
    decreases f,
{
    match f {
        Form::List(v) => FormM::List(form_views(v@)),
        Form::T => FormM::T,
        Form::Symbol(s) => FormM::Symbol(s@),
        Form::Integer(i) => FormM::Integer(i),
        Form::String(s) => FormM::String(s@),
    }
}

impl View for Form {
    type V = FormM;

    open spec fn view(&self) -> FormM {
        form_view(*self)
    }
}

/// A lambda as lowering sees it: an optional name, the fixed parameters, an
/// optional rest parameter, and the body.
#[derive(Debug)]
pub struct Lambda {
    pub name: Option<String>,
    pub arglist: Vec<String>,
    pub restarg: Option<String>,
    pub body: Vec<HIR>,
}

/// A closure descriptor: a lambda together with the ordered list of free
/// variables it captures.
#[derive(Debug)]
pub struct Closure {
    pub lambda: Lambda,
    pub free_vars: Vec<String>,
}

/// The high-level representation of an expression.
#[derive(Debug)]
pub enum HIR {
    /// An integer literal.
    IntLiteral(i64),
    /// The empty list, as the reader renders `nil`.
    NilLiteral,
    /// A reference to a lexical variable.
    Var(String),
    /// A call whose head is a symbol: the target is the symbol's function
    /// binding.
    CallGlobal(String, Vec<HIR>),
    /// A call whose head is an expression; the first element evaluates to
    /// the function, the rest are the arguments.
    CallExpr(Vec<HIR>),
    /// A lambda with its captured free variables.
    Lambda(Closure),
}

pub struct LambdaM {
    pub name: Option<Seq<char>>,
    pub arglist: Seq<Seq<char>>,
    pub restarg: Option<Seq<char>>,
    pub body: Seq<HIRM>,
}

pub struct ClosureM {
    pub lambda: LambdaM,
    pub free_vars: Seq<Seq<char>>,
}

/// The mathematical image of an expression.
pub enum HIRM {
    IntLiteral(i64),
    NilLiteral,
    Var(Seq<char>),
    CallGlobal(Seq<char>, Seq<HIRM>),
    CallExpr(Seq<HIRM>),
    Lambda(ClosureM),
}

pub open spec fn names_view(v: Seq<String>) -> Seq<Seq<char>> {
    Seq::new(v.len(), |i: int| v[i]@)
}

pub open spec fn opt_name_view(n: Option<String>) -> Option<Seq<char>> {
    match n {
        Option::None => Option::None,
        Option::Some(s) => Option::Some(s@),
    }
}

pub open spec fn hir_views(v: Seq<HIR>) -> Seq<HIRM>
    decreases v,
{
    if v.len() == 0 {
        Seq::empty()
    } else {
        seq![hir_view(v[0])] + hir_views(v.drop_first())
    }
}

pub open spec fn lambda_view(l: Lambda) -> LambdaM
    decreases l,
{
    LambdaM {
        name: opt_name_view(l.name),
        arglist: names_view(l.arglist@),
        restarg: opt_name_view(l.restarg),
        body: hir_views(l.body@),
    }
}

pub open spec fn closure_view(c: Closure) -> ClosureM
    decreases c,
{
    ClosureM { lambda: lambda_view(c.lambda), free_vars: names_view(c.free_vars@) }
}

pub open spec fn hir_view(h: HIR) -> HIRM
    decreases h,
{
    match h {
        HIR::IntLiteral(i) => HIRM::IntLiteral(i),
        HIR::NilLiteral => HIRM::NilLiteral,
        HIR::Var(s) => HIRM::Var(s@),
        HIR::CallGlobal(s, args) => HIRM::CallGlobal(s@, hir_views(args@)),
        HIR::CallExpr(items) => HIRM::CallExpr(hir_views(items@)),
        HIR::Lambda(c) => HIRM::Lambda(closure_view(c)),
    }
}

impl View for HIR {
    type V = HIRM;

    open spec fn view(&self) -> HIRM {
        hir_view(*self)
    }
}

impl View for Closure {
    type V = ClosureM;

    open spec fn view(&self) -> ClosureM {
        closure_view(*self)
    }
}

impl View for Lambda {
    type V = LambdaM;

    open spec fn view(&self) -> LambdaM {
        lambda_view(*self)
    }
}

/// Copies a list of names; the copy equals the original.
pub fn clone_strings(v: &Vec<String>) -> (r: Vec<String>)
    ensures
        r@ == v@,
{
    let mut r: Vec<String> = Vec::new();
    let mut i: usize = 0;
    while i < v.len()
        invariant
            0 <= i <= v@.len(),
            r@ =~= v@.subrange(0, i as int),
        decreases v@.len() - i,
    {
        r.push(v[i].clone());
        i = i + 1;
    }
    proof {
        assert(r@ =~= v@);
    }
    r
}

/// Copies an optional name; the copy equals the original.
pub fn clone_opt_string(o: &Option<String>) -> (r: Option<String>)
    ensures
        r == o,
{
    match o {
        Option::None => Option::None,
        Option::Some(s) => Option::Some(s.clone()),
    }
}

/// Copies an expression; the copy has the same mathematical image.
pub fn clone_hir(h: &HIR) -> (r: HIR)
    ensures
        r@ == h@,
    decreases h,
{
    match h {
        HIR::IntLiteral(i) => HIR::IntLiteral(*i),
        HIR::NilLiteral => HIR::NilLiteral,
        HIR::Var(s) => HIR::Var(s.clone()),
        HIR::CallGlobal(s, args) => HIR::CallGlobal(s.clone(), clone_hirs(args)),
        HIR::CallExpr(items) => HIR::CallExpr(clone_hirs(items)),
        HIR::Lambda(c) => HIR::Lambda(clone_closure(c)),
    }
}

/// Copies a list of expressions elementwise.
pub fn clone_hirs(v: &Vec<HIR>) -> (r: Vec<HIR>)
    ensures
        r@.len() == v@.len(),
        hir_views(r@) == hir_views(v@),
    decreases v,
{
    let mut r: Vec<HIR> = Vec::new();
    let mut i: usize = 0;
    while i < v.len()
        invariant
            0 <= i <= v@.len(),
            r@.len() == i,
            forall|k: int| 0 <= k < i ==> hir_view(r@[k]) == hir_view(#[trigger] v@[k]),
        decreases v@.len() - i,
    {
        let c = clone_hir(&v[i]);
        r.push(c);
        i = i + 1;
    }
    proof {
        lemma_hir_views(r@);
        lemma_hir_views(v@);
        assert forall|k: int| 0 <= k < v@.len() implies hir_views(r@)[k] == hir_views(v@)[k] by {
            assert(hir_views(r@)[k] == hir_view(r@[k]));
            assert(hir_views(v@)[k] == hir_view(v@[k]));
        }
        assert(hir_views(r@) =~= hir_views(v@));
    }
    r
}

/// Copies a lambda; the copy has the same mathematical image.
pub fn clone_lambda(l: &Lambda) -> (r: Lambda)
    ensures
        r@ == l@,
    decreases l,
{
    let r = Lambda {
        name: clone_opt_string(&l.name),
        arglist: clone_strings(&l.arglist),
        restarg: clone_opt_string(&l.restarg),
        body: clone_hirs(&l.body),
    };
    proof {
        assert(lambda_view(r) == lambda_view(*l));
    }
    r
}

/// Copies a closure descriptor; the copy has the same mathematical image.
pub fn clone_closure(c: &Closure) -> (r: Closure)
    ensures
        r@ == c@,
    decreases c,
{
    let r = Closure { lambda: clone_lambda(&c.lambda), free_vars: clone_strings(&c.free_vars) };
    proof {
        assert(closure_view(r) == closure_view(*c));
    }
    r
}

/// How `form_views` acts elementwise.
pub proof fn lemma_form_views(v: Seq<Form>)
    ensures
        form_views(v).len() == v.len(),
        forall|i: int| 0 <= i < v.len() ==> form_views(v)[i] == form_view(#[trigger] v[i]),
    decreases v.len(),
{
    if v.len() > 0 {
        lemma_form_views(v.drop_first());
        assert forall|i: int| 0 <= i < v.len() implies form_views(v)[i] == form_view(
            #[trigger] v[i],
        ) by {
            if i > 0 {
                assert(v.drop_first()[i - 1] == v[i]);
                assert(form_views(v)[i] == form_views(v.drop_first())[i - 1]);
            }
        }
    }
}

/// How `hir_views` acts elementwise.
pub proof fn lemma_hir_views(v: Seq<HIR>)
    ensures
        hir_views(v).len() == v.len(),
        forall|i: int| 0 <= i < v.len() ==> hir_views(v)[i] == hir_view(#[trigger] v[i]),
    decreases v.len(),
{
    if v.len() > 0 {
        lemma_hir_views(v.drop_first());
        assert forall|i: int| 0 <= i < v.len() implies hir_views(v)[i] == hir_view(
            #[trigger] v[i],
        ) by {
            if i > 0 {
                assert(v.drop_first()[i - 1] == v[i]);
                assert(hir_views(v)[i] == hir_views(v.drop_first())[i - 1]);
            }
        }
    }
}


// ------------------------------------------------------------------
// Lowering: forms to expressions
// ------------------------------------------------------------------

pub open spec fn lambda_args_msg() -> Seq<char> {
    "invalid lambda argument list"@
}

pub open spec fn bad_head_msg() -> Seq<char> {
    "illegal function call"@
}

pub open spec fn t_msg() -> Seq<char> {
    "t is not supported"@
}

pub open spec fn string_msg() -> Seq<char> {
    "string literals are not supported"@
}

/// The count of elements left from `i` in a sequence of length `n`.
pub open spec fn remaining(n: int, i: int) -> int {
    if i < n {
        n - i
    } else {
        0
    }
}

/// Free variables of an expression, collected into `acc` in first-occurrence
/// order: variable references not bound by the enclosing lambda, and the
/// free variables an inner lambda needs from the enclosing scope. Names in
/// function position resolve through the symbol table, not lexically.
pub open spec fn fv_hir(h: HIRM, bound: Seq<Seq<char>>, acc: Seq<Seq<char>>) -> Seq<Seq<char>>
    decreases h, 0int,
{
    match h {
        HIRM::IntLiteral(_) => acc,
        HIRM::NilLiteral => acc,
        HIRM::Var(x) => if bound.contains(x) || acc.contains(x) {
            acc
        } else {
            acc.push(x)
        },
        HIRM::CallGlobal(_, args) => fv_list(args, 0, bound, acc),
        HIRM::CallExpr(items) => fv_list(items, 0, bound, acc),
        HIRM::Lambda(c) => fv_names(c.free_vars, 0, bound, acc),
    }
}

pub open spec fn fv_list(
    items: Seq<HIRM>,
    i: int,
    bound: Seq<Seq<char>>,
    acc: Seq<Seq<char>>,
) -> Seq<Seq<char>>
    decreases items, remaining(items.len() as int, i),
{
    if !(0 <= i < items.len()) {
        acc
    } else {
        fv_list(items, i + 1, bound, fv_hir(items[i], bound, acc))
    }
}

pub open spec fn fv_names(
    names: Seq<Seq<char>>,
    i: int,
    bound: Seq<Seq<char>>,
    acc: Seq<Seq<char>>,
) -> Seq<Seq<char>>
    decreases names, remaining(names.len() as int, i),
{
    if !(0 <= i < names.len()) {
        acc
    } else if bound.contains(names[i]) || acc.contains(names[i]) {
        fv_names(names, i + 1, bound, acc)
    } else {
        fv_names(names, i + 1, bound, acc.push(names[i]))
    }
}

/// A lambda's parameter list: a list of symbols.
pub open spec fn parse_params(items: Seq<FormM>, i: int) -> Result<Seq<Seq<char>>, Seq<char>>
    decreases remaining(items.len() as int, i),
{
    if !(0 <= i < items.len()) {
        Result::Ok(Seq::empty())
    } else {
        match items[i] {
            FormM::Symbol(s) => match parse_params(items, i + 1) {
                Result::Ok(rest) => Result::Ok(seq![s] + rest),
                Result::Err(m) => Result::Err(m),
            },
            _ => Result::Err(lambda_args_msg()),
        }
    }
}

/// Lowering a form to an expression: literals and variables directly;
/// `(lambda (params...) body...)` to a closure whose free variables are
/// computed here; any other list to a call, through the head symbol's
/// function binding or through the head expression.
pub open spec fn form_to_hir_spec(f: FormM) -> Result<HIRM, Seq<char>>
    decreases f,
{
    match f {
        FormM::Integer(i) => Result::Ok(HIRM::IntLiteral(i)),
        FormM::Symbol(s) => Result::Ok(HIRM::Var(s)),
        FormM::T => Result::Err(t_msg()),
        FormM::String(_) => Result::Err(string_msg()),
        FormM::List(items) => {
            if items.len() == 0 {
                Result::Ok(HIRM::NilLiteral)
            } else {
                match items[0] {
                    FormM::Symbol(head) => {
                        if head == "lambda"@ {
                            lower_lambda(items)
                        } else {
                            match lower_forms(items, 1) {
                                Result::Ok(args) => Result::Ok(HIRM::CallGlobal(head, args)),
                                Result::Err(m) => Result::Err(m),
                            }
                        }
                    },
                    FormM::List(_) => match lower_forms(items, 0) {
                        Result::Ok(all) => Result::Ok(HIRM::CallExpr(all)),
                        Result::Err(m) => Result::Err(m),
                    },
                    _ => Result::Err(bad_head_msg()),
                }
            }
        },
    }
}

/// Lowers `items[i..]` elementwise.
pub open spec fn lower_forms(items: Seq<FormM>, i: int) -> Result<Seq<HIRM>, Seq<char>>
    decreases items, remaining(items.len() as int, i),
{
    if !(0 <= i < items.len()) {
        Result::Ok(Seq::empty())
    } else {
        match form_to_hir_spec(items[i]) {
            Result::Err(m) => Result::Err(m),
            Result::Ok(h) => match lower_forms(items, i + 1) {
                Result::Err(m) => Result::Err(m),
                Result::Ok(hs) => Result::Ok(seq![h] + hs),
            },
        }
    }
}

/// Lowers a lambda form: `items[1]` is the parameter list, the rest the
/// body. The free variables are the body's, less the parameters.
pub open spec fn lower_lambda(items: Seq<FormM>) -> Result<HIRM, Seq<char>>
    decreases items, items.len() + 1,
{
    if items.len() < 2 {
        Result::Err(lambda_args_msg())
    } else {
        match items[1] {
            FormM::List(ps) => match parse_params(ps, 0) {
                Result::Err(m) => Result::Err(m),
                Result::Ok(params) => match lower_forms(items, 2) {
                    Result::Err(m) => Result::Err(m),
                    Result::Ok(body) => {
                        let frees = fv_list(body, 0, params, Seq::empty());
                        Result::Ok(
                            HIRM::Lambda(
                                ClosureM {
                                    lambda: LambdaM {
                                        name: Option::None,
                                        arglist: params,
                                        restarg: Option::None,
                                        body,
                                    },
                                    free_vars: frees,
                                },
                            ),
                        )
                    },
                },
            },
            _ => Result::Err(lambda_args_msg()),
        }
    }
}


/// Decides membership of a name in a list of names.
#[verifier::loop_isolation(false)]
pub fn contains_name(v: &Vec<String>, x: &str) -> (r: bool)
    ensures
        r == names_view(v@).contains(x@),
{
    let n = v.len();
    let mut i: usize = 0;
    while i < n
        invariant
            0 <= i <= n,
            forall|k: int| 0 <= k < i ==> names_view(v@)[k] != x@,
        decreases n - i,
    {
        proof {
            assert(names_view(v@)[i as int] == v@[i as int]@);
        }
        if crate::text::str_eql(v[i].as_str(), x) {
            proof {
                assert(names_view(v@)[i as int] == x@);
            }
            return true;
        }
        i = i + 1;
    }
    proof {
        assert(!names_view(v@).contains(x@)) by {
            if names_view(v@).contains(x@) {
                let k = choose|k: int|
                    0 <= k < names_view(v@).len() && names_view(v@)[k] == x@;
                assert(false);
            }
        }
    }
    false
}

/// Collects the free variables of one expression into `acc`.
fn fv_hir_exec(h: &HIR, bound: &Vec<String>, acc: &mut Vec<String>)
    ensures
        names_view(final(acc)@) == fv_hir(hir_view(*h), names_view(bound@), names_view(
            old(acc)@,
        )),
    decreases h, 0int,
{
    match h {
        HIR::IntLiteral(_) => {
        },
        HIR::NilLiteral => {
        },
        HIR::Var(s) => {
            if !contains_name(bound, s.as_str()) && !contains_name(acc, s.as_str()) {
                let ghost before = acc@;
                acc.push(s.clone());
                proof {
                    assert(names_view(acc@) =~= names_view(before).push(s@));
                }
            }
        },
        HIR::CallGlobal(_, args) => {
            proof {
                lemma_hir_views(args@);
            }
            fv_list_exec(args, bound, acc);
        },
        HIR::CallExpr(items) => {
            proof {
                lemma_hir_views(items@);
            }
            fv_list_exec(items, bound, acc);
        },
        HIR::Lambda(c) => {
            fv_names_exec(&c.free_vars, bound, acc);
        },
    }
}

/// Collects the free variables of each expression in turn.
#[verifier::loop_isolation(false)]
fn fv_list_exec(items: &Vec<HIR>, bound: &Vec<String>, acc: &mut Vec<String>)
    ensures
        names_view(final(acc)@) == fv_list(hir_views(items@), 0, names_view(bound@), names_view(
            old(acc)@,
        )),
    decreases items, 1int,
{
    let ghost hm = hir_views(items@);
    let ghost bm = names_view(bound@);
    proof {
        lemma_hir_views(items@);
    }
    let n = items.len();
    let mut i: usize = 0;
    while i < n
        invariant
            0 <= i <= n,
            n == items@.len(),
            fv_list(hm, 0, bm, names_view(old(acc)@)) == fv_list(hm, i as int, bm, names_view(
                acc@,
            )),
        decreases n - i,
    {
        proof {
            assert(hm[i as int] == hir_view(items@[i as int]));
        }
        fv_hir_exec(&items[i], bound, acc);
        i = i + 1;
    }
}

/// Adds the names an inner closure needs from the enclosing scope.
#[verifier::loop_isolation(false)]
fn fv_names_exec(names: &Vec<String>, bound: &Vec<String>, acc: &mut Vec<String>)
    ensures
        names_view(final(acc)@) == fv_names(names_view(names@), 0, names_view(bound@), names_view(
            old(acc)@,
        )),
{
    let ghost nm = names_view(names@);
    let ghost bm = names_view(bound@);
    let n = names.len();
    let mut i: usize = 0;
    while i < n
        invariant
            0 <= i <= n,
            n == names@.len(),
            fv_names(nm, 0, bm, names_view(old(acc)@)) == fv_names(nm, i as int, bm, names_view(
                acc@,
            )),
        decreases n - i,
    {
        proof {
            assert(nm[i as int] == names@[i as int]@);
        }
        if !contains_name(bound, names[i].as_str()) && !contains_name(acc, names[i].as_str()) {
            let ghost before = acc@;
            acc.push(names[i].clone());
            proof {
                assert(names_view(acc@) =~= names_view(before).push(names@[i as int]@));
            }
        }
        i = i + 1;
    }
}

/// Parses a lambda's parameter list: each item must be a symbol.
#[verifier::loop_isolation(false)]
fn parse_params_exec(items: &Vec<Form>) -> (r: Result<Vec<String>, SyntaxError>)
    ensures
        ({
            let spec_r = parse_params(form_views(items@), 0);
            match (r, spec_r) {
                (Result::Ok(v), Result::Ok(ps)) => names_view(v@) == ps,
                (Result::Err(e), Result::Err(m)) => e@ == m,
                _ => false,
            }
        }),
{
    let ghost fm = form_views(items@);
    proof {
        lemma_form_views(items@);
        match parse_params(fm, 0) {
            Result::Ok(ps) => {
                assert(Seq::<Seq<char>>::empty() + ps =~= ps);
            },
            Result::Err(_) => {},
        }
    }
    let mut acc: Vec<String> = Vec::new();
    let n = items.len();
    let mut i: usize = 0;
    proof {
        assert(names_view(acc@) =~= Seq::<Seq<char>>::empty());
    }
    while i < n
        invariant
            0 <= i <= n,
            n == items@.len(),
            parse_params(fm, 0) == (match parse_params(fm, i as int) {
                Result::Ok(ps) => Result::<Seq<Seq<char>>, Seq<char>>::Ok(names_view(acc@) + ps),
                Result::Err(m) => Result::<Seq<Seq<char>>, Seq<char>>::Err(m),
            }),
        decreases n - i,
    {
        proof {
            assert(fm[i as int] == form_view(items@[i as int]));
        }
        match &items[i] {
            Form::Symbol(s) => {
                proof {
                    let ghost before = names_view(acc@);
                    match parse_params(fm, i + 1) {
                        Result::Ok(ps2) => {
                            assert((before.push(s@)) + ps2 =~= before + (seq![s@] + ps2));
                        },
                        Result::Err(_) => {},
                    }
                }
                let ghost before2 = acc@;
                acc.push(s.clone());
                proof {
                    assert(names_view(acc@) =~= names_view(before2).push(s@));
                }
            },
            _ => {
                return Result::Err(SyntaxError::new("invalid lambda argument list"));
            },
        }
        i = i + 1;
    }
    proof {
        assert(names_view(acc@) + Seq::<Seq<char>>::empty() =~= names_view(acc@));
    }
    Result::Ok(acc)
}

/// Lowers a form to an expression; see `form_to_hir_spec`.
pub fn form_to_hir(f: &Form) -> (r: Result<HIR, SyntaxError>)
    ensures
        ({
            let spec_r = form_to_hir_spec(form_view(*f));
            match (r, spec_r) {
                (Result::Ok(h), Result::Ok(hm)) => hir_view(h) == hm,
                (Result::Err(e), Result::Err(m)) => e@ == m,
                _ => false,
            }
        }),
    decreases f, 1int,
{
    match f {
        Form::Integer(i) => Result::Ok(HIR::IntLiteral(*i)),
        Form::Symbol(s) => Result::Ok(HIR::Var(s.clone())),
        Form::T => Result::Err(SyntaxError::new("t is not supported")),
        Form::String(_) => Result::Err(SyntaxError::new("string literals are not supported")),
        Form::List(items) => {
            proof {
                lemma_form_views(items@);
            }
            if items.len() == 0 {
                return Result::Ok(HIR::NilLiteral);
            }
            match &items[0] {
                Form::Symbol(head) => {
                    if crate::text::str_eql(head.as_str(), "lambda") {
                        lower_lambda_exec(items)
                    } else {
                        match lower_forms_exec(items, 1) {
                            Result::Ok(args) => Result::Ok(HIR::CallGlobal(head.clone(), args)),
                            Result::Err(e) => Result::Err(e),
                        }
                    }
                },
                Form::List(_) => match lower_forms_exec(items, 0) {
                    Result::Ok(all) => Result::Ok(HIR::CallExpr(all)),
                    Result::Err(e) => Result::Err(e),
                },
                _ => Result::Err(SyntaxError::new("illegal function call")),
            }
        },
    }
}

/// Lowers a lambda form; see `lower_lambda`.
fn lower_lambda_exec(items: &Vec<Form>) -> (r: Result<HIR, SyntaxError>)
    ensures
        ({
            let spec_r = lower_lambda(form_views(items@));
            match (r, spec_r) {
                (Result::Ok(h), Result::Ok(hm)) => hir_view(h) == hm,
                (Result::Err(e), Result::Err(m)) => e@ == m,
                _ => false,
            }
        }),
    decreases items, items@.len() + 1,
{
    proof {
        lemma_form_views(items@);
    }
    if items.len() < 2 {
        return Result::Err(SyntaxError::new("invalid lambda argument list"));
    }
    let params = match &items[1] {
        Form::List(ps) => match parse_params_exec(ps) {
            Result::Ok(p) => p,
            Result::Err(e) => {
                return Result::Err(e);
            },
        },
        _ => {
            return Result::Err(SyntaxError::new("invalid lambda argument list"));
        },
    };
    let body = match lower_forms_exec(items, 2) {
        Result::Ok(b) => b,
        Result::Err(e) => {
            return Result::Err(e);
        },
    };
    let mut frees: Vec<String> = Vec::new();
    proof {
        assert(names_view(frees@) =~= Seq::<Seq<char>>::empty());
    }
    fv_list_exec(&body, &params, &mut frees);
    let result = HIR::Lambda(
        Closure {
            lambda: Lambda {
                name: Option::None,
                arglist: params,
                restarg: Option::None,
                body,
            },
            free_vars: frees,
        },
    );
    proof {
        match &result {
            HIR::Lambda(c) => {
                assert(hir_view(result) == HIRM::Lambda(closure_view(*c)));
                assert(closure_view(*c) == (ClosureM {
                    lambda: lambda_view(c.lambda),
                    free_vars: names_view(c.free_vars@),
                }));
                assert(lambda_view(c.lambda) == (LambdaM {
                    name: Option::None,
                    arglist: names_view(c.lambda.arglist@),
                    restarg: Option::None,
                    body: hir_views(c.lambda.body@),
                }));
            },
            _ => {},
        }
    }
    Result::Ok(result)
}

/// Lowers `items[start..]` elementwise; see `lower_forms`.
fn lower_forms_exec(items: &Vec<Form>, start: usize) -> (r: Result<Vec<HIR>, SyntaxError>)
    requires
        start <= items@.len(),
    ensures
        ({
            let spec_r = lower_forms(form_views(items@), start as int);
            match (r, spec_r) {
                (Result::Ok(v), Result::Ok(hs)) => hir_views(v@) == hs,
                (Result::Err(e), Result::Err(m)) => e@ == m,
                _ => false,
            }
        }),
    decreases items, remaining(items@.len() as int, start as int),
{
    proof {
        lemma_form_views(items@);
    }
    if start == items.len() {
        return Result::Ok(Vec::new());
    }
    let h = match form_to_hir(&items[start]) {
        Result::Ok(h) => h,
        Result::Err(e) => {
            return Result::Err(e);
        },
    };
    let mut rest = match lower_forms_exec(items, start + 1) {
        Result::Ok(v) => v,
        Result::Err(e) => {
            return Result::Err(e);
        },
    };
    let ghost hm = hir_view(h);
    let ghost restg = rest@;
    let mut v: Vec<HIR> = Vec::new();
    v.push(h);
    v.append(&mut rest);
    proof {
        lemma_hir_views(v@);
        lemma_hir_views(restg);
        assert(v@.drop_first() =~= restg);
        assert(hir_views(v@) == seq![hm] + hir_views(restg));
    }
    Result::Ok(v)
}

} // verus!
