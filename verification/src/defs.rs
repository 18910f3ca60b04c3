//! The runtime object model: tagged objects, list cells, symbol records and
//! function descriptors.
//!
//! Compiled code and the runtime helpers agree on these structures as a
//! fixed ABI. Here the heap is a `Runtime` arena and a pointer is an
//! index into it, so every helper can be verified. `RtM` is the
//! mathematical image of the arena, `RtM::wf` its invariant, and
//! `rt_extends` says how the arena may grow: cells are never resized or
//! reclaimed, so indices stay valid for the process lifetime.

use vstd::prelude::*;
use vstd::string::StringExecFns;

use crate::exceptions::cast_error_msg;
use crate::exceptions::raise_cast_error;
use crate::exceptions::Failure;
use crate::exceptions::FailureM;
use crate::exceptions::RtError;
use crate::repr::clone_hirs;
use crate::repr::clone_opt_string;
use crate::repr::clone_strings;
use crate::repr::hir_views;
use crate::repr::names_view;
use crate::repr::opt_name_view;
use crate::repr::HIRM;
use crate::repr::HIR;
use crate::text::dec_str_signed;
use crate::text::dec_str;
use crate::text::i64_to_string;
use crate::text::u64_to_string;

verus! {

/// The kind discriminator of a tagged object.
#[derive(Clone, Copy, Debug, PartialEq, Eq, Structural)]
pub enum ObjType {
    Int64,
    List,
    Symbol,
    Function,
}

impl ObjType {
    /// The stable small integer of the ABI for each kind.
    pub open spec fn code_spec(self) -> u32 {
        match self {
            ObjType::Int64 => 1,
            ObjType::List => 2,
            ObjType::Symbol => 3,
            ObjType::Function => 4,
        }
    }

    pub fn code(&self) -> (c: u32)
        ensures
            c == self.code_spec(),
    {
        match self {
            ObjType::Int64 => 1,
            ObjType::List => 2,
            ObjType::Symbol => 3,
            ObjType::Function => 4,
        }
    }

    /// The kind's name as error messages print it.
    pub open spec fn name_spec(self) -> Seq<char> {
        match self {
            ObjType::Int64 => "int"@,
            ObjType::List => "list"@,
            ObjType::Symbol => "symbol"@,
            ObjType::Function => "function"@,
        }
    }

    pub fn name(&self) -> (n: &'static str)
        ensures
            n@ == self.name_spec(),
    {
        match self {
            ObjType::Int64 => "int",
            ObjType::List => "list",
            ObjType::Symbol => "symbol",
            ObjType::Function => "function",
        }
    }
}

/// The kind of a function descriptor: a plain function or a closure.
#[derive(Clone, Copy, Debug, PartialEq, Eq, Structural)]
pub enum FunctionType {
    Function,
    Closure,
}

impl FunctionType {
    /// The stable small integer of the ABI for each kind.
    pub open spec fn code_spec(self) -> u32 {
        match self {
            FunctionType::Function => 0,
            FunctionType::Closure => 1,
        }
    }

    pub fn code(&self) -> (c: u32)
        ensures
            c == self.code_spec(),
    {
        match self {
            FunctionType::Function => 0,
            FunctionType::Closure => 1,
        }
    }
}

/// A tagged object: a kind discriminator and the payload for that kind.
/// A payload that refers to the heap is an index into the arena.
#[derive(Clone, Copy, Debug, PartialEq, Eq, Structural)]
pub enum Object {
    Int64(i64),
    List(usize),
    Symbol(usize),
    Function(usize),
}

/// A node of a list: the element and the list holding the remaining
/// elements.
#[derive(Clone, Copy, Debug)]
pub struct Node {
    pub val: Object,
    pub next: usize,
}

/// A list cell: its first node, if any, and its length.
#[derive(Clone, Copy, Debug)]
pub struct List {
    pub node: Option<usize>,
    pub len: u64,
}

/// A symbol record: the interned name and the function binding.
#[derive(Debug)]
pub struct Symbol {
    pub name: String,
    pub function: Option<usize>,
}

impl Symbol {
    pub fn new(name: String) -> (s: Symbol)
        ensures
            s.name@ == name@,
            s.function is None,
    {
        Symbol { name, function: Option::None }
    }
}

/// The built-in functions the runtime provides.
#[derive(Clone, Copy, Debug, PartialEq, Eq, Structural)]
pub enum NativeId {
    Add,
    Sub,
    Equal,
    SetFn,
    SymbolFunction,
    Cons,
    Rest,
    First,
    Apply,
    SetMacro,
}

/// The compiled form of a closure: what the raw function needs to run.
#[derive(Debug)]
pub struct Code {
    /// The fixed parameter names, in order.
    pub params: Vec<String>,
    /// The rest parameter's name, if the lambda has one.
    pub restarg: Option<String>,
    /// The captured variables' names, in capture order.
    pub free_names: Vec<String>,
    /// The body, evaluated under captures and parameters.
    pub body: Vec<HIR>,
}

/// What a descriptor's invoke and apply entries run: a host built-in, or
/// compiled closure code.
#[derive(Debug)]
pub enum FnBody {
    Native(NativeId),
    Code(Code),
}

/// A function descriptor. The fields mirror the ABI layout: kind, name,
/// parameter names, parameter count, macro flag, the code the entry points
/// run, the rest-parameter flag, and one slot per captured variable.
#[derive(Debug)]
pub struct Function {
    pub ty: FunctionType,
    pub name: Option<String>,
    pub arglist: Vec<String>,
    pub arg_count: u64,
    pub is_macro: bool,
    pub body: FnBody,
    pub has_restarg: bool,
    pub captured: Vec<Object>,
}

/// The arena: every list cell, node, symbol record and function descriptor
/// of the process.
#[derive(Debug)]
pub struct Runtime {
    pub lists: Vec<List>,
    pub nodes: Vec<Node>,
    pub symbols: Vec<Symbol>,
    pub funcs: Vec<Function>,
}

pub struct NodeM {
    pub val: Object,
    pub next: int,
}

pub struct ListM {
    pub node: Option<int>,
    pub len: u64,
}

pub struct SymbolM {
    pub name: Seq<char>,
    pub function: Option<int>,
}

pub struct CodeM {
    pub params: Seq<Seq<char>>,
    pub restarg: Option<Seq<char>>,
    pub free_names: Seq<Seq<char>>,
    pub body: Seq<HIRM>,
}

pub enum FnBodyM {
    Native(NativeId),
    Code(CodeM),
}

pub struct FunctionM {
    pub ty: FunctionType,
    pub name: Option<Seq<char>>,
    pub arglist: Seq<Seq<char>>,
    pub arg_count: u64,
    pub is_macro: bool,
    pub body: FnBodyM,
    pub has_restarg: bool,
    pub captured: Seq<Object>,
}

/// The mathematical image of the arena.
pub struct RtM {
    pub lists: Seq<ListM>,
    pub nodes: Seq<NodeM>,
    pub symbols: Seq<SymbolM>,
    pub funcs: Seq<FunctionM>,
}

impl View for Node {
    type V = NodeM;

    open spec fn view(&self) -> NodeM {
        NodeM { val: self.val, next: self.next as int }
    }
}

impl View for List {
    type V = ListM;

    open spec fn view(&self) -> ListM {
        ListM {
            node: match self.node {
                Option::None => Option::None,
                Option::Some(n) => Option::Some(n as int),
            },
            len: self.len,
        }
    }
}

impl View for Symbol {
    type V = SymbolM;

    open spec fn view(&self) -> SymbolM {
        SymbolM {
            name: self.name@,
            function: match self.function {
                Option::None => Option::None,
                Option::Some(f) => Option::Some(f as int),
            },
        }
    }
}

impl View for Code {
    type V = CodeM;

    open spec fn view(&self) -> CodeM {
        CodeM {
            params: names_view(self.params@),
            restarg: opt_name_view(self.restarg),
            free_names: names_view(self.free_names@),
            body: hir_views(self.body@),
        }
    }
}

impl View for FnBody {
    type V = FnBodyM;

    open spec fn view(&self) -> FnBodyM {
        match self {
            FnBody::Native(id) => FnBodyM::Native(*id),
            FnBody::Code(c) => FnBodyM::Code(c@),
        }
    }
}

impl View for Function {
    type V = FunctionM;

    open spec fn view(&self) -> FunctionM {
        FunctionM {
            ty: self.ty,
            name: opt_name_view(self.name),
            arglist: names_view(self.arglist@),
            arg_count: self.arg_count,
            is_macro: self.is_macro,
            body: self.body@,
            has_restarg: self.has_restarg,
            captured: self.captured@,
        }
    }
}

impl View for Runtime {
    type V = RtM;

    open spec fn view(&self) -> RtM {
        RtM {
            lists: Seq::new(self.lists@.len(), |i: int| self.lists@[i]@),
            nodes: Seq::new(self.nodes@.len(), |i: int| self.nodes@[i]@),
            symbols: Seq::new(self.symbols@.len(), |i: int| self.symbols@[i]@),
            funcs: Seq::new(self.funcs@.len(), |i: int| self.funcs@[i]@),
        }
    }
}

impl Object {
    /// The kind of a tagged object.
    pub open spec fn ty_spec(self) -> ObjType {
        match self {
            Object::Int64(_) => ObjType::Int64,
            Object::List(_) => ObjType::List,
            Object::Symbol(_) => ObjType::Symbol,
            Object::Function(_) => ObjType::Function,
        }
    }

    pub fn ty(&self) -> (t: ObjType)
        ensures
            t == self.ty_spec(),
    {
        match self {
            Object::Int64(_) => ObjType::Int64,
            Object::List(_) => ObjType::List,
            Object::Symbol(_) => ObjType::Symbol,
            Object::Function(_) => ObjType::Function,
        }
    }
}

impl RtM {
    /// Every index a tagged object carries points into the arena.
    pub open spec fn obj_wf(self, o: Object) -> bool {
        match o {
            Object::Int64(_) => true,
            Object::List(i) => (i as int) < self.lists.len(),
            Object::Symbol(i) => (i as int) < self.symbols.len(),
            Object::Function(i) => (i as int) < self.funcs.len(),
        }
    }

    /// The invariant of the list cell at index `i`. A cell's node and next
    /// cell were allocated before the cell itself, which makes the reachable
    /// data acyclic, and the length counts the chain.
    pub open spec fn list_wf_at(self, i: int) -> bool {
        let l = self.lists[i];
        &&& (l.len as int) < self.lists.len()
        &&& match l.node {
            Option::None => l.len == 0,
            Option::Some(n) => {
                &&& l.len >= 1
                &&& 0 <= n < self.nodes.len()
                &&& self.obj_wf(self.nodes[n].val)
                &&& (match self.nodes[n].val {
                    Object::List(j) => (j as int) < i,
                    _ => true,
                })
                &&& 0 <= self.nodes[n].next < i
                &&& self.lists[self.nodes[n].next].len == l.len - 1
            },
        }
    }

    /// The invariant of the function descriptor at index `i`.
    pub open spec fn func_wf_at(self, i: int) -> bool {
        let f = self.funcs[i];
        &&& f.arg_count == f.arglist.len()
        &&& forall|k: int| 0 <= k < f.captured.len() ==> self.obj_wf(#[trigger] f.captured[k])
        &&& match f.body {
            FnBodyM::Native(_) => f.captured.len() == 0 && f.ty == FunctionType::Function,
            FnBodyM::Code(c) => {
                &&& f.ty == FunctionType::Closure
                &&& c.params == f.arglist
                &&& c.free_names.len() == f.captured.len()
                &&& f.has_restarg == (c.restarg is Some)
            },
        }
    }

    /// The invariant of the symbol record at index `i`.
    pub open spec fn sym_wf_at(self, i: int) -> bool {
        match self.symbols[i].function {
            Option::None => true,
            Option::Some(f) => 0 <= f < self.funcs.len(),
        }
    }

    /// Symbol records are unique per name.
    pub open spec fn syms_unique(self) -> bool {
        forall|i: int, j: int|
            0 <= i < j < self.symbols.len() ==> #[trigger] self.symbols[i].name != #[trigger] self.symbols[j].name
    }

    /// The arena invariant.
    pub open spec fn wf(self) -> bool {
        &&& forall|i: int| 0 <= i < self.lists.len() ==> #[trigger] self.list_wf_at(i)
        &&& forall|i: int| 0 <= i < self.funcs.len() ==> #[trigger] self.func_wf_at(i)
        &&& forall|i: int| 0 <= i < self.symbols.len() ==> #[trigger] self.sym_wf_at(i)
        &&& self.syms_unique()
    }

    /// The elements of the list at index `li`, first to last.
    pub open spec fn list_seq(self, li: int) -> Seq<Object>
        decreases li,
        when self.wf() && 0 <= li < self.lists.len()
        via Self::list_seq_decreases
    {
        match self.lists[li].node {
            Option::None => Seq::empty(),
            Option::Some(n) => seq![self.nodes[n].val] + self.list_seq(self.nodes[n].next),
        }
    }

    #[via_fn]
    proof fn list_seq_decreases(self, li: int) {
        if self.wf() && 0 <= li < self.lists.len() {
            assert(self.list_wf_at(li));
        }
    }
}

/// A descriptor is never changed after creation, apart from the macro flag.
pub open spec fn fn_stable(nf: FunctionM, of: FunctionM) -> bool {
    &&& nf.ty == of.ty
    &&& nf.name == of.name
    &&& nf.arglist == of.arglist
    &&& nf.arg_count == of.arg_count
    &&& nf.body == of.body
    &&& nf.has_restarg == of.has_restarg
    &&& nf.captured == of.captured
}

/// How the arena may change over time: cells are only added, never
/// resized, reclaimed or (apart from function bindings and the macro flag)
/// rewritten, so existing indices and their contents stay valid.
pub open spec fn rt_extends(new: RtM, old: RtM) -> bool {
    &&& old.lists.len() <= new.lists.len()
    &&& forall|i: int| 0 <= i < old.lists.len() ==> #[trigger] new.lists[i] == old.lists[i]
    &&& old.nodes.len() <= new.nodes.len()
    &&& forall|i: int| 0 <= i < old.nodes.len() ==> #[trigger] new.nodes[i] == old.nodes[i]
    &&& old.symbols.len() <= new.symbols.len()
    &&& forall|i: int|
        0 <= i < old.symbols.len() ==> #[trigger] new.symbols[i].name == old.symbols[i].name
    &&& old.funcs.len() <= new.funcs.len()
    &&& forall|i: int|
        0 <= i < old.funcs.len() ==> fn_stable(#[trigger] new.funcs[i], old.funcs[i])
}

pub proof fn lemma_extends_trans(a: RtM, b: RtM, c: RtM)
    requires
        rt_extends(b, a),
        rt_extends(c, b),
    ensures
        rt_extends(c, a),
{
}

/// Growth keeps every existing object well-formed.
pub proof fn lemma_extends_obj_wf(new: RtM, old: RtM, o: Object)
    requires
        rt_extends(new, old),
        old.obj_wf(o),
    ensures
        new.obj_wf(o),
{
}

/// Growth keeps the contents of every existing list.
pub proof fn lemma_extends_list_seq(new: RtM, old: RtM, li: int)
    requires
        rt_extends(new, old),
        old.wf(),
        new.wf(),
        0 <= li < old.lists.len(),
    ensures
        new.list_seq(li) == old.list_seq(li),
    decreases li,
{
    assert(old.list_wf_at(li));
    match old.lists[li].node {
        Option::None => {},
        Option::Some(n) => {
            lemma_extends_list_seq(new, old, old.nodes[n].next);
        },
    }
}

/// Allocating a fresh empty list: the canonical nil.
pub open spec fn alloc_nil(rt: RtM) -> (RtM, Object) {
    (
        RtM { lists: rt.lists.push(ListM { node: Option::None, len: 0 }), ..rt },
        Object::List(rt.lists.len() as usize),
    )
}

pub proof fn lemma_alloc_nil(rt: RtM)
    requires
        rt.wf(),
    ensures
        ({
            let (rt2, o) = alloc_nil(rt);
            &&& rt2.wf()
            &&& rt_extends(rt2, rt)
            &&& rt2.obj_wf(o)
            &&& rt2.lists.len() == rt.lists.len() + 1
            &&& o == Object::List(rt.lists.len() as usize)
            &&& rt2.lists[rt.lists.len() as int].len == 0
            &&& rt2.list_seq(rt.lists.len() as int) == Seq::<Object>::empty()
        }),
{
    let (rt2, o) = alloc_nil(rt);
    assert forall|i: int| 0 <= i < rt2.lists.len() implies #[trigger] rt2.list_wf_at(i) by {
        if i < rt.lists.len() {
            assert(rt.list_wf_at(i));
        }
    }
    assert forall|i: int| 0 <= i < rt2.funcs.len() implies #[trigger] rt2.func_wf_at(i) by {
        assert(rt.func_wf_at(i));
    }
    assert forall|i: int| 0 <= i < rt2.symbols.len() implies #[trigger] rt2.sym_wf_at(i) by {
        assert(rt.sym_wf_at(i));
    }
}

/// Prepending `x` to the list at `li`: a fresh node and a fresh cell.
pub open spec fn alloc_cons(rt: RtM, x: Object, li: int) -> (RtM, Object) {
    let n = NodeM { val: x, next: li };
    let l = ListM {
        node: Option::Some(rt.nodes.len() as int),
        len: (rt.lists[li].len + 1) as u64,
    };
    (
        RtM { nodes: rt.nodes.push(n), lists: rt.lists.push(l), ..rt },
        Object::List(rt.lists.len() as usize),
    )
}

pub proof fn lemma_alloc_cons(rt: RtM, x: Object, li: int)
    requires
        rt.wf(),
        rt.obj_wf(x),
        0 <= li < rt.lists.len(),
        rt.lists[li].len < u64::MAX,
    ensures
        ({
            let (rt2, o) = alloc_cons(rt, x, li);
            &&& rt2.wf()
            &&& rt_extends(rt2, rt)
            &&& rt2.obj_wf(o)
            &&& o == Object::List(rt.lists.len() as usize)
            &&& rt2.lists.len() == rt.lists.len() + 1
            &&& rt2.lists[rt.lists.len() as int].len == rt.lists[li].len + 1
            &&& rt2.list_seq(rt.lists.len() as int) == seq![x] + rt.list_seq(li)
        }),
{
    let (rt2, o) = alloc_cons(rt, x, li);
    assert(rt.list_wf_at(li));
    let newi = rt.lists.len() as int;
    assert forall|i: int| 0 <= i < rt2.lists.len() implies #[trigger] rt2.list_wf_at(i) by {
        if i < rt.lists.len() {
            assert(rt.list_wf_at(i));
            assert(rt2.lists[i] == rt.lists[i]);
        } else {
            assert(i == newi);
            let n = rt.nodes.len() as int;
            assert(rt2.nodes[n].val == x);
            assert(rt2.nodes[n].next == li);
            assert(rt2.lists[li] == rt.lists[li]);
        }
    }
    assert forall|i: int| 0 <= i < rt2.funcs.len() implies #[trigger] rt2.func_wf_at(i) by {
        assert(rt.func_wf_at(i));
    }
    assert forall|i: int| 0 <= i < rt2.symbols.len() implies #[trigger] rt2.sym_wf_at(i) by {
        assert(rt.sym_wf_at(i));
    }
    lemma_extends_list_seq(rt2, rt, li);
    assert(rt2.list_seq(newi) == seq![x] + rt2.list_seq(li));
}

/// The mathematical image of a result that may carry a runtime error.
pub open spec fn rt_result_view<T>(r: Result<T, RtError>) -> Result<T, Seq<char>> {
    match r {
        Result::Ok(v) => Result::Ok(v),
        Result::Err(e) => Result::Err(e.message@),
    }
}

/// What unpacking at kind `Int64` yields: the payload, or a cast error.
pub open spec fn unpack_int_spec(o: Object) -> Result<i64, Seq<char>> {
    match o {
        Object::Int64(i) => Result::Ok(i),
        _ => Result::Err(cast_error_msg(o.ty_spec().name_spec(), ObjType::Int64.name_spec())),
    }
}

pub open spec fn unpack_list_spec(o: Object) -> Result<usize, Seq<char>> {
    match o {
        Object::List(i) => Result::Ok(i),
        _ => Result::Err(cast_error_msg(o.ty_spec().name_spec(), ObjType::List.name_spec())),
    }
}

pub open spec fn unpack_symbol_spec(o: Object) -> Result<usize, Seq<char>> {
    match o {
        Object::Symbol(i) => Result::Ok(i),
        _ => Result::Err(cast_error_msg(o.ty_spec().name_spec(), ObjType::Symbol.name_spec())),
    }
}

pub open spec fn unpack_function_spec(o: Object) -> Result<usize, Seq<char>> {
    match o {
        Object::Function(i) => Result::Ok(i),
        _ => Result::Err(
            cast_error_msg(o.ty_spec().name_spec(), ObjType::Function.name_spec()),
        ),
    }
}

impl Object {
    /// The cast error raised when this object is unpacked at kind
    /// `target_ty`.
    fn type_err(&self, target_ty: ObjType) -> (e: RtError)
        ensures
            e.message@ == cast_error_msg(self.ty_spec().name_spec(), target_ty.name_spec()),
    {
        raise_cast_error(String::from_str(self.ty().name()), String::from_str(target_ty.name()))
    }

    /// The integer payload; a cast error on any other kind.
    pub fn unpack_int(&self) -> (r: Result<i64, RtError>)
        ensures
            rt_result_view(r) == unpack_int_spec(*self),
    {
        match self {
            Object::Int64(i) => Result::Ok(*i),
            _ => Result::Err(self.type_err(ObjType::Int64)),
        }
    }

    /// The list payload; a cast error on any other kind.
    pub fn unpack_list(&self) -> (r: Result<usize, RtError>)
        ensures
            rt_result_view(r) == unpack_list_spec(*self),
    {
        match self {
            Object::List(i) => Result::Ok(*i),
            _ => Result::Err(self.type_err(ObjType::List)),
        }
    }

    /// The symbol payload; a cast error on any other kind.
    pub fn unpack_symbol(&self) -> (r: Result<usize, RtError>)
        ensures
            rt_result_view(r) == unpack_symbol_spec(*self),
    {
        match self {
            Object::Symbol(i) => Result::Ok(*i),
            _ => Result::Err(self.type_err(ObjType::Symbol)),
        }
    }

    /// The function payload; a cast error on any other kind.
    pub fn unpack_function(&self) -> (r: Result<usize, RtError>)
        ensures
            rt_result_view(r) == unpack_function_spec(*self),
    {
        match self {
            Object::Function(i) => Result::Ok(*i),
            _ => Result::Err(self.type_err(ObjType::Function)),
        }
    }

    pub fn from_int(i: i64) -> (o: Object)
        ensures
            o == Object::Int64(i),
    {
        Object::Int64(i)
    }

    pub fn from_list(list: usize) -> (o: Object)
        ensures
            o == Object::List(list),
    {
        Object::List(list)
    }

    pub fn from_symbol(sym: usize) -> (o: Object)
        ensures
            o == Object::Symbol(sym),
    {
        Object::Symbol(sym)
    }

    pub fn from_function(function: usize) -> (o: Object)
        ensures
            o == Object::Function(function),
    {
        Object::Function(function)
    }

    /// Allocates a fresh empty list and wraps it as a tagged object.
    pub fn nil(rt: &mut Runtime) -> (o: Object)
        requires
            old(rt)@.wf(),
        ensures
            (final(rt)@, o) == alloc_nil(old(rt)@),
            final(rt)@.wf(),
            rt_extends(final(rt)@, old(rt)@),
            final(rt)@.obj_wf(o),
    {
        proof {
            lemma_alloc_nil(rt@);
        }
        let li = rt.lists.len();
        rt.lists.push(List { node: Option::None, len: 0 });
        proof {
            assert(rt@.lists =~= old(rt)@.lists.push(ListM { node: Option::None, len: 0 }));
            assert(rt@.nodes =~= old(rt)@.nodes);
            assert(rt@.symbols =~= old(rt)@.symbols);
            assert(rt@.funcs =~= old(rt)@.funcs);
            assert(rt@ == alloc_nil(old(rt)@).0);
        }
        Object::List(li)
    }
}

/// What `is-nil` decides: a list-tagged object whose list is empty.
pub open spec fn is_nil_spec(rt: RtM, o: Object) -> bool {
    match o {
        Object::List(i) => rt.lists[i as int].len == 0,
        _ => false,
    }
}

/// Packs an integer payload.
pub fn unlisp_rt_object_from_int(i: i64) -> (o: Object)
    ensures
        o == Object::Int64(i),
{
    Object::from_int(i)
}

/// Unpacks an integer payload; a cast error on any other kind.
pub fn unlisp_rt_int_from_obj(o: Object) -> (r: Result<i64, RtError>)
    ensures
        rt_result_view(r) == unpack_int_spec(o),
{
    o.unpack_int()
}

/// Packs a function descriptor.
pub fn unlisp_rt_object_from_function(f: usize) -> (o: Object)
    ensures
        o == Object::Function(f),
{
    Object::from_function(f)
}

/// Packs a symbol record.
pub fn unlisp_rt_object_from_symbol(s: usize) -> (o: Object)
    ensures
        o == Object::Symbol(s),
{
    Object::from_symbol(s)
}

/// True iff the object is a list-tagged object of length zero.
pub fn unlisp_rt_object_is_nil(rt: &Runtime, o: Object) -> (r: bool)
    requires
        rt@.obj_wf(o),
    ensures
        r == is_nil_spec(rt@, o),
{
    match o {
        Object::List(i) => rt.lists[i].len == 0,
        _ => false,
    }
}

/// Allocates and returns a fresh nil object.
pub fn unlisp_rt_nil_object(rt: &mut Runtime) -> (o: Object)
    requires
        old(rt)@.wf(),
    ensures
        (final(rt)@, o) == alloc_nil(old(rt)@),
        final(rt)@.wf(),
        rt_extends(final(rt)@, old(rt)@),
        final(rt)@.obj_wf(o),
{
    Object::nil(rt)
}

/// The arity rule: enough arguments, and exactly the parameter count
/// unless the function takes a rest parameter.
pub open spec fn arity_ok(f: FunctionM, n: u64) -> bool {
    n >= f.arg_count && (f.has_restarg || n == f.arg_count)
}

/// Decides whether a dynamic call with `arg_count` arguments fits the
/// descriptor's arity.
pub fn unlisp_rt_check_arity(rt: &Runtime, f: usize, arg_count: u64) -> (r: bool)
    requires
        (f as int) < rt@.funcs.len(),
    ensures
        r == arity_ok(rt@.funcs[f as int], arg_count),
{
    let has_restarg = rt.funcs[f].has_restarg;
    let params_count = rt.funcs[f].arg_count;
    let is_incorrect = (arg_count < params_count) || (!has_restarg && params_count != arg_count);
    !is_incorrect
}

impl Runtime {
    /// An arena with nothing allocated yet.
    pub fn new() -> (rt: Runtime)
        ensures
            rt@.wf(),
            rt@.lists.len() == 0,
            rt@.nodes.len() == 0,
            rt@.symbols.len() == 0,
            rt@.funcs.len() == 0,
    {
        Runtime { lists: Vec::new(), nodes: Vec::new(), symbols: Vec::new(), funcs: Vec::new() }
    }
}

/// How an object prints: its kind and its salient content.
pub open spec fn display_spec(rt: RtM, o: Object) -> Seq<char> {
    match o {
        Object::Int64(i) => "Object[int64, "@ + dec_str_signed(i as int) + "]"@,
        Object::List(li) => "Object[list, "@ + dec_str(rt.lists[li as int].len as nat) + "]"@,
        Object::Function(fi) => "Object[fn, "@ + dec_str(rt.funcs[fi as int].arg_count as nat)
            + "]"@,
        Object::Symbol(si) => "Object[symbol, "@ + rt.symbols[si as int].name + "]"@,
    }
}

/// Renders an object the way the driver prints results.
pub fn display_string(rt: &Runtime, o: Object) -> (r: String)
    requires
        rt@.obj_wf(o),
    ensures
        r@ == display_spec(rt@, o),
{
    match o {
        Object::Int64(i) => {
            let mut s = String::from_str("Object[int64, ");
            let d = i64_to_string(i);
            s.append(d.as_str());
            s.append("]");
            s
        },
        Object::List(li) => {
            let mut s = String::from_str("Object[list, ");
            let d = u64_to_string(rt.lists[li].len);
            s.append(d.as_str());
            s.append("]");
            s
        },
        Object::Function(fi) => {
            let mut s = String::from_str("Object[fn, ");
            let d = u64_to_string(rt.funcs[fi].arg_count);
            s.append(d.as_str());
            s.append("]");
            s
        },
        Object::Symbol(si) => {
            let mut s = String::from_str("Object[symbol, ");
            s.append(rt.symbols[si].name.as_str());
            s.append("]");
            s
        },
    }
}

/// The mathematical image of an evaluation result.
pub open spec fn eval_result_view(r: Result<Object, Failure>) -> Result<Object, FailureM> {
    match r {
        Result::Ok(o) => Result::Ok(o),
        Result::Err(f) => Result::Err(f@),
    }
}

/// All objects of a sequence point into the arena.
pub open spec fn objs_wf(rt: RtM, os: Seq<Object>) -> bool {
    forall|k: int| 0 <= k < os.len() ==> rt.obj_wf(#[trigger] os[k])
}

/// Copies a sequence of objects (objects are plain values).
pub fn copy_objects(v: &Vec<Object>) -> (r: Vec<Object>)
    ensures
        r@ == v@,
{
    let mut r: Vec<Object> = Vec::new();
    let mut i: usize = 0;
    while i < v.len()
        invariant
            0 <= i <= v@.len(),
            r@ =~= v@.subrange(0, i as int),
        decreases v@.len() - i,
    {
        r.push(v[i]);
        i = i + 1;
    }
    proof {
        assert(r@ =~= v@);
    }
    r
}

/// A descriptor fit to enter the arena.
pub open spec fn func_shape_ok(rt: RtM, f: FunctionM) -> bool {
    &&& f.arg_count == f.arglist.len()
    &&& forall|k: int| 0 <= k < f.captured.len() ==> rt.obj_wf(#[trigger] f.captured[k])
    &&& match f.body {
        FnBodyM::Native(_) => f.captured.len() == 0 && f.ty == FunctionType::Function,
        FnBodyM::Code(c) => {
            &&& f.ty == FunctionType::Closure
            &&& c.params == f.arglist
            &&& c.free_names.len() == f.captured.len()
            &&& f.has_restarg == (c.restarg is Some)
        },
    }
}

/// Materialising a descriptor in the arena.
pub open spec fn push_func(rt: RtM, f: FunctionM) -> RtM {
    RtM { funcs: rt.funcs.push(f), ..rt }
}

pub proof fn lemma_push_func(rt: RtM, f: FunctionM)
    requires
        rt.wf(),
        func_shape_ok(rt, f),
    ensures
        ({
            let rt2 = push_func(rt, f);
            &&& rt2.wf()
            &&& rt_extends(rt2, rt)
            &&& rt2.funcs.len() == rt.funcs.len() + 1
            &&& rt2.funcs[rt.funcs.len() as int] == f
            &&& rt2.lists == rt.lists
            &&& rt2.nodes == rt.nodes
            &&& rt2.symbols == rt.symbols
        }),
{
    let rt2 = push_func(rt, f);
    assert forall|i: int| 0 <= i < rt2.lists.len() implies #[trigger] rt2.list_wf_at(i) by {
        assert(rt.list_wf_at(i));
    }
    assert forall|i: int| 0 <= i < rt2.funcs.len() implies #[trigger] rt2.func_wf_at(i) by {
        if i < rt.funcs.len() {
            assert(rt.func_wf_at(i));
        }
    }
    assert forall|i: int| 0 <= i < rt2.symbols.len() implies #[trigger] rt2.sym_wf_at(i) by {
        assert(rt.sym_wf_at(i));
    }
}

/// Marking a descriptor as a macro changes that flag alone.
pub open spec fn set_macro_rt(rt: RtM, fi: int) -> RtM {
    RtM {
        funcs: rt.funcs.update(fi, FunctionM { is_macro: true, ..rt.funcs[fi] }),
        ..rt
    }
}

pub proof fn lemma_set_macro(rt: RtM, fi: int)
    requires
        rt.wf(),
        0 <= fi < rt.funcs.len(),
    ensures
        ({
            let rt2 = set_macro_rt(rt, fi);
            &&& rt2.wf()
            &&& rt_extends(rt2, rt)
            &&& rt2.funcs[fi].is_macro
            &&& rt2.lists == rt.lists
            &&& rt2.nodes == rt.nodes
            &&& rt2.symbols == rt.symbols
        }),
{
    let rt2 = set_macro_rt(rt, fi);
    assert forall|i: int| 0 <= i < rt2.lists.len() implies #[trigger] rt2.list_wf_at(i) by {
        assert(rt.list_wf_at(i));
    }
    assert forall|i: int| 0 <= i < rt2.funcs.len() implies #[trigger] rt2.func_wf_at(i) by {
        assert(rt.func_wf_at(i));
        if i == fi {
            assert(rt2.funcs[i].captured == rt.funcs[i].captured);
        }
    }
    assert forall|i: int| 0 <= i < rt2.symbols.len() implies #[trigger] rt2.sym_wf_at(i) by {
        assert(rt.sym_wf_at(i));
    }
}

/// Copies the code a descriptor runs; the copy has the same image.
pub fn clone_fn_body(b: &FnBody) -> (r: FnBody)
    ensures
        r@ == b@,
{
    match b {
        FnBody::Native(id) => FnBody::Native(*id),
        FnBody::Code(c) => FnBody::Code(
            Code {
                params: clone_strings(&c.params),
                restarg: clone_opt_string(&c.restarg),
                free_names: clone_strings(&c.free_names),
                body: clone_hirs(&c.body),
            },
        ),
    }
}

/// Copies a descriptor with the macro flag set.
pub fn clone_function_as_macro(f: &Function) -> (r: Function)
    ensures
        r@ == (FunctionM { is_macro: true, ..f@ }),
{
    Function {
        ty: f.ty,
        name: clone_opt_string(&f.name),
        arglist: clone_strings(&f.arglist),
        arg_count: f.arg_count,
        is_macro: true,
        body: clone_fn_body(&f.body),
        has_restarg: f.has_restarg,
        captured: copy_objects(&f.captured),
    }
}


// ------------------------------------------------------------------
// Laws of the object ABI
// ------------------------------------------------------------------

/// Type-packing round trip: unpacking a freshly packed object at its own
/// kind returns exactly the payload, for every payload.
pub proof fn lemma_pack_unpack_roundtrip(i: i64, li: usize, si: usize, fi: usize)
    ensures
        unpack_int_spec(Object::Int64(i)) == Result::<i64, Seq<char>>::Ok(i),
        unpack_list_spec(Object::List(li)) == Result::<usize, Seq<char>>::Ok(li),
        unpack_symbol_spec(Object::Symbol(si)) == Result::<usize, Seq<char>>::Ok(si),
        unpack_function_spec(Object::Function(fi)) == Result::<usize, Seq<char>>::Ok(fi),
{
}

/// Kind mismatch raises: unpacking at any kind other than the object's own
/// yields no payload but exactly the cast error whose message names both
/// kinds; the evaluator never continues past such an error.
pub proof fn lemma_unpack_mismatch(o: Object)
    ensures
        !(o is Int64) ==> unpack_int_spec(o) == Result::<i64, Seq<char>>::Err(
            cast_error_msg(o.ty_spec().name_spec(), ObjType::Int64.name_spec()),
        ),
        !(o is List) ==> unpack_list_spec(o) == Result::<usize, Seq<char>>::Err(
            cast_error_msg(o.ty_spec().name_spec(), ObjType::List.name_spec()),
        ),
        !(o is Symbol) ==> unpack_symbol_spec(o) == Result::<usize, Seq<char>>::Err(
            cast_error_msg(o.ty_spec().name_spec(), ObjType::Symbol.name_spec()),
        ),
        !(o is Function) ==> unpack_function_spec(o) == Result::<usize, Seq<char>>::Err(
            cast_error_msg(o.ty_spec().name_spec(), ObjType::Function.name_spec()),
        ),
{
}

/// The nil predicate: true of an object exactly when it is list-tagged and
/// its list cell has length zero.
pub proof fn lemma_is_nil_iff(rt: RtM, o: Object)
    ensures
        is_nil_spec(rt, o) <==> (exists|li: usize|
            o == Object::List(li) && rt.lists[li as int].len == 0),
{
    match o {
        Object::List(li) => {
            if rt.lists[li as int].len == 0 {
                assert(o == Object::List(li) && rt.lists[li as int].len == 0);
            }
        },
        _ => {},
    }
}

/// The arity rule, spelled out: a call with `n` arguments fits exactly
/// when `n` is at least the parameter count, and equals it unless the
/// function takes a rest parameter.
pub proof fn lemma_check_arity_iff(f: FunctionM, n: u64)
    ensures
        arity_ok(f, n) <==> (n >= f.arg_count && (f.has_restarg || n == f.arg_count)),
{
}

} // verus!
