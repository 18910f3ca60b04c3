//! The symbol table: a process-wide mapping from names to symbol records.
//! Interning is idempotent, records are unique per name, and a record's
//! index is stable for the process lifetime.

use vstd::prelude::*;
use vstd::string::StringExecFns;

use crate::defs::rt_extends;
use crate::defs::RtM;
use crate::defs::Runtime;
use crate::defs::Symbol;
use crate::defs::SymbolM;
use crate::text::str_eql;

verus! {

/// The index of the record named `name`, scanning from `i`.
pub open spec fn sym_index(syms: Seq<SymbolM>, name: Seq<char>, i: int) -> Option<int>
    decreases syms.len() - i,
{
    if i < 0 || i >= syms.len() {
        Option::None
    } else if syms[i].name == name {
        Option::Some(i)
    } else {
        sym_index(syms, name, i + 1)
    }
}

/// The index of the record named `name`, if one exists.
pub open spec fn sym_lookup(rt: RtM, name: Seq<char>) -> Option<int> {
    sym_index(rt.symbols, name, 0)
}

/// Interning: the existing record for `name`, or a fresh one whose
/// function binding is empty.
pub open spec fn intern_spec(rt: RtM, name: Seq<char>) -> (RtM, int) {
    match sym_lookup(rt, name) {
        Option::Some(i) => (rt, i),
        Option::None => (
            RtM { symbols: rt.symbols.push(SymbolM { name, function: Option::None }), ..rt },
            rt.symbols.len() as int,
        ),
    }
}

proof fn lemma_sym_index_props(syms: Seq<SymbolM>, name: Seq<char>, i: int)
    requires
        0 <= i <= syms.len(),
    ensures
        match sym_index(syms, name, i) {
            Option::Some(j) => i <= j < syms.len() && syms[j].name == name,
            Option::None => forall|k: int|
                i <= k < syms.len() ==> (#[trigger] syms[k]).name != name,
        },
    decreases syms.len() - i,
{
    if i < syms.len() && syms[i].name != name {
        lemma_sym_index_props(syms, name, i + 1);
    }
}

proof fn lemma_sym_index_push(syms: Seq<SymbolM>, x: SymbolM, name: Seq<char>, i: int)
    requires
        0 <= i <= syms.len(),
    ensures
        sym_index(syms.push(x), name, i) == (match sym_index(syms, name, i) {
            Option::Some(j) => Option::Some(j),
            Option::None => if x.name == name {
                Option::Some(syms.len() as int)
            } else {
                Option::None
            },
        }),
    decreases syms.len() - i,
{
    let s2 = syms.push(x);
    if i < syms.len() {
        assert(s2[i] == syms[i]);
        lemma_sym_index_push(syms, x, name, i + 1);
    } else {
        assert(s2[i] == x);
        if x.name != name {
            assert(sym_index(s2, name, i + 1) == Option::<int>::None);
        }
    }
}

/// What interning guarantees: the arena stays well-formed and only grows,
/// and afterwards `name` resolves to the returned record.
pub proof fn lemma_intern(rt: RtM, name: Seq<char>)
    requires
        rt.wf(),
    ensures
        ({
            let (rt2, i) = intern_spec(rt, name);
            &&& rt2.wf()
            &&& rt_extends(rt2, rt)
            &&& 0 <= i < rt2.symbols.len()
            &&& rt2.symbols[i].name == name
            &&& sym_lookup(rt2, name) == Option::Some(i)
            &&& rt2.lists == rt.lists
            &&& rt2.nodes == rt.nodes
            &&& rt2.funcs == rt.funcs
        }),
{
    lemma_sym_index_props(rt.symbols, name, 0);
    let (rt2, i) = intern_spec(rt, name);
    match sym_lookup(rt, name) {
        Option::Some(_) => {},
        Option::None => {
            let x = SymbolM { name, function: Option::None };
            lemma_sym_index_push(rt.symbols, x, name, 0);
            assert forall|k: int| 0 <= k < rt2.lists.len() implies #[trigger] rt2.list_wf_at(
                k,
            ) by {
                assert(rt.list_wf_at(k));
            }
            assert forall|k: int| 0 <= k < rt2.funcs.len() implies #[trigger] rt2.func_wf_at(
                k,
            ) by {
                assert(rt.func_wf_at(k));
            }
            assert forall|k: int| 0 <= k < rt2.symbols.len() implies #[trigger] rt2.sym_wf_at(
                k,
            ) by {
                if k < rt.symbols.len() {
                    assert(rt.sym_wf_at(k));
                }
            }
        },
    }
}

/// Symbol uniqueness: interning the same name twice returns the same
/// record, and the second call changes nothing.
pub proof fn lemma_symbol_uniqueness(rt: RtM, name: Seq<char>)
    requires
        rt.wf(),
    ensures
        ({
            let (rt1, i1) = intern_spec(rt, name);
            let (rt2, i2) = intern_spec(rt1, name);
            i2 == i1 && rt2 == rt1
        }),
{
    lemma_intern(rt, name);
}

/// Returns the record for `name`, interning it first if needed.
#[verifier::loop_isolation(false)]
pub fn get_or_intern_symbol(rt: &mut Runtime, name: &str) -> (i: usize)
    requires
        old(rt)@.wf(),
    ensures
        final(rt)@.wf(),
        rt_extends(final(rt)@, old(rt)@),
        (final(rt)@, i as int) == intern_spec(old(rt)@, name@),
        (i as int) < final(rt)@.symbols.len(),
        final(rt)@.symbols[i as int].name == name@,
        sym_lookup(final(rt)@, name@) == Option::Some(i as int),
{
    proof {
        lemma_intern(old(rt)@, name@);
    }
    let n = rt.symbols.len();
    let mut j: usize = 0;
    while j < n
        invariant
            0 <= j <= n,
            sym_index(rt@.symbols, name@, 0) == sym_index(rt@.symbols, name@, j as int),
        decreases n - j,
    {
        if str_eql(rt.symbols[j].name.as_str(), name) {
            proof {
                assert(rt@.symbols[j as int].name == name@);
            }
            return j;
        }
        j = j + 1;
    }
    proof {
        assert(sym_lookup(rt@, name@) is None);
    }
    let i = rt.symbols.len();
    rt.symbols.push(Symbol::new(String::from_str(name)));
    proof {
        assert(rt@.symbols =~= old(rt)@.symbols.push(
            SymbolM { name: name@, function: Option::None },
        ));
        assert(rt@.lists =~= old(rt)@.lists);
        assert(rt@.nodes =~= old(rt)@.nodes);
        assert(rt@.funcs =~= old(rt)@.funcs);
        assert(rt@ == intern_spec(old(rt)@, name@).0);
    }
    i
}

/// Interns a name on behalf of compiled code.
pub fn unlisp_rt_intern_sym(rt: &mut Runtime, name: &str) -> (i: usize)
    requires
        old(rt)@.wf(),
    ensures
        final(rt)@.wf(),
        rt_extends(final(rt)@, old(rt)@),
        (final(rt)@, i as int) == intern_spec(old(rt)@, name@),
        (i as int) < final(rt)@.symbols.len(),
        final(rt)@.symbols[i as int].name == name@,
{
    get_or_intern_symbol(rt, name)
}

/// How binding a function to a symbol changes the arena.
pub open spec fn bind_spec(rt: RtM, si: int, fi: int) -> RtM {
    RtM {
        symbols: rt.symbols.update(
            si,
            SymbolM { name: rt.symbols[si].name, function: Option::Some(fi) },
        ),
        ..rt
    }
}

pub proof fn lemma_bind(rt: RtM, si: int, fi: int)
    requires
        rt.wf(),
        0 <= si < rt.symbols.len(),
        0 <= fi < rt.funcs.len(),
    ensures
        ({
            let rt2 = bind_spec(rt, si, fi);
            &&& rt2.wf()
            &&& rt_extends(rt2, rt)
            &&& rt2.symbols[si].function == Option::Some(fi)
            &&& rt2.lists == rt.lists
            &&& rt2.nodes == rt.nodes
            &&& rt2.funcs == rt.funcs
        }),
{
    let rt2 = bind_spec(rt, si, fi);
    assert forall|k: int| 0 <= k < rt2.lists.len() implies #[trigger] rt2.list_wf_at(k) by {
        assert(rt.list_wf_at(k));
    }
    assert forall|k: int| 0 <= k < rt2.funcs.len() implies #[trigger] rt2.func_wf_at(k) by {
        assert(rt.func_wf_at(k));
    }
    assert forall|k: int| 0 <= k < rt2.symbols.len() implies #[trigger] rt2.sym_wf_at(k) by {
        if k != si {
            assert(rt.sym_wf_at(k));
        }
    }
}

/// Sets the symbol's function binding; visible to subsequent lookups.
pub fn bind(rt: &mut Runtime, sym: usize, func: usize)
    requires
        old(rt)@.wf(),
        (sym as int) < old(rt)@.symbols.len(),
        (func as int) < old(rt)@.funcs.len(),
    ensures
        final(rt)@ == bind_spec(old(rt)@, sym as int, func as int),
        final(rt)@.wf(),
        rt_extends(final(rt)@, old(rt)@),
        final(rt)@.symbols[sym as int].function == Option::Some(func as int),
{
    proof {
        lemma_bind(old(rt)@, sym as int, func as int);
    }
    let name = rt.symbols[sym].name.clone();
    rt.symbols.set(sym, Symbol { name, function: Option::Some(func) });
    proof {
        assert(rt@.symbols =~= bind_spec(old(rt)@, sym as int, func as int).symbols);
        assert(rt@.lists =~= old(rt)@.lists);
        assert(rt@.nodes =~= old(rt)@.nodes);
        assert(rt@.funcs =~= old(rt)@.funcs);
        assert(rt@ == bind_spec(old(rt)@, sym as int, func as int));
    }
}

/// Reads the symbol's function binding; empty if none was set.
pub fn lookup_function(rt: &Runtime, sym: usize) -> (r: Option<usize>)
    requires
        (sym as int) < rt@.symbols.len(),
    ensures
        match r {
            Option::None => rt@.symbols[sym as int].function is None,
            Option::Some(f) => rt@.symbols[sym as int].function == Option::Some(f as int),
        },
{
    rt.symbols[sym].function
}

} // verus!
