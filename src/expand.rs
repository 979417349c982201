//! Macro expansion: a macro call runs the macro's closure on the machine over
//! its quoted arguments, and the data it returns is read back as an
//! S-expression and lowered in the call's place.
use vstd::prelude::*;

use crate::ast::{self, Ast, Parameter, Quoted};
use crate::bytecode::{self, OpCodeTable};
use crate::il::{self, Il, VarRef};
use crate::program::{reported, Failure};
use crate::bytecode::{emittable, emitted, entries, ops_of};
use crate::il::{il_from, supported};
use crate::vm::{loaded, run, VmState};
use crate::sexpr::{Sexpr, Source};
use crate::vm::{refs_ok, Constant, Object, Vm};

verus! {

/// How deeply macro expansions may nest before expansion gives up.
pub const EXPANSION_DEPTH: usize = 64;

/// How deeply the data a macro returns may nest.
pub const DATA_DEPTH: usize = 1024;

/// Whether no macro definition, macro call or compile-time block is left.
pub open spec fn macro_free(a: Ast) -> bool
    decreases a,
{
    match a {
        Ast::DefMacro(_) | Ast::MacroCall(_) | Ast::EvalWhenCompile(_) => false,
        Ast::Lambda(x) => forall|k: int| 0 <= k < x.body@.len() ==> macro_free(#[trigger] x.body@[k]),
        Ast::Def(x) => macro_free(*x.body),
        Ast::Decl(x) => macro_free(*x.body),
        Ast::Assign(x) => macro_free(*x.body),
        Ast::If(x) => macro_free(*x.predicate) && macro_free(*x.consequent) && macro_free(*x.alternative),
        Ast::Apply(x) => macro_free(*x.function) && macro_free(*x.list),
        Ast::BinaryArithmeticOperation(x) => macro_free(*x.lhs) && macro_free(*x.rhs),
        Ast::ComparisonOperation(x) => macro_free(*x.lhs) && macro_free(*x.rhs),
        Ast::List(x) => forall|k: int| 0 <= k < x.exprs@.len() ==> macro_free(#[trigger] x.exprs@[k]),
        Ast::Cons(x) => macro_free(*x.lhs) && macro_free(*x.rhs),
        Ast::Car(x) => macro_free(*x.body),
        Ast::Cdr(x) => macro_free(*x.body),
        Ast::FnCall(x) => macro_free(*x.function) && forall|k: int| 0 <= k < x.exprs@.len() ==> macro_free(#[trigger] x.exprs@[k]),
        Ast::IsType(x) => macro_free(*x.body),
        Ast::Assert(x) => macro_free(*x.body),
        Ast::MapInsert(x) => macro_free(*x.map) && macro_free(*x.key) && macro_free(*x.value),
        Ast::MapRetrieve(x) => macro_free(*x.map) && macro_free(*x.key),
        Ast::MapItems(x) => macro_free(*x.map),
        _ => true,
    }
}

/// The cell reached from cell `h` by following `k` second elements of pairs.
pub open spec fn nth_tail(cells: Seq<Object>, h: int, k: nat) -> int
    decreases k,
{
    if k == 0 {
        h
    } else {
        match cells[nth_tail(cells, h, (k - 1) as nat)] {
            Object::Cons(pair) => pair.1 as int,
            _ => -1,
        }
    }
}

/// `s` is the data in cell `h`, read back with every node citing `source`,
/// nesting no deeper than `depth`: a proper list of at most the read limit
/// reads as a list of its elements, true as a boolean, other atoms as
/// themselves; closures and improper lists have no reading.
pub open spec fn reads_as(cells: Seq<Object>, h: int, source: Source, depth: nat, s: Sexpr) -> bool
    decreases depth, 1int,
{
    match cells[h] {
        Object::Int(v) => s == Sexpr::Int { source, value: v },
        Object::Char(c) => s == Sexpr::Char { source, value: c },
        Object::Symbol(x) => s matches Sexpr::Symbol { source: src, symbol } && src == source && symbol@ == x@,
        Object::String(x) => s matches Sexpr::String { source: src, string } && src == source && string@ == x@,
        Object::True => s == Sexpr::Bool { source, value: true },
        Object::Nil => s == Sexpr::Nil { source },
        Object::Cons(_) => depth > 0 && list_reads_as(cells, h, source, depth, s),
        Object::Function(_) => false,
    }
}

/// `s` is a list whose elements are the data, nesting less than `depth`, in
/// the first elements of the chain of pairs from `h`, which ends in nil.
pub open spec fn list_reads_as(cells: Seq<Object>, h: int, source: Source, depth: nat, s: Sexpr) -> bool
    decreases depth, 0int,
{
    &&& depth > 0
    &&& s matches Sexpr::List { source: src, list } && src == source && {
        let n = list@.len();
        &&& n <= DATA_DEPTH
        &&& cells[nth_tail(cells, h, n)] is Nil
        &&& forall|k: nat| k < n ==> #[trigger] cells[nth_tail(cells, h, k)] is Cons
            && reads_as(cells, cells[nth_tail(cells, h, k)]->Cons_0.0 as int, source, (depth - 1) as nat, list@[k as int])
    }
}

/// Whether the data in cell `h` has a reading as an S-expression.
pub open spec fn readable(cells: Seq<Object>, h: int, source: Source, depth: nat) -> bool {
    exists|s: Sexpr| #[trigger] reads_as(cells, h, source, depth, s)
}

/// Reads the data in cell `h` back as an S-expression citing `source`: a
/// proper list becomes a list, true becomes a boolean; a closure, an improper
/// list, or data nested deeper than `depth` cannot be read back.
pub fn to_sexpr(vm: &Vm, h: usize, source: Source, depth: usize) -> (r: Option<Sexpr>)
    requires
        vm.view().wf(),
    ensures
        r matches Some(s) ==> h < vm.view().cells.len() && reads_as(vm.view().cells, h as int, source, depth as nat, s),
        h < vm.view().cells.len() && readable(vm.view().cells, h as int, source, depth as nat) ==> r is Some,
    decreases depth,
{
    let ghost cells = vm.view().cells;
    match vm.object(h) {
        Some(Object::Int(v)) => Some(Sexpr::Int { source, value: *v }),
        Some(Object::Char(c)) => Some(Sexpr::Char { source, value: *c }),
        Some(Object::Symbol(x)) => Some(Sexpr::Symbol { source, symbol: x.clone() }),
        Some(Object::String(x)) => Some(Sexpr::String { source, string: x.clone() }),
        Some(Object::True) => Some(Sexpr::Bool { source, value: true }),
        Some(Object::Nil) => Some(Sexpr::Nil { source }),
        Some(Object::Cons(_)) => {
            if depth == 0 {
                proof {
                    if readable(cells, h as int, source, depth as nat) {
                        let w = choose|w: Sexpr| reads_as(cells, h as int, source, depth as nat, w);
                        assert(reads_as(cells, h as int, source, depth as nat, w));
                    }
                }
                return None;
            }
            let ghost wit = readable(cells, h as int, source, depth as nat);
            let ghost w = choose|w: Sexpr| reads_as(cells, h as int, source, depth as nat, w);
            let ghost wl: nat = if wit { w->list@.len() } else { 0 };
            proof {
                if wit {
                    assert(reads_as(cells, h as int, source, depth as nat, w));
                    assert(list_reads_as(cells, h as int, source, depth as nat, w));
                }
            }
            let mut items: Vec<Sexpr> = Vec::new();
            let mut cur = h;
            let mut steps: usize = 0;
            while steps <= DATA_DEPTH
                invariant
                    depth > 0,
                    vm.view().wf(),
                    cells == vm.view().cells,
                    h < cells.len(),
                    cur < cells.len(),
                    cells[h as int] is Cons,
                    items@.len() == steps,
                    steps <= DATA_DEPTH + 1,
                    cur as int == nth_tail(cells, h as int, steps as nat),
                    forall|k: nat| k < steps ==> #[trigger] cells[nth_tail(cells, h as int, k)] is Cons
                        && reads_as(cells, cells[nth_tail(cells, h as int, k)]->Cons_0.0 as int, source, (depth - 1) as nat, items@[k as int]),
                    wit == readable(cells, h as int, source, depth as nat),
                    wit ==> list_reads_as(cells, h as int, source, depth as nat, w) && wl == w->list@.len() && steps <= wl,
                decreases DATA_DEPTH + 1 - steps,
            {
                proof {
                    if wit && steps < wl {
                        assert(cells[nth_tail(cells, h as int, steps as nat)] is Cons);
                    }
                }
                match vm.object(cur) {
                    Some(Object::Cons(pair)) => {
                        if steps == DATA_DEPTH {
                            return None;
                        }
                        assert(refs_ok(cells[cur as int], cells.len() as int, vm.view().functions.len() as int));
                        proof {
                            if wit {
                                let k = steps as nat;
                                assert(cells[nth_tail(cells, h as int, k)] is Cons
                                    && reads_as(cells, cells[nth_tail(cells, h as int, k)]->Cons_0.0 as int, source, (depth - 1) as nat, w->list@[k as int]));
                                assert(readable(cells, pair.0 as int, source, (depth - 1) as nat));
                            }
                        }
                        let child = to_sexpr(vm, pair.0, source, depth - 1);
                        match child {
                            Some(x) => items.push(x),
                            None => {
                                return None;
                            },
                        }
                        cur = pair.1;
                        proof {
                            assert(nth_tail(cells, h as int, (steps + 1) as nat) == pair.1 as int);
                        }
                    },
                    Some(Object::Nil) => {
                        let r = Sexpr::List { source, list: items };
                        assert(reads_as(cells, h as int, source, depth as nat, r));
                        return Some(r);
                    },
                    _ => {
                        proof {
                            if wit {
                                assert(steps == wl);
                                assert(cells[nth_tail(cells, h as int, wl)] is Nil);
                            }
                        }
                        return None;
                    },
                }
                steps = steps + 1;
            }
            proof {
                if wit {
                    assert(wl <= DATA_DEPTH);
                }
            }
            None
        },
        _ => None,
    }
}

/// The code of `code` with its constants `pool`, loaded into `start` and run
/// for at most `fuel` instructions, reports `result` and leaves `end`.
#[verifier::opaque]
pub open spec fn runs(start: VmState, fuel: nat, pool: Seq<Constant>, code: Il, result: Result<Option<usize>, crate::vm::Fault>, end: VmState) -> bool {
    &&& entries(pool) == emitted(code, false).1
    &&& run(VmState { constants: loaded(start.constants, pool), ..start }, ops_of(emitted(code, false).0), fuel) == (result, end)
}

/// The last form evaluated was the macro-free tree `a`, resolved to `code`,
/// run from the machine `start` with the constants `pool`.
pub open spec fn last_form(a: Ast, code: Il, pool: Seq<Constant>, start: VmState, fuel: nat, result: Result<Option<usize>, crate::vm::Fault>, end: VmState) -> bool {
    &&& macro_free(a)
    &&& il_from(a, code)
    &&& runs(start, fuel, pool, code, result, end)
}

/// Resolves, emits and runs a macro-free tree on `vm`.
pub fn run_ast(vm: &mut Vm, a: Ast) -> (r: Result<Option<usize>, Failure>)
    requires
        old(vm).view().wf(),
    ensures
        final(vm).view().wf(),
        final(vm).spec_step_limit() == old(vm).spec_step_limit(),
        r matches Err(Failure::Resolve(_)) <==> !supported(a),
        r matches Err(Failure::Emit(_)) ==> exists|code: Il| #[trigger] il_from(a, code) && !emittable(code, false),
        !(r matches Err(Failure::Lower(_)) || r matches Err(Failure::Expand(_))),
        (r is Ok || r matches Err(Failure::Run(_))) ==> exists|code: Il, pool: Seq<Constant>|
            il_from(a, code) && #[trigger] runs(old(vm).view(), old(vm).spec_step_limit() as nat, pool, code, reported(r), final(vm).view()),
{
    let mut resolver = il::Compiler::new();
    let ghost a0 = a;
    let code = match resolver.compile(a) {
        Ok(code) => code,
        Err(e) => return Err(Failure::Resolve(e)),
    };
    let r = run_il(vm, &code);
    proof {
        if r matches Err(Failure::Emit(_)) {
            assert(il_from(a0, code) && !emittable(code, false));
        }
        if r is Ok || r matches Err(Failure::Run(_)) {
            let pool = choose|pool: Seq<Constant>| #[trigger] runs(old(vm).view(), old(vm).spec_step_limit() as nat, pool, code, reported(r), vm.view());
            assert(il_from(a0, code) && runs(old(vm).view(), old(vm).spec_step_limit() as nat, pool, code, reported(r), vm.view()));
        }
    }
    r
}

/// Emits and runs `code` on `vm`, after loading the constants it needs.
fn run_il(vm: &mut Vm, code: &Il) -> (r: Result<Option<usize>, Failure>)
    requires
        old(vm).view().wf(),
    ensures
        final(vm).view().wf(),
        final(vm).spec_step_limit() == old(vm).spec_step_limit(),
        r matches Err(Failure::Emit(_)) <==> !emittable(*code, false),
        !(r matches Err(Failure::Lower(_)) || r matches Err(Failure::Expand(_)) || r matches Err(Failure::Resolve(_))),
        (r is Ok || r matches Err(Failure::Run(_))) ==> exists|pool: Seq<Constant>|
            #[trigger] runs(old(vm).view(), old(vm).spec_step_limit() as nat, pool, *code, reported(r), final(vm).view()),
{
    let mut table = OpCodeTable::new();
    let mut pool: Vec<Constant> = Vec::new();
    match bytecode::compile(code, false, &mut table, &mut pool) {
        Ok(()) => {},
        Err(e) => return Err(Failure::Emit(e)),
    }
    let ghost loaded_pool = pool@;
    vm.load_constants(pool);
    let ops = table.opcodes();
    let r = vm.eval(ops.as_slice());
    let r = match r {
        Ok(x) => Ok(x),
        Err(e) => Err(Failure::Run(e)),
    };
    proof {
        assert(table.view() =~= emitted(*code, false).0);
        assert(entries(Seq::<Constant>::empty()) =~= Seq::empty());
        assert(entries(loaded_pool) =~= emitted(*code, false).1);
        reveal(runs);
        assert(runs(old(vm).view(), old(vm).spec_step_limit() as nat, loaded_pool, *code, reported(r), vm.view()));
    }
    r
}

fn expansion_error(source: Source, message: &str) -> (f: Failure)
    ensures
        f is Expand,
{
    Failure::Expand(ast::Error { source, message: message.to_owned() })
}

fn all_free(asts: &Vec<Ast>) -> (r: bool)
    ensures
        r == forall|k: int| 0 <= k < asts@.len() ==> macro_free(#[trigger] asts@[k]),
    decreases asts, 0int,
{
    let mut i: usize = 0;
    while i < asts.len()
        invariant
            i <= asts@.len(),
            forall|k: int| 0 <= k < i ==> macro_free(#[trigger] asts@[k]),
        decreases asts@.len() - i,
    {
        if !has_no_macros(&asts[i]) {
            return false;
        }
        i = i + 1;
    }
    true
}

/// Whether a tree holds no macro definition, macro call or compile-time block.
pub fn has_no_macros(a: &Ast) -> (r: bool)
    ensures
        r == macro_free(*a),
    decreases a, 1int,
{
    match a {
        Ast::DefMacro(_) | Ast::MacroCall(_) | Ast::EvalWhenCompile(_) => false,
        Ast::Lambda(x) => all_free(&x.body),
        Ast::Def(x) => has_no_macros(&x.body),
        Ast::Decl(x) => has_no_macros(&x.body),
        Ast::Assign(x) => has_no_macros(&x.body),
        Ast::If(x) => has_no_macros(&x.predicate) && has_no_macros(&x.consequent) && has_no_macros(&x.alternative),
        Ast::Apply(x) => has_no_macros(&x.function) && has_no_macros(&x.list),
        Ast::BinaryArithmeticOperation(x) => has_no_macros(&x.lhs) && has_no_macros(&x.rhs),
        Ast::ComparisonOperation(x) => has_no_macros(&x.lhs) && has_no_macros(&x.rhs),
        Ast::List(x) => all_free(&x.exprs),
        Ast::Cons(x) => has_no_macros(&x.lhs) && has_no_macros(&x.rhs),
        Ast::Car(x) => has_no_macros(&x.body),
        Ast::Cdr(x) => has_no_macros(&x.body),
        Ast::FnCall(x) => has_no_macros(&x.function) && all_free(&x.exprs),
        Ast::IsType(x) => has_no_macros(&x.body),
        Ast::Assert(x) => has_no_macros(&x.body),
        Ast::MapInsert(x) => has_no_macros(&x.map) && has_no_macros(&x.key) && has_no_macros(&x.value),
        Ast::MapRetrieve(x) => has_no_macros(&x.map) && has_no_macros(&x.key),
        Ast::MapItems(x) => has_no_macros(&x.map),
        _ => true,
    }
}

/// `code` applies the global closure named by the macro call `x` to its
/// quoted arguments.
pub open spec fn macro_call_code(x: ast::MacroCall, code: Il) -> bool {
    match code {
        Il::FnCall { source, function, args } => {
            &&& source == x.source
            &&& *function == Il::VarRef(VarRef::Global { source: x.source, name: x.name })
            &&& args@.len() == x.args@.len()
            &&& forall|k: int| 0 <= k < args@.len() ==> #[trigger] args@[k] == (Il::Quote { source: x.source, body: x.args@[k] })
        },
        _ => false,
    }
}

/// Names an intermediate value of a relation; it is the value itself.
pub open spec fn witness<T>(x: T) -> T {
    x
}

/// The machine and the macro names at one point of an expansion.
pub struct Stage {
    pub vm: VmState,
    pub macros: Set<Seq<char>>,
}

/// The trees `es` were resolved and run in order from the machine `s0`, each
/// for at most `fuel` instructions and without an error, leaving `s1`.
pub open spec fn runs_all(es: Seq<Ast>, fuel: nat, s0: VmState, s1: VmState) -> bool
    decreases es.len(),
{
    if es.len() == 0 {
        s1 == s0
    } else {
        exists|mid: VmState, code: Il, pool: Seq<Constant>, x: Option<usize>|
            #[trigger] runs(mid, fuel, pool, code, Ok::<Option<usize>, crate::vm::Fault>(x), s1) &&
            runs_all(es.subrange(0, es.len() - 1), fuel, s0, mid) && il_from(es.last(), code)
            && runs(mid, fuel, pool, code, Ok::<Option<usize>, crate::vm::Fault>(x), s1)
    }
}

/// `b` is `a` with its macros expanded, macro calls at most `depth` deep,
/// starting from the machine and macro names `s0` and leaving `s1`; code runs
/// for at most `fuel` instructions. A tree without macro forms stays as it is
/// and changes nothing. A macro definition becomes the definition of a global
/// lambda over its expanded body. A compile-time block has its expressions
/// expanded, then run in order, and becomes nil. A macro call runs the macro's
/// closure on its quoted arguments from the machine at the call; the data it
/// returns is read back, lowered under the macro names at the call, and
/// expanded in its place. Every other node keeps its own fields and has its
/// children expanded from left to right.
pub open spec fn expansion(a: Ast, b: Ast, depth: nat, fuel: nat, s0: Stage, s1: Stage) -> bool
    decreases depth, a, 1int,
{
    if macro_free(a) {
        b == a && s1 == s0
    } else {
        match a {
            Ast::DefMacro(x) => match b {
                Ast::Def(d) => d.source == x.source && d.parameter.name == x.name && d.parameter.ty is None && match *d.body {
                    Ast::Lambda(l) => l.source == x.source && l.ty is None && l.parameters == x.parameters
                        && expansion_seq(x.body@, l.body@, depth, fuel, s0, s1),
                    _ => false,
                },
                _ => false,
            },
            Ast::EvalWhenCompile(x) => b == Ast::Constant(ast::Constant::Nil { source: x.source })
                && exists|mid: Stage, es: Seq<Ast>| #[trigger] witness((mid, es)) == (mid, es) && expansion_seq(x.exprs@, es, depth, fuel, s0, mid)
                    && runs_all(es, fuel, mid.vm, s1.vm) && s1.macros == mid.macros,
            Ast::MacroCall(x) => depth > 0 && exists|code: Il, pool: Seq<Constant>,
                result: Result<Option<usize>, crate::vm::Fault>, end: VmState, h: usize, s: Sexpr, c: Ast|
                #![trigger runs(s0.vm, fuel, pool, code, result, end), reads_as(end.cells, h as int, x.source, DATA_DEPTH as nat, s), ast::lowers(s0.macros, s, c)]
                macro_call_code(x, code) && result == Ok::<Option<usize>, crate::vm::Fault>(Some(h))
                && runs(s0.vm, fuel, pool, code, result, end)
                && reads_as(end.cells, h as int, x.source, DATA_DEPTH as nat, s)
                && ast::lowers(s0.macros, s, c)
                && expansion(c, b, (depth - 1) as nat, fuel, Stage { vm: end, macros: ast::macros_after(s0.macros, s) }, s1),
            Ast::Lambda(x) => match b {
                Ast::Lambda(y) => y.source == x.source && y.ty == x.ty && y.parameters == x.parameters
                    && expansion_seq(x.body@, y.body@, depth, fuel, s0, s1),
                _ => false,
            },
            Ast::Def(x) => b matches Ast::Def(y) && y.source == x.source && y.parameter == x.parameter && expansion(*x.body, *y.body, depth, fuel, s0, s1),
            Ast::Decl(x) => b matches Ast::Decl(y) && y.source == x.source && y.parameter == x.parameter && expansion(*x.body, *y.body, depth, fuel, s0, s1),
            Ast::Assign(x) => b matches Ast::Assign(y) && y.source == x.source && y.variable == x.variable && expansion(*x.body, *y.body, depth, fuel, s0, s1),
            Ast::If(x) => match b {
                Ast::If(y) => y.source == x.source && exists|m1: Stage, m2: Stage|
                    #[trigger] witness((m1, m2)) == (m1, m2) &&
                    expansion(*x.predicate, *y.predicate, depth, fuel, s0, m1)
                    && expansion(*x.consequent, *y.consequent, depth, fuel, m1, m2)
                    && expansion(*x.alternative, *y.alternative, depth, fuel, m2, s1),
                _ => false,
            },
            Ast::Apply(x) => match b {
                Ast::Apply(y) => y.source == x.source && exists|m1: Stage| #[trigger] witness(m1) == m1 && expansion(*x.function, *y.function, depth, fuel, s0, m1)
                    && expansion(*x.list, *y.list, depth, fuel, m1, s1),
                _ => false,
            },
            Ast::BinaryArithmeticOperation(x) => match b {
                Ast::BinaryArithmeticOperation(y) => y.source == x.source && y.operator == x.operator
                    && exists|m1: Stage| #[trigger] witness(m1) == m1 && expansion(*x.lhs, *y.lhs, depth, fuel, s0, m1) && expansion(*x.rhs, *y.rhs, depth, fuel, m1, s1),
                _ => false,
            },
            Ast::ComparisonOperation(x) => match b {
                Ast::ComparisonOperation(y) => y.source == x.source && y.operator == x.operator
                    && exists|m1: Stage| #[trigger] witness(m1) == m1 && expansion(*x.lhs, *y.lhs, depth, fuel, s0, m1) && expansion(*x.rhs, *y.rhs, depth, fuel, m1, s1),
                _ => false,
            },
            Ast::List(x) => match b {
                Ast::List(y) => y.source == x.source && expansion_seq(x.exprs@, y.exprs@, depth, fuel, s0, s1),
                _ => false,
            },
            Ast::Cons(x) => match b {
                Ast::Cons(y) => y.source == x.source
                    && exists|m1: Stage| #[trigger] witness(m1) == m1 && expansion(*x.lhs, *y.lhs, depth, fuel, s0, m1) && expansion(*x.rhs, *y.rhs, depth, fuel, m1, s1),
                _ => false,
            },
            Ast::Car(x) => b matches Ast::Car(y) && y.source == x.source && expansion(*x.body, *y.body, depth, fuel, s0, s1),
            Ast::Cdr(x) => b matches Ast::Cdr(y) && y.source == x.source && expansion(*x.body, *y.body, depth, fuel, s0, s1),
            Ast::FnCall(x) => match b {
                Ast::FnCall(y) => y.source == x.source && exists|m1: Stage| #[trigger] witness(m1) == m1 && expansion(*x.function, *y.function, depth, fuel, s0, m1)
                    && expansion_seq(x.exprs@, y.exprs@, depth, fuel, m1, s1),
                _ => false,
            },
            Ast::IsType(x) => b matches Ast::IsType(y) && y.source == x.source && y.parameter == x.parameter && expansion(*x.body, *y.body, depth, fuel, s0, s1),
            Ast::Assert(x) => b matches Ast::Assert(y) && y.source == x.source && expansion(*x.body, *y.body, depth, fuel, s0, s1),
            Ast::MapInsert(x) => match b {
                Ast::MapInsert(y) => y.source == x.source && exists|m1: Stage, m2: Stage|
                    #[trigger] witness((m1, m2)) == (m1, m2) &&
                    expansion(*x.map, *y.map, depth, fuel, s0, m1) && expansion(*x.key, *y.key, depth, fuel, m1, m2)
                    && expansion(*x.value, *y.value, depth, fuel, m2, s1),
                _ => false,
            },
            Ast::MapRetrieve(x) => match b {
                Ast::MapRetrieve(y) => y.source == x.source
                    && exists|m1: Stage| #[trigger] witness(m1) == m1 && expansion(*x.map, *y.map, depth, fuel, s0, m1) && expansion(*x.key, *y.key, depth, fuel, m1, s1),
                _ => false,
            },
            Ast::MapItems(x) => b matches Ast::MapItems(y) && y.source == x.source && expansion(*x.map, *y.map, depth, fuel, s0, s1),
            _ => b == a && s1 == s0,
        }
    }
}

/// `bs` are `as_` expanded one after the other, from `s0` to `s1`.
pub open spec fn expansion_seq(as_: Seq<Ast>, bs: Seq<Ast>, depth: nat, fuel: nat, s0: Stage, s1: Stage) -> bool
    decreases depth, as_, 0int,
{
    &&& as_.len() == bs.len()
    &&& if as_.len() == 0 {
        s1 == s0
    } else {
        exists|mid: Stage| #[trigger] witness(mid) == mid && expansion_seq(as_.subrange(0, as_.len() - 1), bs.subrange(0, bs.len() - 1), depth, fuel, s0, mid)
            && expansion(as_[as_.len() - 1], bs[bs.len() - 1], depth, fuel, mid, s1)
    }
}

/// Runs a macro call: the macro's closure is applied to the quoted arguments.
fn call_macro(vm: &mut Vm, call: ast::MacroCall) -> (r: Result<Option<usize>, Failure>)
    requires
        old(vm).view().wf(),
    ensures
        final(vm).view().wf(),
        final(vm).spec_step_limit() == old(vm).spec_step_limit(),
        (r is Ok || r matches Err(Failure::Run(_))) ==> exists|code: Il, pool: Seq<Constant>|
            macro_call_code(call, code) && #[trigger] runs(old(vm).view(), old(vm).spec_step_limit() as nat, pool, code, reported(r), final(vm).view()),
{
    let ghost whole = call;
    let source = call.source;
    let ghost orig = call.args@;
    let total = call.args.len();
    let mut args: Vec<Il> = Vec::new();
    let mut quoted = call.args;
    let mut k: usize = 0;
    while quoted.len() > 0
        invariant
            k <= orig.len(),
            orig.len() == total,
            quoted@ == orig.subrange(k as int, orig.len() as int),
            args@.len() == k,
            source == whole.source,
            forall|j: int| 0 <= j < k ==> #[trigger] args@[j] == (Il::Quote { source, body: orig[j] }),
        decreases quoted@.len(),
    {
        let q: Quoted = quoted.remove(0);
        assert(q == orig[k as int]);
        args.push(Il::Quote { source, body: q });
        k = k + 1;
    }
    let function = Il::VarRef(VarRef::Global { source, name: call.name });
    let code = Il::FnCall { source, function: Box::new(function), args };
    assert(macro_call_code(whole, code));
    let r = run_il(vm, &code);
    proof {
        if r is Ok || r matches Err(Failure::Run(_)) {
            let pool = choose|pool: Seq<Constant>| #[trigger] runs(old(vm).view(), old(vm).spec_step_limit() as nat, pool, code, reported(r), vm.view());
            assert(macro_call_code(whole, code) && runs(old(vm).view(), old(vm).spec_step_limit() as nat, pool, code, reported(r), vm.view()));
        }
    }
    r
}

proof fn lemma_seq_step(as_: Seq<Ast>, bs: Seq<Ast>, depth: nat, fuel: nat, s0: Stage, mid: Stage, s1: Stage)
    requires
        as_.len() > 0,
        as_.len() == bs.len(),
        expansion_seq(as_.subrange(0, as_.len() - 1), bs.subrange(0, bs.len() - 1), depth, fuel, s0, mid),
        expansion(as_[as_.len() - 1], bs[bs.len() - 1], depth, fuel, mid, s1),
    ensures
        expansion_seq(as_, bs, depth, fuel, s0, s1),
{
    assert(witness(mid) == mid);
}

proof fn lemma_runs_step(es: Seq<Ast>, fuel: nat, s0: VmState, mid: VmState, code: Il, pool: Seq<Constant>, x: Option<usize>, s1: VmState)
    requires
        es.len() > 0,
        runs_all(es.subrange(0, es.len() - 1), fuel, s0, mid),
        il_from(es.last(), code),
        runs(mid, fuel, pool, code, Ok::<Option<usize>, crate::vm::Fault>(x), s1),
    ensures
        runs_all(es, fuel, s0, s1),
{

}

/// Resolves and runs the trees in order, stopping at the first that fails.
#[verifier::rlimit(100)]
fn run_each(vm: &mut Vm, exprs: Vec<Ast>) -> (r: Result<(), ()>)
    requires
        old(vm).view().wf(),
    ensures
        final(vm).view().wf(),
        final(vm).spec_step_limit() == old(vm).spec_step_limit(),
        r is Ok ==> runs_all(exprs@, old(vm).spec_step_limit() as nat, old(vm).view(), final(vm).view()),
{
    let ghost es = exprs@;
    let ghost fuel = old(vm).spec_step_limit() as nat;
    let ghost start = vm.view();
    let total = exprs.len();
    let mut rest = exprs;
    let mut k: usize = 0;
    proof {
        assert(es.subrange(0, 0) =~= Seq::<Ast>::empty());
    }
    while rest.len() > 0
        invariant
            k <= total,
            es.len() == total,
            rest@ == es.subrange(k as int, total as int),
            vm.view().wf(),
            vm.spec_step_limit() == old(vm).spec_step_limit(),
            fuel == old(vm).spec_step_limit() as nat,
            start == old(vm).view(),
            runs_all(es.subrange(0, k as int), fuel, start, vm.view()),
        decreases rest@.len(),
    {
        let e = rest.remove(0);
        assert(e == es[k as int]);
        let ghost before = vm.view();
        let ghost e0 = e;
        match run_ast(vm, e) {
            Ok(x) => {
                proof {
                    let r = Ok::<Option<usize>, Failure>(x);
                    let (code, pool) = choose|code: Il, pool: Seq<Constant>|
                        il_from(e0, code) && #[trigger] runs(before, fuel, pool, code, reported(r), vm.view());
                    let next = es.subrange(0, k + 1);
                    assert(next.len() == k + 1);
                    assert(next.subrange(0, k as int) =~= es.subrange(0, k as int));
                    assert(next.last() == e0);
                    lemma_runs_step(next, fuel, start, before, code, pool, x, vm.view());
                }
            },
            Err(_) => return Err(()),
        }
        k = k + 1;
    }
    assert(es.subrange(0, total as int) =~= es);
    Ok(())
}

/// The machine and macro names that `vm` and `compiler` hold.
pub open spec fn stage_of(vm: &Vm, compiler: &ast::Compiler) -> Stage {
    Stage { vm: vm.view(), macros: compiler.macros() }
}

fn expand_all(vm: &mut Vm, compiler: &mut ast::Compiler, asts: Vec<Ast>, depth: usize) -> (r: Result<Vec<Ast>, Failure>)
    requires
        old(vm).view().wf(),
    ensures
        final(vm).view().wf(),
        final(vm).spec_step_limit() == old(vm).spec_step_limit(),
        r is Err ==> r matches Err(Failure::Lower(_)) || r matches Err(Failure::Expand(_)),
        r matches Ok(v) ==> (forall|k: int| 0 <= k < v@.len() ==> macro_free(#[trigger] v@[k]))
            && expansion_seq(asts@, v@, depth as nat, old(vm).spec_step_limit() as nat, stage_of(&*old(vm), &*old(compiler)), stage_of(&*final(vm), &*final(compiler))),
    decreases depth, asts, 0int,
{
    let ghost orig = asts@;
    let ghost start = stage_of(vm, compiler);
    let total = asts.len();
    let mut rest = asts;
    let mut out: Vec<Ast> = Vec::new();
    let mut k: usize = 0;
    proof {
        assert(orig.subrange(0, 0) =~= Seq::<Ast>::empty());
        assert(out@ =~= Seq::<Ast>::empty());
    }
    while rest.len() > 0
        invariant
            k <= total,
            orig.len() == total,
            rest@ == orig.subrange(k as int, total as int),
            orig == asts@,
            out@.len() == k,
            start == stage_of(&*old(vm), &*old(compiler)),
            vm.view().wf(),
            vm.spec_step_limit() == old(vm).spec_step_limit(),
            forall|j: int| 0 <= j < out@.len() ==> macro_free(#[trigger] out@[j]),
            expansion_seq(orig.subrange(0, k as int), out@, depth as nat, old(vm).spec_step_limit() as nat, start, stage_of(vm, compiler)),
        decreases rest@.len(),
    {
        let a = rest.remove(0);
        assert(a == orig[k as int]);
        proof {
            assert(decreases_to!(asts => asts@[k as int]));
        }
        let ghost before = stage_of(vm, compiler);
        let ghost out0 = out@;
        match expand(vm, compiler, a, depth) {
            Ok(b) => out.push(b),
            Err(e) => return Err(e),
        }
        proof {
            let next = orig.subrange(0, k + 1);
            assert(next.len() == k + 1 && out@.len() == k + 1);
            assert(next.subrange(0, k as int) =~= orig.subrange(0, k as int));
            assert(out@.subrange(0, k as int) =~= out0);
            assert(next[k as int] == orig[k as int]);
            assert(expansion_seq(next.subrange(0, next.len() - 1), out@.subrange(0, out@.len() - 1), depth as nat, old(vm).spec_step_limit() as nat, start, before));
            assert(expansion(next[next.len() - 1], out@[out@.len() - 1], depth as nat, old(vm).spec_step_limit() as nat, before, stage_of(vm, compiler)));
            lemma_seq_step(next, out@, depth as nat, old(vm).spec_step_limit() as nat, start, before, stage_of(vm, compiler));
            assert(expansion_seq(next, out@, depth as nat, old(vm).spec_step_limit() as nat, start, stage_of(vm, compiler)));
        }
        k = k + 1;
    }
    assert(orig.subrange(0, total as int) =~= orig);
    Ok(out)
}

fn expand_box(vm: &mut Vm, compiler: &mut ast::Compiler, a: Box<Ast>, depth: usize) -> (r: Result<Box<Ast>, Failure>)
    requires
        old(vm).view().wf(),
    ensures
        final(vm).view().wf(),
        final(vm).spec_step_limit() == old(vm).spec_step_limit(),
        r is Err ==> r matches Err(Failure::Lower(_)) || r matches Err(Failure::Expand(_)),
        r matches Ok(b) ==> macro_free(*b) && expansion(*a, *b, depth as nat, old(vm).spec_step_limit() as nat, stage_of(&*old(vm), &*old(compiler)), stage_of(&*final(vm), &*final(compiler))),
    decreases depth, a, 2int,
{
    match expand(vm, compiler, *a, depth) {
        Ok(b) => Ok(Box::new(b)),
        Err(e) => Err(e),
    }
}

/// Expands every macro in a tree, at most `depth` macro calls deep, running
/// macros and compile-time blocks on `vm` and lowering what macros return
/// with `compiler`; the result and the machine and macro names left are
/// related to `a` and those before by `expansion`. A tree without macro forms
/// comes back unchanged; a failure is one of expansion (depth exhausted, a
/// macro or compile-time block that fails, a macro result that cannot be read
/// back) or of lowering what a macro returned.
pub fn expand(vm: &mut Vm, compiler: &mut ast::Compiler, a: Ast, depth: usize) -> (r: Result<Ast, Failure>)
    requires
        old(vm).view().wf(),
    ensures
        final(vm).view().wf(),
        final(vm).spec_step_limit() == old(vm).spec_step_limit(),
        macro_free(a) ==> r == Ok::<Ast, Failure>(a) && stage_of(&*final(vm), &*final(compiler)) == stage_of(&*old(vm), &*old(compiler)),
        r is Err ==> !macro_free(a) && (r matches Err(Failure::Lower(_)) || r matches Err(Failure::Expand(_))),
        r matches Ok(b) ==> macro_free(b) && expansion(a, b, depth as nat, old(vm).spec_step_limit() as nat, stage_of(&*old(vm), &*old(compiler)), stage_of(&*final(vm), &*final(compiler))),
    decreases depth, a, 1int,
{
    if has_no_macros(&a) {
        return Ok(a);
    }
    let ghost whole = a;
    let ghost s0 = stage_of(vm, compiler);
    let ghost fuel = old(vm).spec_step_limit() as nat;
    match a {
        Ast::DefMacro(x) => {
            let body = expand_all(vm, compiler, x.body, depth)?;
            let lambda = Ast::Lambda(ast::Lambda { source: x.source, ty: None, parameters: x.parameters, body });
            assert(macro_free(lambda));
            Ok(Ast::Def(ast::Def {
                source: x.source,
                parameter: Parameter { name: x.name, ty: None },
                body: Box::new(lambda),
            }))
        },
        Ast::EvalWhenCompile(x) => {
            let exprs = expand_all(vm, compiler, x.exprs, depth)?;
            let ghost mid = stage_of(vm, compiler);
            let ghost es = exprs@;
            match run_each(vm, exprs) {
                Ok(()) => {},
                Err(()) => return Err(expansion_error(x.source, "compile-time evaluation failed")),
            }
            proof {
                assert(witness((mid, es)) == (mid, es));
            }
            Ok(Ast::Constant(ast::Constant::Nil { source: x.source }))
        },
        Ast::MacroCall(x) => {
            let source = x.source;
            let ghost call = x;
            if depth == 0 {
                return Err(expansion_error(source, "macro expansion too deep"));
            }
            let ghost start = vm.view();
            let h = match call_macro(vm, x) {
                Ok(Some(h)) => h,
                Ok(None) => return Err(expansion_error(source, "macro returned nothing")),
                Err(_) => return Err(expansion_error(source, "macro failed to run")),
            };
            let ghost end = vm.view();
            let s = match to_sexpr(vm, h, source, DATA_DEPTH) {
                Some(s) => s,
                None => return Err(expansion_error(source, "macro returned data that is not code")),
            };
            let ghost m = compiler.macros();
            let lowered = match compiler.compile(&s) {
                Ok(b) => b,
                Err(e) => return Err(Failure::Lower(e)),
            };
            let ghost c = lowered;
            let ghost mid = stage_of(vm, compiler);
            let r = expand(vm, compiler, lowered, depth - 1);
            proof {
                if r is Ok {
                    let b = r->Ok_0;
                    let result = Ok::<Option<usize>, crate::vm::Fault>(Some(h));
                    let (code, pool) = choose|code: Il, pool: Seq<Constant>|
                        macro_call_code(call, code) && #[trigger] runs(start, fuel, pool, code, result, end);
                    assert(mid == (Stage { vm: end, macros: ast::macros_after(s0.macros, s) }));
                    assert(macro_call_code(call, code) && runs(s0.vm, fuel, pool, code, result, end)
                        && reads_as(end.cells, h as int, call.source, DATA_DEPTH as nat, s)
                        && ast::lowers(s0.macros, s, c) && expansion(c, b, (depth - 1) as nat, fuel, mid, stage_of(vm, compiler)));
                    assert(expansion(whole, b, depth as nat, fuel, s0, stage_of(vm, compiler)));
                }
            }
            r
        },
        Ast::Lambda(x) => {
            let body = expand_all(vm, compiler, x.body, depth)?;
            Ok(Ast::Lambda(ast::Lambda { source: x.source, ty: x.ty, parameters: x.parameters, body }))
        },
        Ast::Def(x) => {
            let body = expand_box(vm, compiler, x.body, depth)?;
            Ok(Ast::Def(ast::Def { source: x.source, parameter: x.parameter, body }))
        },
        Ast::Decl(x) => {
            let body = expand_box(vm, compiler, x.body, depth)?;
            Ok(Ast::Decl(ast::Decl { source: x.source, parameter: x.parameter, body }))
        },
        Ast::Assign(x) => {
            let body = expand_box(vm, compiler, x.body, depth)?;
            Ok(Ast::Assign(ast::Assign { source: x.source, variable: x.variable, body }))
        },
        Ast::If(x) => {
            let ghost (p0, c0, a0) = (*x.predicate, *x.consequent, *x.alternative);
            let predicate = expand_box(vm, compiler, x.predicate, depth)?;
            let ghost m1 = stage_of(vm, compiler);
            let consequent = expand_box(vm, compiler, x.consequent, depth)?;
            let ghost m2 = stage_of(vm, compiler);
            let alternative = expand_box(vm, compiler, x.alternative, depth)?;
            proof {
                assert(expansion(p0, *predicate, depth as nat, fuel, s0, m1));
                assert(expansion(c0, *consequent, depth as nat, fuel, m1, m2));
                assert(witness((m1, m2)) == (m1, m2));
            }
            Ok(Ast::If(ast::If { source: x.source, predicate, consequent, alternative }))
        },
        Ast::Apply(x) => {
            let ghost f0 = *x.function;
            let function = expand_box(vm, compiler, x.function, depth)?;
            let ghost m1 = stage_of(vm, compiler);
            let list = expand_box(vm, compiler, x.list, depth)?;
            proof {
                assert(expansion(f0, *function, depth as nat, fuel, s0, m1));
                assert(witness(m1) == m1);
            }
            Ok(Ast::Apply(ast::Apply { source: x.source, function, list }))
        },
        Ast::BinaryArithmeticOperation(x) => {
            let ghost l0 = *x.lhs;
            let lhs = expand_box(vm, compiler, x.lhs, depth)?;
            let ghost m1 = stage_of(vm, compiler);
            let rhs = expand_box(vm, compiler, x.rhs, depth)?;
            proof {
                assert(expansion(l0, *lhs, depth as nat, fuel, s0, m1));
                assert(witness(m1) == m1);
            }
            Ok(Ast::BinaryArithmeticOperation(ast::BinaryArithmeticOperation { source: x.source, operator: x.operator, lhs, rhs }))
        },
        Ast::ComparisonOperation(x) => {
            let ghost l0 = *x.lhs;
            let lhs = expand_box(vm, compiler, x.lhs, depth)?;
            let ghost m1 = stage_of(vm, compiler);
            let rhs = expand_box(vm, compiler, x.rhs, depth)?;
            proof {
                assert(expansion(l0, *lhs, depth as nat, fuel, s0, m1));
                assert(witness(m1) == m1);
            }
            Ok(Ast::ComparisonOperation(ast::ComparisonOperation { source: x.source, operator: x.operator, lhs, rhs }))
        },
        Ast::List(x) => {
            let exprs = expand_all(vm, compiler, x.exprs, depth)?;
            Ok(Ast::List(ast::List { source: x.source, exprs }))
        },
        Ast::Cons(x) => {
            let ghost l0 = *x.lhs;
            let lhs = expand_box(vm, compiler, x.lhs, depth)?;
            let ghost m1 = stage_of(vm, compiler);
            let rhs = expand_box(vm, compiler, x.rhs, depth)?;
            proof {
                assert(expansion(l0, *lhs, depth as nat, fuel, s0, m1));
                assert(witness(m1) == m1);
            }
            Ok(Ast::Cons(ast::Cons { source: x.source, lhs, rhs }))
        },
        Ast::Car(x) => {
            let body = expand_box(vm, compiler, x.body, depth)?;
            Ok(Ast::Car(ast::Car { source: x.source, body }))
        },
        Ast::Cdr(x) => {
            let body = expand_box(vm, compiler, x.body, depth)?;
            Ok(Ast::Cdr(ast::Cdr { source: x.source, body }))
        },
        Ast::FnCall(x) => {
            let ghost f0 = *x.function;
            let function = expand_box(vm, compiler, x.function, depth)?;
            let ghost m1 = stage_of(vm, compiler);
            let exprs = expand_all(vm, compiler, x.exprs, depth)?;
            proof {
                assert(expansion(f0, *function, depth as nat, fuel, s0, m1));
                assert(witness(m1) == m1);
            }
            Ok(Ast::FnCall(ast::FnCall { source: x.source, function, exprs }))
        },
        Ast::IsType(x) => {
            let body = expand_box(vm, compiler, x.body, depth)?;
            Ok(Ast::IsType(ast::IsType { source: x.source, parameter: x.parameter, body }))
        },
        Ast::Assert(x) => {
            let body = expand_box(vm, compiler, x.body, depth)?;
            Ok(Ast::Assert(ast::Assert { source: x.source, body }))
        },
        Ast::MapInsert(x) => {
            let ghost (k0, v0) = (*x.map, *x.key);
            let map = expand_box(vm, compiler, x.map, depth)?;
            let ghost m1 = stage_of(vm, compiler);
            let key = expand_box(vm, compiler, x.key, depth)?;
            let ghost m2 = stage_of(vm, compiler);
            let value = expand_box(vm, compiler, x.value, depth)?;
            proof {
                assert(expansion(k0, *map, depth as nat, fuel, s0, m1));
                assert(witness(m1) == m1);
                assert(expansion(v0, *key, depth as nat, fuel, m1, m2));
                assert(witness((m1, m2)) == (m1, m2));
            }
            Ok(Ast::MapInsert(ast::MapInsert { source: x.source, map, key, value }))
        },
        Ast::MapRetrieve(x) => {
            let ghost k0 = *x.map;
            let map = expand_box(vm, compiler, x.map, depth)?;
            let ghost m1 = stage_of(vm, compiler);
            let key = expand_box(vm, compiler, x.key, depth)?;
            proof {
                assert(expansion(k0, *map, depth as nat, fuel, s0, m1));
                assert(witness(m1) == m1);
            }
            Ok(Ast::MapRetrieve(ast::MapRetrieve { source: x.source, map, key }))
        },
        Ast::MapItems(x) => {
            let map = expand_box(vm, compiler, x.map, depth)?;
            Ok(Ast::MapItems(ast::MapItems { source: x.source, map }))
        },
        other => Ok(other),
    }
}

} // verus!
