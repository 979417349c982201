//! The whole pipeline over a sequence of top-level forms: lowering, scope
//! resolution, emission, loading of the constants, and execution.
use vstd::prelude::*;

use crate::ast::{self, accepts, lowers, macros_after, Ast};
use crate::bytecode::{self, emittable, emitted_seq, entries, ops_of, OpCodeTable};
use crate::il::{self, il_from, supported, Il};
use crate::sexpr::Sexpr;
use crate::vm::{self, loaded, outcome, run, Constant, Vm, VmState};
use crate::expand::{expand, expansion, macro_free, runs, stage_of, witness, Stage, EXPANSION_DEPTH};

verus! {

/// A failure of one of the stages.
#[derive(Debug)]
pub enum Failure {
    Lower(ast::Error),
    Expand(ast::Error),
    Resolve(il::Error),
    Emit(bytecode::Error),
    Run(vm::Error),
}

/// The macro names in force after lowering `forms` in order, starting from `m`.
pub open spec fn macros_through(m: Set<Seq<char>>, forms: Seq<Sexpr>) -> Set<Seq<char>>
    decreases forms.len(),
{
    if forms.len() == 0 {
        m
    } else {
        macros_after(macros_through(m, forms.drop_last()), forms.last())
    }
}

/// `asts` and `ils` are what the top-level `forms` lower and resolve to, one
/// after the other, starting with the macros `m`.
pub open spec fn program_from(m: Set<Seq<char>>, forms: Seq<Sexpr>, asts: Seq<Ast>, ils: Seq<Il>) -> bool {
    &&& asts.len() == forms.len()
    &&& ils.len() == forms.len()
    &&& forall|i: int| 0 <= i < forms.len() ==> lowers(macros_through(m, forms.subrange(0, i)), #[trigger] forms[i], asts[i])
    &&& forall|i: int| 0 <= i < forms.len() ==> il_from(#[trigger] asts[i], ils[i])
}

/// Lowers, resolves and emits the top-level forms in order, appending their
/// code to `table` and their constants to `pool`.
pub fn compile_program(compiler: &mut ast::Compiler, forms: &Vec<Sexpr>, table: &mut OpCodeTable, pool: &mut Vec<Constant>) -> (r: Result<(), Failure>)
    ensures
        !(r matches Err(Failure::Run(_)) || r matches Err(Failure::Expand(_))),
        r matches Err(Failure::Lower(_)) ==> exists|i: int| 0 <= i < forms@.len()
            && !accepts(#[trigger] macros_through(old(compiler).macros(), forms@.subrange(0, i)), forms@[i]),
        r matches Err(Failure::Resolve(_)) ==> exists|i: int, a: Ast| 0 <= i < forms@.len()
            && #[trigger] lowers(macros_through(old(compiler).macros(), forms@.subrange(0, i)), forms@[i], a) && !supported(a),
        r matches Err(Failure::Emit(_)) ==> exists|i: int, a: Ast, l: Il| 0 <= i < forms@.len()
            && #[trigger] lowers(macros_through(old(compiler).macros(), forms@.subrange(0, i)), forms@[i], a) && #[trigger] il_from(a, l) && !emittable(l, false),
        r is Ok ==> exists|asts: Seq<Ast>, ils: Seq<Il>| {
            &&& #[trigger] program_from(old(compiler).macros(), forms@, asts, ils)
            &&& final(compiler).macros() == macros_through(old(compiler).macros(), forms@)
            &&& final(table).view() == old(table).view() + emitted_seq(ils, false).0
            &&& entries(final(pool)@) == entries(old(pool)@) + emitted_seq(ils, false).1
        },
{
    let ghost m0 = compiler.macros();
    let ghost mut asts: Seq<Ast> = Seq::empty();
    let ghost mut ils: Seq<Il> = Seq::empty();
    let mut i: usize = 0;
    while i < forms.len()
        invariant
            i <= forms@.len(),
            m0 == old(compiler).macros(),
            program_from(m0, forms@.subrange(0, i as int), asts, ils),
            compiler.macros() == macros_through(m0, forms@.subrange(0, i as int)),
            table.view() == old(table).view() + emitted_seq(ils, false).0,
            entries(pool@) == entries(old(pool)@) + emitted_seq(ils, false).1,
        decreases forms@.len() - i,
    {
        let ghost mi = macros_through(m0, forms@.subrange(0, i as int));
        let a = match compiler.compile(&forms[i]) {
            Ok(a) => a,
            Err(e) => {
                assert(!accepts(macros_through(m0, forms@.subrange(0, i as int)), forms@[i as int]));
                return Err(Failure::Lower(e));
            },
        };
        let ghost a0 = a;
        let mut resolver = il::Compiler::new();
        let l = match resolver.compile(a) {
            Ok(l) => l,
            Err(e) => {
                assert(lowers(macros_through(m0, forms@.subrange(0, i as int)), forms@[i as int], a0) && !supported(a0));
                return Err(Failure::Resolve(e));
            },
        };
        match bytecode::compile(&l, false, table, pool) {
            Ok(()) => {},
            Err(e) => {
                assert(lowers(mi, forms@[i as int], a0) && il_from(a0, l) && !emittable(l, false));
                return Err(Failure::Emit(e));
            },
        }
        proof {
            let prefix = forms@.subrange(0, i + 1);
            assert(prefix.drop_last() =~= forms@.subrange(0, i as int));
            let asts2 = asts.push(a0);
            let ils2 = ils.push(l);
            assert forall|j: int| 0 <= j < prefix.len() implies lowers(macros_through(m0, prefix.subrange(0, j)), #[trigger] prefix[j], asts2[j]) by {
                if j < i {
                    assert(prefix.subrange(0, j) =~= forms@.subrange(0, i as int).subrange(0, j));
                    assert(prefix[j] == forms@.subrange(0, i as int)[j]);
                } else {
                    assert(prefix.subrange(0, j) =~= forms@.subrange(0, i as int));
                }
            }
            assert forall|j: int| 0 <= j < prefix.len() implies il_from(#[trigger] asts2[j], ils2[j]) by {
                if j < i {
                    assert(asts2[j] == asts[j]);
                    assert(forms@.subrange(0, i as int)[j] == forms@[j]);
                }
            }
            assert(ils2.drop_last() =~= ils);
            assert(table.view() =~= old(table).view() + emitted_seq(ils2, false).0);
            assert(entries(pool@) =~= entries(old(pool)@) + emitted_seq(ils2, false).1);
            asts = asts2;
            ils = ils2;
        }
        i = i + 1;
    }
    assert(forms@.subrange(0, forms@.len() as int) =~= forms@);
    assert(program_from(m0, forms@, asts, ils));
    Ok(())
}

/// The forms lower and resolve to `ils`, whose emitted constants are `pool`;
/// loading `pool` into `start` and running the emitted code gives `result`
/// and leaves the machine `end`.
pub open spec fn pipeline(
    m: Set<Seq<char>>,
    forms: Seq<Sexpr>,
    start: VmState,
    fuel: nat,
    asts: Seq<Ast>,
    ils: Seq<Il>,
    pool: Seq<Constant>,
    result: Result<Option<usize>, vm::Fault>,
    end: VmState,
) -> bool {
    &&& program_from(m, forms, asts, ils)
    &&& entries(pool) == emitted_seq(ils, false).1
    &&& run(VmState { constants: loaded(start.constants, pool), ..start }, ops_of(emitted_seq(ils, false).0), fuel) == (result, end)
}

/// What `evaluate` reports, without the text of an error; failures before
/// the run count as faults of the code.
pub open spec fn reported(r: Result<Option<usize>, Failure>) -> Result<Option<usize>, vm::Fault> {
    match r {
        Ok(x) => Ok(x),
        Err(Failure::Run(e)) => Err(e.fault()),
        _ => Err(vm::Fault::Bytecode),
    }
}

/// Compiles the top-level forms as one program, loads its constants and runs
/// its code on `vm`; the result is the handle of the cell left on top, if any.
/// Macros are not expanded: a program that defines or calls one is refused.
pub fn run_program(vm: &mut Vm, compiler: &mut ast::Compiler, forms: &Vec<Sexpr>) -> (r: Result<Option<usize>, Failure>)
    requires
        old(vm).view().wf(),
    ensures
        final(vm).view().wf(),
        !(r matches Err(Failure::Expand(_))),
        r matches Err(Failure::Lower(_)) ==> exists|i: int| 0 <= i < forms@.len()
            && !accepts(#[trigger] macros_through(old(compiler).macros(), forms@.subrange(0, i)), forms@[i]),
        r matches Err(Failure::Resolve(_)) ==> exists|i: int, a: Ast| 0 <= i < forms@.len()
            && #[trigger] lowers(macros_through(old(compiler).macros(), forms@.subrange(0, i)), forms@[i], a) && !supported(a),
        r matches Err(Failure::Emit(_)) ==> exists|i: int, a: Ast, l: Il| 0 <= i < forms@.len()
            && #[trigger] lowers(macros_through(old(compiler).macros(), forms@.subrange(0, i)), forms@[i], a) && #[trigger] il_from(a, l) && !emittable(l, false),
        (r is Ok || r matches Err(Failure::Run(_))) ==> exists|asts: Seq<Ast>, ils: Seq<Il>, pool: Seq<Constant>|
            #[trigger] pipeline(old(compiler).macros(), forms@, old(vm).view(), old(vm).spec_step_limit() as nat,
                asts, ils, pool, reported(r), final(vm).view()),
{
    let mut table = OpCodeTable::new();
    let mut pool: Vec<Constant> = Vec::new();
    let ghost m0 = compiler.macros();
    match compile_program(compiler, forms, &mut table, &mut pool) {
        Ok(()) => {},
        Err(e) => return Err(e),
    }
    let ghost loaded_pool = pool@;
    let ghost t = table.view();
    vm.load_constants(pool);
    let code = table.opcodes();
    let ghost before = vm.view();
    let r = vm.eval(code.as_slice());
    let r = match r {
        Ok(x) => Ok(x),
        Err(e) => Err(Failure::Run(e)),
    };
    proof {
        assert(before == VmState { constants: loaded(old(vm).view().constants, loaded_pool), ..old(vm).view() });
        let (asts, ils) = choose|asts: Seq<Ast>, ils: Seq<Il>| {
            &&& #[trigger] program_from(m0, forms@, asts, ils)
            &&& t == Seq::<(vm::OpCode, crate::sexpr::Source)>::empty() + emitted_seq(ils, false).0
            &&& entries(loaded_pool) == entries(Seq::<Constant>::empty()) + emitted_seq(ils, false).1
        };
        assert(t =~= emitted_seq(ils, false).0);
        assert(entries(Seq::<Constant>::empty()) =~= Seq::empty());
        assert(entries(loaded_pool) =~= emitted_seq(ils, false).1);
        assert(pipeline(m0, forms@, old(vm).view(), old(vm).spec_step_limit() as nat, asts, ils, loaded_pool,
            reported(r), vm.view()));
    }
    r
}

/// The stage after lowering `form` from `s0`: the same machine, and the macro
/// names the lowering leaves.
pub open spec fn lowered_stage(s0: Stage, form: Sexpr) -> Stage {
    Stage { vm: s0.vm, macros: macros_after(s0.macros, form) }
}

/// One top-level form evaluated from `s0`: lowered to `lowered` under the
/// macro names of `s0`, expanded to `expanded` (leaving `mid`), resolved to
/// `code`, whose code ran from `mid` with the constants `pool`, reporting
/// `result` and leaving `s1`.
pub open spec fn form_step(form: Sexpr, fuel: nat, s0: Stage, lowered: Ast, expanded: Ast, mid: Stage, code: Il,
    pool: Seq<Constant>, result: Result<Option<usize>, vm::Fault>, s1: Stage) -> bool {
    &&& lowers(s0.macros, form, lowered)
    &&& expansion(lowered, expanded, EXPANSION_DEPTH as nat, fuel, lowered_stage(s0, form), mid)
    &&& macro_free(expanded)
    &&& il_from(expanded, code)
    &&& runs(mid.vm, fuel, pool, code, result, s1.vm)
    &&& s1.macros == mid.macros
}

/// The form `form` was evaluated from `s0`, reporting `result`, leaving `s1`.
pub open spec fn form_evaluated(form: Sexpr, fuel: nat, s0: Stage, result: Result<Option<usize>, vm::Fault>, s1: Stage) -> bool {
    exists|lowered: Ast, expanded: Ast, mid: Stage, code: Il, pool: Seq<Constant>|
        #[trigger] form_step(form, fuel, s0, lowered, expanded, mid, code, pool, result, s1)
}

/// The forms were evaluated one after the other from `s0`, none failing,
/// leaving `s1`; `last` is what the last one left on top.
pub open spec fn session(forms: Seq<Sexpr>, fuel: nat, s0: Stage, s1: Stage, last: Option<usize>) -> bool
    decreases forms.len(),
{
    if forms.len() == 0 {
        s1 == s0 && last is None
    } else {
        exists|mid: Stage, prev: Option<usize>| #[trigger] witness((mid, prev)) == (mid, prev)
            && session(forms.subrange(0, forms.len() - 1), fuel, s0, mid, prev)
            && form_evaluated(forms.last(), fuel, mid, Ok::<Option<usize>, vm::Fault>(last), s1)
    }
}

/// The form `form`, evaluated from `s0`, fails as `r` reports, leaving `s1`:
/// lowering refuses it or what a macro in it returned; expansion fails on a
/// tree with macro forms; resolution or emission refuses its expansion; or
/// its code runs into the error.
pub open spec fn form_failed(form: Sexpr, fuel: nat, s0: Stage, r: Result<Option<usize>, Failure>, s1: Stage) -> bool {
    match r {
        Err(Failure::Lower(_)) => !accepts(s0.macros, form)
            || exists|lowered: Ast| #[trigger] lowers(s0.macros, form, lowered) && !macro_free(lowered),
        Err(Failure::Expand(_)) => exists|lowered: Ast| #[trigger] lowers(s0.macros, form, lowered) && !macro_free(lowered),
        Err(Failure::Resolve(_)) => exists|lowered: Ast, expanded: Ast, mid: Stage|
            #[trigger] expansion(lowered, expanded, EXPANSION_DEPTH as nat, fuel, lowered_stage(s0, form), mid)
            && lowers(s0.macros, form, lowered) && macro_free(expanded) && !supported(expanded),
        Err(Failure::Emit(_)) => exists|lowered: Ast, expanded: Ast, mid: Stage, code: Il|
            #![trigger expansion(lowered, expanded, EXPANSION_DEPTH as nat, fuel, lowered_stage(s0, form), mid), il_from(expanded, code)]
            lowers(s0.macros, form, lowered) && expansion(lowered, expanded, EXPANSION_DEPTH as nat, fuel, lowered_stage(s0, form), mid)
            && macro_free(expanded) && il_from(expanded, code) && !emittable(code, false),
        Err(Failure::Run(e)) => form_evaluated(form, fuel, s0, Err::<Option<usize>, vm::Fault>(e.fault()), s1),
        Ok(_) => false,
    }
}

/// Evaluates the top-level forms one after the other, as a session does:
/// each is lowered, its macros are expanded on `vm`, and it is resolved,
/// emitted and run before the next form is read, so that a macro defined by
/// one form serves the forms after it. On success the forms make up a
/// `session` from the machine and macro names given to the ones left, and the
/// result is what the last form left on top. A failure comes at some form,
/// after the forms before it made up a session, and `form_failed` says what
/// refused it.
#[verifier::rlimit(100)]
pub fn evaluate(vm: &mut Vm, compiler: &mut ast::Compiler, forms: &Vec<Sexpr>) -> (r: Result<Option<usize>, Failure>)
    requires
        old(vm).view().wf(),
    ensures
        final(vm).view().wf(),
        final(vm).spec_step_limit() == old(vm).spec_step_limit(),
        r matches Ok(x) ==> session(forms@, old(vm).spec_step_limit() as nat, stage_of(&*old(vm), &*old(compiler)), stage_of(&*final(vm), &*final(compiler)), x),
        r is Err ==> exists|i: int, mid: Stage, prev: Option<usize>| 0 <= i < forms@.len()
            && #[trigger] session(forms@.subrange(0, i), old(vm).spec_step_limit() as nat, stage_of(&*old(vm), &*old(compiler)), mid, prev)
            && form_failed(forms@[i], old(vm).spec_step_limit() as nat, mid, r, stage_of(&*final(vm), &*final(compiler))),
{
    let ghost s0 = stage_of(vm, compiler);
    let ghost fuel = old(vm).spec_step_limit() as nat;
    let mut last: Option<usize> = None;
    let mut i: usize = 0;
    proof {
        assert(forms@.subrange(0, 0) =~= Seq::<Sexpr>::empty());
    }
    while i < forms.len()
        invariant
            i <= forms@.len(),
            vm.view().wf(),
            vm.spec_step_limit() == old(vm).spec_step_limit(),
            fuel == old(vm).spec_step_limit() as nat,
            s0 == stage_of(&*old(vm), &*old(compiler)),
            session(forms@.subrange(0, i as int), fuel, s0, stage_of(vm, compiler), last),
        decreases forms@.len() - i,
    {
        let ghost before = stage_of(vm, compiler);
        let ghost form = forms@[i as int];
        let ghost prefix = forms@.subrange(0, i as int);
        let lowered = match compiler.compile(&forms[i]) {
            Ok(a) => a,
            Err(e) => {
                let r = Err::<Option<usize>, Failure>(Failure::Lower(e));
                proof {
                    assert(form_failed(form, fuel, before, r, stage_of(vm, compiler)));
                    assert(session(prefix, fuel, s0, before, last));
                }
                return r;
            },
        };
        let ghost l0 = lowered;
        proof {
            assert(stage_of(vm, compiler) == lowered_stage(before, form));
        }
        let a = match expand(vm, compiler, lowered, EXPANSION_DEPTH) {
            Ok(a) => a,
            Err(e) => {
                let r = Err::<Option<usize>, Failure>(e);
                proof {
                    assert(lowers(before.macros, form, l0) && !macro_free(l0));
                    assert(form_failed(form, fuel, before, r, stage_of(vm, compiler)));
                    assert(session(prefix, fuel, s0, before, last));
                }
                return r;
            },
        };
        let ghost a0 = a;
        let ghost mid = stage_of(vm, compiler);
        proof {
            assert(expansion(l0, a0, EXPANSION_DEPTH as nat, fuel, lowered_stage(before, form), mid));
        }
        let r = crate::expand::run_ast(vm, a);
        let ghost rg = r;
        proof {
            if rg is Ok || rg matches Err(Failure::Run(_)) {
                let (code, pool) = choose|code: Il, pool: Seq<Constant>|
                    il_from(a0, code) && #[trigger] runs(mid.vm, fuel, pool, code, reported(rg), vm.view());
                assert(form_step(form, fuel, before, l0, a0, mid, code, pool, reported(rg), stage_of(vm, compiler)));
                assert(form_evaluated(form, fuel, before, reported(rg), stage_of(vm, compiler)));
            }
        }
        match r {
            Ok(x) => {
                proof {
                    let next = forms@.subrange(0, i + 1);
                    assert(next.len() == i + 1);
                    assert(next.subrange(0, i as int) =~= prefix);
                    assert(next.last() == form);
                    assert(reported(rg) == Ok::<Option<usize>, vm::Fault>(x));
                    assert(session(next.subrange(0, next.len() - 1), fuel, s0, before, last));
                    assert(witness((before, last)) == (before, last));
                    assert(session(next, fuel, s0, stage_of(vm, compiler), x));
                }
                last = x;
            },
            Err(e) => {
                proof {
                    if rg matches Err(Failure::Resolve(_)) {
                        assert(macro_free(a0) && !supported(a0));
                    }
                    if rg matches Err(Failure::Emit(_)) {
                        let code = choose|code: Il| #[trigger] il_from(a0, code) && !emittable(code, false);
                        assert(il_from(a0, code) && !emittable(code, false));
                    }
                    assert(form_failed(form, fuel, before, rg, stage_of(vm, compiler)));
                    assert(session(prefix, fuel, s0, before, last));
                }
                return Err(e);
            },
        }
        i = i + 1;
    }
    proof {
        assert(forms@.subrange(0, forms@.len() as int) =~= forms@);
    }
    Ok(last)
}

} // verus!
