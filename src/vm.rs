//! A stack machine over shared mutable cells.
//!
//! Every runtime value lives in a cell of the machine's heap and is handled
//! through the cell's index, so that a binding captured by several closures is
//! one cell that all of them see. Cells live as long as the machine.
use vstd::prelude::*;

use std::collections::HashMap;

verus! {

broadcast use vstd::std_specs::hash::group_hash_axioms;

#[derive(Clone, Copy, Debug, PartialEq, Eq, Structural)]
pub enum Arity {
    Nullary,
    Nary(usize),
    Variadic,
}

/// The run-time type of an object; `Predicate` names what a branch expects.
#[derive(Clone, Copy, Debug, PartialEq, Eq, Structural)]
pub enum Type {
    Function,
    Cons,
    String,
    Symbol,
    Int,
    Char,
    True,
    Nil,
    Predicate,
}

/// A run-time failure.
#[derive(Debug)]
pub enum Error {
    Type { expected: Type, received: Type },
    NotFound(String),
    Arity { expected: Arity, received: usize },
    Assert(String),
    DivisionByZero,
    Overflow,
    /// The bytecode broke one of its own invariants (a missing constant, a
    /// stack underflow, a jump out of range); never the case for emitted code.
    Bytecode(String),
    StepLimit,
}

/// What went wrong: the error without the text of its message.
pub enum Fault {
    Type { expected: Type, received: Type },
    NotFound(Seq<char>),
    Arity { expected: Arity, received: usize },
    Assert,
    DivisionByZero,
    Overflow,
    Bytecode,
    StepLimit,
}

impl Error {
    pub open spec fn fault(&self) -> Fault {
        match self {
            Error::Type { expected, received } => Fault::Type { expected: *expected, received: *received },
            Error::NotFound(name) => Fault::NotFound(name@),
            Error::Arity { expected, received } => Fault::Arity { expected: *expected, received: *received },
            Error::Assert(_) => Fault::Assert,
            Error::DivisionByZero => Fault::DivisionByZero,
            Error::Overflow => Fault::Overflow,
            Error::Bytecode(_) => Fault::Bytecode,
            Error::StepLimit => Fault::StepLimit,
        }
    }
}

/// An entry of the constant pool.
#[derive(Debug)]
pub enum Constant {
    String(String),
    Symbol(String),
    Opcodes(Vec<OpCode>),
}

/// Where a closure finds a captured cell: `frame` frames out from the one
/// running, at slot `index` of that frame.
#[derive(Clone, Copy, Debug, PartialEq, Eq, Structural)]
pub struct UpValue {
    pub frame: usize,
    pub index: usize,
}

#[derive(Clone, Copy, Debug, PartialEq, Eq, Structural)]
pub enum OpCode {
    DefGlobal(u64),
    SetGlobal(u64),
    GetGlobal(u64),
    SetLocal(usize),
    GetLocal(usize),
    SetUpValue(usize),
    GetUpValue(usize),
    Call(usize),
    Tail(usize),
    Return,
    Lambda { arity: Arity, body: u64 },
    CreateUpValue(UpValue),
    PushSymbol(u64),
    PushInt(i64),
    PushChar(char),
    PushString(u64),
    PushTrue,
    PushNil,
    Pop,
    Add,
    Sub,
    Mul,
    Div,
    Eq,
    Lt,
    Gt,
    Car,
    Cdr,
    Cons,
    List(usize),
    Jmp(isize),
    Branch(usize),
    IsType(Type),
    Assert,
}

/// A pair of cells.
#[derive(Clone, Copy, Debug, PartialEq, Eq)]
pub struct Cons(pub usize, pub usize);

/// A run-time value; functions and pairs refer to the machine's closures and
/// cells by index.
#[derive(Debug)]
pub enum Object {
    Function(usize),
    Cons(Cons),
    String(String),
    Symbol(String),
    Int(i64),
    Char(char),
    True,
    Nil,
}

/// A closure: its arity, its code, and the cells it captured.
#[derive(Debug)]
pub struct Lambda {
    arity: Arity,
    opcodes: Vec<OpCode>,
    upvalues: Vec<usize>,
}

/// The model of a closure.
pub struct LambdaState {
    pub arity: Arity,
    pub opcodes: Seq<OpCode>,
    pub upvalues: Seq<usize>,
}

impl Lambda {
    pub closed spec fn view(&self) -> LambdaState {
        LambdaState { arity: self.arity, opcodes: self.opcodes@, upvalues: self.upvalues@ }
    }

    pub fn arity(&self) -> (r: Arity)
        ensures
            r == self.view().arity,
    {
        self.arity
    }
}

/// A saved calling context.
#[derive(Clone, Copy, Debug, PartialEq, Eq)]
pub struct Frame {
    pub function: Option<usize>,
    pub pc: usize,
    pub bp: usize,
}

/// The model of the machine.
pub struct VmState {
    pub globals: Seq<(String, usize)>,
    pub constants: Map<u64, Constant>,
    pub cells: Seq<Object>,
    pub functions: Seq<LambdaState>,
    pub stack: Seq<usize>,
    pub frames: Seq<Frame>,
    pub current: Option<usize>,
    pub pc: usize,
    pub bp: usize,
}

pub open spec fn type_of(o: Object) -> Type {
    match o {
        Object::Function(_) => Type::Function,
        Object::Cons(_) => Type::Cons,
        Object::String(_) => Type::String,
        Object::Symbol(_) => Type::Symbol,
        Object::Int(_) => Type::Int,
        Object::Char(_) => Type::Char,
        Object::True => Type::True,
        Object::Nil => Type::Nil,
    }
}

/// The value that `(OP lhs rhs)` gives on integers.
pub open spec fn arith(op: OpCode, lhs: i64, rhs: i64) -> Result<i64, Fault> {
    let r = match op {
        OpCode::Add => lhs.checked_add(rhs),
        OpCode::Sub => lhs.checked_sub(rhs),
        OpCode::Mul => lhs.checked_mul(rhs),
        _ => lhs.checked_div(rhs),
    };
    if op == OpCode::Div && rhs == 0 {
        Err(Fault::DivisionByZero)
    } else {
        match r {
            Some(v) => Ok(v),
            None => Err(Fault::Overflow),
        }
    }
}

/// The first index of the globals bound to `name`, if any.
pub open spec fn global_index(g: Seq<(String, usize)>, name: Seq<char>) -> Option<int> {
    if exists|i: int| 0 <= i < g.len() && g[i].0@ == name {
        Some(choose|i: int| 0 <= i < g.len() && g[i].0@ == name && forall|j: int| 0 <= j < i ==> g[j].0@ != name)
    } else {
        None
    }
}

/// The cells of a fresh list of `items`, laid out from index `base`: first the
/// closing nil, then the pairs from the last item back to the first.
pub open spec fn list_cells(items: Seq<usize>, base: int) -> Seq<Object> {
    Seq::new(items.len() + 1, |k: int| if k == 0 {
        Object::Nil
    } else {
        Object::Cons(Cons(items[items.len() - k], (base + k - 1) as usize))
    })
}

impl VmState {
    pub open spec fn push_object(self, o: Object) -> VmState {
        VmState { cells: self.cells.push(o), stack: self.stack.push(self.cells.len() as usize), ..self }
    }

    pub open spec fn with_stack(self, stack: Seq<usize>) -> VmState {
        VmState { stack, ..self }
    }

    pub open spec fn top(self) -> Object {
        self.cells[self.stack.last() as int]
    }

    pub open spec fn symbol_constant(self, h: u64) -> Option<String> {
        if self.constants.contains_key(h) && self.constants[h] is Symbol {
            Some(self.constants[h]->Symbol_0)
        } else {
            None
        }
    }

    /// The machine after a run-time error: no frames, an empty stack.
    pub open spec fn unwound(self) -> VmState {
        VmState { stack: Seq::empty(), frames: Seq::empty(), current: None, pc: 0, bp: 0, ..self }
    }

    /// The cell that an upvalue descriptor names, counted from the running frame.
    pub open spec fn upvalue_slot(self, uv: UpValue) -> int {
        if uv.frame == 0 {
            self.bp + uv.index
        } else {
            self.frames[self.frames.len() - uv.frame].bp + uv.index
        }
    }
}

/// What one instruction does to the machine; the program counter has already
/// moved past it.
pub open spec fn step(s: VmState, op: OpCode) -> Result<VmState, Fault> {
    let n = s.stack.len();
    match op {
        OpCode::DefGlobal(h) => match s.symbol_constant(h) {
            Some(name) => if n == 0 {
                Err(Fault::Bytecode)
            } else {
                let v = s.stack.last();
                let globals = match global_index(s.globals, name@) {
                    Some(i) => s.globals.update(i, (name, v)),
                    None => s.globals.push((name, v)),
                };
                Ok(VmState { globals, ..s.with_stack(s.stack.drop_last()) }.push_object(Object::Nil))
            },
            None => Err(Fault::Bytecode),
        },
        OpCode::SetGlobal(h) => match s.symbol_constant(h) {
            Some(name) => if n == 0 {
                Err(Fault::Bytecode)
            } else {
                match global_index(s.globals, name@) {
                    Some(i) => Ok(VmState { globals: s.globals.update(i, (s.globals[i].0, s.stack.last())), ..s }),
                    None => Err(Fault::NotFound(name@)),
                }
            },
            None => Err(Fault::Bytecode),
        },
        OpCode::GetGlobal(h) => match s.symbol_constant(h) {
            Some(name) => match global_index(s.globals, name@) {
                Some(i) => Ok(s.with_stack(s.stack.push(s.globals[i].1))),
                None => Err(Fault::NotFound(name@)),
            },
            None => Err(Fault::Bytecode),
        },
        OpCode::GetLocal(i) => if s.bp + i < n {
            Ok(s.with_stack(s.stack.push(s.stack[s.bp + i])))
        } else {
            Err(Fault::Bytecode)
        },
        OpCode::SetLocal(i) => if n > 0 && s.bp + i < n - 1 {
            let target = s.stack[s.bp + i];
            Ok(VmState { cells: s.cells.update(target as int, s.top()), ..s })
        } else {
            Err(Fault::Bytecode)
        },
        OpCode::GetUpValue(i) => match s.current {
            Some(f) => if i < s.functions[f as int].upvalues.len() {
                Ok(s.with_stack(s.stack.push(s.functions[f as int].upvalues[i as int])))
            } else {
                Err(Fault::Bytecode)
            },
            None => Err(Fault::Bytecode),
        },
        OpCode::SetUpValue(i) => match s.current {
            Some(f) => if n > 0 && i < s.functions[f as int].upvalues.len() {
                let target = s.functions[f as int].upvalues[i as int];
                Ok(VmState { cells: s.cells.update(target as int, s.top()), stack: s.stack.drop_last(), ..s })
            } else {
                Err(Fault::Bytecode)
            },
            None => Err(Fault::Bytecode),
        },
        OpCode::Call(args) => if args < n {
            match s.cells[s.stack[n - args - 1] as int] {
                Object::Function(f) => {
                    let arity = s.functions[f as int].arity;
                    if (arity == Arity::Nullary && args != 0) || (arity matches Arity::Nary(k) && k != args) {
                        Err(Fault::Arity { expected: arity, received: args })
                    } else {
                        Ok(VmState {
                            frames: s.frames.push(Frame { function: s.current, pc: s.pc, bp: s.bp }),
                            current: Some(f),
                            bp: (n - args) as usize,
                            pc: 0,
                            ..s
                        })
                    }
                },
                o => Err(Fault::Type { expected: Type::Function, received: type_of(o) }),
            }
        } else {
            Err(Fault::Bytecode)
        },
        OpCode::Return => if n > 0 && s.frames.len() > 0 && 1 <= s.bp <= n {
            let frame = s.frames.last();
            Ok(VmState {
                stack: s.stack.subrange(0, s.bp - 1).push(s.stack.last()),
                frames: s.frames.drop_last(),
                current: frame.function,
                pc: frame.pc,
                bp: frame.bp,
                ..s
            })
        } else {
            Err(Fault::Bytecode)
        },
        OpCode::Lambda { arity, body } => if s.constants.contains_key(body) && s.constants[body] is Opcodes {
            let f = LambdaState { arity, opcodes: s.constants[body]->Opcodes_0@, upvalues: Seq::empty() };
            VmState { functions: s.functions.push(f), ..s }.push_object(Object::Function(s.functions.len() as usize)).to_ok()
        } else {
            Err(Fault::Bytecode)
        },
        OpCode::CreateUpValue(uv) => if n > 0 && uv.frame <= s.frames.len() && 0 <= s.upvalue_slot(uv) < n {
            match s.top() {
                Object::Function(f) => {
                    let l = s.functions[f as int];
                    let cell = s.stack[s.upvalue_slot(uv)];
                    Ok(VmState {
                        functions: s.functions.update(f as int, LambdaState { upvalues: l.upvalues.push(cell), ..l }),
                        ..s
                    })
                },
                o => Err(Fault::Type { expected: Type::Function, received: type_of(o) }),
            }
        } else {
            Err(Fault::Bytecode)
        },
        OpCode::PushSymbol(h) => match s.symbol_constant(h) {
            Some(name) => Ok(s.push_object(Object::Symbol(name))),
            None => Err(Fault::Bytecode),
        },
        OpCode::PushString(h) => if s.constants.contains_key(h) && s.constants[h] is String {
            Ok(s.push_object(Object::String(s.constants[h]->String_0)))
        } else {
            Err(Fault::Bytecode)
        },
        OpCode::PushInt(v) => Ok(s.push_object(Object::Int(v))),
        OpCode::PushChar(c) => Ok(s.push_object(Object::Char(c))),
        OpCode::PushTrue => Ok(s.push_object(Object::True)),
        OpCode::PushNil => Ok(s.push_object(Object::Nil)),
        OpCode::Pop => if n > 0 { Ok(s.with_stack(s.stack.drop_last())) } else { Err(Fault::Bytecode) },
        OpCode::Add | OpCode::Sub | OpCode::Mul | OpCode::Div => if n >= 2 {
            let rhs = s.cells[s.stack[n - 1] as int];
            let lhs = s.cells[s.stack[n - 2] as int];
            match (lhs, rhs) {
                (Object::Int(a), Object::Int(b)) => match arith(op, a, b) {
                    Ok(v) => Ok(s.with_stack(s.stack.subrange(0, n - 2)).push_object(Object::Int(v))),
                    Err(f) => Err(f),
                },
                (_, Object::Int(_)) => Err(Fault::Type { expected: Type::Int, received: type_of(lhs) }),
                _ => Err(Fault::Type { expected: Type::Int, received: type_of(rhs) }),
            }
        } else {
            Err(Fault::Bytecode)
        },
        OpCode::Eq | OpCode::Lt | OpCode::Gt => if n >= 2 {
            let rhs = s.cells[s.stack[n - 1] as int];
            let lhs = s.cells[s.stack[n - 2] as int];
            match (lhs, rhs) {
                (Object::Int(a), Object::Int(b)) => {
                    let holds = if op == OpCode::Eq { a == b } else if op == OpCode::Lt { a < b } else { a > b };
                    Ok(s.with_stack(s.stack.subrange(0, n - 2)).push_object(if holds { Object::True } else { Object::Nil }))
                },
                (_, Object::Int(_)) => Err(Fault::Type { expected: Type::Int, received: type_of(lhs) }),
                _ => Err(Fault::Type { expected: Type::Int, received: type_of(rhs) }),
            }
        } else {
            Err(Fault::Bytecode)
        },
        OpCode::Car | OpCode::Cdr => if n > 0 {
            match s.top() {
                Object::Cons(pair) => Ok(s.with_stack(s.stack.drop_last().push(if op == OpCode::Car { pair.0 } else { pair.1 }))),
                o => Err(Fault::Type { expected: Type::Cons, received: type_of(o) }),
            }
        } else {
            Err(Fault::Bytecode)
        },
        OpCode::Cons => if n >= 2 {
            s.with_stack(s.stack.subrange(0, n - 2)).push_object(Object::Cons(Cons(s.stack[n - 2], s.stack[n - 1]))).to_ok()
        } else {
            Err(Fault::Bytecode)
        },
        OpCode::List(k) => if k <= n && s.cells.len() + k < usize::MAX {
            let base = s.cells.len() as int;
            Ok(VmState {
                cells: s.cells + list_cells(s.stack.subrange(n - k, n as int), base),
                stack: s.stack.subrange(0, n - k).push((base + k) as usize),
                ..s
            })
        } else {
            Err(Fault::Bytecode)
        },
        OpCode::Jmp(k) => if 0 <= s.pc + k <= usize::MAX {
            Ok(VmState { pc: (s.pc + k) as usize, ..s })
        } else {
            Err(Fault::Bytecode)
        },
        OpCode::Branch(k) => if n > 0 {
            match s.top() {
                Object::True => Ok(s.with_stack(s.stack.drop_last())),
                Object::Nil => if s.pc + k <= usize::MAX {
                    Ok(VmState { pc: (s.pc + k) as usize, ..s.with_stack(s.stack.drop_last()) })
                } else {
                    Err(Fault::Bytecode)
                },
                o => Err(Fault::Type { expected: Type::Predicate, received: type_of(o) }),
            }
        } else {
            Err(Fault::Bytecode)
        },
        OpCode::IsType(t) => if n > 0 {
            Ok(s.push_object(if type_of(s.top()) == t { Object::True } else { Object::Nil }))
        } else {
            Err(Fault::Bytecode)
        },
        OpCode::Assert => if n > 0 {
            if s.top() is True { Ok(s.with_stack(s.stack.drop_last())) } else { Err(Fault::Assert) }
        } else {
            Err(Fault::Bytecode)
        },
        OpCode::Tail(args) => if args < n && s.frames.len() > 0 && 1 <= s.bp && s.bp - 1 <= n - args - 1 {
            match s.cells[s.stack[n - args - 1] as int] {
                Object::Function(f) => {
                    let arity = s.functions[f as int].arity;
                    if (arity == Arity::Nullary && args != 0) || (arity matches Arity::Nary(k) && k != args) {
                        Err(Fault::Arity { expected: arity, received: args })
                    } else {
                        Ok(VmState {
                            stack: s.stack.subrange(0, s.bp - 1) + s.stack.subrange(n - args - 1, n as int),
                            current: Some(f),
                            pc: 0,
                            ..s
                        })
                    }
                },
                o => Err(Fault::Type { expected: Type::Function, received: type_of(o) }),
            }
        } else {
            Err(Fault::Bytecode)
        },
    }
}

impl VmState {
    pub open spec fn to_ok(self) -> Result<VmState, Fault> {
        Ok(self)
    }
}


/// The machine: globals, constant pool, the heap of cells and closures, the
/// operand stack and the saved frames.
pub struct Vm {
    globals: Vec<(String, usize)>,
    constants: HashMap<u64, Constant>,
    cells: Vec<Object>,
    functions: Vec<Lambda>,
    stack: Vec<usize>,
    frames: Vec<Frame>,
    current_function: Option<usize>,
    pc: usize,
    bp: usize,
    step_limit: u64,
}

/// Whether the handles inside `o` point into a heap of `cells` cells and
/// `functions` closures.
pub open spec fn refs_ok(o: Object, cells: int, functions: int) -> bool {
    match o {
        Object::Function(f) => f < functions,
        Object::Cons(pair) => pair.0 < cells && pair.1 < cells,
        _ => true,
    }
}

/// Whether a saved frame's closure exists.
pub open spec fn frame_ok(fr: Frame, functions: int) -> bool {
    fr.function matches Some(f) ==> f < functions
}

impl VmState {
    /// Every handle in the machine points at a cell or closure that exists.
    pub open spec fn wf(self) -> bool {
        let nc = self.cells.len() as int;
        let nf = self.functions.len() as int;
        &&& nc <= usize::MAX
        &&& self.stack.len() <= usize::MAX
        &&& nf <= usize::MAX
        &&& self.frames.len() <= usize::MAX
        &&& forall|i: int| 0 <= i < self.stack.len() ==> #[trigger] self.stack[i] < nc
        &&& forall|c: int| 0 <= c < nc ==> refs_ok(#[trigger] self.cells[c], nc, nf)
        &&& forall|f: int, u: int| 0 <= f < nf && 0 <= u < self.functions[f].upvalues.len()
            ==> #[trigger] self.functions[f].upvalues[u] < nc
        &&& forall|g: int| 0 <= g < self.globals.len() ==> #[trigger] self.globals[g].1 < nc
        &&& (self.current matches Some(f) ==> f < nf)
        &&& forall|i: int| 0 <= i < self.frames.len() ==> frame_ok(#[trigger] self.frames[i], nf)
    }
}

/// How many operands `op` pops before it can fail on their types or values.
pub open spec fn pops_on_failure(op: OpCode) -> nat {
    match op {
        OpCode::Branch(_) | OpCode::Assert | OpCode::Car | OpCode::Cdr => 1,
        OpCode::Add | OpCode::Sub | OpCode::Mul | OpCode::Div | OpCode::Eq | OpCode::Lt | OpCode::Gt => 2,
        _ => 0,
    }
}

/// The machine after `op` failed on `s` with `f`: an instruction that pops
/// its operands has popped them when it fails on what they hold; any other
/// failure leaves the machine as it was.
pub open spec fn after_failure(s: VmState, op: OpCode, f: Fault) -> VmState {
    if f is Bytecode || pops_on_failure(op) == 0 {
        s
    } else {
        s.with_stack(s.stack.subrange(0, s.stack.len() - pops_on_failure(op)))
    }
}

/// `r` reports what the instruction `op` did to the machine `old`, leaving
/// `new`; a failure leaves the machine as `after_failure` says.
pub open spec fn performs(old: VmState, new: VmState, op: OpCode, r: Result<(), Error>) -> bool {
    match r {
        Ok(()) => step(old, op) == Ok::<VmState, Fault>(new),
        Err(e) => step(old, op) == Err::<VmState, Fault>(e.fault()) && new == after_failure(old, op, e.fault()),
    }
}

fn copy_object(o: &Object) -> (r: Object)
    ensures
        r == *o,
{
    match o {
        Object::Function(f) => Object::Function(*f),
        Object::Cons(c) => Object::Cons(*c),
        Object::String(s) => Object::String(s.clone()),
        Object::Symbol(s) => Object::Symbol(s.clone()),
        Object::Int(i) => Object::Int(*i),
        Object::Char(c) => Object::Char(*c),
        Object::True => Object::True,
        Object::Nil => Object::Nil,
    }
}

fn copy_opcodes(v: &Vec<OpCode>) -> (r: Vec<OpCode>)
    ensures
        r@ == v@,
{
    let mut r: Vec<OpCode> = Vec::new();
    let mut i: usize = 0;
    while i < v.len()
        invariant
            i <= v@.len(),
            r@ == v@.subrange(0, i as int),
        decreases v@.len() - i,
    {
        r.push(v[i]);
        i = i + 1;
    }
    assert(r@ =~= v@);
    r
}

impl Vm {
    pub closed spec fn view(&self) -> VmState {
        VmState {
            globals: self.globals@,
            constants: self.constants@,
            cells: self.cells@,
            functions: self.functions@.map_values(|l: Lambda| l.view()),
            stack: self.stack@,
            frames: self.frames@,
            current: self.current_function,
            pc: self.pc,
            bp: self.bp,
        }
    }

    /// The vectors behind the machine hold at most `usize::MAX` entries.
    proof fn lemma_bounds(&self)
        ensures
            self.view().cells.len() <= usize::MAX,
            self.view().stack.len() <= usize::MAX,
            self.view().functions.len() <= usize::MAX,
            self.view().frames.len() <= usize::MAX,
    {
        assert(self.cells.len() == self.cells@.len());
        assert(self.stack.len() == self.stack@.len());
        assert(self.functions.len() == self.functions@.len());
        assert(self.frames.len() == self.frames@.len());
    }

    /// How many instructions one evaluation may run.
    pub closed spec fn spec_step_limit(&self) -> u64 {
        self.step_limit
    }

    /// A machine with no globals, constants, cells or closures.
    pub fn new() -> (r: Vm)
        ensures
            r.view().wf(),
            r.view().globals.len() == 0,
            r.view().constants == Map::<u64, Constant>::empty(),
            r.view().cells.len() == 0,
            r.view().functions.len() == 0,
            r.view().stack.len() == 0,
            r.view().frames.len() == 0,
            r.view().current is None,
            r.view().pc == 0,
            r.view().bp == 0,
            r.spec_step_limit() == u64::MAX,
    {
        Vm {
            globals: Vec::new(),
            constants: HashMap::new(),
            cells: Vec::new(),
            functions: Vec::new(),
            stack: Vec::new(),
            frames: Vec::new(),
            current_function: None,
            pc: 0,
            bp: 0,
            step_limit: u64::MAX,
        }
    }

    /// Bounds the number of instructions one evaluation may run.
    pub fn set_step_limit(&mut self, limit: u64)
        ensures
            final(self).view() == old(self).view(),
            final(self).spec_step_limit() == limit,
    {
        self.step_limit = limit;
    }

    /// Adds a cell holding `o`.
    fn allocate(&mut self, o: Object) -> (h: usize)
        requires
            old(self).view().wf(),
            refs_ok(o, old(self).view().cells.len() as int, old(self).view().functions.len() as int),
        ensures
            h == old(self).view().cells.len(),
            final(self).view() == (VmState { cells: old(self).view().cells.push(o), ..old(self).view() }),
            final(self).view().wf(),
            final(self).spec_step_limit() == old(self).spec_step_limit(),
    {
        let h = self.cells.len();
        self.cells.push(o);
        proof {
            self.lemma_bounds();
        }
        let ghost s = self.view();
        assert(forall|c: int| 0 <= c < s.cells.len() ==> refs_ok(#[trigger] s.cells[c], s.cells.len() as int, s.functions.len() as int)) by {
            assert forall|c: int| 0 <= c < s.cells.len() implies refs_ok(#[trigger] s.cells[c], s.cells.len() as int, s.functions.len() as int) by {
                if c < h {
                    assert(s.cells[c] == old(self).view().cells[c]);
                }
            }
        }
        h
    }

    /// Pushes a fresh cell holding `o`.
    fn push_object(&mut self, o: Object)
        requires
            old(self).view().wf(),
            refs_ok(o, old(self).view().cells.len() as int, old(self).view().functions.len() as int),
        ensures
            final(self).view() == old(self).view().push_object(o),
            final(self).view().wf(),
            final(self).spec_step_limit() == old(self).spec_step_limit(),
    {
        let h = self.allocate(o);
        self.stack.push(h);
        proof {
            self.lemma_bounds();
        }
    }

    /// Pushes a fresh cell holding `object`.
    pub fn push(&mut self, object: Object)
        requires
            old(self).view().wf(),
            refs_ok(object, old(self).view().cells.len() as int, old(self).view().functions.len() as int),
        ensures
            final(self).view() == old(self).view().push_object(object),
            final(self).view().wf(),
    {
        self.push_object(object);
    }

    /// Pops the top cell and hands back a copy of what it holds.
    pub fn pop(&mut self) -> (r: Option<Object>)
        requires
            old(self).view().wf(),
        ensures
            final(self).view().wf(),
            old(self).view().stack.len() == 0 ==> r is None && final(self).view() == old(self).view(),
            old(self).view().stack.len() > 0 ==> r == Some(old(self).view().top())
                && final(self).view() == old(self).view().with_stack(old(self).view().stack.drop_last()),
    {
        match self.stack.pop() {
            Some(h) => Some(copy_object(&self.cells[h])),
            None => None,
        }
    }

    /// The handles of the cells on the stack, bottom first.
    pub fn stack(&self) -> (r: &[usize])
        ensures
            r@ == self.view().stack,
    {
        self.stack.as_slice()
    }

    /// What the cell `h` holds.
    pub fn object(&self, h: usize) -> (r: Option<&Object>)
        ensures
            h < self.view().cells.len() ==> r == Some(&self.view().cells[h as int]),
            h >= self.view().cells.len() ==> r is None,
    {
        if h < self.cells.len() {
            Some(&self.cells[h])
        } else {
            None
        }
    }
}


proof fn lemma_wf_restack(s: VmState, k: int, extra: Seq<usize>)
    requires
        s.wf(),
        0 <= k <= s.stack.len(),
        k + extra.len() <= s.stack.len(),
        forall|j: int| 0 <= j < extra.len() ==> #[trigger] extra[j] < s.cells.len(),
    ensures
        s.with_stack(s.stack.subrange(0, k) + extra).wf(),
{
    let t = s.stack.subrange(0, k) + extra;
    assert forall|i: int| 0 <= i < t.len() implies #[trigger] t[i] < s.cells.len() by {
        if i < k {
            assert(t[i] == s.stack[i]);
        } else {
            assert(t[i] == extra[i - k]);
        }
    }
}

impl Vm {
    /// The handle stored at stack slot `k`.
    fn slot(&self, k: usize) -> (h: usize)
        requires
            self.view().wf(),
            k < self.view().stack.len(),
        ensures
            h == self.view().stack[k as int],
            h < self.view().cells.len(),
            refs_ok(self.view().cells[h as int], self.view().cells.len() as int, self.view().functions.len() as int),
    {
        let h = self.stack[k];
        assert(self.view().stack[k as int] < self.view().cells.len());
        assert(refs_ok(self.view().cells[h as int], self.view().cells.len() as int, self.view().functions.len() as int));
        h
    }

    fn bytecode_error(message: &str) -> (e: Error)
        ensures
            e.fault() == Fault::Bytecode,
    {
        Error::Bytecode(message.to_owned())
    }

    fn type_error(expected: Type, o: &Object) -> (e: Error)
        ensures
            e.fault() == (Fault::Type { expected, received: type_of(*o) }),
    {
        let received = match o {
            Object::Function(_) => Type::Function,
            Object::Cons(_) => Type::Cons,
            Object::String(_) => Type::String,
            Object::Symbol(_) => Type::Symbol,
            Object::Int(_) => Type::Int,
            Object::Char(_) => Type::Char,
            Object::True => Type::True,
            Object::Nil => Type::Nil,
        };
        Error::Type { expected, received }
    }

    /// Pushes the constant an instruction carries.
    fn push_literal(&mut self, op: OpCode) -> (r: Result<(), Error>)
        requires
            old(self).view().wf(),
            op is PushInt || op is PushChar || op is PushTrue || op is PushNil,
        ensures
            final(self).view().wf(),
            performs(old(self).view(), final(self).view(), op, r),
            final(self).spec_step_limit() == old(self).spec_step_limit(),
    {
        let o = match op {
            OpCode::PushInt(v) => Object::Int(v),
            OpCode::PushChar(c) => Object::Char(c),
            OpCode::PushTrue => Object::True,
            _ => Object::Nil,
        };
        self.push_object(o);
        Ok(())
    }

    /// Pushes the string or symbol stored in the constant pool under `h`.
    fn push_text(&mut self, op: OpCode) -> (r: Result<(), Error>)
        requires
            old(self).view().wf(),
            op is PushString || op is PushSymbol,
        ensures
            final(self).view().wf(),
            performs(old(self).view(), final(self).view(), op, r),
            final(self).spec_step_limit() == old(self).spec_step_limit(),
    {
        let o = match op {
            OpCode::PushString(h) => match self.constants.get(&h) {
                Some(Constant::String(text)) => Object::String(text.clone()),
                _ => return Err(Vm::bytecode_error("no string constant")),
            },
            OpCode::PushSymbol(h) => match self.constants.get(&h) {
                Some(Constant::Symbol(text)) => Object::Symbol(text.clone()),
                _ => return Err(Vm::bytecode_error("no symbol constant")),
            },
            _ => return Err(Vm::bytecode_error("not a push")),
        };
        self.push_object(o);
        Ok(())
    }

    fn pop_top(&mut self) -> (r: Result<(), Error>)
        requires
            old(self).view().wf(),
        ensures
            final(self).view().wf(),
            performs(old(self).view(), final(self).view(), OpCode::Pop, r),
            final(self).spec_step_limit() == old(self).spec_step_limit(),
    {
        let n = self.stack.len();
        if n == 0 {
            return Err(Vm::bytecode_error("stack underflow"));
        }
        self.stack.pop();
        proof {
            lemma_wf_restack(old(self).view(), n - 1, Seq::empty());
            assert(self.view().stack =~= old(self).view().stack.subrange(0, n - 1) + Seq::empty());
        }
        Ok(())
    }

    /// Pushes local slot `local` of the running frame.
    pub fn get_local(&mut self, local: usize) -> (r: Result<(), Error>)
        requires
            old(self).view().wf(),
        ensures
            final(self).view().wf(),
            performs(old(self).view(), final(self).view(), OpCode::GetLocal(local), r),
            final(self).spec_step_limit() == old(self).spec_step_limit(),
    {
        if local >= self.stack.len() || self.bp >= self.stack.len() - local {
            return Err(Vm::bytecode_error("local out of range"));
        }
        let h = self.slot(self.bp + local);
        self.stack.push(h);
        proof {
            self.lemma_bounds();
        }
        Ok(())
    }

    /// Stores the value on top into local slot `local`, leaving it on top.
    pub fn set_local(&mut self, local: usize) -> (r: Result<(), Error>)
        requires
            old(self).view().wf(),
        ensures
            final(self).view().wf(),
            performs(old(self).view(), final(self).view(), OpCode::SetLocal(local), r),
            final(self).spec_step_limit() == old(self).spec_step_limit(),
    {
        let n = self.stack.len();
        if n == 0 || local >= n - 1 || self.bp >= n - 1 - local {
            return Err(Vm::bytecode_error("local out of range"));
        }
        let target = self.stack[self.bp + local];
        let o = copy_object(&self.cells[self.slot(n - 1)]);
        let ghost before = self.view();
        self.cells.set(target, o);
        proof {
            let s = self.view();
            assert forall|c: int| 0 <= c < s.cells.len() implies refs_ok(#[trigger] s.cells[c], s.cells.len() as int, s.functions.len() as int) by {
                if c != target {
                    assert(s.cells[c] == before.cells[c]);
                }
            }
        }
        Ok(())
    }

    /// Pops `k` operands.
    fn drop_operands(&mut self, k: usize)
        requires
            old(self).view().wf(),
            k <= old(self).view().stack.len(),
        ensures
            final(self).view() == old(self).view().with_stack(old(self).view().stack.subrange(0, old(self).view().stack.len() - k)),
            final(self).view().wf(),
            final(self).spec_step_limit() == old(self).spec_step_limit(),
    {
        let n = self.stack.len();
        self.stack.truncate(n - k);
        proof {
            lemma_wf_restack(old(self).view(), n - k, Seq::empty());
            assert(self.view().stack =~= old(self).view().stack.subrange(0, n - k) + Seq::empty());
        }
    }

    fn binary_integer_op(&mut self, op: OpCode) -> (r: Result<(), Error>)
        requires
            old(self).view().wf(),
            op is Add || op is Sub || op is Mul || op is Div,
        ensures
            final(self).view().wf(),
            performs(old(self).view(), final(self).view(), op, r),
            final(self).spec_step_limit() == old(self).spec_step_limit(),
    {
        let n = self.stack.len();
        if n < 2 {
            return Err(Vm::bytecode_error("stack underflow"));
        }
        let rb = copy_object(&self.cells[self.slot(n - 1)]);
        let b = match rb {
            Object::Int(b) => b,
            o => {
                let e = Vm::type_error(Type::Int, &o);
                self.drop_operands(2);
                return Err(e);
            },
        };
        let ra = copy_object(&self.cells[self.slot(n - 2)]);
        let a = match ra {
            Object::Int(a) => a,
            o => {
                let e = Vm::type_error(Type::Int, &o);
                self.drop_operands(2);
                return Err(e);
            },
        };
        let v = match op {
            OpCode::Add => a.checked_add(b),
            OpCode::Sub => a.checked_sub(b),
            OpCode::Mul => a.checked_mul(b),
            _ => {
                if b == 0 {
                    self.drop_operands(2);
                    return Err(Error::DivisionByZero);
                }
                a.checked_div(b)
            },
        };
        let v = match v {
            Some(v) => v,
            None => {
                self.drop_operands(2);
                return Err(Error::Overflow);
            },
        };
        self.stack.pop();
        self.stack.pop();
        let ghost mid = self.view();
        assert(mid.stack =~= old(self).view().stack.subrange(0, n - 2));
        assert(forall|i: int| 0 <= i < mid.stack.len() ==> mid.stack[i] == old(self).view().stack[i]);
        self.push_object(Object::Int(v));
        Ok(())
    }

    /// Replaces the two integers on top by whether they compare as `op` says.
    fn compare(&mut self, op: OpCode) -> (r: Result<(), Error>)
        requires
            old(self).view().wf(),
            op is Eq || op is Lt || op is Gt,
        ensures
            final(self).view().wf(),
            performs(old(self).view(), final(self).view(), op, r),
            final(self).spec_step_limit() == old(self).spec_step_limit(),
    {
        let n = self.stack.len();
        if n < 2 {
            return Err(Vm::bytecode_error("stack underflow"));
        }
        let rb = copy_object(&self.cells[self.slot(n - 1)]);
        let b = match rb {
            Object::Int(b) => b,
            o => {
                let e = Vm::type_error(Type::Int, &o);
                self.drop_operands(2);
                return Err(e);
            },
        };
        let ra = copy_object(&self.cells[self.slot(n - 2)]);
        let a = match ra {
            Object::Int(a) => a,
            o => {
                let e = Vm::type_error(Type::Int, &o);
                self.drop_operands(2);
                return Err(e);
            },
        };
        let holds = match op {
            OpCode::Eq => a == b,
            OpCode::Lt => a < b,
            _ => a > b,
        };
        self.stack.pop();
        self.stack.pop();
        let ghost mid = self.view();
        assert(mid.stack =~= old(self).view().stack.subrange(0, n - 2));
        proof {
            lemma_wf_restack(old(self).view(), n - 2, Seq::empty());
            assert(mid.stack =~= old(self).view().stack.subrange(0, n - 2) + Seq::empty());
        }
        self.push_object(if holds { Object::True } else { Object::Nil });
        Ok(())
    }

    pub fn add(&mut self) -> (r: Result<(), Error>)
        requires
            old(self).view().wf(),
        ensures
            final(self).view().wf(),
            performs(old(self).view(), final(self).view(), OpCode::Add, r),
            final(self).spec_step_limit() == old(self).spec_step_limit(),
    {
        self.binary_integer_op(OpCode::Add)
    }

    pub fn sub(&mut self) -> (r: Result<(), Error>)
        requires
            old(self).view().wf(),
        ensures
            final(self).view().wf(),
            performs(old(self).view(), final(self).view(), OpCode::Sub, r),
            final(self).spec_step_limit() == old(self).spec_step_limit(),
    {
        self.binary_integer_op(OpCode::Sub)
    }

    pub fn mul(&mut self) -> (r: Result<(), Error>)
        requires
            old(self).view().wf(),
        ensures
            final(self).view().wf(),
            performs(old(self).view(), final(self).view(), OpCode::Mul, r),
            final(self).spec_step_limit() == old(self).spec_step_limit(),
    {
        self.binary_integer_op(OpCode::Mul)
    }

    pub fn div(&mut self) -> (r: Result<(), Error>)
        requires
            old(self).view().wf(),
        ensures
            final(self).view().wf(),
            performs(old(self).view(), final(self).view(), OpCode::Div, r),
            final(self).spec_step_limit() == old(self).spec_step_limit(),
    {
        self.binary_integer_op(OpCode::Div)
    }

    fn pair_field(&mut self, op: OpCode) -> (r: Result<(), Error>)
        requires
            old(self).view().wf(),
            op is Car || op is Cdr,
        ensures
            final(self).view().wf(),
            performs(old(self).view(), final(self).view(), op, r),
            final(self).spec_step_limit() == old(self).spec_step_limit(),
    {
        let n = self.stack.len();
        if n == 0 {
            return Err(Vm::bytecode_error("stack underflow"));
        }
        let top = copy_object(&self.cells[self.slot(n - 1)]);
        let h = match top {
            Object::Cons(pair) => if op == OpCode::Car { pair.0 } else { pair.1 },
            o => {
                let e = Vm::type_error(Type::Cons, &o);
                self.drop_operands(1);
                return Err(e);
            },
        };
        self.stack.pop();
        self.stack.push(h);
        proof {
            lemma_wf_restack(old(self).view(), n - 1, seq![h]);
            assert(self.view().stack =~= old(self).view().stack.subrange(0, n - 1) + seq![h]);
        }
        Ok(())
    }

    /// Replaces the pair on top by its first element.
    pub fn car(&mut self) -> (r: Result<(), Error>)
        requires
            old(self).view().wf(),
        ensures
            final(self).view().wf(),
            performs(old(self).view(), final(self).view(), OpCode::Car, r),
            final(self).spec_step_limit() == old(self).spec_step_limit(),
    {
        self.pair_field(OpCode::Car)
    }

    /// Replaces the pair on top by its second element.
    pub fn cdr(&mut self) -> (r: Result<(), Error>)
        requires
            old(self).view().wf(),
        ensures
            final(self).view().wf(),
            performs(old(self).view(), final(self).view(), OpCode::Cdr, r),
            final(self).spec_step_limit() == old(self).spec_step_limit(),
    {
        self.pair_field(OpCode::Cdr)
    }

    /// Replaces the two cells on top by a pair of them.
    pub fn cons(&mut self) -> (r: Result<(), Error>)
        requires
            old(self).view().wf(),
        ensures
            final(self).view().wf(),
            performs(old(self).view(), final(self).view(), OpCode::Cons, r),
            final(self).spec_step_limit() == old(self).spec_step_limit(),
    {
        let n = self.stack.len();
        if n < 2 {
            return Err(Vm::bytecode_error("stack underflow"));
        }
        let rhs = self.slot(n - 1);
        let lhs = self.slot(n - 2);
        self.stack.pop();
        self.stack.pop();
        let ghost mid = self.view();
        assert(mid.stack =~= old(self).view().stack.subrange(0, n - 2));
        proof {
            lemma_wf_restack(old(self).view(), n - 2, Seq::empty());
            assert(mid.stack =~= old(self).view().stack.subrange(0, n - 2) + Seq::empty());
        }
        self.push_object(Object::Cons(Cons(lhs, rhs)));
        Ok(())
    }

    /// Pops the predicate; on nil, skips `offset` instructions; anything but
    /// true or nil is a type error, after the pop.
    pub fn branch(&mut self, offset: usize) -> (r: Result<(), Error>)
        requires
            old(self).view().wf(),
        ensures
            final(self).view().wf(),
            performs(old(self).view(), final(self).view(), OpCode::Branch(offset), r),
            final(self).spec_step_limit() == old(self).spec_step_limit(),
    {
        let n = self.stack.len();
        if n == 0 {
            return Err(Vm::bytecode_error("stack underflow"));
        }
        let top = copy_object(&self.cells[self.slot(n - 1)]);
        match top {
            Object::True => {},
            Object::Nil => {
                if offset > usize::MAX - self.pc {
                    return Err(Vm::bytecode_error("branch out of range"));
                }
                self.pc = self.pc + offset;
            },
            o => {
                let e = Vm::type_error(Type::Predicate, &o);
                self.drop_operands(1);
                return Err(e);
            },
        }
        self.stack.pop();
        Ok(())
    }

    fn jump(&mut self, offset: isize) -> (r: Result<(), Error>)
        requires
            old(self).view().wf(),
        ensures
            final(self).view().wf(),
            performs(old(self).view(), final(self).view(), OpCode::Jmp(offset), r),
            final(self).spec_step_limit() == old(self).spec_step_limit(),
    {
        if offset >= 0 {
            let k = offset as usize;
            if k > usize::MAX - self.pc {
                return Err(Vm::bytecode_error("jump out of range"));
            }
            self.pc = self.pc + k;
        } else {
            let k = (-(offset + 1)) as usize + 1;
            if k > self.pc {
                return Err(Vm::bytecode_error("jump out of range"));
            }
            self.pc = self.pc - k;
        }
        Ok(())
    }

    /// Pushes whether the object on top, which stays, has type `ty`.
    pub fn is_type(&mut self, ty: Type) -> (r: Result<(), Error>)
        requires
            old(self).view().wf(),
        ensures
            final(self).view().wf(),
            performs(old(self).view(), final(self).view(), OpCode::IsType(ty), r),
            final(self).spec_step_limit() == old(self).spec_step_limit(),
    {
        let n = self.stack.len();
        if n == 0 {
            return Err(Vm::bytecode_error("stack underflow"));
        }
        let t = match &self.cells[self.slot(n - 1)] {
            Object::Function(_) => Type::Function,
            Object::Cons(_) => Type::Cons,
            Object::String(_) => Type::String,
            Object::Symbol(_) => Type::Symbol,
            Object::Int(_) => Type::Int,
            Object::Char(_) => Type::Char,
            Object::True => Type::True,
            Object::Nil => Type::Nil,
        };
        self.push_object(if t == ty { Object::True } else { Object::Nil });
        Ok(())
    }

    /// Pops the top; anything but true fails the assertion, after the pop.
    pub fn assert_true(&mut self) -> (r: Result<(), Error>)
        requires
            old(self).view().wf(),
        ensures
            final(self).view().wf(),
            performs(old(self).view(), final(self).view(), OpCode::Assert, r),
            final(self).spec_step_limit() == old(self).spec_step_limit(),
    {
        let n = self.stack.len();
        if n == 0 {
            return Err(Vm::bytecode_error("stack underflow"));
        }
        let holds = match &self.cells[self.slot(n - 1)] {
            Object::True => true,
            _ => false,
        };
        if !holds {
            self.drop_operands(1);
            return Err(Error::Assert("assertion failed".to_owned()));
        }
        self.stack.pop();
        Ok(())
    }
}


proof fn lemma_global_index(g: Seq<(String, usize)>, name: Seq<char>, i: int)
    requires
        0 <= i < g.len(),
        g[i].0@ == name,
        forall|j: int| 0 <= j < i ==> g[j].0@ != name,
    ensures
        global_index(g, name) == Some(i),
{
    let k = choose|k: int| 0 <= k < g.len() && g[k].0@ == name && forall|j: int| 0 <= j < k ==> g[j].0@ != name;
    assert(0 <= k < g.len() && g[k].0@ == name && forall|j: int| 0 <= j < k ==> g[j].0@ != name);
    if k < i {
        assert(g[k].0@ != name);
    } else if i < k {
        assert(g[i].0@ != name);
    }
}

/// What `eval` gives back, without the text of an error.
pub open spec fn outcome(r: Result<Option<usize>, Error>) -> Result<Option<usize>, Fault> {
    match r {
        Ok(x) => Ok(x),
        Err(e) => Err(e.fault()),
    }
}

/// Runs the instruction `op` fetched from `s`, then the rest of the program.
pub open spec fn run_op(s: VmState, code: Seq<OpCode>, fuel: nat, op: OpCode) -> (Result<Option<usize>, Fault>, VmState)
    decreases fuel, 0nat,
{
    if fuel == 0 {
        (Err(Fault::StepLimit), s.unwound())
    } else {
        let s1 = VmState { pc: (s.pc + 1) as usize, ..s };
        match step(s1, op) {
            Ok(s2) => run(s2, code, (fuel - 1) as nat),
            Err(f) => (Err(f), s1.unwound()),
        }
    }
}

/// Runs the top-level program `code` from `s` for at most `fuel`
/// instructions: the outcome, and the machine afterwards. At the end of the
/// top-level code the top of the stack is the result and the stack is cleared.
pub open spec fn run(s: VmState, code: Seq<OpCode>, fuel: nat) -> (Result<Option<usize>, Fault>, VmState)
    decreases fuel, 1nat,
{
    match s.current {
        Some(f) => if s.pc < s.functions[f as int].opcodes.len() {
            run_op(s, code, fuel, s.functions[f as int].opcodes[s.pc as int])
        } else {
            (Err(Fault::Bytecode), s.unwound())
        },
        None => if s.pc < code.len() {
            run_op(s, code, fuel, code[s.pc as int])
        } else {
            (
                Ok(if s.stack.len() > 0 { Some(s.stack.last()) } else { None }),
                VmState { stack: Seq::empty(), pc: 0, bp: 0, ..s },
            )
        },
    }
}

impl Vm {
    fn find_global(&self, name: &String) -> (r: Option<usize>)
        ensures
            match r {
                Some(i) => global_index(self.view().globals, name@) == Some(i as int)
                    && i < self.view().globals.len() && self.view().globals[i as int].0@ == name@,
                None => global_index(self.view().globals, name@) is None,
            },
    {
        let mut i: usize = 0;
        while i < self.globals.len()
            invariant
                i <= self.globals@.len(),
                forall|j: int| 0 <= j < i ==> self.globals@[j].0@ != name@,
            decreases self.globals@.len() - i,
        {
            if self.globals[i].0 == *name {
                proof {
                    lemma_global_index(self.globals@, name@, i as int);
                }
                return Some(i);
            }
            i = i + 1;
        }
        None
    }

    fn symbol_constant(&self, h: u64) -> (r: Result<String, Error>)
        ensures
            match r {
                Ok(name) => self.view().symbol_constant(h) == Some(name),
                Err(e) => self.view().symbol_constant(h) is None && e.fault() == Fault::Bytecode,
            },
    {
        match self.constants.get(&h) {
            Some(Constant::Symbol(name)) => Ok(name.clone()),
            _ => Err(Vm::bytecode_error("no symbol constant")),
        }
    }

    /// Pops the value on top and binds the global named by constant `constant`
    /// to its cell; pushes nil.
    #[verifier::rlimit(60)]
    pub fn def_global(&mut self, constant: u64) -> (r: Result<(), Error>)
        requires
            old(self).view().wf(),
        ensures
            final(self).view().wf(),
            performs(old(self).view(), final(self).view(), OpCode::DefGlobal(constant), r),
            final(self).spec_step_limit() == old(self).spec_step_limit(),
    {
        let name = match self.symbol_constant(constant) {
            Ok(name) => name,
            Err(e) => return Err(e),
        };
        let n = self.stack.len();
        if n == 0 {
            return Err(Vm::bytecode_error("stack underflow"));
        }
        let v = self.slot(n - 1);
        let ghost g0 = self.view().globals;
        match self.find_global(&name) {
            Some(i) => {
                self.globals.set(i, (name, v));
                proof {
                    assert(self.view().globals =~= g0.update(i as int, (name, v)));
                }
            },
            None => {
                self.globals.push((name, v));
                proof {
                    assert(self.view().globals =~= g0.push((name, v)));
                }
            },
        }
        proof {
            let g = self.view().globals;
            assert forall|j: int| 0 <= j < g.len() implies #[trigger] g[j].1 < self.view().cells.len() by {
                if j < g0.len() && g[j] == g0[j] {
                    assert(g0[j].1 < self.view().cells.len());
                }
            }
        }
        self.stack.pop();
        let ghost mid = self.view();
        proof {
            assert(mid.stack =~= old(self).view().stack.drop_last());
            assert forall|i: int| 0 <= i < mid.stack.len() implies #[trigger] mid.stack[i] < mid.cells.len() by {
                assert(mid.stack[i] == old(self).view().stack[i]);
            }
        }
        self.push_object(Object::Nil);
        Ok(())
    }

    /// Rebinds an existing global to the cell on top, which stays there.
    pub fn set_global(&mut self, constant: u64) -> (r: Result<(), Error>)
        requires
            old(self).view().wf(),
        ensures
            final(self).view().wf(),
            performs(old(self).view(), final(self).view(), OpCode::SetGlobal(constant), r),
            final(self).spec_step_limit() == old(self).spec_step_limit(),
    {
        let name = match self.symbol_constant(constant) {
            Ok(name) => name,
            Err(e) => return Err(e),
        };
        let n = self.stack.len();
        if n == 0 {
            return Err(Vm::bytecode_error("stack underflow"));
        }
        let v = self.slot(n - 1);
        match self.find_global(&name) {
            Some(i) => {
                let key = self.globals[i].0.clone();
                self.globals.set(i, (key, v));
                proof {
                    let mid = self.view();
                    assert forall|g: int| 0 <= g < mid.globals.len() implies #[trigger] mid.globals[g].1 < mid.cells.len() by {
                        if g != i {
                            assert(mid.globals[g] == old(self).view().globals[g]);
                            assert(old(self).view().globals[g].1 < mid.cells.len());
                        }
                    }
                }
                Ok(())
            },
            None => Err(Error::NotFound(name)),
        }
    }

    /// Pushes the cell of the global named by constant `constant`.
    pub fn get_global(&mut self, constant: u64) -> (r: Result<(), Error>)
        requires
            old(self).view().wf(),
        ensures
            final(self).view().wf(),
            performs(old(self).view(), final(self).view(), OpCode::GetGlobal(constant), r),
            final(self).spec_step_limit() == old(self).spec_step_limit(),
    {
        let name = match self.symbol_constant(constant) {
            Ok(name) => name,
            Err(e) => return Err(e),
        };
        match self.find_global(&name) {
            Some(i) => {
                let h = self.globals[i].1;
                assert(self.view().globals[i as int].1 < self.view().cells.len());
                self.stack.push(h);
                proof {
                    self.lemma_bounds();
                }
                Ok(())
            },
            None => Err(Error::NotFound(name)),
        }
    }

    /// The cell of the global named `name`, if it is bound.
    pub fn global(&self, name: &String) -> (r: Option<usize>)
        ensures
            match global_index(self.view().globals, name@) {
                Some(i) => r == Some(self.view().globals[i].1),
                None => r is None,
            },
    {
        match self.find_global(name) {
            Some(i) => Some(self.globals[i].1),
            None => None,
        }
    }

    /// Adds `constant` to the pool under the key `hash`.
    pub fn insert_constant(&mut self, hash: u64, constant: Constant)
        requires
            old(self).view().wf(),
        ensures
            final(self).view() == (VmState { constants: old(self).view().constants.insert(hash, constant), ..old(self).view() }),
            final(self).view().wf(),
            final(self).spec_step_limit() == old(self).spec_step_limit(),
    {
        self.constants.insert(hash, constant);
    }

    fn current_upvalue(&self, upvalue: usize) -> (r: Option<usize>)
        requires
            self.view().wf(),
        ensures
            match r {
                Some(h) => self.view().current matches Some(f)
                    && upvalue < self.view().functions[f as int].upvalues.len()
                    && h == self.view().functions[f as int].upvalues[upvalue as int]
                    && h < self.view().cells.len(),
                None => !(self.view().current matches Some(f) && upvalue < self.view().functions[f as int].upvalues.len()),
            },
    {
        match self.current_function {
            Some(f) => {
                assert(self.view().functions[f as int] == self.functions@[f as int].view());
                if upvalue < self.functions[f].upvalues.len() {
                    let h = self.functions[f].upvalues[upvalue];
                    assert(self.view().functions[f as int].upvalues[upvalue as int] < self.view().cells.len());
                    Some(h)
                } else {
                    None
                }
            },
            None => None,
        }
    }

    /// Pushes upvalue `upvalue` of the running closure.
    pub fn get_upvalue(&mut self, upvalue: usize) -> (r: Result<(), Error>)
        requires
            old(self).view().wf(),
        ensures
            final(self).view().wf(),
            performs(old(self).view(), final(self).view(), OpCode::GetUpValue(upvalue), r),
            final(self).spec_step_limit() == old(self).spec_step_limit(),
    {
        match self.current_upvalue(upvalue) {
            Some(h) => {
                self.stack.push(h);
                proof {
                    self.lemma_bounds();
                }
                Ok(())
            },
            None => Err(Vm::bytecode_error("no such upvalue")),
        }
    }

    /// Pops the value on top and stores it into upvalue `upvalue` of the
    /// running closure.
    pub fn set_upvalue(&mut self, upvalue: usize) -> (r: Result<(), Error>)
        requires
            old(self).view().wf(),
        ensures
            final(self).view().wf(),
            performs(old(self).view(), final(self).view(), OpCode::SetUpValue(upvalue), r),
            final(self).spec_step_limit() == old(self).spec_step_limit(),
    {
        let n = self.stack.len();
        if n == 0 {
            return Err(Vm::bytecode_error("stack underflow"));
        }
        let target = match self.current_upvalue(upvalue) {
            Some(h) => h,
            None => return Err(Vm::bytecode_error("no such upvalue")),
        };
        let o = copy_object(&self.cells[self.slot(n - 1)]);
        let ghost before = self.view();
        self.cells.set(target, o);
        self.stack.pop();
        proof {
            let s = self.view();
            assert forall|c: int| 0 <= c < s.cells.len() implies refs_ok(#[trigger] s.cells[c], s.cells.len() as int, s.functions.len() as int) by {
                if c != target {
                    assert(s.cells[c] == before.cells[c]);
                }
            }
            assert forall|i: int| 0 <= i < s.stack.len() implies #[trigger] s.stack[i] < s.cells.len() by {
                assert(s.stack[i] == before.stack[i]);
            }
        }
        Ok(())
    }
}


impl Vm {
    /// Calls the closure that sits below the `args` arguments on top: saves the
    /// running frame and starts the callee with its base at the first argument.
    pub fn call(&mut self, args: usize) -> (r: Result<(), Error>)
        requires
            old(self).view().wf(),
        ensures
            final(self).view().wf(),
            performs(old(self).view(), final(self).view(), OpCode::Call(args), r),
            final(self).spec_step_limit() == old(self).spec_step_limit(),
    {
        let n = self.stack.len();
        if args >= n {
            return Err(Vm::bytecode_error("stack underflow"));
        }
        let fh = self.slot(n - args - 1);
        let f = match &self.cells[fh] {
            Object::Function(f) => *f,
            o => return Err(Vm::type_error(Type::Function, o)),
        };
        assert(self.view().functions[f as int] == self.functions@[f as int].view());
        let arity = self.functions[f].arity;
        let mismatch = match arity {
            Arity::Nullary => args != 0,
            Arity::Nary(k) => k != args,
            Arity::Variadic => false,
        };
        if mismatch {
            return Err(Error::Arity { expected: arity, received: args });
        }
        let ghost before = self.view();
        self.frames.push(Frame { function: self.current_function, pc: self.pc, bp: self.bp });
        self.current_function = Some(f);
        self.bp = n - args;
        self.pc = 0;
        proof {
            self.lemma_bounds();
            let s = self.view();
            assert forall|i: int| 0 <= i < s.frames.len() implies frame_ok(#[trigger] s.frames[i], s.functions.len() as int) by {
                if i < before.frames.len() {
                    assert(s.frames[i] == before.frames[i]);
                }
            }
        }
        Ok(())
    }

    /// Calls the closure below the `args` arguments on top in place of the
    /// running one: the callee and its arguments replace the running frame's
    /// slots, and no frame is saved.
    pub fn tail(&mut self, args: usize) -> (r: Result<(), Error>)
        requires
            old(self).view().wf(),
        ensures
            final(self).view().wf(),
            performs(old(self).view(), final(self).view(), OpCode::Tail(args), r),
            final(self).spec_step_limit() == old(self).spec_step_limit(),
    {
        let n = self.stack.len();
        if args >= n || self.frames.len() == 0 || self.bp < 1 || self.bp - 1 > n - args - 1 {
            return Err(Vm::bytecode_error("tail call outside a frame"));
        }
        let fh = self.slot(n - args - 1);
        let f = match &self.cells[fh] {
            Object::Function(f) => *f,
            o => return Err(Vm::type_error(Type::Function, o)),
        };
        assert(self.view().functions[f as int] == self.functions@[f as int].view());
        let arity = self.functions[f].arity;
        let mismatch = match arity {
            Arity::Nullary => args != 0,
            Arity::Nary(k) => k != args,
            Arity::Variadic => false,
        };
        if mismatch {
            return Err(Error::Arity { expected: arity, received: args });
        }
        let ghost before = self.view();
        let mut moved: Vec<usize> = Vec::new();
        let mut k: usize = n - args - 1;
        while k < n
            invariant
                args < n,
                before == old(self).view(),
                n - args - 1 <= k <= n,
                n == before.stack.len(),
                self.view() == before,
                self.view().wf(),
                moved@ == before.stack.subrange(n - args - 1, k as int),
            decreases n - k,
        {
            let h = self.slot(k);
            moved.push(h);
            proof {
                assert(moved@ =~= before.stack.subrange(n - args - 1, k + 1));
            }
            k = k + 1;
        }
        self.stack.truncate(self.bp - 1);
        let mut j: usize = 0;
        while j < moved.len()
            invariant
                args < n,
                n == before.stack.len(),
                1 <= before.bp,
                before.bp - 1 <= n - args - 1,
                before == old(self).view(),
                j <= moved@.len(),
                moved@ == before.stack.subrange(n - args - 1, n as int),
                self.stack@ == before.stack.subrange(0, before.bp - 1) + moved@.subrange(0, j as int),
                self.cells@ == before.cells,
                self.bp == before.bp,
                self.globals@ == before.globals,
                self.constants@ == before.constants,
                self.functions@.map_values(|l: Lambda| l.view()) == before.functions,
                self.frames@ == before.frames,
                self.current_function == before.current,
                self.pc == before.pc,
                self.step_limit == old(self).step_limit,
            decreases moved@.len() - j,
        {
            self.stack.push(moved[j]);
            proof {
                assert(self.stack@ =~= before.stack.subrange(0, before.bp - 1) + moved@.subrange(0, j + 1));
            }
            j = j + 1;
        }
        self.current_function = Some(f);
        self.pc = 0;
        proof {
            let s = self.view();
            assert(moved@.subrange(0, moved@.len() as int) =~= moved@);
            assert forall|i: int| 0 <= i < s.stack.len() implies #[trigger] s.stack[i] < s.cells.len() by {
                if i < before.bp - 1 {
                    assert(s.stack[i] == before.stack[i]);
                } else {
                    assert(s.stack[i] == before.stack[n - args - 1 + (i - (before.bp - 1))]);
                }
            }
        }
        Ok(())
    }

    /// Returns from the running closure: its result replaces the callee and
    /// its arguments, and the caller's frame is restored.
    pub fn ret(&mut self) -> (r: Result<(), Error>)
        requires
            old(self).view().wf(),
        ensures
            final(self).view().wf(),
            performs(old(self).view(), final(self).view(), OpCode::Return, r),
            final(self).spec_step_limit() == old(self).spec_step_limit(),
    {
        let n = self.stack.len();
        if n == 0 || self.frames.len() == 0 || self.bp < 1 || self.bp > n {
            return Err(Vm::bytecode_error("return outside a call"));
        }
        let result = self.slot(n - 1);
        let ghost before = self.view();
        self.stack.truncate(self.bp - 1);
        self.stack.push(result);
        let frame = self.frames.pop().unwrap();
        assert(frame_ok(before.frames[before.frames.len() - 1], before.functions.len() as int));
        self.pc = frame.pc;
        self.bp = frame.bp;
        self.current_function = frame.function;
        proof {
            let s = self.view();
            assert(s.stack =~= before.stack.subrange(0, before.bp - 1).push(before.stack.last()));
            assert forall|i: int| 0 <= i < s.stack.len() implies #[trigger] s.stack[i] < s.cells.len() by {
                if i < s.stack.len() - 1 {
                    assert(s.stack[i] == before.stack[i]);
                }
            }
            assert forall|i: int| 0 <= i < s.frames.len() implies frame_ok(#[trigger] s.frames[i], s.functions.len() as int) by {
                assert(s.frames[i] == before.frames[i]);
            }
        }
        Ok(())
    }

    /// Pushes a fresh closure over the code stored under `opcodes`, with no
    /// upvalues yet.
    pub fn lambda(&mut self, arity: Arity, opcodes: u64) -> (r: Result<(), Error>)
        requires
            old(self).view().wf(),
        ensures
            final(self).view().wf(),
            performs(old(self).view(), final(self).view(), OpCode::Lambda { arity, body: opcodes }, r),
            final(self).spec_step_limit() == old(self).spec_step_limit(),
    {
        let code = match self.constants.get(&opcodes) {
            Some(Constant::Opcodes(code)) => copy_opcodes(code),
            _ => return Err(Vm::bytecode_error("no code constant")),
        };
        let f = self.functions.len();
        let ghost before = self.view();
        self.functions.push(Lambda { arity, opcodes: code, upvalues: Vec::new() });
        proof {
            self.lemma_bounds();
            let s = self.view();
            assert(s.functions =~= before.functions.push(LambdaState { arity, opcodes: code@, upvalues: Seq::empty() }));
            assert forall|c: int| 0 <= c < s.cells.len() implies refs_ok(#[trigger] s.cells[c], s.cells.len() as int, s.functions.len() as int) by {
                assert(refs_ok(before.cells[c], before.cells.len() as int, before.functions.len() as int));
            }
            assert forall|g: int, u: int| 0 <= g < s.functions.len() && 0 <= u < s.functions[g].upvalues.len()
                implies #[trigger] s.functions[g].upvalues[u] < s.cells.len() by {
                assert(s.functions[g] == before.functions[g]);
            }
            assert forall|i: int| 0 <= i < s.frames.len() implies frame_ok(#[trigger] s.frames[i], s.functions.len() as int) by {
                assert(frame_ok(before.frames[i], before.functions.len() as int));
            }
        }
        self.push_object(Object::Function(f));
        Ok(())
    }

    /// Appends to the closure on top the cell that `upvalue` names.
    #[verifier::rlimit(60)]
    pub fn create_upvalue(&mut self, upvalue: UpValue) -> (r: Result<(), Error>)
        requires
            old(self).view().wf(),
        ensures
            final(self).view().wf(),
            performs(old(self).view(), final(self).view(), OpCode::CreateUpValue(upvalue), r),
            final(self).spec_step_limit() == old(self).spec_step_limit(),
    {
        let n = self.stack.len();
        if n == 0 || upvalue.frame > self.frames.len() {
            return Err(Vm::bytecode_error("upvalue out of range"));
        }
        let base = if upvalue.frame == 0 {
            self.bp
        } else {
            self.frames[self.frames.len() - upvalue.frame].bp
        };
        if upvalue.index >= n || base >= n - upvalue.index {
            return Err(Vm::bytecode_error("upvalue out of range"));
        }
        let cell = self.slot(base + upvalue.index);
        let f = match &self.cells[self.slot(n - 1)] {
            Object::Function(f) => *f,
            o => return Err(Vm::type_error(Type::Function, o)),
        };
        let ghost before = self.view();
        let ghost l = before.functions[f as int];
        assert(l == self.functions@[f as int].view());
        self.functions[f].upvalues.push(cell);
        proof {
            let s = self.view();
            assert(s.functions =~= before.functions.update(f as int, LambdaState { upvalues: l.upvalues.push(cell), ..l }));
            assert forall|g: int, u: int| 0 <= g < s.functions.len() && 0 <= u < s.functions[g].upvalues.len()
                implies #[trigger] s.functions[g].upvalues[u] < s.cells.len() by {
                if g != f || u < l.upvalues.len() {
                    assert(s.functions[g].upvalues[u] == before.functions[g].upvalues[u]);
                }
            }
        }
        Ok(())
    }

    /// Replaces the `args` cells on top by a fresh list of them.
    pub fn list(&mut self, args: usize) -> (r: Result<(), Error>)
        requires
            old(self).view().wf(),
        ensures
            final(self).view().wf(),
            performs(old(self).view(), final(self).view(), OpCode::List(args), r),
            final(self).spec_step_limit() == old(self).spec_step_limit(),
    {
        let n = self.stack.len();
        let base = self.cells.len();
        if args > n || args >= usize::MAX - base {
            return Err(Vm::bytecode_error("list out of range"));
        }
        let ghost s0 = self.view();
        let ghost items = s0.stack.subrange(n - args, n as int);
        self.allocate(Object::Nil);
        proof {
            assert(list_cells(items, base as int)[0] == Object::Nil);
            assert(self.view().cells =~= s0.cells + list_cells(items, base as int).subrange(0, 1));
        }
        let mut j: usize = 0;
        while j < args
            invariant
                j <= args,
                args <= n,
                n == s0.stack.len(),
                base == s0.cells.len(),
                base + args < usize::MAX,
                items == s0.stack.subrange(n - args, n as int),
                self.view() == (VmState { cells: s0.cells + list_cells(items, base as int).subrange(0, j + 1), ..s0 }),
                self.view().wf(),
                self.spec_step_limit() == old(self).spec_step_limit(),
            decreases args - j,
        {
            let item = self.slot(n - 1 - j);
            proof {
                assert(item == items[args - (j + 1)]);
            }
            self.allocate(Object::Cons(Cons(item, base + j)));
            proof {
                assert(self.view().cells =~= s0.cells + list_cells(items, base as int).subrange(0, j + 2));
            }
            j = j + 1;
        }
        self.stack.truncate(n - args);
        self.stack.push(base + args);
        proof {
            self.lemma_bounds();
            let s = self.view();
            assert(list_cells(items, base as int).subrange(0, args + 1) =~= list_cells(items, base as int));
            assert(s.stack =~= s0.stack.subrange(0, n - args).push((base + args) as usize));
            assert forall|i: int| 0 <= i < s.stack.len() implies #[trigger] s.stack[i] < s.cells.len() by {
                if i < n - args {
                    assert(s.stack[i] == s0.stack[i]);
                }
            }
        }
        Ok(())
    }

    /// Runs one instruction; the program counter has already moved past it.
    pub fn execute(&mut self, op: OpCode) -> (r: Result<(), Error>)
        requires
            old(self).view().wf(),
        ensures
            final(self).view().wf(),
            performs(old(self).view(), final(self).view(), op, r),
            final(self).spec_step_limit() == old(self).spec_step_limit(),
    {
        match op {
            OpCode::DefGlobal(h) => self.def_global(h),
            OpCode::SetGlobal(h) => self.set_global(h),
            OpCode::GetGlobal(h) => self.get_global(h),
            OpCode::SetLocal(i) => self.set_local(i),
            OpCode::GetLocal(i) => self.get_local(i),
            OpCode::SetUpValue(i) => self.set_upvalue(i),
            OpCode::GetUpValue(i) => self.get_upvalue(i),
            OpCode::Call(args) => self.call(args),
            OpCode::Tail(args) => self.tail(args),
            OpCode::Return => self.ret(),
            OpCode::Lambda { arity, body } => self.lambda(arity, body),
            OpCode::CreateUpValue(uv) => self.create_upvalue(uv),
            OpCode::PushSymbol(_) | OpCode::PushString(_) => self.push_text(op),
            OpCode::PushInt(_) | OpCode::PushChar(_) | OpCode::PushTrue | OpCode::PushNil => self.push_literal(op),
            OpCode::Pop => self.pop_top(),
            OpCode::Add => self.add(),
            OpCode::Sub => self.sub(),
            OpCode::Mul => self.mul(),
            OpCode::Div => self.div(),
            OpCode::Eq | OpCode::Lt | OpCode::Gt => self.compare(op),
            OpCode::Car => self.car(),
            OpCode::Cdr => self.cdr(),
            OpCode::Cons => self.cons(),
            OpCode::List(args) => self.list(args),
            OpCode::Jmp(offset) => self.jump(offset),
            OpCode::Branch(offset) => self.branch(offset),
            OpCode::IsType(ty) => self.is_type(ty),
            OpCode::Assert => self.assert_true(),
        }
    }

    /// Discards every frame and the stack after a run-time error.
    fn unwind(&mut self)
        requires
            old(self).view().wf(),
        ensures
            final(self).view() == old(self).view().unwound(),
            final(self).view().wf(),
            final(self).spec_step_limit() == old(self).spec_step_limit(),
    {
        self.stack.clear();
        self.frames.clear();
        self.current_function = None;
        self.pc = 0;
        self.bp = 0;
    }

    /// Runs the top-level program `opcodes` until it ends, an error occurs or
    /// the step limit is reached. At its end the top of the stack is the
    /// result, and the stack is cleared; an error unwinds every frame. Globals,
    /// constants and cells outlive the run.
    pub fn eval(&mut self, opcodes: &[OpCode]) -> (r: Result<Option<usize>, Error>)
        requires
            old(self).view().wf(),
        ensures
            final(self).view().wf(),
            final(self).spec_step_limit() == old(self).spec_step_limit(),
            (outcome(r), final(self).view()) == run(old(self).view(), opcodes@, old(self).spec_step_limit() as nat),
    {
        let mut fuel: u64 = self.step_limit;
        loop
            invariant
                self.view().wf(),
                self.spec_step_limit() == old(self).spec_step_limit(),
                run(self.view(), opcodes@, fuel as nat) == run(old(self).view(), opcodes@, old(self).spec_step_limit() as nat),
            decreases fuel,
        {
            let op = match self.current_function {
                Some(f) => {
                    assert(self.view().functions[f as int] == self.functions@[f as int].view());
                    if self.pc < self.functions[f].opcodes.len() {
                        self.functions[f].opcodes[self.pc]
                    } else {
                        self.unwind();
                        return Err(Vm::bytecode_error("ran past the end of a function"));
                    }
                },
                None => {
                    if self.pc < opcodes.len() {
                        opcodes[self.pc]
                    } else {
                        let result = self.stack.pop();
                        self.stack.clear();
                        self.pc = 0;
                        self.bp = 0;
                        return Ok(result);
                    }
                },
            };
            if fuel == 0 {
                self.unwind();
                return Err(Error::StepLimit);
            }
            self.pc = self.pc + 1;
            match self.execute(op) {
                Ok(()) => {},
                Err(e) => {
                    self.unwind();
                    return Err(e);
                },
            }
            fuel = fuel - 1;
        }
    }
}


/// The pool after inserting `cs` in order, each under its content hash.
pub open spec fn loaded(m: Map<u64, Constant>, cs: Seq<Constant>) -> Map<u64, Constant>
    decreases cs.len(),
{
    if cs.len() == 0 {
        m
    } else {
        let c = cs.last();
        loaded(m, cs.drop_last()).insert(crate::bytecode::entry_hash(crate::bytecode::entry_of(c)), c)
    }
}

impl Vm {
    /// Adds each constant to the pool under its content hash.
    pub fn load_constants(&mut self, constants: Vec<Constant>)
        requires
            old(self).view().wf(),
        ensures
            final(self).view() == (VmState { constants: loaded(old(self).view().constants, constants@), ..old(self).view() }),
            final(self).view().wf(),
            final(self).spec_step_limit() == old(self).spec_step_limit(),
    {
        let ghost all = constants@;
        let total = constants.len();
        let mut rest = constants;
        let mut i: usize = 0;
        while rest.len() > 0
            invariant
                i <= total,
                total == all.len(),
                rest@ == all.subrange(i as int, total as int),
                self.view() == (VmState { constants: loaded(old(self).view().constants, all.subrange(0, i as int)), ..old(self).view() }),
                self.view().wf(),
                self.spec_step_limit() == old(self).spec_step_limit(),
            decreases rest@.len(),
        {
            let c = rest.remove(0);
            proof {
                assert(c == all[i as int]);
            }
            let h = crate::bytecode::constant_hash(&c);
            self.insert_constant(h, c);
            proof {
                let next = all.subrange(0, i + 1);
                assert(next.drop_last() =~= all.subrange(0, i as int));
                assert(rest@ =~= all.subrange(i + 1, total as int));
            }
            i = i + 1;
        }
        assert(all.subrange(0, total as int) =~= all);
    }
}


/// A return undoes its call: after the `Return` of the frame that `Call(n)`
/// opened, the stack is the one before the call without the callee and its
/// `n` arguments, with the result on top, and the caller's frame is back.
pub proof fn lemma_return_balances_call(s: VmState, n: usize, called: VmState, t: VmState, u: VmState)
    requires
        s.stack.len() <= usize::MAX,
        step(s, OpCode::Call(n)) == Ok::<VmState, Fault>(called),
        t.frames == called.frames,
        t.bp == called.bp,
        step(t, OpCode::Return) == Ok::<VmState, Fault>(u),
    ensures
        u.stack.len() == s.stack.len() - n - 1 + 1,
        u.stack.last() == t.stack.last(),
        u.frames == s.frames,
        u.current == s.current,
        u.pc == s.pc,
        u.bp == s.bp,
{
    assert(n < s.stack.len());
    assert(s.cells[s.stack[s.stack.len() - n - 1] as int] is Function);
    assert(called.bp == s.stack.len() - n);
    assert(called.frames == s.frames.push(Frame { function: s.current, pc: s.pc, bp: s.bp }));
    assert(u.stack == t.stack.subrange(0, t.bp - 1).push(t.stack.last()));
    assert(u.frames =~= s.frames);
}

/// A capture reads a live slot: creating an upvalue succeeds only when the
/// slot it names lies on the stack, and the closure on top then holds that
/// slot's cell as its last upvalue.
pub proof fn lemma_capture_reads_live_slot(s: VmState, uv: UpValue, t: VmState)
    requires
        s.wf(),
        step(s, OpCode::CreateUpValue(uv)) == Ok::<VmState, Fault>(t),
    ensures
        0 <= s.upvalue_slot(uv) < s.stack.len(),
        uv.frame <= s.frames.len(),
        s.top() matches Object::Function(f)
            && t.functions[f as int].upvalues == s.functions[f as int].upvalues.push(s.stack[s.upvalue_slot(uv)]),
{
    assert(refs_ok(s.cells[s.stack.last() as int], s.cells.len() as int, s.functions.len() as int));
}

} // verus!
