//! Emission of bytecode from the intermediate form, and the keys of the
//! content-addressed constant pool.
use vstd::prelude::*;

use crate::ast::{BinaryArithmeticOperator, ComparisonOperator, Constant as Literal, IsTypeParameter, Quoted};
use crate::hash::{xxh3, xxh3_of};
use crate::il::{Il, VarRef};
use crate::sexpr::Source;
use crate::vm::{Arity, Constant, OpCode, Type, UpValue};
use vstd::string::StringSliceAdditionalSpecFns;

verus! {

/// A constant of the pool, as a value.
pub enum PoolEntry {
    String(Seq<char>),
    Symbol(Seq<char>),
    Opcodes(Seq<OpCode>),
}

pub open spec fn entry_of(c: Constant) -> PoolEntry {
    match c {
        Constant::String(s) => PoolEntry::String(s@),
        Constant::Symbol(s) => PoolEntry::Symbol(s@),
        Constant::Opcodes(v) => PoolEntry::Opcodes(v@),
    }
}

/// The little-endian bytes of `x`.
pub open spec fn u64_bytes(x: u64) -> Seq<u8> {
    Seq::new(8, |i: int| (x >> (8 * i) as u64) as u8)
}

/// An instruction as a tag and two words.
pub open spec fn opcode_words(op: OpCode) -> (u8, u64, u64) {
    match op {
        OpCode::DefGlobal(h) => (0, h, 0),
        OpCode::SetGlobal(h) => (1, h, 0),
        OpCode::GetGlobal(h) => (2, h, 0),
        OpCode::SetLocal(i) => (3, i as u64, 0),
        OpCode::GetLocal(i) => (4, i as u64, 0),
        OpCode::SetUpValue(i) => (5, i as u64, 0),
        OpCode::GetUpValue(i) => (6, i as u64, 0),
        OpCode::Call(n) => (7, n as u64, 0),
        OpCode::Tail(n) => (8, n as u64, 0),
        OpCode::Return => (9, 0, 0),
        OpCode::Lambda { arity: Arity::Nullary, body } => (10, body, 0),
        OpCode::Lambda { arity: Arity::Variadic, body } => (11, body, 0),
        OpCode::Lambda { arity: Arity::Nary(n), body } => (12, body, n as u64),
        OpCode::CreateUpValue(uv) => (13, uv.frame as u64, uv.index as u64),
        OpCode::PushSymbol(h) => (14, h, 0),
        OpCode::PushInt(v) => (15, v as u64, 0),
        OpCode::PushChar(c) => (16, c as u64, 0),
        OpCode::PushString(h) => (17, h, 0),
        OpCode::PushTrue => (18, 0, 0),
        OpCode::PushNil => (19, 0, 0),
        OpCode::Pop => (20, 0, 0),
        OpCode::Add => (21, 0, 0),
        OpCode::Sub => (22, 0, 0),
        OpCode::Mul => (23, 0, 0),
        OpCode::Div => (24, 0, 0),
        OpCode::Eq => (25, 0, 0),
        OpCode::Lt => (26, 0, 0),
        OpCode::Gt => (27, 0, 0),
        OpCode::Car => (28, 0, 0),
        OpCode::Cdr => (29, 0, 0),
        OpCode::Cons => (30, 0, 0),
        OpCode::List(n) => (31, n as u64, 0),
        OpCode::Jmp(k) => (32, k as u64, 0),
        OpCode::Branch(k) => (33, k as u64, 0),
        OpCode::IsType(t) => (34, type_code(t) as u64, 0),
        OpCode::Assert => (35, 0, 0),
    }
}

pub open spec fn type_code(t: Type) -> u8 {
    match t {
        Type::Function => 0,
        Type::Cons => 1,
        Type::String => 2,
        Type::Symbol => 3,
        Type::Int => 4,
        Type::Char => 5,
        Type::True => 6,
        Type::Nil => 7,
        Type::Predicate => 8,
    }
}

/// An instruction as seventeen bytes: its tag and two little-endian words.
pub open spec fn opcode_bytes(op: OpCode) -> Seq<u8> {
    let (tag, a, b) = opcode_words(op);
    seq![tag] + u64_bytes(a) + u64_bytes(b)
}

pub open spec fn opcodes_bytes(code: Seq<OpCode>) -> Seq<u8>
    decreases code.len(),
{
    if code.len() == 0 {
        Seq::empty()
    } else {
        opcodes_bytes(code.drop_last()) + opcode_bytes(code.last())
    }
}

/// The bytes that a constant is hashed from: a tag for its kind, then its
/// content (UTF-8 for text).
pub open spec fn entry_bytes(e: PoolEntry) -> Seq<u8> {
    match e {
        PoolEntry::String(s) => seq![0u8] + vstd::utf8::encode_utf8(s),
        PoolEntry::Symbol(s) => seq![1u8] + vstd::utf8::encode_utf8(s),
        PoolEntry::Opcodes(code) => seq![2u8] + opcodes_bytes(code),
    }
}

/// The key of a constant in the pool.
pub open spec fn entry_hash(e: PoolEntry) -> u64 {
    xxh3_of(entry_bytes(e))
}

fn push_u64(out: &mut Vec<u8>, x: u64)
    ensures
        final(out)@ == old(out)@ + u64_bytes(x),
{
    let ghost start = out@;
    let mut i: u64 = 0;
    while i < 8
        invariant
            i <= 8,
            out@ == start + u64_bytes(x).subrange(0, i as int),
        decreases 8 - i,
    {
        #[verifier::truncate]
        let b = (x >> (8 * i)) as u8;
        out.push(b);
        proof {
            assert(out@ =~= start + u64_bytes(x).subrange(0, i + 1));
        }
        i = i + 1;
    }
    assert(u64_bytes(x).subrange(0, 8) =~= u64_bytes(x));
}

fn opcode_words_of(op: OpCode) -> (r: (u8, u64, u64))
    ensures
        r == opcode_words(op),
{
    match op {
        OpCode::DefGlobal(h) => (0, h, 0),
        OpCode::SetGlobal(h) => (1, h, 0),
        OpCode::GetGlobal(h) => (2, h, 0),
        OpCode::SetLocal(i) => (3, i as u64, 0),
        OpCode::GetLocal(i) => (4, i as u64, 0),
        OpCode::SetUpValue(i) => (5, i as u64, 0),
        OpCode::GetUpValue(i) => (6, i as u64, 0),
        OpCode::Call(n) => (7, n as u64, 0),
        OpCode::Tail(n) => (8, n as u64, 0),
        OpCode::Return => (9, 0, 0),
        OpCode::Lambda { arity: Arity::Nullary, body } => (10, body, 0),
        OpCode::Lambda { arity: Arity::Variadic, body } => (11, body, 0),
        OpCode::Lambda { arity: Arity::Nary(n), body } => (12, body, n as u64),
        OpCode::CreateUpValue(uv) => (13, uv.frame as u64, uv.index as u64),
        OpCode::PushSymbol(h) => (14, h, 0),
        OpCode::PushInt(v) => (15, v as u64, 0),
        OpCode::PushChar(c) => (16, c as u64, 0),
        OpCode::PushString(h) => (17, h, 0),
        OpCode::PushTrue => (18, 0, 0),
        OpCode::PushNil => (19, 0, 0),
        OpCode::Pop => (20, 0, 0),
        OpCode::Add => (21, 0, 0),
        OpCode::Sub => (22, 0, 0),
        OpCode::Mul => (23, 0, 0),
        OpCode::Div => (24, 0, 0),
        OpCode::Eq => (25, 0, 0),
        OpCode::Lt => (26, 0, 0),
        OpCode::Gt => (27, 0, 0),
        OpCode::Car => (28, 0, 0),
        OpCode::Cdr => (29, 0, 0),
        OpCode::Cons => (30, 0, 0),
        OpCode::List(n) => (31, n as u64, 0),
        OpCode::Jmp(k) => (32, k as u64, 0),
        OpCode::Branch(k) => (33, k as u64, 0),
        OpCode::IsType(t) => {
            let code: u8 = match t {
                Type::Function => 0,
                Type::Cons => 1,
                Type::String => 2,
                Type::Symbol => 3,
                Type::Int => 4,
                Type::Char => 5,
                Type::True => 6,
                Type::Nil => 7,
                Type::Predicate => 8,
            };
            (34, code as u64, 0)
        },
        OpCode::Assert => (35, 0, 0),
    }
}

fn push_bytes(out: &mut Vec<u8>, bytes: &[u8])
    ensures
        final(out)@ == old(out)@ + bytes@,
{
    let ghost start = out@;
    let mut i: usize = 0;
    while i < bytes.len()
        invariant
            i <= bytes@.len(),
            out@ == start + bytes@.subrange(0, i as int),
        decreases bytes@.len() - i,
    {
        out.push(bytes[i]);
        proof {
            assert(out@ =~= start + bytes@.subrange(0, i + 1));
        }
        i = i + 1;
    }
    assert(bytes@.subrange(0, bytes@.len() as int) =~= bytes@);
}

fn text_hash(tag: u8, text: &String) -> (r: u64)
    ensures
        r == xxh3_of(seq![tag] + vstd::utf8::encode_utf8(text@)),
{
    let mut bytes: Vec<u8> = Vec::new();
    bytes.push(tag);
    push_bytes(&mut bytes, text.as_str().as_bytes());
    assert(bytes@ =~= seq![tag] + vstd::utf8::encode_utf8(text@));
    xxh3(bytes.as_slice())
}

/// The pool key of the symbol `name`.
pub fn symbol_hash(name: &String) -> (r: u64)
    ensures
        r == entry_hash(PoolEntry::Symbol(name@)),
{
    text_hash(1, name)
}

/// The pool key of the string `text`.
pub fn string_hash(text: &String) -> (r: u64)
    ensures
        r == entry_hash(PoolEntry::String(text@)),
{
    text_hash(0, text)
}

/// The pool key of a code sequence.
pub fn opcodes_hash(code: &Vec<OpCode>) -> (r: u64)
    ensures
        r == entry_hash(PoolEntry::Opcodes(code@)),
{
    let mut bytes: Vec<u8> = Vec::new();
    bytes.push(2);
    let mut i: usize = 0;
    while i < code.len()
        invariant
            i <= code@.len(),
            bytes@ == seq![2u8] + opcodes_bytes(code@.subrange(0, i as int)),
        decreases code@.len() - i,
    {
        let (tag, a, b) = opcode_words_of(code[i]);
        let ghost before = bytes@;
        bytes.push(tag);
        push_u64(&mut bytes, a);
        push_u64(&mut bytes, b);
        proof {
            let prefix = code@.subrange(0, i + 1);
            assert(prefix.drop_last() =~= code@.subrange(0, i as int));
            assert(prefix.last() == code@[i as int]);
            assert(bytes@ =~= seq![2u8] + opcodes_bytes(prefix));
        }
        i = i + 1;
    }
    assert(code@.subrange(0, code@.len() as int) =~= code@);
    xxh3(bytes.as_slice())
}

/// The pool key of a constant.
pub fn constant_hash(c: &Constant) -> (r: u64)
    ensures
        r == entry_hash(entry_of(*c)),
{
    match c {
        Constant::String(s) => string_hash(s),
        Constant::Symbol(s) => symbol_hash(s),
        Constant::Opcodes(code) => opcodes_hash(code),
    }
}


/// A failure to emit code.
#[derive(Debug)]
pub struct Error {
    pub source: Source,
    pub message: String,
}

/// Emitted instructions, each with the provenance of the node it came from.
#[derive(Debug)]
pub struct OpCodeTable {
    entries: Vec<(OpCode, Source)>,
}

pub open spec fn ops_of(code: Seq<(OpCode, Source)>) -> Seq<OpCode> {
    code.map_values(|e: (OpCode, Source)| e.0)
}

impl OpCodeTable {
    pub closed spec fn view(&self) -> Seq<(OpCode, Source)> {
        self.entries@
    }

    pub fn new() -> (r: OpCodeTable)
        ensures
            r.view() == Seq::<(OpCode, Source)>::empty(),
    {
        OpCodeTable { entries: Vec::new() }
    }

    pub fn push(&mut self, op: OpCode, source: Source)
        ensures
            final(self).view() == old(self).view().push((op, source)),
    {
        self.entries.push((op, source));
    }

    pub fn append(&mut self, other: OpCodeTable)
        ensures
            final(self).view() == old(self).view() + other.view(),
    {
        let mut other = other;
        self.entries.append(&mut other.entries);
    }

    pub fn len(&self) -> (r: usize)
        ensures
            r == self.view().len(),
    {
        self.entries.len()
    }

    /// The instructions, without their provenance.
    pub fn opcodes(&self) -> (r: Vec<OpCode>)
        ensures
            r@ == ops_of(self.view()),
    {
        let mut r: Vec<OpCode> = Vec::new();
        let mut i: usize = 0;
        while i < self.entries.len()
            invariant
                i <= self.entries@.len(),
                r@ == ops_of(self.entries@.subrange(0, i as int)),
            decreases self.entries@.len() - i,
        {
            r.push(self.entries[i].0);
            proof {
                assert(r@ =~= ops_of(self.entries@.subrange(0, i + 1)));
            }
            i = i + 1;
        }
        assert(self.entries@.subrange(0, i as int) =~= self.entries@);
        r
    }

    /// The provenance of each instruction.
    pub fn sources(&self) -> (r: Vec<Source>)
        ensures
            r@ == self.view().map_values(|e: (OpCode, Source)| e.1),
    {
        let mut r: Vec<Source> = Vec::new();
        let mut i: usize = 0;
        while i < self.entries.len()
            invariant
                i <= self.entries@.len(),
                r@ == self.entries@.subrange(0, i as int).map_values(|e: (OpCode, Source)| e.1),
            decreases self.entries@.len() - i,
        {
            r.push(self.entries[i].1);
            proof {
                assert(r@ =~= self.entries@.subrange(0, i + 1).map_values(|e: (OpCode, Source)| e.1));
            }
            i = i + 1;
        }
        assert(self.entries@.subrange(0, i as int) =~= self.entries@);
        r
    }
}

/// The run-time type a predicate tests for. False is represented by nil, so
/// `bool?` tests for true.
pub open spec fn is_type_tag(k: IsTypeParameter) -> Type {
    match k {
        IsTypeParameter::Function => Type::Function,
        IsTypeParameter::Cons => Type::Cons,
        IsTypeParameter::Symbol => Type::Symbol,
        IsTypeParameter::String => Type::String,
        IsTypeParameter::Int => Type::Int,
        IsTypeParameter::Char => Type::Char,
        IsTypeParameter::Bool => Type::True,
        IsTypeParameter::Nil => Type::Nil,
    }
}

pub open spec fn arithmetic_op(op: BinaryArithmeticOperator) -> OpCode {
    match op {
        BinaryArithmeticOperator::Add => OpCode::Add,
        BinaryArithmeticOperator::Sub => OpCode::Sub,
        BinaryArithmeticOperator::Mul => OpCode::Mul,
        BinaryArithmeticOperator::Div => OpCode::Div,
    }
}

pub open spec fn comparison_op(op: ComparisonOperator) -> OpCode {
    match op {
        ComparisonOperator::Eq => OpCode::Eq,
        ComparisonOperator::Lt => OpCode::Lt,
        ComparisonOperator::Gt => OpCode::Gt,
    }
}

/// Code and constants that push quoted data.
pub open spec fn quoted_code(q: Quoted) -> (Seq<(OpCode, Source)>, Seq<PoolEntry>)
    decreases q, 1int,
{
    match q {
        Quoted::List { source, list } => {
            let (c, p) = quoted_seq(list@);
            (c.push((OpCode::List(list@.len() as usize), source)), p)
        },
        Quoted::Symbol { source, symbol } => (
            seq![(OpCode::PushSymbol(entry_hash(PoolEntry::Symbol(symbol@))), source)],
            seq![PoolEntry::Symbol(symbol@)],
        ),
        Quoted::String { source, string } => (
            seq![(OpCode::PushString(entry_hash(PoolEntry::String(string@))), source)],
            seq![PoolEntry::String(string@)],
        ),
        Quoted::Char { source, value } => (seq![(OpCode::PushChar(value), source)], Seq::empty()),
        Quoted::Int { source, value } => (seq![(OpCode::PushInt(value), source)], Seq::empty()),
        Quoted::Bool { source, value } => (seq![(if value { OpCode::PushTrue } else { OpCode::PushNil }, source)], Seq::empty()),
        Quoted::Nil { source } => (seq![(OpCode::PushNil, source)], Seq::empty()),
    }
}

pub open spec fn quoted_seq(qs: Seq<Quoted>) -> (Seq<(OpCode, Source)>, Seq<PoolEntry>)
    decreases qs, 0int,
{
    if qs.len() == 0 {
        (Seq::empty(), Seq::empty())
    } else {
        let (c1, p1) = quoted_seq(qs.subrange(0, qs.len() - 1));
        let (c2, p2) = quoted_code(qs[qs.len() - 1]);
        (c1 + c2, p1 + p2)
    }
}

/// The code a node is emitted as, and the constants it adds to the pool, in
/// order: post-order, each instruction citing its node's source. A call in
/// `tail` position replaces the running frame.
pub open spec fn emitted(il: Il, tail: bool) -> (Seq<(OpCode, Source)>, Seq<PoolEntry>)
    decreases il, 1int,
{
    match il {
        Il::Lambda(l) => {
            let (body, p) = emitted_seq(l.body@, true);
            let code = ops_of(body.push((OpCode::Return, l.source)));
            let h = entry_hash(PoolEntry::Opcodes(code));
            (
                seq![(OpCode::Lambda { arity: l.arity, body: h }, l.source)]
                    + Seq::new(l.upvalues@.len(), |k: int| (OpCode::CreateUpValue(l.upvalues@[k]), l.source)),
                p.push(PoolEntry::Opcodes(code)),
            )
        },
        Il::Def { source, name, body } => {
            let (c, p) = emitted(*body, false);
            (c.push((OpCode::DefGlobal(entry_hash(PoolEntry::Symbol(name@))), source)), p.push(PoolEntry::Symbol(name@)))
        },
        Il::Assign { source, target, body } => {
            let (c, p) = emitted(*body, false);
            match target {
                VarRef::Local { index, .. } => (c.push((OpCode::SetLocal(index), source)), p),
                VarRef::UpValue { index, .. } => (c.push((OpCode::SetUpValue(index), source)).push((OpCode::GetUpValue(index), source)), p),
                VarRef::Global { name, .. } => (
                    c.push((OpCode::SetGlobal(entry_hash(PoolEntry::Symbol(name@))), source)),
                    p.push(PoolEntry::Symbol(name@)),
                ),
            }
        },
        Il::If { source, predicate, consequent, alternative } => {
            let (c0, p0) = emitted(*predicate, false);
            let (c1, p1) = emitted(*consequent, tail);
            let (c2, p2) = emitted(*alternative, tail);
            (
                c0.push((OpCode::Branch((c1.len() + 1) as usize), source)) + c1.push((OpCode::Jmp(c2.len() as isize), source)) + c2,
                p0 + p1 + p2,
            )
        },
        Il::VarRef(r) => match r {
            VarRef::Local { source, index } => (seq![(OpCode::GetLocal(index), source)], Seq::empty()),
            VarRef::UpValue { source, index } => (seq![(OpCode::GetUpValue(index), source)], Seq::empty()),
            VarRef::Global { source, name } => (
                seq![(OpCode::GetGlobal(entry_hash(PoolEntry::Symbol(name@))), source)],
                seq![PoolEntry::Symbol(name@)],
            ),
        },
        Il::Constant(c) => match c {
            Literal::String { source, string } => (
                seq![(OpCode::PushString(entry_hash(PoolEntry::String(string@))), source)],
                seq![PoolEntry::String(string@)],
            ),
            Literal::Char { source, value } => (seq![(OpCode::PushChar(value), source)], Seq::empty()),
            Literal::Int { source, value } => (seq![(OpCode::PushInt(value), source)], Seq::empty()),
            Literal::Bool { source, value } => (seq![(if value { OpCode::PushTrue } else { OpCode::PushNil }, source)], Seq::empty()),
            Literal::Nil { source } => (seq![(OpCode::PushNil, source)], Seq::empty()),
        },
        Il::Quote { body, .. } => quoted_code(body),
        Il::List { source, exprs } => {
            let (c, p) = emitted_seq(exprs@, false);
            (c.push((OpCode::List(exprs@.len() as usize), source)), p)
        },
        Il::Cons { source, lhs, rhs } => {
            let (c1, p1) = emitted(*lhs, false);
            let (c2, p2) = emitted(*rhs, false);
            ((c1 + c2).push((OpCode::Cons, source)), p1 + p2)
        },
        Il::Car { source, body } => {
            let (c, p) = emitted(*body, false);
            (c.push((OpCode::Car, source)), p)
        },
        Il::Cdr { source, body } => {
            let (c, p) = emitted(*body, false);
            (c.push((OpCode::Cdr, source)), p)
        },
        Il::FnCall { source, function, args } => {
            let (c1, p1) = emitted(*function, false);
            let (c2, p2) = emitted_seq(args@, false);
            ((c1 + c2).push((if tail { OpCode::Tail(args@.len() as usize) } else { OpCode::Call(args@.len() as usize) }, source)), p1 + p2)
        },
        Il::Arithmetic { source, operator, lhs, rhs } => {
            let (c1, p1) = emitted(*lhs, false);
            let (c2, p2) = emitted(*rhs, false);
            ((c1 + c2).push((arithmetic_op(operator), source)), p1 + p2)
        },
        Il::Comparison { source, operator, lhs, rhs } => {
            let (c1, p1) = emitted(*lhs, false);
            let (c2, p2) = emitted(*rhs, false);
            ((c1 + c2).push((comparison_op(operator), source)), p1 + p2)
        },
        Il::IsType { source, parameter, body } => {
            let (c, p) = emitted(*body, false);
            (c.push((OpCode::IsType(is_type_tag(parameter)), source)), p)
        },
        Il::Assert { source, body } => {
            let (c, p) = emitted(*body, false);
            (c.push((OpCode::Assert, source)), p)
        },
    }
}

/// The code of a sequence of nodes, the last in `tail` position if `tail`.
pub open spec fn emitted_seq(ils: Seq<Il>, tail: bool) -> (Seq<(OpCode, Source)>, Seq<PoolEntry>)
    decreases ils, 0int,
{
    if ils.len() == 0 {
        (Seq::empty(), Seq::empty())
    } else {
        let (c1, p1) = emitted_seq(ils.subrange(0, ils.len() - 1), false);
        let (c2, p2) = emitted(ils[ils.len() - 1], tail);
        (c1 + c2, p1 + p2)
    }
}


/// Whether a node can be emitted: every conditional's branches fit in a jump
/// offset.
pub open spec fn emittable(il: Il, tail: bool) -> bool
    decreases il, 1int,
{
    match il {
        Il::Lambda(l) => emittable_seq(l.body@, true),
        Il::Def { body, .. } => emittable(*body, false),
        Il::Assign { body, .. } => emittable(*body, false),
        Il::If { predicate, consequent, alternative, .. } => {
            &&& emittable(*predicate, false)
            &&& emittable(*consequent, tail)
            &&& emittable(*alternative, tail)
            &&& emitted(*consequent, tail).0.len() < usize::MAX
            &&& emitted(*alternative, tail).0.len() <= isize::MAX
        },
        Il::List { exprs, .. } => emittable_seq(exprs@, false),
        Il::Cons { lhs, rhs, .. } => emittable(*lhs, false) && emittable(*rhs, false),
        Il::Car { body, .. } => emittable(*body, false),
        Il::Cdr { body, .. } => emittable(*body, false),
        Il::FnCall { function, args, .. } => emittable(*function, false) && emittable_seq(args@, false),
        Il::Arithmetic { lhs, rhs, .. } => emittable(*lhs, false) && emittable(*rhs, false),
        Il::Comparison { lhs, rhs, .. } => emittable(*lhs, false) && emittable(*rhs, false),
        Il::IsType { body, .. } => emittable(*body, false),
        Il::Assert { body, .. } => emittable(*body, false),
        _ => true,
    }
}

pub open spec fn emittable_seq(ils: Seq<Il>, tail: bool) -> bool
    decreases ils, 0int,
{
    forall|k: int| 0 <= k < ils.len() ==> emittable(#[trigger] ils[k], tail && k == ils.len() - 1)
}

/// The pool entries that a sequence of constants holds.
pub open spec fn entries(pool: Seq<Constant>) -> Seq<PoolEntry> {
    pool.map_values(|c: Constant| entry_of(c))
}

proof fn lemma_entries_push(pool: Seq<Constant>, c: Constant)
    ensures
        entries(pool.push(c)) == entries(pool).push(entry_of(c)),
{
    assert(entries(pool.push(c)) =~= entries(pool).push(entry_of(c)));
}

fn emit_error(source: Source, message: &str) -> (e: Error)
    ensures
        e.source == source,
{
    Error { source, message: message.to_owned() }
}

fn push_symbol_constant(name: &String, pool: &mut Vec<Constant>) -> (h: u64)
    ensures
        h == entry_hash(PoolEntry::Symbol(name@)),
        entries(final(pool)@) == entries(old(pool)@).push(PoolEntry::Symbol(name@)),
{
    let h = symbol_hash(name);
    let c = Constant::Symbol(name.clone());
    proof {
        lemma_entries_push(pool@, c);
    }
    pool.push(c);
    h
}

fn push_string_constant(text: &String, pool: &mut Vec<Constant>) -> (h: u64)
    ensures
        h == entry_hash(PoolEntry::String(text@)),
        entries(final(pool)@) == entries(old(pool)@).push(PoolEntry::String(text@)),
{
    let h = string_hash(text);
    let c = Constant::String(text.clone());
    proof {
        lemma_entries_push(pool@, c);
    }
    pool.push(c);
    h
}

/// Emits the code that pushes quoted data.
pub fn compile_quoted(q: &Quoted, table: &mut OpCodeTable, pool: &mut Vec<Constant>) -> (r: Result<(), Error>)
    ensures
            r is Ok,
            r is Ok ==> final(table).view() == old(table).view() + quoted_code(*q).0
                && entries(final(pool)@) == entries(old(pool)@) + quoted_code(*q).1,
    decreases q, 1int,
{
    match q {
        Quoted::List { source, list } => {
            match compile_quoted_seq(list, table, pool) {
                Ok(()) => {},
                Err(e) => return Err(e),
            }
            table.push(OpCode::List(list.len()), *source);
        },
        Quoted::Symbol { source, symbol } => {
            let h = push_symbol_constant(symbol, pool);
            table.push(OpCode::PushSymbol(h), *source);
        },
        Quoted::String { source, string } => {
            let h = push_string_constant(string, pool);
            table.push(OpCode::PushString(h), *source);
        },
        Quoted::Char { source, value } => table.push(OpCode::PushChar(*value), *source),
        Quoted::Int { source, value } => table.push(OpCode::PushInt(*value), *source),
        Quoted::Bool { source, value } => table.push(if *value { OpCode::PushTrue } else { OpCode::PushNil }, *source),
        Quoted::Nil { source } => table.push(OpCode::PushNil, *source),
    }
    Ok(())
}

fn compile_quoted_seq(qs: &Vec<Quoted>, table: &mut OpCodeTable, pool: &mut Vec<Constant>) -> (r: Result<(), Error>)
    ensures
            r is Ok,
            r is Ok ==> final(table).view() == old(table).view() + quoted_seq(qs@).0
                && entries(final(pool)@) == entries(old(pool)@) + quoted_seq(qs@).1,
    decreases qs, 0int,
{
    let mut i: usize = 0;
    while i < qs.len()
        invariant
            i <= qs@.len(),
            table.view() == old(table).view() + quoted_seq(qs@.subrange(0, i as int)).0,
            entries(pool@) == entries(old(pool)@) + quoted_seq(qs@.subrange(0, i as int)).1,
        decreases qs@.len() - i,
    {
        match compile_quoted(&qs[i], table, pool) {
            Ok(()) => {},
            Err(e) => return Err(e),
        }
        proof {
            let next = qs@.subrange(0, i + 1);
            assert(next.subrange(0, i as int) =~= qs@.subrange(0, i as int));
            assert(table.view() =~= old(table).view() + quoted_seq(next).0);
            assert(entries(pool@) =~= entries(old(pool)@) + quoted_seq(next).1);
        }
        i = i + 1;
    }
    assert(qs@.subrange(0, qs@.len() as int) =~= qs@);
    Ok(())
}

fn compile_seq(ils: &Vec<Il>, tail: bool, table: &mut OpCodeTable, pool: &mut Vec<Constant>) -> (r: Result<(), Error>)
    ensures
            r is Ok <==> emittable_seq(ils@, tail),
            r is Ok ==> final(table).view() == old(table).view() + emitted_seq(ils@, tail).0
                && entries(final(pool)@) == entries(old(pool)@) + emitted_seq(ils@, tail).1,
    decreases ils, 0int,
{
    let n = ils.len();
    if n == 0 {
        assert(table.view() =~= old(table).view() + emitted_seq(ils@, tail).0);
        assert(entries(pool@) =~= entries(old(pool)@) + emitted_seq(ils@, tail).1);
        return Ok(());
    }
    let mut i: usize = 0;
    while i < n - 1
        invariant
            n == ils@.len(),
            n > 0,
            i <= n - 1,
            forall|k: int| 0 <= k < i ==> emittable(#[trigger] ils@[k], false),
            table.view() == old(table).view() + emitted_seq(ils@.subrange(0, i as int), false).0,
            entries(pool@) == entries(old(pool)@) + emitted_seq(ils@.subrange(0, i as int), false).1,
        decreases n - 1 - i,
    {
        match emit(&ils[i], false, table, pool) {
            Ok(()) => {},
            Err(e) => {
                assert(!emittable(ils@[i as int], tail && i == ils@.len() - 1));
                return Err(e);
            },
        }
        proof {
            let next = ils@.subrange(0, i + 1);
            assert(next.subrange(0, i as int) =~= ils@.subrange(0, i as int));
            assert(table.view() =~= old(table).view() + emitted_seq(next, false).0);
            assert(entries(pool@) =~= entries(old(pool)@) + emitted_seq(next, false).1);
        }
        i = i + 1;
    }
    match emit(&ils[n - 1], tail, table, pool) {
        Ok(()) => {},
        Err(e) => {
            assert(!emittable(ils@[n - 1], tail && n - 1 == ils@.len() - 1));
            return Err(e);
        },
    }
    proof {
        assert(ils@.subrange(0, n - 1) =~= ils@.subrange(0, ils@.len() - 1));
        assert(table.view() =~= old(table).view() + emitted_seq(ils@, tail).0);
        assert(entries(pool@) =~= entries(old(pool)@) + emitted_seq(ils@, tail).1);
        assert forall|k: int| 0 <= k < ils@.len() implies emittable(#[trigger] ils@[k], tail && k == ils@.len() - 1) by {
            if k < n - 1 {
                assert(emittable(ils@[k], false));
            }
        }
    }
    Ok(())
}

fn compile_lambda(l: &crate::il::Lambda, table: &mut OpCodeTable, pool: &mut Vec<Constant>) -> (r: Result<(), Error>)
    ensures
            r is Ok <==> emittable(Il::Lambda(*l), false),
            r is Ok ==> final(table).view() == old(table).view() + emitted(Il::Lambda(*l), false).0
                && entries(final(pool)@) == entries(old(pool)@) + emitted(Il::Lambda(*l), false).1,
    decreases l, 0int,
{
    let mut body = OpCodeTable::new();
    match compile_seq(&l.body, true, &mut body, pool) {
        Ok(()) => {},
        Err(e) => return Err(e),
    }
    body.push(OpCode::Return, l.source);
    let code = body.opcodes();
    let h = opcodes_hash(&code);
    let c = Constant::Opcodes(code);
    proof {
        lemma_entries_push(pool@, c);
        assert(body.view() =~= emitted_seq(l.body@, true).0.push((OpCode::Return, l.source)));
    }
    pool.push(c);
    let ghost start = table.view();
    table.push(OpCode::Lambda { arity: l.arity, body: h }, l.source);
    let mut i: usize = 0;
    while i < l.upvalues.len()
        invariant
            i <= l.upvalues@.len(),
            table.view() == start + seq![(OpCode::Lambda { arity: l.arity, body: h }, l.source)]
                + Seq::new(i as nat, |k: int| (OpCode::CreateUpValue(l.upvalues@[k]), l.source)),
        decreases l.upvalues@.len() - i,
    {
        table.push(OpCode::CreateUpValue(l.upvalues[i]), l.source);
        proof {
            assert(table.view() =~= start + seq![(OpCode::Lambda { arity: l.arity, body: h }, l.source)]
                + Seq::new((i + 1) as nat, |k: int| (OpCode::CreateUpValue(l.upvalues@[k]), l.source)));
        }
        i = i + 1;
    }
    assert(table.view() =~= old(table).view() + emitted(Il::Lambda(*l), false).0);
    Ok(())
}

#[verifier::rlimit(100)]
fn emit(il: &Il, tail: bool, table: &mut OpCodeTable, pool: &mut Vec<Constant>) -> (r: Result<(), Error>)
    ensures
            r is Ok <==> emittable(*il, tail),
            r is Ok ==> final(table).view() == old(table).view() + emitted(*il, tail).0
                && entries(final(pool)@) == entries(old(pool)@) + emitted(*il, tail).1,
    decreases il, 1int,
{
    match il {
        Il::Lambda(l) => {
            let r = compile_lambda(l, table, pool);
            assert(emitted(*il, tail) == emitted(*il, false));
            r
        },
        Il::Def { source, name, body } => {
            match emit(body, false, table, pool) {
                Ok(()) => {},
                Err(e) => return Err(e),
            }
            let h = push_symbol_constant(name, pool);
            table.push(OpCode::DefGlobal(h), *source);
            Ok(())
        },
        Il::Assign { source, target, body } => {
            match emit(body, false, table, pool) {
                Ok(()) => {},
                Err(e) => return Err(e),
            }
            match target {
                VarRef::Local { index, .. } => table.push(OpCode::SetLocal(*index), *source),
                VarRef::UpValue { index, .. } => {
                    table.push(OpCode::SetUpValue(*index), *source);
                    table.push(OpCode::GetUpValue(*index), *source);
                },
                VarRef::Global { name, .. } => {
                    let h = push_symbol_constant(name, pool);
                    table.push(OpCode::SetGlobal(h), *source);
                },
            }
            Ok(())
        },
        Il::If { source, predicate, consequent, alternative } => {
            match emit(predicate, false, table, pool) {
                Ok(()) => {},
                Err(e) => return Err(e),
            }
            let mut then_code = OpCodeTable::new();
            match emit(consequent, tail, &mut then_code, pool) {
                Ok(()) => {},
                Err(e) => return Err(e),
            }
            let mut else_code = OpCodeTable::new();
            match emit(alternative, tail, &mut else_code, pool) {
                Ok(()) => {},
                Err(e) => return Err(e),
            }
            let n_then = then_code.len();
            let n_else = else_code.len();
            if n_then == usize::MAX || n_else > isize::MAX as usize {
                return Err(emit_error(*source, "branch too long"));
            }
            let ghost c1 = then_code.view();
            let ghost c2 = else_code.view();
            table.push(OpCode::Branch(n_then + 1), *source);
            then_code.push(OpCode::Jmp(n_else as isize), *source);
            table.append(then_code);
            table.append(else_code);
            proof {
                assert(c1 == emitted(**consequent, tail).0);
                assert(c2 == emitted(**alternative, tail).0);
                assert(table.view() =~= old(table).view() + emitted(*il, tail).0);
                assert(entries(pool@) =~= entries(old(pool)@) + emitted(*il, tail).1);
            }
            Ok(())
        },
        Il::VarRef(r) => {
            match r {
                VarRef::Local { source, index } => table.push(OpCode::GetLocal(*index), *source),
                VarRef::UpValue { source, index } => table.push(OpCode::GetUpValue(*index), *source),
                VarRef::Global { source, name } => {
                    let h = push_symbol_constant(name, pool);
                    table.push(OpCode::GetGlobal(h), *source);
                },
            }
            Ok(())
        },
        Il::Constant(c) => {
            match c {
                Literal::String { source, string } => {
                    let h = push_string_constant(string, pool);
                    table.push(OpCode::PushString(h), *source);
                },
                Literal::Char { source, value } => table.push(OpCode::PushChar(*value), *source),
                Literal::Int { source, value } => table.push(OpCode::PushInt(*value), *source),
                Literal::Bool { source, value } => table.push(if *value { OpCode::PushTrue } else { OpCode::PushNil }, *source),
                Literal::Nil { source } => table.push(OpCode::PushNil, *source),
            }
            Ok(())
        },
        Il::Quote { body, .. } => compile_quoted(body, table, pool),
        Il::List { source, exprs } => {
            match compile_seq(exprs, false, table, pool) {
                Ok(()) => {},
                Err(e) => return Err(e),
            }
            table.push(OpCode::List(exprs.len()), *source);
            Ok(())
        },
        Il::Cons { source, lhs, rhs } => {
            match emit(lhs, false, table, pool) {
                Ok(()) => {},
                Err(e) => return Err(e),
            }
            match emit(rhs, false, table, pool) {
                Ok(()) => {},
                Err(e) => return Err(e),
            }
            table.push(OpCode::Cons, *source);
            Ok(())
        },
        Il::Car { source, body } => {
            match emit(body, false, table, pool) {
                Ok(()) => {},
                Err(e) => return Err(e),
            }
            table.push(OpCode::Car, *source);
            Ok(())
        },
        Il::Cdr { source, body } => {
            match emit(body, false, table, pool) {
                Ok(()) => {},
                Err(e) => return Err(e),
            }
            table.push(OpCode::Cdr, *source);
            Ok(())
        },
        Il::FnCall { source, function, args } => {
            match emit(function, false, table, pool) {
                Ok(()) => {},
                Err(e) => return Err(e),
            }
            match compile_seq(args, false, table, pool) {
                Ok(()) => {},
                Err(e) => return Err(e),
            }
            table.push(if tail { OpCode::Tail(args.len()) } else { OpCode::Call(args.len()) }, *source);
            Ok(())
        },
        Il::Arithmetic { source, operator, lhs, rhs } => {
            match emit(lhs, false, table, pool) {
                Ok(()) => {},
                Err(e) => return Err(e),
            }
            match emit(rhs, false, table, pool) {
                Ok(()) => {},
                Err(e) => return Err(e),
            }
            let op = match operator {
                BinaryArithmeticOperator::Add => OpCode::Add,
                BinaryArithmeticOperator::Sub => OpCode::Sub,
                BinaryArithmeticOperator::Mul => OpCode::Mul,
                BinaryArithmeticOperator::Div => OpCode::Div,
            };
            table.push(op, *source);
            Ok(())
        },
        Il::Comparison { source, operator, lhs, rhs } => {
            match emit(lhs, false, table, pool) {
                Ok(()) => {},
                Err(e) => return Err(e),
            }
            match emit(rhs, false, table, pool) {
                Ok(()) => {},
                Err(e) => return Err(e),
            }
            let op = match operator {
                ComparisonOperator::Eq => OpCode::Eq,
                ComparisonOperator::Lt => OpCode::Lt,
                ComparisonOperator::Gt => OpCode::Gt,
            };
            table.push(op, *source);
            Ok(())
        },
        Il::IsType { source, parameter, body } => {
            match emit(body, false, table, pool) {
                Ok(()) => {},
                Err(e) => return Err(e),
            }
            let t = match parameter {
                IsTypeParameter::Function => Type::Function,
                IsTypeParameter::Cons => Type::Cons,
                IsTypeParameter::Symbol => Type::Symbol,
                IsTypeParameter::String => Type::String,
                IsTypeParameter::Int => Type::Int,
                IsTypeParameter::Char => Type::Char,
                IsTypeParameter::Bool => Type::True,
                IsTypeParameter::Nil => Type::Nil,
            };
            table.push(OpCode::IsType(t), *source);
            Ok(())
        },
        Il::Assert { source, body } => {
            match emit(body, false, table, pool) {
                Ok(()) => {},
                Err(e) => return Err(e),
            }
            table.push(OpCode::Assert, *source);
            Ok(())
        },
    }
}


/// Emits the code of a node after the instructions already in `table`, and
/// adds the constants it needs to `pool`. Fails, leaving both as they were,
/// only when a branch of a conditional is too long for a jump offset.
pub fn compile(il: &Il, tail: bool, table: &mut OpCodeTable, pool: &mut Vec<Constant>) -> (r: Result<(), Error>)
    ensures
        r is Ok <==> emittable(*il, tail),
        r is Ok ==> final(table).view() == old(table).view() + emitted(*il, tail).0
            && entries(final(pool)@) == entries(old(pool)@) + emitted(*il, tail).1,
        r is Err ==> final(table).view() == old(table).view() && final(pool)@ == old(pool)@,
{
    let mut code = OpCodeTable::new();
    let mut constants: Vec<Constant> = Vec::new();
    match emit(il, tail, &mut code, &mut constants) {
        Ok(()) => {},
        Err(e) => return Err(e),
    }
    let ghost added = constants@;
    table.append(code);
    pool.append(&mut constants);
    proof {
        assert(entries(Seq::<Constant>::empty()) =~= Seq::empty());
        assert(entries(pool@) =~= entries(old(pool)@) + entries(added));
    }
    Ok(())
}

/// A lambda is emitted as its `Lambda` instruction followed by exactly one
/// `CreateUpValue` per capture, in the order of its captures, and nothing else.
pub proof fn lemma_lambda_creates_its_upvalues(l: crate::il::Lambda, tail: bool)
    ensures
        emitted(Il::Lambda(l), tail).0.len() == 1 + l.upvalues@.len(),
        emitted(Il::Lambda(l), tail).0[0].0 is Lambda,
        forall|k: int| 0 <= k < l.upvalues@.len() ==> #[trigger] emitted(Il::Lambda(l), tail).0[1 + k].0 == OpCode::CreateUpValue(l.upvalues@[k]),
{
}

/// Emission keeps provenance: the instructions a node emits itself cite the
/// node's source. A lambda's own `Lambda` and `CreateUpValue` instructions
/// come first; a conditional's `Branch` follows its predicate's code and its
/// `Jmp` the consequent's; every other node except a quotation ends with its
/// own instruction.
pub proof fn lemma_emission_cites_source(il: Il, tail: bool)
    ensures
        match il {
            Il::Lambda(l) => forall|k: int| 0 <= k < emitted(il, tail).0.len() ==> #[trigger] emitted(il, tail).0[k].1 == l.source,
            Il::If { source, predicate, consequent, .. } => {
                let n0 = emitted(*predicate, false).0.len() as int;
                let n1 = emitted(*consequent, tail).0.len() as int;
                &&& emitted(il, tail).0[n0] == (OpCode::Branch((n1 + 1) as usize), source)
                &&& emitted(il, tail).0[n0 + 1 + n1].1 == source
            },
            Il::Quote { .. } => true,
            _ => emitted(il, tail).0.len() > 0 && emitted(il, tail).0.last().1 == il.spec_source(),
        },
{
    match il {
        Il::If { source, predicate, consequent, alternative } => {
            let c0 = emitted(*predicate, false).0;
            let c1 = emitted(*consequent, tail).0;
            let c2 = emitted(*alternative, tail).0;
            let n0 = c0.len() as int;
            let n1 = c1.len() as int;
            let code = c0.push((OpCode::Branch((n1 + 1) as usize), source)) + c1.push((OpCode::Jmp(c2.len() as isize), source)) + c2;
            assert(emitted(il, tail).0 == code);
            assert(code[n0] == c0.push((OpCode::Branch((n1 + 1) as usize), source))[n0]);
            assert(code[n0 + 1 + n1] == c1.push((OpCode::Jmp(c2.len() as isize), source))[n1]);
        },
        _ => {},
    }
}

} // verus!
