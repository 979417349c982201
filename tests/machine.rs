use lisp::bytecode::{constant_hash, opcodes_hash, symbol_hash};
use lisp::vm::{Arity, Constant, Error, Object, OpCode, Type, UpValue, Vm};

fn load_code(vm: &mut Vm, code: Vec<OpCode>) -> u64 {
    let h = opcodes_hash(&code);
    vm.load_constants(vec![Constant::Opcodes(code)]);
    h
}

#[test]
fn return_balances_call() {
    let mut vm = Vm::new();
    let body = load_code(&mut vm, vec![OpCode::GetLocal(1), OpCode::Return]);
    vm.push(Object::Int(100));
    vm.lambda(Arity::Nary(2), body).unwrap();
    vm.push(Object::Int(1));
    vm.push(Object::Int(2));
    assert_eq!(vm.stack().len(), 4);
    vm.call(2).unwrap();
    vm.get_local(1).unwrap();
    vm.ret().unwrap();
    assert_eq!(vm.stack().len(), 4 - 2 - 1 + 1);
    let top = *vm.stack().last().unwrap();
    assert!(matches!(vm.object(top), Some(Object::Int(2))));
    assert!(matches!(vm.object(vm.stack()[0]), Some(Object::Int(100))));
}

#[test]
fn upvalue_cell_is_shared() {
    let mut vm = Vm::new();
    let body = load_code(&mut vm, vec![OpCode::GetUpValue(0), OpCode::Return]);
    vm.push(Object::Int(10));
    vm.lambda(Arity::Nullary, body).unwrap();
    vm.create_upvalue(UpValue { frame: 0, index: 0 }).unwrap();
    vm.push(Object::Int(11));
    vm.set_local(0).unwrap();
    assert!(matches!(vm.pop(), Some(Object::Int(11))));
    vm.call(0).unwrap();
    vm.get_upvalue(0).unwrap();
    let top = *vm.stack().last().unwrap();
    assert!(matches!(vm.object(top), Some(Object::Int(11))));
}

#[test]
fn eval_returns_top_and_clears_stack() {
    let mut vm = Vm::new();
    let r = vm.eval(&[OpCode::PushInt(6), OpCode::PushInt(7), OpCode::Mul]).unwrap().unwrap();
    assert!(matches!(vm.object(r), Some(Object::Int(42))));
    assert!(vm.stack().is_empty());
    assert!(vm.eval(&[]).unwrap().is_none());
}

#[test]
fn errors_unwind_the_stack() {
    let mut vm = Vm::new();
    let r = vm.eval(&[OpCode::PushInt(1), OpCode::PushTrue, OpCode::Add]);
    assert!(matches!(r, Err(Error::Type { expected: Type::Int, received: Type::True })));
    assert!(vm.stack().is_empty());
}

#[test]
fn branch_needs_a_predicate() {
    let mut vm = Vm::new();
    let r = vm.eval(&[OpCode::PushInt(1), OpCode::Branch(1)]);
    assert!(matches!(r, Err(Error::Type { expected: Type::Predicate, received: Type::Int })));
    let r = vm.eval(&[OpCode::PushNil, OpCode::Branch(1), OpCode::PushInt(1), OpCode::PushInt(2)]).unwrap().unwrap();
    assert!(matches!(vm.object(r), Some(Object::Int(2))));
}

#[test]
fn is_type_keeps_its_operand() {
    let mut vm = Vm::new();
    vm.push(Object::Char('c'));
    vm.is_type(Type::Char).unwrap();
    assert_eq!(vm.stack().len(), 2);
    assert!(matches!(vm.object(vm.stack()[1]), Some(Object::True)));
    vm.is_type(Type::Int).unwrap();
    assert!(matches!(vm.object(vm.stack()[2]), Some(Object::Nil)));
}

#[test]
fn list_builds_pairs_in_order() {
    let mut vm = Vm::new();
    vm.push(Object::Int(1));
    vm.push(Object::Int(2));
    vm.list(2).unwrap();
    assert_eq!(vm.stack().len(), 1);
    let h = vm.stack()[0];
    let Some(Object::Cons(first)) = vm.object(h) else { panic!() };
    assert!(matches!(vm.object(first.0), Some(Object::Int(1))));
    let Some(Object::Cons(second)) = vm.object(first.1) else { panic!() };
    assert!(matches!(vm.object(second.0), Some(Object::Int(2))));
    assert!(matches!(vm.object(second.1), Some(Object::Nil)));
}

#[test]
fn globals_need_their_symbol() {
    let mut vm = Vm::new();
    let name = "g".to_string();
    let h = symbol_hash(&name);
    vm.load_constants(vec![Constant::Symbol(name.clone())]);
    assert!(matches!(vm.get_global(h), Err(Error::NotFound(n)) if n == "g"));
    vm.push(Object::Int(3));
    assert!(matches!(vm.set_global(h), Err(Error::NotFound(_))));
    vm.def_global(h).unwrap();
    vm.get_global(h).unwrap();
    let top = *vm.stack().last().unwrap();
    assert!(matches!(vm.object(top), Some(Object::Int(3))));
    assert!(matches!(vm.def_global(h ^ 1), Err(Error::Bytecode(_))));
}

#[test]
fn assert_fails_on_nil() {
    let mut vm = Vm::new();
    vm.push(Object::Nil);
    assert!(matches!(vm.assert_true(), Err(Error::Assert(_))));
    vm.push(Object::True);
    vm.assert_true().unwrap();
}

#[test]
fn pool_keys_are_xxh3_digests() {
    let name = "abc".to_string();
    assert_eq!(symbol_hash(&name), xxhash_rust::xxh3::xxh3_64(&[1, b'a', b'b', b'c']));
    assert_eq!(constant_hash(&Constant::String(name.clone())), xxhash_rust::xxh3::xxh3_64(&[0, b'a', b'b', b'c']));
    let code = vec![OpCode::Return];
    let mut bytes = vec![2u8, 9];
    bytes.extend_from_slice(&[0u8; 16]);
    assert_eq!(opcodes_hash(&code), xxhash_rust::xxh3::xxh3_64(&bytes));
}

#[test]
fn failed_instructions_pop_their_operands() {
    let mut vm = Vm::new();
    vm.push(Object::Int(7));
    vm.push(Object::Int(1));
    assert!(matches!(vm.branch(3), Err(Error::Type { expected: Type::Predicate, received: Type::Int })));
    assert_eq!(vm.stack().len(), 1);
    vm.push(Object::True);
    assert!(matches!(vm.add(), Err(Error::Type { expected: Type::Int, received: Type::True })));
    assert!(vm.stack().is_empty());
    vm.push(Object::Int(1));
    vm.push(Object::Int(0));
    assert!(matches!(vm.div(), Err(Error::DivisionByZero)));
    assert!(vm.stack().is_empty());
    vm.push(Object::Int(1));
    assert!(matches!(vm.car(), Err(Error::Type { expected: Type::Cons, .. })));
    assert!(vm.stack().is_empty());
    assert!(matches!(vm.branch(1), Err(Error::Bytecode(_))));
}
