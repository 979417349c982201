use lisp::ast::{parse_parameters, parse_variable, Ast, Compiler, Parameter, Parameters, Quoted, Type, Variable};
use lisp::bytecode::{compile, OpCodeTable};
use lisp::il;
use lisp::sexpr::{Sexpr, Source};
use lisp::vm::{Arity, OpCode, UpValue};

fn src(start: usize) -> Source {
    Source { file: 1, start, end: start + 1 }
}

fn sym(name: &str, start: usize) -> Sexpr {
    Sexpr::Symbol { source: src(start), symbol: name.to_string() }
}

fn integer(value: i64, start: usize) -> Sexpr {
    Sexpr::Int { source: src(start), value }
}

fn list(items: Vec<Sexpr>, start: usize) -> Sexpr {
    Sexpr::List { source: src(start), list: items }
}

#[test]
fn test_parse_parameters() {
    let items = vec![sym("a", 1), sym("b", 3), sym("&rest", 5), sym("c", 11)];
    let parameters = parse_parameters(src(0), &items).unwrap();
    match parameters {
        Parameters::Rest(..) => (),
        _ => panic!(),
    };
}

#[test]
fn test_parse_only_rest_parameters() {
    let items = vec![sym("&rest", 1), sym("c", 7)];
    let parameters = parse_parameters(src(0), &items).unwrap();
    match parameters {
        Parameters::Rest(params, _) if params.is_empty() => (),
        _ => panic!(),
    };
}

#[test]
fn parameters_without_rest_are_normal() {
    let items = vec![sym("a", 1), list(vec![sym("b", 4), sym("int", 6)], 3)];
    match parse_parameters(src(0), &items).unwrap() {
        Parameters::Normal(ps) => {
            assert_eq!(ps.len(), 2);
            assert_eq!(ps[0].name, "a");
            assert!(ps[0].ty.is_none());
            assert_eq!(ps[1].name, "b");
            assert!(matches!(&ps[1].ty, Some(Type::Scalar(t)) if t == "int"));
        },
        _ => panic!(),
    }
}

#[test]
fn rest_marker_not_second_to_last_is_a_name() {
    let items = vec![sym("a", 1), sym("&rest", 3), sym("b", 9), sym("c", 11)];
    assert!(matches!(parse_parameters(src(0), &items).unwrap(), Parameters::Normal(ps) if ps.len() == 4));
}

#[test]
fn malformed_parameter_is_refused() {
    let items = vec![integer(1, 1)];
    assert!(parse_parameters(src(0), &items).is_err());
    assert!(Parameter::from_sexpr(&list(vec![sym("a", 1)], 0)).is_err());
}

#[test]
fn parameters_len_counts_rest_as_one() {
    let p = |n: &str| Parameter { name: n.to_string(), ty: None };
    assert_eq!(Parameters::Normal(vec![p("a"), p("b")]).len(), 2);
    assert_eq!(Parameters::Normal(vec![]).len(), 0);
    assert_eq!(Parameters::Rest(vec![p("a"), p("b")], p("c")).len(), 3);
    assert_eq!(Parameters::Rest(vec![], p("c")).len(), 1);
}

#[test]
fn variable_with_module() {
    match parse_variable(src(0), "list::map").unwrap() {
        Variable::WithModule { module, name, .. } => {
            assert_eq!(module, "list");
            assert_eq!(name, "map");
        },
        _ => panic!(),
    }
}

#[test]
fn variable_without_module() {
    assert!(matches!(parse_variable(src(0), "map").unwrap(), Variable::WithoutModule { name, .. } if name == "map"));
    assert!(matches!(parse_variable(src(0), "::map").unwrap(), Variable::WithoutModule { name, .. } if name == "::map"));
    assert!(matches!(parse_variable(src(0), "map::").unwrap(), Variable::WithoutModule { name, .. } if name == "map::"));
    assert!(parse_variable(src(0), "").is_err());
}

#[test]
fn variable_splits_on_first_separator() {
    match parse_variable(src(0), "a::b::c").unwrap() {
        Variable::WithModule { module, name, .. } => {
            assert_eq!(module, "a");
            assert_eq!(name, "b::c");
        },
        _ => panic!(),
    }
}

#[test]
fn type_annotations() {
    assert!(matches!(Type::from_sexpr(&sym("int", 0)).unwrap(), Type::Scalar(t) if t == "int"));
    let composite = list(vec![sym("list", 1), sym("int", 6)], 0);
    assert!(matches!(Type::from_sexpr(&composite).unwrap(), Type::Composite(ts) if ts.len() == 2));
    assert!(Type::from_sexpr(&integer(3, 0)).is_err());
}

#[test]
fn lowering_keeps_source() {
    let mut compiler = Compiler::new();
    let form = list(vec![sym("if", 1), sym("p", 4), integer(1, 6), integer(2, 8)], 0);
    let ast = compiler.compile(&form).unwrap();
    assert_eq!(ast.source_sexpr(), src(0));
    match ast {
        Ast::If(x) => {
            assert_eq!(x.predicate.source_sexpr(), src(4));
            assert_eq!(x.alternative.source_sexpr(), src(8));
        },
        _ => panic!(),
    }
}

#[test]
fn lowering_refuses_bad_shapes() {
    let mut compiler = Compiler::new();
    assert!(compiler.compile(&list(vec![sym("if", 1), integer(1, 4)], 0)).is_err());
    assert!(compiler.compile(&list(vec![], 0)).is_err());
    assert!(compiler.compile(&list(vec![sym("export", 1), sym("m::x", 8)], 0)).is_err());
}

#[test]
fn defmacro_registers_the_name() {
    let mut compiler = Compiler::new();
    let name = "when".to_string();
    assert!(!compiler.is_macro(&name));
    let def = list(vec![sym("defmacro", 1), sym("when", 10), list(vec![sym("p", 16)], 15), sym("p", 19)], 0);
    assert!(matches!(compiler.compile(&def).unwrap(), Ast::DefMacro(_)));
    assert!(compiler.is_macro(&name));
    let call = list(vec![sym("when", 1), list(vec![sym("f", 7), integer(1, 9)], 6)], 0);
    match compiler.compile(&call).unwrap() {
        Ast::MacroCall(m) => {
            assert_eq!(m.name, "when");
            assert_eq!(m.args.len(), 1);
            assert!(matches!(&m.args[0], Quoted::List { list, .. } if list.len() == 2));
        },
        _ => panic!(),
    }
}

#[test]
fn unknown_head_is_a_function_call() {
    let mut compiler = Compiler::new();
    let call = list(vec![sym("f", 1), integer(1, 3), integer(2, 5)], 0);
    assert!(matches!(compiler.compile(&call).unwrap(), Ast::FnCall(f) if f.exprs.len() == 2));
}

fn make_adder() -> Sexpr {
    let inner = list(
        vec![sym("lambda", 20), list(vec![sym("x", 28)], 27), list(vec![sym("+", 32), sym("x", 34), sym("n", 36)], 31)],
        19,
    );
    list(vec![sym("lambda", 1), list(vec![sym("n", 9)], 8), inner], 0)
}

#[test]
fn inner_lambda_captures_one_upvalue() {
    let mut compiler = Compiler::new();
    let ast = compiler.compile(&make_adder()).unwrap();
    let mut resolver = il::Compiler::new();
    let outer = resolver.compile(ast).unwrap();
    let il::Il::Lambda(outer) = outer else { panic!() };
    assert!(outer.upvalues.is_empty());
    assert_eq!(outer.arity, Arity::Nary(1));
    let il::Il::Lambda(inner) = &outer.body[0] else { panic!() };
    assert_eq!(inner.upvalues, vec![UpValue { frame: 0, index: 0 }]);
    let il::Il::Arithmetic { lhs, rhs, .. } = &inner.body[0] else { panic!() };
    assert!(matches!(**lhs, il::Il::VarRef(il::VarRef::Local { index: 0, .. })));
    assert!(matches!(**rhs, il::Il::VarRef(il::VarRef::UpValue { index: 0, .. })));
}

#[test]
fn emitted_lambda_creates_each_upvalue() {
    let mut compiler = Compiler::new();
    let ast = compiler.compile(&make_adder()).unwrap();
    let mut resolver = il::Compiler::new();
    let outer = resolver.compile(ast).unwrap();
    let mut table = OpCodeTable::new();
    let mut pool = Vec::new();
    compile(&outer, false, &mut table, &mut pool).unwrap();
    let ops = table.opcodes();
    assert_eq!(ops.len(), 1);
    assert!(matches!(ops[0], OpCode::Lambda { arity: Arity::Nary(1), .. }));
    assert_eq!(pool.len(), 2);
    let lisp::vm::Constant::Opcodes(inner_code) = &pool[0] else { panic!() };
    assert_eq!(inner_code, &vec![OpCode::GetLocal(0), OpCode::GetUpValue(0), OpCode::Add, OpCode::Return]);
    let lisp::vm::Constant::Opcodes(outer_code) = &pool[1] else { panic!() };
    assert!(matches!(outer_code[0], OpCode::Lambda { arity: Arity::Nary(1), .. }));
    assert_eq!(outer_code[1], OpCode::CreateUpValue(UpValue { frame: 0, index: 0 }));
    assert_eq!(outer_code[2], OpCode::Return);
    assert_eq!(table.sources(), vec![src(0)]);
}

#[test]
fn emitted_if_jumps_over_branches() {
    let mut compiler = Compiler::new();
    let form = list(vec![sym("if", 1), sym("p", 4), integer(1, 6), list(vec![sym("+", 9), integer(2, 11), integer(3, 13)], 8)], 0);
    let ast = compiler.compile(&form).unwrap();
    let mut resolver = il::Compiler::new();
    let code = resolver.compile(ast).unwrap();
    let mut table = OpCodeTable::new();
    let mut pool = Vec::new();
    compile(&code, false, &mut table, &mut pool).unwrap();
    let ops = table.opcodes();
    assert!(matches!(ops[0], OpCode::GetGlobal(_)));
    assert_eq!(&ops[1..], &[OpCode::Branch(2), OpCode::PushInt(1), OpCode::Jmp(3), OpCode::PushInt(2), OpCode::PushInt(3), OpCode::Add]);
}

#[test]
fn symbol_hash_depends_on_text() {
    let a = lisp::bytecode::symbol_hash(&"a".to_string());
    let b = lisp::bytecode::symbol_hash(&"b".to_string());
    let s = lisp::bytecode::string_hash(&"a".to_string());
    assert_ne!(a, b);
    assert_ne!(a, s);
    assert_eq!(a, lisp::bytecode::symbol_hash(&"a".to_string()));
}

#[test]
fn call_in_tail_position_is_a_tail_call() {
    let mut compiler = Compiler::new();
    let body = list(vec![sym("f", 12), sym("x", 14)], 11);
    let lambda = list(vec![sym("lambda", 1), list(vec![sym("x", 9)], 8), body], 0);
    let ast = compiler.compile(&lambda).unwrap();
    let mut resolver = il::Compiler::new();
    let code = resolver.compile(ast).unwrap();
    let mut table = OpCodeTable::new();
    let mut pool = Vec::new();
    compile(&code, false, &mut table, &mut pool).unwrap();
    let lisp::vm::Constant::Opcodes(inner) = pool.last().unwrap() else { panic!() };
    assert_eq!(inner[inner.len() - 2], OpCode::Tail(1));
    assert_eq!(inner[inner.len() - 1], OpCode::Return);
}

#[test]
fn malformed_form_error_cites_the_form() {
    let mut compiler = Compiler::new();
    let bad_lambda = list(vec![sym("lambda", 1), integer(5, 8), sym("x", 10)], 0);
    assert_eq!(compiler.compile(&bad_lambda).unwrap_err().source, src(0));
    let bad_set = list(vec![sym("set!", 21), integer(1, 26), integer(2, 28)], 20);
    assert_eq!(compiler.compile(&bad_set).unwrap_err().source, src(20));
    assert_eq!(compiler.compile(&list(vec![], 30)).unwrap_err().source, src(30));
}

#[test]
fn failing_child_error_cites_the_child() {
    let mut compiler = Compiler::new();
    let child = list(vec![sym("car", 5)], 4);
    let form = list(vec![sym("if", 1), child, integer(1, 10), integer(2, 12)], 0);
    assert_eq!(compiler.compile(&form).unwrap_err().source, src(4));
}

#[test]
fn failed_defmacro_still_registers_its_name() {
    let mut compiler = Compiler::new();
    let def = list(vec![sym("defmacro", 1), sym("m", 10), integer(3, 12), sym("x", 14)], 0);
    assert_eq!(compiler.compile(&def).unwrap_err().source, src(0));
    assert!(compiler.is_macro(&"m".to_string()));
}
