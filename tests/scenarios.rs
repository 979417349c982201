use lisp::ast::Compiler;
use lisp::program::{evaluate, run_program, Failure};
use lisp::sexpr::{Sexpr, Source};
use lisp::vm::{Error, Object, Vm};

fn read_all(text: &str) -> Vec<Sexpr> {
    let chars: Vec<char> = text.chars().collect();
    let mut pos = 0;
    let mut out = Vec::new();
    loop {
        skip_space(&chars, &mut pos);
        if pos >= chars.len() {
            return out;
        }
        out.push(read_one(&chars, &mut pos));
    }
}

fn skip_space(chars: &[char], pos: &mut usize) {
    while *pos < chars.len() && chars[*pos].is_whitespace() {
        *pos += 1;
    }
}

fn read_one(chars: &[char], pos: &mut usize) -> Sexpr {
    skip_space(chars, pos);
    let start = *pos;
    if chars[*pos] == '(' {
        *pos += 1;
        let mut list = Vec::new();
        loop {
            skip_space(chars, pos);
            if chars[*pos] == ')' {
                *pos += 1;
                break;
            }
            list.push(read_one(chars, pos));
        }
        return Sexpr::List { source: Source { file: 0, start, end: *pos }, list };
    }
    if chars[*pos] == '"' {
        *pos += 1;
        let mut string = String::new();
        while chars[*pos] != '"' {
            string.push(chars[*pos]);
            *pos += 1;
        }
        *pos += 1;
        return Sexpr::String { source: Source { file: 0, start, end: *pos }, string };
    }
    let mut word = String::new();
    while *pos < chars.len() && !chars[*pos].is_whitespace() && chars[*pos] != '(' && chars[*pos] != ')' {
        word.push(chars[*pos]);
        *pos += 1;
    }
    let source = Source { file: 0, start, end: *pos };
    if let Ok(value) = word.parse::<i64>() {
        Sexpr::Int { source, value }
    } else if word == "nil" {
        Sexpr::Nil { source }
    } else {
        Sexpr::Symbol { source, symbol: word }
    }
}

fn run(text: &str) -> (Vm, Result<Option<usize>, Failure>) {
    let mut vm = Vm::new();
    let mut compiler = Compiler::new();
    let forms = read_all(text);
    let r = evaluate(&mut vm, &mut compiler, &forms);
    (vm, r)
}

fn int_result(text: &str) -> i64 {
    let (vm, r) = run(text);
    let h = r.expect("evaluation failed").expect("no value left");
    match vm.object(h) {
        Some(Object::Int(v)) => *v,
        other => panic!("not an integer: {:?}", other),
    }
}

#[test]
fn def_then_reference_yields_value() {
    let (vm, r) = run("(def x 42) x");
    let h = r.unwrap().unwrap();
    assert!(matches!(vm.object(h), Some(Object::Int(42))));
    let g = vm.global(&"x".to_string()).unwrap();
    assert!(matches!(vm.object(g), Some(Object::Int(42))));
}

#[test]
fn immediate_lambda_application() {
    assert_eq!(int_result("((lambda (a b) (+ a b)) 3 4)"), 7);
}

#[test]
fn closure_captures_argument() {
    assert_eq!(int_result("(def make-adder (lambda (n) (lambda (x) (+ x n)))) ((make-adder 10) 5)"), 15);
}

#[test]
fn closure_keeps_its_own_cell() {
    let text = "(def make-adder (lambda (n) (lambda (x) (+ x n)))) (def add10 (make-adder 10)) (make-adder 20) (make-adder 30) (add10 5)";
    assert_eq!(int_result(text), 15);
}

#[test]
fn if_takes_the_right_branch() {
    assert_eq!(int_result("(if (= 1 1) 100 200)"), 100);
    assert_eq!(int_result("(if (= 1 2) 100 200)"), 200);
}

#[test]
fn comparisons_order_integers() {
    assert_eq!(int_result("(if (< 1 2) 1 0)"), 1);
    assert_eq!(int_result("(if (> 1 2) 1 0)"), 0);
}

#[test]
fn assert_on_type_predicates() {
    let (_, r) = run("(assert (cons? (cons 1 2)))");
    assert!(r.is_ok());
    let (_, r) = run("(assert (int? (quote foo)))");
    assert!(matches!(r, Err(Failure::Run(Error::Assert(_)))));
}

#[test]
fn arithmetic_matches_host_integers() {
    assert_eq!(int_result("(+ 2 3)"), 5);
    assert_eq!(int_result("(- 2 5)"), -3);
    assert_eq!(int_result("(* -4 3)"), -12);
    assert_eq!(int_result("(/ 7 2)"), 3);
    assert_eq!(int_result("(/ -7 2)"), -3);
    assert_eq!(int_result("(/ 7 -2)"), -3);
}

#[test]
fn division_by_zero_is_an_error() {
    let (_, r) = run("(/ 1 0)");
    assert!(matches!(r, Err(Failure::Run(Error::DivisionByZero))));
}

#[test]
fn overflow_is_an_error() {
    let (_, r) = run("(+ 9223372036854775807 1)");
    assert!(matches!(r, Err(Failure::Run(Error::Overflow))));
}

#[test]
fn car_and_cdr_of_cons() {
    assert_eq!(int_result("(car (cons 1 (list 2 3)))"), 1);
    assert_eq!(int_result("(car (cdr (cons 1 (list 2 3))))"), 2);
    assert_eq!(int_result("(car (cdr (cdr (cons 1 (list 2 3)))))"), 3);
    let (vm, r) = run("(cdr (cdr (cdr (cons 1 (list 2 3)))))");
    assert!(matches!(vm.object(r.unwrap().unwrap()), Some(Object::Nil)));
}

#[test]
fn car_of_non_pair_is_a_type_error() {
    let (_, r) = run("(car 1)");
    assert!(matches!(r, Err(Failure::Run(Error::Type { .. }))));
}

#[test]
fn quote_keeps_structure() {
    let (vm, r) = run("(quote (a 1 \"s\"))");
    let h = r.unwrap().unwrap();
    let Some(Object::Cons(first)) = vm.object(h) else { panic!() };
    assert!(matches!(vm.object(first.0), Some(Object::Symbol(s)) if s == "a"));
    let Some(Object::Cons(second)) = vm.object(first.1) else { panic!() };
    assert!(matches!(vm.object(second.0), Some(Object::Int(1))));
    let Some(Object::Cons(third)) = vm.object(second.1) else { panic!() };
    assert!(matches!(vm.object(third.0), Some(Object::String(s)) if s == "s"));
    assert!(matches!(vm.object(third.1), Some(Object::Nil)));
}

#[test]
fn unknown_global_is_not_found() {
    let (_, r) = run("missing");
    assert!(matches!(r, Err(Failure::Run(Error::NotFound(name))) if name == "missing"));
}

#[test]
fn calling_a_non_function_is_a_type_error() {
    let (_, r) = run("(1 2)");
    assert!(matches!(r, Err(Failure::Run(Error::Type { .. }))));
}

#[test]
fn arity_mismatch_is_an_error() {
    let (_, r) = run("((lambda (a) a) 1 2)");
    assert!(matches!(r, Err(Failure::Run(Error::Arity { .. }))));
}

#[test]
fn set_updates_a_global() {
    assert_eq!(int_result("(def x 1) (set! x 5) x"), 5);
}

#[test]
fn step_limit_stops_the_machine() {
    let mut vm = Vm::new();
    vm.set_step_limit(2);
    let mut compiler = Compiler::new();
    let forms = read_all("(+ 1 (+ 2 3))");
    let r = evaluate(&mut vm, &mut compiler, &forms);
    assert!(matches!(r, Err(Failure::Run(Error::StepLimit))));
}

#[test]
fn macro_expands_before_evaluation() {
    let text = "(defmacro when (p body) (list (quote if) p body (quote nil))) (when (= 1 1) 7)";
    assert_eq!(int_result(text), 7);
    let (vm, r) = run("(defmacro when (p body) (list (quote if) p body (quote nil))) (when (= 1 2) 7)");
    assert!(matches!(vm.object(r.unwrap().unwrap()), Some(Object::Nil)));
}

#[test]
fn macro_inside_a_lambda_body() {
    let text = "(defmacro twice (x) (list (quote +) x x)) (def f (lambda (n) (twice n))) (f 21)";
    assert_eq!(int_result(text), 42);
}

#[test]
fn runaway_macro_is_an_error() {
    let (_, r) = run("(defmacro loop (x) (list (quote loop) x)) (loop 1)");
    assert!(matches!(r, Err(Failure::Expand(_))));
}

#[test]
fn whole_program_run() {
    let mut vm = Vm::new();
    let mut compiler = Compiler::new();
    let forms = read_all("(def x 42) (+ x 1)");
    let h = run_program(&mut vm, &mut compiler, &forms).unwrap().unwrap();
    assert!(matches!(vm.object(h), Some(Object::Int(43))));
    let forms = read_all("(defmacro m (x) x)");
    assert!(matches!(run_program(&mut vm, &mut compiler, &forms), Err(Failure::Resolve(_))));
}

#[test]
fn tail_calls_run_deep_loops() {
    let text = "(def count (lambda (n acc) (if (= n 0) acc (count (- n 1) (+ acc 1))))) (count 20000 0)";
    assert_eq!(int_result(text), 20000);
}

#[test]
fn non_tail_recursion() {
    assert_eq!(int_result("(def sum (lambda (n) (if (= n 0) 0 (+ n (sum (- n 1)))))) (sum 100)"), 5050);
}
