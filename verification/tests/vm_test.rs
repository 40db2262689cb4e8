use monkey::ast::Node;
use monkey::compiler::Compiler;
use monkey::lexer::Lexer;
use monkey::object::{Boolean, Integer, Object, StringObj};
use monkey::parser::Parser;
use monkey::vm::Vm;

enum Expected {
    Int(i64),
    Bool(bool),
    Null,
    Str(&'static str),
    Ints(Vec<i64>),
}

fn run(input: &str) -> Option<Object> {
    let l = Lexer::new(input);
    let mut p = Parser::new(l);
    let program = p.parse_statements();
    let mut comp = Compiler::new();
    match comp.compile(&Node::Program(program)) {
        Ok(()) => {
            let mut vm = Vm::new(comp.bytecode());
            match vm.run() {
                Ok(()) => vm.last_popped_stack_elem(),
                Err(err) => panic!("vm error: {}", err),
            }
        },
        Err(err) => panic!("compilre error: {}", err),
    }
}

fn check(expected: &Expected, actual: Option<Object>) {
    match expected {
        Expected::Int(v) => match actual {
            Some(Object::Integer(Integer { value })) => assert!(value == *v, "object has wrong value. got={}, want={}", value, v),
            other => panic!("object is not Integer. got={:?}", other),
        },
        Expected::Bool(v) => match actual {
            Some(Object::Boolean(Boolean { value })) => assert!(value == *v, "object has wrong value. got={}, want={}", value, v),
            other => panic!("object is not Boolean. got={:?}", other),
        },
        Expected::Null => assert!(matches!(actual, Some(Object::Null(_))), "object is not Null: {:?}", actual),
        Expected::Str(v) => match actual {
            Some(Object::StringObj(StringObj { value })) => assert!(value == *v, "object has wrong value. got={}, want={}", value, v),
            other => panic!("object is not String. got={:?}", other),
        },
        Expected::Ints(vs) => match actual {
            Some(Object::Array(a)) => {
                assert!(a.elements.len() == vs.len(), "wrong num of elements. want={}, got={}", vs.len(), a.elements.len());
                for (i, v) in vs.iter().enumerate() {
                    match &a.elements[i] {
                        Object::Integer(Integer { value }) => assert!(value == v, "object has wrong value. got={}, want={}", value, v),
                        other => panic!("object is not Integer. got={:?}", other),
                    }
                }
            },
            other => panic!("object not Array: {:?}", other),
        },
    }
}

fn run_vm_tests(tests: Vec<(&str, Expected)>) {
    for (input, expected) in tests.iter() {
        check(expected, run(input));
    }
}


#[test]
fn vm_test_test_integer_arithmetic() {
    run_vm_tests(vec![
        ("1", Expected::Int(1)),
        ("2", Expected::Int(2)),
        ("1 + 2", Expected::Int(3)),
        ("1 - 2", Expected::Int(-1)),
        ("1 * 2", Expected::Int(2)),
        ("4 / 2", Expected::Int(2)),
        ("50 / 2 * 2 + 10 - 5", Expected::Int(55)),
        ("5 * (2 + 10)", Expected::Int(60)),
        ("5 + 5 + 5 + 5 - 10", Expected::Int(10)),
        ("2 * 2 * 2 * 2 * 2", Expected::Int(32)),
        ("5 * 2 + 10", Expected::Int(20)),
        ("5 + 2 * 10", Expected::Int(25)),
        ("5 * (2 + 10)", Expected::Int(60)),
        ("-5", Expected::Int(-5)),
        ("-10", Expected::Int(-10)),
        ("-50 + 100 + -50", Expected::Int(0)),
        ("(5 + 10 * 2 + 15 / 3) * 2 + -10)", Expected::Int(50)),
    ]);
}

#[test]
fn vm_test_test_boolean_expressions() {
    run_vm_tests(vec![
        ("true", Expected::Bool(true)),
        ("false", Expected::Bool(false)),
        ("1 < 2", Expected::Bool(true)),
        ("1 > 2", Expected::Bool(false)),
        ("1 < 1", Expected::Bool(false)),
        ("1 > 1", Expected::Bool(false)),
        ("1 == 1", Expected::Bool(true)),
        ("1 != 1", Expected::Bool(false)),
        ("1 == 2", Expected::Bool(false)),
        ("1 != 2", Expected::Bool(true)),
        ("true == true", Expected::Bool(true)),
        ("false == false", Expected::Bool(true)),
        ("true == false", Expected::Bool(false)),
        ("true != false", Expected::Bool(true)),
        ("false != true", Expected::Bool(true)),
        ("(1 < 2) == true", Expected::Bool(true)),
        ("(1 < 2) == false", Expected::Bool(false)),
        ("(1 > 2) == true", Expected::Bool(false)),
        ("(1 > 2) == false", Expected::Bool(true)),
        ("!true", Expected::Bool(false)),
        ("!false", Expected::Bool(true)),
        ("!5", Expected::Bool(false)),
        ("!!true", Expected::Bool(true)),
        ("!!false", Expected::Bool(false)),
        ("!!5", Expected::Bool(true)),
        ("!(if (false) { 5; })", Expected::Bool(true)),
    ]);
}

#[test]
fn vm_test_test_conditionals() {
    run_vm_tests(vec![
        ("if (true) { 10 }", Expected::Int(10)),
        ("if (true) { 10 } else { 20 }", Expected::Int(10)),
        ("if (false) { 10 } else { 20 }", Expected::Int(20)),
        ("if (1) { 10 }", Expected::Int(10)),
        ("if (1 < 2) { 10 }", Expected::Int(10)),
        ("if (1 < 2) { 10 } else { 20 }", Expected::Int(10)),
        ("if (1 > 2) { 10 } else { 20 }", Expected::Int(20)),
        ("if (1 > 2) { 10 }", Expected::Null),
        ("if (false) { 10 }", Expected::Null),
        ("if ((if (false) { 10 })) { 10 } else { 20 }", Expected::Int(20)),
    ]);
}

#[test]
fn vm_test_test_global_let_statements() {
    run_vm_tests(vec![
        ("let one = 1; one", Expected::Int(1)),
        ("let one = 1; let two = 2; one + two", Expected::Int(3)),
        ("let one = 1; let two = one + one; one + two", Expected::Int(3)),
    ]);
}

#[test]
fn vm_test_test_string_expressions() {
    run_vm_tests(vec![
        ("\"monkey\"", Expected::Str("monkey")),
        ("\"mon\" + \"key\"", Expected::Str("monkey")),
        ("\"mon\" + \"key\" + \"banana\"", Expected::Str("monkeybanana")),
    ]);
}

#[test]
fn vm_test_test_array_literals() {
    run_vm_tests(vec![("[]", Expected::Ints(vec![])), ("[1, 2, 3]", Expected::Ints(vec![1, 2, 3])), ("[1 + 2, 3 * 4, 5 + 6]", Expected::Ints(vec![3, 12, 11]))]);
}

#[test]
fn vm_runs_functions_closures_and_builtins() {
    run_vm_tests(vec![
        ("let fivePlusTen = fn() { 5 + 10; }; fivePlusTen();", Expected::Int(15)),
        ("let one = fn() { 1; }; let two = fn() { 2; }; one() + two()", Expected::Int(3)),
        ("let noReturn = fn() { }; noReturn();", Expected::Null),
        ("let sum = fn(a, b) { let c = a + b; c; }; sum(1, 2);", Expected::Int(3)),
        ("let newAdder = fn(a) { fn(b) { a + b } }; let adder = newAdder(8); adder(2);", Expected::Int(10)),
        ("len([1, 2, 3])", Expected::Int(3)),
        ("first([7, 8])", Expected::Int(7)),
        ("rest([1, 2, 3])", Expected::Ints(vec![2, 3])),
        ("push([1], 2)", Expected::Ints(vec![1, 2])),
        ("{1: 10, 2: 20}[2]", Expected::Int(20)),
        ("[1, 2, 3][5]", Expected::Null),
        ("let fib = fn(x) { if (x < 2) { x } else { fib(x - 1) + fib(x - 2) } }; fib(10)", Expected::Int(55)),
    ]);
}

#[test]
fn vm_reports_errors() {
    let l = Lexer::new("1 / 0");
    let mut p = Parser::new(l);
    let program = p.parse_statements();
    let mut comp = Compiler::new();
    comp.compile(&Node::Program(program)).unwrap();
    let mut vm = Vm::new(comp.bytecode());
    assert_eq!(vm.run(), Err(String::from("division by zero")));

    let l = Lexer::new("fn(a) { a }()");
    let mut p = Parser::new(l);
    let program = p.parse_statements();
    let mut comp = Compiler::new();
    comp.compile(&Node::Program(program)).unwrap();
    let mut vm = Vm::new(comp.bytecode());
    assert_eq!(vm.run(), Err(String::from("wrong number of arguments: want=1, got=0")));
}

#[test]
fn vm_collects_puts_output() {
    let l = Lexer::new("puts(1, \"two\")");
    let mut p = Parser::new(l);
    let program = p.parse_statements();
    let mut comp = Compiler::new();
    comp.compile(&Node::Program(program)).unwrap();
    let mut vm = Vm::new(comp.bytecode());
    vm.run().unwrap();
    assert_eq!(vm.output, vec![String::from("1"), String::from("two")]);
}
