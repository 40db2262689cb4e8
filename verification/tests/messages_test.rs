use monkey::ast::Node;
use monkey::compiler::Compiler;
use monkey::environment::EnvStore;
use monkey::evaluator::eval;
use monkey::lexer::Lexer;
use monkey::object::Object;
use monkey::parser::Parser;
use monkey::vm::Vm;

fn vm_outcome(input: &str) -> Result<Option<Object>, String> {
    let mut p = Parser::new(Lexer::new(input));
    let program = p.parse_program().unwrap();
    let mut comp = Compiler::new();
    comp.compile(&Node::Program(program)).unwrap();
    let mut vm = Vm::new(comp.bytecode());
    vm.run().map(|_| vm.last_popped_stack_elem())
}

fn eval_outcome(input: &str) -> Option<Object> {
    let mut p = Parser::new(Lexer::new(input));
    let program = p.parse_program().unwrap();
    let mut store = EnvStore::new();
    let mut output: Vec<String> = Vec::new();
    eval(&Node::Program(program), &mut store, 0, &mut output)
}

#[test]
fn comparing_booleans_by_greater_than_quotes_both_values() {
    assert_eq!(
        vm_outcome("true > false").unwrap_err(),
        "unknown operator: OpGreaterThan (Some(Boolean(Boolean { value: true })) Some(Boolean(Boolean { value: false })))"
    );
}

#[test]
fn comparing_strings_and_arrays_quotes_them_as_debug_shows_them() {
    assert_eq!(
        vm_outcome("\"a\" > [1, \"b\"]").unwrap_err(),
        "unknown operator: OpGreaterThan (Some(StringObj(StringObj { value: \"a\" })) Some(Array(Array { elements: [Integer(Integer { value: 1 }), StringObj(StringObj { value: \"b\" })] })))"
    );
}

#[test]
fn builtins_are_never_equal() {
    assert!(matches!(vm_outcome("len == len"), Ok(Some(Object::Boolean(b))) if !b.value));
    assert!(matches!(vm_outcome("len != len"), Ok(Some(Object::Boolean(b))) if b.value));
    assert!(matches!(eval_outcome("len == len"), Some(Object::Boolean(b)) if !b.value));
    assert!(matches!(eval_outcome("puts != puts"), Some(Object::Boolean(b)) if b.value));
}

#[test]
fn deep_recursion_is_not_cut_short() {
    let r = eval_outcome("let f = fn(n) { if (n == 0) { 0 } else { 1 + f(n - 1) } }; f(600)");
    assert!(matches!(r, Some(Object::Integer(i)) if i.value == 600));
}

#[test]
fn the_machine_words_builtin_errors_its_own_way() {
    let e = vm_outcome("first(1)").unwrap();
    assert!(matches!(e, Some(Object::ErrorObj(m)) if m.message == "arguemnt to `first` must be ARRAY, got=\"INTEGER\""));
    let e = vm_outcome("push(\"a\", 1)").unwrap();
    assert!(matches!(e, Some(Object::ErrorObj(m)) if m.message == "arguemnt to `push` must be ARRAY, got=\"STRING\""));
    let e = eval_outcome("first(1)");
    assert!(matches!(e, Some(Object::ErrorObj(m)) if m.message == "argument to `first` must be ARRAY, got INTEGER"));
}

#[test]
fn a_longer_globals_store_is_accepted() {
    let mut p = Parser::new(Lexer::new("let a = 1; a + 1"));
    let program = p.parse_program().unwrap();
    let mut comp = Compiler::new();
    comp.compile(&Node::Program(program)).unwrap();
    let mut globals: Vec<Option<Object>> = Vec::new();
    for _ in 0..70000 {
        globals.push(None);
    }
    let mut vm = Vm::new_with_globals_store(comp.bytecode(), globals);
    vm.run().unwrap();
    assert!(matches!(vm.last_popped_stack_elem(), Some(Object::Integer(i)) if i.value == 2));
    assert_eq!(vm.globals.len(), 70000);
}

#[test]
fn a_name_bound_to_no_value_is_not_found() {
    let r = eval_outcome("let f = fn() { }; let x = f(); x");
    assert!(matches!(r, Some(Object::ErrorObj(e)) if e.message == "identifier not found: x"));
    let r = eval_outcome("let x = 1; let g = fn() { let x = if (true) { }; x }; g()");
    assert!(matches!(r, Some(Object::ErrorObj(e)) if e.message == "identifier not found: x"));
}
