use monkey::ast::Node;
use monkey::builtins::apply_builtin;
use monkey::lexer::Lexer;
use monkey::parser::Parser;
use monkey::code::{make, Instructions, Opcode};
use monkey::compiler::Bytecode;
use monkey::environment::{new_enclosed_environment, EnvStore};
use monkey::object::{hash_key_eq, Array, BuiltinFunction, HashKey, Hashable, Integer, Object, StringObj};
use monkey::symbol_table::{SymbolScope, SymbolTable};
use monkey::vm::Vm;

fn integer(v: i64) -> Object {
    Object::Integer(Integer { value: v })
}

#[test]
fn hash_insert_then_get_finds_the_value_and_keeps_other_keys() {
    let mut h = monkey::object::Hash { pairs: Vec::new() };
    h.insert(HashKey::StringObj(StringObj { value: "one".to_string() }), integer(1));
    h.insert(HashKey::Integer(Integer { value: 2 }), integer(2));
    h.insert(HashKey::StringObj(StringObj { value: "one".to_string() }), integer(10));
    assert!(matches!(h.get(&HashKey::StringObj(StringObj { value: "one".to_string() })), Some(Object::Integer(i)) if i.value == 10));
    assert!(matches!(h.get(&HashKey::Integer(Integer { value: 2 })), Some(Object::Integer(i)) if i.value == 2));
    assert!(h.get(&HashKey::Integer(Integer { value: 3 })).is_none());
    assert_eq!(h.pairs.len(), 2);
}

#[test]
fn environment_set_then_get_finds_the_value_in_enclosed_scopes() {
    let mut store = EnvStore::new();
    store.set(0, "a".to_string(), Some(integer(5)));
    store.set(0, "b".to_string(), Some(integer(6)));
    store.set(0, "a".to_string(), Some(integer(7)));
    assert!(matches!(store.get(0, "a"), Some(Object::Integer(i)) if i.value == 7));
    assert!(matches!(store.get(0, "b"), Some(Object::Integer(i)) if i.value == 6));
    assert!(store.get(0, "c").is_none());
}

#[test]
fn builtin_push_then_last_and_len() {
    let mut output: Vec<String> = Vec::new();
    let arr = Object::Array(Array { elements: vec![integer(1), integer(2)] });
    let pushed = apply_builtin(BuiltinFunction::Push, &vec![arr, integer(3)], &mut output, false);
    let last = apply_builtin(BuiltinFunction::Last, &vec![pushed.duplicate()], &mut output, false);
    let len = apply_builtin(BuiltinFunction::Len, &vec![pushed], &mut output, false);
    assert!(matches!(last, Object::Integer(i) if i.value == 3));
    assert!(matches!(len, Object::Integer(i) if i.value == 3));
    assert!(output.is_empty());
}

#[test]
fn vm_push_then_pop_gives_the_value_back() {
    let mut vm = Vm::new(Bytecode { instuctions: Instructions::new(), constants: Vec::new() });
    assert!(vm.push(integer(42)).is_ok());
    assert_eq!(vm.sp, 1);
    let popped = vm.pop();
    assert!(matches!(popped, Some(Object::Integer(i)) if i.value == 42));
    assert_eq!(vm.sp, 0);
}

#[test]
fn symbol_table_define_then_resolve_in_enclosed_scope() {
    let mut global = SymbolTable::new();
    let a = global.define("a");
    assert_eq!(a.scope, SymbolScope::GlobalScope);
    let mut local = SymbolTable::new_enclosed_symbol_table(global);
    let b = local.define("b");
    assert_eq!(b.scope, SymbolScope::LocalScope);
    let ra = local.resolve("a").unwrap();
    assert_eq!((ra.scope, ra.index), (SymbolScope::GlobalScope, 0));
    let rb = local.resolve("b").unwrap();
    assert_eq!((rb.scope, rb.index), (SymbolScope::LocalScope, 0));
    let ra2 = local.resolve("a").unwrap();
    assert_eq!((ra2.scope, ra2.index), (ra.scope, ra.index));
    assert!(local.resolve("c").is_none());
}

#[test]
fn a_new_compiler_knows_exactly_the_builtins_by_number() {
    let mut c = monkey::compiler::Compiler::new();
    let names = ["len", "puts", "first", "last", "rest", "push"];
    for (i, n) in names.iter().enumerate() {
        let s = c.symbol_table.resolve(n).unwrap();
        assert_eq!(s.scope, SymbolScope::BuiltinScope);
        assert_eq!(s.index, i);
        assert_eq!(s.name, n.to_string());
    }
    assert!(c.symbol_table.resolve("x").is_none());
    assert_eq!(c.symbol_table.num_definitions, 0);
}

#[test]
fn string_hash_keys_are_equal_exactly_for_equal_texts() {
    let a = StringObj { value: "abc".to_string() }.hash_key();
    let b = StringObj { value: "abc".to_string() }.hash_key();
    let c = StringObj { value: "abd".to_string() }.hash_key();
    assert!(hash_key_eq(&a, &b));
    assert!(!hash_key_eq(&a, &c));
    assert!(!hash_key_eq(&a, &Integer { value: 1 }.hash_key()));
}

#[test]
fn resolving_a_free_name_twice_captures_it_once() {
    let mut global = SymbolTable::new();
    global.define("a");
    let mut outer = SymbolTable::new_enclosed_symbol_table(global);
    outer.define("c");
    let mut inner = SymbolTable::new_enclosed_symbol_table(outer);
    let first = inner.resolve("c").unwrap();
    let second = inner.resolve("c").unwrap();
    assert_eq!(first.scope, SymbolScope::FreeScope);
    assert_eq!((second.scope, second.index), (first.scope, first.index));
    assert_eq!(inner.free_symbols.len(), 1);
    let g = inner.resolve("a").unwrap();
    assert_eq!(g.scope, SymbolScope::GlobalScope);
    assert_eq!(inner.free_symbols.len(), 1);
}

#[test]
fn a_name_no_scope_holds_resolves_to_nothing() {
    let mut global = SymbolTable::new();
    global.define("a");
    let mut inner = SymbolTable::new_enclosed_symbol_table(SymbolTable::new_enclosed_symbol_table(global));
    assert!(inner.resolve("b").is_none());
    assert!(inner.resolve("a").is_some());
    assert!(inner.free_symbols.is_empty());
}

#[test]
fn writes_into_an_enclosed_scope_stay_there() {
    let mut store = EnvStore::new();
    store.set(0, "a".to_string(), Some(integer(1)));
    let inner = store.push(new_enclosed_environment(Some(0)));
    store.set(inner, "a".to_string(), Some(integer(2)));
    store.set(inner, "b".to_string(), Some(integer(3)));
    assert!(matches!(store.get(inner, "a"), Some(Object::Integer(i)) if i.value == 2));
    assert!(matches!(store.get(0, "a"), Some(Object::Integer(i)) if i.value == 1));
    assert!(store.get(0, "b").is_none());
    assert_eq!(store.envs[0].store.len(), 1);
}

#[test]
fn leaving_a_scope_gives_back_what_was_emitted_in_it() {
    let mut c = monkey::compiler::Compiler::new();
    c.emit(Opcode::OpMul, Vec::new());
    let outer_before = c.scopes[0].instructions.0.clone();
    c.enter_scope();
    c.emit(Opcode::OpConstant, vec![7]);
    c.emit(Opcode::OpSub, Vec::new());
    c.emit(Opcode::OpGetLocal, vec![1]);
    let ins = c.leave_scope();
    let mut expected = make(Opcode::OpConstant, &vec![7]).0;
    expected.extend(make(Opcode::OpSub, &Vec::new()).0);
    expected.extend(make(Opcode::OpGetLocal, &vec![1]).0);
    assert_eq!(ins.0, expected);
    assert_eq!(c.scope_index, 0);
    assert_eq!(c.scopes.len(), 1);
    assert_eq!(c.scopes[0].instructions.0, outer_before);
    assert!(c.symbol_table.outer.is_none());
}

#[test]
fn binding_no_value_hides_enclosing_bindings() {
    let mut store = EnvStore::new();
    store.set(0, "a".to_string(), Some(integer(1)));
    let inner = store.push(new_enclosed_environment(Some(0)));
    let r = store.set(inner, "a".to_string(), None);
    assert!(r.is_none());
    assert!(store.get(inner, "a").is_none());
    assert!(matches!(store.get(0, "a"), Some(Object::Integer(i)) if i.value == 1));
}

#[test]
fn every_compiled_function_ends_in_a_return() {
    let input = "fn() { 1; 2 }; fn() { }; fn(a) { return a; }; fn() { if (true) { 1 } else { 2 } }; fn() { let x = 1; }";
    let mut p = Parser::new(Lexer::new(input));
    let program = p.parse_program().unwrap();
    let mut c = monkey::compiler::Compiler::new();
    c.compile(&Node::Program(program)).unwrap();
    let ret_value = make(Opcode::OpReturnValue, &Vec::new()).0[0];
    let ret = make(Opcode::OpReturn, &Vec::new()).0[0];
    let mut n = 0;
    for k in c.constants.iter() {
        if let Object::CompiledFunction(f) = k {
            let last = *f.instructions.0.last().unwrap();
            assert!(last == ret_value || last == ret);
            n += 1;
        }
    }
    assert_eq!(n, 5);
}
