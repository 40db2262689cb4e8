use monkey::symbol_table::{Symbol, SymbolScope, SymbolTable};

fn sym(name: &str, scope: SymbolScope, index: usize) -> Symbol {
    Symbol { name: String::from(name), scope, index }
}

fn check_resolves(table: &mut SymbolTable, expected: &[Symbol]) {
    for s in expected.iter() {
        match table.resolve(&s.name) {
            Some(result) => assert!(result == *s, "expected {} to resolve to {:?}, got={:?}", s.name, s, result),
            None => panic!("name {} not resolvable", s.name),
        }
    }
}

fn global_with_a_b() -> SymbolTable {
    let mut global = SymbolTable::new();
    global.define("a");
    global.define("b");
    global
}

#[test]
fn test_define() {
    let mut global = SymbolTable::new();
    let a = global.define("a");
    assert!(a == sym("a", SymbolScope::GlobalScope, 0), "expected a, got={:?}", a);
    let b = global.define("b");
    assert!(b == sym("b", SymbolScope::GlobalScope, 1), "expected b, got={:?}", b);

    let mut first_local = SymbolTable::new_enclosed_symbol_table(global);
    let c = first_local.define("c");
    assert!(c == sym("c", SymbolScope::LocalScope, 0), "expected c, got={:?}", c);
    let d = first_local.define("d");
    assert!(d == sym("d", SymbolScope::LocalScope, 1), "expected d, got={:?}", d);

    let global = *first_local.outer.take().unwrap();
    let mut second_local = SymbolTable::new_enclosed_symbol_table(global);
    let e = second_local.define("e");
    assert!(e == sym("e", SymbolScope::LocalScope, 0), "expected e, got={:?}", e);
    let f = second_local.define("f");
    assert!(f == sym("f", SymbolScope::LocalScope, 1), "expected f, got={:?}", f);
}

#[test]
fn test_resolve_global() {
    let mut global = global_with_a_b();
    check_resolves(&mut global, &[sym("a", SymbolScope::GlobalScope, 0), sym("b", SymbolScope::GlobalScope, 1)]);
}

#[test]
fn test_resolve_local() {
    let mut local = SymbolTable::new_enclosed_symbol_table(global_with_a_b());
    local.define("c");
    local.define("d");
    check_resolves(
        &mut local,
        &[
            sym("a", SymbolScope::GlobalScope, 0),
            sym("b", SymbolScope::GlobalScope, 1),
            sym("c", SymbolScope::LocalScope, 0),
            sym("d", SymbolScope::LocalScope, 1),
        ],
    );
}

#[test]
fn test_resolve_nested_local() {
    let mut first_local = SymbolTable::new_enclosed_symbol_table(global_with_a_b());
    first_local.define("c");
    first_local.define("d");
    let mut second_local = SymbolTable::new_enclosed_symbol_table(first_local);
    second_local.define("e");
    second_local.define("f");

    check_resolves(
        &mut second_local,
        &[
            sym("a", SymbolScope::GlobalScope, 0),
            sym("b", SymbolScope::GlobalScope, 1),
            sym("e", SymbolScope::LocalScope, 0),
            sym("f", SymbolScope::LocalScope, 1),
        ],
    );
    let mut first_local = *second_local.outer.take().unwrap();
    check_resolves(
        &mut first_local,
        &[
            sym("a", SymbolScope::GlobalScope, 0),
            sym("b", SymbolScope::GlobalScope, 1),
            sym("c", SymbolScope::LocalScope, 0),
            sym("d", SymbolScope::LocalScope, 1),
        ],
    );
}

#[test]
fn test_define_resolve_builtins() {
    let expected = vec![
        sym("a", SymbolScope::BuiltinScope, 0),
        sym("c", SymbolScope::BuiltinScope, 1),
        sym("e", SymbolScope::BuiltinScope, 2),
        sym("f", SymbolScope::BuiltinScope, 3),
    ];
    let mut global = SymbolTable::new();
    for (i, v) in expected.iter().enumerate() {
        global.define_builtin(i, &v.name);
    }
    check_resolves(&mut global, &expected);
    let first_local = SymbolTable::new_enclosed_symbol_table(global);
    let mut second_local = SymbolTable::new_enclosed_symbol_table(first_local);
    check_resolves(&mut second_local, &expected);
    let mut first_local = *second_local.outer.take().unwrap();
    check_resolves(&mut first_local, &expected);
}

#[test]
fn test_resolve_free() {
    let mut first_local = SymbolTable::new_enclosed_symbol_table(global_with_a_b());
    first_local.define("c");
    first_local.define("d");

    let mut first_copy = SymbolTable::new_enclosed_symbol_table(global_with_a_b());
    first_copy.define("c");
    first_copy.define("d");
    check_resolves(
        &mut first_copy,
        &[
            sym("a", SymbolScope::GlobalScope, 0),
            sym("b", SymbolScope::GlobalScope, 1),
            sym("c", SymbolScope::LocalScope, 0),
            sym("d", SymbolScope::LocalScope, 1),
        ],
    );
    assert!(first_copy.free_symbols.is_empty(), "wrong number of free symbols. got={}, want=0", first_copy.free_symbols.len());

    let mut second_local = SymbolTable::new_enclosed_symbol_table(first_local);
    second_local.define("e");
    second_local.define("f");
    check_resolves(
        &mut second_local,
        &[
            sym("a", SymbolScope::GlobalScope, 0),
            sym("b", SymbolScope::GlobalScope, 1),
            sym("c", SymbolScope::FreeScope, 0),
            sym("d", SymbolScope::FreeScope, 1),
            sym("e", SymbolScope::LocalScope, 0),
            sym("f", SymbolScope::LocalScope, 1),
        ],
    );
    let expected_free = [sym("c", SymbolScope::LocalScope, 0), sym("d", SymbolScope::LocalScope, 1)];
    assert!(
        second_local.free_symbols.len() == expected_free.len(),
        "wrong number of free symbols. got={}, want={}",
        second_local.free_symbols.len(),
        expected_free.len()
    );
    for (i, s) in expected_free.iter().enumerate() {
        assert!(second_local.free_symbols[i] == *s, "wrong free symbol. got={:?}, want={:?}", second_local.free_symbols[i], s);
    }
}

#[test]
fn test_resolve_unresolvable_free() {
    let mut global = SymbolTable::new();
    global.define("a");
    let mut first_local = SymbolTable::new_enclosed_symbol_table(global);
    first_local.define("c");
    let mut second_local = SymbolTable::new_enclosed_symbol_table(first_local);
    second_local.define("e");
    second_local.define("f");

    check_resolves(
        &mut second_local,
        &[
            sym("a", SymbolScope::GlobalScope, 0),
            sym("c", SymbolScope::FreeScope, 0),
            sym("e", SymbolScope::LocalScope, 0),
            sym("f", SymbolScope::LocalScope, 1),
        ],
    );
    for name in ["b", "d"].iter() {
        assert!(second_local.resolve(name).is_none(), "name {} resolved, but was expected not to", name);
    }
}

#[test]
fn resolve_is_stable_and_capture_happens_once() {
    let mut first_local = SymbolTable::new_enclosed_symbol_table(global_with_a_b());
    first_local.define("c");
    let mut second_local = SymbolTable::new_enclosed_symbol_table(first_local);
    let once = second_local.resolve("c").unwrap();
    let twice = second_local.resolve("c").unwrap();
    assert_eq!(once, twice);
    assert_eq!(second_local.free_symbols.len(), 1);
}
