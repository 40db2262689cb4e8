use monkey::ast::Node;
use monkey::environment::EnvStore;
use monkey::evaluator::eval;
use monkey::lexer::Lexer;
use monkey::object::{Boolean, HashKey, Hashable, Integer, Object, StringObj};
use monkey::parser::Parser;

fn test_eval(input: &str) -> Option<Object> {
    let l = Lexer::new(input);
    let mut p = Parser::new(l);
    let program = p.parse_program();
    let mut store = EnvStore::new();
    let mut output: Vec<String> = Vec::new();
    eval(&Node::Program(program.unwrap()), &mut store, 0, &mut output)
}

fn test_integer_object(obj: &Option<Object>, expected: i64) {
    if let Some(Object::Integer(Integer { value })) = obj {
        assert!(*value == expected, "object has wrong value. got={}, want={}", value, expected);
    } else {
        panic!("object is not Integer. got={:?}", obj);
    }
}

fn test_boolean_object(obj: &Option<Object>, expected: bool) {
    if let Some(Object::Boolean(Boolean { value })) = obj {
        assert!(*value == expected, "object has wrong value. got={}, want={}", value, expected);
    } else {
        panic!("object is not Boolean. got={:?}", obj);
    }
}

fn test_null_object(obj: &Option<Object>) {
    assert!(matches!(obj, Some(Object::Null(_))), "object is not NULL, got={:?}", obj);
}

fn test_error_object(obj: &Option<Object>, expected: &str) {
    if let Some(Object::ErrorObj(e)) = obj {
        assert!(e.message == expected, "wrong error message. expected={}, got={}", expected, e.message);
    } else {
        panic!("no error object returned. got={:?}", obj);
    }
}

#[test]
fn test_eval_integer_expression() {
    let tests = [
        ("5", 5),
        ("10", 10),
        ("-5", -5),
        ("-10", -10),
        ("5 + 5 + 5 + 5 - 10", 10),
        ("2 * 2 * 2 * 2 * 2", 32),
        ("-50 + 100 + -50", 0),
        ("5 * 2 + 10", 20),
        ("5 + 2 * 10", 25),
        ("20 + 2 * -10", 0),
        ("50 / 2 * 2 + 10", 60),
        ("2 * (5 + 10)", 30),
        ("3 * 3 * 3 + 10", 37),
        ("3 * (3 * 3) + 10", 37),
        ("(5 + 10 * 2 + 15 / 3) * 2 + -10", 50),
    ];
    for tt in tests.iter() {
        test_integer_object(&test_eval(tt.0), tt.1);
    }
}

#[test]
fn test_eval_boolean_expression() {
    let tests = [
        ("true", true),
        ("false", false),
        ("1 < 2", true),
        ("1 > 2", false),
        ("1 < 1", false),
        ("1 > 1", false),
        ("1 == 1", true),
        ("1 != 1", false),
        ("1 == 2", false),
        ("1 != 2", true),
        ("true == true", true),
        ("false == false", true),
        ("true == false", false),
        ("true != false", true),
        ("false != true", true),
        ("(1 < 2) == true", true),
        ("(1 < 2) == false", false),
        ("(1 > 2) == true", false),
        ("(1 > 2) == false", true),
    ];
    for tt in tests.iter() {
        test_boolean_object(&test_eval(tt.0), tt.1);
    }
}

#[test]
fn evaluator_test_test_bang_operator() {
    let tests = [
        ("!true", false),
        ("!false", true),
        ("!5", false),
        ("!!true", true),
        ("!!false", false),
        ("!!5", true),
    ];
    for tt in tests.iter() {
        test_boolean_object(&test_eval(tt.0), tt.1);
    }
}

#[test]
fn evaluator_test_test_if_else_expression() {
    let tests: [(&str, Option<i64>); 7] = [
        ("if (true) { 10 }", Some(10)),
        ("if (false) { 10 }", None),
        ("if (1) { 10 }", Some(10)),
        ("if (1 < 2) { 10 }", Some(10)),
        ("if (1 > 2) { 10 }", None),
        ("if (1 > 2) { 10 } else { 20 }", Some(20)),
        ("if (1 < 2) { 10 } else { 20 }", Some(10)),
    ];
    for tt in tests.iter() {
        let evaluated = test_eval(tt.0);
        match tt.1 {
            Some(v) => test_integer_object(&evaluated, v),
            None => test_null_object(&evaluated),
        }
    }
}

#[test]
fn test_return_statements() {
    let tests = [
        ("return 10;", 10),
        ("return 10; 9;", 10),
        ("return 2 * 5; 9;", 10),
        ("9; return 2 * 5; 9;", 10),
        (
            "if (10 > 1) {
                if (10 > 1) {
                    return 10;
                }
                return 1;
            }",
            10,
        ),
    ];
    for tt in tests.iter() {
        test_integer_object(&test_eval(tt.0), tt.1);
    }
}

#[test]
fn evaluator_test_test_error_handling() {
    let tests = [
        ("5 + true;", "type mismatch: INTEGER + BOOLEAN"),
        ("5 + true; 5;", "type mismatch: INTEGER + BOOLEAN"),
        ("-true", "unknown operator: -BOOLEAN"),
        ("true + false;", "unknown operator: BOOLEAN + BOOLEAN"),
        ("5; true + false; 5", "unknown operator: BOOLEAN + BOOLEAN"),
        ("if (10 > 1) { true + false; }", "unknown operator: BOOLEAN + BOOLEAN"),
        (
            "
if (10 > 1) {
    if (10 > 1) {
        return true + false;
    }
    return 1;
}",
            "unknown operator: BOOLEAN + BOOLEAN",
        ),
        ("foobar", "identifier not found: foobar"),
        (r#""Hello" - "World""#, "unknown operator: STRING - STRING"),
        (r#"{"name": "Monkey"}[fn(x){ x }];"#, "unusable as hash key: FUNCTION"),
    ];
    for tt in tests.iter() {
        test_error_object(&test_eval(tt.0), tt.1);
    }
}

#[test]
fn evaluator_test_test_let_statements() {
    let tests = [
        ("let a = 5; a;", 5),
        ("let a = 5 * 5; a;", 25),
        ("let a = 5; let b = a; b;", 5),
        ("let a = 5; let b = a; let c = a + b + 5; c;", 15),
    ];
    for tt in tests.iter() {
        test_integer_object(&test_eval(tt.0), tt.1);
    }
}

#[test]
fn test_function_object() {
    let input = "fn(x) { x + 2; };";
    let evaluated = test_eval(input);
    if let Some(Object::Function(f)) = &evaluated {
        assert!(f.parameters.len() == 1, "function has wrong parameters. got={}", f.parameters.len());
        assert!(f.parameters[0].string() == "x", "parameter is not 'x'. got={:?}", f.parameters[0]);
        let expected_body = "(x + 2)";
        assert!(f.body.string() == expected_body, "body is not {}, got={}", expected_body, f.body.string());
    } else {
        panic!("object is not Function. got={:?}", evaluated);
    }
}

#[test]
fn test_function_application() {
    let tests = [
        ("let identity = fn(x) { x; }; identity(5);", 5),
        ("let identity = fn(x) { return x; }; identity(5);", 5),
        ("let double = fn(x) { x * 2; }; double(5);", 10),
        ("let add = fn(x, y) { x + y; }; add(5, 5);", 10),
        ("let add = fn(x, y) { x + y; }; add(5 + 5, add(5, 5));", 20),
        ("fn(x) { x; }(5)", 5),
    ];
    for tt in tests.iter() {
        test_integer_object(&test_eval(tt.0), tt.1);
    }
}

#[test]
fn evaluator_test_test_closures() {
    let input = "
let newAdder = fn(x) {
fn(y) { x + y };
};
let addTwo = newAdder(2);
addTwo(2);";
    test_integer_object(&test_eval(input), 4);
}

#[test]
fn test_string_literal() {
    let evaluated = test_eval(r#""Hello World!""#);
    if let Some(Object::StringObj(StringObj { value })) = &evaluated {
        assert!(value == "Hello World!", "String has wrong value. got={:?}", value);
    } else {
        panic!("object is not String. got={:?}", evaluated);
    }
}

#[test]
fn test_string_concatenation() {
    let evaluated = test_eval(r#""Hello" + " " + "World!""#);
    if let Some(Object::StringObj(StringObj { value })) = &evaluated {
        assert!(value == "Hello World!", "String has wrong value. got={:?}", value);
    } else {
        panic!("object is not String. got={:?}", evaluated);
    }
}

#[test]
fn test_builtin_functions() {
    test_integer_object(&test_eval(r#"len("")"#), 0);
    test_integer_object(&test_eval(r#"len("four")"#), 4);
    test_integer_object(&test_eval(r#"len("hello world")"#), 11);
    test_error_object(&test_eval(r#"len(1)"#), "argument to `len` not supported, got INTEGER");
    test_error_object(&test_eval(r#"len("one", "two")"#), "wrong number of arguments. got=2, want=1");
}

#[test]
fn evaluator_test_test_array_literals() {
    let evaluated = test_eval("[1, 2 * 2, 3 + 3]");
    if let Some(Object::Array(a)) = &evaluated {
        assert!(a.elements.len() == 3, "array has wrong num of elments. got={}", a.elements.len());
        let e: Vec<Option<Object>> = a.elements.iter().map(|x| Some(x.duplicate())).collect();
        test_integer_object(&e[0], 1);
        test_integer_object(&e[1], 4);
        test_integer_object(&e[2], 6);
    } else {
        panic!("object is not Array. got={:?}", evaluated);
    }
}

#[test]
fn test_array_index_expressions() {
    let tests: [(&str, Option<i64>); 10] = [
        ("[1, 2, 3][0]", Some(1)),
        ("[1, 2, 3][1]", Some(2)),
        ("[1, 2, 3][2]", Some(3)),
        ("let i = 0; [1][i];", Some(1)),
        ("[1, 2, 3][1 + 1]", Some(3)),
        ("let myArray = [1, 2, 3]; myArray[2];", Some(3)),
        ("let myArray = [1, 2, 3]; myArray[0] + myArray[1] + myArray[2];", Some(6)),
        ("let myArray = [1, 2, 3]; let i = myArray[0]; myArray[i]", Some(2)),
        ("[1, 2, 3][3]", None),
        ("[1, 2, 3][-1]", None),
    ];
    for tt in tests.iter() {
        let evaluated = test_eval(tt.0);
        match tt.1 {
            Some(v) => test_integer_object(&evaluated, v),
            None => test_null_object(&evaluated),
        }
    }
}

#[test]
fn evaluator_test_test_hash_literals() {
    let input = r#"let two = "two";
    {
        "one": 10 - 9,
        two: 1 + 1,
        "thr" + "ee": 6 / 2,
        4: 4,
        true: 5,
        false: 6
    }"#;
    let evaluated = test_eval(input);
    if let Some(Object::Hash(h)) = &evaluated {
        let expected: Vec<(HashKey, i64)> = vec![
            (StringObj { value: String::from("one") }.hash_key(), 1),
            (StringObj { value: String::from("two") }.hash_key(), 2),
            (StringObj { value: String::from("three") }.hash_key(), 3),
            (Integer { value: 4 }.hash_key(), 4),
            (Boolean { value: true }.hash_key(), 5),
            (Boolean { value: false }.hash_key(), 6),
        ];
        assert!(h.pairs.len() == expected.len(), "Hash has wrong num of pairs. got={}", h.pairs.len());
        for (expected_key, expected_value) in expected.iter() {
            match h.get(expected_key) {
                Some(v) => test_integer_object(&Some(v.duplicate()), *expected_value),
                None => panic!("no pair for given key in pairs"),
            }
        }
    } else {
        panic!("eval didn't return Hash. got={:?}", evaluated);
    }
}

#[test]
fn test_hash_index_expressions() {
    let tests: [(&str, Option<i64>); 7] = [
        (r#"{"foo": 5}["foo"]"#, Some(5)),
        (r#"{"foo": 5}["bar"]"#, None),
        (r#"let key = "foo"; {"foo": 5}[key]"#, Some(5)),
        (r#"{}["foo"]"#, None),
        ("{5: 5} [5]", Some(5)),
        ("{true: 5}[true]", Some(5)),
        ("{false: 5}[false]", Some(5)),
    ];
    for tt in tests.iter() {
        let evaluated = test_eval(tt.0);
        match tt.1 {
            Some(v) => test_integer_object(&evaluated, v),
            None => test_null_object(&evaluated),
        }
    }
}
