use monkey::ast::{Node, Program};
use monkey::code::{make, Instructions, Opcode};
use monkey::compiler::Compiler;
use monkey::lexer::Lexer;
use monkey::object::{CompiledFunction, Integer, Object, StringObj};
use monkey::parser::Parser;

enum Expected {
    Int(i64),
    Str(&'static str),
    Func(Vec<Instructions>),
}

struct Case {
    input: &'static str,
    expected_constants: Vec<Expected>,
    expected_instructions: Vec<Instructions>,
}

fn ins(op: Opcode, operands: &[i64]) -> Instructions {
    make(op, &operands.to_vec())
}

fn parse(input: &str) -> Program {
    let l = Lexer::new(input);
    let mut p = Parser::new(l);
    p.parse_program().unwrap()
}

fn concat_instructions(s: &[Instructions]) -> Vec<u8> {
    let mut out = Vec::new();
    for i in s.iter() {
        out.extend_from_slice(&i.0);
    }
    out
}

fn test_instructions(expected: &[Instructions], actual: &Instructions) {
    let concatted = concat_instructions(expected);
    assert!(
        actual.0.len() == concatted.len(),
        "wrong instructions length.\nwant={:?}\ngot={:?}",
        Instructions(concatted.clone()).string(),
        actual.string()
    );
    for (i, b) in concatted.iter().enumerate() {
        assert!(actual.0[i] == *b, "wrong instruction at {}.\nwant={:?}\ngot={:?}", i, concatted, actual);
    }
}

fn test_constants(expected: &[Expected], actual: &[Object]) {
    assert!(expected.len() == actual.len(), "wrong number of constants. got={}, want={}", actual.len(), expected.len());
    for (i, constant) in expected.iter().enumerate() {
        match constant {
            Expected::Int(v) => match &actual[i] {
                Object::Integer(Integer { value }) => assert!(value == v, "object has wrong value. got={}, want={}", value, v),
                other => panic!("object is not Integer. got={:?}", other),
            },
            Expected::Str(v) => match &actual[i] {
                Object::StringObj(StringObj { value }) => assert!(value == v, "object has wrong value. got={}, want={}", value, v),
                other => panic!("object is not String. got={:?}", other),
            },
            Expected::Func(instructions) => match &actual[i] {
                Object::CompiledFunction(CompiledFunction { instructions: actual_ins, .. }) => {
                    test_instructions(instructions, actual_ins)
                },
                other => panic!("constant {} - not a function: {:?}", i, other),
            },
        }
    }
}

fn run_compiler_tests(tests: Vec<Case>) {
    for tt in tests.iter() {
        let program = parse(tt.input);
        let mut compiler = Compiler::new();
        match compiler.compile(&Node::Program(program)) {
            Ok(()) => {
                let bytecode = compiler.bytecode();
                test_instructions(&tt.expected_instructions, &bytecode.instuctions);
                test_constants(&tt.expected_constants, &bytecode.constants);
            },
            Err(e) => panic!("compiler error: {}", e),
        }
    }
}

use monkey::code::Opcode::{
    OpAdd, OpArray, OpBang, OpCall, OpClosure, OpConstant, OpDiv, OpEqual, OpFalse, OpGetBuiltin,
    OpGetFree, OpGetGlobal, OpGetLocal, OpGreaterThan, OpHash, OpIndex, OpJump, OpJumpNotTruthy,
    OpMinus, OpMul, OpNotEqual, OpNull, OpPop, OpReturn, OpReturnValue, OpSetGlobal, OpSetLocal,
    OpSub, OpTrue,
};

#[test]
fn compiler_test_test_integer_arithmetic() {
    run_compiler_tests(vec![
        Case { input: "1 + 2", expected_constants: vec![Expected::Int(1), Expected::Int(2)], expected_instructions: vec![ins(OpConstant, &[0]), ins(OpConstant, &[1]), ins(OpAdd, &[]), ins(OpPop, &[])] },
        Case { input: "1; 2", expected_constants: vec![Expected::Int(1), Expected::Int(2)], expected_instructions: vec![ins(OpConstant, &[0]), ins(OpPop, &[]), ins(OpConstant, &[1]), ins(OpPop, &[])] },
        Case { input: "1 - 2", expected_constants: vec![Expected::Int(1), Expected::Int(2)], expected_instructions: vec![ins(OpConstant, &[0]), ins(OpConstant, &[1]), ins(OpSub, &[]), ins(OpPop, &[])] },
        Case { input: "1 * 2", expected_constants: vec![Expected::Int(1), Expected::Int(2)], expected_instructions: vec![ins(OpConstant, &[0]), ins(OpConstant, &[1]), ins(OpMul, &[]), ins(OpPop, &[])] },
        Case { input: "2 / 1", expected_constants: vec![Expected::Int(2), Expected::Int(1)], expected_instructions: vec![ins(OpConstant, &[0]), ins(OpConstant, &[1]), ins(OpDiv, &[]), ins(OpPop, &[])] },
        Case { input: "-1", expected_constants: vec![Expected::Int(1)], expected_instructions: vec![ins(OpConstant, &[0]), ins(OpMinus, &[]), ins(OpPop, &[])] },
    ]);
}

#[test]
fn compiler_test_test_boolean_expressions() {
    run_compiler_tests(vec![
        Case { input: "true", expected_constants: vec![], expected_instructions: vec![ins(OpTrue, &[]), ins(OpPop, &[])] },
        Case { input: "false", expected_constants: vec![], expected_instructions: vec![ins(OpFalse, &[]), ins(OpPop, &[])] },
        Case { input: "1 > 2", expected_constants: vec![Expected::Int(1), Expected::Int(2)], expected_instructions: vec![ins(OpConstant, &[0]), ins(OpConstant, &[1]), ins(OpGreaterThan, &[]), ins(OpPop, &[])] },
        Case { input: "1 < 2", expected_constants: vec![Expected::Int(2), Expected::Int(1)], expected_instructions: vec![ins(OpConstant, &[0]), ins(OpConstant, &[1]), ins(OpGreaterThan, &[]), ins(OpPop, &[])] },
        Case { input: "1 == 2", expected_constants: vec![Expected::Int(1), Expected::Int(2)], expected_instructions: vec![ins(OpConstant, &[0]), ins(OpConstant, &[1]), ins(OpEqual, &[]), ins(OpPop, &[])] },
        Case { input: "1 != 2", expected_constants: vec![Expected::Int(1), Expected::Int(2)], expected_instructions: vec![ins(OpConstant, &[0]), ins(OpConstant, &[1]), ins(OpNotEqual, &[]), ins(OpPop, &[])] },
        Case { input: "true == false", expected_constants: vec![], expected_instructions: vec![ins(OpTrue, &[]), ins(OpFalse, &[]), ins(OpEqual, &[]), ins(OpPop, &[])] },
        Case { input: "true != false", expected_constants: vec![], expected_instructions: vec![ins(OpTrue, &[]), ins(OpFalse, &[]), ins(OpNotEqual, &[]), ins(OpPop, &[])] },
        Case { input: "!true", expected_constants: vec![], expected_instructions: vec![ins(OpTrue, &[]), ins(OpBang, &[]), ins(OpPop, &[])] },
    ]);
}

#[test]
fn compiler_test_test_conditionals() {
    run_compiler_tests(vec![
        Case {
            input: "if (true) { 10 }; 3333;",
            expected_constants: vec![Expected::Int(10), Expected::Int(3333)],
            expected_instructions: vec![
                ins(OpTrue, &[]),
                ins(OpJumpNotTruthy, &[10]),
                ins(OpConstant, &[0]),
                ins(OpJump, &[11]),
                ins(OpNull, &[]),
                ins(OpPop, &[]),
                ins(OpConstant, &[1]),
                ins(OpPop, &[]),
            ],
        },
        Case {
            input: "if (true) { 10 } else { 20 }; 3333;",
            expected_constants: vec![Expected::Int(10), Expected::Int(20), Expected::Int(3333)],
            expected_instructions: vec![
                ins(OpTrue, &[]),
                ins(OpJumpNotTruthy, &[10]),
                ins(OpConstant, &[0]),
                ins(OpJump, &[13]),
                ins(OpConstant, &[1]),
                ins(OpPop, &[]),
                ins(OpConstant, &[2]),
                ins(OpPop, &[]),
            ],
        },
    ]);
}

#[test]
fn compiler_test_test_global_let_statements() {
    run_compiler_tests(vec![
        Case {
            input: "let one = 1;
            let two = 2;",
            expected_constants: vec![Expected::Int(1), Expected::Int(2)],
            expected_instructions: vec![ins(OpConstant, &[0]), ins(OpSetGlobal, &[0]), ins(OpConstant, &[1]), ins(OpSetGlobal, &[1])],
        },
        Case {
            input: "let one = 1;
            one;",
            expected_constants: vec![Expected::Int(1)],
            expected_instructions: vec![ins(OpConstant, &[0]), ins(OpSetGlobal, &[0]), ins(OpGetGlobal, &[0]), ins(OpPop, &[])],
        },
        Case {
            input: "let one = 1;
            let two = one;
            two;",
            expected_constants: vec![Expected::Int(1)],
            expected_instructions: vec![
                ins(OpConstant, &[0]),
                ins(OpSetGlobal, &[0]),
                ins(OpGetGlobal, &[0]),
                ins(OpSetGlobal, &[1]),
                ins(OpGetGlobal, &[1]),
                ins(OpPop, &[]),
            ],
        },
    ]);
}

#[test]
fn compiler_test_test_string_expressions() {
    run_compiler_tests(vec![
        Case { input: "\"monkey\"", expected_constants: vec![Expected::Str("monkey")], expected_instructions: vec![ins(OpConstant, &[0]), ins(OpPop, &[])] },
        Case {
            input: "\"mon\" + \"key\"",
            expected_constants: vec![Expected::Str("mon"), Expected::Str("key")],
            expected_instructions: vec![ins(OpConstant, &[0]), ins(OpConstant, &[1]), ins(OpAdd, &[]), ins(OpPop, &[])],
        },
    ]);
}

#[test]
fn compiler_test_test_array_literal() {
    run_compiler_tests(vec![
        Case { input: "[]", expected_constants: vec![], expected_instructions: vec![ins(OpArray, &[0]), ins(OpPop, &[])] },
        Case {
            input: "[1, 2, 3]",
            expected_constants: vec![Expected::Int(1), Expected::Int(2), Expected::Int(3)],
            expected_instructions: vec![ins(OpConstant, &[0]), ins(OpConstant, &[1]), ins(OpConstant, &[2]), ins(OpArray, &[3]), ins(OpPop, &[])],
        },
        Case {
            input: "[1 + 2, 3 - 4, 5 * 6]",
            expected_constants: vec![Expected::Int(1), Expected::Int(2), Expected::Int(3), Expected::Int(4), Expected::Int(5), Expected::Int(6)],
            expected_instructions: vec![
                ins(OpConstant, &[0]),
                ins(OpConstant, &[1]),
                ins(OpAdd, &[]),
                ins(OpConstant, &[2]),
                ins(OpConstant, &[3]),
                ins(OpSub, &[]),
                ins(OpConstant, &[4]),
                ins(OpConstant, &[5]),
                ins(OpMul, &[]),
                ins(OpArray, &[3]),
                ins(OpPop, &[]),
            ],
        },
    ]);
}

#[test]
fn compiler_test_test_hash_literals() {
    run_compiler_tests(vec![
        Case { input: "{}", expected_constants: vec![], expected_instructions: vec![ins(OpHash, &[0]), ins(OpPop, &[])] },
        Case {
            input: "{1: 2, 3: 4, 5: 6}",
            expected_constants: vec![Expected::Int(1), Expected::Int(2), Expected::Int(3), Expected::Int(4), Expected::Int(5), Expected::Int(6)],
            expected_instructions: vec![
                ins(OpConstant, &[0]),
                ins(OpConstant, &[1]),
                ins(OpConstant, &[2]),
                ins(OpConstant, &[3]),
                ins(OpConstant, &[4]),
                ins(OpConstant, &[5]),
                ins(OpHash, &[6]),
                ins(OpPop, &[]),
            ],
        },
        Case {
            input: "{1: 2 + 3, 4: 5 * 6}",
            expected_constants: vec![Expected::Int(1), Expected::Int(2), Expected::Int(3), Expected::Int(4), Expected::Int(5), Expected::Int(6)],
            expected_instructions: vec![
                ins(OpConstant, &[0]),
                ins(OpConstant, &[1]),
                ins(OpConstant, &[2]),
                ins(OpAdd, &[]),
                ins(OpConstant, &[3]),
                ins(OpConstant, &[4]),
                ins(OpConstant, &[5]),
                ins(OpMul, &[]),
                ins(OpHash, &[4]),
                ins(OpPop, &[]),
            ],
        },
    ]);
}

#[test]
fn compiler_test_test_index_expressions() {
    run_compiler_tests(vec![
        Case {
            input: "[1, 2, 3][1 + 1]",
            expected_constants: vec![Expected::Int(1), Expected::Int(2), Expected::Int(3), Expected::Int(1), Expected::Int(1)],
            expected_instructions: vec![
                ins(OpConstant, &[0]),
                ins(OpConstant, &[1]),
                ins(OpConstant, &[2]),
                ins(OpArray, &[3]),
                ins(OpConstant, &[3]),
                ins(OpConstant, &[4]),
                ins(OpAdd, &[]),
                ins(OpIndex, &[]),
                ins(OpPop, &[]),
            ],
        },
        Case {
            input: "{1: 2}[2 - 1]",
            expected_constants: vec![Expected::Int(1), Expected::Int(2), Expected::Int(2), Expected::Int(1)],
            expected_instructions: vec![
                ins(OpConstant, &[0]),
                ins(OpConstant, &[1]),
                ins(OpHash, &[2]),
                ins(OpConstant, &[2]),
                ins(OpConstant, &[3]),
                ins(OpSub, &[]),
                ins(OpIndex, &[]),
                ins(OpPop, &[]),
            ],
        },
    ]);
}

#[test]
fn compiler_test_test_functions() {
    run_compiler_tests(vec![
        Case {
            input: "fn() { return 5 + 10 }",
            expected_constants: vec![
                Expected::Int(5),
                Expected::Int(10),
                Expected::Func(vec![ins(OpConstant, &[0]), ins(OpConstant, &[1]), ins(OpAdd, &[]), ins(OpReturnValue, &[])]),
            ],
            expected_instructions: vec![ins(OpClosure, &[2, 0]), ins(OpPop, &[])],
        },
        Case {
            input: "fn() { 1; 2 }",
            expected_constants: vec![
                Expected::Int(1),
                Expected::Int(2),
                Expected::Func(vec![ins(OpConstant, &[0]), ins(OpPop, &[]), ins(OpConstant, &[1]), ins(OpReturnValue, &[])]),
            ],
            expected_instructions: vec![ins(OpClosure, &[2, 0]), ins(OpPop, &[])],
        },
        Case {
            input: "fn() { }",
            expected_constants: vec![Expected::Func(vec![ins(OpReturn, &[])])],
            expected_instructions: vec![ins(OpClosure, &[0, 0]), ins(OpPop, &[])],
        },
    ]);
}

#[test]
fn compiler_test_test_compiler_scopes() {
    let mut compiler = Compiler::new();
    assert!(compiler.scope_index == 0, "scope_index wrong. got={}, want={}", compiler.scope_index, 0);
    let global_definitions = compiler.symbol_table.store.len();

    compiler.emit(OpMul, Vec::new());

    compiler.enter_scope();
    assert!(compiler.scope_index == 1, "scope_index wrong. got={}, want={}", compiler.scope_index, 1);

    compiler.emit(OpSub, Vec::new());
    assert!(
        compiler.scopes[compiler.scope_index].instructions.0.len() == 1,
        "instructions length wrong. got={}",
        compiler.scopes[compiler.scope_index].instructions.0.len()
    );
    let last = compiler.scopes[compiler.scope_index].last_instruction.expect("error");
    assert!(last.opcode == OpSub, "last_instruction.opcode wrong. got={:?}, want={:?}", last.opcode, OpSub);

    {
        let outer = &compiler.symbol_table.outer;
        assert!(
            outer.is_some() && outer.as_ref().unwrap().store.len() == global_definitions,
            "compiler did not enclose symble_table"
        );
    }

    compiler.leave_scope();
    assert!(compiler.scope_index == 0, "scope_index wrong. got={}, want={}", compiler.scope_index, 0);
    assert!(compiler.symbol_table.store.len() == global_definitions, "compiler did not restore global symbol table");
    assert!(compiler.symbol_table.outer.is_none(), "compiler modified global symbol table incorrectly");

    compiler.emit(OpAdd, Vec::new());
    assert!(
        compiler.scopes[compiler.scope_index].instructions.0.len() == 2,
        "instructions length wrong. got={}",
        compiler.scopes[compiler.scope_index].instructions.0.len()
    );
    let last = compiler.scopes[compiler.scope_index].last_instruction.expect("error");
    assert!(last.opcode == OpAdd, "last_instruction.opcode wrong. got={:?}, want={:?}", last.opcode, OpAdd);
    let previous = compiler.scopes[compiler.scope_index].previous_instruction.expect("error");
    assert!(previous.opcode == OpMul, "previous_instruction.opcode wrong. got={:?}, want={:?}", previous.opcode, OpMul);
}

#[test]
fn compiler_test_test_function_calls() {
    run_compiler_tests(vec![
        Case {
            input: "fn() { 24 }();",
            expected_constants: vec![Expected::Int(24), Expected::Func(vec![ins(OpConstant, &[0]), ins(OpReturnValue, &[])])],
            expected_instructions: vec![ins(OpClosure, &[1, 0]), ins(OpCall, &[0]), ins(OpPop, &[])],
        },
        Case {
            input: "let noArg = fn() { 24 };
        noArg();",
            expected_constants: vec![Expected::Int(24), Expected::Func(vec![ins(OpConstant, &[0]), ins(OpReturnValue, &[])])],
            expected_instructions: vec![
                ins(OpClosure, &[1, 0]),
                ins(OpSetGlobal, &[0]),
                ins(OpGetGlobal, &[0]),
                ins(OpCall, &[0]),
                ins(OpPop, &[]),
            ],
        },
        Case {
            input: "let oneArg = fn(a) {};
            oneArg(24);",
            expected_constants: vec![Expected::Func(vec![ins(OpReturn, &[])]), Expected::Int(24)],
            expected_instructions: vec![
                ins(OpClosure, &[0, 0]),
                ins(OpSetGlobal, &[0]),
                ins(OpGetGlobal, &[0]),
                ins(OpConstant, &[1]),
                ins(OpCall, &[1]),
                ins(OpPop, &[]),
            ],
        },
        Case {
            input: "let manyArg = fn(a, b, c) {};
            manyArg(24, 25, 26);",
            expected_constants: vec![Expected::Func(vec![ins(OpReturn, &[])]), Expected::Int(24), Expected::Int(25), Expected::Int(26)],
            expected_instructions: vec![
                ins(OpClosure, &[0, 0]),
                ins(OpSetGlobal, &[0]),
                ins(OpGetGlobal, &[0]),
                ins(OpConstant, &[1]),
                ins(OpConstant, &[2]),
                ins(OpConstant, &[3]),
                ins(OpCall, &[3]),
                ins(OpPop, &[]),
            ],
        },
        Case {
            input: "let oneArg = fn(a) { a };
            oneArg(24);",
            expected_constants: vec![Expected::Func(vec![ins(OpGetLocal, &[0]), ins(OpReturnValue, &[])]), Expected::Int(24)],
            expected_instructions: vec![
                ins(OpClosure, &[0, 0]),
                ins(OpSetGlobal, &[0]),
                ins(OpGetGlobal, &[0]),
                ins(OpConstant, &[1]),
                ins(OpCall, &[1]),
                ins(OpPop, &[]),
            ],
        },
        Case {
            input: "let manyArg = fn(a, b, c) { a; b; c };
            manyArg(24, 25, 26);",
            expected_constants: vec![
                Expected::Func(vec![
                    ins(OpGetLocal, &[0]),
                    ins(OpPop, &[]),
                    ins(OpGetLocal, &[1]),
                    ins(OpPop, &[]),
                    ins(OpGetLocal, &[2]),
                    ins(OpReturnValue, &[]),
                ]),
                Expected::Int(24),
                Expected::Int(25),
                Expected::Int(26),
            ],
            expected_instructions: vec![
                ins(OpClosure, &[0, 0]),
                ins(OpSetGlobal, &[0]),
                ins(OpGetGlobal, &[0]),
                ins(OpConstant, &[1]),
                ins(OpConstant, &[2]),
                ins(OpConstant, &[3]),
                ins(OpCall, &[3]),
                ins(OpPop, &[]),
            ],
        },
    ]);
}

#[test]
fn compiler_test_test_let_statement_scopes() {
    run_compiler_tests(vec![
        Case {
            input: "let num = 55;
            fn() { num }
            ",
            expected_constants: vec![Expected::Int(55), Expected::Func(vec![ins(OpGetGlobal, &[0]), ins(OpReturnValue, &[])])],
            expected_instructions: vec![ins(OpConstant, &[0]), ins(OpSetGlobal, &[0]), ins(OpClosure, &[1, 0]), ins(OpPop, &[])],
        },
        Case {
            input: "fn() {
                        let num = 55;
                        num
            }",
            expected_constants: vec![
                Expected::Int(55),
                Expected::Func(vec![ins(OpConstant, &[0]), ins(OpSetLocal, &[0]), ins(OpGetLocal, &[0]), ins(OpReturnValue, &[])]),
            ],
            expected_instructions: vec![ins(OpClosure, &[1, 0]), ins(OpPop, &[])],
        },
        Case {
            input: "fn() {
                        let a = 55;
                        let b = 77;
                        a + b
            }",
            expected_constants: vec![
                Expected::Int(55),
                Expected::Int(77),
                Expected::Func(vec![
                    ins(OpConstant, &[0]),
                    ins(OpSetLocal, &[0]),
                    ins(OpConstant, &[1]),
                    ins(OpSetLocal, &[1]),
                    ins(OpGetLocal, &[0]),
                    ins(OpGetLocal, &[1]),
                    ins(OpAdd, &[]),
                    ins(OpReturnValue, &[]),
                ]),
            ],
            expected_instructions: vec![ins(OpClosure, &[2, 0]), ins(OpPop, &[])],
        },
    ]);
}

#[test]
fn test_builltins() {
    run_compiler_tests(vec![
        Case {
            input: "len([]); push([], 1);",
            expected_constants: vec![Expected::Int(1)],
            expected_instructions: vec![
                ins(OpGetBuiltin, &[0]),
                ins(OpArray, &[0]),
                ins(OpCall, &[1]),
                ins(OpPop, &[]),
                ins(OpGetBuiltin, &[5]),
                ins(OpArray, &[0]),
                ins(OpConstant, &[0]),
                ins(OpCall, &[2]),
                ins(OpPop, &[]),
            ],
        },
        Case {
            input: "fn() { len([]) }",
            expected_constants: vec![Expected::Func(vec![ins(OpGetBuiltin, &[0]), ins(OpArray, &[0]), ins(OpCall, &[1]), ins(OpReturnValue, &[])])],
            expected_instructions: vec![ins(OpClosure, &[0, 0]), ins(OpPop, &[])],
        },
    ]);
}

#[test]
fn test_functions_without_return_value() {
    run_compiler_tests(vec![Case {
        input: "fn() {}",
        expected_constants: vec![Expected::Func(vec![ins(OpReturn, &[])])],
        expected_instructions: vec![ins(OpClosure, &[0, 0]), ins(OpPop, &[])],
    }]);
}

#[test]
fn test_closure() {
    run_compiler_tests(vec![
        Case {
            input: "
            fn(a) {
                fn(b) {
                    a + b
                }
            }
            ",
            expected_constants: vec![
                Expected::Func(vec![ins(OpGetFree, &[0]), ins(OpGetLocal, &[0]), ins(OpAdd, &[]), ins(OpReturnValue, &[])]),
                Expected::Func(vec![ins(OpGetLocal, &[0]), ins(OpClosure, &[0, 1]), ins(OpReturnValue, &[])]),
            ],
            expected_instructions: vec![ins(OpClosure, &[1, 0]), ins(OpPop, &[])],
        },
        Case {
            input: "
        fn(a) {
            fn(b) {
                fn(c) {
                    a + b + c
                }
            }
        }",
            expected_constants: vec![
                Expected::Func(vec![
                    ins(OpGetFree, &[0]),
                    ins(OpGetFree, &[1]),
                    ins(OpAdd, &[]),
                    ins(OpGetLocal, &[0]),
                    ins(OpAdd, &[]),
                    ins(OpReturnValue, &[]),
                ]),
                Expected::Func(vec![ins(OpGetFree, &[0]), ins(OpGetLocal, &[0]), ins(OpClosure, &[0, 2]), ins(OpReturnValue, &[])]),
                Expected::Func(vec![ins(OpGetLocal, &[0]), ins(OpClosure, &[1, 1]), ins(OpReturnValue, &[])]),
            ],
            expected_instructions: vec![ins(OpClosure, &[2, 0]), ins(OpPop, &[])],
        },
        Case {
            input: "
            let global = 55;
            fn() {
                let a = 66;
                fn() {
                    let b = 77;
                    fn() {
                        let c = 88;
                        global + a + b + c;
                    }
                }
            }",
            expected_constants: vec![
                Expected::Int(55),
                Expected::Int(66),
                Expected::Int(77),
                Expected::Int(88),
                Expected::Func(vec![
                    ins(OpConstant, &[3]),
                    ins(OpSetLocal, &[0]),
                    ins(OpGetGlobal, &[0]),
                    ins(OpGetFree, &[0]),
                    ins(OpAdd, &[]),
                    ins(OpGetFree, &[1]),
                    ins(OpAdd, &[]),
                    ins(OpGetLocal, &[0]),
                    ins(OpAdd, &[]),
                    ins(OpReturnValue, &[]),
                ]),
                Expected::Func(vec![
                    ins(OpConstant, &[2]),
                    ins(OpSetLocal, &[0]),
                    ins(OpGetFree, &[0]),
                    ins(OpGetLocal, &[0]),
                    ins(OpClosure, &[4, 2]),
                    ins(OpReturnValue, &[]),
                ]),
                Expected::Func(vec![
                    ins(OpConstant, &[1]),
                    ins(OpSetLocal, &[0]),
                    ins(OpGetLocal, &[0]),
                    ins(OpClosure, &[5, 1]),
                    ins(OpReturnValue, &[]),
                ]),
            ],
            expected_instructions: vec![ins(OpConstant, &[0]), ins(OpSetGlobal, &[0]), ins(OpClosure, &[6, 0]), ins(OpPop, &[])],
        },
    ]);
}
