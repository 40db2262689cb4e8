use monkey::ast::{Expression, Program, Statement};
use monkey::lexer::Lexer;
use monkey::parser::Parser;

enum Lit {
    Int(i64),
    Ident(&'static str),
    Bool(bool),
}

fn parse(input: &str) -> Program {
    let l = Lexer::new(input);
    let mut p = Parser::new(l);
    let program = p.parse_program();
    check_parser_errors(&p);
    program.expect("parse_program() returned None")
}

fn check_parser_errors(p: &Parser) {
    if p.errors.is_empty() {
        return;
    }
    let mut msgs = format!("parser has {} errors\n", p.errors.len());
    for msg in p.errors.iter() {
        msgs.push_str(&format!("parser error: {:?}\n", msg));
    }
    panic!("{}", msgs);
}

fn single_expression(program: &Program) -> &Expression {
    assert!(
        program.statements.len() == 1,
        "program.statements does not contain 1 statements. got={}",
        program.statements.len()
    );
    match &program.statements[0] {
        Statement::ExpressionStatement(es) => &es.expression,
        other => panic!("program.statements[0] is not ExpressionStatement. got={:?}", other),
    }
}

fn test_let_statement(s: &Statement, expected_name: &str) {
    assert!(s.token_literal() == "let", "s.token_literal not 'let'. got={}", s.token_literal());
    if let Statement::LetStatement(ls) = s {
        assert!(ls.name.value == expected_name, "letStmt.name.value not '{}', got={}", expected_name, ls.name.value);
        assert!(ls.name.token_literal() == expected_name, "s.name not '{}'. got={}", expected_name, ls.name.token_literal());
    } else {
        panic!("s not LetStatement. got={:?}", s);
    }
}

fn test_integer_literal(il: &Expression, expected_value: i64) {
    if let Expression::IntegerLiteral(i) = il {
        assert!(i.value == expected_value, "integ.value not {}. got={}", expected_value, i.value);
        assert!(
            i.token.literal == format!("{}", expected_value),
            "integ.token_literal not {}. got={}",
            expected_value,
            i.token.literal
        );
    } else {
        panic!("il not IntegerLiteral. got={:?}", il);
    }
}

fn test_identifier(exp: &Expression, expected_value: &str) {
    if let Expression::Identifier(id) = exp {
        assert!(id.value == expected_value, "ident.value not {}. got={}", expected_value, id.value);
        assert!(id.token.literal == expected_value, "ident.token_literal not {}. got={}", expected_value, id.token.literal);
    } else {
        panic!("exp not Identifier. got={:?}", exp);
    }
}

fn test_boolean_literal(exp: &Expression, expected_value: bool) {
    if let Expression::BooleanLiteral(b) = exp {
        assert!(b.value == expected_value, "bo.value not {}. got={}", expected_value, b.value);
        assert!(
            b.token.literal == format!("{}", expected_value),
            "bo.token_literal not {}. got={}",
            expected_value,
            b.token.literal
        );
    } else {
        panic!("exp not BooleanLiteral. got={:?}", exp);
    }
}

fn test_literal_expression(exp: &Expression, expected: &Lit) {
    match expected {
        Lit::Int(v) => test_integer_literal(exp, *v),
        Lit::Ident(v) => test_identifier(exp, v),
        Lit::Bool(v) => test_boolean_literal(exp, *v),
    }
}

fn test_infix_expression(exp: &Expression, left: &Lit, operator: &str, right: &Lit) {
    if let Expression::InfixExpression(ie) = exp {
        test_literal_expression(&ie.left, left);
        assert!(ie.operator == operator, "exp.operator is not '{}'. got={:?}", operator, ie.operator);
        test_literal_expression(&ie.right, right);
    } else {
        panic!("exp is not InfixExpression. got={:?}", exp);
    }
}

#[test]
fn parser_test_return_stmts() {
    let input = "
return 5;
return 10;
return 993322;
";
    let program = parse(input);
    assert!(program.statements.len() == 3, "program.statements does not contain 3 statements. got={}", program.statements.len());
    for stmt in program.statements.iter() {
        if let Statement::ReturnStatement(_) = stmt {
            assert!(stmt.token_literal() == "return", "returnStmt.token_literal not 'return', got={}", stmt.token_literal());
        } else {
            panic!("stmt not ReturnStatement. got={:?}", stmt);
        }
    }
}

#[test]
fn test_indent_expr() {
    let program = parse("foobar;");
    test_identifier(single_expression(&program), "foobar");
}

#[test]
fn test_integer_literal_expr() {
    let program = parse("5;");
    test_integer_literal(single_expression(&program), 5);
}

#[test]
fn test_parsing_infix_expr() {
    let tests = [
        ("5 + 5;", Lit::Int(5), "+", Lit::Int(5)),
        ("5 - 5;", Lit::Int(5), "-", Lit::Int(5)),
        ("5 * 5;", Lit::Int(5), "*", Lit::Int(5)),
        ("5 / 5;", Lit::Int(5), "/", Lit::Int(5)),
        ("5 > 5;", Lit::Int(5), ">", Lit::Int(5)),
        ("5 < 5;", Lit::Int(5), "<", Lit::Int(5)),
        ("5 == 5;", Lit::Int(5), "==", Lit::Int(5)),
        ("5 != 5;", Lit::Int(5), "!=", Lit::Int(5)),
        ("true == true", Lit::Bool(true), "==", Lit::Bool(true)),
        ("true != false", Lit::Bool(true), "!=", Lit::Bool(false)),
        ("false == false", Lit::Bool(false), "==", Lit::Bool(false)),
    ];
    for tt in tests.iter() {
        let program = parse(tt.0);
        test_infix_expression(single_expression(&program), &tt.1, tt.2, &tt.3);
    }
}

#[test]
fn parser_test_operator_precedence_parsing() {
    let tests = [
        ("-a * b", "((-a) * b)"),
        ("!-a", "(!(-a))"),
        ("a + b + c", "((a + b) + c)"),
        ("a + b - c", "((a + b) - c)"),
        ("a * b * c", "((a * b) * c)"),
        ("a * b / c", "((a * b) / c)"),
        ("a + b / c", "(a + (b / c))"),
        ("a + b * c + d / e - f", "(((a + (b * c)) + (d / e)) - f)"),
        ("3 + 4; -5 * 5", "(3 + 4)((-5) * 5)"),
        ("5 > 4 == 3 < 4", "((5 > 4) == (3 < 4))"),
        ("5 < 4 != 3 > 4", "((5 < 4) != (3 > 4))"),
        ("3 + 4 * 5 == 3 * 1 +  4 * 5", "((3 + (4 * 5)) == ((3 * 1) + (4 * 5)))"),
        ("true", "true"),
        ("false", "false"),
        ("3 > 5 == false", "((3 > 5) == false)"),
        ("3 < 5 == true", "((3 < 5) == true)"),
        ("1 + (2 + 3) + 4", "((1 + (2 + 3)) + 4)"),
        ("(5 + 5) * 2", "((5 + 5) * 2)"),
        ("2 / (5 + 5)", "(2 / (5 + 5))"),
        ("-(5 + 5)", "(-(5 + 5))"),
        ("!(true == true)", "(!(true == true))"),
        ("a + add(b * c) + d", "((a + add((b * c))) + d)"),
        ("add(a, b, 1, 2 * 3, 4 + 5, add(6, 7 * 8))", "add(a, b, 1, (2 * 3), (4 + 5), add(6, (7 * 8)))"),
        ("add(a + b + c * d / f + g)", "add((((a + b) + ((c * d) / f)) + g))"),
        ("a * [1, 2, 3, 4][b * c] * d", "((a * ([1, 2, 3, 4][(b * c)])) * d)"),
        ("add(a * b[2], b[1], 2 * [1, 2][1])", "add((a * (b[2])), (b[1]), (2 * ([1, 2][1])))"),
    ];
    for tt in tests.iter() {
        let actual = parse(tt.0).string();
        assert!(actual == tt.1, "expected={:?}, got={:?}", tt.1, actual);
    }
}

#[test]
fn test_if_expr() {
    let program = parse("if (x < y) { x }");
    let expression = single_expression(&program);
    if let Expression::IfExpression(ie) = expression {
        test_infix_expression(&ie.condition, &Lit::Ident("x"), "<", &Lit::Ident("y"));
        assert!(ie.consequence.statements.len() == 1, "consequence is not 1 statements. got={}", ie.consequence.statements.len());
        if let Statement::ExpressionStatement(es) = &ie.consequence.statements[0] {
            test_identifier(&es.expression, "x");
        } else {
            panic!("statements[0] is not ExpressionStatement. got={:?}", &ie.consequence.statements[0]);
        }
        assert!(ie.alternative.is_none(), "exp alternative.statements was not None. got={:?}", ie.alternative);
    } else {
        panic!("stmt.expression is not IfExpression. got={:?}", expression);
    }
}

#[test]
fn parser_test_if_else_expr() {
    let program = parse("if (x < y) { x } else { y }");
    let expression = single_expression(&program);
    if let Expression::IfExpression(ie) = expression {
        test_infix_expression(&ie.condition, &Lit::Ident("x"), "<", &Lit::Ident("y"));
        assert!(ie.consequence.statements.len() == 1, "consequence is not 1 statements. got={}", ie.consequence.statements.len());
        if let Statement::ExpressionStatement(es) = &ie.consequence.statements[0] {
            test_identifier(&es.expression, "x");
        } else {
            panic!("statements[0] is not ExpressionStatement");
        }
        let a = ie.alternative.as_ref().expect("exp alternative.statements was None");
        assert!(a.statements.len() == 1, "alternative is not 1 statements. got={}", a.statements.len());
        if let Statement::ExpressionStatement(es) = &a.statements[0] {
            test_identifier(&es.expression, "y");
        } else {
            panic!("statements[0] is not ExpressionStatement");
        }
    } else {
        panic!("stmt.expression is not IfExpression. got={:?}", expression);
    }
}

#[test]
fn test_func_lite_parsing() {
    let program = parse("fn(x, y) { x + y; }");
    let expression = single_expression(&program);
    if let Expression::FunctionLiteral(f) = expression {
        assert!(f.parameters.len() == 2, "function literal parameters wrong. want 2, got={}", f.parameters.len());
        assert!(f.parameters[0].value == "x" && f.parameters[0].token.literal == "x");
        assert!(f.parameters[1].value == "y" && f.parameters[1].token.literal == "y");
        assert!(f.body.statements.len() == 1, "function.body.statements has not 1 statements. got={}", f.body.statements.len());
        if let Statement::ExpressionStatement(es) = &f.body.statements[0] {
            test_infix_expression(&es.expression, &Lit::Ident("x"), "+", &Lit::Ident("y"));
        } else {
            panic!("function body stmt is not ExpressionStatement. got={:?}", &f.body.statements[0]);
        }
    } else {
        panic!("stmt.expression is not FunctionLiteral. got={:?}", expression);
    }
}

#[test]
fn test_call_expr_parsing() {
    let program = parse("add(1, 2 * 3, 4 + 5);");
    let expression = single_expression(&program);
    if let Expression::CallExpression(c) = expression {
        test_identifier(&c.function, "add");
        assert!(c.arguments.len() == 3, "wrong length of arguments. got={}", c.arguments.len());
        test_literal_expression(&c.arguments[0], &Lit::Int(1));
        test_infix_expression(&c.arguments[1], &Lit::Int(2), "*", &Lit::Int(3));
        test_infix_expression(&c.arguments[2], &Lit::Int(4), "+", &Lit::Int(5));
    } else {
        panic!("stmt.expression is not CallExpression. got={:?}", expression);
    }
}

#[test]
fn test_str_lite_expr() {
    let program = parse(r#""hello world";"#);
    let expression = single_expression(&program);
    if let Expression::StringLiteral(s) = expression {
        assert!(s.value == "hello world", "literal.value not {}. got={}", "hello world", s.value);
    } else {
        panic!("exp not StringLiteral. got={:?}", expression);
    }
}

#[test]
fn test_parse_array_lite() {
    let program = parse("[1, 2 * 2, 3 + 3]");
    let expression = single_expression(&program);
    if let Expression::ArrayLiteral(a) = expression {
        assert!(a.elements.len() == 3, "len(array.elements) not 3. got={}", a.elements.len());
        test_integer_literal(&a.elements[0], 1);
        test_infix_expression(&a.elements[1], &Lit::Int(2), "*", &Lit::Int(2));
        test_infix_expression(&a.elements[2], &Lit::Int(3), "+", &Lit::Int(3));
    } else {
        panic!("exp not ArrayLiteral. got={:?}", expression);
    }
}

#[test]
fn test_parsing_index_expr() {
    let program = parse("myArray[1 + 1]");
    let expression = single_expression(&program);
    if let Expression::IndexExpression(ix) = expression {
        test_identifier(&ix.left, "myArray");
        test_infix_expression(&ix.index, &Lit::Int(1), "+", &Lit::Int(1));
    } else {
        panic!("exp not IndexExpression. got={:?}", expression);
    }
}

#[test]
fn test_parsing_hash_lites_string_keys() {
    let program = parse(r#"{"one": 1, "two": 2, "three": 3}"#);
    let expression = single_expression(&program);
    if let Expression::HashLiteral(h) = expression {
        assert!(h.pairs.len() == 3, "hash.pairs has wrong length. got={}", h.pairs.len());
        let expected = [("one", 1), ("two", 2), ("three", 3)];
        for (key, value) in h.pairs.iter() {
            if let Expression::StringLiteral(literal) = key {
                let v = expected.iter().find(|e| e.0 == literal.string()).expect("unexpected key").1;
                test_integer_literal(value, v);
            } else {
                panic!("key is not StringLiteral. got={:?}", key);
            }
        }
    } else {
        panic!("exp is not HashLiteral. got={:?}", expression);
    }
}

#[test]
fn test_parsing_empty_hash_lite() {
    let program = parse("{}");
    let expression = single_expression(&program);
    if let Expression::HashLiteral(h) = expression {
        assert!(h.pairs.is_empty(), "hash.pairs has wrong length. got={}", h.pairs.len());
    } else {
        panic!("exp is not HashLiteral. got={:?}", expression);
    }
}

#[test]
fn test_parsing_hash_lites_with_expr() {
    let program = parse(r#"{"one": 0 + 1, "two": 10 - 8, "three": 15 / 5}"#);
    let expression = single_expression(&program);
    if let Expression::HashLiteral(h) = expression {
        assert!(h.pairs.len() == 3, "hash.pairs has wrong length. got={}", h.pairs.len());
        for (key, value) in h.pairs.iter() {
            if let Expression::StringLiteral(literal) = key {
                match literal.string().as_str() {
                    "one" => test_infix_expression(value, &Lit::Int(0), "+", &Lit::Int(1)),
                    "two" => test_infix_expression(value, &Lit::Int(10), "-", &Lit::Int(8)),
                    "three" => test_infix_expression(value, &Lit::Int(15), "/", &Lit::Int(5)),
                    other => panic!("No test function for key {:?} found", other),
                }
            } else {
                panic!("key is not StringLiteral. got={:?}", key);
            }
        }
    } else {
        panic!("exp is not HashLiteral. got={:?}", expression);
    }
}

#[test]
fn parser_test_let_stmts() {
    let tests = [("let x = 5;", "x", Lit::Int(5)), ("let y = true;", "y", Lit::Bool(true)), ("let foobar = y;", "foobar", Lit::Ident("y"))];
    for tt in tests.iter() {
        let program = parse(tt.0);
        assert!(program.statements.len() == 1, "program.stmts does not contain 1 stmts. got={}", program.statements.len());
        test_let_statement(&program.statements[0], tt.1);
        if let Statement::LetStatement(ls) = &program.statements[0] {
            test_literal_expression(&ls.value, &tt.2);
        } else {
            panic!("stmt[0] is not LetStmt. got={:?}", &program.statements[0]);
        }
    }
}

#[test]
fn test_parsing_prefix_expr() {
    let tests = [("!5;", "!", 5), ("-15;", "-", 15)];
    for tt in tests.iter() {
        let program = parse(tt.0);
        let expression = single_expression(&program);
        if let Expression::PrefixExpression(pe) = expression {
            assert!(pe.operator == tt.1, "exp.operator is not '{}'. got={}", tt.1, pe.operator);
            test_integer_literal(&pe.right, tt.2);
        } else {
            panic!("stmt is not PrefixExpr. got={:?}", expression);
        }
    }
}

#[test]
fn parser_reports_errors_and_keeps_going() {
    let l = Lexer::new("let = 5; let x 5; let y = 3;");
    let mut p = Parser::new(l);
    let errors = p.parse_program().unwrap_err();
    assert!(!p.errors.is_empty());
    assert!(errors == p.errors);
    assert_eq!(p.get_errors()[0], format!("{}.", p.errors[0]));
}
