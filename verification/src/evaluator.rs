//! The tree-walking evaluator: runs a program's syntax tree directly.
use vstd::prelude::*;
use crate::step;
use crate::ast::{
    Node, Program, Statement, Expression, BlockStatement, IfExpression, HashLiteral, Identifier,
    LetStatement, duplicate_identifiers, same_block,
};
use crate::object::{
    Object, Integer, Boolean, Null, ReturnValue, ErrorObj, Function, StringObj, Builtin, Array,
    HashPair, HashKey, AsHashable, obj_type, obj_equal, same_obj, spec_hash_key, find_key,
    object_type_name, objects_equal, native_bool_to_boolean_object, obj_inspect,
};
use crate::environment::{EnvStore, Environment, chain_lookup, new_enclosed_environment};
use crate::builtins::{apply_builtin, get_builtin, spec_builtin_named, is_error_with};
use crate::text::{str_eq, usize_to_string, nat_str};

verus! {

/// How deeply function calls may nest before evaluation stops with an error;
/// far beyond what the machine's stack allows, so in practice no limit.
pub const MAX_CALL_DEPTH: u64 = 0xffff_ffff_ffff_ffff;

// ---------------------------------------------------------------------------
// Sizes of syntax trees, the measure by which evaluation of a tree descends.

pub open spec fn expr_size(e: Expression) -> nat
    decreases e,
{
    match e {
        Expression::PrefixExpression(p) => 1 + expr_size(*p.right),
        Expression::InfixExpression(i) => 1 + expr_size(*i.left) + expr_size(*i.right),
        Expression::IfExpression(i) => 2 + expr_size(*i.condition) + block_size(i.consequence) + match i.alternative {
            Some(b) => block_size(b),
            None => 0,
        },
        Expression::CallExpression(c) => 1 + expr_size(*c.function) + exprs_size(c.arguments@),
        Expression::ArrayLiteral(a) => 1 + exprs_size(a.elements@),
        Expression::IndexExpression(i) => 1 + expr_size(*i.left) + expr_size(*i.index),
        Expression::HashLiteral(h) => 1 + pairs_size(h.pairs@),
        _ => 1,
    }
}

pub open spec fn if_size(i: IfExpression) -> nat
    decreases i,
{
    1 + expr_size(*i.condition) + block_size(i.consequence) + match i.alternative {
        Some(b) => block_size(b),
        None => 0,
    }
}

pub open spec fn exprs_size(es: Seq<Expression>) -> nat
    decreases es,
{
    if es.len() == 0 {
        0
    } else {
        exprs_size(es.drop_last()) + expr_size(es.last()) + 1
    }
}

pub open spec fn pairs_size(ps: Seq<(Expression, Expression)>) -> nat
    decreases ps,
{
    if ps.len() == 0 {
        0
    } else {
        pairs_size(ps.drop_last()) + expr_size(ps.last().0) + expr_size(ps.last().1) + 1
    }
}

pub open spec fn stmt_size(s: Statement) -> nat
    decreases s,
{
    match s {
        Statement::LetStatement(l) => 1 + expr_size(l.value),
        Statement::ReturnStatement(r) => 1 + expr_size(r.return_value),
        Statement::ExpressionStatement(e) => 1 + expr_size(e.expression),
        Statement::BlockStatement(b) => 1 + block_size(b),
    }
}

pub open spec fn stmts_size(ss: Seq<Statement>) -> nat
    decreases ss,
{
    if ss.len() == 0 {
        0
    } else {
        stmts_size(ss.drop_last()) + stmt_size(ss.last()) + 1
    }
}

pub open spec fn block_size(b: BlockStatement) -> nat
    decreases b,
{
    1 + stmts_size(b.statements@)
}

proof fn lemma_exprs_size(es: Seq<Expression>, i: int)
    requires
        0 <= i < es.len(),
    ensures
        expr_size(es[i]) < exprs_size(es),
    decreases es.len(),
{
    if i < es.len() - 1 {
        lemma_exprs_size(es.drop_last(), i);
    }
}

proof fn lemma_pairs_size(ps: Seq<(Expression, Expression)>, i: int)
    requires
        0 <= i < ps.len(),
    ensures
        expr_size(ps[i].0) < pairs_size(ps),
        expr_size(ps[i].1) < pairs_size(ps),
    decreases ps.len(),
{
    if i < ps.len() - 1 {
        lemma_pairs_size(ps.drop_last(), i);
    }
}

proof fn lemma_stmts_size(ss: Seq<Statement>, i: int)
    requires
        0 <= i < ss.len(),
    ensures
        stmt_size(ss[i]) < stmts_size(ss),
    decreases ss.len(),
{
    if i < ss.len() - 1 {
        lemma_stmts_size(ss.drop_last(), i);
    }
}

// ---------------------------------------------------------------------------
// Results of operators on values.

/// The type name of a possibly missing value; "None" when it is missing.
pub open spec fn opt_type(o: Option<Object>) -> Seq<char> {
    match o {
        Some(v) => obj_type(v),
        None => "None"@,
    }
}

/// Whether a value is an error.
pub open spec fn spec_is_error(o: Option<Object>) -> bool {
    o matches Some(Object::ErrorObj(_))
}

/// Whether a value counts as true in a condition: everything but `false`
/// and `null`.
pub open spec fn spec_is_truthy(o: Option<Object>) -> bool {
    match o {
        Some(Object::Null(_)) => false,
        Some(Object::Boolean(b)) => b.value,
        _ => true,
    }
}

/// A value counts as true in a condition exactly when it is neither null
/// nor the boolean false: every integer (zero too), string, array, hash and
/// function counts as true.
pub proof fn law_truthiness(v: Object)
    ensures
        spec_is_truthy(Some(v)) <==> !(v is Null || (v matches Object::Boolean(b) && !b.value)),
{
}

/// An `if` whose condition gives a value other than null, false or an error
/// gives what its consequence gives.
pub proof fn law_if_takes_consequence(
    fuel: nat,
    ie: IfExpression,
    s0: Seq<Environment>,
    env: int,
    o0: Seq<String>,
    s1: Seq<Environment>,
    o1: Seq<String>,
    r: Option<Object>,
)
    requires
        eval_rel(fuel, Expression::IfExpression(ie), s0, env, o0, s1, o1, r),
    ensures
        exists|sm: Seq<Environment>, om: Seq<String>, c: Option<Object>|
            #![trigger step((sm, om, c))]
            eval_rel(fuel, *ie.condition, s0, env, o0, sm, om, c) && (c matches Some(v) && !(v is ErrorObj) && !(
            v is Null || (v matches Object::Boolean(b) && !b.value)) ==> block_rel(
                fuel,
                ie.consequence.statements@,
                sm,
                env,
                om,
                s1,
                o1,
                r,
            )),
{
}

/// Infix operators on two integers: `+`, `-`, `*` give the sum,
/// difference and product whenever these fit in 64 bits, `/` the quotient of
/// non-negative numbers (dividing by zero is an error), and `<`, `>`, `==`,
/// `!=` compare the numbers.
pub proof fn law_integer_infix(op: Seq<char>, x: i64, y: i64, r: Option<Object>)
    requires
        infix_result(op, int_obj(x), int_obj(y), r),
    ensures
        op == "+"@ && i64::MIN <= x + y <= i64::MAX ==> r == Some(Object::Integer(Integer { value: (x + y) as i64 })),
        op == "-"@ && i64::MIN <= x - y <= i64::MAX ==> r == Some(Object::Integer(Integer { value: (x - y) as i64 })),
        op == "*"@ && i64::MIN <= x * y <= i64::MAX ==> r == Some(Object::Integer(Integer { value: (x * y) as i64 })),
        op == "/"@ && x >= 0 && y > 0 ==> r == Some(Object::Integer(Integer { value: (x / y) as i64 })),
        op == "/"@ && y == 0 ==> (r matches Some(Object::ErrorObj(m)) && m.message@ == "division by zero"@),
        op == "<"@ ==> r == Some(Object::Boolean(Boolean { value: x < y })),
        op == ">"@ ==> r == Some(Object::Boolean(Boolean { value: x > y })),
        op == "=="@ ==> r == Some(Object::Boolean(Boolean { value: x == y })),
        op == "!="@ ==> r == Some(Object::Boolean(Boolean { value: x != y })),
{
    reveal_strlit("+");
    reveal_strlit("-");
    reveal_strlit("*");
    reveal_strlit("/");
    reveal_strlit("<");
    reveal_strlit(">");
    reveal_strlit("==");
    reveal_strlit("!=");
    assert("-"@[0] != "+"@[0]);
    assert("*"@[0] != "+"@[0] && "*"@[0] != "-"@[0]);
    assert("/"@[0] != "+"@[0] && "/"@[0] != "-"@[0] && "/"@[0] != "*"@[0]);
    assert("<"@[0] != "+"@[0] && "<"@[0] != "-"@[0] && "<"@[0] != "*"@[0] && "<"@[0] != "/"@[0]);
    assert(">"@[0] != "+"@[0] && ">"@[0] != "-"@[0] && ">"@[0] != "*"@[0] && ">"@[0] != "/"@[0] && ">"@[0] != "<"@[0]);
    assert("=="@[1] != "!="@[1] || "=="@[0] != "!="@[0]);
    if op == "+"@ && i64::MIN <= x + y <= i64::MAX {
        assert(x.wrapping_add(y) == x + y);
    }
    if op == "-"@ && i64::MIN <= x - y <= i64::MAX {
        assert(x.wrapping_sub(y) == x - y);
    }
    if op == "*"@ && i64::MIN <= x * y <= i64::MAX {
        assert(x.wrapping_mul(y) == x * y);
    }
}

/// Prefix operators: `!` gives true exactly for false and null (and for no
/// value, false), and `-` negates an integer (other than the least one,
/// whose negation does not fit).
pub proof fn law_prefix(op: Seq<char>, v: Object, r: Option<Object>)
    requires
        prefix_result(op, Some(v), r),
    ensures
        op == "!"@ ==> r == Some(Object::Boolean(Boolean { value: v is Null || (v matches Object::Boolean(b) && !b.value) })),
        op == "-"@ ==> (v matches Object::Integer(i) ==> (i.value > i64::MIN ==> r == Some(Object::Integer(Integer { value: (-i.value) as i64 })))),
{
    reveal_strlit("!");
    reveal_strlit("-");
    assert("!"@[0] != "-"@[0]);
    if op == "-"@ {
        if let Object::Integer(i) = v {
            if i.value > i64::MIN {
                assert(0i64.wrapping_sub(i.value) == -i.value);
            }
        }
    }
}

/// `+` on two strings joins their texts, first the left one; no other
/// operator applies to strings.
pub proof fn law_string_infix(op: Seq<char>, x: StringObj, y: StringObj, r: Option<Object>)
    requires
        infix_result(op, Some(Object::StringObj(x)), Some(Object::StringObj(y)), r),
    ensures
        op == "+"@ ==> (r matches Some(Object::StringObj(z)) && z.value@ == x.value@ + y.value@),
        op != "+"@ ==> (r matches Some(Object::ErrorObj(_))),
{
}

/// Indexing an array with an integer counts from zero: position `i` gives
/// (a copy of) the element there when `0 <= i < len`, and null otherwise.
pub proof fn law_evaluator_index(arr: Array, i: i64, r: Option<Object>)
    requires
        index_result(Object::Array(arr), Object::Integer(Integer { value: i }), r),
    ensures
        0 <= i < arr.elements@.len() ==> (r matches Some(v) && same_obj(v, arr.elements@[i as int])),
        !(0 <= i < arr.elements@.len()) ==> r == Some(Object::Null(Null {})),
{
}

/// `r` is the error with message `m`.
pub open spec fn is_some_error(r: Option<Object>, m: Seq<char>) -> bool {
    r matches Some(e) && is_error_with(e, m)
}

pub open spec fn bool_obj(b: bool) -> Option<Object> {
    Some(Object::Boolean(Boolean { value: b }))
}

pub open spec fn int_obj(v: i64) -> Option<Object> {
    Some(Object::Integer(Integer { value: v }))
}

/// The result of `!` on a value.
pub open spec fn bang_result(right: Option<Object>) -> Option<Object> {
    match right {
        Some(Object::Boolean(b)) => bool_obj(!b.value),
        Some(Object::Null(_)) => bool_obj(true),
        _ => bool_obj(false),
    }
}

/// The result of a prefix operator on a value.
pub open spec fn prefix_result(op: Seq<char>, right: Option<Object>, r: Option<Object>) -> bool {
    if op == "!"@ {
        r == bang_result(right)
    } else if op == "-"@ {
        match right {
            Some(Object::Integer(i)) => r == int_obj(0i64.wrapping_sub(i.value)),
            _ => is_some_error(r, "unknown operator: -"@ + opt_type(right)),
        }
    } else {
        is_some_error(r, "unknown operator: "@ + op + opt_type(right))
    }
}

/// The result of an arithmetic or comparison operator on two integers.
/// Addition, subtraction and multiplication wrap around; division by zero,
/// and the one division whose quotient does not fit, give an error.
pub open spec fn integer_infix_result(op: Seq<char>, l: i64, r: i64, res: Option<Object>) -> bool {
    if op == "+"@ {
        res == int_obj(l.wrapping_add(r))
    } else if op == "-"@ {
        res == int_obj(l.wrapping_sub(r))
    } else if op == "*"@ {
        res == int_obj(l.wrapping_mul(r))
    } else if op == "/"@ {
        match l.checked_div(r) {
            Some(q) => res == int_obj(q),
            None => if r == 0 {
                is_some_error(res, "division by zero"@)
            } else {
                is_some_error(res, "integer overflow"@)
            },
        }
    } else if op == "<"@ {
        res == bool_obj(l < r)
    } else if op == ">"@ {
        res == bool_obj(l > r)
    } else if op == "=="@ {
        res == bool_obj(l == r)
    } else if op == "!="@ {
        res == bool_obj(l != r)
    } else {
        is_some_error(res, "unknown operator: "@ + "INTEGER"@ + " "@ + op + " "@ + "INTEGER"@)
    }
}

/// The result of an infix operator on two values.
pub open spec fn infix_result(op: Seq<char>, left: Option<Object>, right: Option<Object>, r: Option<Object>) -> bool {
    if opt_type(left) != opt_type(right) {
        is_some_error(r, "type mismatch: "@ + opt_type(left) + " "@ + op + " "@ + opt_type(right))
    } else {
        match (left, right) {
            (Some(Object::StringObj(a)), Some(Object::StringObj(b))) => if op == "+"@ {
                r matches Some(Object::StringObj(s)) && s.value@ == a.value@ + b.value@
            } else {
                is_some_error(r, "unknown operator: "@ + "STRING"@ + " "@ + op + " "@ + "STRING"@)
            },
            (Some(Object::Integer(a)), Some(Object::Integer(b))) => integer_infix_result(
                op,
                a.value,
                b.value,
                r,
            ),
            (Some(a), Some(b)) => if op == "=="@ {
                r == bool_obj(obj_equal(a, b))
            } else if op == "!="@ {
                r == bool_obj(!obj_equal(a, b))
            } else {
                is_some_error(r, "unknown operator: "@ + obj_type(a) + " "@ + op + " "@ + obj_type(b))
            },
            _ => r == Some(Object::Null(Null {})),
        }
    }
}

// ---------------------------------------------------------------------------
// Operators.

/// An error value with the given message.
pub fn new_error(msg: String) -> (r: Option<Object>)
    ensures
        is_some_error(r, msg@),
{
    Some(Object::ErrorObj(ErrorObj { message: msg }))
}

/// The type name of a possibly missing value.
pub fn get_type(obj: &Option<Object>) -> (s: String)
    ensures
        s@ == opt_type(*obj),
{
    match obj {
        Some(o) => object_type_name(o),
        None => String::from_str("None"),
    }
}

/// Whether a value is an error.
pub fn is_error(obj: &Option<Object>) -> (r: bool)
    ensures
        r == spec_is_error(*obj),
{
    match obj {
        Some(Object::ErrorObj(_)) => true,
        _ => false,
    }
}

/// Whether a value counts as true in a condition.
pub fn is_truthy(obj: &Option<Object>) -> (r: bool)
    ensures
        r == spec_is_truthy(*obj),
{
    match obj {
        Some(Object::Null(_)) => false,
        Some(Object::Boolean(b)) => b.value,
        _ => true,
    }
}

/// The error with the message made of the two parts.
fn error2(a: &str, b: &str) -> (r: Option<Object>)
    ensures
        is_some_error(r, a@ + b@),
{
    let mut m = String::from_str(a);
    m.append(b);
    new_error(m)
}

/// The error with the message made of the parts `a`, `b`, " ", `c`, " ", `d`.
fn error4(a: &str, b: &str, c: &str, d: &str) -> (r: Option<Object>)
    ensures
        is_some_error(r, a@ + b@ + " "@ + c@ + " "@ + d@),
{
    let mut m = String::from_str(a);
    m.append(b);
    m.append(" ");
    m.append(c);
    m.append(" ");
    m.append(d);
    new_error(m)
}

/// `!` applied to a value.
pub fn eval_bang_operator_expression(right: &Option<Object>) -> (r: Option<Object>)
    ensures
        r == bang_result(*right),
{
    match right {
        Some(Object::Boolean(b)) => Some(native_bool_to_boolean_object(!b.value)),
        Some(Object::Null(_)) => Some(native_bool_to_boolean_object(true)),
        _ => Some(native_bool_to_boolean_object(false)),
    }
}

/// `-` applied to a value.
pub fn eval_minus_prefix_operator_expression(right: &Option<Object>) -> (r: Option<Object>)
    ensures
        prefix_result("-"@, *right, r),
{
    proof {
        reveal_strlit("-");
        reveal_strlit("!");
        assert("-"@[0] != "!"@[0]);
        assert("-"@ != "!"@);
    }
    match right {
        Some(Object::Integer(i)) => {
            let zero: i64 = 0;
            let v: i64 = zero.wrapping_sub(i.value);
            assert(v == 0i64.wrapping_sub(i.value));
            Some(Object::Integer(Integer { value: v }))
        },
        _ => {
            let t = get_type(right);
            error2("unknown operator: -", t.as_str())
        },
    }
}

/// A prefix operator applied to a value.
pub fn eval_prefix_expression(operator: &str, right: &Option<Object>) -> (r: Option<Object>)
    ensures
        prefix_result(operator@, *right, r),
{
    if str_eq(operator, "!") {
        eval_bang_operator_expression(right)
    } else if str_eq(operator, "-") {
        eval_minus_prefix_operator_expression(right)
    } else {
        let t = get_type(right);
        let mut m = String::from_str("unknown operator: ");
        m.append(operator);
        m.append(t.as_str());
        new_error(m)
    }
}

/// An arithmetic or comparison operator applied to two integers.
pub fn eval_integer_infix_expression(operator: &str, left: i64, right: i64) -> (r: Option<Object>)
    ensures
        integer_infix_result(operator@, left, right, r),
{
    if str_eq(operator, "+") {
        Some(Object::Integer(Integer { value: left.wrapping_add(right) }))
    } else if str_eq(operator, "-") {
        Some(Object::Integer(Integer { value: left.wrapping_sub(right) }))
    } else if str_eq(operator, "*") {
        Some(Object::Integer(Integer { value: left.wrapping_mul(right) }))
    } else if str_eq(operator, "/") {
        match left.checked_div(right) {
            Some(q) => Some(Object::Integer(Integer { value: q })),
            None => if right == 0 {
                new_error(String::from_str("division by zero"))
            } else {
                new_error(String::from_str("integer overflow"))
            },
        }
    } else if str_eq(operator, "<") {
        Some(native_bool_to_boolean_object(left < right))
    } else if str_eq(operator, ">") {
        Some(native_bool_to_boolean_object(left > right))
    } else if str_eq(operator, "==") {
        Some(native_bool_to_boolean_object(left == right))
    } else if str_eq(operator, "!=") {
        Some(native_bool_to_boolean_object(left != right))
    } else {
        error4("unknown operator: ", "INTEGER", operator, "INTEGER")
    }
}

/// An infix operator applied to two strings: only `+`, which concatenates.
pub fn eval_string_infix_expression(operator: &str, left: &StringObj, right: &StringObj) -> (r: Option<Object>)
    ensures
        operator@ == "+"@ ==> (r matches Some(Object::StringObj(s)) && s.value@ == left.value@ + right.value@),
        operator@ != "+"@ ==> is_some_error(r, "unknown operator: "@ + "STRING"@ + " "@ + operator@ + " "@ + "STRING"@),
{
    if !str_eq(operator, "+") {
        return error4("unknown operator: ", "STRING", operator, "STRING");
    }
    let mut s = left.value.clone();
    s.append(right.value.as_str());
    Some(Object::StringObj(StringObj { value: s }))
}

/// An infix operator applied to two values.
pub fn eval_infix_expression(operator: &str, left: &Option<Object>, right: &Option<Object>) -> (r: Option<Object>)
    ensures
        infix_result(operator@, *left, *right, r),
{
    let lt = get_type(left);
    let rt = get_type(right);
    if !str_eq(lt.as_str(), rt.as_str()) {
        let mut m = String::from_str("type mismatch: ");
        m.append(lt.as_str());
        m.append(" ");
        m.append(operator);
        m.append(" ");
        m.append(rt.as_str());
        return new_error(m);
    }
    match (left, right) {
        (Some(Object::StringObj(a)), Some(Object::StringObj(b))) => eval_string_infix_expression(operator, a, b),
        (Some(Object::Integer(a)), Some(Object::Integer(b))) => eval_integer_infix_expression(
            operator,
            a.value,
            b.value,
        ),
        (Some(a), Some(b)) => {
            if str_eq(operator, "==") {
                Some(native_bool_to_boolean_object(objects_equal(a, b)))
            } else if str_eq(operator, "!=") {
                Some(native_bool_to_boolean_object(!objects_equal(a, b)))
            } else {
                error4("unknown operator: ", lt.as_str(), operator, rt.as_str())
            }
        },
        _ => Some(Object::Null(Null {})),
    }
}


// ---------------------------------------------------------------------------
// Indexing.

/// The element of `elements` at `idx`, or `null` when `idx` is out of range.
pub fn eval_array_index_expression(elements: &Vec<Object>, idx: i64) -> (r: Option<Object>)
    ensures
        0 <= idx < elements@.len() ==> (r matches Some(v) && same_obj(v, elements@[idx as int])),
        !(0 <= idx < elements@.len()) ==> r == Some(Object::Null(Null {})),
{
    if idx < 0 || idx as u64 >= elements.len() as u64 {
        return Some(Object::Null(Null {}));
    }
    Some(elements[idx as usize].duplicate())
}

/// The value stored in `hash` under `index`, `null` when there is none, or
/// an error when `index` cannot be a key.
pub fn eval_hash_index_expression(hash: &crate::object::Hash, index: &Object) -> (r: Option<Object>)
    ensures
        match spec_hash_key(*index) {
            Some(k) => match find_key(hash.pairs@, k) {
                Some(i) => r matches Some(v) && same_obj(v, hash.pairs@[i].value),
                None => r == Some(Object::Null(Null {})),
            },
            None => is_some_error(r, "unusable as hash key: "@ + obj_type(*index)),
        },
{
    match index.as_hashable() {
        Some(key) => match hash.get(&key) {
            Some(v) => Some(v.duplicate()),
            None => Some(Object::Null(Null {})),
        },
        None => {
            let t = object_type_name(index);
            error2("unusable as hash key: ", t.as_str())
        },
    }
}

/// `left[index]`: indexing an array by an integer or a hash by a key.
pub fn eval_index_expression(left: &Object, index: &Object) -> (r: Option<Object>)
    ensures
        match (*left, *index) {
            (Object::Array(a), Object::Integer(i)) => if 0 <= i.value < a.elements@.len() {
                r matches Some(v) && same_obj(v, a.elements@[i.value as int])
            } else {
                r == Some(Object::Null(Null {}))
            },
            (Object::Hash(h), _) => match spec_hash_key(*index) {
                Some(k) => match find_key(h.pairs@, k) {
                    Some(j) => r matches Some(v) && same_obj(v, h.pairs@[j].value),
                    None => r == Some(Object::Null(Null {})),
                },
                None => is_some_error(r, "unusable as hash key: "@ + obj_type(*index)),
            },
            _ => is_some_error(r, "index operator not supported: "@ + obj_type(*left)),
        },
{
    match (left, index) {
        (Object::Array(a), Object::Integer(i)) => eval_array_index_expression(&a.elements, i.value),
        (Object::Hash(h), _) => eval_hash_index_expression(h, index),
        _ => {
            let t = object_type_name(left);
            error2("index operator not supported: ", t.as_str())
        },
    }
}

/// The value inside a returned value; any other value as it is.
pub fn unwrap_return_value(obj: Option<Object>) -> (r: Option<Object>)
    ensures
        match obj {
            Some(Object::ReturnValue(rv)) => r == Some(*rv.value),
            _ => r == obj,
        },
{
    match obj {
        Some(Object::ReturnValue(rv)) => Some(*rv.value),
        _ => obj,
    }
}

// ---------------------------------------------------------------------------
// Scopes of function calls.

/// `e` is the scope of a call of `func` with `args`: enclosed by the
/// function's scope, binding only the parameters, each parameter bound to
/// (a copy of) the argument in its position, a later parameter of the same
/// name winning.
pub open spec fn extended_env(func: Function, args: Seq<Object>, e: Environment) -> bool {
    &&& e.wf()
    &&& e.outer == Some(func.env)
    &&& forall|i: int|
        0 <= i < func.parameters@.len() && (forall|k: int|
            i < k < func.parameters@.len() ==> #[trigger] func.parameters@[k].value@
                != func.parameters@[i].value@) ==> (crate::environment::find_binding(
            e.store@,
            #[trigger] func.parameters@[i].value@,
        ) matches Some(j) && e.store@[j].1 matches Some(x) && same_obj(x, args[i]))
    &&& forall|n: Seq<char>|
        #[trigger] crate::environment::find_binding(e.store@, n) is Some ==> exists|i: int|
            0 <= i < func.parameters@.len() && func.parameters@[i].value@ == n
}

/// The scope of a call of `func`: enclosed by the function's scope, each
/// parameter bound to the argument in its position (a later parameter of
/// the same name wins).
pub fn extend_function_env(func: &Function, args: &Vec<Object>) -> (e: Environment)
    requires
        args@.len() >= func.parameters@.len(),
    ensures
        extended_env(*func, args@, e),
{
    let mut env = new_enclosed_environment(Some(func.env));
    let ghost ps = func.parameters@;
    let mut i: usize = 0;
    while i < func.parameters.len()
        invariant
            ps == func.parameters@,
            args@.len() >= ps.len(),
            i <= ps.len(),
            env.wf(),
            env.outer == Some(func.env),
            forall|a: int|
                0 <= a < i && (forall|k: int| a < k < i ==> #[trigger] ps[k].value@ != ps[a].value@)
                    ==> (crate::environment::find_binding(env.store@, #[trigger] ps[a].value@) matches Some(j)
                    && env.store@[j].1 matches Some(x) && same_obj(x, args@[a])),
            forall|n: Seq<char>|
                #[trigger] crate::environment::find_binding(env.store@, n) is Some ==> exists|a: int|
                    0 <= a < i && ps[a].value@ == n,
        decreases ps.len() - i,
    {
        let ghost before = env;
        let name = func.parameters[i].value.clone();
        let v = args[i].duplicate();
        env.set(name, Some(v));
        proof {
            assert forall|a: int|
                0 <= a < i + 1 && (forall|k: int| a < k < i + 1 ==> #[trigger] ps[k].value@ != ps[a].value@)
                    implies (crate::environment::find_binding(env.store@, #[trigger] ps[a].value@) matches Some(j)
                    && env.store@[j].1 matches Some(x) && same_obj(x, args@[a])) by {
                if a < i {
                    assert(ps[i as int].value@ != ps[a].value@);
                    assert(forall|k: int| a < k < i ==> #[trigger] ps[k].value@ != ps[a].value@);
                }
            }
            assert forall|n: Seq<char>|
                #[trigger] crate::environment::find_binding(env.store@, n) is Some implies exists|a: int|
                    0 <= a < i + 1 && ps[a].value@ == n by {
                if n == ps[i as int].value@ {
                    assert(0 <= i < i + 1 && ps[i as int].value@ == n);
                } else {
                    assert(crate::environment::find_binding(before.store@, n) is Some);
                }
            }
        }
        i = i + 1;
    }
    env
}


// ---------------------------------------------------------------------------
// Evaluation.

/// What every evaluation step keeps: the scopes stay well formed and are
/// only added to, and printed lines are only appended.
pub open spec fn eval_frame(
    old_store: EnvStore,
    new_store: EnvStore,
    old_out: Seq<String>,
    new_out: Seq<String>,
) -> bool {
    &&& new_store.wf()
    &&& old_store.envs@.len() <= new_store.envs@.len()
    &&& old_out.len() <= new_out.len()
    &&& forall|i: int| 0 <= i < old_out.len() ==> #[trigger] new_out[i] == old_out[i]
}

/// The value of an identifier: its binding in scope `env` or the scopes
/// around it, else the builtin of that name, else an error.
pub open spec fn identifier_result(envs: Seq<Environment>, env: int, name: Seq<char>, r: Option<Object>) -> bool {
    match chain_lookup(envs, env, name) {
        Some(v) => r matches Some(x) && same_obj(x, v),
        None => match spec_builtin_named(name) {
            Some(f) => r == Some(Object::Builtin(Builtin { func: f })),
            None => is_some_error(r, "identifier not found: "@ + name),
        },
    }
}

/// The value of an expression that needs no other evaluation.
pub open spec fn leaf_result(e: Expression, envs: Seq<Environment>, env: int, r: Option<Object>) -> bool {
    match e {
        Expression::IntegerLiteral(i) => r == int_obj(i.value),
        Expression::BooleanLiteral(b) => r == bool_obj(b.value),
        Expression::StringLiteral(s) => r matches Some(Object::StringObj(so)) && so.value@ == s.value@,
        Expression::FunctionLiteral(f) => r matches Some(Object::Function(g)) && g.parameters@
            == f.parameters@ && same_block(g.body, f.body) && g.env == env,
        Expression::Identifier(id) => identifier_result(envs, env, id.value@, r),
        _ => true,
    }
}

// ---------------------------------------------------------------------------
// The meaning of evaluation, as a relation between the scopes and printed
// lines before and after and the value given.  `fuel` bounds how deeply
// calls may still nest.

/// The value inside a returned value; any other value as it is.
pub open spec fn unwrap_spec(o: Option<Object>) -> Option<Object> {
    match o {
        Some(Object::ReturnValue(rv)) => Some(*rv.value),
        _ => o,
    }
}

/// Whether a statement's value ends the block it stands in.
pub open spec fn stops(o: Option<Object>) -> bool {
    o matches Some(Object::ReturnValue(_)) || o matches Some(Object::ErrorObj(_))
}

/// `o1` is `o0` followed by the printed forms of `args`, one line each.
pub open spec fn puts_appended(o0: Seq<String>, o1: Seq<String>, args: Seq<Object>) -> bool {
    &&& o1.len() == o0.len() + args.len()
    &&& forall|i: int| 0 <= i < o0.len() ==> #[trigger] o1[i] == o0[i]
    &&& forall|i: int| 0 <= i < args.len() ==> (#[trigger] o1[o0.len() + i])@ == obj_inspect(args[i])
}

/// The result of indexing `l` by `i`.
pub open spec fn index_result(l: Object, i: Object, r: Option<Object>) -> bool {
    match (l, i) {
        (Object::Array(a), Object::Integer(n)) => if 0 <= n.value < a.elements@.len() {
            r matches Some(v) && same_obj(v, a.elements@[n.value as int])
        } else {
            r == Some(Object::Null(Null {}))
        },
        (Object::Hash(h), _) => match spec_hash_key(i) {
            Some(k) => match find_key(h.pairs@, k) {
                Some(j) => r matches Some(v) && same_obj(v, h.pairs@[j].value),
                None => r == Some(Object::Null(Null {})),
            },
            None => is_some_error(r, "unusable as hash key: "@ + obj_type(i)),
        },
        _ => is_some_error(r, "index operator not supported: "@ + obj_type(l)),
    }
}

/// Calling `func` with `args` in scopes `s0` can end in scopes `s1` with
/// printed lines `o1`, giving `r`.
pub open spec fn apply_rel(
    fuel: nat,
    func: Option<Object>,
    args: Seq<Object>,
    s0: Seq<Environment>,
    o0: Seq<String>,
    s1: Seq<Environment>,
    o1: Seq<String>,
    r: Option<Object>,
) -> bool
    decreases fuel, 0nat,
{
    match func {
        Some(Object::Function(f)) => if fuel == 0 {
            is_some_error(r, "maximum call depth exceeded"@) && s1 == s0 && o1 == o0
        } else if args.len() < f.parameters@.len() {
            is_some_error(r, "wrong number of arguments. got="@ + nat_str(args.len()) + ", want="@ + nat_str(f.parameters@.len()))
                && s1 == s0 && o1 == o0
        } else if f.env >= s0.len() {
            is_some_error(r, "not a function: "@ + "FUNCTION"@) && s1 == s0 && o1 == o0
        } else {
            exists|e: Environment, rb: Option<Object>|
                #![trigger block_rel((fuel - 1) as nat, f.body.statements@, s0.push(e), s0.len() as int, o0, s1, o1, rb)]
                #![trigger step((e, rb))]
                extended_env(f, args, e) && block_rel((fuel - 1) as nat, f.body.statements@, s0.push(e), s0.len() as int, o0, s1, o1, rb)
                    && r == unwrap_spec(rb)
        },
        Some(Object::Builtin(b)) => s1 == s0 && (r matches Some(v) && crate::builtins::builtin_result(b.func, args, v, false)) && if b.func
            == crate::object::BuiltinFunction::Puts {
            puts_appended(o0, o1, args)
        } else {
            o1 == o0
        },
        _ => is_some_error(r, "not a function: \""@ + opt_type(func) + "\""@) && s1 == s0 && o1 == o0,
    }
}

/// Evaluating expression `e` in scope `env` of scopes `s0` can end in
/// scopes `s1` with printed lines `o1`, giving `r`.
pub open spec fn eval_rel(
    fuel: nat,
    e: Expression,
    s0: Seq<Environment>,
    env: int,
    o0: Seq<String>,
    s1: Seq<Environment>,
    o1: Seq<String>,
    r: Option<Object>,
) -> bool
    decreases fuel, expr_size(e),
{
    match e {
        Expression::PrefixExpression(p) => exists|v: Option<Object>|
            #![trigger eval_rel(fuel, *p.right, s0, env, o0, s1, o1, v)]
            #![trigger step(v)]
            eval_rel(fuel, *p.right, s0, env, o0, s1, o1, v) && if spec_is_error(v) {
                r == v
            } else {
                prefix_result(p.operator@, v, r)
            },
        Expression::InfixExpression(i) => exists|sm: Seq<Environment>, om: Seq<String>, l: Option<Object>|
            #![trigger eval_rel(fuel, *i.left, s0, env, o0, sm, om, l)]
            #![trigger step((sm, om, l))]
            eval_rel(fuel, *i.left, s0, env, o0, sm, om, l) && if spec_is_error(l) {
                r == l && s1 == sm && o1 == om
            } else {
                exists|rv: Option<Object>|
                    #![trigger eval_rel(fuel, *i.right, sm, env, om, s1, o1, rv)]
                    #![trigger step(rv)]
                    eval_rel(fuel, *i.right, sm, env, om, s1, o1, rv) && if spec_is_error(rv) {
                        r == rv
                    } else {
                        infix_result(i.operator@, l, rv, r)
                    }
            },
        Expression::IfExpression(ie) => {
            proof {
                assert(block_size(ie.consequence) == 1 + stmts_size(ie.consequence.statements@));
                if let Some(alt) = ie.alternative {
                    assert(block_size(alt) == 1 + stmts_size(alt.statements@));
                }
            }
            exists|sm: Seq<Environment>, om: Seq<String>, c: Option<Object>|
            #![trigger eval_rel(fuel, *ie.condition, s0, env, o0, sm, om, c)]
            #![trigger step((sm, om, c))]
            step((sm, om, c)) && eval_rel(fuel, *ie.condition, s0, env, o0, sm, om, c) && if spec_is_error(c) {
                r == c && s1 == sm && o1 == om
            } else if spec_is_truthy(c) {
                block_rel(fuel, ie.consequence.statements@, sm, env, om, s1, o1, r)
            } else {
                match ie.alternative {
                    Some(alt) => block_rel(fuel, alt.statements@, sm, env, om, s1, o1, r),
                    None => r == Some(Object::Null(Null {})) && s1 == sm && o1 == om,
                }
            }
        },
        Expression::CallExpression(c) => exists|sm: Seq<Environment>, om: Seq<String>, f: Option<Object>|
            #![trigger eval_rel(fuel, *c.function, s0, env, o0, sm, om, f)]
            #![trigger step((sm, om, f))]
            eval_rel(fuel, *c.function, s0, env, o0, sm, om, f) && if spec_is_error(f) {
                r == f && s1 == sm && o1 == om
            } else {
                exists|sa: Seq<Environment>, oa: Seq<String>, args: Result<Seq<Object>, Object>|
                    #![trigger exprs_rel(fuel, c.arguments@, sm, env, om, sa, oa, args)]
                    #![trigger step((sa, oa, args))]
                    exprs_rel(fuel, c.arguments@, sm, env, om, sa, oa, args) && match args {
                        Err(er) => r == Some(er) && s1 == sa && o1 == oa,
                        Ok(vs) => apply_rel(fuel, f, vs, sa, oa, s1, o1, r),
                    }
            },
        Expression::ArrayLiteral(a) => exists|args: Result<Seq<Object>, Object>|
            #![trigger exprs_rel(fuel, a.elements@, s0, env, o0, s1, o1, args)]
            #![trigger step(args)]
            exprs_rel(fuel, a.elements@, s0, env, o0, s1, o1, args) && match args {
                Err(er) => r == Some(er),
                Ok(vs) => r matches Some(Object::Array(arr)) && arr.elements@ == vs,
            },
        Expression::IndexExpression(ix) => exists|sm: Seq<Environment>, om: Seq<String>, l: Option<Object>|
            #![trigger eval_rel(fuel, *ix.left, s0, env, o0, sm, om, l)]
            #![trigger step((sm, om, l))]
            eval_rel(fuel, *ix.left, s0, env, o0, sm, om, l) && if spec_is_error(l) {
                r == l && s1 == sm && o1 == om
            } else {
                match l {
                    None => r is None && s1 == sm && o1 == om,
                    Some(lv) => exists|iv: Option<Object>|
                        #![trigger eval_rel(fuel, *ix.index, sm, env, om, s1, o1, iv)]
                        #![trigger step(iv)]
                        eval_rel(fuel, *ix.index, sm, env, om, s1, o1, iv) && if spec_is_error(iv) {
                            r == iv
                        } else {
                            match iv {
                                None => r is None,
                                Some(ivv) => index_result(lv, ivv, r),
                            }
                        },
                }
            },
        Expression::HashLiteral(h) => exists|res: Result<Seq<HashPair>, Option<Object>>|
            #![trigger hash_rel(fuel, h.pairs@, s0, env, o0, s1, o1, res)]
            #![trigger step(res)]
            hash_rel(fuel, h.pairs@, s0, env, o0, s1, o1, res) && match res {
                Err(x) => r == x,
                Ok(pairs) => r matches Some(Object::Hash(hh)) && hh.pairs@ == pairs,
            },
        _ => s1 == s0 && o1 == o0 && leaf_result(e, s0, env, r),
    }
}

/// Evaluating expressions in order can end in `s1`, `o1`, giving their
/// values (those that give one), or the first error.
pub open spec fn exprs_rel(
    fuel: nat,
    es: Seq<Expression>,
    s0: Seq<Environment>,
    env: int,
    o0: Seq<String>,
    s1: Seq<Environment>,
    o1: Seq<String>,
    res: Result<Seq<Object>, Object>,
) -> bool
    decreases fuel, exprs_size(es),
{
    if es.len() == 0 {
        s1 == s0 && o1 == o0 && res == Ok::<Seq<Object>, Object>(Seq::empty())
    } else {
        exists|sm: Seq<Environment>, om: Seq<String>, rm: Result<Seq<Object>, Object>|
            #![trigger exprs_rel(fuel, es.drop_last(), s0, env, o0, sm, om, rm)]
            #![trigger step((sm, om, rm))]
            exprs_rel(fuel, es.drop_last(), s0, env, o0, sm, om, rm) && match rm {
                Err(x) => res == Err::<Seq<Object>, Object>(x) && s1 == sm && o1 == om,
                Ok(vs) => exists|v: Option<Object>|
                    #![trigger eval_rel(fuel, es.last(), sm, env, om, s1, o1, v)]
                    #![trigger step(v)]
                    eval_rel(fuel, es.last(), sm, env, om, s1, o1, v) && match v {
                        Some(Object::ErrorObj(x)) => res == Err::<Seq<Object>, Object>(Object::ErrorObj(x)),
                        Some(x) => res == Ok::<Seq<Object>, Object>(vs.push(x)),
                        None => res == Ok::<Seq<Object>, Object>(vs),
                    },
            }
    }
}

/// Evaluating the entries of a hash literal in order can end in `s1`,
/// `o1`, giving the entries, or what ended the evaluation early.
pub open spec fn hash_rel(
    fuel: nat,
    ps: Seq<(Expression, Expression)>,
    s0: Seq<Environment>,
    env: int,
    o0: Seq<String>,
    s1: Seq<Environment>,
    o1: Seq<String>,
    res: Result<Seq<HashPair>, Option<Object>>,
) -> bool
    decreases fuel, pairs_size(ps),
{
    if ps.len() == 0 {
        s1 == s0 && o1 == o0 && res == Ok::<Seq<HashPair>, Option<Object>>(Seq::empty())
    } else {
        exists|sm: Seq<Environment>, om: Seq<String>, rm: Result<Seq<HashPair>, Option<Object>>|
            #![trigger hash_rel(fuel, ps.drop_last(), s0, env, o0, sm, om, rm)]
            #![trigger step((sm, om, rm))]
            hash_rel(fuel, ps.drop_last(), s0, env, o0, sm, om, rm) && match rm {
                Err(x) => res == Err::<Seq<HashPair>, Option<Object>>(x) && s1 == sm && o1 == om,
                Ok(pairs) => exists|sk: Seq<Environment>, ok: Seq<String>, k: Option<Object>|
                    #![trigger eval_rel(fuel, ps.last().0, sm, env, om, sk, ok, k)]
                    #![trigger step((sk, ok, k))]
                    eval_rel(fuel, ps.last().0, sm, env, om, sk, ok, k) && if spec_is_error(k) {
                        res == Err::<Seq<HashPair>, Option<Object>>(k) && s1 == sk && o1 == ok
                    } else {
                        match k {
                            None => res == Err::<Seq<HashPair>, Option<Object>>(None) && s1 == sk && o1 == ok,
                            Some(kv) => match spec_hash_key(kv) {
                                None => s1 == sk && o1 == ok && (res matches Err(x) && is_some_error(
                                    x,
                                    "unusable as hash key: "@ + obj_type(kv),
                                )),
                                Some(hk) => exists|v: Option<Object>|
                                    #![trigger eval_rel(fuel, ps.last().1, sk, env, ok, s1, o1, v)]
                                    #![trigger step(v)]
                                    eval_rel(fuel, ps.last().1, sk, env, ok, s1, o1, v) && if spec_is_error(v) {
                                        res == Err::<Seq<HashPair>, Option<Object>>(v)
                                    } else {
                                        match v {
                                            None => res == Err::<Seq<HashPair>, Option<Object>>(None),
                                            Some(vv) => res == Ok::<Seq<HashPair>, Option<Object>>(
                                                crate::object::hash_inserted(pairs, hk, vv),
                                            ),
                                        }
                                    },
                            },
                        }
                    },
            }
    }
}

/// Evaluating one statement can end in `s1`, `o1`, giving `r`.
pub open spec fn stmt_rel(
    fuel: nat,
    st: Statement,
    s0: Seq<Environment>,
    env: int,
    o0: Seq<String>,
    s1: Seq<Environment>,
    o1: Seq<String>,
    r: Option<Object>,
) -> bool
    decreases fuel, stmt_size(st),
{
    match st {
        Statement::ExpressionStatement(es) => eval_rel(fuel, es.expression, s0, env, o0, s1, o1, r),
        Statement::BlockStatement(b) => block_rel(fuel, b.statements@, s0, env, o0, s1, o1, r),
        Statement::ReturnStatement(rs) => exists|v: Option<Object>|
            #![trigger eval_rel(fuel, rs.return_value, s0, env, o0, s1, o1, v)]
            #![trigger step(v)]
            eval_rel(fuel, rs.return_value, s0, env, o0, s1, o1, v) && if spec_is_error(v) {
                r == v
            } else {
                match v {
                    Some(x) => r == Some(Object::ReturnValue(ReturnValue { value: Box::new(x) })),
                    None => r is None,
                }
            },
        Statement::LetStatement(ls) => exists|sm: Seq<Environment>, v: Option<Object>|
            #![trigger eval_rel(fuel, ls.value, s0, env, o0, sm, o1, v)]
            #![trigger step((sm, v))]
            eval_rel(fuel, ls.value, s0, env, o0, sm, o1, v) && if spec_is_error(v) {
                r == v && s1 == sm
            } else {
                crate::environment::set_rel(sm, s1, env, ls.name.value@, v) && match v {
                    None => r is None,
                    Some(x) => r matches Some(y) && same_obj(y, x),
                }
            },
    }
}

/// Evaluating statements in order, stopping after a returned value or an
/// error, can end in `s1`, `o1`, giving `r`; `stopped` tells whether a
/// statement stopped the evaluation.
pub open spec fn stmts_rel(
    fuel: nat,
    ss: Seq<Statement>,
    s0: Seq<Environment>,
    env: int,
    o0: Seq<String>,
    s1: Seq<Environment>,
    o1: Seq<String>,
    r: Option<Object>,
    stopped: bool,
) -> bool
    decreases fuel, stmts_size(ss),
{
    if ss.len() == 0 {
        s1 == s0 && o1 == o0 && r is None && !stopped
    } else {
        exists|sm: Seq<Environment>, om: Seq<String>, rm: Option<Object>, stm: bool|
            #![trigger stmts_rel(fuel, ss.drop_last(), s0, env, o0, sm, om, rm, stm)]
            #![trigger step((sm, om, rm, stm))]
            stmts_rel(fuel, ss.drop_last(), s0, env, o0, sm, om, rm, stm) && if stm {
                s1 == sm && o1 == om && r == rm && stopped
            } else {
                stmt_rel(fuel, ss.last(), sm, env, om, s1, o1, r) && stopped == stops(r)
            }
    }
}

/// Evaluating a block's statements can end in `s1`, `o1`, giving `r`.
pub open spec fn block_rel(
    fuel: nat,
    ss: Seq<Statement>,
    s0: Seq<Environment>,
    env: int,
    o0: Seq<String>,
    s1: Seq<Environment>,
    o1: Seq<String>,
    r: Option<Object>,
) -> bool
    decreases fuel, stmts_size(ss) + 1,
{
    exists|stopped: bool|
        #![trigger stmts_rel(fuel, ss, s0, env, o0, s1, o1, r, stopped)]
        #![trigger step(stopped)]
        stmts_rel(fuel, ss, s0, env, o0, s1, o1, r, stopped)
}

/// The value of an identifier in scope `env`.
pub fn eval_identifier(node: &Identifier, store: &EnvStore, env: usize) -> (r: Option<Object>)
    requires
        store.wf(),
    ensures
        identifier_result(store.envs@, env as int, node.value@, r),
{
    match store.get(env, node.value.as_str()) {
        Some(v) => Some(v),
        None => match get_builtin(node.value.as_str()) {
            Some(b) => Some(b),
            None => error2("identifier not found: ", node.value.as_str()),
        },
    }
}

/// The values of an evaluation of expressions, as a sequence.
pub open spec fn res_view(r: Result<Vec<Object>, Object>) -> Result<Seq<Object>, Object> {
    match r {
        Ok(v) => Ok(v@),
        Err(e) => Err(e),
    }
}

/// Once a prefix of the expressions ended in an error, so do all of them.
proof fn lemma_exprs_err_extends(
    fuel: nat,
    es: Seq<Expression>,
    k: int,
    s0: Seq<Environment>,
    env: int,
    o0: Seq<String>,
    s1: Seq<Environment>,
    o1: Seq<String>,
    x: Object,
)
    requires
        0 <= k <= es.len(),
        exprs_rel(fuel, es.take(k), s0, env, o0, s1, o1, Err(x)),
    ensures
        exprs_rel(fuel, es, s0, env, o0, s1, o1, Err(x)),
    decreases es.len() - k,
{
    if k < es.len() {
        let t = es.take(k + 1);
        assert(t.drop_last() =~= es.take(k));
        assert(exprs_rel(fuel, t.drop_last(), s0, env, o0, s1, o1, Err(x)));
        assert(step((s1, o1, Err::<Seq<Object>, Object>(x))));
        lemma_exprs_err_extends(fuel, es, k + 1, s0, env, o0, s1, o1, x);
    } else {
        assert(es.take(k) =~= es);
    }
}

/// Once a prefix of the entries ended the evaluation early, so do all of them.
proof fn lemma_hash_err_extends(
    fuel: nat,
    ps: Seq<(Expression, Expression)>,
    k: int,
    s0: Seq<Environment>,
    env: int,
    o0: Seq<String>,
    s1: Seq<Environment>,
    o1: Seq<String>,
    x: Option<Object>,
)
    requires
        0 <= k <= ps.len(),
        hash_rel(fuel, ps.take(k), s0, env, o0, s1, o1, Err(x)),
    ensures
        hash_rel(fuel, ps, s0, env, o0, s1, o1, Err(x)),
    decreases ps.len() - k,
{
    if k < ps.len() {
        let t = ps.take(k + 1);
        assert(t.drop_last() =~= ps.take(k));
        assert(hash_rel(fuel, t.drop_last(), s0, env, o0, s1, o1, Err(x)));
        assert(step((s1, o1, Err::<Seq<HashPair>, Option<Object>>(x))));
        lemma_hash_err_extends(fuel, ps, k + 1, s0, env, o0, s1, o1, x);
    } else {
        assert(ps.take(k) =~= ps);
    }
}

/// Once a prefix of the statements stopped, so do all of them.
proof fn lemma_stmts_stopped_extends(
    fuel: nat,
    ss: Seq<Statement>,
    k: int,
    s0: Seq<Environment>,
    env: int,
    o0: Seq<String>,
    s1: Seq<Environment>,
    o1: Seq<String>,
    r: Option<Object>,
)
    requires
        0 <= k <= ss.len(),
        stmts_rel(fuel, ss.take(k), s0, env, o0, s1, o1, r, true),
    ensures
        stmts_rel(fuel, ss, s0, env, o0, s1, o1, r, true),
    decreases ss.len() - k,
{
    if k < ss.len() {
        let t = ss.take(k + 1);
        assert(t.drop_last() =~= ss.take(k));
        assert(stmts_rel(fuel, t.drop_last(), s0, env, o0, s1, o1, r, true));
        assert(step((s1, o1, r, true)));
        lemma_stmts_stopped_extends(fuel, ss, k + 1, s0, env, o0, s1, o1, r);
    } else {
        assert(ss.take(k) =~= ss);
    }
}

/// Evaluates an expression in scope `env`.  `fuel` bounds how deeply
/// function calls may still nest.
pub fn eval_expression(
    e: &Expression,
    store: &mut EnvStore,
    env: usize,
    output: &mut Vec<String>,
    fuel: u64,
) -> (r: Option<Object>)
    requires
        old(store).wf(),
        env < old(store).envs@.len(),
    ensures
        eval_frame(*old(store), *final(store), old(output)@, final(output)@),
        eval_rel(fuel as nat, *e, old(store).envs@, env as int, old(output)@, final(store).envs@, final(output)@, r),
    decreases fuel, expr_size(*e),
{
    match e {
        Expression::IntegerLiteral(i) => Some(Object::Integer(Integer { value: i.value })),
        Expression::BooleanLiteral(b) => Some(native_bool_to_boolean_object(b.value)),
        Expression::StringLiteral(s) => Some(Object::StringObj(StringObj { value: s.value.clone() })),
        Expression::Identifier(id) => eval_identifier(id, store, env),
        Expression::FunctionLiteral(f) => Some(
            Object::Function(
                Function {
                    parameters: duplicate_identifiers(&f.parameters),
                    body: f.body.duplicate(),
                    env,
                },
            ),
        ),
        Expression::PrefixExpression(p) => {
            let right = eval_expression(&p.right, store, env, output, fuel);
            assert(step(right));
            if is_error(&right) {
                return right;
            }
            eval_prefix_expression(p.operator.as_str(), &right)
        },
        Expression::InfixExpression(i) => {
            let left = eval_expression(&i.left, store, env, output, fuel);
            if is_error(&left) {
                assert(step((store.envs@, output@, left)));
                return left;
            }
            let ghost sm = store.envs@;
            let ghost om = output@;
            let right = eval_expression(&i.right, store, env, output, fuel);
            assert(step((sm, om, left)));
            assert(step(right));
            if is_error(&right) {
                return right;
            }
            eval_infix_expression(i.operator.as_str(), &left, &right)
        },
        Expression::IfExpression(ie) => eval_if_expression(ie, store, env, output, fuel),
        Expression::CallExpression(c) => {
            let function = eval_expression(&c.function, store, env, output, fuel);
            if is_error(&function) {
                assert(step((store.envs@, output@, function)));
                return function;
            }
            let ghost sm = store.envs@;
            let ghost om = output@;
            let args = eval_expressions(&c.arguments, store, env, output, fuel);
            let ghost sa = store.envs@;
            let ghost oa = output@;
            assert(step((sm, om, function)));
            assert(step((sa, oa, res_view(args))));
            match args {
                Err(err) => Some(err),
                Ok(args) => apply_function(function, args, store, output, fuel),
            }
        },
        Expression::ArrayLiteral(a) => {
            let elements = eval_expressions(&a.elements, store, env, output, fuel);
            assert(step(res_view(elements)));
            match elements {
                Err(err) => Some(err),
                Ok(elements) => Some(Object::Array(Array { elements })),
            }
        },
        Expression::IndexExpression(ix) => {
            let left = eval_expression(&ix.left, store, env, output, fuel);
            let ghost sm = store.envs@;
            let ghost om = output@;
            assert(step((sm, om, left)));
            if is_error(&left) {
                return left;
            }
            match left {
                None => None,
                Some(l) => {
                    let index = eval_expression(&ix.index, store, env, output, fuel);
                    assert(step(index));
                    if is_error(&index) {
                        return index;
                    }
                    match index {
                        None => None,
                        Some(i) => eval_index_expression(&l, &i),
                    }
                },
            }
        },
        Expression::HashLiteral(h) => eval_hash_literal(h, store, env, output, fuel),
    }
}

/// Evaluates expressions in order, stopping at the first error, which it
/// gives back.  Expressions that give no value contribute nothing.
pub fn eval_expressions(
    exps: &Vec<Expression>,
    store: &mut EnvStore,
    env: usize,
    output: &mut Vec<String>,
    fuel: u64,
) -> (r: Result<Vec<Object>, Object>)
    requires
        old(store).wf(),
        env < old(store).envs@.len(),
    ensures
        eval_frame(*old(store), *final(store), old(output)@, final(output)@),
        exprs_rel(fuel as nat, exps@, old(store).envs@, env as int, old(output)@, final(store).envs@, final(output)@, res_view(r)),
    decreases fuel, exprs_size(exps@),
{
    let mut result: Vec<Object> = Vec::new();
    let mut i: usize = 0;
    let ghost s0 = store.envs@;
    let ghost o0 = output@;
    assert(exps@.take(0) =~= Seq::<Expression>::empty());
    while i < exps.len()
        invariant
            i <= exps@.len(),
            eval_frame(*old(store), *store, old(output)@, output@),
            env < old(store).envs@.len(),
            old(store).wf(),
            s0 == old(store).envs@,
            o0 == old(output)@,
            exprs_rel(fuel as nat, exps@.take(i as int), s0, env as int, o0, store.envs@, output@, Ok(result@)),
        decreases exps@.len() - i,
    {
        proof {
            lemma_exprs_size(exps@, i as int);
        }
        let ghost sm = store.envs@;
        let ghost om = output@;
        let ghost rm = result@;
        let evaluated = eval_expression(&exps[i], store, env, output, fuel);
        assert(exps@.take(i + 1).drop_last() =~= exps@.take(i as int));
        assert(exps@.take(i + 1).last() == exps@[i as int]);
        assert(step((sm, om, Ok::<Seq<Object>, Object>(rm))));
        assert(step(evaluated));
        match evaluated {
            Some(Object::ErrorObj(e)) => {
                proof {
                    assert(exprs_rel(fuel as nat, exps@.take(i + 1), s0, env as int, o0, store.envs@, output@, Err(Object::ErrorObj(e))));
                    lemma_exprs_err_extends(fuel as nat, exps@, i + 1, s0, env as int, o0, store.envs@, output@, Object::ErrorObj(e));
                }
                return Err(Object::ErrorObj(e));
            },
            Some(v) => {
                result.push(v);
                assert(exprs_rel(fuel as nat, exps@.take(i + 1), s0, env as int, o0, store.envs@, output@, Ok(result@)));
            },
            None => {
                assert(exprs_rel(fuel as nat, exps@.take(i + 1), s0, env as int, o0, store.envs@, output@, Ok(result@)));
            },
        }
        i = i + 1;
    }
    assert(exps@.take(i as int) =~= exps@);
    Ok(result)
}

/// Calls a function value with the given arguments: a function runs its
/// body in a new scope enclosed by its own; a builtin is applied.
pub fn apply_function(
    func: Option<Object>,
    args: Vec<Object>,
    store: &mut EnvStore,
    output: &mut Vec<String>,
    fuel: u64,
) -> (r: Option<Object>)
    requires
        old(store).wf(),
    ensures
        eval_frame(*old(store), *final(store), old(output)@, final(output)@),
        apply_rel(fuel as nat, func, args@, old(store).envs@, old(output)@, final(store).envs@, final(output)@, r),
    decreases fuel, 0nat,
{
    match func {
        Some(Object::Function(f)) => {
            if fuel == 0 {
                return new_error(String::from_str("maximum call depth exceeded"));
            }
            if args.len() < f.parameters.len() {
                let mut m = String::from_str("wrong number of arguments. got=");
                m.append(usize_to_string(args.len()).as_str());
                m.append(", want=");
                m.append(usize_to_string(f.parameters.len()).as_str());
                return new_error(m);
            }
            if f.env >= store.envs.len() {
                return error2("not a function: ", "FUNCTION");
            }
            let extended = extend_function_env(&f, &args);
            let ghost e = extended;
            let idx = store.push(extended);
            let evaluated = eval_block_statement(&f.body, store, idx, output, fuel - 1);
            assert(step((e, evaluated)));
            unwrap_return_value(evaluated)
        },
        Some(Object::Builtin(b)) => {
            let v = apply_builtin(b.func, &args, output, false);
            Some(v)
        },
        _ => {
            let t = get_type(&func);
            let mut m = String::from_str("not a function: \"");
            m.append(t.as_str());
            m.append("\"");
            new_error(m)
        },
    }
}

/// Evaluates an `if`: the consequence when the condition counts as true,
/// else the alternative, else `null`.
pub fn eval_if_expression(
    ie: &IfExpression,
    store: &mut EnvStore,
    env: usize,
    output: &mut Vec<String>,
    fuel: u64,
) -> (r: Option<Object>)
    requires
        old(store).wf(),
        env < old(store).envs@.len(),
    ensures
        eval_frame(*old(store), *final(store), old(output)@, final(output)@),
        eval_rel(fuel as nat, Expression::IfExpression(*ie), old(store).envs@, env as int, old(output)@, final(store).envs@, final(output)@, r),
    decreases fuel, if_size(*ie),
{
    let condition = eval_expression(&ie.condition, store, env, output, fuel);
    assert(step((store.envs@, output@, condition)));
    if is_error(&condition) {
        return condition;
    }
    if is_truthy(&condition) {
        eval_block_statement(&ie.consequence, store, env, output, fuel)
    } else {
        match &ie.alternative {
            Some(alt) => eval_block_statement(alt, store, env, output, fuel),
            None => Some(Object::Null(Null {})),
        }
    }
}

/// Evaluates a hash literal: each key, then its value, in source order; a
/// later entry for the same key replaces an earlier one.
pub fn eval_hash_literal(
    node: &HashLiteral,
    store: &mut EnvStore,
    env: usize,
    output: &mut Vec<String>,
    fuel: u64,
) -> (r: Option<Object>)
    requires
        old(store).wf(),
        env < old(store).envs@.len(),
    ensures
        eval_frame(*old(store), *final(store), old(output)@, final(output)@),
        eval_rel(fuel as nat, Expression::HashLiteral(*node), old(store).envs@, env as int, old(output)@, final(store).envs@, final(output)@, r),
        r matches Some(Object::Hash(h)) ==> h.wf(),
    decreases fuel, pairs_size(node.pairs@),
{
    let mut hash = crate::object::Hash { pairs: Vec::new() };
    let ghost s0 = store.envs@;
    let ghost o0 = output@;
    let ghost ps = node.pairs@;
    let mut i: usize = 0;
    assert(ps.take(0) =~= Seq::<(Expression, Expression)>::empty());
    while i < node.pairs.len()
        invariant
            i <= node.pairs@.len(),
            ps == node.pairs@,
            hash.wf(),
            eval_frame(*old(store), *store, old(output)@, output@),
            env < old(store).envs@.len(),
            old(store).wf(),
            s0 == old(store).envs@,
            o0 == old(output)@,
            hash_rel(fuel as nat, ps.take(i as int), s0, env as int, o0, store.envs@, output@, Ok(hash.pairs@)),
        decreases node.pairs@.len() - i,
    {
        proof {
            lemma_pairs_size(node.pairs@, i as int);
        }
        let ghost sm = store.envs@;
        let ghost om = output@;
        let ghost pm = hash.pairs@;
        assert(ps.take(i + 1).drop_last() =~= ps.take(i as int));
        assert(ps.take(i + 1).last() == ps[i as int]);
        let key = eval_expression(&node.pairs[i].0, store, env, output, fuel);
        let ghost sk = store.envs@;
        let ghost ok = output@;
        assert(step((sm, om, Ok::<Seq<HashPair>, Option<Object>>(pm))));
        assert(step((sk, ok, key)));
        if is_error(&key) {
            proof {
                assert(hash_rel(fuel as nat, ps.take(i + 1), s0, env as int, o0, sk, ok, Err(key)));
                lemma_hash_err_extends(fuel as nat, ps, i + 1, s0, env as int, o0, sk, ok, key);
                assert(step(Err::<Seq<HashPair>, Option<Object>>(key)));
            }
            return key;
        }
        let k = match &key {
            None => {
                proof {
                    assert(hash_rel(fuel as nat, ps.take(i + 1), s0, env as int, o0, sk, ok, Err(None)));
                    lemma_hash_err_extends(fuel as nat, ps, i + 1, s0, env as int, o0, sk, ok, None);
                    assert(step(Err::<Seq<HashPair>, Option<Object>>(None)));
                }
                return None;
            },
            Some(k) => k,
        };
        let hash_key = match k.as_hashable() {
            None => {
                let t = object_type_name(k);
                let r = error2("unusable as hash key: ", t.as_str());
                proof {
                    assert(hash_rel(fuel as nat, ps.take(i + 1), s0, env as int, o0, sk, ok, Err(r)));
                    lemma_hash_err_extends(fuel as nat, ps, i + 1, s0, env as int, o0, sk, ok, r);
                    assert(step(Err::<Seq<HashPair>, Option<Object>>(r)));
                }
                return r;
            },
            Some(hk) => hk,
        };
        let value = eval_expression(&node.pairs[i].1, store, env, output, fuel);
        assert(step(value));
        if is_error(&value) {
            proof {
                assert(hash_rel(fuel as nat, ps.take(i + 1), s0, env as int, o0, store.envs@, output@, Err(value)));
                lemma_hash_err_extends(fuel as nat, ps, i + 1, s0, env as int, o0, store.envs@, output@, value);
                assert(step(Err::<Seq<HashPair>, Option<Object>>(value)));
            }
            return value;
        }
        match value {
            None => {
                proof {
                    assert(hash_rel(fuel as nat, ps.take(i + 1), s0, env as int, o0, store.envs@, output@, Err(None)));
                    lemma_hash_err_extends(fuel as nat, ps, i + 1, s0, env as int, o0, store.envs@, output@, None);
                    assert(step(Err::<Seq<HashPair>, Option<Object>>(None)));
                }
                return None;
            },
            Some(v) => {
                hash.insert(hash_key, v);
                assert(hash_rel(fuel as nat, ps.take(i + 1), s0, env as int, o0, store.envs@, output@, Ok(hash.pairs@)));
            },
        }
        i = i + 1;
    }
    assert(ps.take(i as int) =~= ps);
    assert(step(Ok::<Seq<HashPair>, Option<Object>>(hash.pairs@)));
    Some(Object::Hash(hash))
}

/// Evaluates one statement.  A `let` binds the name in scope `env` and gives
/// the bound value; a `return` wraps its value to be returned.
pub fn eval_statement(
    stmt: &Statement,
    store: &mut EnvStore,
    env: usize,
    output: &mut Vec<String>,
    fuel: u64,
) -> (r: Option<Object>)
    requires
        old(store).wf(),
        env < old(store).envs@.len(),
    ensures
        eval_frame(*old(store), *final(store), old(output)@, final(output)@),
        stmt_rel(fuel as nat, *stmt, old(store).envs@, env as int, old(output)@, final(store).envs@, final(output)@, r),
    decreases fuel, stmt_size(*stmt),
{
    match stmt {
        Statement::ExpressionStatement(es) => eval_expression(&es.expression, store, env, output, fuel),
        Statement::BlockStatement(b) => eval_block_statement(b, store, env, output, fuel),
        Statement::ReturnStatement(rs) => {
            let val = eval_expression(&rs.return_value, store, env, output, fuel);
            assert(step(val));
            if is_error(&val) {
                return val;
            }
            match val {
                Some(v) => Some(Object::ReturnValue(ReturnValue { value: Box::new(v) })),
                None => None,
            }
        },
        Statement::LetStatement(ls) => {
            let val = eval_expression(&ls.value, store, env, output, fuel);
            let ghost sm = store.envs@;
            assert(step((sm, val)));
            if is_error(&val) {
                return val;
            }
            store.set(env, ls.name.value.clone(), val)
        },
    }
}

/// Evaluates the statements of a block in order, stopping at a returned
/// value or an error, which it gives back as it is.
pub fn eval_block_statement(
    block: &BlockStatement,
    store: &mut EnvStore,
    env: usize,
    output: &mut Vec<String>,
    fuel: u64,
) -> (r: Option<Object>)
    requires
        old(store).wf(),
        env < old(store).envs@.len(),
    ensures
        eval_frame(*old(store), *final(store), old(output)@, final(output)@),
        block_rel(fuel as nat, block.statements@, old(store).envs@, env as int, old(output)@, final(store).envs@, final(output)@, r),
    decreases fuel, block_size(*block),
{
    let mut result: Option<Object> = None;
    let ghost s0 = store.envs@;
    let ghost o0 = output@;
    let ghost ss = block.statements@;
    let mut i: usize = 0;
    assert(ss.take(0) =~= Seq::<Statement>::empty());
    while i < block.statements.len()
        invariant
            i <= block.statements@.len(),
            ss == block.statements@,
            eval_frame(*old(store), *store, old(output)@, output@),
            env < old(store).envs@.len(),
            old(store).wf(),
            s0 == old(store).envs@,
            o0 == old(output)@,
            stmts_rel(fuel as nat, ss.take(i as int), s0, env as int, o0, store.envs@, output@, result, false),
        decreases block.statements@.len() - i,
    {
        proof {
            lemma_stmts_size(block.statements@, i as int);
        }
        let ghost sm = store.envs@;
        let ghost om = output@;
        let ghost rm = result;
        assert(ss.take(i + 1).drop_last() =~= ss.take(i as int));
        assert(ss.take(i + 1).last() == ss[i as int]);
        result = eval_statement(&block.statements[i], store, env, output, fuel);
        assert(step((sm, om, rm, false)));
        assert(stmts_rel(fuel as nat, ss.take(i + 1), s0, env as int, o0, store.envs@, output@, result, stops(result)));
        match &result {
            Some(Object::ReturnValue(_)) | Some(Object::ErrorObj(_)) => {
                proof {
                    lemma_stmts_stopped_extends(fuel as nat, ss, i + 1, s0, env as int, o0, store.envs@, output@, result);
                    assert(step(true));
                }
                return result;
            },
            _ => {},
        }
        i = i + 1;
    }
    assert(ss.take(i as int) =~= ss);
    assert(stmts_rel(fuel as nat, ss, s0, env as int, o0, store.envs@, output@, result, false));
    assert(step(false));
    result
}

/// Evaluating a program can end in `s1`, `o1`, giving `r`: its statements
/// as a block, a returned value unwrapped.
pub open spec fn program_rel(
    fuel: nat,
    p: Program,
    s0: Seq<Environment>,
    env: int,
    o0: Seq<String>,
    s1: Seq<Environment>,
    o1: Seq<String>,
    r: Option<Object>,
) -> bool {
    exists|rb: Option<Object>|
        #![trigger block_rel(fuel, p.statements@, s0, env, o0, s1, o1, rb)]
        #![trigger step(rb)]
        block_rel(fuel, p.statements@, s0, env, o0, s1, o1, rb) && r == unwrap_spec(rb)
}

/// Evaluates a program's statements in order; a returned value ends the
/// program with the value inside it, an error ends it with the error.
pub fn eval_program(
    program: &Program,
    store: &mut EnvStore,
    env: usize,
    output: &mut Vec<String>,
    fuel: u64,
) -> (r: Option<Object>)
    requires
        old(store).wf(),
        env < old(store).envs@.len(),
    ensures
        eval_frame(*old(store), *final(store), old(output)@, final(output)@),
        program_rel(fuel as nat, *program, old(store).envs@, env as int, old(output)@, final(store).envs@, final(output)@, r),
{
    let mut result: Option<Object> = None;
    let ghost s0 = store.envs@;
    let ghost o0 = output@;
    let ghost ss = program.statements@;
    let mut i: usize = 0;
    assert(ss.take(0) =~= Seq::<Statement>::empty());
    while i < program.statements.len()
        invariant
            i <= program.statements@.len(),
            ss == program.statements@,
            eval_frame(*old(store), *store, old(output)@, output@),
            env < old(store).envs@.len(),
            old(store).wf(),
            s0 == old(store).envs@,
            o0 == old(output)@,
            stmts_rel(fuel as nat, ss.take(i as int), s0, env as int, o0, store.envs@, output@, result, false),
        decreases program.statements@.len() - i,
    {
        let ghost sm = store.envs@;
        let ghost om = output@;
        let ghost rm = result;
        assert(ss.take(i + 1).drop_last() =~= ss.take(i as int));
        assert(ss.take(i + 1).last() == ss[i as int]);
        result = eval_statement(&program.statements[i], store, env, output, fuel);
        assert(step((sm, om, rm, false)));
        assert(stmts_rel(fuel as nat, ss.take(i + 1), s0, env as int, o0, store.envs@, output@, result, stops(result)));
        proof {
            if stops(result) {
                lemma_stmts_stopped_extends(fuel as nat, ss, i + 1, s0, env as int, o0, store.envs@, output@, result);
                assert(step(true));
                assert(block_rel(fuel as nat, ss, s0, env as int, o0, store.envs@, output@, result));
                assert(step(result));
            }
        }
        match result {
            Some(Object::ReturnValue(rv)) => {
                return Some(*rv.value);
            },
            Some(Object::ErrorObj(e)) => {
                return Some(Object::ErrorObj(e));
            },
            _ => {},
        }
        i = i + 1;
    }
    assert(ss.take(i as int) =~= ss);
    assert(step(false));
    assert(block_rel(fuel as nat, ss, s0, env as int, o0, store.envs@, output@, result));
    assert(step(result));
    result
}

/// Evaluating a syntax node can end in `s1`, `o1`, giving `r`.
pub open spec fn node_rel(
    fuel: nat,
    node: Node,
    s0: Seq<Environment>,
    env: int,
    o0: Seq<String>,
    s1: Seq<Environment>,
    o1: Seq<String>,
    r: Option<Object>,
) -> bool {
    match node {
        Node::Program(p) => program_rel(fuel, p, s0, env, o0, s1, o1, r),
        Node::Statement(st) => stmt_rel(fuel, st, s0, env, o0, s1, o1, r),
        Node::Expression(e) => eval_rel(fuel, e, s0, env, o0, s1, o1, r),
    }
}

/// Evaluates a syntax node in scope `env` of `store` with calls nested at
/// most `MAX_CALL_DEPTH` deep; what `puts` prints is appended to `output`.
pub fn eval(node: &Node, store: &mut EnvStore, env: usize, output: &mut Vec<String>) -> (r: Option<Object>)
    requires
        old(store).wf(),
        env < old(store).envs@.len(),
    ensures
        eval_frame(*old(store), *final(store), old(output)@, final(output)@),
        node_rel(MAX_CALL_DEPTH as nat, *node, old(store).envs@, env as int, old(output)@, final(store).envs@, final(output)@, r),
{
    match node {
        Node::Program(p) => eval_program(p, store, env, output, MAX_CALL_DEPTH),
        Node::Statement(s) => eval_statement(s, store, env, output, MAX_CALL_DEPTH),
        Node::Expression(e) => eval_expression(e, store, env, output, MAX_CALL_DEPTH),
    }
}

/// Evaluates a syntax node to a value: no value is `null`.
pub fn evaluate(node: &Node, store: &mut EnvStore, env: usize, output: &mut Vec<String>) -> (r: Object)
    requires
        old(store).wf(),
        env < old(store).envs@.len(),
    ensures
        eval_frame(*old(store), *final(store), old(output)@, final(output)@),
        exists|v: Option<Object>|
            #![trigger node_rel(MAX_CALL_DEPTH as nat, *node, old(store).envs@, env as int, old(output)@, final(store).envs@, final(output)@, v)]
            #![trigger step(v)]
            node_rel(MAX_CALL_DEPTH as nat, *node, old(store).envs@, env as int, old(output)@, final(store).envs@, final(output)@, v)
                && r == match v {
                Some(x) => x,
                None => Object::Null(Null {}),
            },
{
    let v = eval(node, store, env, output);
    match v {
        Some(x) => x,
        None => Object::Null(Null {}),
    }
}

} // verus!
