//! The parser: a Pratt parser from tokens to a syntax tree.
use vstd::prelude::*;
use crate::ast::{
    ArrayLiteral, BlockStatement, BooleanLiteral, CallExpression, Expression, ExpressionStatement,
    FunctionLiteral, HashLiteral, Identifier, IfExpression, IndexExpression, InfixExpression,
    IntegerLiteral, LetStatement, PrefixExpression, Program, ReturnStatement, Statement,
    StringLiteral,
};
use crate::lexer::{Lexer, lemma_next_token_progress, spec_next_token};
use crate::text::{parse_decimal, spec_decimal_value, all_digits, has_prefix};
use crate::token::{Token, TokenType};
use crate::step;

verus! {

/// Binding strength of operators, weakest first.
#[derive(PartialEq, Eq, Structural, Clone, Copy, Debug)]
pub enum Precedence {
    LOWEST,
    EQUALS,
    LESSGREATER,
    SUM,
    PRODUCT,
    PREFIX,
    CALL,
    INDEX,
}

/// The rank of a precedence level; higher binds tighter.
pub open spec fn spec_precedence_rank(p: Precedence) -> int {
    match p {
        Precedence::LOWEST => 0,
        Precedence::EQUALS => 1,
        Precedence::LESSGREATER => 2,
        Precedence::SUM => 3,
        Precedence::PRODUCT => 4,
        Precedence::PREFIX => 5,
        Precedence::CALL => 6,
        Precedence::INDEX => 7,
    }
}

impl Precedence {
    /// The rank of this level; higher binds tighter.
    pub fn rank(&self) -> (r: u8)
        ensures
            r == spec_precedence_rank(*self),
    {
        match self {
            Precedence::LOWEST => 0,
            Precedence::EQUALS => 1,
            Precedence::LESSGREATER => 2,
            Precedence::SUM => 3,
            Precedence::PRODUCT => 4,
            Precedence::PREFIX => 5,
            Precedence::CALL => 6,
            Precedence::INDEX => 7,
        }
    }
}

/// The precedence of a token when it stands between two operands.
pub open spec fn spec_get_precedence(t: TokenType) -> Precedence {
    match t {
        TokenType::EQ | TokenType::NOTEQ => Precedence::EQUALS,
        TokenType::LT | TokenType::GT => Precedence::LESSGREATER,
        TokenType::PLUS | TokenType::MINUS => Precedence::SUM,
        TokenType::SLASH | TokenType::ASTERISK => Precedence::PRODUCT,
        TokenType::LPAREN => Precedence::CALL,
        TokenType::LBRACKET => Precedence::INDEX,
        _ => Precedence::LOWEST,
    }
}

/// The precedence of a token when it stands between two operands.
pub fn get_precedence(t: &TokenType) -> (p: Precedence)
    ensures
        p == spec_get_precedence(*t),
{
    match t {
        TokenType::EQ | TokenType::NOTEQ => Precedence::EQUALS,
        TokenType::LT | TokenType::GT => Precedence::LESSGREATER,
        TokenType::PLUS | TokenType::MINUS => Precedence::SUM,
        TokenType::SLASH | TokenType::ASTERISK => Precedence::PRODUCT,
        TokenType::LPAREN => Precedence::CALL,
        TokenType::LBRACKET => Precedence::INDEX,
        _ => Precedence::LOWEST,
    }
}

/// The name of a token kind, as it appears in error messages.
pub open spec fn spec_token_type_name(t: TokenType) -> Seq<char> {
    match t {
        TokenType::ILLEGAL => "ILLEGAL"@,
        TokenType::EOF => "EOF"@,
        TokenType::IDENT => "IDENT"@,
        TokenType::INT => "INT"@,
        TokenType::ASSIGN => "ASSIGN"@,
        TokenType::PLUS => "PLUS"@,
        TokenType::COMMA => "COMMA"@,
        TokenType::SEMICOLON => "SEMICOLON"@,
        TokenType::LPAREN => "LPAREN"@,
        TokenType::RPAREN => "RPAREN"@,
        TokenType::LBRACE => "LBRACE"@,
        TokenType::RBRACE => "RBRACE"@,
        TokenType::FUNCTION => "FUNCTION"@,
        TokenType::LET => "LET"@,
        TokenType::MINUS => "MINUS"@,
        TokenType::BANG => "BANG"@,
        TokenType::ASTERISK => "ASTERISK"@,
        TokenType::SLASH => "SLASH"@,
        TokenType::LT => "LT"@,
        TokenType::GT => "GT"@,
        TokenType::TRUE => "TRUE"@,
        TokenType::FALSE => "FALSE"@,
        TokenType::IF => "IF"@,
        TokenType::ELSE => "ELSE"@,
        TokenType::RETURN => "RETURN"@,
        TokenType::EQ => "EQ"@,
        TokenType::NOTEQ => "NOTEQ"@,
        TokenType::STRING => "STRING"@,
        TokenType::LBRACKET => "LBRACKET"@,
        TokenType::RBRACKET => "RBRACKET"@,
        TokenType::COLON => "COLON"@,
    }
}

/// The name of a token kind, as it appears in error messages.
pub fn token_type_name(t: TokenType) -> (s: &'static str)
    ensures
        s@ == spec_token_type_name(t),
{
    match t {
        TokenType::ILLEGAL => "ILLEGAL",
        TokenType::EOF => "EOF",
        TokenType::IDENT => "IDENT",
        TokenType::INT => "INT",
        TokenType::ASSIGN => "ASSIGN",
        TokenType::PLUS => "PLUS",
        TokenType::COMMA => "COMMA",
        TokenType::SEMICOLON => "SEMICOLON",
        TokenType::LPAREN => "LPAREN",
        TokenType::RPAREN => "RPAREN",
        TokenType::LBRACE => "LBRACE",
        TokenType::RBRACE => "RBRACE",
        TokenType::FUNCTION => "FUNCTION",
        TokenType::LET => "LET",
        TokenType::MINUS => "MINUS",
        TokenType::BANG => "BANG",
        TokenType::ASTERISK => "ASTERISK",
        TokenType::SLASH => "SLASH",
        TokenType::LT => "LT",
        TokenType::GT => "GT",
        TokenType::TRUE => "TRUE",
        TokenType::FALSE => "FALSE",
        TokenType::IF => "IF",
        TokenType::ELSE => "ELSE",
        TokenType::RETURN => "RETURN",
        TokenType::EQ => "EQ",
        TokenType::NOTEQ => "NOTEQ",
        TokenType::STRING => "STRING",
        TokenType::LBRACKET => "LBRACKET",
        TokenType::RBRACKET => "RBRACKET",
        TokenType::COLON => "COLON",
    }
}

/// Parses a program from the tokens of a lexer.
pub struct Parser {
    pub l: Lexer,
    pub cur_token: Token,
    pub peek_token: Token,
    pub errors: Vec<String>,
}

// ---------------------------------------------------------------------------
// What parsing gives, as a relation between the parser before and after and
// the result.

/// `p1` is `p0` moved on by one token: the next token becomes the current
/// one, and the lexer reads the one after it (once the end of input is the
/// next token, it stays so).
pub open spec fn advanced(p0: Parser, p1: Parser) -> bool {
    &&& p1.wf()
    &&& p1.l.spec_input() == p0.l.spec_input()
    &&& p1.cur_token == p0.peek_token
    &&& p1.errors == p0.errors
    &&& p1.measure() <= p0.measure()
    &&& (p0.cur_token.tk_type != TokenType::EOF ==> p1.measure() < p0.measure())
    &&& (p0.wf() ==> Parser::moved_or_stayed(&p0, &p1))
    &&& if p0.peek_token.tk_type != TokenType::EOF {
        (p1.peek_token.tk_type, p1.peek_token.literal@, p1.l.spec_position()) == spec_next_token(
            p0.l.spec_input(),
            p0.l.spec_position(),
        )
    } else {
        &&& p1.peek_token.tk_type == TokenType::EOF
        &&& p1.peek_token.literal@ == Seq::<char>::empty()
        &&& p1.l == p0.l
    }
}

/// `p1` is `p0` with the error `m` recorded.
pub open spec fn error_added(p0: Parser, p1: Parser, m: Seq<char>) -> bool {
    &&& p1.l == p0.l
    &&& p1.cur_token == p0.cur_token
    &&& p1.peek_token == p0.peek_token
    &&& p1.errors@.len() == p0.errors@.len() + 1
    &&& p0.errors@.is_prefix_of(p1.errors@)
    &&& p1.errors@.last()@ == m
}

/// A recorded message as `get_errors` reports it: a message about an
/// unexpected next token gets a closing full stop.
pub open spec fn reported_message(m: Seq<char>) -> Seq<char> {
    if "expected next token to be "@.is_prefix_of(m) {
        m + "."@
    } else {
        m
    }
}

/// The error recorded when the next token is not of kind `t`.
pub open spec fn peek_error_message(p: Parser, t: TokenType) -> Seq<char> {
    "expected next token to be "@ + spec_token_type_name(t) + ", got "@ + spec_token_type_name(p.peek_token.tk_type)
        + " instead"@
}

/// Expecting a next token of kind `t`: moved on to it when it has that
/// kind (`ok`), else an error recorded.
pub open spec fn expected(p0: Parser, p1: Parser, t: TokenType, ok: bool) -> bool {
    &&& ok == (p0.peek_token.tk_type == t)
    &&& if ok {
        advanced(p0, p1)
    } else {
        error_added(p0, p1, peek_error_message(p0, t))
    }
}

/// `p1` is `p0`, moved on by one token when the next one is a semicolon.
pub open spec fn semicolon_skipped(p0: Parser, p1: Parser) -> bool {
    if p0.peek_token.tk_type == TokenType::SEMICOLON {
        advanced(p0, p1)
    } else {
        p1 == p0
    }
}

/// The elements of a vector that may be missing.
pub open spec fn opt_seq<T>(o: Option<Vec<T>>) -> Option<Seq<T>> {
    match o {
        Some(v) => Some(v@),
        None => None,
    }
}

/// The identifier of the current token.
pub open spec fn cur_ident(p: Parser) -> Identifier {
    Identifier { token: p.cur_token, value: p.cur_token.literal }
}

/// Parsing an integer literal at the current token.
pub open spec fn int_parsed(p0: Parser, p1: Parser, r: Option<Expression>) -> bool {
    let lit = p0.cur_token.literal@;
    if all_digits(lit) && spec_decimal_value(lit) <= i64::MAX {
        &&& p1 == p0
        &&& r matches Some(Expression::IntegerLiteral(i)) && i.token == p0.cur_token && i.value as int
            == spec_decimal_value(lit)
    } else {
        r is None && error_added(p0, p1, "could not parse "@ + lit + " as integer"@)
    }
}

/// Parsing an expression that binds at least as tightly as `prec` from
/// `p0` ends in `p1` with result `r`.
pub open spec fn parsed_expr(p0: Parser, p1: Parser, prec: Precedence, r: Option<Expression>) -> bool
    decreases p0.measure(), 18int,
{
    exists|pa: Parser, left: Option<Expression>|
        #![trigger step((pa, left))]
        0 <= pa.measure() <= p0.measure() && prefix_parsed(p0, pa, left) && match left {
            None => r is None && p1 == pa,
            Some(l) => infix_loop(pa, p1, prec, l, r),
        }
}

/// Parsing what an expression starts with, by the kind of its first token.
pub open spec fn prefix_parsed(p0: Parser, p1: Parser, r: Option<Expression>) -> bool
    decreases p0.measure(), 17int,
{
    match p0.cur_token.tk_type {
        TokenType::IDENT => p1 == p0 && r == Some(Expression::Identifier(cur_ident(p0))),
        TokenType::INT => int_parsed(p0, p1, r),
        TokenType::BANG | TokenType::MINUS => prefix_expr_parsed(p0, p1, r),
        TokenType::TRUE | TokenType::FALSE => p1 == p0 && r == Some(
            Expression::BooleanLiteral(
                BooleanLiteral { token: p0.cur_token, value: p0.cur_token.tk_type == TokenType::TRUE },
            ),
        ),
        TokenType::LPAREN => grouped_parsed(p0, p1, r),
        TokenType::IF => if_parsed(p0, p1, r),
        TokenType::FUNCTION => fn_parsed(p0, p1, r),
        TokenType::STRING => p1 == p0 && r == Some(
            Expression::StringLiteral(StringLiteral { token: p0.cur_token, value: p0.cur_token.literal }),
        ),
        TokenType::LBRACKET => array_parsed(p0, p1, r),
        TokenType::LBRACE => hash_parsed(p0, p1, r),
        _ => r is None && error_added(
            p0,
            p1,
            "no prefix parse function for "@ + spec_token_type_name(p0.cur_token.tk_type) + " found"@,
        ),
    }
}

/// While the next token is an operator binding more tightly than `prec`,
/// the expression parsed so far becomes its left operand.
pub open spec fn infix_loop(p0: Parser, p1: Parser, prec: Precedence, left: Expression, r: Option<Expression>) -> bool
    decreases p0.measure(), 17int,
{
    if p0.peek_token.tk_type == TokenType::SEMICOLON || spec_precedence_rank(prec) >= spec_precedence_rank(
        spec_get_precedence(p0.peek_token.tk_type),
    ) {
        r == Some(left) && p1 == p0
    } else {
        exists|pa: Parser, pb: Parser, e: Option<Expression>|
            #![trigger step((pa, pb, e))]
            advanced(p0, pa) && pa.measure() < p0.measure() && 0 <= pb.measure() < p0.measure() && (if p0.peek_token.tk_type
                == TokenType::LPAREN {
                call_parsed(pa, pb, left, e)
            } else if p0.peek_token.tk_type == TokenType::LBRACKET {
                index_parsed(pa, pb, left, e)
            } else {
                infix_parsed(pa, pb, left, e)
            }) && match e {
                None => r is None && p1 == pb,
                Some(l2) => infix_loop(pb, p1, prec, l2, r),
            }
    }
}

/// A prefix operator and its operand.
pub open spec fn prefix_expr_parsed(p0: Parser, p1: Parser, r: Option<Expression>) -> bool
    decreases p0.measure(), 16int,
{
    exists|pa: Parser, e: Option<Expression>|
        #![trigger step((pa, e))]
        advanced(p0, pa) && pa.measure() < p0.measure() && parsed_expr(pa, p1, Precedence::PREFIX, e) && match e {
            None => r is None,
            Some(right) => r == Some(
                Expression::PrefixExpression(
                    PrefixExpression { token: p0.cur_token, operator: p0.cur_token.literal, right: Box::new(right) },
                ),
            ),
        }
}

/// An infix operator, at the current token, and its right operand.
pub open spec fn infix_parsed(p0: Parser, p1: Parser, left: Expression, r: Option<Expression>) -> bool
    decreases p0.measure(), 16int,
{
    exists|pa: Parser, e: Option<Expression>|
        #![trigger step((pa, e))]
        advanced(p0, pa) && pa.measure() < p0.measure() && parsed_expr(
            pa,
            p1,
            spec_get_precedence(p0.cur_token.tk_type),
            e,
        ) && match e {
            None => r is None,
            Some(right) => r == Some(
                Expression::InfixExpression(
                    InfixExpression {
                        token: p0.cur_token,
                        left: Box::new(left),
                        operator: p0.cur_token.literal,
                        right: Box::new(right),
                    },
                ),
            ),
        }
}

/// An expression in parentheses.
pub open spec fn grouped_parsed(p0: Parser, p1: Parser, r: Option<Expression>) -> bool
    decreases p0.measure(), 16int,
{
    exists|pa: Parser, pb: Parser, e: Option<Expression>, ok: bool|
        #![trigger step((pa, pb, e, ok))]
        advanced(p0, pa) && pa.measure() < p0.measure() && parsed_expr(pa, pb, Precedence::LOWEST, e) && expected(
            pb,
            p1,
            TokenType::RPAREN,
            ok,
        ) && if ok {
            r == e
        } else {
            r is None
        }
}

/// An index in brackets after `left`, the bracket being the current token.
pub open spec fn index_parsed(p0: Parser, p1: Parser, left: Expression, r: Option<Expression>) -> bool
    decreases p0.measure(), 16int,
{
    exists|pa: Parser, pb: Parser, e: Option<Expression>|
        #![trigger step((pa, pb, e))]
        advanced(p0, pa) && pa.measure() < p0.measure() && parsed_expr(pa, pb, Precedence::LOWEST, e) && match e {
            None => r is None && p1 == pb,
            Some(index) => exists|ok: bool|
                #![trigger step(ok)]
                expected(pb, p1, TokenType::RBRACKET, ok) && if ok {
                    r == Some(
                        Expression::IndexExpression(
                            IndexExpression { token: p0.cur_token, left: Box::new(left), index: Box::new(index) },
                        ),
                    )
                } else {
                    r is None
                },
        }
}

/// The arguments of a call of `function`, the parenthesis being the current token.
pub open spec fn call_parsed(p0: Parser, p1: Parser, function: Expression, r: Option<Expression>) -> bool
    decreases p0.measure(), 16int,
{
    exists|args: Option<Seq<Expression>>|
        #![trigger step(args)]
        list_parsed(p0, p1, TokenType::RPAREN, args) && match args {
            None => r is None,
            Some(a) => r matches Some(Expression::CallExpression(c)) && c.token == p0.cur_token && *c.function
                == function && c.arguments@ == a,
        }
}

/// An array literal.
pub open spec fn array_parsed(p0: Parser, p1: Parser, r: Option<Expression>) -> bool
    decreases p0.measure(), 16int,
{
    exists|items: Option<Seq<Expression>>|
        #![trigger step(items)]
        list_parsed(p0, p1, TokenType::RBRACKET, items) && match items {
            None => r is None,
            Some(a) => r matches Some(Expression::ArrayLiteral(arr)) && arr.token == p0.cur_token && arr.elements@ == a,
        }
}

/// A list of expressions separated by commas and closed by `end`, the
/// opening token being the current one.
pub open spec fn list_parsed(p0: Parser, p1: Parser, end: TokenType, r: Option<Seq<Expression>>) -> bool
    decreases p0.measure(), 15int,
{
    if p0.peek_token.tk_type == end {
        advanced(p0, p1) && r == Some(Seq::<Expression>::empty())
    } else {
        exists|pa: Parser, pb: Parser, e: Option<Expression>|
            #![trigger step((pa, pb, e))]
            advanced(p0, pa) && pa.measure() < p0.measure() && 0 <= pb.measure() < p0.measure() && parsed_expr(
                pa,
                pb,
                Precedence::LOWEST,
                e,
            ) && match e {
                None => r is None && p1 == pb,
                Some(first) => list_loop(pb, p1, end, seq![first], r),
            }
    }
}

/// After the items so far, while a comma follows, one more item; then the
/// closing token.
pub open spec fn list_loop(p0: Parser, p1: Parser, end: TokenType, items: Seq<Expression>, r: Option<Seq<Expression>>) -> bool
    decreases p0.measure(), 14int,
{
    if p0.peek_token.tk_type == TokenType::COMMA {
        exists|pa: Parser, pb: Parser, pc: Parser, e: Option<Expression>|
            #![trigger step((pa, pb, pc, e))]
            advanced(p0, pa) && advanced(pa, pb) && pb.measure() < p0.measure() && 0 <= pc.measure() < p0.measure()
                && parsed_expr(pb, pc, Precedence::LOWEST, e) && match e {
                None => r is None && p1 == pc,
                Some(item) => list_loop(pc, p1, end, items.push(item), r),
            }
    } else {
        exists|ok: bool|
            #![trigger step(ok)]
            expected(p0, p1, end, ok) && if ok {
                r == Some(items)
            } else {
                r is None
            }
    }
}

/// A hash literal, the brace being the current token.
pub open spec fn hash_parsed(p0: Parser, p1: Parser, r: Option<Expression>) -> bool
    decreases p0.measure(), 16int,
{
    exists|pairs: Option<Seq<(Expression, Expression)>>|
        #![trigger step(pairs)]
        pairs_loop(p0, p1, Seq::empty(), pairs) && match pairs {
            None => r is None,
            Some(ps) => r matches Some(Expression::HashLiteral(h)) && h.token == p0.cur_token && h.pairs@ == ps,
        }
}

/// After the entries so far, until the next token closes the hash: a key,
/// a colon, a value and, unless the hash closes, a comma.
pub open spec fn pairs_loop(
    p0: Parser,
    p1: Parser,
    pairs: Seq<(Expression, Expression)>,
    r: Option<Seq<(Expression, Expression)>>,
) -> bool
    decreases p0.measure(), 15int,
{
    if p0.peek_token.tk_type == TokenType::RBRACE {
        exists|ok: bool|
            #![trigger step(ok)]
            expected(p0, p1, TokenType::RBRACE, ok) && if ok {
                r == Some(pairs)
            } else {
                r is None
            }
    } else {
        exists|pa: Parser, pb: Parser, k: Option<Expression>|
            #![trigger step((pa, pb, k))]
            advanced(p0, pa) && pa.measure() < p0.measure() && pb.measure() < p0.measure()
                && parsed_expr(pa, pb, Precedence::LOWEST, k) && match k {
                None => r is None && p1 == pb,
                Some(key) => exists|pc: Parser, okc: bool|
                    #![trigger step((pc, okc))]
                    expected(pb, pc, TokenType::COLON, okc) && if !okc {
                        r is None && p1 == pc
                    } else {
                        exists|pd: Parser, pe: Parser, v: Option<Expression>|
                            #![trigger step((pd, pe, v))]
                            advanced(pc, pd) && pd.measure() < p0.measure() && 0 <= pe.measure() < p0.measure()
                                && parsed_expr(pd, pe, Precedence::LOWEST, v) && match v {
                                None => r is None && p1 == pe,
                                Some(value) => if pe.peek_token.tk_type == TokenType::RBRACE {
                                    pairs_loop(pe, p1, pairs.push((key, value)), r)
                                } else {
                                    exists|pf: Parser, okf: bool|
                                        #![trigger step((pf, okf))]
                                        expected(pe, pf, TokenType::COMMA, okf) && pf.measure() < p0.measure()
                                            && if !okf {
                                            r is None && p1 == pf
                                        } else {
                                            pairs_loop(pf, p1, pairs.push((key, value)), r)
                                        }
                                },
                            }
                    },
            }
    }
}

/// An `if` expression, the `if` being the current token.
pub open spec fn if_parsed(p0: Parser, p1: Parser, r: Option<Expression>) -> bool
    decreases p0.measure(), 16int,
{
    exists|pa: Parser, oka: bool|
        #![trigger step((pa, oka))]
        expected(p0, pa, TokenType::LPAREN, oka) && if !oka {
            r is None && p1 == pa
        } else {
            exists|pb: Parser, pc: Parser, c: Option<Expression>|
                #![trigger step((pb, pc, c))]
                advanced(pa, pb) && pb.measure() < p0.measure() && parsed_expr(pb, pc, Precedence::LOWEST, c) && match c {
                    None => r is None && p1 == pc,
                    Some(cond) => exists|pd: Parser, okd: bool, pe: Parser, oke: bool|
                        #![trigger step((pd, okd, pe, oke))]
                        expected(pc, pd, TokenType::RPAREN, okd) && (okd ==> expected(pd, pe, TokenType::LBRACE, oke))
                            && if !okd {
                            r is None && p1 == pd
                        } else if !oke {
                            r is None && p1 == pe
                        } else {
                            exists|pf: Parser, cons: Option<BlockStatement>|
                                #![trigger step((pf, cons))]
                                pe.measure() < p0.measure() && block_parsed(pe, pf, cons) && match cons {
                                    None => r is None && p1 == pf,
                                    Some(b) => if pf.peek_token.tk_type == TokenType::ELSE {
                                        exists|pg: Parser, ph: Parser, okh: bool|
                                            #![trigger step((pg, ph, okh))]
                                            advanced(pf, pg) && expected(pg, ph, TokenType::LBRACE, okh) && if !okh {
                                                r is None && p1 == ph
                                            } else {
                                                exists|alt: Option<BlockStatement>|
                                                    #![trigger step(alt)]
                                                    ph.measure() < p0.measure() && block_parsed(ph, p1, alt) && match alt {
                                                        None => r is None,
                                                        Some(a) => r == Some(
                                                            Expression::IfExpression(
                                                                IfExpression {
                                                                    token: p0.cur_token,
                                                                    condition: Box::new(cond),
                                                                    consequence: b,
                                                                    alternative: Some(a),
                                                                },
                                                            ),
                                                        ),
                                                    }
                                            }
                                    } else {
                                        p1 == pf && r == Some(
                                            Expression::IfExpression(
                                                IfExpression {
                                                    token: p0.cur_token,
                                                    condition: Box::new(cond),
                                                    consequence: b,
                                                    alternative: None,
                                                },
                                            ),
                                        )
                                    },
                                }
                        },
                }
        }
}

/// A block in braces, the opening brace being the current token.
pub open spec fn block_parsed(p0: Parser, p1: Parser, r: Option<BlockStatement>) -> bool
    decreases p0.measure(), 16int,
{
    exists|pa: Parser, ss: Option<Seq<Statement>>|
        #![trigger step((pa, ss))]
        advanced(p0, pa) && pa.measure() < p0.measure() && block_loop(pa, p1, Seq::empty(), ss) && match ss {
            None => r is None,
            Some(s) => r matches Some(b) && b.token == p0.cur_token && b.statements@ == s,
        }
}

/// After the statements so far, until the current token closes the block:
/// a statement, then the next token.
pub open spec fn block_loop(p0: Parser, p1: Parser, stmts: Seq<Statement>, r: Option<Seq<Statement>>) -> bool
    decreases p0.measure(), 21int,
{
    if p0.cur_token.tk_type == TokenType::RBRACE {
        p1 == p0 && r == Some(stmts)
    } else if p0.cur_token.tk_type == TokenType::EOF {
        p1 == p0 && r is None
    } else {
        exists|pa: Parser, s: Option<Statement>|
            #![trigger step((pa, s))]
            stmt_parsed(p0, pa, s) && match s {
                None => r is None && p1 == pa,
                Some(st) => exists|pb: Parser|
                    #![trigger step(pb)]
                    advanced(pa, pb) && pb.measure() < p0.measure() && block_loop(pb, p1, stmts.push(st), r),
            }
    }
}

/// A function literal, the `fn` being the current token.
pub open spec fn fn_parsed(p0: Parser, p1: Parser, r: Option<Expression>) -> bool
    decreases p0.measure(), 16int,
{
    exists|pa: Parser, oka: bool|
        #![trigger step((pa, oka))]
        expected(p0, pa, TokenType::LPAREN, oka) && if !oka {
            r is None && p1 == pa
        } else {
            exists|pb: Parser, ps: Option<Seq<Identifier>>|
                #![trigger step((pb, ps))]
                params_parsed(pa, pb, ps) && match ps {
                    None => r is None && p1 == pb,
                    Some(params) => exists|pc: Parser, okc: bool|
                        #![trigger step((pc, okc))]
                        expected(pb, pc, TokenType::LBRACE, okc) && if !okc {
                            r is None && p1 == pc
                        } else {
                            exists|body: Option<BlockStatement>|
                                #![trigger step(body)]
                                pc.measure() < p0.measure() && block_parsed(pc, p1, body) && match body {
                                    None => r is None,
                                    Some(b) => r matches Some(Expression::FunctionLiteral(f)) && f.token == p0.cur_token
                                        && f.parameters@ == params && f.body == b,
                                }
                        },
                }
        }
}

/// The parameters of a function literal, the parenthesis being the current
/// token: identifiers separated by commas, then the closing parenthesis.
pub open spec fn params_parsed(p0: Parser, p1: Parser, r: Option<Seq<Identifier>>) -> bool {
    if p0.peek_token.tk_type == TokenType::RPAREN {
        advanced(p0, p1) && r == Some(Seq::<Identifier>::empty())
    } else {
        exists|pa: Parser|
            #![trigger step(pa)]
            advanced(p0, pa) && params_loop(pa, p1, seq![cur_ident(pa)], r)
    }
}

/// After the parameters so far, while a comma follows, one more.
pub open spec fn params_loop(p0: Parser, p1: Parser, ids: Seq<Identifier>, r: Option<Seq<Identifier>>) -> bool
    decreases p0.measure(),
{
    if p0.peek_token.tk_type == TokenType::COMMA {
        exists|pa: Parser, pb: Parser|
            #![trigger step((pa, pb))]
            advanced(p0, pa) && advanced(pa, pb) && pb.measure() < p0.measure() && params_loop(
                pb,
                p1,
                ids.push(cur_ident(pb)),
                r,
            )
    } else {
        exists|ok: bool|
            #![trigger step(ok)]
            expected(p0, p1, TokenType::RPAREN, ok) && if ok {
                r == Some(ids)
            } else {
                r is None
            }
    }
}

/// A `let` statement, the `let` being the current token.
pub open spec fn let_parsed(p0: Parser, p1: Parser, r: Option<LetStatement>) -> bool
    decreases p0.measure(), 19int,
{
    exists|pa: Parser, oka: bool|
        #![trigger step((pa, oka))]
        expected(p0, pa, TokenType::IDENT, oka) && if !oka {
            r is None && p1 == pa
        } else {
            exists|pb: Parser, okb: bool|
                #![trigger step((pb, okb))]
                expected(pa, pb, TokenType::ASSIGN, okb) && if !okb {
                    r is None && p1 == pb
                } else {
                    exists|pc: Parser, pd: Parser, v: Option<Expression>|
                        #![trigger step((pc, pd, v))]
                        advanced(pb, pc) && pc.measure() < p0.measure() && parsed_expr(pc, pd, Precedence::LOWEST, v)
                            && match v {
                            None => r is None && p1 == pd,
                            Some(value) => semicolon_skipped(pd, p1) && r == Some(
                                LetStatement { token: p0.cur_token, name: cur_ident(pa), value },
                            ),
                        }
                }
        }
}

/// A `return` statement, the `return` being the current token.
pub open spec fn return_parsed(p0: Parser, p1: Parser, r: Option<ReturnStatement>) -> bool
    decreases p0.measure(), 19int,
{
    exists|pa: Parser, pb: Parser, v: Option<Expression>|
        #![trigger step((pa, pb, v))]
        advanced(p0, pa) && pa.measure() < p0.measure() && parsed_expr(pa, pb, Precedence::LOWEST, v) && match v {
            None => r is None && p1 == pb,
            Some(value) => semicolon_skipped(pb, p1) && r == Some(ReturnStatement { token: p0.cur_token, return_value: value }),
        }
}

/// An expression statement.
pub open spec fn expr_stmt_parsed(p0: Parser, p1: Parser, r: Option<ExpressionStatement>) -> bool
    decreases p0.measure(), 19int,
{
    exists|pa: Parser, v: Option<Expression>|
        #![trigger step((pa, v))]
        pa.measure() <= p0.measure() && parsed_expr(p0, pa, Precedence::LOWEST, v) && match v {
            None => r is None && p1 == pa,
            Some(e) => semicolon_skipped(pa, p1) && r == Some(ExpressionStatement { token: p0.cur_token, expression: e }),
        }
}

/// A statement, by the kind of the current token.
pub open spec fn stmt_parsed(p0: Parser, p1: Parser, r: Option<Statement>) -> bool
    decreases p0.measure(), 20int,
{
    match p0.cur_token.tk_type {
        TokenType::LET => exists|s: Option<LetStatement>|
            #![trigger step(s)]
            let_parsed(p0, p1, s) && r == match s {
                Some(x) => Some(Statement::LetStatement(x)),
                None => None,
            },
        TokenType::RETURN => exists|s: Option<ReturnStatement>|
            #![trigger step(s)]
            return_parsed(p0, p1, s) && r == match s {
                Some(x) => Some(Statement::ReturnStatement(x)),
                None => None,
            },
        _ => exists|s: Option<ExpressionStatement>|
            #![trigger step(s)]
            expr_stmt_parsed(p0, p1, s) && r == match s {
                Some(x) => Some(Statement::ExpressionStatement(x)),
                None => None,
            },
    }
}

/// After the statements so far, until the end of input: a statement, kept
/// when it parsed, then the next token.
pub open spec fn program_loop(p0: Parser, p1: Parser, stmts: Seq<Statement>, r: Seq<Statement>) -> bool
    decreases p0.measure(),
{
    if p0.cur_token.tk_type == TokenType::EOF {
        p1 == p0 && r == stmts
    } else {
        exists|pa: Parser, s: Option<Statement>, pb: Parser|
            #![trigger step((pa, s, pb))]
            stmt_parsed(p0, pa, s) && advanced(pa, pb) && pb.measure() < p0.measure() && program_loop(
                pb,
                p1,
                match s {
                    Some(st) => stmts.push(st),
                    None => stmts,
                },
                r,
            )
    }
}

impl Parser {
    /// The parser's state is consistent: the lexer is consistent and an
    /// end-of-input current token is followed by end of input.
    pub open spec fn wf(&self) -> bool {
        &&& self.l.wf()
        &&& 0 <= self.l.spec_position() <= self.l.spec_input().len()
        &&& (self.cur_token.tk_type == TokenType::EOF ==> self.peek_token.tk_type == TokenType::EOF)
    }

    /// A measure of the input left to read; reading a token other than the
    /// final end-of-input token makes it smaller.
    pub open spec fn measure(&self) -> int {
        3 * (self.l.spec_input().len() - self.l.spec_position()) + (if self.cur_token.tk_type
            != TokenType::EOF {
            1int
        } else {
            0int
        }) + (if self.peek_token.tk_type != TokenType::EOF {
            1int
        } else {
            0int
        })
    }

    /// The parser moved forward, or stayed on the same current token.
    pub open spec fn moved_or_stayed(old: &Parser, new: &Parser) -> bool {
        new.measure() < old.measure() || (new.measure() == old.measure()
            && new.cur_token.tk_type == old.cur_token.tk_type)
    }

    /// What every parsing step keeps: consistency, the input, earlier errors,
    /// and progress through the input.
    pub open spec fn step(old: &Parser, new: &Parser) -> bool {
        &&& new.wf()
        &&& new.l.spec_input() == old.l.spec_input()
        &&& new.measure() <= old.measure()
        &&& Self::moved_or_stayed(old, new)
        &&& old.errors@.is_prefix_of(new.errors@)
    }

    /// A parser reading the tokens of `l`; the first two tokens are read.
    pub fn new(l: Lexer) -> (p: Parser)
        requires
            l.wf(),
        ensures
            p.wf(),
            p.errors@.len() == 0,
            p.l.spec_input() == l.spec_input(),
            ({
                let first = spec_next_token(l.spec_input(), l.spec_position());
                &&& p.cur_token.tk_type == first.0
                &&& p.cur_token.literal@ == first.1
                &&& if first.0 != TokenType::EOF {
                    (p.peek_token.tk_type, p.peek_token.literal@, p.l.spec_position()) == spec_next_token(
                        l.spec_input(),
                        first.2,
                    )
                } else {
                    p.peek_token.tk_type == TokenType::EOF && p.peek_token.literal@ == Seq::<char>::empty()
                        && p.l.spec_position() == first.2
                }
            }),
    {
        let mut p = Parser {
            l,
            cur_token: Token { tk_type: TokenType::ILLEGAL, literal: String::new() },
            peek_token: Token { tk_type: TokenType::ILLEGAL, literal: String::new() },
            errors: Vec::new(),
        };
        p.next_token();
        p.next_token();
        p
    }

    /// Moves to the next token.  Once the end of input is the next token, it stays so.
    pub fn next_token(&mut self)
        requires
            old(self).l.wf(),
        ensures
            final(self).wf(),
            final(self).l.spec_input() == old(self).l.spec_input(),
            final(self).cur_token == old(self).peek_token,
            final(self).errors == old(self).errors,
            final(self).measure() <= old(self).measure(),
            old(self).cur_token.tk_type != TokenType::EOF ==> final(self).measure() < old(self).measure(),
            old(self).wf() ==> Parser::moved_or_stayed(old(self), final(self)),
            old(self).peek_token.tk_type != TokenType::EOF ==> (final(self).peek_token.tk_type, final(self).peek_token.literal@, final(self).l.spec_position())
                == spec_next_token(old(self).l.spec_input(), old(self).l.spec_position()),
            advanced(*old(self), *final(self)),
    {
        proof {
            old(self).l.lemma_position_in_input();
        }
        let mut next = if self.peek_token.tk_type == TokenType::EOF {
            Token { tk_type: TokenType::EOF, literal: String::new() }
        } else {
            let t = self.l.next_token();
            proof {
                self.l.lemma_position_in_input();
                lemma_next_token_progress(old(self).l.spec_input(), old(self).l.spec_position());
            }
            t
        };
        std::mem::swap(&mut self.peek_token, &mut next);
        self.cur_token = next;
    }

    fn cur_token_is(&self, t: TokenType) -> (r: bool)
        ensures
            r == (self.cur_token.tk_type == t),
    {
        self.cur_token.tk_type == t
    }

    fn peek_token_is(&self, t: TokenType) -> (r: bool)
        ensures
            r == (self.peek_token.tk_type == t),
    {
        self.peek_token.tk_type == t
    }

    /// Moves on when the next token has kind `t`; otherwise records an error.
    fn expect_peek(&mut self, t: TokenType) -> (r: bool)
        requires
            old(self).wf(),
        ensures
            Parser::step(old(self), final(self)),
            r == (old(self).peek_token.tk_type == t),
            r ==> final(self).cur_token == old(self).peek_token,
            r && old(self).cur_token.tk_type != TokenType::EOF ==> final(self).measure() < old(self).measure(),
            !r ==> final(self).cur_token == old(self).cur_token && final(self).measure() == old(self).measure(),
            expected(*old(self), *final(self), t, r),
    {
        if self.peek_token_is(t) {
            self.next_token();
            true
        } else {
            self.peek_error(t);
            false
        }
    }

    fn peek_error(&mut self, t: TokenType)
        ensures
            error_added(*old(self), *final(self), peek_error_message(*old(self), t)),
    {
        let mut msg = String::from_str("expected next token to be ");
        msg.append(token_type_name(t));
        msg.append(", got ");
        msg.append(token_type_name(self.peek_token.tk_type));
        msg.append(" instead");
        self.errors.push(msg);
    }

    fn no_prefix_parse_fn_error(&mut self, t: TokenType)
        ensures
            error_added(*old(self), *final(self), "no prefix parse function for "@ + spec_token_type_name(t) + " found"@),
    {
        let mut msg = String::from_str("no prefix parse function for ");
        msg.append(token_type_name(t));
        msg.append(" found");
        self.errors.push(msg);
    }

    fn peek_precedence(&self) -> (p: Precedence)
        ensures
            p == spec_get_precedence(self.peek_token.tk_type),
    {
        get_precedence(&self.peek_token.tk_type)
    }

    fn cur_precedence(&self) -> (p: Precedence)
        ensures
            p == spec_get_precedence(self.cur_token.tk_type),
    {
        get_precedence(&self.cur_token.tk_type)
    }

    /// Parses the whole program: its statements, or, when any statement
    /// failed to parse, the errors recorded meanwhile.  The errors also stay
    /// in `errors`.
    pub fn parse_program(&mut self) -> (r: Result<Program, Vec<String>>)
        requires
            old(self).wf(),
        ensures
            Parser::step(old(self), final(self)),
            final(self).cur_token.tk_type == TokenType::EOF,
            r is Ok <==> final(self).errors@.len() == old(self).errors@.len(),
            match r {
                Ok(p) => program_loop(*old(self), *final(self), Seq::empty(), p.statements@),
                Err(es) => es@ == final(self).errors@.skip(old(self).errors@.len() as int) && exists|stmts: Seq<Statement>|
                    #![trigger step(stmts)]
                    program_loop(*old(self), *final(self), Seq::empty(), stmts),
            },
    {
        let n = self.errors.len();
        let program = self.parse_statements();
        if self.errors.len() == n {
            Ok(program)
        } else {
            assert(step(program.statements@));
            let mut es: Vec<String> = Vec::new();
            let mut i: usize = n;
            while i < self.errors.len()
                invariant
                    n <= i <= self.errors@.len(),
                    es@ == self.errors@.subrange(n as int, i as int),
                decreases self.errors@.len() - i,
            {
                es.push(self.errors[i].clone());
                i = i + 1;
            }
            assert(es@ =~= self.errors@.skip(n as int));
            Err(es)
        }
    }

    /// Parses the statements of the whole program.  Statements that fail to
    /// parse are left out and their errors are recorded in `errors`.
    pub fn parse_statements(&mut self) -> (program: Program)
        requires
            old(self).wf(),
        ensures
            Parser::step(old(self), final(self)),
            program_loop(*old(self), *final(self), Seq::empty(), program.statements@),
            final(self).cur_token.tk_type == TokenType::EOF,
    {
        let mut statements: Vec<Statement> = Vec::new();
        let ghost p0 = *self;
        while self.cur_token.tk_type != TokenType::EOF
            invariant
                Parser::step(old(self), self),
                p0 == *old(self),
                forall|p1: Parser, r: Seq<Statement>|
                    #[trigger] program_loop(*self, p1, statements@, r) ==> program_loop(p0, p1, Seq::empty(), r),
            decreases self.measure(),
        {
            let ghost before = *self;
            let ghost st0 = statements@;
            let s = self.parse_statement();
            let ghost pa = *self;
            let ghost so = s;
            match s {
                Some(stmt) => statements.push(stmt),
                None => {},
            }
            self.next_token();
            assert(self.measure() < before.measure());
            assert(old(self).errors@.is_prefix_of(self.errors@));
            assert forall|p1: Parser, r: Seq<Statement>|
                #[trigger] program_loop(*self, p1, statements@, r) implies program_loop(p0, p1, Seq::empty(), r) by {
                assert(step((pa, so, *self)));
                assert(program_loop(before, p1, st0, r));
            }
        }
        assert(program_loop(*self, *self, statements@, statements@));
        Program { statements }
    }

    fn parse_statement(&mut self) -> (r: Option<Statement>)
        requires
            old(self).wf(),
        ensures
            Parser::step(old(self), final(self)),
            stmt_parsed(*old(self), *final(self), r),
        decreases old(self).measure(), 20int,
    {
        match self.cur_token.tk_type {
            TokenType::LET => {
                let s = self.parse_let_statement();
                assert(step(s));
                match s {
                    Some(s) => Some(Statement::LetStatement(s)),
                    None => None,
                }
            },
            TokenType::RETURN => {
                let s = self.parse_return_statement();
                assert(step(s));
                match s {
                    Some(s) => Some(Statement::ReturnStatement(s)),
                    None => None,
                }
            },
            _ => {
                let s = self.parse_expression_statement();
                assert(step(s));
                match s {
                    Some(s) => Some(Statement::ExpressionStatement(s)),
                    None => None,
                }
            },
        }
    }

    fn parse_let_statement(&mut self) -> (r: Option<LetStatement>)
        requires
            old(self).wf(),
            old(self).cur_token.tk_type == TokenType::LET,
        ensures
            Parser::step(old(self), final(self)),
            let_parsed(*old(self), *final(self), r),
        decreases old(self).measure(), 19int,
    {
        let token = self.cur_token.duplicate();
        let oka = self.expect_peek(TokenType::IDENT);
        let ghost pa = *self;
        assert(step((pa, oka)));
        if !oka {
            return None;
        }
        let name = Identifier { token: self.cur_token.duplicate(), value: self.cur_token.literal.clone() };
        let okb = self.expect_peek(TokenType::ASSIGN);
        assert(step((*self, okb)));
        if !okb {
            return None;
        }
        self.next_token();
        let ghost pc = *self;
        let v = self.parse_expression(Precedence::LOWEST);
        assert(step((pc, *self, v)));
        let value = match v {
            Some(v) => v,
            None => return None,
        };
        if self.peek_token_is(TokenType::SEMICOLON) {
            self.next_token();
        }
        Some(LetStatement { token, name, value })
    }

    fn parse_return_statement(&mut self) -> (r: Option<ReturnStatement>)
        requires
            old(self).wf(),
            old(self).cur_token.tk_type == TokenType::RETURN,
        ensures
            Parser::step(old(self), final(self)),
            return_parsed(*old(self), *final(self), r),
        decreases old(self).measure(), 19int,
    {
        let token = self.cur_token.duplicate();
        self.next_token();
        let ghost pa = *self;
        let v = self.parse_expression(Precedence::LOWEST);
        assert(step((pa, *self, v)));
        let return_value = match v {
            Some(v) => v,
            None => return None,
        };
        if self.peek_token_is(TokenType::SEMICOLON) {
            self.next_token();
        }
        Some(ReturnStatement { token, return_value })
    }

    fn parse_expression_statement(&mut self) -> (r: Option<ExpressionStatement>)
        requires
            old(self).wf(),
        ensures
            Parser::step(old(self), final(self)),
            expr_stmt_parsed(*old(self), *final(self), r),
        decreases old(self).measure(), 19int,
    {
        let token = self.cur_token.duplicate();
        let v = self.parse_expression(Precedence::LOWEST);
        assert(step((*self, v)));
        let expression = match v {
            Some(e) => e,
            None => return None,
        };
        if self.peek_token_is(TokenType::SEMICOLON) {
            self.next_token();
        }
        Some(ExpressionStatement { token, expression })
    }

    fn parse_expression(&mut self, precedence: Precedence) -> (r: Option<Expression>)
        requires
            old(self).wf(),
        ensures
            Parser::step(old(self), final(self)),
            parsed_expr(*old(self), *final(self), precedence, r),
        decreases old(self).measure(), 18int,
    {
        let left = self.parse_prefix();
        let ghost pa = *self;
        assert(step((pa, left)));
        let mut left_exp = match left {
            Some(e) => e,
            None => return None,
        };
        while !self.peek_token_is(TokenType::SEMICOLON) && precedence.rank()
            < self.peek_precedence().rank()
            invariant
                Parser::step(old(self), self),
                0 <= pa.measure() <= old(self).measure(),
                prefix_parsed(*old(self), pa, left),
                left is Some,
                forall|p1: Parser, r: Option<Expression>|
                    #[trigger] infix_loop(*self, p1, precedence, left_exp, r) ==> infix_loop(pa, p1, precedence, left.unwrap(), r),
            decreases self.measure(),
        {
            let ghost before = *self;
            let ghost left0 = left_exp;
            let tk = self.peek_token.tk_type;
            self.next_token();
            let ghost pb = *self;
            let e = if tk == TokenType::LPAREN {
                self.parse_call_expression(left_exp)
            } else if tk == TokenType::LBRACKET {
                self.parse_index_expression(left_exp)
            } else {
                self.parse_infix_expression(left_exp)
            };
            assert(self.measure() < before.measure());
            assert(step((pb, *self, e)));
            match e {
                Some(x) => {
                    left_exp = x;
                },
                None => {
                    assert(infix_loop(before, *self, precedence, left0, None));
                    assert(infix_loop(pa, *self, precedence, left.unwrap(), None));
                    assert(step((pa, left)));
                    return None;
                },
            }
            assert forall|p1: Parser, r: Option<Expression>|
                #[trigger] infix_loop(*self, p1, precedence, left_exp, r) implies infix_loop(pa, p1, precedence, left.unwrap(), r) by {
                assert(infix_loop(before, p1, precedence, left0, r));
            }
        }
        assert(infix_loop(*self, *self, precedence, left_exp, Some(left_exp)));
        Some(left_exp)
    }

    /// Parses what an expression starts with, by the kind of its first token.
    fn parse_prefix(&mut self) -> (r: Option<Expression>)
        requires
            old(self).wf(),
        ensures
            Parser::step(old(self), final(self)),
            prefix_parsed(*old(self), *final(self), r),
            0 <= final(self).measure() <= old(self).measure(),
        decreases old(self).measure(), 17int,
    {
        let tk_type = self.cur_token.tk_type;
        match tk_type {
            TokenType::IDENT => Some(self.parse_identifier()),
            TokenType::INT => self.parse_integer_literal(),
            TokenType::BANG | TokenType::MINUS => self.parse_prefix_expression(),
            TokenType::TRUE | TokenType::FALSE => Some(self.parse_boolean_literal()),
            TokenType::LPAREN => self.parse_grouped_expression(),
            TokenType::IF => self.parse_if_expression(),
            TokenType::FUNCTION => self.parse_function_literal(),
            TokenType::STRING => Some(self.parse_string_literal()),
            TokenType::LBRACKET => self.parse_array_literal(),
            TokenType::LBRACE => self.parse_hash_literal(),
            _ => {
                self.no_prefix_parse_fn_error(tk_type);
                None
            },
        }
    }

    fn parse_identifier(&self) -> (e: Expression)
        ensures
            e == Expression::Identifier(
                Identifier { token: self.cur_token, value: self.cur_token.literal },
            ),
    {
        Expression::Identifier(
            Identifier { token: self.cur_token.duplicate(), value: self.cur_token.literal.clone() },
        )
    }

    fn parse_integer_literal(&mut self) -> (r: Option<Expression>)
        requires
            old(self).wf(),
        ensures
            Parser::step(old(self), final(self)),
            final(self).cur_token == old(self).cur_token,
            int_parsed(*old(self), *final(self), r),
    {
        match parse_decimal(self.cur_token.literal.as_str()) {
            Some(value) => Some(
                Expression::IntegerLiteral(IntegerLiteral { token: self.cur_token.duplicate(), value }),
            ),
            None => {
                let mut msg = String::from_str("could not parse ");
                msg.append(self.cur_token.literal.as_str());
                msg.append(" as integer");
                self.errors.push(msg);
                None
            },
        }
    }

    fn parse_prefix_expression(&mut self) -> (r: Option<Expression>)
        requires
            old(self).wf(),
            old(self).cur_token.tk_type != TokenType::EOF,
        ensures
            Parser::step(old(self), final(self)),
            final(self).measure() < old(self).measure(),
            prefix_expr_parsed(*old(self), *final(self), r),
        decreases old(self).measure(), 16int,
    {
        let token = self.cur_token.duplicate();
        let operator = self.cur_token.literal.clone();
        self.next_token();
        let ghost pa = *self;
        let e = self.parse_expression(Precedence::PREFIX);
        assert(step((pa, e)));
        let right = match e {
            Some(e) => e,
            None => return None,
        };
        Some(Expression::PrefixExpression(PrefixExpression { token, operator, right: Box::new(right) }))
    }

    fn parse_infix_expression(&mut self, left: Expression) -> (r: Option<Expression>)
        requires
            old(self).wf(),
            old(self).cur_token.tk_type != TokenType::EOF,
        ensures
            Parser::step(old(self), final(self)),
            final(self).measure() < old(self).measure(),
            infix_parsed(*old(self), *final(self), left, r),
        decreases old(self).measure(), 16int,
    {
        let token = self.cur_token.duplicate();
        let operator = self.cur_token.literal.clone();
        let precedence = self.cur_precedence();
        self.next_token();
        let ghost pa = *self;
        let e = self.parse_expression(precedence);
        assert(step((pa, e)));
        let right = match e {
            Some(e) => e,
            None => return None,
        };
        Some(
            Expression::InfixExpression(
                InfixExpression { token, left: Box::new(left), operator, right: Box::new(right) },
            ),
        )
    }

    fn parse_boolean_literal(&self) -> (e: Expression)
        ensures
            e == Expression::BooleanLiteral(
                BooleanLiteral {
                    token: self.cur_token,
                    value: self.cur_token.tk_type == TokenType::TRUE,
                },
            ),
    {
        Expression::BooleanLiteral(
            BooleanLiteral {
                token: self.cur_token.duplicate(),
                value: self.cur_token_is(TokenType::TRUE),
            },
        )
    }

    fn parse_grouped_expression(&mut self) -> (r: Option<Expression>)
        requires
            old(self).wf(),
            old(self).cur_token.tk_type != TokenType::EOF,
        ensures
            Parser::step(old(self), final(self)),
            final(self).measure() < old(self).measure(),
            grouped_parsed(*old(self), *final(self), r),
        decreases old(self).measure(), 16int,
    {
        self.next_token();
        let ghost pa = *self;
        let exp = self.parse_expression(Precedence::LOWEST);
        let ghost pb = *self;
        let ok = self.expect_peek(TokenType::RPAREN);
        assert(step((pa, pb, exp, ok)));
        if !ok {
            return None;
        }
        exp
    }

    fn parse_if_expression(&mut self) -> (r: Option<Expression>)
        requires
            old(self).wf(),
            old(self).cur_token.tk_type != TokenType::EOF,
        ensures
            Parser::step(old(self), final(self)),
            if_parsed(*old(self), *final(self), r),
        decreases old(self).measure(), 16int,
    {
        let token = self.cur_token.duplicate();
        let oka = self.expect_peek(TokenType::LPAREN);
        assert(step((*self, oka)));
        if !oka {
            return None;
        }
        self.next_token();
        let ghost pb = *self;
        let c = self.parse_expression(Precedence::LOWEST);
        assert(step((pb, *self, c)));
        let condition = match c {
            Some(c) => c,
            None => return None,
        };
        let okd = self.expect_peek(TokenType::RPAREN);
        let ghost pd = *self;
        if !okd {
            assert(step((pd, okd, pd, false)));
            return None;
        }
        let oke = self.expect_peek(TokenType::LBRACE);
        let ghost pe = *self;
        assert(step((pd, okd, pe, oke)));
        if !oke {
            return None;
        }
        let cons = self.parse_block_statement();
        let ghost pf = *self;
        assert(step((pf, cons)));
        let consequence = match cons {
            Some(b) => b,
            None => return None,
        };
        let mut alternative: Option<BlockStatement> = None;
        if self.peek_token_is(TokenType::ELSE) {
            self.next_token();
            let ghost pg = *self;
            let okh = self.expect_peek(TokenType::LBRACE);
            assert(step((pg, *self, okh)));
            if !okh {
                return None;
            }
            let alt = self.parse_block_statement();
            assert(step(alt));
            alternative = match alt {
                Some(b) => Some(b),
                None => return None,
            };
        }
        Some(
            Expression::IfExpression(
                IfExpression { token, condition: Box::new(condition), consequence, alternative },
            ),
        )
    }

    fn parse_block_statement(&mut self) -> (r: Option<BlockStatement>)
        requires
            old(self).wf(),
            old(self).cur_token.tk_type != TokenType::EOF,
        ensures
            Parser::step(old(self), final(self)),
            final(self).measure() < old(self).measure(),
            block_parsed(*old(self), *final(self), r),
        decreases old(self).measure(), 16int,
    {
        let token = self.cur_token.duplicate();
        let mut statements: Vec<Statement> = Vec::new();
        self.next_token();
        let ghost pa = *self;
        while !self.cur_token_is(TokenType::RBRACE)
            invariant
                Parser::step(old(self), self),
                self.measure() < old(self).measure(),
                advanced(*old(self), pa),
                pa.measure() < old(self).measure(),
                forall|p1: Parser, r: Option<Seq<Statement>>|
                    #[trigger] block_loop(*self, p1, statements@, r) ==> block_loop(pa, p1, Seq::empty(), r),
            decreases self.measure(),
        {
            let ghost before = *self;
            let ghost st0 = statements@;
            if self.cur_token_is(TokenType::EOF) {
                assert(block_loop(before, *self, st0, None));
                assert(block_loop(pa, *self, Seq::empty(), None));
                assert(step((pa, None::<Seq<Statement>>)));
                return None;
            }
            let s = self.parse_statement();
            let ghost ps = *self;
            assert(step((ps, s)));
            match s {
                Some(stmt) => statements.push(stmt),
                None => {
                    assert(block_loop(before, *self, st0, None));
                    assert(block_loop(pa, *self, Seq::empty(), None));
                    assert(step((pa, None::<Seq<Statement>>)));
                    return None;
                },
            }
            self.next_token();
            assert(self.measure() < before.measure());
            assert forall|p1: Parser, r: Option<Seq<Statement>>|
                #[trigger] block_loop(*self, p1, statements@, r) implies block_loop(pa, p1, Seq::empty(), r) by {
                assert(step(*self));
                assert(block_loop(before, p1, st0, r));
            }
        }
        assert(block_loop(*self, *self, statements@, Some(statements@)));
        assert(step((pa, Some(statements@))));
        Some(BlockStatement { token, statements })
    }

    fn parse_function_literal(&mut self) -> (r: Option<Expression>)
        requires
            old(self).wf(),
            old(self).cur_token.tk_type != TokenType::EOF,
        ensures
            Parser::step(old(self), final(self)),
            fn_parsed(*old(self), *final(self), r),
        decreases old(self).measure(), 16int,
    {
        let token = self.cur_token.duplicate();
        let oka = self.expect_peek(TokenType::LPAREN);
        assert(step((*self, oka)));
        if !oka {
            return None;
        }
        let ps = self.parse_function_parameters();
        let ghost pb = *self;
        let ghost psv: Option<Seq<Identifier>> = opt_seq(ps);
        assert(step((pb, psv)));
        let parameters = match ps {
            Some(p) => p,
            None => return None,
        };
        let okc = self.expect_peek(TokenType::LBRACE);
        assert(step((*self, okc)));
        if !okc {
            return None;
        }
        let body = self.parse_block_statement();
        assert(step(body));
        let body = match body {
            Some(b) => b,
            None => return None,
        };
        Some(Expression::FunctionLiteral(FunctionLiteral { token, parameters, body }))
    }

    fn parse_function_parameters(&mut self) -> (r: Option<Vec<Identifier>>)
        requires
            old(self).wf(),
        ensures
            Parser::step(old(self), final(self)),
            params_parsed(
                *old(self),
                *final(self),
                opt_seq(r),
            ),
    {
        let mut identifiers: Vec<Identifier> = Vec::new();
        if self.peek_token_is(TokenType::RPAREN) {
            self.next_token();
            return Some(identifiers);
        }
        self.next_token();
        let ghost pa = *self;
        assert(step(pa));
        identifiers.push(Identifier { token: self.cur_token.duplicate(), value: self.cur_token.literal.clone() });
        while self.peek_token_is(TokenType::COMMA)
            invariant
                Parser::step(old(self), self),
                forall|p1: Parser, r: Option<Seq<Identifier>>|
                    #[trigger] params_loop(*self, p1, identifiers@, r) ==> params_loop(pa, p1, seq![cur_ident(pa)], r),
            decreases self.measure(),
        {
            let ghost before = *self;
            let ghost ids0 = identifiers@;
            self.next_token();
            let ghost pm = *self;
            self.next_token();
            assert(self.measure() < before.measure());
            identifiers.push(
                Identifier { token: self.cur_token.duplicate(), value: self.cur_token.literal.clone() },
            );
            assert forall|p1: Parser, r: Option<Seq<Identifier>>|
                #[trigger] params_loop(*self, p1, identifiers@, r) implies params_loop(pa, p1, seq![cur_ident(pa)], r) by {
                assert(step((pm, *self)));
                assert(identifiers@ == ids0.push(cur_ident(*self)));
                assert(params_loop(before, p1, ids0, r));
            }
        }
        let ghost q = *self;
        let ok = self.expect_peek(TokenType::RPAREN);
        assert(step(ok));
        if !ok {
            assert(params_loop(q, *self, identifiers@, None));
            assert(params_loop(pa, *self, seq![cur_ident(pa)], None));
            return None;
        }
        assert(params_loop(q, *self, identifiers@, Some(identifiers@)));
        assert(params_loop(pa, *self, seq![cur_ident(pa)], Some(identifiers@)));
        Some(identifiers)
    }

    fn parse_call_expression(&mut self, function: Expression) -> (r: Option<Expression>)
        requires
            old(self).wf(),
            old(self).cur_token.tk_type != TokenType::EOF,
        ensures
            Parser::step(old(self), final(self)),
            final(self).measure() < old(self).measure(),
            call_parsed(*old(self), *final(self), function, r),
        decreases old(self).measure(), 16int,
    {
        let token = self.cur_token.duplicate();
        let args = self.parse_expression_list(TokenType::RPAREN);
        let ghost av: Option<Seq<Expression>> = opt_seq(args);
        assert(step(av));
        let arguments = match args {
            Some(a) => a,
            None => return None,
        };
        Some(Expression::CallExpression(CallExpression { token, function: Box::new(function), arguments }))
    }

    fn parse_string_literal(&self) -> (e: Expression)
        ensures
            e == Expression::StringLiteral(
                StringLiteral { token: self.cur_token, value: self.cur_token.literal },
            ),
    {
        Expression::StringLiteral(
            StringLiteral { token: self.cur_token.duplicate(), value: self.cur_token.literal.clone() },
        )
    }

    fn parse_array_literal(&mut self) -> (r: Option<Expression>)
        requires
            old(self).wf(),
            old(self).cur_token.tk_type != TokenType::EOF,
        ensures
            Parser::step(old(self), final(self)),
            array_parsed(*old(self), *final(self), r),
        decreases old(self).measure(), 16int,
    {
        let token = self.cur_token.duplicate();
        let items = self.parse_expression_list(TokenType::RBRACKET);
        let ghost iv: Option<Seq<Expression>> = opt_seq(items);
        assert(step(iv));
        let elements = match items {
            Some(e) => e,
            None => return None,
        };
        Some(Expression::ArrayLiteral(ArrayLiteral { token, elements }))
    }

    fn parse_expression_list(&mut self, end: TokenType) -> (r: Option<Vec<Expression>>)
        requires
            old(self).wf(),
            old(self).cur_token.tk_type != TokenType::EOF,
        ensures
            Parser::step(old(self), final(self)),
            final(self).measure() < old(self).measure(),
            list_parsed(
                *old(self),
                *final(self),
                end,
                opt_seq(r),
            ),
        decreases old(self).measure(), 15int,
    {
        let mut list: Vec<Expression> = Vec::new();
        if self.peek_token_is(end) {
            self.next_token();
            return Some(list);
        }
        self.next_token();
        let ghost pa = *self;
        let e = self.parse_expression(Precedence::LOWEST);
        let ghost pb = *self;
        assert(step((pa, pb, e)));
        match e {
            Some(e) => list.push(e),
            None => return None,
        }
        while self.peek_token_is(TokenType::COMMA)
            invariant
                Parser::step(old(self), self),
                self.measure() < old(self).measure(),
                advanced(*old(self), pa),
                pa.measure() < old(self).measure(),
                0 <= pb.measure() < old(self).measure(),
                parsed_expr(pa, pb, Precedence::LOWEST, e),
                e is Some,
                old(self).peek_token.tk_type != end,
                forall|p1: Parser, r: Option<Seq<Expression>>|
                    #[trigger] list_loop(*self, p1, end, list@, r) ==> list_loop(pb, p1, end, seq![e.unwrap()], r),
            decreases self.measure(),
        {
            let ghost before = *self;
            let ghost items0 = list@;
            self.next_token();
            let ghost pm = *self;
            self.next_token();
            let ghost pn = *self;
            let x = self.parse_expression(Precedence::LOWEST);
            assert(step((pm, pn, *self, x)));
            match x {
                Some(x) => list.push(x),
                None => {
                    assert(list_loop(before, *self, end, items0, None));
                    assert(list_loop(pb, *self, end, seq![e.unwrap()], None));
                    assert(step((pa, pb, e)));
                    return None;
                },
            }
            assert(self.measure() < before.measure());
            assert forall|p1: Parser, r: Option<Seq<Expression>>|
                #[trigger] list_loop(*self, p1, end, list@, r) implies list_loop(pb, p1, end, seq![e.unwrap()], r) by {
                assert(list_loop(before, p1, end, items0, r));
            }
        }
        let ghost q = *self;
        let ok = self.expect_peek(end);
        assert(step(ok));
        if !ok {
            assert(list_loop(q, *self, end, list@, None));
            assert(list_loop(pb, *self, end, seq![e.unwrap()], None));
            return None;
        }
        assert(list_loop(q, *self, end, list@, Some(list@)));
        assert(list_loop(pb, *self, end, seq![e.unwrap()], Some(list@)));
        Some(list)
    }

    fn parse_index_expression(&mut self, left: Expression) -> (r: Option<Expression>)
        requires
            old(self).wf(),
            old(self).cur_token.tk_type != TokenType::EOF,
        ensures
            Parser::step(old(self), final(self)),
            final(self).measure() < old(self).measure(),
            index_parsed(*old(self), *final(self), left, r),
        decreases old(self).measure(), 16int,
    {
        let token = self.cur_token.duplicate();
        self.next_token();
        let ghost pa = *self;
        let e = self.parse_expression(Precedence::LOWEST);
        assert(step((pa, *self, e)));
        let index = match e {
            Some(i) => i,
            None => return None,
        };
        let ok = self.expect_peek(TokenType::RBRACKET);
        assert(step(ok));
        if !ok {
            return None;
        }
        Some(
            Expression::IndexExpression(
                IndexExpression { token, left: Box::new(left), index: Box::new(index) },
            ),
        )
    }

    fn parse_hash_literal(&mut self) -> (r: Option<Expression>)
        requires
            old(self).wf(),
            old(self).cur_token.tk_type != TokenType::EOF,
        ensures
            Parser::step(old(self), final(self)),
            hash_parsed(*old(self), *final(self), r),
        decreases old(self).measure(), 16int,
    {
        let token = self.cur_token.duplicate();
        let mut pairs: Vec<(Expression, Expression)> = Vec::new();
        let ghost p0 = *self;
        while !self.peek_token_is(TokenType::RBRACE)
            invariant
                Parser::step(old(self), self),
                p0 == *old(self),
                self.cur_token.tk_type != TokenType::EOF,
                self.measure() <= old(self).measure(),
                forall|p1: Parser, r: Option<Seq<(Expression, Expression)>>|
                    #[trigger] pairs_loop(*self, p1, pairs@, r) ==> pairs_loop(p0, p1, Seq::empty(), r),
            decreases self.measure(),
        {
            let ghost before = *self;
            let ghost pairs0 = pairs@;
            self.next_token();
            let ghost pa = *self;
            let k = self.parse_expression(Precedence::LOWEST);
            let ghost pb = *self;
            assert(step((pa, pb, k)));
            let key = match k {
                Some(k) => k,
                None => {
                    assert(pairs_loop(before, *self, pairs0, None));
                    assert(step(None::<Seq<(Expression, Expression)>>));
                    return None;
                },
            };
            let okc = self.expect_peek(TokenType::COLON);
            let ghost pc = *self;
            assert(step((pc, okc)));
            if !okc {
                assert(pairs_loop(before, *self, pairs0, None));
                assert(step(None::<Seq<(Expression, Expression)>>));
                return None;
            }
            self.next_token();
            let ghost pd = *self;
            let v = self.parse_expression(Precedence::LOWEST);
            let ghost pe = *self;
            assert(step((pd, pe, v)));
            let value = match v {
                Some(v) => v,
                None => {
                    assert(pairs_loop(before, *self, pairs0, None));
                    assert(step(None::<Seq<(Expression, Expression)>>));
                    return None;
                },
            };
            pairs.push((key, value));
            if !self.peek_token_is(TokenType::RBRACE) {
                let okf = self.expect_peek(TokenType::COMMA);
                assert(step((*self, okf)));
                if !okf {
                    assert(pairs_loop(before, *self, pairs0, None));
                    assert(step(None::<Seq<(Expression, Expression)>>));
                    return None;
                }
            }
            assert(self.measure() < before.measure());
            assert forall|p1: Parser, r: Option<Seq<(Expression, Expression)>>|
                #[trigger] pairs_loop(*self, p1, pairs@, r) implies pairs_loop(p0, p1, Seq::empty(), r) by {
                assert(pairs_loop(before, p1, pairs0, r));
            }
        }
        let ghost q = *self;
        let ok = self.expect_peek(TokenType::RBRACE);
        assert(step(ok));
        if !ok {
            assert(pairs_loop(q, *self, pairs@, None));
            assert(pairs_loop(p0, *self, Seq::empty(), None));
            assert(step(None::<Seq<(Expression, Expression)>>));
            return None;
        }
        assert(pairs_loop(q, *self, pairs@, Some(pairs@)));
        assert(pairs_loop(p0, *self, Seq::empty(), Some(pairs@)));
        assert(step(Some(pairs@)));
        Some(Expression::HashLiteral(HashLiteral { token, pairs }))
    }

    /// The errors recorded so far, in the wording of this query: a message
    /// about an unexpected next token ends with a full stop.
    pub fn get_errors(&self) -> (r: Vec<String>)
        ensures
            r@.len() == self.errors@.len(),
            forall|i: int| 0 <= i < r@.len() ==> (#[trigger] r@[i])@ == reported_message(self.errors@[i]@),
    {
        let mut r: Vec<String> = Vec::new();
        let mut i: usize = 0;
        while i < self.errors.len()
            invariant
                i <= self.errors@.len(),
                r@.len() == i,
                forall|k: int| 0 <= k < i ==> (#[trigger] r@[k])@ == reported_message(self.errors@[k]@),
            decreases self.errors@.len() - i,
        {
            let mut m = self.errors[i].clone();
            let expected_prefix = "expected next token to be ";
            if has_prefix(m.as_str(), expected_prefix) {
                m.append(".");
            }
            proof {
                reveal_strlit("expected next token to be ");
                reveal_strlit(".");
            }
            r.push(m);
            i = i + 1;
        }
        r
    }
}

} // verus!
