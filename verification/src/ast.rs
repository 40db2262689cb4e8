//! The abstract syntax tree of Monkey programs and its rendering as text.
use vstd::prelude::*;
use crate::text::{string_from_chars, join_strings, seq_join};
use crate::token::Token;

verus! {

/// Rendering of a syntax node as source-like text.
pub trait NodeTrait {
    /// The text of the token the node starts with.
    fn token_literal(&self) -> String;

    /// The node rendered as text.
    fn string(&self) -> String;
}

/// Any syntax node.
#[derive(Debug)]
pub enum Node {
    Program(Program),
    Statement(Statement),
    Expression(Expression),
}

#[derive(Debug)]
pub enum Statement {
    LetStatement(LetStatement),
    ReturnStatement(ReturnStatement),
    ExpressionStatement(ExpressionStatement),
    BlockStatement(BlockStatement),
}

#[derive(Debug)]
pub enum Expression {
    Identifier(Identifier),
    IntegerLiteral(IntegerLiteral),
    PrefixExpression(PrefixExpression),
    InfixExpression(InfixExpression),
    BooleanLiteral(BooleanLiteral),
    IfExpression(IfExpression),
    FunctionLiteral(FunctionLiteral),
    CallExpression(CallExpression),
    StringLiteral(StringLiteral),
    ArrayLiteral(ArrayLiteral),
    IndexExpression(IndexExpression),
    HashLiteral(HashLiteral),
}

/// A whole program: its statements in order.
#[derive(Debug)]
pub struct Program {
    pub statements: Vec<Statement>,
}

#[derive(Debug)]
pub struct LetStatement {
    pub token: Token,
    pub name: Identifier,
    pub value: Expression,
}

#[derive(Debug)]
pub struct Identifier {
    pub token: Token,
    pub value: String,
}

#[derive(Debug)]
pub struct ReturnStatement {
    pub token: Token,
    pub return_value: Expression,
}

#[derive(Debug)]
pub struct ExpressionStatement {
    pub token: Token,
    pub expression: Expression,
}

#[derive(Debug)]
pub struct IntegerLiteral {
    pub token: Token,
    pub value: i64,
}

#[derive(Debug)]
pub struct PrefixExpression {
    pub token: Token,
    pub operator: String,
    pub right: Box<Expression>,
}

#[derive(Debug)]
pub struct InfixExpression {
    pub token: Token,
    pub left: Box<Expression>,
    pub operator: String,
    pub right: Box<Expression>,
}

#[derive(Debug)]
pub struct BooleanLiteral {
    pub token: Token,
    pub value: bool,
}

#[derive(Debug)]
pub struct IfExpression {
    pub token: Token,
    pub condition: Box<Expression>,
    pub consequence: BlockStatement,
    pub alternative: Option<BlockStatement>,
}

#[derive(Debug)]
pub struct BlockStatement {
    pub token: Token,
    pub statements: Vec<Statement>,
}

#[derive(Debug)]
pub struct FunctionLiteral {
    pub token: Token,
    pub parameters: Vec<Identifier>,
    pub body: BlockStatement,
}

#[derive(Debug)]
pub struct CallExpression {
    pub token: Token,
    pub function: Box<Expression>,
    pub arguments: Vec<Expression>,
}

#[derive(Debug)]
pub struct StringLiteral {
    pub token: Token,
    pub value: String,
}

#[derive(Debug)]
pub struct ArrayLiteral {
    pub token: Token,
    pub elements: Vec<Expression>,
}

#[derive(Debug)]
pub struct IndexExpression {
    pub token: Token,
    pub left: Box<Expression>,
    pub index: Box<Expression>,
}

/// A hash literal: its key and value expressions in source order.
#[derive(Debug)]
pub struct HashLiteral {
    pub token: Token,
    pub pairs: Vec<(Expression, Expression)>,
}

// ---------------------------------------------------------------------------
// The text of a node, as mathematical character sequences.

pub open spec fn ident_str(i: Identifier) -> Seq<char> {
    i.value@
}

pub open spec fn idents_str(ps: Seq<Identifier>) -> Seq<Seq<char>> {
    ps.map_values(|p: Identifier| ident_str(p))
}

pub open spec fn expr_str(e: Expression) -> Seq<char>
    decreases e,
{
    match e {
        Expression::Identifier(i) => i.value@,
        Expression::IntegerLiteral(i) => i.token.literal@,
        Expression::PrefixExpression(p) => "("@ + p.operator@ + expr_str(*p.right) + ")"@,
        Expression::InfixExpression(i) => "("@ + expr_str(*i.left) + " "@ + i.operator@ + " "@
            + expr_str(*i.right) + ")"@,
        Expression::BooleanLiteral(b) => b.token.literal@,
        Expression::IfExpression(i) => "if"@ + expr_str(*i.condition) + " "@ + stmts_str(
            i.consequence.statements@,
        ) + match i.alternative {
            Some(a) => "else "@ + stmts_str(a.statements@),
            None => Seq::empty(),
        },
        Expression::FunctionLiteral(f) => f.token.literal@ + " ("@ + seq_join(
            idents_str(f.parameters@),
            ", "@,
        ) + ") "@ + stmts_str(f.body.statements@),
        Expression::CallExpression(c) => expr_str(*c.function) + "("@ + exprs_join(c.arguments@)
            + ")"@,
        Expression::StringLiteral(s) => s.value@,
        Expression::ArrayLiteral(a) => "["@ + exprs_join(a.elements@) + "]"@,
        Expression::IndexExpression(i) => "("@ + expr_str(*i.left) + "["@ + expr_str(*i.index)
            + "])"@,
        Expression::HashLiteral(h) => "{"@ + pairs_join(h.pairs@) + "}"@,
    }
}

/// The expressions rendered and joined by ", ".
pub open spec fn exprs_join(es: Seq<Expression>) -> Seq<char>
    decreases es,
{
    if es.len() == 0 {
        Seq::empty()
    } else if es.len() == 1 {
        expr_str(es[0])
    } else {
        exprs_join(es.drop_last()) + ", "@ + expr_str(es.last())
    }
}

/// The pairs rendered as "key:value" and joined by ", ".
pub open spec fn pairs_join(ps: Seq<(Expression, Expression)>) -> Seq<char>
    decreases ps,
{
    if ps.len() == 0 {
        Seq::empty()
    } else if ps.len() == 1 {
        expr_str(ps[0].0) + ":"@ + expr_str(ps[0].1)
    } else {
        pairs_join(ps.drop_last()) + ", "@ + expr_str(ps.last().0) + ":"@ + expr_str(ps.last().1)
    }
}

pub open spec fn stmt_str(s: Statement) -> Seq<char>
    decreases s,
{
    match s {
        Statement::LetStatement(l) => l.token.literal@ + " "@ + l.name.value@ + " = "@ + expr_str(
            l.value,
        ) + ";"@,
        Statement::ReturnStatement(r) => r.token.literal@ + " "@ + expr_str(r.return_value)
            + ";"@,
        Statement::ExpressionStatement(e) => expr_str(e.expression),
        Statement::BlockStatement(b) => stmts_str(b.statements@),
    }
}

/// The statements rendered one after another.
pub open spec fn stmts_str(ss: Seq<Statement>) -> Seq<char>
    decreases ss,
{
    if ss.len() == 0 {
        Seq::empty()
    } else {
        stmts_str(ss.drop_last()) + stmt_str(ss.last())
    }
}

} // verus!

verus! {

/// The text of the token a statement starts with.
pub open spec fn stmt_token(s: Statement) -> Seq<char> {
    match s {
        Statement::LetStatement(l) => l.token.literal@,
        Statement::ReturnStatement(r) => r.token.literal@,
        Statement::ExpressionStatement(e) => e.token.literal@,
        Statement::BlockStatement(b) => b.token.literal@,
    }
}

/// The text of the token an expression starts with.
pub open spec fn expr_token(e: Expression) -> Seq<char> {
    match e {
        Expression::Identifier(x) => x.token.literal@,
        Expression::IntegerLiteral(x) => x.token.literal@,
        Expression::PrefixExpression(x) => x.token.literal@,
        Expression::InfixExpression(x) => x.token.literal@,
        Expression::BooleanLiteral(x) => x.token.literal@,
        Expression::IfExpression(x) => x.token.literal@,
        Expression::FunctionLiteral(x) => x.token.literal@,
        Expression::CallExpression(x) => x.token.literal@,
        Expression::StringLiteral(x) => x.token.literal@,
        Expression::ArrayLiteral(x) => x.token.literal@,
        Expression::IndexExpression(x) => x.token.literal@,
        Expression::HashLiteral(x) => x.token.literal@,
    }
}

pub open spec fn program_str(p: Program) -> Seq<char> {
    stmts_str(p.statements@)
}

pub open spec fn program_token(p: Program) -> Seq<char> {
    if p.statements@.len() > 0 { stmt_token(p.statements@[0]) } else { Seq::empty() }
}

pub open spec fn node_str(n: Node) -> Seq<char> {
    match n {
        Node::Program(p) => program_str(p),
        Node::Statement(s) => stmt_str(s),
        Node::Expression(e) => expr_str(e),
    }
}

pub open spec fn node_token(n: Node) -> Seq<char> {
    match n {
        Node::Program(p) => program_token(p),
        Node::Statement(s) => stmt_token(s),
        Node::Expression(e) => expr_token(e),
    }
}

impl NodeTrait for Node {
    fn token_literal(&self) -> (s: String)
        ensures
            s@ == node_token(*self),
    {
        match self {
            Node::Program(p) => p.token_literal(),
            Node::Statement(s) => s.token_literal(),
            Node::Expression(e) => e.token_literal(),
        }
    }

    fn string(&self) -> (s: String)
        ensures
            s@ == node_str(*self),
    {
        match self {
            Node::Program(p) => p.string(),
            Node::Statement(s) => s.string(),
            Node::Expression(e) => e.string(),
        }
    }
}

impl Program {
    pub fn token_literal(&self) -> (s: String)
        ensures
            s@ == program_token(*self),
    {
        if self.statements.len() > 0 {
            self.statements[0].token_literal()
        } else {
            String::new()
        }
    }

    pub fn string(&self) -> (s: String)
        ensures
            s@ == program_str(*self),
    {
        statements_string(&self.statements)
    }

}

/// The statements rendered one after another.
pub fn statements_string(ss: &Vec<Statement>) -> (s: String)
    ensures
        s@ == stmts_str(ss@),
    decreases ss@,
{
    let mut out = String::new();
    let mut i: usize = 0;
    while i < ss.len()
        invariant
            i <= ss@.len(),
            out@ == stmts_str(ss@.take(i as int)),
        decreases ss@.len() - i,
    {
        assert(ss@.take(i + 1).drop_last() =~= ss@.take(i as int));
        let part = ss[i].string();
        out.append(part.as_str());
        i = i + 1;
    }
    assert(ss@.take(ss@.len() as int) =~= ss@);
    out
}

/// The expressions rendered and joined by ", ".
pub fn expressions_string(es: &Vec<Expression>) -> (s: String)
    ensures
        s@ == exprs_join(es@),
    decreases es@,
{
    let mut out = String::new();
    let mut i: usize = 0;
    while i < es.len()
        invariant
            i <= es@.len(),
            out@ == exprs_join(es@.take(i as int)),
        decreases es@.len() - i,
    {
        assert(es@.take(i + 1).drop_last() =~= es@.take(i as int));
        if i > 0 {
            out.append(", ");
        }
        let part = es[i].string();
        out.append(part.as_str());
        i = i + 1;
    }
    assert(es@.take(es@.len() as int) =~= es@);
    out
}

/// The pairs rendered as "key:value" and joined by ", ".
pub fn pairs_string(ps: &Vec<(Expression, Expression)>) -> (s: String)
    ensures
        s@ == pairs_join(ps@),
    decreases ps@,
{
    let mut out = String::new();
    let mut i: usize = 0;
    while i < ps.len()
        invariant
            i <= ps@.len(),
            out@ == pairs_join(ps@.take(i as int)),
        decreases ps@.len() - i,
    {
        assert(ps@.take(i + 1).drop_last() =~= ps@.take(i as int));
        if i > 0 {
            out.append(", ");
        }
        let k = ps[i].0.string();
        let v = ps[i].1.string();
        out.append(k.as_str());
        out.append(":");
        out.append(v.as_str());
        i = i + 1;
    }
    assert(ps@.take(ps@.len() as int) =~= ps@);
    out
}

/// The identifiers' names joined by ", ".
pub fn identifiers_string(ps: &Vec<Identifier>) -> (s: String)
    ensures
        s@ == seq_join(idents_str(ps@), ", "@),
{
    let mut parts: Vec<String> = Vec::new();
    let mut i: usize = 0;
    while i < ps.len()
        invariant
            i <= ps@.len(),
            parts@.len() == i,
            forall|k: int| 0 <= k < i ==> #[trigger] parts@[k]@ == ps@[k].value@,
        decreases ps@.len() - i,
    {
        parts.push(ps[i].string());
        i = i + 1;
    }
    assert(parts@.map_values(|p: String| p@) =~= idents_str(ps@));
    join_strings(&parts, ", ")
}

impl Statement {
    pub fn token_literal(&self) -> (s: String)
        ensures
            s@ == stmt_token(*self),
    {
        match self {
            Statement::LetStatement(l) => l.token_literal(),
            Statement::ReturnStatement(r) => r.token_literal(),
            Statement::ExpressionStatement(e) => e.token_literal(),
            Statement::BlockStatement(b) => b.token_literal(),
        }
    }

    pub fn string(&self) -> (s: String)
        ensures
            s@ == stmt_str(*self),
        decreases *self,
    {
        match self {
            Statement::LetStatement(l) => l.string(),
            Statement::ReturnStatement(r) => r.string(),
            Statement::ExpressionStatement(e) => e.string(),
            Statement::BlockStatement(b) => b.string(),
        }
    }

}

impl Expression {
    pub fn token_literal(&self) -> (s: String)
        ensures
            s@ == expr_token(*self),
    {
        match self {
            Expression::Identifier(x) => x.token_literal(),
            Expression::IntegerLiteral(x) => x.token_literal(),
            Expression::PrefixExpression(x) => x.token_literal(),
            Expression::InfixExpression(x) => x.token_literal(),
            Expression::BooleanLiteral(x) => x.token_literal(),
            Expression::IfExpression(x) => x.token_literal(),
            Expression::FunctionLiteral(x) => x.token_literal(),
            Expression::CallExpression(x) => x.token_literal(),
            Expression::StringLiteral(x) => x.token_literal(),
            Expression::ArrayLiteral(x) => x.token_literal(),
            Expression::IndexExpression(x) => x.token_literal(),
            Expression::HashLiteral(x) => x.token_literal(),
        }
    }

    pub fn string(&self) -> (s: String)
        ensures
            s@ == expr_str(*self),
        decreases *self,
    {
        match self {
            Expression::Identifier(x) => x.string(),
            Expression::IntegerLiteral(x) => x.string(),
            Expression::PrefixExpression(x) => x.string(),
            Expression::InfixExpression(x) => x.string(),
            Expression::BooleanLiteral(x) => x.string(),
            Expression::IfExpression(x) => x.string(),
            Expression::FunctionLiteral(x) => x.string(),
            Expression::CallExpression(x) => x.string(),
            Expression::StringLiteral(x) => x.string(),
            Expression::ArrayLiteral(x) => x.string(),
            Expression::IndexExpression(x) => x.string(),
            Expression::HashLiteral(x) => x.string(),
        }
    }

}

impl LetStatement {
    pub fn token_literal(&self) -> (s: String)
        ensures
            s@ == self.token.literal@,
    {
        self.token.literal.clone()
    }

    pub fn string(&self) -> (s: String)
        ensures
            s@ == stmt_str(Statement::LetStatement(*self)),
        decreases *self,
    {
        let mut out = self.token.literal.clone();
        out.append(" ");
        out.append(self.name.value.as_str());
        out.append(" = ");
        let v = self.value.string();
        out.append(v.as_str());
        out.append(";");
        out
    }

}

impl ReturnStatement {
    pub fn token_literal(&self) -> (s: String)
        ensures
            s@ == self.token.literal@,
    {
        self.token.literal.clone()
    }

    pub fn string(&self) -> (s: String)
        ensures
            s@ == stmt_str(Statement::ReturnStatement(*self)),
        decreases *self,
    {
        let mut out = self.token.literal.clone();
        out.append(" ");
        let v = self.return_value.string();
        out.append(v.as_str());
        out.append(";");
        out
    }

}

impl ExpressionStatement {
    pub fn token_literal(&self) -> (s: String)
        ensures
            s@ == self.token.literal@,
    {
        self.token.literal.clone()
    }

    pub fn string(&self) -> (s: String)
        ensures
            s@ == expr_str(self.expression),
        decreases *self,
    {
        self.expression.string()
    }

}

impl BlockStatement {
    pub fn token_literal(&self) -> (s: String)
        ensures
            s@ == self.token.literal@,
    {
        self.token.literal.clone()
    }

    pub fn string(&self) -> (s: String)
        ensures
            s@ == stmts_str(self.statements@),
        decreases *self,
    {
        statements_string(&self.statements)
    }

}

impl Identifier {
    pub fn token_literal(&self) -> (s: String)
        ensures
            s@ == self.token.literal@,
    {
        self.token.literal.clone()
    }

    pub fn string(&self) -> (s: String)
        ensures
            s@ == self.value@,
    {
        self.value.clone()
    }

}

impl IntegerLiteral {
    pub fn token_literal(&self) -> (s: String)
        ensures
            s@ == self.token.literal@,
    {
        self.token.literal.clone()
    }

    pub fn string(&self) -> (s: String)
        ensures
            s@ == self.token.literal@,
    {
        self.token.literal.clone()
    }

}

impl PrefixExpression {
    pub fn token_literal(&self) -> (s: String)
        ensures
            s@ == self.token.literal@,
    {
        self.token.literal.clone()
    }

    pub fn string(&self) -> (s: String)
        ensures
            s@ == expr_str(Expression::PrefixExpression(*self)),
        decreases *self,
    {
        let mut out = String::from_str("(");
        out.append(self.operator.as_str());
        let r = self.right.string();
        out.append(r.as_str());
        out.append(")");
        out
    }

}

impl InfixExpression {
    pub fn token_literal(&self) -> (s: String)
        ensures
            s@ == self.token.literal@,
    {
        self.token.literal.clone()
    }

    pub fn string(&self) -> (s: String)
        ensures
            s@ == expr_str(Expression::InfixExpression(*self)),
        decreases *self,
    {
        let mut out = String::from_str("(");
        let l = self.left.string();
        out.append(l.as_str());
        out.append(" ");
        out.append(self.operator.as_str());
        out.append(" ");
        let r = self.right.string();
        out.append(r.as_str());
        out.append(")");
        out
    }

}

impl BooleanLiteral {
    pub fn token_literal(&self) -> (s: String)
        ensures
            s@ == self.token.literal@,
    {
        self.token.literal.clone()
    }

    pub fn string(&self) -> (s: String)
        ensures
            s@ == self.token.literal@,
    {
        self.token.literal.clone()
    }

}

impl IfExpression {
    pub fn token_literal(&self) -> (s: String)
        ensures
            s@ == self.token.literal@,
    {
        self.token.literal.clone()
    }

    pub fn string(&self) -> (s: String)
        ensures
            s@ == expr_str(Expression::IfExpression(*self)),
        decreases *self,
    {
        let mut out = String::from_str("if");
        let c = self.condition.string();
        out.append(c.as_str());
        out.append(" ");
        let cons = self.consequence.string();
        out.append(cons.as_str());
        match &self.alternative {
            Some(a) => {
                out.append("else ");
                let alt = a.string();
                out.append(alt.as_str());
            },
            None => {},
        }
        out
    }

}

impl FunctionLiteral {
    pub fn token_literal(&self) -> (s: String)
        ensures
            s@ == self.token.literal@,
    {
        self.token.literal.clone()
    }

    pub fn string(&self) -> (s: String)
        ensures
            s@ == expr_str(Expression::FunctionLiteral(*self)),
        decreases *self,
    {
        let mut out = self.token.literal.clone();
        out.append(" (");
        let ps = identifiers_string(&self.parameters);
        out.append(ps.as_str());
        out.append(") ");
        let b = self.body.string();
        out.append(b.as_str());
        out
    }

}

impl CallExpression {
    pub fn token_literal(&self) -> (s: String)
        ensures
            s@ == self.token.literal@,
    {
        self.token.literal.clone()
    }

    pub fn string(&self) -> (s: String)
        ensures
            s@ == expr_str(Expression::CallExpression(*self)),
        decreases *self,
    {
        let mut out = self.function.string();
        out.append("(");
        let a = expressions_string(&self.arguments);
        out.append(a.as_str());
        out.append(")");
        out
    }

}

impl StringLiteral {
    pub fn token_literal(&self) -> (s: String)
        ensures
            s@ == self.token.literal@,
    {
        self.token.literal.clone()
    }

    pub fn string(&self) -> (s: String)
        ensures
            s@ == self.value@,
    {
        self.value.clone()
    }

}

impl ArrayLiteral {
    pub fn token_literal(&self) -> (s: String)
        ensures
            s@ == self.token.literal@,
    {
        self.token.literal.clone()
    }

    pub fn string(&self) -> (s: String)
        ensures
            s@ == expr_str(Expression::ArrayLiteral(*self)),
        decreases *self,
    {
        let mut out = String::from_str("[");
        let e = expressions_string(&self.elements);
        out.append(e.as_str());
        out.append("]");
        out
    }

}

impl IndexExpression {
    pub fn token_literal(&self) -> (s: String)
        ensures
            s@ == self.token.literal@,
    {
        self.token.literal.clone()
    }

    pub fn string(&self) -> (s: String)
        ensures
            s@ == expr_str(Expression::IndexExpression(*self)),
        decreases *self,
    {
        let mut out = String::from_str("(");
        let l = self.left.string();
        out.append(l.as_str());
        out.append("[");
        let i = self.index.string();
        out.append(i.as_str());
        out.append("])");
        out
    }

}

impl HashLiteral {
    pub fn token_literal(&self) -> (s: String)
        ensures
            s@ == self.token.literal@,
    {
        self.token.literal.clone()
    }

    pub fn string(&self) -> (s: String)
        ensures
            s@ == expr_str(Expression::HashLiteral(*self)),
        decreases *self,
    {
        let mut out = String::from_str("{");
        let p = pairs_string(&self.pairs);
        out.append(p.as_str());
        out.append("}");
        out
    }

}

} // verus!

verus! {

// ---------------------------------------------------------------------------
// Structural sameness of syntax trees, and copying.

pub open spec fn same_expr(a: Expression, b: Expression) -> bool
    decreases a,
{
    match (a, b) {
        (Expression::Identifier(x), Expression::Identifier(y)) => x == y,
        (Expression::IntegerLiteral(x), Expression::IntegerLiteral(y)) => x == y,
        (Expression::PrefixExpression(x), Expression::PrefixExpression(y)) => x.token == y.token
            && x.operator == y.operator && same_expr(*x.right, *y.right),
        (Expression::InfixExpression(x), Expression::InfixExpression(y)) => x.token == y.token
            && x.operator == y.operator && same_expr(*x.left, *y.left) && same_expr(
            *x.right,
            *y.right,
        ),
        (Expression::BooleanLiteral(x), Expression::BooleanLiteral(y)) => x == y,
        (Expression::IfExpression(x), Expression::IfExpression(y)) => x.token == y.token
            && same_expr(*x.condition, *y.condition) && same_block(x.consequence, y.consequence)
            && match (x.alternative, y.alternative) {
            (Some(p), Some(q)) => same_block(p, q),
            (None, None) => true,
            _ => false,
        },
        (Expression::FunctionLiteral(x), Expression::FunctionLiteral(y)) => x.token == y.token
            && x.parameters@ == y.parameters@ && same_block(x.body, y.body),
        (Expression::CallExpression(x), Expression::CallExpression(y)) => x.token == y.token
            && same_expr(*x.function, *y.function) && same_exprs(x.arguments@, y.arguments@),
        (Expression::StringLiteral(x), Expression::StringLiteral(y)) => x == y,
        (Expression::ArrayLiteral(x), Expression::ArrayLiteral(y)) => x.token == y.token
            && same_exprs(x.elements@, y.elements@),
        (Expression::IndexExpression(x), Expression::IndexExpression(y)) => x.token == y.token
            && same_expr(*x.left, *y.left) && same_expr(*x.index, *y.index),
        (Expression::HashLiteral(x), Expression::HashLiteral(y)) => x.token == y.token
            && same_pairs(x.pairs@, y.pairs@),
        _ => false,
    }
}

pub open spec fn same_exprs(a: Seq<Expression>, b: Seq<Expression>) -> bool
    decreases a,
{
    a.len() == b.len() && (a.len() == 0 || (same_exprs(a.drop_last(), b.drop_last()) && same_expr(
        a.last(),
        b.last(),
    )))
}

pub open spec fn same_pairs(a: Seq<(Expression, Expression)>, b: Seq<(Expression, Expression)>) -> bool
    decreases a,
{
    a.len() == b.len() && (a.len() == 0 || (same_pairs(a.drop_last(), b.drop_last()) && same_expr(
        a.last().0,
        b.last().0,
    ) && same_expr(a.last().1, b.last().1)))
}

pub open spec fn same_block(a: BlockStatement, b: BlockStatement) -> bool
    decreases a,
{
    a.token == b.token && same_stmts(a.statements@, b.statements@)
}

pub open spec fn same_stmt(a: Statement, b: Statement) -> bool
    decreases a,
{
    match (a, b) {
        (Statement::LetStatement(x), Statement::LetStatement(y)) => x.token == y.token && x.name
            == y.name && same_expr(x.value, y.value),
        (Statement::ReturnStatement(x), Statement::ReturnStatement(y)) => x.token == y.token
            && same_expr(x.return_value, y.return_value),
        (Statement::ExpressionStatement(x), Statement::ExpressionStatement(y)) => x.token
            == y.token && same_expr(x.expression, y.expression),
        (Statement::BlockStatement(x), Statement::BlockStatement(y)) => same_block(x, y),
        _ => false,
    }
}

pub open spec fn same_stmts(a: Seq<Statement>, b: Seq<Statement>) -> bool
    decreases a,
{
    a.len() == b.len() && (a.len() == 0 || (same_stmts(a.drop_last(), b.drop_last()) && same_stmt(
        a.last(),
        b.last(),
    )))
}

impl Program {
    /// A copy of the program.
    pub fn duplicate(&self) -> (r: Program)
        ensures
            same_stmts(r.statements@, self.statements@),
    {
        Program { statements: duplicate_statements(&self.statements) }
    }
}

/// A copy of the statements.
pub fn duplicate_statements(ss: &Vec<Statement>) -> (r: Vec<Statement>)
    ensures
        same_stmts(r@, ss@),
    decreases ss@,
{
    let mut r: Vec<Statement> = Vec::new();
    let mut i: usize = 0;
    while i < ss.len()
        invariant
            i <= ss@.len(),
            same_stmts(r@, ss@.take(i as int)),
        decreases ss@.len() - i,
    {
        let ghost prev = r@;
        let d = ss[i].duplicate();
        r.push(d);
        assert(r@.drop_last() =~= prev);
        assert(ss@.take(i + 1).drop_last() =~= ss@.take(i as int));
        i = i + 1;
    }
    assert(ss@.take(ss@.len() as int) =~= ss@);
    r
}

/// A copy of the expressions.
pub fn duplicate_expressions(es: &Vec<Expression>) -> (r: Vec<Expression>)
    ensures
        same_exprs(r@, es@),
    decreases es@,
{
    let mut r: Vec<Expression> = Vec::new();
    let mut i: usize = 0;
    while i < es.len()
        invariant
            i <= es@.len(),
            same_exprs(r@, es@.take(i as int)),
        decreases es@.len() - i,
    {
        let ghost prev = r@;
        let d = es[i].duplicate();
        r.push(d);
        assert(r@.drop_last() =~= prev);
        assert(es@.take(i + 1).drop_last() =~= es@.take(i as int));
        i = i + 1;
    }
    assert(es@.take(es@.len() as int) =~= es@);
    r
}

/// A copy of the pairs.
pub fn duplicate_pairs(ps: &Vec<(Expression, Expression)>) -> (r: Vec<(Expression, Expression)>)
    ensures
        same_pairs(r@, ps@),
    decreases ps@,
{
    let mut r: Vec<(Expression, Expression)> = Vec::new();
    let mut i: usize = 0;
    while i < ps.len()
        invariant
            i <= ps@.len(),
            same_pairs(r@, ps@.take(i as int)),
        decreases ps@.len() - i,
    {
        let ghost prev = r@;
        let k = ps[i].0.duplicate();
        let v = ps[i].1.duplicate();
        r.push((k, v));
        assert(r@.drop_last() =~= prev);
        assert(ps@.take(i + 1).drop_last() =~= ps@.take(i as int));
        i = i + 1;
    }
    assert(ps@.take(ps@.len() as int) =~= ps@);
    r
}

/// A copy of the identifiers.
pub fn duplicate_identifiers(ps: &Vec<Identifier>) -> (r: Vec<Identifier>)
    ensures
        r@ == ps@,
{
    let mut r: Vec<Identifier> = Vec::new();
    let mut i: usize = 0;
    while i < ps.len()
        invariant
            i <= ps@.len(),
            r@ == ps@.take(i as int),
        decreases ps@.len() - i,
    {
        r.push(ps[i].duplicate());
        i = i + 1;
        assert(r@ =~= ps@.take(i as int));
    }
    assert(ps@.take(ps@.len() as int) =~= ps@);
    r
}

impl Statement {
    /// A copy of the statement.
    pub fn duplicate(&self) -> (r: Statement)
        ensures
            same_stmt(r, *self),
        decreases *self,
    {
        match self {
            Statement::LetStatement(l) => Statement::LetStatement(l.duplicate()),
            Statement::ReturnStatement(r) => Statement::ReturnStatement(r.duplicate()),
            Statement::ExpressionStatement(e) => Statement::ExpressionStatement(e.duplicate()),
            Statement::BlockStatement(b) => Statement::BlockStatement(b.duplicate()),
        }
    }
}

impl Expression {
    /// A copy of the expression.
    pub fn duplicate(&self) -> (r: Expression)
        ensures
            same_expr(r, *self),
        decreases *self,
    {
        match self {
            Expression::Identifier(x) => Expression::Identifier(x.duplicate()),
            Expression::IntegerLiteral(x) => Expression::IntegerLiteral(x.duplicate()),
            Expression::PrefixExpression(x) => Expression::PrefixExpression(x.duplicate()),
            Expression::InfixExpression(x) => Expression::InfixExpression(x.duplicate()),
            Expression::BooleanLiteral(x) => Expression::BooleanLiteral(x.duplicate()),
            Expression::IfExpression(x) => Expression::IfExpression(x.duplicate()),
            Expression::FunctionLiteral(x) => Expression::FunctionLiteral(x.duplicate()),
            Expression::CallExpression(x) => Expression::CallExpression(x.duplicate()),
            Expression::StringLiteral(x) => Expression::StringLiteral(x.duplicate()),
            Expression::ArrayLiteral(x) => Expression::ArrayLiteral(x.duplicate()),
            Expression::IndexExpression(x) => Expression::IndexExpression(x.duplicate()),
            Expression::HashLiteral(x) => Expression::HashLiteral(x.duplicate()),
        }
    }
}

impl LetStatement {
    pub fn duplicate(&self) -> (r: LetStatement)
        ensures
            same_stmt(Statement::LetStatement(r), Statement::LetStatement(*self)),
        decreases *self,
    {
        LetStatement {
            token: self.token.duplicate(),
            name: self.name.duplicate(),
            value: self.value.duplicate(),
        }
    }
}

impl ReturnStatement {
    pub fn duplicate(&self) -> (r: ReturnStatement)
        ensures
            same_stmt(Statement::ReturnStatement(r), Statement::ReturnStatement(*self)),
        decreases *self,
    {
        ReturnStatement { token: self.token.duplicate(), return_value: self.return_value.duplicate() }
    }
}

impl ExpressionStatement {
    pub fn duplicate(&self) -> (r: ExpressionStatement)
        ensures
            same_stmt(Statement::ExpressionStatement(r), Statement::ExpressionStatement(*self)),
        decreases *self,
    {
        ExpressionStatement { token: self.token.duplicate(), expression: self.expression.duplicate() }
    }
}

impl BlockStatement {
    pub fn duplicate(&self) -> (r: BlockStatement)
        ensures
            same_block(r, *self),
        decreases *self,
    {
        BlockStatement { token: self.token.duplicate(), statements: duplicate_statements(&self.statements) }
    }
}

impl Identifier {
    pub fn duplicate(&self) -> (r: Identifier)
        ensures
            r == *self,
    {
        Identifier { token: self.token.duplicate(), value: self.value.clone() }
    }
}

impl IntegerLiteral {
    pub fn duplicate(&self) -> (r: IntegerLiteral)
        ensures
            r == *self,
    {
        IntegerLiteral { token: self.token.duplicate(), value: self.value }
    }
}

impl PrefixExpression {
    pub fn duplicate(&self) -> (r: PrefixExpression)
        ensures
            same_expr(Expression::PrefixExpression(r), Expression::PrefixExpression(*self)),
        decreases *self,
    {
        PrefixExpression {
            token: self.token.duplicate(),
            operator: self.operator.clone(),
            right: Box::new(self.right.duplicate()),
        }
    }
}

impl InfixExpression {
    pub fn duplicate(&self) -> (r: InfixExpression)
        ensures
            same_expr(Expression::InfixExpression(r), Expression::InfixExpression(*self)),
        decreases *self,
    {
        InfixExpression {
            token: self.token.duplicate(),
            left: Box::new(self.left.duplicate()),
            operator: self.operator.clone(),
            right: Box::new(self.right.duplicate()),
        }
    }
}

impl BooleanLiteral {
    pub fn duplicate(&self) -> (r: BooleanLiteral)
        ensures
            r == *self,
    {
        BooleanLiteral { token: self.token.duplicate(), value: self.value }
    }
}

impl IfExpression {
    pub fn duplicate(&self) -> (r: IfExpression)
        ensures
            same_expr(Expression::IfExpression(r), Expression::IfExpression(*self)),
        decreases *self,
    {
        let alternative = match &self.alternative {
            Some(a) => Some(a.duplicate()),
            None => None,
        };
        IfExpression {
            token: self.token.duplicate(),
            condition: Box::new(self.condition.duplicate()),
            consequence: self.consequence.duplicate(),
            alternative,
        }
    }
}

impl FunctionLiteral {
    pub fn duplicate(&self) -> (r: FunctionLiteral)
        ensures
            same_expr(Expression::FunctionLiteral(r), Expression::FunctionLiteral(*self)),
        decreases *self,
    {
        FunctionLiteral {
            token: self.token.duplicate(),
            parameters: duplicate_identifiers(&self.parameters),
            body: self.body.duplicate(),
        }
    }
}

impl CallExpression {
    pub fn duplicate(&self) -> (r: CallExpression)
        ensures
            same_expr(Expression::CallExpression(r), Expression::CallExpression(*self)),
        decreases *self,
    {
        CallExpression {
            token: self.token.duplicate(),
            function: Box::new(self.function.duplicate()),
            arguments: duplicate_expressions(&self.arguments),
        }
    }
}

impl StringLiteral {
    pub fn duplicate(&self) -> (r: StringLiteral)
        ensures
            r == *self,
    {
        StringLiteral { token: self.token.duplicate(), value: self.value.clone() }
    }
}

impl ArrayLiteral {
    pub fn duplicate(&self) -> (r: ArrayLiteral)
        ensures
            same_expr(Expression::ArrayLiteral(r), Expression::ArrayLiteral(*self)),
        decreases *self,
    {
        ArrayLiteral { token: self.token.duplicate(), elements: duplicate_expressions(&self.elements) }
    }
}

impl IndexExpression {
    pub fn duplicate(&self) -> (r: IndexExpression)
        ensures
            same_expr(Expression::IndexExpression(r), Expression::IndexExpression(*self)),
        decreases *self,
    {
        IndexExpression {
            token: self.token.duplicate(),
            left: Box::new(self.left.duplicate()),
            index: Box::new(self.index.duplicate()),
        }
    }
}

impl HashLiteral {
    pub fn duplicate(&self) -> (r: HashLiteral)
        ensures
            same_expr(Expression::HashLiteral(r), Expression::HashLiteral(*self)),
        decreases *self,
    {
        HashLiteral { token: self.token.duplicate(), pairs: duplicate_pairs(&self.pairs) }
    }
}

} // verus!
