//! Interactive sessions: one line of input at a time, with what earlier
//! lines defined kept for the next.
use vstd::prelude::*;
use crate::ast::{Node, Program, Statement};
use crate::lexer::{Lexer, spec_next_token};
use crate::parser::{Parser, program_loop};
use crate::compiler::{Compiler, constants_wf, compiled_node, builtin_table, builtin_lookup};
use crate::symbol_table::{SymbolTable, spec_resolve};
use crate::object::{Object, inspect_object, same_obj, same_objs, obj_inspect};
use crate::environment::EnvStore;
use crate::vm::{Vm, GLOBALS_SIZE, STACK_SIZE, machine_started, ran, outcome};
use crate::evaluator::{node_rel, MAX_CALL_DEPTH};
use crate::step;
use crate::token::TokenType;
use crate::text::byte_chars;
use vstd::utf8::encode_utf8;

verus! {

/// What running one line gave.
#[derive(Debug)]
pub enum LineOutcome {
    /// The line did not parse; the parser's messages.
    ParseErrors(Vec<String>),
    /// The line parsed but did not compile.
    CompileError(String),
    /// Running the line failed.
    RuntimeError(String),
    /// The printed form of the line's value, if it has one.
    Value(Option<String>),
}

/// A session of the compiler and virtual machine: the symbol table, the
/// constants and the globals that earlier lines left.
#[derive(Debug)]
pub struct Session {
    pub symbol_table: SymbolTable,
    pub constants: Vec<Object>,
    pub globals: Vec<Option<Object>>,
}

/// A parser that has read the first two tokens of `line` (the bytes of a
/// line, each as the character of the same number) and recorded no error
/// yet.
pub open spec fn parser_started(line: Seq<char>, p: Parser) -> bool {
    let first = spec_next_token(line, 0);
    &&& p.wf()
    &&& p.errors@.len() == 0
    &&& p.l.spec_input() == line
    &&& p.cur_token.tk_type == first.0
    &&& p.cur_token.literal@ == first.1
    &&& if first.0 != TokenType::EOF {
        (p.peek_token.tk_type, p.peek_token.literal@, p.l.spec_position()) == spec_next_token(line, first.2)
    } else {
        p.peek_token.tk_type == TokenType::EOF && p.peek_token.literal@ == Seq::<char>::empty()
            && p.l.spec_position() == first.2
    }
}

/// What parsing `line` gives: its statements, or the parser's messages
/// when there are any.
pub open spec fn line_parsed(line: Seq<char>, r: Result<Program, Vec<String>>) -> bool {
    if encode_utf8(line).len() >= usize::MAX - 2 {
        r matches Err(es) && es@.len() == 1 && es@[0]@ == "input too long"@
    } else {
        exists|p0: Parser, p1: Parser, stmts: Seq<Statement>|
            #![trigger step((p0, p1, stmts))]
            parser_started(byte_chars(encode_utf8(line)), p0) && program_loop(p0, p1, Seq::empty(), stmts) && if p1.errors@.len() == 0 {
                r matches Ok(prog) && prog.statements@ == stmts
            } else {
                r matches Err(es) && es@ == p1.errors@
            }
    }
}

/// A compiler about to compile into an empty main scope, going on from the
/// given symbol table and constants.
pub open spec fn compiler_started(c: Compiler, table: SymbolTable, constants: Seq<Object>) -> bool {
    &&& c.wf()
    &&& c.scope_index == 0
    &&& c.symbol_table == table
    &&& c.constants@ == constants
    &&& c.current() == Seq::<u8>::empty()
    &&& c.scopes@.len() == 1
    &&& c.scopes@[0].last_instruction is None
    &&& c.scopes@[0].previous_instruction is None
}

/// What the machine left as the line's value: the printed form of (a copy
/// of) the value in the slot just above the top of the stack, if any.
pub open spec fn last_value(v: Vm, x: Option<String>) -> bool {
    if v.sp < STACK_SIZE {
        match v.stack@[v.sp as int] {
            None => x is None,
            Some(o) => exists|c: Object|
                #![trigger step(c)]
                same_obj(c, o) && (x matches Some(s) && s@ == obj_inspect(c)),
        }
    } else {
        x is None
    }
}

/// Running the compiled line: a compile error is the outcome, else the
/// machine runs the main scope's instructions with copies of the constants
/// and the session's globals; what it printed is appended to the output.
pub open spec fn line_ran(
    c1: Compiler,
    rc: Result<(), String>,
    g0: Seq<Option<Object>>,
    g1: Seq<Option<Object>>,
    o0: Seq<String>,
    o1: Seq<String>,
    r: LineOutcome,
) -> bool {
    match rc {
        Err(e) => r matches LineOutcome::CompileError(m) && m == e && g1 == g0 && o1 == o0,
        Ok(_) => exists|v0: Vm, v1: Vm, rr: Option<Seq<char>>|
            #![trigger step((v0, v1, rr))]
            {
                &&& machine_started(v0, c1.current(), v0.constants@, g0)
                &&& same_objs(v0.constants@, c1.constants@)
                &&& ran(0, v0, v1, rr)
                &&& g1 == v1.globals@
                &&& o1 == o0 + v1.output@
                &&& match rr {
                    Some(e) => r matches LineOutcome::RuntimeError(m) && m@ == e,
                    None => r matches LineOutcome::Value(x) && last_value(v1, x),
                }
            },
    }
}

/// Parses a line; `Err` holds the parser's messages when there are any.
fn parse_line(line: &str) -> (r: Result<crate::ast::Program, Vec<String>>)
    ensures
        line_parsed(line@, r),
{
    if line.as_bytes().len() >= usize::MAX - 2 {
        let mut errors: Vec<String> = Vec::new();
        errors.push(String::from_str("input too long"));
        return Err(errors);
    }
    let l = Lexer::new(line);
    let mut p = Parser::new(l);
    let ghost p0 = p;
    let program = p.parse_statements();
    let ghost stmts = program.statements@;
    assert(step((p0, p, stmts)));
    if p.errors.len() != 0 {
        return Err(p.errors);
    }
    Ok(program)
}

impl Session {
    /// Symbol table and constants fit for the compiler, globals for the machine.
    pub open spec fn wf(&self) -> bool {
        &&& self.symbol_table.wf()
        &&& constants_wf(self.constants@)
        &&& self.globals@.len() >= GLOBALS_SIZE
    }

    /// A session with the builtins defined and nothing else.
    pub fn new() -> (s: Session)
        ensures
            s.wf(),
            s.constants@.len() == 0,
            s.symbol_table.outer is None,
            s.symbol_table.num_definitions == 0,
            forall|n: Seq<char>| #[trigger] spec_resolve(s.symbol_table, n) == builtin_lookup(n, 6),
            forall|i: int| 0 <= i < GLOBALS_SIZE ==> #[trigger] s.globals@[i] is None,
    {
        let symbol_table = builtin_table();
        let mut globals: Vec<Option<Object>> = Vec::new();
        let mut k: usize = 0;
        while k < GLOBALS_SIZE
            invariant
                k <= GLOBALS_SIZE,
                globals@.len() == k,
                forall|j: int| 0 <= j < k ==> #[trigger] globals@[j] is None,
            decreases GLOBALS_SIZE - k,
        {
            globals.push(None);
            k = k + 1;
        }
        Session { symbol_table, constants: Vec::new(), globals }
    }

    /// Parses, compiles and runs one line; what `puts` prints is appended to
    /// `output`.  Names, constants and globals the line defines stay for the
    /// next line, also when compiling or running it fails.
    pub fn run_line(&mut self, line: &str, output: &mut Vec<String>) -> (r: LineOutcome)
        requires
            old(self).wf(),
        ensures
            final(self).wf(),
            match r {
                LineOutcome::ParseErrors(es) => line_parsed(line@, Err(es)) && *final(self) == *old(self)
                    && final(output)@ == old(output)@,
                _ => exists|prog: Program, c0: Compiler, c1: Compiler, rc: Result<(), String>|
                    #![trigger step((prog, c0, c1, rc))]
                    {
                        &&& line_parsed(line@, Ok(prog))
                        &&& compiler_started(c0, old(self).symbol_table, old(self).constants@)
                        &&& compiled_node(Node::Program(prog), c0, c1, rc)
                        &&& final(self).symbol_table == c1.symbol_table
                        &&& final(self).constants@ == c1.constants@
                        &&& line_ran(c1, rc, old(self).globals@, final(self).globals@, old(output)@, final(output)@, r)
                    },
            },
    {
        let parsed = parse_line(line);
        let program = match parsed {
            Ok(p) => p,
            Err(errors) => {
                return LineOutcome::ParseErrors(errors);
            },
        };
        let ghost prog = program;
        let mut table = SymbolTable::new();
        std::mem::swap(&mut table, &mut self.symbol_table);
        let mut constants: Vec<Object> = Vec::new();
        std::mem::swap(&mut constants, &mut self.constants);
        let mut comp = Compiler::new_with_state(table, constants);
        let ghost c0 = comp;
        let compiled = comp.compile(&Node::Program(program));
        let ghost c1 = comp;
        let bytecode = comp.bytecode();
        self.symbol_table = comp.symbol_table;
        self.constants = comp.constants;
        let r = match compiled {
            Err(e) => LineOutcome::CompileError(e),
            Ok(()) => {
                let mut globals: Vec<Option<Object>> = Vec::new();
                std::mem::swap(&mut globals, &mut self.globals);
                let mut machine = Vm::new_with_globals_store(bytecode, globals);
                let ghost v0 = machine;
                let result = machine.run();
                let ghost v1 = machine;
                let mut printed: Vec<String> = Vec::new();
                std::mem::swap(&mut printed, &mut machine.output);
                output.append(&mut printed);
                let last = machine.last_popped_stack_elem();
                self.globals = machine.globals;
                let r = match result {
                    Err(e) => LineOutcome::RuntimeError(e),
                    Ok(()) => match last {
                        Some(v) => {
                            let s = inspect_object(&v);
                            assert(step(v));
                            LineOutcome::Value(Some(s))
                        },
                        None => LineOutcome::Value(None),
                    },
                };
                assert(step((v0, v1, outcome(result))));
                r
            },
        };
        assert(step((prog, c0, c1, compiled)));
        r
    }
}

/// A session of the tree-walking evaluator: the scopes earlier lines left.
#[derive(Debug)]
pub struct EvalSession {
    pub store: EnvStore,
}

impl EvalSession {
    pub open spec fn wf(&self) -> bool {
        self.store.wf()
    }

    /// A session with no names defined.
    pub fn new() -> (s: EvalSession)
        ensures
            s.wf(),
            s.store.envs@.len() == 1,
            s.store.envs@[0].store@.len() == 0,
            s.store.envs@[0].outer is None,
    {
        EvalSession { store: EnvStore::new() }
    }

    /// Parses and evaluates one line in the global scope; what `puts` prints
    /// is appended to `output`.
    pub fn run_line(&mut self, line: &str, output: &mut Vec<String>) -> (r: LineOutcome)
        requires
            old(self).wf(),
        ensures
            final(self).wf(),
            match r {
                LineOutcome::ParseErrors(es) => line_parsed(line@, Err(es)) && final(self).store == old(self).store
                    && final(output)@ == old(output)@,
                LineOutcome::Value(x) => exists|prog: Program, v: Option<Object>|
                    #![trigger step((prog, v))]
                    {
                        &&& line_parsed(line@, Ok(prog))
                        &&& node_rel(
                            MAX_CALL_DEPTH as nat,
                            Node::Program(prog),
                            old(self).store.envs@,
                            0,
                            old(output)@,
                            final(self).store.envs@,
                            final(output)@,
                            v,
                        )
                        &&& match v {
                            Some(o) => x matches Some(s) && s@ == obj_inspect(o),
                            None => x is None,
                        }
                    },
                _ => false,
            },
    {
        let program = match parse_line(line) {
            Ok(p) => p,
            Err(errors) => {
                return LineOutcome::ParseErrors(errors);
            },
        };
        let ghost prog = program;
        let v = crate::evaluator::eval(&Node::Program(program), &mut self.store, 0, output);
        assert(step((prog, v)));
        match v {
            Some(v) => LineOutcome::Value(Some(inspect_object(&v))),
            None => LineOutcome::Value(None),
        }
    }
}

} // verus!
