//! The compiler: turns a syntax tree into bytecode for the virtual machine.
use vstd::prelude::*;
use crate::ast::{
    Node, Program, Statement, Expression, BlockStatement, Identifier, FunctionLiteral,
    HashLiteral, expr_str, PrefixExpression, InfixExpression, IfExpression, IndexExpression,
    CallExpression,
};
use crate::code::{
    Instructions, Opcode, make, spec_make, spec_op_widths, spec_op_byte, spec_op_from_byte,
    wf_instructions, wf_instructions_from, is_instruction_start, is_boundary, op_len,
    lemma_make_wf, lemma_wf_append, lemma_wf_take, lemma_wf_replace, lemma_reaches_wf_at,
    lemma_op_byte_roundtrip, lemma_op_widths_small, sum_widths, lemma_wf_reaches_end, lemma_reaches_append,
    lemma_reaches_split, lemma_reaches_take, lemma_reaches_replace, reaches,
};
use crate::object::{Object, Integer, StringObj, CompiledFunction, duplicate_objects};
use crate::symbol_table::{
    SymbolTable, Symbol, SymbolScope, spec_resolve, sym_view, defined, defined_symbol, resolved, find_symbol,
};
use crate::step;
use crate::builtins::{get_builtin_names, builtin_name, builtin_at};
use crate::text::str_eq;

verus! {

/// What `n` resolves to in a scope where the first `k` builtins, and
/// nothing else, are defined.
pub open spec fn builtin_lookup(n: Seq<char>, k: nat) -> Option<(Seq<char>, SymbolScope, usize)>
    decreases k,
{
    if k == 0 {
        None
    } else if builtin_name(builtin_at(k - 1)) == n {
        Some((n, SymbolScope::BuiltinScope, (k - 1) as usize))
    } else {
        builtin_lookup(n, (k - 1) as nat)
    }
}

/// An outermost symbol table in which the builtins, and nothing else, are
/// defined, each under its number.
pub fn builtin_table() -> (t: SymbolTable)
    ensures
        t.wf(),
        t.outer is None,
        t.num_definitions == 0,
        forall|n: Seq<char>| #[trigger] spec_resolve(t, n) == builtin_lookup(n, 6),
{
    let mut symbol_table = SymbolTable::new();
    let names = get_builtin_names();
    let mut i: usize = 0;
    while i < names.len()
        invariant
            symbol_table.wf(),
            symbol_table.outer is None,
            symbol_table.num_definitions == 0,
            i <= names@.len(),
            names@.len() == 6,
            forall|j: int| 0 <= j < 6 ==> (#[trigger] names@[j])@ == builtin_name(builtin_at(j)),
            forall|n: Seq<char>| #[trigger] spec_resolve(symbol_table, n) == builtin_lookup(n, i as nat),
        decreases names@.len() - i,
    {
        let ghost old_table = symbol_table;
        symbol_table.define_builtin(i, names[i].as_str());
        proof {
            assert(names@[i as int]@ == builtin_name(builtin_at(i as int)));
            assert forall|n: Seq<char>| #[trigger] spec_resolve(symbol_table, n) == builtin_lookup(n, (i + 1) as nat) by {
                if n != names@[i as int]@ {
                    assert(spec_resolve(symbol_table, n) == spec_resolve(old_table, n)) by {
                        match find_symbol(old_table.store@, n) {
                            Some(k) => {}
                            None => {}
                        }
                    }
                }
            }
        }
        i = i + 1;
    }
    symbol_table
}

/// An instruction that was emitted: its opcode and where it starts.
#[derive(Debug, Clone, Copy, PartialEq, Eq, Structural)]
pub struct EmittedInstruction {
    pub opcode: Opcode,
    pub position: usize,
}

/// The instructions of one function being compiled, with the last two
/// instructions emitted into them.
#[derive(Debug)]
pub struct CompilationScope {
    pub instructions: Instructions,
    pub last_instruction: Option<EmittedInstruction>,
    pub previous_instruction: Option<EmittedInstruction>,
}

/// What the compiler hands to the virtual machine: the main program's
/// instructions and the constants they refer to.
#[derive(Debug)]
pub struct Bytecode {
    pub instuctions: Instructions,
    pub constants: Vec<Object>,
}

/// The compiler's state: constants gathered so far, the symbol table of the
/// scope being compiled, and one compilation scope per function being
/// compiled, the innermost last.
#[derive(Debug)]
pub struct Compiler {
    pub constants: Vec<Object>,
    pub symbol_table: SymbolTable,
    pub scopes: Vec<CompilationScope>,
    pub scope_index: usize,
}

/// `e` names an instruction of `b` that starts at a boundary with `e`'s
/// opcode and ends at `end`.
pub open spec fn ends_at(b: Seq<u8>, e: EmittedInstruction, end: int) -> bool {
    &&& is_boundary(b, e.position as int)
    &&& e.position < b.len()
    &&& b[e.position as int] == spec_op_byte(e.opcode)
    &&& e.position + op_len(e.opcode) == end
}

/// A scope's record of its last two instructions matches its bytes: the
/// last instruction is the one that ends the bytes, the one before it ends
/// where the last begins (or is the same record, once a trailing `pop` was
/// dropped), and a `pop` never directly follows a `pop`.
pub open spec fn records_ok(sc: CompilationScope) -> bool {
    let b = sc.instructions.0@;
    &&& (sc.last_instruction matches Some(l) ==> ends_at(b, l, b.len() as int))
    &&& (sc.previous_instruction matches Some(p) ==> (sc.last_instruction matches Some(l) && (p == l || ends_at(
        b,
        p,
        l.position as int,
    ))))
    &&& (sc.last_instruction matches Some(l) && l.opcode == Opcode::OpPop ==> !(sc.previous_instruction matches Some(
        p,
    ) && p.opcode == Opcode::OpPop))
}

/// The record of the last two instructions stays right when an instruction
/// is replaced by one of the same length, whose opcode matches any record
/// of that position.
proof fn lemma_records_after_replace(sc0: CompilationScope, sc1: CompilationScope, pos: int, ni: Seq<u8>)
    requires
        records_ok(sc0),
        sc1.last_instruction == sc0.last_instruction,
        sc1.previous_instruction == sc0.previous_instruction,
        is_boundary(sc0.instructions.0@, pos),
        pos < sc0.instructions.0@.len(),
        spec_op_from_byte(sc0.instructions.0@[pos]) matches Some(op) && op_len(op) == ni.len(),
        spec_op_from_byte(ni[0]) matches Some(op2) && op_len(op2) == ni.len(),
        ni.len() >= 1,
        pos + ni.len() <= sc0.instructions.0@.len(),
        sc1.instructions.0@ == sc0.instructions.0@.take(pos) + ni + sc0.instructions.0@.skip(pos + ni.len()),
        sc0.last_instruction matches Some(l) ==> (l.position == pos ==> ni[0] == spec_op_byte(l.opcode)),
        sc0.previous_instruction matches Some(p) ==> (p.position == pos ==> ni[0] == spec_op_byte(p.opcode)),
    ensures
        records_ok(sc1),
{
    let a = sc0.instructions.0@;
    let nb = sc1.instructions.0@;
    let n = ni.len() as int;
    assert(nb.len() == a.len());
    let op = spec_op_from_byte(a[pos]).unwrap();
    assert forall|e: EmittedInstruction, end: int|
        ends_at(a, e, end) && (e.position == pos ==> ni[0] == spec_op_byte(e.opcode)) implies #[trigger] ends_at(nb, e, end) by {
        lemma_reaches_replace(a, 0, pos, e.position as int, ni);
        if e.position == pos {
            assert(nb[pos] == ni[0]);
        } else if e.position < pos {
            assert(nb[e.position as int] == a[e.position as int]);
        } else {
            lemma_reaches_split(a, 0, pos, e.position as int);
            assert(pos + op_len(op) <= e.position);
            assert(nb[e.position as int] == a.skip(pos + n)[e.position - pos - n]);
        }
    }
    match sc0.last_instruction {
        Some(l) => {
            assert(ends_at(nb, l, nb.len() as int));
            match sc0.previous_instruction {
                Some(p) => {
                    if p != l {
                        assert(ends_at(nb, p, l.position as int));
                    }
                },
                None => {},
            }
        },
        None => {},
    }
}

/// Turning a trailing `pop` into a return of the value keeps the record of
/// the last two instructions right.
proof fn lemma_records_after_replace_return(sc0: CompilationScope, sc1: CompilationScope, pos: int, ni: Seq<u8>)
    requires
        records_ok(sc0),
        sc0.last_instruction matches Some(l) && l.position == pos && l.opcode == Opcode::OpPop,
        sc1.last_instruction == Some(EmittedInstruction { opcode: Opcode::OpReturnValue, position: pos as usize }),
        sc1.previous_instruction == sc0.previous_instruction,
        ni == spec_make(Opcode::OpReturnValue, Seq::<i64>::empty()),
        ni.len() == 1,
        ni[0] == spec_op_byte(Opcode::OpReturnValue),
        spec_op_from_byte(ni[0]) == Some(Opcode::OpReturnValue),
        spec_op_from_byte(spec_op_byte(Opcode::OpPop)) == Some(Opcode::OpPop),
        sc1.instructions.0@ == sc0.instructions.0@.take(pos) + ni + sc0.instructions.0@.skip(pos + 1),
    ensures
        records_ok(sc1),
{
    let a = sc0.instructions.0@;
    let nb = sc1.instructions.0@;
    let l = sc0.last_instruction.unwrap();
    assert(ends_at(a, l, a.len() as int));
    assert(op_len(Opcode::OpPop) == 1);
    assert(op_len(Opcode::OpReturnValue) == 1);
    lemma_reaches_replace(a, 0, pos, pos, ni);
    assert(nb[pos] == ni[0]);
    let nl = sc1.last_instruction.unwrap();
    assert(ends_at(nb, nl, nb.len() as int));
    match sc0.previous_instruction {
        Some(p) => {
            assert(p != l);
            assert(ends_at(a, p, pos));
            lemma_reaches_replace(a, 0, pos, p.position as int, ni);
            assert(nb[p.position as int] == a[p.position as int]);
            assert(ends_at(nb, p, nl.position as int));
        },
        None => {},
    }
}

/// Whether the last instruction recorded in the innermost scope is a `pop`.
pub open spec fn last_recorded_pop(c: Compiler) -> bool {
    c.scopes@.last().last_instruction matches Some(l) && l.opcode == Opcode::OpPop
}

/// Every compiled function among the constants has complete instructions.
pub open spec fn constants_wf(cs: Seq<Object>) -> bool {
    forall|i: int| 0 <= i < cs.len() ==> (#[trigger] cs[i] matches Object::CompiledFunction(f) ==> function_wf(f.instructions.0@))
}

/// The instructions of a compiled function: complete, the last of them a
/// return (of a value or of nothing).
pub open spec fn function_wf(b: Seq<u8>) -> bool {
    &&& wf_instructions(b)
    &&& ends_in_return(b)
}

/// The last instruction of `b` is a return, of a value or of nothing.
pub open spec fn ends_in_return(b: Seq<u8>) -> bool {
    &&& b.len() >= 1
    &&& is_boundary(b, b.len() - 1)
    &&& (b.last() == spec_op_byte(Opcode::OpReturnValue) || b.last() == spec_op_byte(Opcode::OpReturn))
}

/// The bytecode consists of complete instructions, and so does every
/// compiled function among its constants.
pub open spec fn bytecode_wf(b: Bytecode) -> bool {
    wf_instructions(b.instuctions.0@) && constants_wf(b.constants@)
}

fn empty_scope() -> (s: CompilationScope)
    ensures
        s.instructions.0@ == Seq::<u8>::empty(),
        s.last_instruction is None,
        s.previous_instruction is None,
{
    CompilationScope { instructions: Instructions::new(), last_instruction: None, previous_instruction: None }
}

impl Compiler {
    /// The compiler's invariant: one scope per nesting level, a well-formed
    /// symbol table, and complete instructions everywhere.
    pub open spec fn wf(&self) -> bool {
        &&& self.scopes@.len() == self.scope_index + 1
        &&& self.symbol_table.wf()
        &&& forall|i: int| 0 <= i < self.scopes@.len() ==> wf_instructions(#[trigger] self.scopes@[i].instructions.0@)
        &&& forall|i: int| 0 <= i < self.scopes@.len() ==> records_ok(#[trigger] self.scopes@[i])
        &&& constants_wf(self.constants@)
    }

    /// The instructions of the innermost scope.
    pub open spec fn current(&self) -> Seq<u8> {
        self.scopes@.last().instructions.0@
    }

    /// A compiler with no constants, the builtins defined, and one empty scope.
    pub fn new() -> (c: Compiler)
        ensures
            c.wf(),
            c.scope_index == 0,
            c.constants@.len() == 0,
            c.current() == Seq::<u8>::empty(),
            c.scopes@.len() == 1,
            c.scopes@[0].last_instruction is None,
            c.scopes@[0].previous_instruction is None,
            c.symbol_table.outer is None,
            c.symbol_table.num_definitions == 0,
            forall|n: Seq<char>| #[trigger] spec_resolve(c.symbol_table, n) == builtin_lookup(n, 6),
    {
        let symbol_table = builtin_table();
        let mut scopes: Vec<CompilationScope> = Vec::new();
        scopes.push(empty_scope());
        Compiler { constants: Vec::new(), symbol_table, scopes, scope_index: 0 }
    }

    /// A compiler that goes on from an earlier one's symbol table and constants.
    pub fn new_with_state(s: SymbolTable, constants: Vec<Object>) -> (c: Compiler)
        requires
            s.wf(),
            constants_wf(constants@),
        ensures
            c.wf(),
            c.scope_index == 0,
            c.symbol_table == s,
            c.constants@ == constants@,
            c.current() == Seq::<u8>::empty(),
            c.scopes@.len() == 1,
            c.scopes@[0].last_instruction is None,
            c.scopes@[0].previous_instruction is None,
    {
        let mut scopes: Vec<CompilationScope> = Vec::new();
        scopes.push(empty_scope());
        Compiler { constants, symbol_table: s, scopes, scope_index: 0 }
    }

    /// The main program's bytecode: a copy of the instructions of the
    /// innermost scope and of the constants.
    pub fn bytecode(&self) -> (b: Bytecode)
        requires
            self.wf(),
        ensures
            bytecode_wf(b),
            b.instuctions.0@ == self.current(),
            b.constants@.len() == self.constants@.len(),
            crate::object::same_objs(b.constants@, self.constants@),
    {
        let last = self.scopes.len() - 1;
        let ins = crate::object::copy_bytes(&self.scopes[last].instructions.0);
        let constants = duplicate_objects(&self.constants);
        proof {
            assert(wf_instructions(self.scopes@[last as int].instructions.0@));
            assert forall|i: int| 0 <= i < constants@.len() implies (#[trigger] constants@[i] matches Object::CompiledFunction(f) ==> function_wf(f.instructions.0@)) by {
                crate::object::lemma_same_objs_index(constants@, self.constants@, i);
                assert(self.constants@[i] matches Object::CompiledFunction(_) ==> function_wf(self.constants@[i]->CompiledFunction_0.instructions.0@));
            }
        }
        Bytecode { instuctions: Instructions(ins), constants }
    }

    /// Adds a constant; gives back its index.
    fn add_constant(&mut self, obj: Object) -> (idx: i64)
        requires
            old(self).wf(),
            obj matches Object::CompiledFunction(f) ==> function_wf(f.instructions.0@),
        ensures
            final(self).wf(),
            final(self).constants@ == old(self).constants@.push(obj),
            final(self).scopes@ == old(self).scopes@,
            final(self).symbol_table == old(self).symbol_table,
            final(self).scope_index == old(self).scope_index,
            idx == old(self).constants@.len() as i64,
    {
        self.constants.push(obj);
        proof {
            assert forall|i: int| 0 <= i < self.constants@.len() implies (#[trigger] self.constants@[i] matches Object::CompiledFunction(f) ==> function_wf(f.instructions.0@)) by {
                if i < old(self).constants@.len() {
                    assert(self.constants@[i] == old(self).constants@[i]);
                }
            }
        }
        #[verifier::truncate]
        let idx = (self.constants.len() - 1) as i64;
        idx
    }

    /// Appends one instruction to the innermost scope and records it as the
    /// last instruction emitted; gives back where it starts.
    pub fn emit(&mut self, op: Opcode, operands: Vec<i64>) -> (pos: usize)
        requires
            old(self).wf(),
            operands@.len() <= spec_op_widths(op).len(),
            op == Opcode::OpPop ==> !last_recorded_pop(*old(self)),
        ensures
            final(self).wf(),
            emitted(*old(self), *final(self), op, operands@),
            pos == old(self).current().len(),
    {
        let ins = make(op, &operands);
        let mut scope = self.scopes.pop().unwrap();
        let pos = scope.instructions.0.len();
        let ghost sc0 = scope;
        let ghost a = scope.instructions.0@;
        proof {
            lemma_make_wf(op, operands@);
            assert(wf_instructions(scope.instructions.0@));
            lemma_wf_append(scope.instructions.0@, ins.0@, 0);
            assert(records_ok(old(self).scopes@[old(self).scopes@.len() - 1]));
        }
        let mut bytes = ins.0;
        scope.instructions.0.append(&mut bytes);
        scope.previous_instruction = scope.last_instruction;
        scope.last_instruction = Some(EmittedInstruction { opcode: op, position: pos });
        proof {
            let nb = scope.instructions.0@;
            assert(nb =~= a + ins.0@);
            lemma_op_byte_roundtrip(op);
            lemma_wf_reaches_end(a, 0);
            lemma_reaches_append(a, ins.0@, 0, a.len() as int);
            assert(nb[pos as int] == spec_op_byte(op));
            match sc0.last_instruction {
                Some(l0) => {
                    assert(ends_at(a, l0, a.len() as int));
                    lemma_reaches_append(a, ins.0@, 0, l0.position as int);
                    assert(nb[l0.position as int] == a[l0.position as int]);
                },
                None => {},
            }
            assert(records_ok(scope));
        }
        self.scopes.push(scope);
        proof {
            assert forall|i: int| 0 <= i < self.scopes@.len() implies wf_instructions(#[trigger] self.scopes@[i].instructions.0@) by {
                if i < self.scopes@.len() - 1 {
                    assert(self.scopes@[i] == old(self).scopes@[i]);
                }
            }
            assert forall|i: int| 0 <= i < self.scopes@.len() implies records_ok(#[trigger] self.scopes@[i]) by {
                if i < self.scopes@.len() - 1 {
                    assert(self.scopes@[i] == old(self).scopes@[i]);
                }
            }
        }
        pos
    }

    /// Whether the last instruction emitted into the innermost scope has
    /// opcode `op`; never when the scope holds no instructions.
    fn last_instruction_is(&self, op: Opcode) -> (r: bool)
        requires
            self.wf(),
        ensures
            r == (self.current().len() > 0 && self.scopes@.last().last_instruction is Some
                && self.scopes@.last().last_instruction.unwrap().opcode == op),
    {
        let last = self.scopes.len() - 1;
        if self.scopes[last].instructions.0.len() == 0 {
            return false;
        }
        match self.scopes[last].last_instruction {
            Some(l) => l.opcode == op,
            None => false,
        }
    }

    /// Drops the last instruction emitted into the innermost scope (a `pop`),
    /// making the one before it the last.
    fn remove_last_pop(&mut self)
        requires
            old(self).wf(),
            last_is(*old(self), Opcode::OpPop),
        ensures
            final(self).wf(),
            last_dropped(*old(self), *final(self)),
    {
        let mut scope = self.scopes.pop().unwrap();
        proof {
            assert(records_ok(old(self).scopes@[old(self).scopes@.len() - 1]));
        }
        match scope.last_instruction {
            Some(l) => {
                if is_instruction_start(&scope.instructions.0, l.position) {
                    let ghost a = scope.instructions.0@;
                    proof {
                        lemma_wf_take(scope.instructions.0@, 0, l.position as int);
                    }
                    scope.instructions.0.truncate(l.position);
                    scope.last_instruction = scope.previous_instruction;
                    proof {
                        let t = scope.instructions.0@;
                        assert(t =~= a.take(l.position as int));
                        match scope.previous_instruction {
                            Some(p) => {
                                if p != l {
                                    assert(ends_at(a, p, l.position as int));
                                    lemma_reaches_take(a, 0, p.position as int, l.position as int);
                                    assert(t[p.position as int] == a[p.position as int]);
                                    assert(ends_at(t, p, t.len() as int));
                                }
                            },
                            None => {},
                        }
                        assert(records_ok(scope));
                    }
                }
            },
            None => {},
        }
        self.scopes.push(scope);
        proof {
            assert forall|i: int| 0 <= i < self.scopes@.len() implies records_ok(#[trigger] self.scopes@[i]) by {
                if i < self.scopes@.len() - 1 {
                    assert(self.scopes@[i] == old(self).scopes@[i]);
                }
            }
            assert forall|i: int| 0 <= i < self.scopes@.len() implies wf_instructions(#[trigger] self.scopes@[i].instructions.0@) by {
                if i < self.scopes@.len() - 1 {
                    assert(self.scopes@[i] == old(self).scopes@[i]);
                }
            }
        }
    }

    /// Replaces the instruction starting at `pos` in the innermost scope by
    /// `new_instruction`, when an instruction of the same length starts there.
    fn replace_instruction(&mut self, pos: usize, new_instruction: Vec<u8>)
        requires
            old(self).wf(),
            new_instruction@.len() >= 1,
            spec_op_from_byte(new_instruction@[0]) matches Some(op2) && op_len(op2) == new_instruction@.len(),
            old(self).scopes@.last().last_instruction matches Some(l) ==> (l.position == pos ==> new_instruction@[0]
                == spec_op_byte(l.opcode)),
            old(self).scopes@.last().previous_instruction matches Some(p) ==> (p.position == pos
                ==> new_instruction@[0] == spec_op_byte(p.opcode)),
        ensures
            final(self).wf(),
            final(self).scopes@.len() == old(self).scopes@.len(),
            forall|i: int| 0 <= i < old(self).scopes@.len() - 1 ==> #[trigger] final(self).scopes@[i] == old(self).scopes@[i],
            final(self).constants@ == old(self).constants@,
            final(self).symbol_table == old(self).symbol_table,
            final(self).scope_index == old(self).scope_index,
            final(self).scopes@.last().last_instruction == old(self).scopes@.last().last_instruction,
            final(self).scopes@.last().previous_instruction == old(self).scopes@.last().previous_instruction,
            final(self).current().len() == old(self).current().len(),
            (is_boundary(old(self).current(), pos as int) && pos < old(self).current().len()
                && spec_op_from_byte(old(self).current()[pos as int]) is Some
                && op_len(spec_op_from_byte(old(self).current()[pos as int]).unwrap()) == new_instruction@.len()) ==> final(self).current() == old(self).current().take(pos as int) + new_instruction@
                + old(self).current().skip(pos + new_instruction@.len()),
            !instruction_at(old(self).current(), pos as int, new_instruction@.len()) ==> final(self).current()
                == old(self).current(),
    {
        let mut scope = self.scopes.pop().unwrap();
        let ghost before = scope.instructions.0@;
        let ghost last0 = scope.last_instruction;
        let ghost prev0 = scope.previous_instruction;
        let n = new_instruction.len();
        if pos < scope.instructions.0.len() && is_instruction_start(&scope.instructions.0, pos) {
            match Opcode::from_byte(scope.instructions.0[pos]) {
                Some(op) => {
                    proof {
                        lemma_reaches_wf_at(before, 0, pos as int);
                        lemma_op_widths_small(op);
                    }
                    if instruction_length(op) == n {
                        proof {
                            lemma_wf_replace(before, 0, pos as int, new_instruction@);
                        }
                        let mut k: usize = 0;
                        while k < n
                            invariant
                                k <= n,
                                n == new_instruction@.len(),
                                pos + n <= before.len(),
                                before.len() <= usize::MAX,
                                scope.last_instruction == last0,
                                scope.previous_instruction == prev0,
                                scope.instructions.0@.len() == before.len(),
                                forall|j: int| 0 <= j < pos ==> scope.instructions.0@[j] == before[j],
                                forall|j: int| pos <= j < pos + k ==> scope.instructions.0@[j] == new_instruction@[j - pos],
                                forall|j: int| pos + k <= j < before.len() ==> scope.instructions.0@[j] == before[j],
                            decreases n - k,
                        {
                            scope.instructions.0.set(pos + k, new_instruction[k]);
                            k = k + 1;
                        }
                        assert(scope.instructions.0@ =~= before.take(pos as int) + new_instruction@ + before.skip(pos + n));
                        proof {
                            assert(records_ok(old(self).scopes@[old(self).scopes@.len() - 1]));
                            lemma_records_after_replace(old(self).scopes@[old(self).scopes@.len() - 1], scope, pos as int, new_instruction@);
                        }
                    }
                },
                None => {},
            }
        }
        self.scopes.push(scope);
        proof {
            assert forall|i: int| 0 <= i < self.scopes@.len() implies wf_instructions(#[trigger] self.scopes@[i].instructions.0@) by {
                if i < self.scopes@.len() - 1 {
                    assert(self.scopes@[i] == old(self).scopes@[i]);
                }
            }
        }
    }

    /// Sets the operand of the instruction starting at `op_pos` in the
    /// innermost scope (a jump) to `operand`.
    fn change_operand(&mut self, op_pos: usize, operand: i64)
        requires
            old(self).wf(),
        ensures
            final(self).wf(),
            operand_changed(*old(self), *final(self), op_pos, operand),
    {
        let last = self.scopes.len() - 1;
        if op_pos >= self.scopes[last].instructions.0.len() {
            return;
        }
        match Opcode::from_byte(self.scopes[last].instructions.0[op_pos]) {
            Some(op) => {
                let def = crate::code::definition(op);
                if def.operand_widths.len() != 1 {
                    return;
                }
                let mut operands: Vec<i64> = Vec::new();
                operands.push(operand);
                let ins = make(op, &operands);
                proof {
                    lemma_make_wf(op, operands@);
                    lemma_op_byte_roundtrip(op);
                    assert(operands@ =~= seq![operand]);
                }
                self.replace_instruction(op_pos, ins.0);
            },
            None => {},
        }
    }

    /// Replaces the last instruction of the innermost scope, a `pop`, by a
    /// `return` of the value.
    fn replace_last_pop_with_return(&mut self)
        requires
            old(self).wf(),
            last_recorded_pop(*old(self)),
        ensures
            final(self).wf(),
            pop_made_return(*old(self), *final(self)),
    {
        let mut scope = self.scopes.pop().unwrap();
        let ghost sc0 = scope;
        let ghost a = scope.instructions.0@;
        proof {
            assert(records_ok(old(self).scopes@[old(self).scopes@.len() - 1]));
        }
        match scope.last_instruction {
            Some(l) => {
                let b = Opcode::OpReturnValue.to_byte();
                scope.instructions.0.set(l.position, b);
                scope.last_instruction = Some(EmittedInstruction { opcode: Opcode::OpReturnValue, position: l.position });
                proof {
                    let ni = spec_make(Opcode::OpReturnValue, Seq::<i64>::empty());
                    lemma_make_wf(Opcode::OpReturnValue, Seq::<i64>::empty());
                    lemma_op_byte_roundtrip(Opcode::OpReturnValue);
                    lemma_op_byte_roundtrip(Opcode::OpPop);
                    assert(ni =~= seq![b]);
                    let p = l.position as int;
                    assert(scope.instructions.0@ =~= a.take(p) + ni + a.skip(p + 1));
                    lemma_wf_replace(a, 0, p, ni);
                    assert(instruction_at(a, p, 1));
                    lemma_records_after_replace_return(sc0, scope, p, ni);
                }
            },
            None => {},
        }
        self.scopes.push(scope);
        proof {
            assert forall|i: int| 0 <= i < self.scopes@.len() implies wf_instructions(#[trigger] self.scopes@[i].instructions.0@) by {
                if i < self.scopes@.len() - 1 {
                    assert(self.scopes@[i] == old(self).scopes@[i]);
                }
            }
            assert forall|i: int| 0 <= i < self.scopes@.len() implies records_ok(#[trigger] self.scopes@[i]) by {
                if i < self.scopes@.len() - 1 {
                    assert(self.scopes@[i] == old(self).scopes@[i]);
                }
            }
        }
    }

    /// Starts compiling a function: a new empty scope, and a symbol table
    /// enclosed by the current one.
    pub fn enter_scope(&mut self)
        requires
            old(self).wf(),
            old(self).scope_index < usize::MAX,
        ensures
            final(self).wf(),
            scope_entered(*old(self), *final(self)),
    {
        self.scopes.push(empty_scope());
        self.scope_index = self.scope_index + 1;
        let mut outer = SymbolTable::new();
        std::mem::swap(&mut outer, &mut self.symbol_table);
        self.symbol_table = SymbolTable::new_enclosed_symbol_table(outer);
        proof {
            assert forall|i: int| 0 <= i < self.scopes@.len() implies wf_instructions(#[trigger] self.scopes@[i].instructions.0@) by {
                if i < self.scopes@.len() - 1 {
                    assert(self.scopes@[i] == old(self).scopes@[i]);
                }
            }
        }
    }

    /// Finishes compiling a function: drops its scope, gives back its
    /// instructions, and goes back to the enclosing symbol table.
    pub fn leave_scope(&mut self) -> (ins: Instructions)
        requires
            old(self).wf(),
            old(self).scope_index > 0,
        ensures
            final(self).wf(),
            wf_instructions(ins.0@),
            ins.0@ == old(self).current(),
            scope_left(*old(self), *final(self)),
    {
        let scope = self.scopes.pop().unwrap();
        self.scope_index = self.scope_index - 1;
        let mut outer = None;
        std::mem::swap(&mut outer, &mut self.symbol_table.outer);
        match outer {
            Some(o) => {
                self.symbol_table = *o;
            },
            None => {},
        }
        proof {
            assert(wf_instructions(old(self).scopes@[old(self).scopes@.len() - 1].instructions.0@));
            assert forall|i: int| 0 <= i < self.scopes@.len() implies wf_instructions(#[trigger] self.scopes@[i].instructions.0@) by {
                assert(self.scopes@[i] == old(self).scopes@[i]);
            }
        }
        scope.instructions
    }
}

/// The length of an instruction with opcode `op`.
fn instruction_length(op: Opcode) -> (n: usize)
    ensures
        n == op_len(op),
{
    let def = crate::code::definition(op);
    proof {
        lemma_op_widths_small(op);
    }
    let mut w: usize = 0;
    let mut k: usize = 0;
    assert(def.operand_widths@.skip(0) =~= def.operand_widths@);
    while k < def.operand_widths.len()
        invariant
            def.operand_widths@ == spec_op_widths(op),
            k <= def.operand_widths@.len(),
            w + sum_widths(def.operand_widths@.skip(k as int)) == sum_widths(spec_op_widths(op)),
            sum_widths(spec_op_widths(op)) <= 3,
        decreases def.operand_widths@.len() - k,
    {
        assert(def.operand_widths@.skip(k as int).drop_first() =~= def.operand_widths@.skip(k + 1));
        w = w + def.operand_widths[k];
        k = k + 1;
    }
    assert(def.operand_widths@.skip(k as int) =~= Seq::<usize>::empty());
    1 + w
}


/// The opcode that loads a symbol of the given scope.
pub open spec fn load_op(scope: SymbolScope) -> Opcode {
    match scope {
        SymbolScope::GlobalScope => Opcode::OpGetGlobal,
        SymbolScope::LocalScope => Opcode::OpGetLocal,
        SymbolScope::BuiltinScope => Opcode::OpGetBuiltin,
        SymbolScope::FreeScope => Opcode::OpGetFree,
    }
}

// ---------------------------------------------------------------------------
// What compiling emits, as a relation between the compiler before and after
// and the result.

/// The scopes other than the innermost one, and the nesting depth, are as
/// they were.
pub open spec fn same_outer(c0: Compiler, c1: Compiler) -> bool {
    &&& c1.scope_index == c0.scope_index
    &&& c1.scopes@.len() == c0.scopes@.len()
    &&& forall|i: int| 0 <= i < c0.scopes@.len() - 1 ==> #[trigger] c1.scopes@[i] == c0.scopes@[i]
}

/// `c1` is `c0` with the instruction `op` with `operands` appended to the
/// innermost scope and recorded as the last instruction emitted.
pub open spec fn code_emitted(c0: Compiler, c1: Compiler, op: Opcode, operands: Seq<i64>) -> bool {
    &&& same_outer(c0, c1)
    &&& c1.current() == c0.current() + spec_make(op, operands)
    &&& c1.scopes@.last().last_instruction == Some(
        EmittedInstruction { opcode: op, position: c0.current().len() as usize },
    )
    &&& c1.scopes@.last().previous_instruction == c0.scopes@.last().last_instruction
}

/// As `code_emitted`, with the constants and the symbol table unchanged.
pub open spec fn emitted(c0: Compiler, c1: Compiler, op: Opcode, operands: Seq<i64>) -> bool {
    &&& code_emitted(c0, c1, op, operands)
    &&& c1.constants@ == c0.constants@
    &&& c1.symbol_table == c0.symbol_table
}

/// `c1` is `c0` with the constant `obj` added and an instruction that loads
/// it emitted.
pub open spec fn constant_emitted(c0: Compiler, c1: Compiler, obj: Object) -> bool {
    &&& code_emitted(c0, c1, Opcode::OpConstant, seq![c0.constants@.len() as i64])
    &&& c1.constants@ == c0.constants@.push(obj)
    &&& c1.symbol_table == c0.symbol_table
}

/// Only the innermost scope's instructions and its record of the last
/// instructions may differ.
pub open spec fn same_but_code(c0: Compiler, c1: Compiler) -> bool {
    &&& same_outer(c0, c1)
    &&& c1.constants@ == c0.constants@
    &&& c1.symbol_table == c0.symbol_table
}

/// Whether the last instruction emitted into the innermost scope has opcode
/// `op`; never when the scope holds no instructions.
pub open spec fn last_is(c: Compiler, op: Opcode) -> bool {
    &&& c.current().len() > 0
    &&& c.scopes@.last().last_instruction matches Some(l) && l.opcode == op
}

/// `c1` is `c0` with the last instruction emitted dropped, when it starts at
/// an instruction boundary, and the one before it recorded as the last.
pub open spec fn last_dropped(c0: Compiler, c1: Compiler) -> bool {
    &&& same_but_code(c0, c1)
    &&& match c0.scopes@.last().last_instruction {
        Some(l) => if is_boundary(c0.current(), l.position as int) {
            &&& c1.current() == c0.current().take(l.position as int)
            &&& c1.scopes@.last().last_instruction == c0.scopes@.last().previous_instruction
            &&& c1.scopes@.last().previous_instruction == c0.scopes@.last().previous_instruction
        } else {
            c1.scopes@.last() == c0.scopes@.last()
        },
        None => c1.scopes@.last() == c0.scopes@.last(),
    }
}

/// `c1` is `c0` with a trailing `pop` dropped, if there is one.
pub open spec fn pop_dropped(c0: Compiler, c1: Compiler) -> bool {
    if last_is(c0, Opcode::OpPop) {
        last_dropped(c0, c1)
    } else {
        c1 == c0
    }
}

/// An instruction of `n` bytes starts at `p` in `b`.
pub open spec fn instruction_at(b: Seq<u8>, p: int, n: nat) -> bool {
    &&& is_boundary(b, p)
    &&& p < b.len()
    &&& spec_op_from_byte(b[p]) matches Some(op) && op_len(op) == n
}

/// An instruction with one operand starts at `p` in `b`.
pub open spec fn one_operand_at(b: Seq<u8>, p: int) -> bool {
    &&& is_boundary(b, p)
    &&& p < b.len()
    &&& spec_op_from_byte(b[p]) matches Some(op) && spec_op_widths(op).len() == 1
}

/// `c1` is `c0` with the operand of the instruction starting at `pos` in the
/// innermost scope set to `operand`, when one with one operand starts there.
pub open spec fn operand_changed(c0: Compiler, c1: Compiler, pos: usize, operand: i64) -> bool {
    &&& same_but_code(c0, c1)
    &&& c1.scopes@.last().last_instruction == c0.scopes@.last().last_instruction
    &&& c1.scopes@.last().previous_instruction == c0.scopes@.last().previous_instruction
    &&& if one_operand_at(c0.current(), pos as int) {
        let op = spec_op_from_byte(c0.current()[pos as int]).unwrap();
        c1.current() == c0.current().take(pos as int) + spec_make(op, seq![operand]) + c0.current().skip(
            pos + op_len(op),
        )
    } else {
        c1.current() == c0.current()
    }
}

/// `c1` is `c0` with the last instruction emitted replaced by a return of
/// the value, when a one-byte instruction starts there.
pub open spec fn pop_made_return(c0: Compiler, c1: Compiler) -> bool {
    &&& same_but_code(c0, c1)
    &&& match c0.scopes@.last().last_instruction {
        Some(l) => {
            &&& c1.scopes@.last().last_instruction == Some(
                EmittedInstruction { opcode: Opcode::OpReturnValue, position: l.position },
            )
            &&& c1.scopes@.last().previous_instruction == c0.scopes@.last().previous_instruction
            &&& if instruction_at(c0.current(), l.position as int, 1) {
                c1.current() == c0.current().take(l.position as int) + spec_make(
                    Opcode::OpReturnValue,
                    Seq::empty(),
                ) + c0.current().skip(l.position + 1)
            } else {
                c1.current() == c0.current()
            }
        },
        None => c1.scopes@.last() == c0.scopes@.last(),
    }
}

/// `c1` is `c0` with a new, empty innermost scope and a symbol table
/// enclosed by `c0`'s.
pub open spec fn scope_entered(c0: Compiler, c1: Compiler) -> bool {
    &&& c1.scope_index == c0.scope_index + 1
    &&& c1.scopes@.len() == c0.scopes@.len() + 1
    &&& forall|i: int| 0 <= i < c0.scopes@.len() ==> #[trigger] c1.scopes@[i] == c0.scopes@[i]
    &&& c1.current() == Seq::<u8>::empty()
    &&& c1.scopes@.last().last_instruction is None
    &&& c1.scopes@.last().previous_instruction is None
    &&& c1.symbol_table.outer == Some(Box::new(c0.symbol_table))
    &&& c1.symbol_table.store@.len() == 0
    &&& c1.symbol_table.num_definitions == 0
    &&& c1.symbol_table.free_symbols@.len() == 0
    &&& c1.constants@ == c0.constants@
}

/// `c1` is `c0` with its innermost scope dropped and the enclosing symbol
/// table back.
pub open spec fn scope_left(c0: Compiler, c1: Compiler) -> bool {
    &&& c1.scope_index == c0.scope_index - 1
    &&& c1.scopes@ == c0.scopes@.drop_last()
    &&& match c0.symbol_table.outer {
        Some(o) => c1.symbol_table == *o,
        None => c1.symbol_table == c0.symbol_table,
    }
    &&& c1.constants@ == c0.constants@
}

/// Every function a compiler has compiled ends in a return: each compiled
/// function among the constants of a compiler (as `new`, `new_with_state`
/// and every compiling step leave it) has complete instructions whose last
/// instruction returns a value or returns nothing.
pub proof fn law_compiled_functions_return(c: Compiler)
    requires
        c.wf(),
    ensures
        forall|i: int| 0 <= i < c.constants@.len() ==> (#[trigger] c.constants@[i] matches Object::CompiledFunction(
            f,
        ) ==> wf_instructions(f.instructions.0@) && ends_in_return(f.instructions.0@)),
{
}

/// The bytes of the given instructions, one after the other.
pub open spec fn made_all(ops: Seq<(Opcode, Seq<i64>)>) -> Seq<u8>
    decreases ops.len(),
{
    if ops.len() == 0 {
        Seq::empty()
    } else {
        made_all(ops.drop_last()) + spec_make(ops.last().0, ops.last().1)
    }
}

/// `c1` is `c0` after emitting the given instructions in order.
pub open spec fn emitted_in_order(c0: Compiler, c1: Compiler, ops: Seq<(Opcode, Seq<i64>)>) -> bool
    decreases ops.len(),
{
    if ops.len() == 0 {
        c1 == c0
    } else {
        exists|cm: Compiler|
            #![trigger emitted(cm, c1, ops.last().0, ops.last().1)]
            emitted_in_order(c0, cm, ops.drop_last()) && emitted(cm, c1, ops.last().0, ops.last().1)
    }
}

/// Emitting instructions appends their bytes to the innermost scope and
/// changes nothing else but the record of the last instructions.
pub proof fn lemma_emitted_in_order(c0: Compiler, c1: Compiler, ops: Seq<(Opcode, Seq<i64>)>)
    requires
        emitted_in_order(c0, c1, ops),
    ensures
        same_but_code(c0, c1),
        c1.current() == c0.current() + made_all(ops),
    decreases ops.len(),
{
    if ops.len() == 0 {
        assert(c0.current() + made_all(ops) =~= c0.current());
    } else {
        let cm = choose|cm: Compiler|
            #![trigger emitted(cm, c1, ops.last().0, ops.last().1)]
            emitted_in_order(c0, cm, ops.drop_last()) && emitted(cm, c1, ops.last().0, ops.last().1);
        lemma_emitted_in_order(c0, cm, ops.drop_last());
        assert(c1.current() =~= c0.current() + made_all(ops));
    }
}

/// What a function's scope gives back: entering a scope, emitting
/// instructions in it and leaving it gives back exactly those instructions,
/// and leaves the compiler's scopes, their instructions, the symbol table
/// and the constants as they were before the scope was entered.
pub proof fn law_enter_emit_leave(c0: Compiler, c1: Compiler, c2: Compiler, c3: Compiler, ops: Seq<(Opcode, Seq<i64>)>)
    requires
        scope_entered(c0, c1),
        emitted_in_order(c1, c2, ops),
        scope_left(c2, c3),
    ensures
        c2.current() == made_all(ops),
        c3.scope_index == c0.scope_index,
        c3.scopes@ == c0.scopes@,
        c3.symbol_table == c0.symbol_table,
        c3.constants@ == c0.constants@,
{
    lemma_emitted_in_order(c1, c2, ops);
    assert(c2.current() =~= made_all(ops));
    assert(c3.scopes@ =~= c0.scopes@);
}

/// `r` is an error with message `m`.
pub open spec fn failed_with(r: Result<(), String>, m: Seq<char>) -> bool {
    r matches Err(e) && e@ == m
}

/// The opcode of a binary operator other than `<`.
pub open spec fn infix_opcode(op: Seq<char>) -> Option<Opcode> {
    if op == "+"@ {
        Some(Opcode::OpAdd)
    } else if op == "-"@ {
        Some(Opcode::OpSub)
    } else if op == "*"@ {
        Some(Opcode::OpMul)
    } else if op == "/"@ {
        Some(Opcode::OpDiv)
    } else if op == ">"@ {
        Some(Opcode::OpGreaterThan)
    } else if op == "=="@ {
        Some(Opcode::OpEqual)
    } else if op == "!="@ {
        Some(Opcode::OpNotEqual)
    } else {
        None
    }
}

/// The operand of the instruction that builds a hash of `n` entries.
pub open spec fn hash_operand(n: nat) -> i64 {
    ((n as u64).wrapping_mul(2u64)) as i64
}

/// `order` lists the positions of `ps` so that the texts of their keys come
/// in dictionary order, entries with the same text in the order they were
/// written.
pub open spec fn keys_ordered(ps: Seq<(Expression, Expression)>, order: Seq<usize>) -> bool {
    &&& order.len() == ps.len()
    &&& forall|i: int| 0 <= i < order.len() ==> #[trigger] order[i] < ps.len()
    &&& forall|i: int, j: int| 0 <= i < j < order.len() ==> #[trigger] order[i] != #[trigger] order[j]
    &&& forall|i: int, j: int|
        0 <= i < j < order.len() ==> !crate::text::text_less(
            expr_str(#[trigger] ps[order[j] as int].0),
            expr_str(#[trigger] ps[order[i] as int].0),
        )
    &&& forall|i: int, j: int|
        0 <= i < j < order.len() && expr_str(ps[order[i] as int].0) == expr_str(ps[order[j] as int].0) ==> #[trigger] order[i]
            < #[trigger] order[j]
}

/// The symbols as plain values.
pub open spec fn sym_views(ss: Seq<Symbol>) -> Seq<(Seq<char>, SymbolScope, usize)> {
    ss.map_values(|s: Symbol| sym_view(s))
}

/// `c1` is `c0` with a load of each of the symbols emitted, in order.
pub open spec fn symbols_loaded(ss: Seq<(Seq<char>, SymbolScope, usize)>, c0: Compiler, c1: Compiler) -> bool
    decreases ss.len(),
{
    if ss.len() == 0 {
        c1 == c0
    } else {
        exists|cm: Compiler|
            #![trigger symbols_loaded(ss.drop_last(), c0, cm)]
            #![trigger step(cm)]
            symbols_loaded(ss.drop_last(), c0, cm) && emitted(cm, c1, load_op(ss.last().1), seq![ss.last().2 as i64])
    }
}

/// `c1` is `c0` with the names defined one after another in the symbol
/// table, or the definitions stopped at one too many.
pub open spec fn params_defined(ps: Seq<Identifier>, c0: Compiler, c1: Compiler, r: Result<(), String>) -> bool
    decreases ps.len(),
{
    if ps.len() == 0 {
        c1 == c0 && r is Ok
    } else {
        exists|cm: Compiler, rm: Result<(), String>|
            #![trigger params_defined(ps.drop_last(), c0, cm, rm)]
            #![trigger step((cm, rm))]
            params_defined(ps.drop_last(), c0, cm, rm) && match rm {
                Err(_) => r == rm && c1 == cm,
                Ok(_) => if cm.symbol_table.num_definitions == usize::MAX {
                    failed_with(r, "too many definitions"@) && c1 == cm
                } else {
                    &&& r is Ok
                    &&& c1.scopes@ == cm.scopes@
                    &&& c1.scope_index == cm.scope_index
                    &&& c1.constants@ == cm.constants@
                    &&& defined(cm.symbol_table, c1.symbol_table, ps.last().value@)
                },
            }
    }
}

/// `c1` is `c0` with a trailing `pop` replaced by a return, if there is one.
pub open spec fn return_made(c0: Compiler, c1: Compiler) -> bool {
    if last_is(c0, Opcode::OpPop) {
        pop_made_return(c0, c1)
    } else {
        c1 == c0
    }
}

/// `c1` is `c0` with a `return` emitted, unless the last instruction
/// returns a value already.
pub open spec fn return_ensured(c0: Compiler, c1: Compiler) -> bool {
    if !last_is(c0, Opcode::OpReturnValue) {
        emitted(c0, c1, Opcode::OpReturn, Seq::empty())
    } else {
        c1 == c0
    }
}

/// `c1` is `c0` with a compiled function of the given instructions and
/// counts added as a constant, and an instruction emitted that makes a
/// closure of it with `num_free` captured values.
pub open spec fn closure_emitted(
    c0: Compiler,
    c1: Compiler,
    ins: Seq<u8>,
    num_locals: usize,
    num_parameters: usize,
    num_free: nat,
) -> bool {
    &&& code_emitted(c0, c1, Opcode::OpClosure, seq![c0.constants@.len() as i64, num_free as i64])
    &&& c1.symbol_table == c0.symbol_table
    &&& c1.constants@.len() == c0.constants@.len() + 1
    &&& c1.constants@.drop_last() == c0.constants@
    &&& c1.constants@.last() matches Object::CompiledFunction(f) && f.instructions.0@ == ins
        && f.num_locals == num_locals && f.num_parameters == num_parameters
}

/// Compiling expression `e` takes the compiler from `c0` to `c1` with
/// result `r`.
pub open spec fn compiled_expr(e: Expression, c0: Compiler, c1: Compiler, r: Result<(), String>) -> bool
    decreases e, 0nat,
{
    match e {
        Expression::IntegerLiteral(i) => r is Ok && constant_emitted(c0, c1, Object::Integer(Integer { value: i.value })),
        Expression::StringLiteral(sl) => r is Ok && constant_emitted(c0, c1, Object::StringObj(StringObj { value: sl.value })),
        Expression::BooleanLiteral(b) => r is Ok && emitted(
            c0,
            c1,
            if b.value { Opcode::OpTrue } else { Opcode::OpFalse },
            Seq::empty(),
        ),
        Expression::Identifier(id) => {
            &&& resolved(c0.symbol_table, c1.symbol_table, id.value@)
            &&& match spec_resolve(c0.symbol_table, id.value@) {
                Some(s) => r is Ok && code_emitted(c0, c1, load_op(s.1), seq![s.2 as i64]) && c1.constants@ == c0.constants@,
                None => failed_with(r, "undefined variable "@ + id.value@) && c1.scopes@ == c0.scopes@
                    && c1.scope_index == c0.scope_index && c1.constants@ == c0.constants@,
            }
        },
        Expression::PrefixExpression(p) => exists|cm: Compiler, rm: Result<(), String>|
            #![trigger compiled_expr(*p.right, c0, cm, rm)]
            #![trigger step((cm, rm))]
            compiled_expr(*p.right, c0, cm, rm) && match rm {
                Err(_) => r == rm && c1 == cm,
                Ok(_) => if p.operator@ == "!"@ {
                    r is Ok && emitted(cm, c1, Opcode::OpBang, Seq::empty())
                } else if p.operator@ == "-"@ {
                    r is Ok && emitted(cm, c1, Opcode::OpMinus, Seq::empty())
                } else {
                    failed_with(r, "unknown operator "@ + p.operator@) && c1 == cm
                },
            },
        Expression::InfixExpression(ie) => {
            let (first, second) = if ie.operator@ == "<"@ { (*ie.right, *ie.left) } else { (*ie.left, *ie.right) };
            exists|cm: Compiler, rm: Result<(), String>|
                #![trigger compiled_expr(first, c0, cm, rm)]
                #![trigger step((cm, rm))]
                compiled_expr(first, c0, cm, rm) && match rm {
                    Err(_) => r == rm && c1 == cm,
                    Ok(_) => exists|cn: Compiler, rn: Result<(), String>|
                        #![trigger compiled_expr(second, cm, cn, rn)]
                        #![trigger step((cn, rn))]
                        compiled_expr(second, cm, cn, rn) && match rn {
                            Err(_) => r == rn && c1 == cn,
                            Ok(_) => if ie.operator@ == "<"@ {
                                r is Ok && emitted(cn, c1, Opcode::OpGreaterThan, Seq::empty())
                            } else {
                                match infix_opcode(ie.operator@) {
                                    Some(op) => r is Ok && emitted(cn, c1, op, Seq::empty()),
                                    None => failed_with(r, "unknown operator "@ + ie.operator@) && c1 == cn,
                                }
                            },
                        },
                }
        },
        Expression::IfExpression(ie) => exists|ca: Compiler, ra: Result<(), String>|
            #![trigger compiled_expr(*ie.condition, c0, ca, ra)]
            #![trigger step((ca, ra))]
            compiled_expr(*ie.condition, c0, ca, ra) && match ra {
                Err(_) => r == ra && c1 == ca,
                Ok(_) => exists|cb: Compiler, cc: Compiler, rc: Result<(), String>|
                    #![trigger compiled_stmts(ie.consequence.statements@, cb, cc, rc)]
                    #![trigger step((cb, cc, rc))]
                    emitted(ca, cb, Opcode::OpJumpNotTruthy, seq![9999i64])
                        && compiled_stmts(ie.consequence.statements@, cb, cc, rc) && match rc {
                        Err(_) => r == rc && c1 == cc,
                        Ok(_) => exists|cd: Compiler, ce: Compiler, cf: Compiler, cg: Compiler, rg: Result<(), String>|
                            #![trigger step((cd, ce, cf, cg, rg))]
                            pop_dropped(cc, cd) && emitted(cd, ce, Opcode::OpJump, seq![9999i64])
                                && operand_changed(ce, cf, ca.current().len() as usize, ce.current().len() as i64)
                                && match ie.alternative {
                                Some(alt) => exists|ch: Compiler, rh: Result<(), String>|
                                    #![trigger compiled_stmts(alt.statements@, cf, ch, rh)]
                                    #![trigger step((ch, rh))]
                                    compiled_stmts(alt.statements@, cf, ch, rh) && match rh {
                                        Err(_) => rg == rh && cg == ch,
                                        Ok(_) => rg is Ok && pop_dropped(ch, cg),
                                    },
                                None => rg is Ok && emitted(cf, cg, Opcode::OpNull, Seq::empty()),
                            } && match rg {
                                Err(_) => r == rg && c1 == cg,
                                Ok(_) => r is Ok && operand_changed(cg, c1, cd.current().len() as usize, cg.current().len() as i64),
                            },
                    },
            },
        Expression::ArrayLiteral(a) => exists|cm: Compiler, rm: Result<(), String>|
            #![trigger compiled_exprs(a.elements@, c0, cm, rm)]
            #![trigger step((cm, rm))]
            compiled_exprs(a.elements@, c0, cm, rm) && match rm {
                Err(_) => r == rm && c1 == cm,
                Ok(_) => r is Ok && emitted(cm, c1, Opcode::OpArray, seq![a.elements@.len() as i64]),
            },
        Expression::HashLiteral(h) => exists|order: Seq<usize>, cm: Compiler, rm: Result<(), String>|
            #![trigger compiled_pairs(h.pairs@, order, c0, cm, rm)]
            #![trigger step((order, cm, rm))]
            keys_ordered(h.pairs@, order) && compiled_pairs(h.pairs@, order, c0, cm, rm) && match rm {
                Err(_) => r == rm && c1 == cm,
                Ok(_) => r is Ok && emitted(cm, c1, Opcode::OpHash, seq![hash_operand(h.pairs@.len())]),
            },
        Expression::IndexExpression(ix) => exists|cm: Compiler, rm: Result<(), String>|
            #![trigger compiled_expr(*ix.left, c0, cm, rm)]
            #![trigger step((cm, rm))]
            compiled_expr(*ix.left, c0, cm, rm) && match rm {
                Err(_) => r == rm && c1 == cm,
                Ok(_) => exists|cn: Compiler, rn: Result<(), String>|
                    #![trigger compiled_expr(*ix.index, cm, cn, rn)]
                    #![trigger step((cn, rn))]
                    compiled_expr(*ix.index, cm, cn, rn) && match rn {
                        Err(_) => r == rn && c1 == cn,
                        Ok(_) => r is Ok && emitted(cn, c1, Opcode::OpIndex, Seq::empty()),
                    },
            },
        Expression::CallExpression(c) => exists|cm: Compiler, rm: Result<(), String>|
            #![trigger compiled_expr(*c.function, c0, cm, rm)]
            #![trigger step((cm, rm))]
            compiled_expr(*c.function, c0, cm, rm) && match rm {
                Err(_) => r == rm && c1 == cm,
                Ok(_) => exists|cn: Compiler, rn: Result<(), String>|
                    #![trigger compiled_exprs(c.arguments@, cm, cn, rn)]
                    #![trigger step((cn, rn))]
                    compiled_exprs(c.arguments@, cm, cn, rn) && match rn {
                        Err(_) => r == rn && c1 == cn,
                        Ok(_) => r is Ok && emitted(cn, c1, Opcode::OpCall, seq![c.arguments@.len() as i64]),
                    },
            },
        Expression::FunctionLiteral(f) => if c0.scope_index == usize::MAX {
            failed_with(r, "functions nested too deeply"@) && c1 == c0
        } else {
            exists|ca: Compiler, cb: Compiler, rb: Result<(), String>|
                #![trigger step((ca, cb, rb))]
                scope_entered(c0, ca) && params_defined(f.parameters@, ca, cb, rb) && match rb {
                    Err(_) => r == rb && scope_left(cb, c1),
                    Ok(_) => exists|cc: Compiler, rc: Result<(), String>|
                        #![trigger compiled_stmts(f.body.statements@, cb, cc, rc)]
                        #![trigger step((cc, rc))]
                        compiled_stmts(f.body.statements@, cb, cc, rc) && match rc {
                            Err(_) => r == rc && scope_left(cc, c1),
                            Ok(_) => exists|cd: Compiler, ce: Compiler, cf: Compiler, cg: Compiler|
                                #![trigger step((cd, ce, cf, cg))]
                                return_made(cc, cd) && return_ensured(cd, ce) && scope_left(ce, cf)
                                    && symbols_loaded(sym_views(ce.symbol_table.free_symbols@), cf, cg) && r is Ok
                                    && closure_emitted(
                                    cg,
                                    c1,
                                    ce.current(),
                                    ce.symbol_table.num_definitions,
                                    f.parameters@.len() as usize,
                                    ce.symbol_table.free_symbols@.len(),
                                ),
                        },
                }
        },
    }
}

/// Compiling the expressions in order, stopping at the first error, takes
/// the compiler from `c0` to `c1` with result `r`.
pub open spec fn compiled_exprs(es: Seq<Expression>, c0: Compiler, c1: Compiler, r: Result<(), String>) -> bool
    decreases es, 0nat,
{
    if es.len() == 0 {
        c1 == c0 && r is Ok
    } else {
        exists|cm: Compiler, rm: Result<(), String>|
            #![trigger compiled_exprs(es.drop_last(), c0, cm, rm)]
            #![trigger step((cm, rm))]
            compiled_exprs(es.drop_last(), c0, cm, rm) && match rm {
                Err(_) => r == rm && c1 == cm,
                Ok(_) => compiled_expr(es.last(), cm, c1, r),
            }
    }
}

/// Compiling the entries of a hash literal in the given order, each key
/// then its value, stopping at the first error.
pub open spec fn compiled_pairs(
    ps: Seq<(Expression, Expression)>,
    order: Seq<usize>,
    c0: Compiler,
    c1: Compiler,
    r: Result<(), String>,
) -> bool
    decreases ps, order.len(),
{
    if order.len() == 0 {
        c1 == c0 && r is Ok
    } else if order.last() >= ps.len() {
        false
    } else {
        exists|cm: Compiler, rm: Result<(), String>|
            #![trigger compiled_pairs(ps, order.drop_last(), c0, cm, rm)]
            #![trigger step((cm, rm))]
            compiled_pairs(ps, order.drop_last(), c0, cm, rm) && match rm {
                Err(_) => r == rm && c1 == cm,
                Ok(_) => exists|cn: Compiler, rn: Result<(), String>|
                    #![trigger compiled_expr(ps[order.last() as int].0, cm, cn, rn)]
                    #![trigger step((cn, rn))]
                    compiled_expr(ps[order.last() as int].0, cm, cn, rn) && match rn {
                        Err(_) => r == rn && c1 == cn,
                        Ok(_) => compiled_expr(ps[order.last() as int].1, cn, c1, r),
                    },
            }
    }
}

/// Compiling one statement takes the compiler from `c0` to `c1` with result `r`.
pub open spec fn compiled_stmt(st: Statement, c0: Compiler, c1: Compiler, r: Result<(), String>) -> bool
    decreases st, 0nat,
{
    match st {
        Statement::ExpressionStatement(es) => exists|cm: Compiler, rm: Result<(), String>|
            #![trigger compiled_expr(es.expression, c0, cm, rm)]
            #![trigger step((cm, rm))]
            compiled_expr(es.expression, c0, cm, rm) && match rm {
                Err(_) => r == rm && c1 == cm,
                Ok(_) => r is Ok && emitted(cm, c1, Opcode::OpPop, Seq::empty()),
            },
        Statement::BlockStatement(b) => compiled_stmts(b.statements@, c0, c1, r),
        Statement::ReturnStatement(rs) => exists|cm: Compiler, rm: Result<(), String>|
            #![trigger compiled_expr(rs.return_value, c0, cm, rm)]
            #![trigger step((cm, rm))]
            compiled_expr(rs.return_value, c0, cm, rm) && match rm {
                Err(_) => r == rm && c1 == cm,
                Ok(_) => r is Ok && emitted(cm, c1, Opcode::OpReturnValue, Seq::empty()),
            },
        Statement::LetStatement(ls) => if c0.symbol_table.num_definitions == usize::MAX {
            failed_with(r, "too many definitions"@) && c1 == c0
        } else {
            let s = defined_symbol(c0.symbol_table, ls.name.value@);
            exists|ct: Compiler, cm: Compiler, rm: Result<(), String>|
                #![trigger compiled_expr(ls.value, ct, cm, rm)]
                #![trigger step((ct, cm, rm))]
                ct.scopes@ == c0.scopes@ && ct.scope_index == c0.scope_index && ct.constants@ == c0.constants@
                    && defined(c0.symbol_table, ct.symbol_table, ls.name.value@)
                    && compiled_expr(ls.value, ct, cm, rm) && match rm {
                    Err(_) => r == rm && c1 == cm,
                    Ok(_) => r is Ok && emitted(
                        cm,
                        c1,
                        if s.1 == SymbolScope::GlobalScope { Opcode::OpSetGlobal } else { Opcode::OpSetLocal },
                        seq![s.2 as i64],
                    ),
                }
        },
    }
}

/// Compiling statements in order, stopping at the first error.
pub open spec fn compiled_stmts(ss: Seq<Statement>, c0: Compiler, c1: Compiler, r: Result<(), String>) -> bool
    decreases ss, 0nat,
{
    if ss.len() == 0 {
        c1 == c0 && r is Ok
    } else {
        exists|cm: Compiler, rm: Result<(), String>|
            #![trigger compiled_stmts(ss.drop_last(), c0, cm, rm)]
            #![trigger step((cm, rm))]
            compiled_stmts(ss.drop_last(), c0, cm, rm) && match rm {
                Err(_) => r == rm && c1 == cm,
                Ok(_) => compiled_stmt(ss.last(), cm, c1, r),
            }
    }
}

/// Compiling a syntax node.
pub open spec fn compiled_node(n: Node, c0: Compiler, c1: Compiler, r: Result<(), String>) -> bool {
    match n {
        Node::Program(p) => compiled_stmts(p.statements@, c0, c1, r),
        Node::Statement(s) => compiled_stmt(s, c0, c1, r),
        Node::Expression(e) => compiled_expr(e, c0, c1, r),
    }
}

impl Compiler {
    /// Emits the instruction that loads symbol `s`.
    fn load_symbol(&mut self, s: &Symbol)
        requires
            old(self).wf(),
        ensures
            !last_recorded_pop(*final(self)),
            final(self).wf(),
            emitted(*old(self), *final(self), load_op(s.scope), seq![s.index as i64]),
    {
        #[verifier::truncate]
        let index = s.index as i64;
        let mut operands: Vec<i64> = Vec::new();
        operands.push(index);
        assert(operands@ =~= seq![s.index as i64]);
        match s.scope {
            SymbolScope::GlobalScope => {
                self.emit(Opcode::OpGetGlobal, operands);
            },
            SymbolScope::LocalScope => {
                self.emit(Opcode::OpGetLocal, operands);
            },
            SymbolScope::BuiltinScope => {
                self.emit(Opcode::OpGetBuiltin, operands);
            },
            SymbolScope::FreeScope => {
                self.emit(Opcode::OpGetFree, operands);
            },
        }
    }

    /// Compiles a syntax node into the innermost scope.
    pub fn compile(&mut self, node: &Node) -> (r: Result<(), String>)
        requires
            old(self).wf(),
        ensures
            final(self).wf(),
            final(self).scope_index == old(self).scope_index,
            compiled_node(*node, *old(self), *final(self), r),
    {
        match node {
            Node::Program(p) => self.compile_program(p),
            Node::Statement(s) => self.compile_statement(s),
            Node::Expression(e) => self.compile_expression(e),
        }
    }

    /// Compiles the statements of a program in order.
    pub fn compile_program(&mut self, program: &Program) -> (r: Result<(), String>)
        requires
            old(self).wf(),
        ensures
            final(self).wf(),
            final(self).scope_index == old(self).scope_index,
            compiled_stmts(program.statements@, *old(self), *final(self), r),
    {
        self.compile_statements(&program.statements)
    }

    /// Compiles the statements of a block in order.
    pub fn compile_block(&mut self, block: &BlockStatement) -> (r: Result<(), String>)
        requires
            old(self).wf(),
        ensures
            final(self).wf(),
            final(self).scope_index == old(self).scope_index,
            compiled_stmts(block.statements@, *old(self), *final(self), r),
        decreases *block, 1nat,
    {
        self.compile_statements(&block.statements)
    }

    /// Compiles statements in order, stopping at the first error.
    fn compile_statements(&mut self, stmts: &Vec<Statement>) -> (r: Result<(), String>)
        requires
            old(self).wf(),
        ensures
            final(self).wf(),
            final(self).scope_index == old(self).scope_index,
            compiled_stmts(stmts@, *old(self), *final(self), r),
        decreases stmts@, 1nat,
    {
        let ghost c0 = *self;
        let ghost ss = stmts@;
        let mut res: Result<(), String> = Ok(());
        let mut i: usize = 0;
        assert(ss.take(0) =~= Seq::<Statement>::empty());
        while i < stmts.len()
            invariant
                self.wf(),
                self.scope_index == old(self).scope_index,
                c0 == *old(self),
                ss == stmts@,
                i <= ss.len(),
                res is Ok,
                compiled_stmts(ss.take(i as int), c0, *self, res),
            decreases ss.len() - i,
        {
            let ghost cm = *self;
            assert(ss.take(i + 1).drop_last() =~= ss.take(i as int));
            assert(ss.take(i + 1).last() == ss[i as int]);
            let r1 = self.compile_statement(&stmts[i]);
            assert(step((cm, res)));
            assert(compiled_stmts(ss.take(i + 1), c0, *self, r1));
            if r1.is_err() {
                proof {
                    lemma_stmts_err_extends(ss, i + 1, c0, *self, r1);
                }
                return r1;
            }
            res = r1;
            i = i + 1;
        }
        assert(ss.take(i as int) =~= ss);
        res
    }

    /// Compiles one statement: an expression statement leaves nothing on
    /// the stack, a `let` stores into its symbol, a `return` returns.
    pub fn compile_statement(&mut self, stmt: &Statement) -> (r: Result<(), String>)
        requires
            old(self).wf(),
        ensures
            final(self).wf(),
            final(self).scope_index == old(self).scope_index,
            compiled_stmt(*stmt, *old(self), *final(self), r),
        decreases *stmt, 1nat,
    {
        match stmt {
            Statement::ExpressionStatement(es) => {
                let r1 = self.compile_expression(&es.expression);
                assert(step((*self, r1)));
                if r1.is_err() {
                    return r1;
                }
                self.emit(Opcode::OpPop, Vec::new());
                Ok(())
            },
            Statement::BlockStatement(b) => self.compile_block(b),
            Statement::LetStatement(ls) => {
                if self.symbol_table.num_definitions == usize::MAX {
                    return Err(String::from_str("too many definitions"));
                }
                let symbol = self.symbol_table.define(ls.name.value.as_str());
                let ghost ct = *self;
                let r1 = self.compile_expression(&ls.value);
                assert(step((ct, *self, r1)));
                if r1.is_err() {
                    return r1;
                }
                #[verifier::truncate]
                let index = symbol.index as i64;
                let mut operands: Vec<i64> = Vec::new();
                operands.push(index);
                assert(operands@ =~= seq![symbol.index as i64]);
                if symbol.scope == SymbolScope::GlobalScope {
                    self.emit(Opcode::OpSetGlobal, operands);
                } else {
                    self.emit(Opcode::OpSetLocal, operands);
                }
                Ok(())
            },
            Statement::ReturnStatement(rs) => {
                let r1 = self.compile_expression(&rs.return_value);
                assert(step((*self, r1)));
                if r1.is_err() {
                    return r1;
                }
                self.emit(Opcode::OpReturnValue, Vec::new());
                Ok(())
            },
        }
    }

    /// Compiles the expressions in order, stopping at the first error.
    fn compile_expressions(&mut self, exps: &Vec<Expression>) -> (r: Result<(), String>)
        requires
            old(self).wf(),
        ensures
            final(self).wf(),
            final(self).scope_index == old(self).scope_index,
            compiled_exprs(exps@, *old(self), *final(self), r),
        decreases exps@, 1nat,
    {
        let ghost c0 = *self;
        let ghost es = exps@;
        let mut res: Result<(), String> = Ok(());
        let mut i: usize = 0;
        assert(es.take(0) =~= Seq::<Expression>::empty());
        while i < exps.len()
            invariant
                self.wf(),
                self.scope_index == old(self).scope_index,
                c0 == *old(self),
                es == exps@,
                i <= es.len(),
                res is Ok,
                compiled_exprs(es.take(i as int), c0, *self, res),
            decreases es.len() - i,
        {
            let ghost cm = *self;
            assert(es.take(i + 1).drop_last() =~= es.take(i as int));
            assert(es.take(i + 1).last() == es[i as int]);
            let r1 = self.compile_expression(&exps[i]);
            assert(step((cm, res)));
            assert(compiled_exprs(es.take(i + 1), c0, *self, r1));
            if r1.is_err() {
                proof {
                    lemma_exprs_err_extends(es, i + 1, c0, *self, r1);
                }
                return r1;
            }
            res = r1;
            i = i + 1;
        }
        assert(es.take(i as int) =~= es);
        res
    }

    /// Compiles an expression; its value ends on top of the stack.
    pub fn compile_expression(&mut self, e: &Expression) -> (r: Result<(), String>)
        requires
            old(self).wf(),
        ensures
            r is Ok ==> !last_recorded_pop(*final(self)),
            final(self).wf(),
            final(self).scope_index == old(self).scope_index,
            compiled_expr(*e, *old(self), *final(self), r),
        decreases *e, 1nat,
    {
        match e {
            Expression::IntegerLiteral(i) => {
                let idx = self.add_constant(Object::Integer(Integer { value: i.value }));
                let mut operands: Vec<i64> = Vec::new();
                operands.push(idx);
                assert(operands@ =~= seq![old(self).constants@.len() as i64]);
                self.emit(Opcode::OpConstant, operands);
                Ok(())
            },
            Expression::BooleanLiteral(b) => {
                if b.value {
                    self.emit(Opcode::OpTrue, Vec::new());
                } else {
                    self.emit(Opcode::OpFalse, Vec::new());
                }
                Ok(())
            },
            Expression::StringLiteral(sl) => {
                let idx = self.add_constant(Object::StringObj(StringObj { value: sl.value.clone() }));
                let mut operands: Vec<i64> = Vec::new();
                operands.push(idx);
                assert(operands@ =~= seq![old(self).constants@.len() as i64]);
                self.emit(Opcode::OpConstant, operands);
                Ok(())
            },
            Expression::Identifier(id) => {
                match self.symbol_table.resolve(id.value.as_str()) {
                    Some(symbol) => {
                        self.load_symbol(&symbol);
                        Ok(())
                    },
                    None => {
                        let mut m = String::from_str("undefined variable ");
                        m.append(id.value.as_str());
                        Err(m)
                    },
                }
            },
            Expression::PrefixExpression(p) => self.compile_prefix(p),
            Expression::InfixExpression(ie) => self.compile_infix(ie),
            Expression::IfExpression(ie) => self.compile_if(ie),
            Expression::ArrayLiteral(a) => {
                let r1 = self.compile_expressions(&a.elements);
                assert(step((*self, r1)));
                if r1.is_err() {
                    return r1;
                }
                #[verifier::truncate]
                let len = a.elements.len() as i64;
                let mut operands: Vec<i64> = Vec::new();
                operands.push(len);
                assert(operands@ =~= seq![a.elements@.len() as i64]);
                self.emit(Opcode::OpArray, operands);
                Ok(())
            },
            Expression::HashLiteral(h) => self.compile_hash_literal(h),
            Expression::IndexExpression(ix) => self.compile_index(ix),
            Expression::FunctionLiteral(f) => self.compile_function_literal(f),
            Expression::CallExpression(c) => self.compile_call(c),
        }
    }

    /// Compiles a prefix expression: its operand, then the operator.
    fn compile_prefix(&mut self, p: &PrefixExpression) -> (r: Result<(), String>)
        requires
            old(self).wf(),
        ensures
            r is Ok ==> !last_recorded_pop(*final(self)),
            final(self).wf(),
            final(self).scope_index == old(self).scope_index,
            compiled_expr(Expression::PrefixExpression(*p), *old(self), *final(self), r),
        decreases *p, 0nat,
    {
        let r1 = self.compile_expression(&p.right);
        assert(step((*self, r1)));
        if r1.is_err() {
            return r1;
        }
        if str_eq(p.operator.as_str(), "!") {
            self.emit(Opcode::OpBang, Vec::new());
        } else if str_eq(p.operator.as_str(), "-") {
            self.emit(Opcode::OpMinus, Vec::new());
        } else {
            let mut m = String::from_str("unknown operator ");
            m.append(p.operator.as_str());
            return Err(m);
        }
        Ok(())
    }

    /// Compiles an infix expression: both operands, then the operator; for
    /// `<` the right operand first, then `>`.
    fn compile_infix(&mut self, ie: &InfixExpression) -> (r: Result<(), String>)
        requires
            old(self).wf(),
        ensures
            r is Ok ==> !last_recorded_pop(*final(self)),
            final(self).wf(),
            final(self).scope_index == old(self).scope_index,
            compiled_expr(Expression::InfixExpression(*ie), *old(self), *final(self), r),
        decreases *ie, 0nat,
    {
        let less = str_eq(ie.operator.as_str(), "<");
        let r1 = if less {
            self.compile_expression(&ie.right)
        } else {
            self.compile_expression(&ie.left)
        };
        let ghost cm = *self;
        assert(step((cm, r1)));
        if r1.is_err() {
            return r1;
        }
        let r2 = if less {
            self.compile_expression(&ie.left)
        } else {
            self.compile_expression(&ie.right)
        };
        assert(step((*self, r2)));
        if r2.is_err() {
            return r2;
        }
        if less {
            self.emit(Opcode::OpGreaterThan, Vec::new());
            return Ok(());
        }
        let op = ie.operator.as_str();
        if str_eq(op, "+") {
            self.emit(Opcode::OpAdd, Vec::new());
        } else if str_eq(op, "-") {
            self.emit(Opcode::OpSub, Vec::new());
        } else if str_eq(op, "*") {
            self.emit(Opcode::OpMul, Vec::new());
        } else if str_eq(op, "/") {
            self.emit(Opcode::OpDiv, Vec::new());
        } else if str_eq(op, ">") {
            self.emit(Opcode::OpGreaterThan, Vec::new());
        } else if str_eq(op, "==") {
            self.emit(Opcode::OpEqual, Vec::new());
        } else if str_eq(op, "!=") {
            self.emit(Opcode::OpNotEqual, Vec::new());
        } else {
            let mut m = String::from_str("unknown operator ");
            m.append(op);
            return Err(m);
        }
        Ok(())
    }

    /// Compiles an `if`: the condition, a conditional jump past the
    /// consequence, the consequence, a jump past the alternative, and the
    /// alternative (or `null`); the jumps are set once their targets are known.
    fn compile_if(&mut self, ie: &IfExpression) -> (r: Result<(), String>)
        requires
            old(self).wf(),
        ensures
            r is Ok ==> !last_recorded_pop(*final(self)),
            final(self).wf(),
            final(self).scope_index == old(self).scope_index,
            compiled_expr(Expression::IfExpression(*ie), *old(self), *final(self), r),
        decreases *ie, 0nat,
    {
        let ra = self.compile_expression(&ie.condition);
        let ghost ca = *self;
        assert(step((ca, ra)));
        if ra.is_err() {
            return ra;
        }
        let mut placeholder: Vec<i64> = Vec::new();
        placeholder.push(9999);
        assert(placeholder@ =~= seq![9999i64]);
        let jump_not_truthy_pos = self.emit(Opcode::OpJumpNotTruthy, placeholder);
        let ghost cb = *self;
        let rc = self.compile_block(&ie.consequence);
        let ghost cc = *self;
        assert(step((cb, cc, rc)));
        if rc.is_err() {
            return rc;
        }
        if self.last_instruction_is(Opcode::OpPop) {
            self.remove_last_pop();
        }
        let ghost cd = *self;
        let mut placeholder2: Vec<i64> = Vec::new();
        placeholder2.push(9999);
        assert(placeholder2@ =~= seq![9999i64]);
        let jump_pos = self.emit(Opcode::OpJump, placeholder2);
        let ghost ce = *self;
        let after_consequence_pos = self.scopes[self.scopes.len() - 1].instructions.0.len();
        #[verifier::truncate]
        let target = after_consequence_pos as i64;
        self.change_operand(jump_not_truthy_pos, target);
        let ghost cf = *self;
        let rg: Result<(), String> = match &ie.alternative {
            Some(a) => {
                let rh = self.compile_block(a);
                assert(step((*self, rh)));
                if rh.is_err() {
                    rh
                } else {
                    if self.last_instruction_is(Opcode::OpPop) {
                        self.remove_last_pop();
                    }
                    Ok(())
                }
            },
            None => {
                self.emit(Opcode::OpNull, Vec::new());
                Ok(())
            },
        };
        let ghost cg = *self;
        assert(step((cd, ce, cf, cg, rg)));
        if rg.is_err() {
            return rg;
        }
        let after_alternative_pos = self.scopes[self.scopes.len() - 1].instructions.0.len();
        #[verifier::truncate]
        let target2 = after_alternative_pos as i64;
        self.change_operand(jump_pos, target2);
        Ok(())
    }

    /// Compiles an index expression: the indexed value, the index, then the
    /// indexing.
    fn compile_index(&mut self, ix: &IndexExpression) -> (r: Result<(), String>)
        requires
            old(self).wf(),
        ensures
            r is Ok ==> !last_recorded_pop(*final(self)),
            final(self).wf(),
            final(self).scope_index == old(self).scope_index,
            compiled_expr(Expression::IndexExpression(*ix), *old(self), *final(self), r),
        decreases *ix, 0nat,
    {
        let r1 = self.compile_expression(&ix.left);
        assert(step((*self, r1)));
        if r1.is_err() {
            return r1;
        }
        let r2 = self.compile_expression(&ix.index);
        assert(step((*self, r2)));
        if r2.is_err() {
            return r2;
        }
        self.emit(Opcode::OpIndex, Vec::new());
        Ok(())
    }

    /// Compiles a call: the function, the arguments, then the call.
    fn compile_call(&mut self, c: &CallExpression) -> (r: Result<(), String>)
        requires
            old(self).wf(),
        ensures
            r is Ok ==> !last_recorded_pop(*final(self)),
            final(self).wf(),
            final(self).scope_index == old(self).scope_index,
            compiled_expr(Expression::CallExpression(*c), *old(self), *final(self), r),
        decreases *c, 0nat,
    {
        let r1 = self.compile_expression(&c.function);
        assert(step((*self, r1)));
        if r1.is_err() {
            return r1;
        }
        let r2 = self.compile_expressions(&c.arguments);
        assert(step((*self, r2)));
        if r2.is_err() {
            return r2;
        }
        #[verifier::truncate]
        let len = c.arguments.len() as i64;
        let mut operands: Vec<i64> = Vec::new();
        operands.push(len);
        assert(operands@ =~= seq![c.arguments@.len() as i64]);
        self.emit(Opcode::OpCall, operands);
        Ok(())
    }

    /// Compiles a hash literal: its entries ordered by the text of their
    /// keys, each key followed by its value.
    fn compile_hash_literal(&mut self, h: &HashLiteral) -> (r: Result<(), String>)
        requires
            old(self).wf(),
        ensures
            r is Ok ==> !last_recorded_pop(*final(self)),
            final(self).wf(),
            final(self).scope_index == old(self).scope_index,
            compiled_expr(Expression::HashLiteral(*h), *old(self), *final(self), r),
        decreases *h, 0nat,
    {
        let ghost c0 = *self;
        let ghost ps = h.pairs@;
        let mut keys: Vec<String> = Vec::new();
        let mut i: usize = 0;
        while i < h.pairs.len()
            invariant
                i <= h.pairs@.len(),
                keys@.len() == i,
                forall|j: int| 0 <= j < i ==> (#[trigger] keys@[j])@ == expr_str(h.pairs@[j].0),
            decreases h.pairs@.len() - i,
        {
            keys.push(h.pairs[i].0.string());
            i = i + 1;
        }
        let order = crate::text::sort_indices_by_text(&keys);
        let ghost os = order@;
        assert forall|a: int, b: int| 0 <= a < b < os.len() implies !crate::text::text_less(
            expr_str(#[trigger] ps[os[b] as int].0),
            expr_str(#[trigger] ps[os[a] as int].0),
        ) by {
            assert(keys@[os[b] as int]@ == expr_str(ps[os[b] as int].0));
            assert(keys@[os[a] as int]@ == expr_str(ps[os[a] as int].0));
        }
        assert forall|a: int, b: int|
            0 <= a < b < os.len() && expr_str(ps[os[a] as int].0) == expr_str(ps[os[b] as int].0) implies #[trigger] os[a]
                < #[trigger] os[b] by {
            assert(keys@[os[b] as int]@ == expr_str(ps[os[b] as int].0));
            assert(keys@[os[a] as int]@ == expr_str(ps[os[a] as int].0));
        }
        assert(keys_ordered(ps, os));
        let mut res: Result<(), String> = Ok(());
        let mut k: usize = 0;
        assert(os.take(0) =~= Seq::<usize>::empty());
        while k < order.len()
            invariant
                self.wf(),
                self.scope_index == old(self).scope_index,
                c0 == *old(self),
                ps == h.pairs@,
                os == order@,
                k <= os.len(),
                os.len() == ps.len(),
                keys_ordered(ps, os),
                forall|j: int| 0 <= j < os.len() ==> #[trigger] os[j] < ps.len(),
                res is Ok,
                compiled_pairs(ps, os.take(k as int), c0, *self, res),
            decreases os.len() - k,
        {
            let ghost cm = *self;
            let idx = order[k];
            assert(os.take(k + 1).drop_last() =~= os.take(k as int));
            assert(os.take(k + 1).last() == idx);
            let rk = self.compile_expression(&h.pairs[idx].0);
            let ghost cn = *self;
            assert(step((cm, res)));
            assert(step((cn, rk)));
            if rk.is_err() {
                proof {
                    assert(compiled_pairs(ps, os.take(k + 1), c0, cn, rk));
                    lemma_pairs_err_extends(ps, os, k + 1, c0, cn, rk);
                    assert(step((os, cn, rk)));
                }
                return rk;
            }
            let rv = self.compile_expression(&h.pairs[idx].1);
            assert(compiled_pairs(ps, os.take(k + 1), c0, *self, rv));
            if rv.is_err() {
                proof {
                    lemma_pairs_err_extends(ps, os, k + 1, c0, *self, rv);
                    assert(step((os, *self, rv)));
                }
                return rv;
            }
            res = rv;
            k = k + 1;
        }
        assert(os.take(k as int) =~= os);
        let ghost cm = *self;
        assert(step((os, cm, res)));
        let twice: u64 = (h.pairs.len() as u64).wrapping_mul(2);
        let n: i64 = #[verifier::truncate] (twice as i64);
        let mut operands: Vec<i64> = Vec::new();
        operands.push(n);
        assert(operands@ =~= seq![hash_operand(ps.len())]);
        self.emit(Opcode::OpHash, operands);
        Ok(())
    }

    /// Compiles a function literal into a compiled-function constant and
    /// emits the instruction that makes a closure of it, preceded by loads of
    /// the symbols it captures.
    fn compile_function_literal(&mut self, f: &FunctionLiteral) -> (r: Result<(), String>)
        requires
            old(self).wf(),
        ensures
            r is Ok ==> !last_recorded_pop(*final(self)),
            final(self).wf(),
            final(self).scope_index == old(self).scope_index,
            compiled_expr(Expression::FunctionLiteral(*f), *old(self), *final(self), r),
        decreases *f, 0nat,
    {
        if self.scope_index == usize::MAX {
            return Err(String::from_str("functions nested too deeply"));
        }
        self.enter_scope();
        let ghost ca = *self;
        let ghost ps = f.parameters@;
        let mut i: usize = 0;
        assert(ps.take(0) =~= Seq::<Identifier>::empty());
        while i < f.parameters.len()
            invariant
                self.wf(),
                self.scope_index == old(self).scope_index + 1,
                ca.scope_index == old(self).scope_index + 1,
                scope_entered(*old(self), ca),
                ps == f.parameters@,
                i <= ps.len(),
                params_defined(ps.take(i as int), ca, *self, Ok(())),
            decreases ps.len() - i,
        {
            let ghost cm = *self;
            assert(ps.take(i + 1).drop_last() =~= ps.take(i as int));
            assert(ps.take(i + 1).last() == ps[i as int]);
            assert(step((cm, Ok::<(), String>(()))));
            if self.symbol_table.num_definitions == usize::MAX {
                let r: Result<(), String> = Err(String::from_str("too many definitions"));
                proof {
                    assert(params_defined(ps.take(i + 1), ca, cm, r));
                    lemma_params_err_extends(ps, i + 1, ca, cm, r);
                }
                self.leave_scope();
                assert(scope_entered(*old(self), ca));
                assert(params_defined(ps, ca, cm, r));
                assert(scope_left(cm, *self));
                assert(step((ca, cm, r)));
                return r;
            }
            self.symbol_table.define(f.parameters[i].value.as_str());
            assert(params_defined(ps.take(i + 1), ca, *self, Ok(())));
            i = i + 1;
        }
        assert(ps.take(i as int) =~= ps);
        let ghost cb = *self;
        let rc = self.compile_block(&f.body);
        let ghost cc = *self;
        assert(step((ca, cb, Ok::<(), String>(()))));
        assert(step((cc, rc)));
        if rc.is_err() {
            self.leave_scope();
            return rc;
        }
        if self.last_instruction_is(Opcode::OpPop) {
            self.replace_last_pop_with_return();
        }
        let ghost cd = *self;
        if !self.last_instruction_is(Opcode::OpReturnValue) {
            self.emit(Opcode::OpReturn, Vec::new());
        }
        let ghost ce = *self;
        proof {
            assert(records_ok(self.scopes@[self.scopes@.len() - 1]));
            lemma_op_byte_roundtrip(Opcode::OpReturn);
            lemma_op_byte_roundtrip(Opcode::OpReturnValue);
            assert(op_len(Opcode::OpReturn) == 1);
            assert(op_len(Opcode::OpReturnValue) == 1);
            assert(ends_in_return(self.current()));
        }
        let free_symbols = copy_symbols(&self.symbol_table.free_symbols);
        let num_locals = self.symbol_table.num_definitions;
        let instructions = self.leave_scope();
        let ghost cf = *self;
        let ghost fv = sym_views(ce.symbol_table.free_symbols@);
        assert(fv.len() == free_symbols@.len());
        let mut k: usize = 0;
        assert(fv.take(0) =~= Seq::<(Seq<char>, SymbolScope, usize)>::empty());
        while k < free_symbols.len()
            invariant
                self.wf(),
                self.scope_index == old(self).scope_index,
                k <= free_symbols@.len(),
                fv.len() == free_symbols@.len(),
                forall|j: int| 0 <= j < fv.len() ==> #[trigger] fv[j] == sym_view(free_symbols@[j]),
                symbols_loaded(fv.take(k as int), cf, *self),
            decreases free_symbols@.len() - k,
        {
            let ghost cm = *self;
            assert(fv.take(k + 1).drop_last() =~= fv.take(k as int));
            assert(fv.take(k + 1).last() == fv[k as int]);
            self.load_symbol(&free_symbols[k]);
            assert(step(cm));
            k = k + 1;
        }
        assert(fv.take(k as int) =~= fv);
        let ghost cg = *self;
        let compiled_fn = CompiledFunction { instructions, num_locals, num_parameters: f.parameters.len() };
        let fn_index = self.add_constant(Object::CompiledFunction(compiled_fn));
        #[verifier::truncate]
        let num_free = free_symbols.len() as i64;
        let mut operands: Vec<i64> = Vec::new();
        operands.push(fn_index);
        operands.push(num_free);
        assert(operands@ =~= seq![cg.constants@.len() as i64, free_symbols@.len() as i64]);
        self.emit(Opcode::OpClosure, operands);
        assert(self.constants@.drop_last() =~= cg.constants@);
        assert(closure_emitted(
            cg,
            *self,
            ce.current(),
            ce.symbol_table.num_definitions,
            f.parameters@.len() as usize,
            ce.symbol_table.free_symbols@.len(),
        ));
        assert(return_made(cc, cd));
        assert(return_ensured(cd, ce));
        assert(scope_left(ce, cf));
        assert(symbols_loaded(sym_views(ce.symbol_table.free_symbols@), cf, cg));
        assert(step((cd, ce, cf, cg)));
        Ok(())
    }
}

/// Once a prefix of the statements failed to compile, so do all of them.
proof fn lemma_stmts_err_extends(ss: Seq<Statement>, k: int, c0: Compiler, c1: Compiler, r: Result<(), String>)
    requires
        0 <= k <= ss.len(),
        r is Err,
        compiled_stmts(ss.take(k), c0, c1, r),
    ensures
        compiled_stmts(ss, c0, c1, r),
    decreases ss.len() - k,
{
    if k < ss.len() {
        let t = ss.take(k + 1);
        assert(t.drop_last() =~= ss.take(k));
        assert(step((c1, r)));
        assert(compiled_stmts(t, c0, c1, r));
        lemma_stmts_err_extends(ss, k + 1, c0, c1, r);
    } else {
        assert(ss.take(k) =~= ss);
    }
}

/// Once a prefix of the expressions failed to compile, so do all of them.
proof fn lemma_exprs_err_extends(es: Seq<Expression>, k: int, c0: Compiler, c1: Compiler, r: Result<(), String>)
    requires
        0 <= k <= es.len(),
        r is Err,
        compiled_exprs(es.take(k), c0, c1, r),
    ensures
        compiled_exprs(es, c0, c1, r),
    decreases es.len() - k,
{
    if k < es.len() {
        let t = es.take(k + 1);
        assert(t.drop_last() =~= es.take(k));
        assert(step((c1, r)));
        assert(compiled_exprs(t, c0, c1, r));
        lemma_exprs_err_extends(es, k + 1, c0, c1, r);
    } else {
        assert(es.take(k) =~= es);
    }
}

/// Once a prefix of the entries failed to compile, so do all of them.
proof fn lemma_pairs_err_extends(
    ps: Seq<(Expression, Expression)>,
    order: Seq<usize>,
    k: int,
    c0: Compiler,
    c1: Compiler,
    r: Result<(), String>,
)
    requires
        0 <= k <= order.len(),
        r is Err,
        forall|j: int| 0 <= j < order.len() ==> #[trigger] order[j] < ps.len(),
        compiled_pairs(ps, order.take(k), c0, c1, r),
    ensures
        compiled_pairs(ps, order, c0, c1, r),
    decreases order.len() - k,
{
    if k < order.len() {
        let t = order.take(k + 1);
        assert(t.drop_last() =~= order.take(k));
        assert(t.last() == order[k]);
        assert(step((c1, r)));
        assert(compiled_pairs(ps, t, c0, c1, r));
        lemma_pairs_err_extends(ps, order, k + 1, c0, c1, r);
    } else {
        assert(order.take(k) =~= order);
    }
}

/// Once a definition of the parameters failed, so does the whole.
proof fn lemma_params_err_extends(ps: Seq<Identifier>, k: int, c0: Compiler, c1: Compiler, r: Result<(), String>)
    requires
        0 <= k <= ps.len(),
        r is Err,
        params_defined(ps.take(k), c0, c1, r),
    ensures
        params_defined(ps, c0, c1, r),
    decreases ps.len() - k,
{
    if k < ps.len() {
        let t = ps.take(k + 1);
        assert(t.drop_last() =~= ps.take(k));
        assert(step((c1, r)));
        assert(params_defined(t, c0, c1, r));
        lemma_params_err_extends(ps, k + 1, c0, c1, r);
    } else {
        assert(ps.take(k) =~= ps);
    }
}

/// A copy of the symbols.
fn copy_symbols(ss: &Vec<Symbol>) -> (r: Vec<Symbol>)
    ensures
        r@.len() == ss@.len(),
        forall|i: int| 0 <= i < ss@.len() ==> sym_view(#[trigger] r@[i]) == sym_view(ss@[i]),
{
    let mut r: Vec<Symbol> = Vec::new();
    let mut i: usize = 0;
    while i < ss.len()
        invariant
            i <= ss@.len(),
            r@.len() == i,
            forall|k: int| 0 <= k < i ==> sym_view(#[trigger] r@[k]) == sym_view(ss@[k]),
        decreases ss@.len() - i,
    {
        r.push(Symbol { name: ss[i].name.clone(), scope: ss[i].scope, index: ss[i].index });
        i = i + 1;
    }
    r
}

} // verus!
