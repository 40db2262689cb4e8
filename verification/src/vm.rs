//! The virtual machine: runs the bytecode the compiler produces.
use vstd::prelude::*;
use crate::code::{Instructions, Opcode, spec_op_name, spec_op_from_byte};
use crate::compiler::Bytecode;
use crate::frame::Frame;
use crate::object::{
    Object, Integer, Boolean, Null, StringObj, Array, HashPair, Closure, CompiledFunction, Builtin,
    AsHashable, same_obj, same_objs, obj_type, obj_equal, spec_hash_key, find_key, objects_equal,
    object_type_name, native_bool_to_boolean_object, same_compiled, hash_inserted, BuiltinFunction,
    obj_debug, opt_debug, debug_object, debug_opt, same_opt, duplicate_opt,
};
use crate::builtins::{apply_builtin, builtin_by_index};
use crate::evaluator::{opt_type, spec_is_truthy, is_truthy, get_type, index_result};
use crate::step;
use crate::text::usize_to_string;

verus! {

/// How many values the stack holds.
pub const STACK_SIZE: usize = 2048;

/// How many global bindings there are.
pub const GLOBALS_SIZE: usize = 65536;

/// How deeply calls may nest.
pub const MAX_FRAMES: usize = 1024;

/// The virtual machine: constants, the value stack (`sp` is the next free
/// slot; the top is at `sp - 1`), the globals, the call frames (innermost
/// last), and the lines `puts` printed.
#[derive(Debug)]
pub struct Vm {
    pub constants: Vec<Object>,
    pub stack: Vec<Option<Object>>,
    pub sp: usize,
    pub globals: Vec<Option<Object>>,
    pub frames: Vec<Frame>,
    pub output: Vec<String>,
}


/// A vector of `n` empty slots.
fn empty_slots(n: usize) -> (v: Vec<Option<Object>>)
    ensures
        v@.len() == n,
        forall|i: int| 0 <= i < n ==> #[trigger] v@[i] is None,
{
    let mut v: Vec<Option<Object>> = Vec::new();
    let mut i: usize = 0;
    while i < n
        invariant
            i <= n,
            v@.len() == i,
            forall|k: int| 0 <= k < i ==> #[trigger] v@[k] is None,
        decreases n - i,
    {
        v.push(None);
        i = i + 1;
    }
    v
}

/// A machine about to run the main program `ins` with the given constants
/// and globals: an empty stack, one frame at its start, nothing printed.
pub open spec fn machine_started(vm: Vm, ins: Seq<u8>, constants: Seq<Object>, globals: Seq<Option<Object>>) -> bool {
    &&& vm.sp == 0
    &&& forall|i: int| 0 <= i < vm.stack@.len() ==> #[trigger] vm.stack@[i] is None
    &&& vm.frames@.len() == 1
    &&& vm.frames@[0].cl.func.instructions.0@ == ins
    &&& vm.frames@[0].cl.func.num_locals == 0
    &&& vm.frames@[0].cl.func.num_parameters == 0
    &&& vm.frames@[0].cl.free@.len() == 0
    &&& vm.frames@[0].ip == -1
    &&& vm.frames@[0].base_pointer == 0
    &&& vm.constants@ == constants
    &&& vm.globals@ == globals
    &&& vm.output@.len() == 0
}

/// The result of an arithmetic instruction on two integers, or its error.
pub open spec fn int_op_result(op: Opcode, l: i64, r: i64) -> Result<i64, Seq<char>> {
    match op {
        Opcode::OpAdd => Ok(l.wrapping_add(r)),
        Opcode::OpSub => Ok(l.wrapping_sub(r)),
        Opcode::OpMul => Ok(l.wrapping_mul(r)),
        Opcode::OpDiv => match l.checked_div(r) {
            Some(q) => Ok(q),
            None => if r == 0 { Err("division by zero"@) } else { Err("integer overflow"@) },
        },
        _ => Err("unknown integer operator: "@ + spec_op_name(op)),
    }
}

/// The result of a comparison instruction on two integers, or its error.
pub open spec fn int_cmp_result(op: Opcode, l: i64, r: i64) -> Result<bool, Seq<char>> {
    match op {
        Opcode::OpEqual => Ok(r == l),
        Opcode::OpNotEqual => Ok(r != l),
        Opcode::OpGreaterThan => Ok(l > r),
        _ => Err("unknown operator: "@ + spec_op_name(op)),
    }
}

/// Equality of possibly missing values.
pub open spec fn opt_equal(a: Option<Object>, b: Option<Object>) -> bool {
    match (a, b) {
        (Some(x), Some(y)) => obj_equal(x, y),
        (None, None) => true,
        _ => false,
    }
}

/// The result of `!` on a value.
pub open spec fn vm_bang(o: Option<Object>) -> bool {
    match o {
        Some(Object::Boolean(b)) => !b.value,
        Some(Object::Null(_)) => true,
        _ => false,
    }
}

impl Vm {
    /// The machine's invariant: full-size stack and globals, at least one
    /// frame and at most `MAX_FRAMES`, every frame's position at -1 or past.
    pub open spec fn wf(&self) -> bool {
        &&& self.stack@.len() == STACK_SIZE
        &&& self.sp <= STACK_SIZE
        &&& self.globals@.len() >= GLOBALS_SIZE
        &&& 1 <= self.frames@.len() <= MAX_FRAMES
        &&& forall|i: int| 0 <= i < self.frames@.len() ==> #[trigger] self.frames@[i].ip >= -1
        &&& forall|i: int| 0 <= i < self.frames@.len() ==> #[trigger] self.frames@[i].base_pointer <= STACK_SIZE
    }

    /// A machine about to run `bytecode`, with empty globals.
    pub fn new(bytecode: Bytecode) -> (vm: Vm)
        ensures
            vm.wf(),
            machine_started(vm, bytecode.instuctions.0@, bytecode.constants@, vm.globals@),
            forall|i: int| 0 <= i < GLOBALS_SIZE ==> #[trigger] vm.globals@[i] is None,
    {
        let globals = empty_slots(GLOBALS_SIZE);
        Vm::new_with_globals_store(bytecode, globals)
    }

    /// A machine about to run `bytecode` with the given globals.
    pub fn new_with_globals_store(bytecode: Bytecode, s: Vec<Option<Object>>) -> (vm: Vm)
        requires
            s@.len() >= GLOBALS_SIZE,
        ensures
            vm.wf(),
            machine_started(vm, bytecode.instuctions.0@, bytecode.constants@, s@),
    {
        let main_fn = CompiledFunction { instructions: bytecode.instuctions, num_locals: 0, num_parameters: 0 };
        let main_closure = Closure { func: main_fn, free: Vec::new() };
        let mut frames: Vec<Frame> = Vec::new();
        frames.push(Frame::new(main_closure, 0));
        Vm {
            constants: bytecode.constants,
            stack: empty_slots(STACK_SIZE),
            sp: 0,
            globals: s,
            frames,
            output: Vec::new(),
        }
    }

    /// Pushes a value; fails when the stack is full.
    pub fn push(&mut self, o: Object) -> (r: Result<(), String>)
        requires
            old(self).wf(),
        ensures
            final(self).wf(),
            value_pushed(*old(self), *final(self), o, outcome(r)),
    {
        if self.sp >= STACK_SIZE {
            return Err(String::from_str("stack overflow"));
        }
        self.stack.set(self.sp, Some(o));
        self.sp = self.sp + 1;
        Ok(())
    }

    /// Takes the value on top of the stack; it stays in its slot, above `sp`.
    pub fn pop(&mut self) -> (r: Option<Object>)
        requires
            old(self).wf(),
            old(self).sp > 0,
        ensures
            final(self).wf(),
            *final(self) == (Vm { sp: (old(self).sp - 1) as usize, ..*old(self) }),
            same_opt(r, old(self).stack@[old(self).sp - 1]),
    {
        let v = duplicate_opt(&self.stack[self.sp - 1]);
        self.sp = self.sp - 1;
        v
    }

    /// A copy of the value most recently popped: the one in the slot at `sp`.
    pub fn last_popped_stack_elem(&self) -> (r: Option<Object>)
        requires
            self.wf(),
        ensures
            self.sp < STACK_SIZE ==> same_opt(r, self.stack@[self.sp as int]),
            self.sp >= STACK_SIZE ==> r is None,
    {
        if self.sp >= STACK_SIZE {
            return None;
        }
        duplicate_opt(&self.stack[self.sp])
    }
}


/// The machine went from `a` to `b` by taking the top `k` values off the
/// stack and pushing `v`.
pub open spec fn replaced_top(a: Vm, b: Vm, k: int, v: Object) -> bool {
    &&& a.sp >= k >= 1
    &&& b.sp == a.sp - k + 1
    &&& b.stack@ == a.stack@.update(a.sp - k, Some(v))
}

// ---------------------------------------------------------------------------
// What each instruction does, as a relation between the machine before and
// after and the result.

/// The error message of a result, if it is one.
pub open spec fn outcome<T>(r: Result<T, String>) -> Option<Seq<char>> {
    match r {
        Ok(_) => None,
        Err(m) => Some(m@),
    }
}

/// The step failed with message `m`, and the machine is as it was.
pub open spec fn failed(a: Vm, b: Vm, e: Option<Seq<char>>, m: Seq<char>) -> bool {
    e == Some(m) && b == a
}

/// `b` is `a` with `o` pushed; on a full stack, an overflow.
pub open spec fn value_pushed(a: Vm, b: Vm, o: Object, e: Option<Seq<char>>) -> bool {
    if a.sp < STACK_SIZE {
        &&& e is None
        &&& b.same_context(a)
        &&& b.sp == a.sp + 1
        &&& b.stack@ == a.stack@.update(a.sp as int, Some(o))
    } else {
        failed(a, b, e, "stack overflow"@)
    }
}

/// `b` is `a` with the value at `k` replaced by one the same as `v`.
pub open spec fn slot_set(a: Seq<Option<Object>>, b: Seq<Option<Object>>, k: int, v: Object) -> bool {
    &&& b == a.update(k, b[k])
    &&& b[k] matches Some(x) && same_obj(x, v)
}

/// `b` is `a` with a copy of `v` pushed; on a full stack, an overflow.
pub open spec fn copy_pushed(a: Vm, b: Vm, v: Object, e: Option<Seq<char>>) -> bool {
    if a.sp < STACK_SIZE {
        &&& e is None
        &&& b.same_context(a)
        &&& b.sp == a.sp + 1
        &&& slot_set(a.stack@, b.stack@, a.sp as int, v)
    } else {
        failed(a, b, e, "stack overflow"@)
    }
}

/// Every slot holds a value.
pub open spec fn all_set(s: Seq<Option<Object>>) -> bool {
    forall|i: int| 0 <= i < s.len() ==> (#[trigger] s[i]) is Some
}

/// The values in the slots.
pub open spec fn slot_values(s: Seq<Option<Object>>) -> Seq<Object> {
    s.map_values(|o: Option<Object>| o.unwrap())
}

/// The `n` slots below the stack pointer.
pub open spec fn top_slots(a: Vm, n: int) -> Seq<Option<Object>> {
    a.stack@.subrange(a.sp - n, a.sp as int)
}

/// `b` is `a` with the `n` values on top of the stack replaced by one
/// value; on a full stack, an overflow.
pub open spec fn top_replaced(a: Vm, b: Vm, n: int, e: Option<Seq<char>>) -> bool {
    let start = a.sp - n;
    if start < STACK_SIZE {
        &&& e is None
        &&& b.same_context(a)
        &&& b.sp == start + 1
        &&& b.stack@ == a.stack@.update(start, b.stack@[start])
    } else {
        failed(a, b, e, "stack overflow"@)
    }
}

/// The instruction that makes an array of the `n` values on top.
pub open spec fn array_built(a: Vm, b: Vm, n: usize, e: Option<Seq<char>>) -> bool {
    if n > a.sp {
        failed(a, b, e, "stack underflow"@)
    } else if !all_set(top_slots(a, n as int)) {
        failed(a, b, e, "uninitialized value"@)
    } else {
        &&& top_replaced(a, b, n as int, e)
        &&& e is None ==> (b.stack@[a.sp - n] matches Some(Object::Array(arr)) && same_objs(
            arr.elements@,
            slot_values(top_slots(a, n as int)),
        ))
    }
}

/// What is wrong with a key and a value to be stored in a hash, if anything.
pub open spec fn pair_error(k: Option<Object>, v: Option<Object>) -> Option<Seq<char>> {
    match k {
        None => Some("unusable as hash key: None"@),
        Some(ko) => match spec_hash_key(ko) {
            None => Some("unusable as hash key: "@ + obj_type(ko)),
            Some(_) => if v is None {
                Some("uninitialized value"@)
            } else {
                None
            },
        },
    }
}

/// The first thing wrong with the first `k` key and value pairs of `s`.
pub open spec fn pairs_error(s: Seq<Option<Object>>, k: nat) -> Option<Seq<char>>
    decreases k,
{
    if k == 0 {
        None
    } else {
        match pairs_error(s, (k - 1) as nat) {
            Some(m) => Some(m),
            None => pair_error(s[2 * k - 2], s[2 * k - 1]),
        }
    }
}

/// Storing the first `k` key and value pairs of `s` in turn gives
/// `pairs`, up to copies of the values.
pub open spec fn pairs_stored(s: Seq<Option<Object>>, k: nat, pairs: Seq<HashPair>) -> bool
    decreases k,
{
    if k == 0 {
        pairs == Seq::<HashPair>::empty()
    } else {
        exists|prev: Seq<HashPair>, v: Object|
            #![trigger step((prev, v))]
            pairs_stored(s, (k - 1) as nat, prev) && same_obj(v, s[2 * k - 1].unwrap()) && pairs == hash_inserted(
                prev,
                spec_hash_key(s[2 * k - 2].unwrap()).unwrap(),
                v,
            )
    }
}

/// The instruction that makes a hash of the `n` values on top, keys and
/// values in turn.
pub open spec fn hash_built(a: Vm, b: Vm, n: usize, e: Option<Seq<char>>) -> bool {
    if n > a.sp {
        failed(a, b, e, "stack underflow"@)
    } else if n % 2 != 0 {
        failed(a, b, e, "malformed instruction"@)
    } else {
        match pairs_error(top_slots(a, n as int), (n / 2) as nat) {
            Some(m) => failed(a, b, e, m),
            None => {
                &&& top_replaced(a, b, n as int, e)
                &&& e is None ==> (b.stack@[a.sp - n] matches Some(Object::Hash(h)) && pairs_stored(
                    top_slots(a, n as int),
                    (n / 2) as nat,
                    h.pairs@,
                ))
            },
        }
    }
}

/// The instruction that indexes the value below the top by the top.
pub open spec fn indexed(a: Vm, b: Vm, e: Option<Seq<char>>) -> bool {
    if a.sp < 2 {
        failed(a, b, e, "stack underflow"@)
    } else {
        match (a.stack@[a.sp - 2], a.stack@[a.sp - 1]) {
            (Some(Object::Array(arr)), Some(Object::Integer(i))) => if 0 <= i.value < arr.elements@.len() {
                e is None && b.same_context(a) && b.sp == a.sp - 1 && slot_set(
                    a.stack@,
                    b.stack@,
                    a.sp - 2,
                    arr.elements@[i.value as int],
                )
            } else {
                e is None && replaced_top(a, b, 2, Object::Null(Null {})) && b.same_context(a)
            },
            (Some(Object::Hash(h)), Some(k)) => match spec_hash_key(k) {
                Some(key) => match find_key(h.pairs@, key) {
                    Some(j) => e is None && b.same_context(a) && b.sp == a.sp - 1 && slot_set(
                        a.stack@,
                        b.stack@,
                        a.sp - 2,
                        h.pairs@[j].value,
                    ),
                    None => e is None && replaced_top(a, b, 2, Object::Null(Null {})) && b.same_context(a),
                },
                None => failed(a, b, e, "unusable as hash key: "@ + obj_type(k)),
            },
            (Some(Object::Hash(_)), None) => failed(a, b, e, "unusable as hash key: None"@),
            (x, _) => failed(a, b, e, "index operator not supported: "@ + opt_type(x)),
        }
    }
}

/// An arithmetic instruction.
pub open spec fn binary_done(a: Vm, b: Vm, op: Opcode, e: Option<Seq<char>>) -> bool {
    if a.sp < 2 {
        failed(a, b, e, "stack underflow"@)
    } else {
        match (a.stack@[a.sp - 2], a.stack@[a.sp - 1]) {
            (Some(Object::Integer(x)), Some(Object::Integer(y))) => match int_op_result(op, x.value, y.value) {
                Ok(v) => e is None && b.same_context(a) && replaced_top(a, b, 2, Object::Integer(Integer { value: v })),
                Err(m) => failed(a, b, e, m),
            },
            (Some(Object::StringObj(x)), Some(Object::StringObj(y))) => if op == Opcode::OpAdd {
                e is None && b.same_context(a) && b.sp == a.sp - 1 && b.stack@ == a.stack@.update(
                    a.sp - 2,
                    b.stack@[a.sp - 2],
                ) && (b.stack@[a.sp - 2] matches Some(Object::StringObj(z)) && z.value@ == x.value@ + y.value@)
            } else {
                failed(a, b, e, "unknown string operator: "@ + spec_op_name(op))
            },
            (x, y) => failed(a, b, e, "unsupported types for binary operation: "@ + opt_type(x) + " "@ + opt_type(y)),
        }
    }
}

/// A comparison instruction.
pub open spec fn comparison_done(a: Vm, b: Vm, op: Opcode, e: Option<Seq<char>>) -> bool {
    if a.sp < 2 {
        failed(a, b, e, "stack underflow"@)
    } else {
        match (a.stack@[a.sp - 2], a.stack@[a.sp - 1]) {
            (Some(Object::Integer(x)), Some(Object::Integer(y))) => match int_cmp_result(op, x.value, y.value) {
                Ok(v) => e is None && b.same_context(a) && replaced_top(a, b, 2, Object::Boolean(Boolean { value: v })),
                Err(m) => failed(a, b, e, m),
            },
            (x, y) => if op == Opcode::OpEqual {
                e is None && b.same_context(a) && replaced_top(a, b, 2, Object::Boolean(Boolean { value: opt_equal(x, y) }))
            } else if op == Opcode::OpNotEqual {
                e is None && b.same_context(a) && replaced_top(a, b, 2, Object::Boolean(Boolean { value: !opt_equal(x, y) }))
            } else {
                failed(a, b, e, "unknown operator: "@ + spec_op_name(op) + " ("@ + opt_debug(x) + " "@ + opt_debug(y) + ")"@)
            },
        }
    }
}

/// The `!` instruction.
pub open spec fn bang_done(a: Vm, b: Vm, e: Option<Seq<char>>) -> bool {
    if a.sp < 1 {
        failed(a, b, e, "stack underflow"@)
    } else {
        e is None && b.same_context(a) && replaced_top(a, b, 1, Object::Boolean(Boolean { value: vm_bang(a.stack@[a.sp - 1]) }))
    }
}

/// The `-` instruction.
pub open spec fn minus_done(a: Vm, b: Vm, e: Option<Seq<char>>) -> bool {
    if a.sp < 1 {
        failed(a, b, e, "stack underflow"@)
    } else {
        match a.stack@[a.sp - 1] {
            Some(Object::Integer(i)) => e is None && b.same_context(a) && replaced_top(
                a,
                b,
                1,
                Object::Integer(Integer { value: 0i64.wrapping_sub(i.value) }),
            ),
            x => failed(a, b, e, "unsupported type for negation: "@ + opt_type(x)),
        }
    }
}

/// The instruction that stores the popped top in global `idx`.
pub open spec fn global_set(a: Vm, b: Vm, idx: usize, e: Option<Seq<char>>) -> bool {
    if a.sp < 1 {
        failed(a, b, e, "stack underflow"@)
    } else {
        &&& e is None
        &&& b.sp == a.sp - 1
        &&& b.stack@ == a.stack@
        &&& b.frames@ == a.frames@
        &&& b.constants@ == a.constants@
        &&& b.output@ == a.output@
        &&& b.globals@ == a.globals@.update(idx as int, b.globals@[idx as int])
        &&& same_opt(b.globals@[idx as int], a.stack@[a.sp - 1])
    }
}

/// The instruction that pushes global `idx`.
pub open spec fn global_got(a: Vm, b: Vm, idx: usize, e: Option<Seq<char>>) -> bool {
    match a.globals@[idx as int] {
        None => failed(a, b, e, "undefined global"@),
        Some(g) => copy_pushed(a, b, g, e),
    }
}

/// The instruction that pushes constant `idx`.
pub open spec fn constant_got(a: Vm, b: Vm, idx: usize, e: Option<Seq<char>>) -> bool {
    if idx >= a.constants@.len() {
        failed(a, b, e, "constant index out of range"@)
    } else {
        copy_pushed(a, b, a.constants@[idx as int], e)
    }
}

/// Where the slots of the innermost frame begin.
pub open spec fn base(a: Vm) -> usize {
    a.frames@.last().base_pointer
}

/// The instruction that stores the popped top in local `idx`.
pub open spec fn local_set(a: Vm, b: Vm, idx: usize, e: Option<Seq<char>>) -> bool {
    if a.sp < 1 {
        failed(a, b, e, "stack underflow"@)
    } else if idx >= STACK_SIZE || base(a) >= STACK_SIZE - idx {
        failed(a, b, e, "stack overflow"@)
    } else {
        &&& e is None
        &&& b.sp == a.sp - 1
        &&& b.frames@ == a.frames@
        &&& b.globals@ == a.globals@
        &&& b.constants@ == a.constants@
        &&& b.output@ == a.output@
        &&& b.stack@ == a.stack@.update(base(a) + idx, b.stack@[base(a) + idx])
        &&& same_opt(b.stack@[base(a) + idx], a.stack@[a.sp - 1])
    }
}

/// The instruction that pushes local `idx`.
pub open spec fn local_got(a: Vm, b: Vm, idx: usize, e: Option<Seq<char>>) -> bool {
    if idx >= STACK_SIZE || base(a) >= STACK_SIZE - idx {
        failed(a, b, e, "stack overflow"@)
    } else {
        match a.stack@[base(a) + idx] {
            None => failed(a, b, e, "uninitialized local"@),
            Some(v) => copy_pushed(a, b, v, e),
        }
    }
}

/// The instruction that pushes free variable `idx` of the running closure.
pub open spec fn free_got(a: Vm, b: Vm, idx: usize, e: Option<Seq<char>>) -> bool {
    if idx >= a.frames@.last().cl.free@.len() {
        failed(a, b, e, "free variable index out of range"@)
    } else {
        copy_pushed(a, b, a.frames@.last().cl.free@[idx as int], e)
    }
}

/// The instruction that pushes builtin `idx`.
pub open spec fn builtin_got(a: Vm, b: Vm, idx: usize, e: Option<Seq<char>>) -> bool {
    if idx < 6 {
        value_pushed(a, b, Object::Builtin(Builtin { func: crate::builtins::builtin_at(idx as int) }), e)
    } else {
        failed(a, b, e, "unknown builtin"@)
    }
}

/// Two closures are copies of each other.
pub open spec fn same_closure(x: Closure, y: Closure) -> bool {
    same_compiled(x.func, y.func) && same_objs(x.free@, y.free@)
}

/// A frame about to run closure `cl`.
pub open spec fn new_frame(cl: Closure, base_pointer: usize) -> Frame {
    Frame { cl, ip: -1i64, base_pointer }
}

/// Calling closure `cl` with the `num_args` values on top as its arguments.
pub open spec fn closure_called(a: Vm, b: Vm, cl: Closure, num_args: usize, e: Option<Seq<char>>) -> bool {
    if num_args != cl.func.num_parameters {
        failed(
            a,
            b,
            e,
            "wrong number of arguments: want="@ + crate::text::nat_str(cl.func.num_parameters as nat) + ", got="@
                + crate::text::nat_str(num_args as nat),
        )
    } else if a.frames@.len() >= MAX_FRAMES || cl.func.num_locals > STACK_SIZE - (a.sp - num_args) {
        failed(a, b, e, "stack overflow"@)
    } else {
        &&& e is None
        &&& b.frames@ == a.frames@.push(new_frame(cl, (a.sp - num_args) as usize))
        &&& b.sp == a.sp - num_args + cl.func.num_locals
        &&& b.stack@ == a.stack@
        &&& b.globals@ == a.globals@
        &&& b.constants@ == a.constants@
        &&& b.output@ == a.output@
    }
}

/// Calling builtin `func` with the `num_args` values on top as its
/// arguments; the result replaces them and the builtin.
pub open spec fn builtin_called(a: Vm, b: Vm, func: BuiltinFunction, num_args: usize, e: Option<Seq<char>>) -> bool {
    if !all_set(top_slots(a, num_args as int)) {
        failed(a, b, e, "uninitialized value"@)
    } else {
        exists|args: Seq<Object>, v: Object|
            #![trigger step((args, v))]
            {
                &&& same_objs(args, slot_values(top_slots(a, num_args as int)))
                &&& crate::builtins::builtin_result(func, args, v, true)
                &&& e is None
                &&& b.sp == a.sp - num_args
                &&& b.stack@ == a.stack@.update(a.sp - num_args - 1, Some(v))
                &&& b.frames@ == a.frames@
                &&& b.globals@ == a.globals@
                &&& b.constants@ == a.constants@
                &&& if func == BuiltinFunction::Puts {
                    crate::evaluator::puts_appended(a.output@, b.output@, args)
                } else {
                    b.output@ == a.output@
                }
            }
    }
}

/// The call instruction.
pub open spec fn call_done(a: Vm, b: Vm, num_args: usize, e: Option<Seq<char>>) -> bool {
    if num_args >= a.sp {
        failed(a, b, e, "stack underflow"@)
    } else {
        match a.stack@[a.sp - 1 - num_args] {
            Some(Object::Closure(cl)) => exists|c: Closure|
                #![trigger step(c)]
                same_closure(c, cl) && closure_called(a, b, c, num_args, e),
            Some(Object::Builtin(bi)) => builtin_called(a, b, bi.func, num_args, e),
            _ => failed(a, b, e, "calling non-function and no-built-in"@),
        }
    }
}

/// The instruction that makes a closure of constant `ci` capturing the
/// `num_free` values on top.
pub open spec fn closure_pushed(a: Vm, b: Vm, ci: usize, num_free: usize, e: Option<Seq<char>>) -> bool {
    if ci >= a.constants@.len() {
        failed(a, b, e, "constant index out of range"@)
    } else if num_free > a.sp {
        failed(a, b, e, "stack underflow"@)
    } else {
        match a.constants@[ci as int] {
            Object::CompiledFunction(f) => if !all_set(top_slots(a, num_free as int)) {
                failed(a, b, e, "uninitialized value"@)
            } else {
                &&& top_replaced(a, b, num_free as int, e)
                &&& e is None ==> (b.stack@[a.sp - num_free] matches Some(Object::Closure(c)) && same_compiled(
                    c.func,
                    f,
                ) && same_objs(c.free@, slot_values(top_slots(a, num_free as int))))
            },
            other => failed(a, b, e, "not a function: "@ + obj_debug(other)),
        }
    }
}

/// Leaving the innermost function with `value`, which goes where the called
/// function was.
pub open spec fn frame_returned(a: Vm, b: Vm, value: Object, e: Option<Seq<char>>) -> bool {
    if a.frames@.len() <= 1 || base(a) == 0 {
        failed(a, b, e, "return outside of a function"@)
    } else {
        &&& e is None
        &&& b.frames@ == a.frames@.drop_last()
        &&& b.sp == base(a)
        &&& b.stack@ == a.stack@.update(base(a) - 1, Some(value))
        &&& b.globals@ == a.globals@
        &&& b.constants@ == a.constants@
        &&& b.output@ == a.output@
    }
}

/// `b` is `a` with the position of the innermost frame set to `ip`.
pub open spec fn ip_set(a: Vm, b: Vm, ip: int) -> bool {
    &&& b.sp == a.sp
    &&& b.stack@ == a.stack@
    &&& b.globals@ == a.globals@
    &&& b.constants@ == a.constants@
    &&& b.output@ == a.output@
    &&& b.frames@ == a.frames@.update(
        a.frames@.len() - 1,
        Frame { cl: a.frames@.last().cl, ip: ip as i64, base_pointer: a.frames@.last().base_pointer },
    )
}

/// The two-byte operand at `p` of the innermost frame's instructions.
pub open spec fn operand16(a: Vm, p: int) -> int {
    a.current_instructions()[p] as int * 256 + a.current_instructions()[p + 1] as int
}

/// The instruction `op`, whose opcode is at `pos`, after the position was
/// set to it: reads its operands, moves past them, and does its work.
pub open spec fn op_done(a: Vm, b: Vm, op: Opcode, pos: int, e: Option<Seq<char>>) -> bool {
    let len = a.current_instructions().len();
    match op {
        Opcode::OpConstant | Opcode::OpGetGlobal | Opcode::OpSetGlobal | Opcode::OpArray | Opcode::OpHash
        | Opcode::OpJump | Opcode::OpJumpNotTruthy => if pos + 2 >= len {
            failed(a, b, e, "malformed instruction"@)
        } else if op == Opcode::OpJump {
            e is None && ip_set(a, b, operand16(a, pos + 1) - 1)
        } else {
            let n = operand16(a, pos + 1) as usize;
            exists|a2: Vm|
                #![trigger step(a2)]
                ip_set(a, a2, pos + 2) && match op {
                    Opcode::OpConstant => constant_got(a2, b, n, e),
                    Opcode::OpGetGlobal => global_got(a2, b, n, e),
                    Opcode::OpSetGlobal => global_set(a2, b, n, e),
                    Opcode::OpArray => array_built(a2, b, n, e),
                    Opcode::OpHash => hash_built(a2, b, n, e),
                    _ => if a2.sp < 1 {
                        failed(a2, b, e, "stack underflow"@)
                    } else {
                        e is None && exists|a3: Vm|
                            #![trigger step(a3)]
                            a3 == Vm { sp: (a2.sp - 1) as usize, ..a2 } && if spec_is_truthy(a2.stack@[a2.sp - 1]) {
                                b == a3
                            } else {
                                ip_set(a3, b, n - 1)
                            }
                    },
                }
        },
        Opcode::OpCall | Opcode::OpGetLocal | Opcode::OpSetLocal | Opcode::OpGetBuiltin | Opcode::OpGetFree => if pos
            + 1 >= len {
            failed(a, b, e, "malformed instruction"@)
        } else {
            let n = a.current_instructions()[pos + 1] as usize;
            exists|a2: Vm|
                #![trigger step(a2)]
                ip_set(a, a2, pos + 1) && match op {
                    Opcode::OpCall => call_done(a2, b, n, e),
                    Opcode::OpGetLocal => local_got(a2, b, n, e),
                    Opcode::OpSetLocal => local_set(a2, b, n, e),
                    Opcode::OpGetBuiltin => builtin_got(a2, b, n, e),
                    _ => free_got(a2, b, n, e),
                }
        },
        Opcode::OpClosure => if pos + 3 >= len {
            failed(a, b, e, "malformed instruction"@)
        } else {
            exists|a2: Vm|
                #![trigger step(a2)]
                ip_set(a, a2, pos + 3) && closure_pushed(
                    a2,
                    b,
                    operand16(a, pos + 1) as usize,
                    a.current_instructions()[pos + 3] as usize,
                    e,
                )
        },
        Opcode::OpAdd | Opcode::OpSub | Opcode::OpMul | Opcode::OpDiv => binary_done(a, b, op, e),
        Opcode::OpEqual | Opcode::OpNotEqual | Opcode::OpGreaterThan => comparison_done(a, b, op, e),
        Opcode::OpPop => if a.sp < 1 {
            failed(a, b, e, "stack underflow"@)
        } else {
            e is None && b == Vm { sp: (a.sp - 1) as usize, ..a }
        },
        Opcode::OpTrue => value_pushed(a, b, Object::Boolean(Boolean { value: true }), e),
        Opcode::OpFalse => value_pushed(a, b, Object::Boolean(Boolean { value: false }), e),
        Opcode::OpNull => value_pushed(a, b, Object::Null(Null {}), e),
        Opcode::OpBang => bang_done(a, b, e),
        Opcode::OpMinus => minus_done(a, b, e),
        Opcode::OpIndex => indexed(a, b, e),
        Opcode::OpReturnValue => if a.sp < 1 {
            failed(a, b, e, "stack underflow"@)
        } else {
            match a.stack@[a.sp - 1] {
                None => e == Some("uninitialized value"@) && b == Vm { sp: (a.sp - 1) as usize, ..a },
                Some(v) => exists|c: Object|
                    #![trigger step(c)]
                    same_obj(c, v) && frame_returned(Vm { sp: (a.sp - 1) as usize, ..a }, b, c, e),
            }
        },
        Opcode::OpReturn => frame_returned(a, b, Object::Null(Null {}), e),
    }
}

/// One step of the machine: the instruction after the innermost frame's
/// position, if there is one (`more` tells), else nothing.
pub open spec fn step_done(a: Vm, b: Vm, e: Option<Seq<char>>, more: bool) -> bool {
    let ins = a.current_instructions();
    let ip = a.frames@.last().ip;
    if ins.len() > 0x7fff_ffff_ffff_ffff {
        failed(a, b, e, "program too large"@)
    } else if ip >= 0x7fff_ffff_ffff_fff0 {
        failed(a, b, e, "malformed instruction"@)
    } else if ip + 1 >= ins.len() {
        e is None && !more && b == a
    } else {
        exists|a1: Vm|
            #![trigger step(a1)]
            ip_set(a, a1, ip + 1) && match spec_op_from_byte(ins[ip + 1]) {
                None => failed(a1, b, e, "unknown opcode"@),
                Some(op) => (e is None ==> more) && op_done(a1, b, op, ip + 1, e),
            }
    }
}

/// Running from `a`, having taken `k` steps, until the innermost frame has
/// no instruction left or a step fails, ends in `b`; after the largest
/// number of steps a `u64` counts, the run stops with an error.
pub open spec fn ran(k: nat, a: Vm, b: Vm, e: Option<Seq<char>>) -> bool
    decreases u64::MAX - k,
{
    if k >= u64::MAX {
        failed(a, b, e, "step limit reached"@)
    } else {
        exists|m: Vm, em: Option<Seq<char>>, more: bool|
            #![trigger step((m, em, more))]
            step_done(a, m, em, more) && match em {
                Some(x) => e == Some(x) && b == m,
                None => if more {
                    ran(k + 1, m, b, e)
                } else {
                    e is None && b == m
                },
            }
    }
}

/// Equality of possibly missing values.
fn opt_objects_equal(a: &Option<Object>, b: &Option<Object>) -> (r: bool)
    ensures
        r == opt_equal(*a, *b),
{
    match (a, b) {
        (Some(x), Some(y)) => objects_equal(x, y),
        (None, None) => true,
        _ => false,
    }
}

/// Copies extend by one copy at a time.
proof fn lemma_same_objs_push(a: Seq<Object>, b: Seq<Object>, x: Object, y: Object)
    requires
        same_objs(a, b),
        same_obj(x, y),
    ensures
        same_objs(a.push(x), b.push(y)),
{
    assert(a.push(x).drop_last() =~= a);
    assert(b.push(y).drop_last() =~= b);
}

/// Once a pair is wrong, the pairs up to any later one are wrong the same way.
proof fn lemma_pairs_error_stays(s: Seq<Option<Object>>, k: nat, kk: nat, m: Seq<char>)
    requires
        k <= kk,
        pairs_error(s, k) == Some(m),
    ensures
        pairs_error(s, kk) == Some(m),
    decreases kk,
{
    if kk > k {
        lemma_pairs_error_stays(s, k, (kk - 1) as nat, m);
    }
}

impl Vm {
    /// Copies of the values in the slots from `start` up to `end`, unless
    /// one of them is empty.
    fn copy_slots(&self, start: usize, end: usize) -> (r: Option<Vec<Object>>)
        requires
            self.wf(),
            start <= end <= STACK_SIZE,
        ensures
            r is Some <==> all_set(self.stack@.subrange(start as int, end as int)),
            r matches Some(v) ==> same_objs(v@, slot_values(self.stack@.subrange(start as int, end as int))),
    {
        let mut out: Vec<Object> = Vec::new();
        let mut i: usize = start;
        assert(slot_values(self.stack@.subrange(start as int, start as int)) =~= Seq::<Object>::empty());
        while i < end
            invariant
                start <= i <= end <= STACK_SIZE,
                self.stack@.len() == STACK_SIZE,
                all_set(self.stack@.subrange(start as int, i as int)),
                same_objs(out@, slot_values(self.stack@.subrange(start as int, i as int))),
            decreases end - i,
        {
            match &self.stack[i] {
                Some(v) => {
                    let c = v.duplicate();
                    proof {
                        lemma_same_objs_push(out@, slot_values(self.stack@.subrange(start as int, i as int)), c, *v);
                        assert(slot_values(self.stack@.subrange(start as int, i as int)).push(*v) =~= slot_values(
                            self.stack@.subrange(start as int, i + 1),
                        ));
                        assert forall|j: int| 0 <= j < i + 1 - start implies (#[trigger] self.stack@.subrange(
                            start as int,
                            i + 1,
                        )[j]) is Some by {
                            if j < i - start {
                                assert(self.stack@.subrange(start as int, i + 1)[j] == self.stack@.subrange(
                                    start as int,
                                    i as int,
                                )[j]);
                            }
                        }
                    }
                    out.push(c);
                },
                None => {
                    assert(self.stack@.subrange(start as int, end as int)[i - start] is None);
                    return None;
                },
            }
            i = i + 1;
        }
        Some(out)
    }
}

impl Vm {
    /// Frames, globals, constants and output are as they were.
    pub open spec fn same_context(&self, other: Vm) -> bool {
        &&& self.frames@ == other.frames@
        &&& self.globals@ == other.globals@
        &&& self.constants@ == other.constants@
        &&& self.output@ == other.output@
    }

    /// Takes the top two values off the stack and pushes `v` in their place.
    fn replace_top_two(&mut self, v: Object)
        requires
            old(self).wf(),
            old(self).sp >= 2,
        ensures
            final(self).wf(),
            final(self).same_context(*old(self)),
            replaced_top(*old(self), *final(self), 2, v),
    {
        self.sp = self.sp - 2;
        let r = self.push(v);
    }

    /// Takes the top value off the stack and pushes `v` in its place.
    fn replace_top_one(&mut self, v: Object)
        requires
            old(self).wf(),
            old(self).sp >= 1,
        ensures
            final(self).wf(),
            final(self).same_context(*old(self)),
            replaced_top(*old(self), *final(self), 1, v),
    {
        self.sp = self.sp - 1;
        let r = self.push(v);
    }

    /// An arithmetic instruction on two integers taken off the stack.
    fn execute_binary_integer_operation(&mut self, op: Opcode, left: i64, right: i64) -> (r: Result<(), String>)
        requires
            old(self).wf(),
            old(self).sp >= 2,
        ensures
            final(self).wf(),
            final(self).same_context(*old(self)),
            match int_op_result(op, left, right) {
                Ok(v) => r is Ok && replaced_top(*old(self), *final(self), 2, Object::Integer(Integer { value: v })),
                Err(m) => failed(*old(self), *final(self), outcome(r), m),
            },
    {
        let result: i64 = match op {
            Opcode::OpAdd => left.wrapping_add(right),
            Opcode::OpSub => left.wrapping_sub(right),
            Opcode::OpMul => left.wrapping_mul(right),
            Opcode::OpDiv => match left.checked_div(right) {
                Some(q) => q,
                None => {
                    if right == 0 {
                        return Err(String::from_str("division by zero"));
                    } else {
                        return Err(String::from_str("integer overflow"));
                    }
                },
            },
            _ => {
                let mut m = String::from_str("unknown integer operator: ");
                m.append(op.name());
                return Err(m);
            },
        };
        self.replace_top_two(Object::Integer(Integer { value: result }));
        Ok(())
    }

    /// An arithmetic instruction: integers, or `+` on two strings.
    fn execute_binary_operation(&mut self, op: Opcode) -> (r: Result<(), String>)
        requires
            old(self).wf(),
        ensures
            final(self).wf(),
            binary_done(*old(self), *final(self), op, outcome(r)),
    {
        if self.sp < 2 {
            return Err(String::from_str("stack underflow"));
        }
        let right = self.pop();
        let left = self.pop();
        self.sp = self.sp + 2;
        match (&left, &right) {
            (Some(Object::Integer(a)), Some(Object::Integer(b))) => {
                self.execute_binary_integer_operation(op, a.value, b.value)
            },
            (Some(Object::StringObj(a)), Some(Object::StringObj(b))) => {
                if op != Opcode::OpAdd {
                    let mut m = String::from_str("unknown string operator: ");
                    m.append(op.name());
                    return Err(m);
                }
                let mut v = a.value.clone();
                v.append(b.value.as_str());
                self.replace_top_two(Object::StringObj(StringObj { value: v }));
                Ok(())
            },
            _ => {
                let lt = get_type(&left);
                let rt = get_type(&right);
                let mut m = String::from_str("unsupported types for binary operation: ");
                m.append(lt.as_str());
                m.append(" ");
                m.append(rt.as_str());
                Err(m)
            },
        }
    }

    /// A comparison instruction on the two values on top of the stack.
    fn execute_comparison(&mut self, op: Opcode) -> (r: Result<(), String>)
        requires
            old(self).wf(),
        ensures
            final(self).wf(),
            comparison_done(*old(self), *final(self), op, outcome(r)),
    {
        if self.sp < 2 {
            return Err(String::from_str("stack underflow"));
        }
        let sp = self.sp;
        let eq = opt_objects_equal(&self.stack[sp - 2], &self.stack[sp - 1]);
        let ints: Option<(i64, i64)> = match (&self.stack[sp - 2], &self.stack[sp - 1]) {
            (Some(Object::Integer(a)), Some(Object::Integer(b))) => Some((a.value, b.value)),
            _ => None,
        };
        match ints {
            Some((l, rv)) => {
                let v = match op {
                    Opcode::OpEqual => rv == l,
                    Opcode::OpNotEqual => rv != l,
                    Opcode::OpGreaterThan => l > rv,
                    _ => {
                        let mut m = String::from_str("unknown operator: ");
                        m.append(op.name());
                        return Err(m);
                    },
                };
                self.replace_top_two(Object::Boolean(Boolean { value: v }));
                Ok(())
            },
            None => {
                if op == Opcode::OpEqual {
                    self.replace_top_two(Object::Boolean(Boolean { value: eq }));
                    Ok(())
                } else if op == Opcode::OpNotEqual {
                    self.replace_top_two(Object::Boolean(Boolean { value: !eq }));
                    Ok(())
                } else {
                    let lt = debug_opt(&self.stack[sp - 2]);
                    let rt = debug_opt(&self.stack[sp - 1]);
                    let mut m = String::from_str("unknown operator: ");
                    m.append(op.name());
                    m.append(" (");
                    m.append(lt.as_str());
                    m.append(" ");
                    m.append(rt.as_str());
                    m.append(")");
                    Err(m)
                }
            },
        }
    }

    /// `!` on the value on top of the stack.
    fn execute_bang_operator(&mut self) -> (r: Result<(), String>)
        requires
            old(self).wf(),
        ensures
            final(self).wf(),
            bang_done(*old(self), *final(self), outcome(r)),
    {
        if self.sp < 1 {
            return Err(String::from_str("stack underflow"));
        }
        let v = match &self.stack[self.sp - 1] {
            Some(Object::Boolean(b)) => !b.value,
            Some(Object::Null(_)) => true,
            _ => false,
        };
        self.replace_top_one(Object::Boolean(Boolean { value: v }));
        Ok(())
    }

    /// `-` on the value on top of the stack.
    fn execute_minus_operator(&mut self) -> (r: Result<(), String>)
        requires
            old(self).wf(),
        ensures
            final(self).wf(),
            minus_done(*old(self), *final(self), outcome(r)),
    {
        if self.sp < 1 {
            return Err(String::from_str("stack underflow"));
        }
        match &self.stack[self.sp - 1] {
            Some(Object::Integer(i)) => {
                let zero: i64 = 0;
                let v = zero.wrapping_sub(i.value);
                self.replace_top_one(Object::Integer(Integer { value: v }));
                Ok(())
            },
            x => {
                let t = get_type(x);
                let mut m = String::from_str("unsupported type for negation: ");
                m.append(t.as_str());
                Err(m)
            },
        }
    }
}


impl Vm {
    /// The instructions of the innermost frame.
    pub open spec fn current_instructions(&self) -> Seq<u8> {
        self.frames@.last().cl.func.instructions.0@
    }

    /// Sets the position of the innermost frame.
    fn set_ip(&mut self, ip: i64)
        requires
            old(self).wf(),
            ip >= -1,
        ensures
            final(self).wf(),
            ip_set(*old(self), *final(self), ip as int),
    {
        let mut f = self.frames.pop().unwrap();
        f.ip = ip;
        self.frames.push(f);
        assert(self.frames@ =~= old(self).frames@.update(
            old(self).frames@.len() - 1,
            Frame { cl: old(self).frames@.last().cl, ip: ip, base_pointer: old(self).frames@.last().base_pointer },
        ));
        proof {
            assert forall|i: int| 0 <= i < self.frames@.len() implies #[trigger] self.frames@[i].ip >= -1 by {
                if i < self.frames@.len() - 1 {
                    assert(self.frames@[i] == old(self).frames@[i]);
                }
            }
            assert forall|i: int| 0 <= i < self.frames@.len() implies #[trigger] self.frames@[i].base_pointer <= STACK_SIZE by {
                if i < self.frames@.len() - 1 {
                    assert(self.frames@[i] == old(self).frames@[i]);
                }
            }
        }
    }

    /// The byte at `pos` of the innermost frame's instructions, if there is one.
    fn read_u8(&self, pos: usize) -> (r: Option<u8>)
        requires
            self.wf(),
        ensures
            pos < self.current_instructions().len() ==> r == Some(self.current_instructions()[pos as int]),
            pos >= self.current_instructions().len() ==> r is None,
    {
        let last = self.frames.len() - 1;
        if pos < self.frames[last].cl.func.instructions.0.len() {
            Some(self.frames[last].cl.func.instructions.0[pos])
        } else {
            None
        }
    }

    /// The big-endian two-byte operand at `pos` of the innermost frame's
    /// instructions, if both bytes are there.
    fn read_u16_operand(&self, pos: usize) -> (r: Option<usize>)
        requires
            self.wf(),
        ensures
            pos + 1 < self.current_instructions().len() ==> r == Some(
                (self.current_instructions()[pos as int] as int * 256 + self.current_instructions()[pos + 1] as int) as usize,
            ),
            pos + 1 >= self.current_instructions().len() ==> r is None,
            r matches Some(v) ==> v < 65536,
    {
        let last = self.frames.len() - 1;
        let ins = &self.frames[last].cl.func.instructions.0;
        if pos < ins.len() && pos + 1 < ins.len() {
            let arr: [u8; 2] = [ins[pos], ins[pos + 1]];
            Some(crate::code::read_u16(arr) as usize)
        } else {
            None
        }
    }

    /// Pushes a copy of the constant at `idx`.
    fn push_constant(&mut self, idx: usize) -> (r: Result<(), String>)
        requires
            old(self).wf(),
        ensures
            final(self).wf(),
            constant_got(*old(self), *final(self), idx, outcome(r)),
    {
        if idx >= self.constants.len() {
            return Err(String::from_str("constant index out of range"));
        }
        let obj = self.constants[idx].duplicate();
        self.push(obj)
    }

    /// Stores the popped top of the stack in global `idx`.
    fn set_global(&mut self, idx: usize) -> (r: Result<(), String>)
        requires
            old(self).wf(),
            idx < GLOBALS_SIZE,
        ensures
            final(self).wf(),
            global_set(*old(self), *final(self), idx, outcome(r)),
    {
        if self.sp < 1 {
            return Err(String::from_str("stack underflow"));
        }
        let v = self.pop();
        self.globals.set(idx, v);
        Ok(())
    }

    /// Pushes a copy of global `idx`, which must have been set.
    fn get_global(&mut self, idx: usize) -> (r: Result<(), String>)
        requires
            old(self).wf(),
            idx < GLOBALS_SIZE,
        ensures
            final(self).wf(),
            global_got(*old(self), *final(self), idx, outcome(r)),
    {
        match &self.globals[idx] {
            Some(v) => {
                let c = v.duplicate();
                self.push(c)
            },
            None => Err(String::from_str("undefined global")),
        }
    }

    /// Replaces the `n` values on top of the stack by an array of them.
    fn build_array(&mut self, n: usize) -> (r: Result<(), String>)
        requires
            old(self).wf(),
        ensures
            final(self).wf(),
            array_built(*old(self), *final(self), n, outcome(r)),
    {
        if n > self.sp {
            return Err(String::from_str("stack underflow"));
        }
        let start = self.sp - n;
        let elements = match self.copy_slots(start, self.sp) {
            Some(v) => v,
            None => {
                return Err(String::from_str("uninitialized value"));
            },
        };
        self.sp = start;
        self.push(Object::Array(Array { elements }))
    }

    /// Replaces the `n` values on top of the stack, keys and values in
    /// turn, by a hash of them; a later entry for a key replaces an earlier one.
    fn build_hash(&mut self, n: usize) -> (r: Result<(), String>)
        requires
            old(self).wf(),
        ensures
            final(self).wf(),
            hash_built(*old(self), *final(self), n, outcome(r)),
    {
        if n > self.sp {
            return Err(String::from_str("stack underflow"));
        }
        if n % 2 != 0 {
            return Err(String::from_str("malformed instruction"));
        }
        let start = self.sp - n;
        let ghost top = top_slots(*old(self), n as int);
        let ghost half: nat = (n / 2) as nat;
        let ghost mut j: nat = 0;
        let mut hash = crate::object::Hash { pairs: Vec::new() };
        let mut i: usize = start;
        while i < self.sp
            invariant
                start <= i <= self.sp <= STACK_SIZE,
                start == old(self).sp - n,
                i == start + 2 * j,
                n == 2 * half,
                j <= half,
                self.stack@.len() == STACK_SIZE,
                hash.wf(),
                self.wf(),
                *self == *old(self),
                n <= old(self).sp,
                top == self.stack@.subrange(start as int, self.sp as int),
                pairs_error(top, j) is None,
                pairs_stored(top, j, hash.pairs@),
            decreases self.sp - i,
        {
            assert(top[2 * j as int] == self.stack@[i as int]);
            assert(top[2 * j as int + 1] == self.stack@[i + 1]);
            let key = match &self.stack[i] {
                Some(k) => match k.as_hashable() {
                    Some(hk) => hk,
                    None => {
                        let t = object_type_name(k);
                        let mut m = String::from_str("unusable as hash key: ");
                        m.append(t.as_str());
                        proof {
                            lemma_pairs_error_stays(top, j + 1, half, m@);
                        }
                        return Err(m);
                    },
                },
                None => {
                    proof {
                        lemma_pairs_error_stays(top, j + 1, half, "unusable as hash key: None"@);
                    }
                    return Err(String::from_str("unusable as hash key: None"));
                },
            };
            let value = match &self.stack[i + 1] {
                Some(v) => v.duplicate(),
                None => {
                    proof {
                        lemma_pairs_error_stays(top, j + 1, half, "uninitialized value"@);
                    }
                    return Err(String::from_str("uninitialized value"));
                },
            };
            let ghost prev = hash.pairs@;
            hash.insert(key, value);
            proof {
                assert(step((prev, value)));
                assert(pairs_stored(top, j + 1, hash.pairs@));
                j = j + 1;
            }
            i = i + 2;
        }
        self.sp = start;
        self.push(Object::Hash(hash))
    }

    /// Replaces the two values on top of the stack, a container and an
    /// index, by the indexed element.
    fn execute_index_expression(&mut self) -> (r: Result<(), String>)
        requires
            old(self).wf(),
        ensures
            final(self).wf(),
            indexed(*old(self), *final(self), outcome(r)),
    {
        if self.sp < 2 {
            return Err(String::from_str("stack underflow"));
        }
        let sp = self.sp;
        let result: Object = match (&self.stack[sp - 2], &self.stack[sp - 1]) {
            (Some(Object::Array(a)), Some(Object::Integer(i))) => {
                if i.value < 0 || i.value as u64 >= a.elements.len() as u64 {
                    Object::Null(Null {})
                } else {
                    a.elements[i.value as usize].duplicate()
                }
            },
            (Some(Object::Hash(h)), Some(k)) => match k.as_hashable() {
                Some(key) => match h.get(&key) {
                    Some(v) => v.duplicate(),
                    None => Object::Null(Null {}),
                },
                None => {
                    let t = object_type_name(k);
                    let mut m = String::from_str("unusable as hash key: ");
                    m.append(t.as_str());
                    return Err(m);
                },
            },
            (Some(Object::Hash(_)), None) => {
                return Err(String::from_str("unusable as hash key: None"));
            },
            (x, _) => {
                let t = get_type(x);
                let mut m = String::from_str("index operator not supported: ");
                m.append(t.as_str());
                return Err(m);
            },
        };
        self.replace_top_two(result);
        Ok(())
    }
}


impl Vm {
    /// Starts running closure `cl` with the `num_args` values on top of the
    /// stack as its arguments.
    fn call_closure(&mut self, cl: Closure, num_args: usize) -> (r: Result<(), String>)
        requires
            old(self).wf(),
            num_args <= old(self).sp,
        ensures
            final(self).wf(),
            closure_called(*old(self), *final(self), cl, num_args, outcome(r)),
    {
        if num_args != cl.func.num_parameters {
            let mut m = String::from_str("wrong number of arguments: want=");
            m.append(usize_to_string(cl.func.num_parameters).as_str());
            m.append(", got=");
            m.append(usize_to_string(num_args).as_str());
            return Err(m);
        }
        if self.frames.len() >= MAX_FRAMES {
            return Err(String::from_str("stack overflow"));
        }
        let base_pointer = self.sp - num_args;
        let num_locals = cl.func.num_locals;
        if num_locals > STACK_SIZE - base_pointer {
            return Err(String::from_str("stack overflow"));
        }
        self.frames.push(Frame::new(cl, base_pointer));
        self.sp = base_pointer + num_locals;
        proof {
            assert forall|i: int| 0 <= i < self.frames@.len() implies #[trigger] self.frames@[i].ip >= -1 by {
                if i < self.frames@.len() - 1 {
                    assert(self.frames@[i] == old(self).frames@[i]);
                }
            }
            assert forall|i: int| 0 <= i < self.frames@.len() implies #[trigger] self.frames@[i].base_pointer <= STACK_SIZE by {
                if i < self.frames@.len() - 1 {
                    assert(self.frames@[i] == old(self).frames@[i]);
                }
            }
        }
        Ok(())
    }

    /// Applies builtin `func` to the `num_args` values on top of the stack
    /// and replaces them, and the builtin below them, by the result.
    fn call_builtin(&mut self, func: crate::object::BuiltinFunction, num_args: usize) -> (r: Result<(), String>)
        requires
            old(self).wf(),
            num_args < old(self).sp,
        ensures
            final(self).wf(),
            builtin_called(*old(self), *final(self), func, num_args, outcome(r)),
    {
        let start = self.sp - num_args;
        let args = match self.copy_slots(start, self.sp) {
            Some(v) => v,
            None => {
                return Err(String::from_str("uninitialized value"));
            },
        };
        let result = apply_builtin(func, &args, &mut self.output, true);
        self.sp = start - 1;
        let r = self.push(result);
        proof {
            if func == BuiltinFunction::Puts {
                assert forall|i: int| 0 <= i < args@.len() implies (#[trigger] self.output@[old(self).output@.len() + i])@
                    == crate::object::obj_inspect(args@[i]) by {
                    assert(crate::builtins::puts_lines(args@)[i] == crate::object::obj_inspect(args@[i]));
                }
            }
            assert(step((args@, result)));
        }
        r
    }

    /// Calls the function value below the `num_args` values on top of the stack.
    fn execute_call(&mut self, num_args: usize) -> (r: Result<(), String>)
        requires
            old(self).wf(),
        ensures
            final(self).wf(),
            call_done(*old(self), *final(self), num_args, outcome(r)),
    {
        if num_args >= self.sp {
            return Err(String::from_str("stack underflow"));
        }
        let idx = self.sp - 1 - num_args;
        match &self.stack[idx] {
            Some(Object::Closure(cl)) => {
                let c = Closure { func: cl.func.duplicate(), free: crate::object::duplicate_objects(&cl.free) };
                let ghost cg = c;
                let r = self.call_closure(c, num_args);
                assert(step(cg));
                r
            },
            Some(Object::Builtin(b)) => {
                let f = b.func;
                self.call_builtin(f, num_args)
            },
            _ => Err(String::from_str("calling non-function and no-built-in")),
        }
    }

    /// Replaces the `num_free` values on top of the stack by a closure of the
    /// compiled function at constant `const_index` capturing them.
    fn push_closure(&mut self, const_index: usize, num_free: usize) -> (r: Result<(), String>)
        requires
            old(self).wf(),
        ensures
            final(self).wf(),
            closure_pushed(*old(self), *final(self), const_index, num_free, outcome(r)),
    {
        if const_index >= self.constants.len() {
            return Err(String::from_str("constant index out of range"));
        }
        if num_free > self.sp {
            return Err(String::from_str("stack underflow"));
        }
        let func = match &self.constants[const_index] {
            Object::CompiledFunction(f) => f.duplicate(),
            other => {
                let t = debug_object(other);
                let mut m = String::from_str("not a function: ");
                m.append(t.as_str());
                return Err(m);
            },
        };
        let start = self.sp - num_free;
        let free = match self.copy_slots(start, self.sp) {
            Some(v) => v,
            None => {
                return Err(String::from_str("uninitialized value"));
            },
        };
        self.sp = start;
        self.push(Object::Closure(Closure { func, free }))
    }

    /// Leaves the innermost function, putting `value` where the called
    /// function was on the stack.
    fn return_from_frame(&mut self, value: Object) -> (r: Result<(), String>)
        requires
            old(self).wf(),
        ensures
            final(self).wf(),
            frame_returned(*old(self), *final(self), value, outcome(r)),
    {
        if self.frames.len() <= 1 {
            return Err(String::from_str("return outside of a function"));
        }
        let last = self.frames.len() - 1;
        let base_pointer = self.frames[last].base_pointer;
        if base_pointer == 0 {
            return Err(String::from_str("return outside of a function"));
        }
        let f = self.frames.pop();
        proof {
            assert forall|i: int| 0 <= i < self.frames@.len() implies #[trigger] self.frames@[i].ip >= -1 by {
                assert(self.frames@[i] == old(self).frames@[i]);
            }
            assert forall|i: int| 0 <= i < self.frames@.len() implies #[trigger] self.frames@[i].base_pointer <= STACK_SIZE by {
                assert(self.frames@[i] == old(self).frames@[i]);
            }
        }
        self.sp = base_pointer - 1;
        self.push(value)
    }

    /// Stores the popped top of the stack in local slot `idx` of the
    /// innermost frame.
    fn set_local(&mut self, idx: usize) -> (r: Result<(), String>)
        requires
            old(self).wf(),
        ensures
            final(self).wf(),
            local_set(*old(self), *final(self), idx, outcome(r)),
    {
        if self.sp < 1 {
            return Err(String::from_str("stack underflow"));
        }
        let last = self.frames.len() - 1;
        let base_pointer = self.frames[last].base_pointer;
        if idx >= STACK_SIZE || base_pointer >= STACK_SIZE - idx {
            return Err(String::from_str("stack overflow"));
        }
        let v = self.pop();
        self.stack.set(base_pointer + idx, v);
        Ok(())
    }

    /// Pushes a copy of local slot `idx` of the innermost frame.
    fn get_local(&mut self, idx: usize) -> (r: Result<(), String>)
        requires
            old(self).wf(),
        ensures
            final(self).wf(),
            local_got(*old(self), *final(self), idx, outcome(r)),
    {
        let last = self.frames.len() - 1;
        let base_pointer = self.frames[last].base_pointer;
        if idx >= STACK_SIZE || base_pointer >= STACK_SIZE - idx {
            return Err(String::from_str("stack overflow"));
        }
        match &self.stack[base_pointer + idx] {
            Some(v) => {
                let c = v.duplicate();
                self.push(c)
            },
            None => Err(String::from_str("uninitialized local")),
        }
    }

    /// Pushes a copy of free variable `idx` of the innermost frame's closure.
    fn get_free(&mut self, idx: usize) -> (r: Result<(), String>)
        requires
            old(self).wf(),
        ensures
            final(self).wf(),
            free_got(*old(self), *final(self), idx, outcome(r)),
    {
        let last = self.frames.len() - 1;
        if idx >= self.frames[last].cl.free.len() {
            return Err(String::from_str("free variable index out of range"));
        }
        let c = self.frames[last].cl.free[idx].duplicate();
        self.push(c)
    }

    /// Pushes the builtin numbered `idx`.
    fn get_builtin(&mut self, idx: usize) -> (r: Result<(), String>)
        requires
            old(self).wf(),
        ensures
            final(self).wf(),
            builtin_got(*old(self), *final(self), idx, outcome(r)),
    {
        match builtin_by_index(idx) {
            Some(f) => self.push(Object::Builtin(Builtin { func: f })),
            None => Err(String::from_str("unknown builtin")),
        }
    }

    /// Runs one instruction of the innermost frame, the one after its
    /// position; gives back whether the frame had one left.
    fn step(&mut self) -> (r: Result<bool, String>)
        requires
            old(self).wf(),
        ensures
            final(self).wf(),
            step_done(*old(self), *final(self), outcome(r), r matches Ok(true)),
    {
        let last = self.frames.len() - 1;
        let len = self.frames[last].cl.func.instructions.0.len();
        if len as u64 > 0x7fff_ffff_ffff_ffffu64 {
            return Err(String::from_str("program too large"));
        }
        let ip = self.frames[last].ip;
        if ip >= 0x7fff_ffff_ffff_fff0i64 {
            return Err(String::from_str("malformed instruction"));
        }
        if ip + 1 >= len as i64 {
            return Ok(false);
        }
        let ip = ip + 1;
        self.set_ip(ip);
        let ghost a1 = *self;
        let pos = ip as usize;
        let byte = match self.read_u8(pos) {
            Some(b) => b,
            None => {
                return Err(String::from_str("malformed instruction"));
            },
        };
        let r = match Opcode::from_byte(byte) {
            Some(op) => self.execute_op(op, pos, ip),
            None => Err(String::from_str("unknown opcode")),
        };
        assert(step(a1));
        r
    }

    /// Runs instruction `op`, whose opcode is at `pos` of the innermost
    /// frame's instructions, where that frame's position is.
    fn execute_op(&mut self, op: Opcode, pos: usize, ip: i64) -> (r: Result<bool, String>)
        requires
            old(self).wf(),
            pos < old(self).current_instructions().len(),
            ip == pos,
            ip <= 0x7fff_ffff_ffff_fff0,
        ensures
            final(self).wf(),
            op_done(*old(self), *final(self), op, pos as int, outcome(r)),
            r is Ok ==> r == Ok::<bool, String>(true),
    {
        let len = self.frames[self.frames.len() - 1].cl.func.instructions.0.len();
        assert(len == self.current_instructions().len());
        match op {
            Opcode::OpConstant | Opcode::OpGetGlobal | Opcode::OpSetGlobal | Opcode::OpArray
            | Opcode::OpHash | Opcode::OpJump | Opcode::OpJumpNotTruthy => {
                let operand = match self.read_u16_operand(pos + 1) {
                    Some(v) => v,
                    None => {
                        return Err(String::from_str("malformed instruction"));
                    },
                };
                if op == Opcode::OpJump {
                    self.set_ip(operand as i64 - 1);
                    return Ok(true);
                }
                self.set_ip(ip + 2);
                let ghost a2 = *self;
                let r = match op {
                    Opcode::OpConstant => lift(self.push_constant(operand)),
                    Opcode::OpGetGlobal => lift(self.get_global(operand)),
                    Opcode::OpSetGlobal => lift(self.set_global(operand)),
                    Opcode::OpArray => lift(self.build_array(operand)),
                    Opcode::OpHash => lift(self.build_hash(operand)),
                    _ => {
                        if self.sp < 1 {
                            assert(step(a2));
                            return Err(String::from_str("stack underflow"));
                        }
                        let condition = self.pop();
                        let ghost a3 = *self;
                        proof {
                            lemma_same_opt_truthy(condition, a2.stack@[a2.sp - 1]);
                        }
                        if !is_truthy(&condition) {
                            self.set_ip(operand as i64 - 1);
                        }
                        assert(step(a3));
                        Ok(true)
                    },
                };
                assert(step(a2));
                r
            },
            Opcode::OpCall | Opcode::OpGetLocal | Opcode::OpSetLocal | Opcode::OpGetBuiltin
            | Opcode::OpGetFree => {
                let operand = match self.read_u8(pos + 1) {
                    Some(v) => v as usize,
                    None => {
                        return Err(String::from_str("malformed instruction"));
                    },
                };
                self.set_ip(ip + 1);
                let ghost a2 = *self;
                let r = match op {
                    Opcode::OpCall => lift(self.execute_call(operand)),
                    Opcode::OpGetLocal => lift(self.get_local(operand)),
                    Opcode::OpSetLocal => lift(self.set_local(operand)),
                    Opcode::OpGetBuiltin => lift(self.get_builtin(operand)),
                    _ => lift(self.get_free(operand)),
                };
                assert(step(a2));
                r
            },
            Opcode::OpClosure => {
                let const_index = match self.read_u16_operand(pos + 1) {
                    Some(v) => v,
                    None => {
                        return Err(String::from_str("malformed instruction"));
                    },
                };
                let num_free = match self.read_u8(pos + 3) {
                    Some(v) => v as usize,
                    None => {
                        return Err(String::from_str("malformed instruction"));
                    },
                };
                self.set_ip(ip + 3);
                let ghost a2 = *self;
                let r = lift(self.push_closure(const_index, num_free));
                assert(step(a2));
                r
            },
            Opcode::OpAdd | Opcode::OpSub | Opcode::OpMul | Opcode::OpDiv => lift(self.execute_binary_operation(op)),
            Opcode::OpEqual | Opcode::OpNotEqual | Opcode::OpGreaterThan => lift(self.execute_comparison(op)),
            Opcode::OpPop => {
                if self.sp < 1 {
                    return Err(String::from_str("stack underflow"));
                }
                self.pop();
                Ok(true)
            },
            Opcode::OpTrue => lift(self.push(native_bool_to_boolean_object(true))),
            Opcode::OpFalse => lift(self.push(native_bool_to_boolean_object(false))),
            Opcode::OpNull => lift(self.push(Object::Null(Null {}))),
            Opcode::OpBang => lift(self.execute_bang_operator()),
            Opcode::OpMinus => lift(self.execute_minus_operator()),
            Opcode::OpIndex => lift(self.execute_index_expression()),
            Opcode::OpReturnValue => {
                if self.sp < 1 {
                    return Err(String::from_str("stack underflow"));
                }
                let value = match self.pop() {
                    Some(v) => v,
                    None => {
                        return Err(String::from_str("uninitialized value"));
                    },
                };
                let ghost c = value;
                let r = lift(self.return_from_frame(value));
                assert(step(c));
                r
            },
            Opcode::OpReturn => lift(self.return_from_frame(Object::Null(Null {}))),
        }
    }

    /// Runs the innermost frame's instructions until none are left, or
    /// until an error.
    pub fn run(&mut self) -> (r: Result<(), String>)
        requires
            old(self).wf(),
        ensures
            final(self).wf(),
            ran(0, *old(self), *final(self), outcome(r)),
    {
        let mut steps: u64 = 0;
        loop
            invariant
                self.wf(),
                forall|b: Vm, e: Option<Seq<char>>|
                    #[trigger] ran(steps as nat, *self, b, e) ==> ran(0, *old(self), b, e),
            decreases u64::MAX - steps,
        {
            if steps == u64::MAX {
                let r: Result<(), String> = Err(String::from_str("step limit reached"));
                assert(ran(steps as nat, *self, *self, outcome(r)));
                return r;
            }
            let ghost s = *self;
            let rs = self.step();
            let ghost m = *self;
            let ghost more = rs matches Ok(true);
            assert(step((m, outcome(rs), more)));
            match rs {
                Err(e) => {
                    let r: Result<(), String> = Err(e);
                    assert(ran(steps as nat, s, m, outcome(r)));
                    return r;
                },
                Ok(false) => {
                    let r: Result<(), String> = Ok(());
                    assert(ran(steps as nat, s, m, outcome(r)));
                    return r;
                },
                Ok(true) => {},
            }
            let ghost k = steps as nat;
            steps = steps + 1;
            assert forall|b: Vm, e: Option<Seq<char>>|
                #[trigger] ran(steps as nat, *self, b, e) implies ran(0, *old(self), b, e) by {
                assert(ran(k, s, b, e));
            }
        }
    }
}

/// The result of an instruction: `true` where it succeeded, for there may
/// be more to run, or its error.
fn lift(r: Result<(), String>) -> (o: Result<bool, String>)
    ensures
        outcome(o) == outcome(r),
        o is Ok ==> o == Ok::<bool, String>(true),
{
    match r {
        Ok(_) => Ok(true),
        Err(e) => Err(e),
    }
}

/// Copies count as true alike.
proof fn lemma_same_opt_truthy(x: Option<Object>, y: Option<Object>)
    requires
        same_opt(x, y),
    ensures
        spec_is_truthy(x) == spec_is_truthy(y),
{
}


/// Indexing an array with an integer counts from zero: with an array and
/// an integer `i` on top of the stack, the index instruction replaces both
/// by (a copy of) the element at position `i` when `0 <= i < len`, and by
/// null otherwise; it never fails.  This is what the tree-walking evaluator
/// gives for the same array and index.
pub proof fn law_index_array(a: Vm, b: Vm, pos: int, e: Option<Seq<char>>, arr: Array, i: Integer)
    requires
        a.wf(),
        op_done(a, b, Opcode::OpIndex, pos, e),
        a.sp >= 2,
        a.stack@[a.sp - 2] == Some(Object::Array(arr)),
        a.stack@[a.sp - 1] == Some(Object::Integer(i)),
    ensures
        e is None,
        b.sp == a.sp - 1,
        forall|k: int| 0 <= k < a.stack@.len() && k != a.sp - 2 ==> b.stack@[k] == a.stack@[k],
        0 <= i.value < arr.elements@.len() ==> (b.stack@[a.sp - 2] matches Some(x) && same_obj(
            x,
            arr.elements@[i.value as int],
        )),
        !(0 <= i.value < arr.elements@.len()) ==> b.stack@[a.sp - 2] == Some(Object::Null(Null {})),
        index_result(Object::Array(arr), Object::Integer(i), b.stack@[a.sp - 2]),
{
}

/// `==` and `!=` on two strings compare their texts: the comparison
/// instruction replaces the two strings by true exactly when the texts are
/// equal (for `==`) or differ (for `!=`).
pub proof fn law_string_comparison(a: Vm, b: Vm, op: Opcode, e: Option<Seq<char>>, x: StringObj, y: StringObj)
    requires
        op == Opcode::OpEqual || op == Opcode::OpNotEqual,
        a.wf(),
        op_done(a, b, op, 0, e),
        a.sp >= 2,
        a.stack@[a.sp - 2] == Some(Object::StringObj(x)),
        a.stack@[a.sp - 1] == Some(Object::StringObj(y)),
    ensures
        e is None,
        b.sp == a.sp - 1,
        b.stack@[a.sp - 2] == Some(Object::Boolean(Boolean { value: (x.value@ == y.value@) == (op == Opcode::OpEqual) })),
{
}

/// `==` and `!=` on two integers compare their values.
pub proof fn law_integer_comparison(a: Vm, b: Vm, op: Opcode, e: Option<Seq<char>>, x: Integer, y: Integer)
    requires
        op == Opcode::OpEqual || op == Opcode::OpNotEqual,
        a.wf(),
        op_done(a, b, op, 0, e),
        a.sp >= 2,
        a.stack@[a.sp - 2] == Some(Object::Integer(x)),
        a.stack@[a.sp - 1] == Some(Object::Integer(y)),
    ensures
        e is None,
        b.sp == a.sp - 1,
        b.stack@[a.sp - 2] == Some(Object::Boolean(Boolean { value: (x.value == y.value) == (op == Opcode::OpEqual) })),
{
}

/// A conditional jump jumps exactly when the value on top of the stack is
/// null or false: every integer (zero too), string, array, hash and function
/// lets execution go on with the next instruction.
pub proof fn law_jump_not_truthy(a: Vm, b: Vm, pos: int, e: Option<Seq<char>>, v: Object)
    requires
        a.wf(),
        op_done(a, b, Opcode::OpJumpNotTruthy, pos, e),
        pos + 2 < a.current_instructions().len(),
        a.sp >= 1,
        a.stack@[a.sp - 1] == Some(v),
    ensures
        e is None,
        b.sp == a.sp - 1,
        b.frames@.len() == a.frames@.len(),
        b.frames@.last().ip == (if v is Null || (v matches Object::Boolean(bv) && !bv.value) {
            (((operand16(a, pos + 1) as usize) - 1) as i64)
        } else {
            ((pos + 2) as i64)
        }),
{
    let a2 = choose|a2: Vm| #![trigger ip_set(a, a2, pos + 2)] ip_set(a, a2, pos + 2) && {
        if a2.sp < 1 {
            failed(a2, b, e, "stack underflow"@)
        } else {
            e is None && {
                let a3 = Vm { sp: (a2.sp - 1) as usize, ..a2 };
                if spec_is_truthy(a2.stack@[a2.sp - 1]) {
                    b == a3
                } else {
                    ip_set(a3, b, (operand16(a, pos + 1) as usize) - 1)
                }
            }
        }
    };
    assert(a2.stack@ == a.stack@);
}

/// Arithmetic and comparison on two integers on top of the stack: `+`, `-`
/// and `*` give the sum, difference and product whenever these fit in 64
/// bits, `/` gives the quotient (of non-negative numbers; dividing by zero is
/// an error), `>` tells whether the first is greater; both integers are
/// replaced by the result.
pub proof fn law_integer_arithmetic(a: Vm, b: Vm, op: Opcode, e: Option<Seq<char>>, x: Integer, y: Integer)
    requires
        a.wf(),
        op_done(a, b, op, 0, e),
        a.sp >= 2,
        a.stack@[a.sp - 2] == Some(Object::Integer(x)),
        a.stack@[a.sp - 1] == Some(Object::Integer(y)),
    ensures
        op == Opcode::OpAdd && i64::MIN <= x.value + y.value <= i64::MAX ==> e is None && b.sp == a.sp - 1
            && b.stack@[a.sp - 2] == Some(Object::Integer(Integer { value: (x.value + y.value) as i64 })),
        op == Opcode::OpSub && i64::MIN <= x.value - y.value <= i64::MAX ==> e is None && b.sp == a.sp - 1
            && b.stack@[a.sp - 2] == Some(Object::Integer(Integer { value: (x.value - y.value) as i64 })),
        op == Opcode::OpMul && i64::MIN <= x.value * y.value <= i64::MAX ==> e is None && b.sp == a.sp - 1
            && b.stack@[a.sp - 2] == Some(Object::Integer(Integer { value: (x.value * y.value) as i64 })),
        op == Opcode::OpDiv && x.value >= 0 && y.value > 0 ==> e is None && b.sp == a.sp - 1
            && b.stack@[a.sp - 2] == Some(Object::Integer(Integer { value: (x.value / y.value) as i64 })),
        op == Opcode::OpDiv && y.value == 0 ==> e == Some("division by zero"@),
        op == Opcode::OpGreaterThan ==> e is None && b.sp == a.sp - 1
            && b.stack@[a.sp - 2] == Some(Object::Boolean(Boolean { value: x.value > y.value })),
{
    if op == Opcode::OpAdd && i64::MIN <= x.value + y.value <= i64::MAX {
        assert(x.value.wrapping_add(y.value) == x.value + y.value);
    }
    if op == Opcode::OpSub && i64::MIN <= x.value - y.value <= i64::MAX {
        assert(x.value.wrapping_sub(y.value) == x.value - y.value);
    }
    if op == Opcode::OpMul && i64::MIN <= x.value * y.value <= i64::MAX {
        assert(x.value.wrapping_mul(y.value) == x.value * y.value);
    }
}

/// `!` gives true exactly for false and null, and `-` negates an integer
/// (other than the least one, whose negation does not fit).
pub proof fn law_bang_and_minus(a: Vm, b: Vm, op: Opcode, e: Option<Seq<char>>, v: Object)
    requires
        a.wf(),
        op == Opcode::OpBang || op == Opcode::OpMinus,
        op_done(a, b, op, 0, e),
        a.sp >= 1,
        a.stack@[a.sp - 1] == Some(v),
    ensures
        op == Opcode::OpBang ==> e is None && b.sp == a.sp && b.stack@[a.sp - 1] == Some(Object::Boolean(Boolean {
            value: v is Null || (v matches Object::Boolean(bv) && !bv.value),
        })),
        op == Opcode::OpMinus ==> (v matches Object::Integer(i) ==> (i.value > i64::MIN ==> e is None && b.sp == a.sp
            && b.stack@[a.sp - 1] == Some(Object::Integer(Integer { value: (-i.value) as i64 })))),
{
    if op == Opcode::OpMinus {
        if let Object::Integer(i) = v {
            if i.value > i64::MIN {
                assert(0i64.wrapping_sub(i.value) == -i.value);
            }
        }
    }
}

/// What the stack gives back: pushing a value and then popping gives a
/// copy of that value and leaves the stack pointer where it was.
pub proof fn law_push_then_pop(before: Vm, pushed: Vm, after: Vm, o: Object, popped: Option<Object>)
    requires
        before.stack@.len() == STACK_SIZE,
        before.sp < STACK_SIZE,
        pushed.sp == before.sp + 1,
        pushed.stack@ == before.stack@.update(before.sp as int, Some(o)),
        after.sp == pushed.sp - 1,
        same_opt(popped, pushed.stack@[pushed.sp - 1]),
    ensures
        popped matches Some(v) && same_obj(v, o),
        after.sp == before.sp,
{
}

} // verus!
