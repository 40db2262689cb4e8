//! Runtime values of Monkey programs.
use vstd::prelude::*;
use crate::ast::{BlockStatement, Identifier, same_block, stmts_str, idents_str, identifiers_string};
use crate::code::{Instructions, instructions_str, wf_instructions, instructions_complete};
use crate::text::{i64_to_string, usize_to_string, int_str, nat_str, seq_join, str_debug, debug_str};

verus! {

/// The type name and printed form of a value.
pub trait ObjectTrait {
    fn get_type(&self) -> String;

    fn inspect(&self) -> String;
}

#[derive(Debug)]
pub enum Object {
    Integer(Integer),
    Boolean(Boolean),
    Null(Null),
    ReturnValue(ReturnValue),
    ErrorObj(ErrorObj),
    Function(Function),
    StringObj(StringObj),
    Builtin(Builtin),
    Array(Array),
    Hash(Hash),
    CompiledFunction(CompiledFunction),
    Closure(Closure),
}

#[derive(Debug, PartialEq, Eq, Structural, Clone, Copy)]
pub struct Integer {
    pub value: i64,
}

#[derive(Debug, PartialEq, Eq, Structural, Clone, Copy)]
pub struct Boolean {
    pub value: bool,
}

#[derive(Debug, PartialEq, Eq, Structural, Clone, Copy)]
pub struct Null {}

/// A value being returned out of nested blocks.
#[derive(Debug)]
pub struct ReturnValue {
    pub value: Box<Object>,
}

#[derive(Debug)]
pub struct ErrorObj {
    pub message: String,
}

/// A function value of the tree-walking evaluator: its parameters, body, and
/// the environment (by index in the environment store) it closes over.
#[derive(Debug)]
pub struct Function {
    pub parameters: Vec<Identifier>,
    pub body: BlockStatement,
    pub env: usize,
}

#[derive(Debug, PartialEq)]
pub struct StringObj {
    pub value: String,
}

/// The functions built into the language.
#[derive(Debug, PartialEq, Eq, Structural, Clone, Copy)]
pub enum BuiltinFunction {
    Len,
    Puts,
    First,
    Last,
    Rest,
    Push,
}

#[derive(Debug, PartialEq, Eq, Structural, Clone, Copy)]
pub struct Builtin {
    pub func: BuiltinFunction,
}

#[derive(Debug)]
pub struct Array {
    pub elements: Vec<Object>,
}

/// The key of a hash entry: a value of a type that can be hashed.
#[derive(Debug, PartialEq)]
pub enum HashKey {
    Integer(Integer),
    Boolean(Boolean),
    StringObj(StringObj),
}

/// One entry of a hash.
#[derive(Debug)]
pub struct HashPair {
    pub key: HashKey,
    pub value: Object,
}

/// A hash: its entries in insertion order, no key twice.
#[derive(Debug)]
pub struct Hash {
    pub pairs: Vec<HashPair>,
}

/// A function compiled to bytecode.
#[derive(Debug)]
pub struct CompiledFunction {
    pub instructions: Instructions,
    pub num_locals: usize,
    pub num_parameters: usize,
}

/// A compiled function together with the values of its free variables.
#[derive(Debug)]
pub struct Closure {
    pub func: CompiledFunction,
    pub free: Vec<Object>,
}

// ---------------------------------------------------------------------------
// Type names and printed forms.

pub open spec fn obj_type(o: Object) -> Seq<char> {
    match o {
        Object::Integer(_) => "INTEGER"@,
        Object::Boolean(_) => "BOOLEAN"@,
        Object::Null(_) => "NULL"@,
        Object::ReturnValue(_) => "RETURN_VALUE"@,
        Object::ErrorObj(_) => "ERROR"@,
        Object::Function(_) => "FUNCTION"@,
        Object::StringObj(_) => "STRING"@,
        Object::Builtin(_) => "BUILTIN"@,
        Object::Array(_) => "ARRAY"@,
        Object::Hash(_) => "HASH"@,
        Object::CompiledFunction(_) => "COMPILED_FUNCTION"@,
        Object::Closure(_) => "CLOSURE"@,
    }
}

pub open spec fn bool_str(b: bool) -> Seq<char> {
    if b { "true"@ } else { "false"@ }
}

pub open spec fn key_str(k: HashKey) -> Seq<char> {
    match k {
        HashKey::Integer(i) => int_str(i.value as int),
        HashKey::Boolean(b) => bool_str(b.value),
        HashKey::StringObj(s) => s.value@,
    }
}

pub open spec fn obj_inspect(o: Object) -> Seq<char>
    decreases o,
{
    match o {
        Object::Integer(i) => int_str(i.value as int),
        Object::Boolean(b) => bool_str(b.value),
        Object::Null(_) => "null"@,
        Object::ReturnValue(r) => obj_inspect(*r.value),
        Object::ErrorObj(e) => "ERROR: "@ + e.message@,
        Object::Function(f) => "fn("@ + seq_join(idents_str(f.parameters@), ", "@) + ") {\n"@
            + stmts_str(f.body.statements@) + "\n}"@,
        Object::StringObj(s) => s.value@,
        Object::Builtin(_) => "builtin function"@,
        Object::Array(a) => "["@ + objs_inspect(a.elements@) + "]"@,
        Object::Hash(h) => "{"@ + pairs_inspect(h.pairs@) + "}"@,
        Object::CompiledFunction(c) => "CompiledFunction["@ + nat_str(c.instructions.0@.len())
            + "]"@,
        Object::Closure(c) => "Closure["@ + nat_str(c.func.instructions.0@.len()) + "]"@,
    }
}

/// The printed forms joined by ", ".
pub open spec fn objs_inspect(os: Seq<Object>) -> Seq<char>
    decreases os,
{
    if os.len() == 0 {
        Seq::empty()
    } else if os.len() == 1 {
        obj_inspect(os[0])
    } else {
        objs_inspect(os.drop_last()) + ", "@ + obj_inspect(os.last())
    }
}

/// The entries printed as "key: value" and joined by ", ".
pub open spec fn pairs_inspect(ps: Seq<HashPair>) -> Seq<char>
    decreases ps,
{
    if ps.len() == 0 {
        Seq::empty()
    } else if ps.len() == 1 {
        key_str(ps[0].key) + ": "@ + obj_inspect(ps[0].value)
    } else {
        pairs_inspect(ps.drop_last()) + ", "@ + key_str(ps.last().key) + ": "@ + obj_inspect(
            ps.last().value,
        )
    }
}

/// The type name of a value.
pub fn object_type_name(o: &Object) -> (s: String)
    ensures
        s@ == obj_type(*o),
{
    match o {
        Object::Integer(x) => x.get_type(),
        Object::Boolean(x) => x.get_type(),
        Object::Null(x) => x.get_type(),
        Object::ReturnValue(x) => x.get_type(),
        Object::ErrorObj(x) => x.get_type(),
        Object::Function(x) => x.get_type(),
        Object::StringObj(x) => x.get_type(),
        Object::Builtin(x) => x.get_type(),
        Object::Array(x) => x.get_type(),
        Object::Hash(x) => x.get_type(),
        Object::CompiledFunction(x) => x.get_type(),
        Object::Closure(x) => x.get_type(),
    }
}

fn bool_string(b: bool) -> (s: String)
    ensures
        s@ == bool_str(b),
{
    if b { String::from_str("true") } else { String::from_str("false") }
}

/// The printed form of a value.
pub fn inspect_object(o: &Object) -> (s: String)
    ensures
        s@ == obj_inspect(*o),
    decreases *o,
{
    match o {
        Object::Integer(x) => i64_to_string(x.value),
        Object::Boolean(x) => bool_string(x.value),
        Object::Null(_) => String::from_str("null"),
        Object::ReturnValue(r) => inspect_object(&r.value),
        Object::ErrorObj(e) => {
            let mut s = String::from_str("ERROR: ");
            s.append(e.message.as_str());
            s
        },
        Object::Function(f) => {
            let mut s = String::from_str("fn(");
            let ps = identifiers_string(&f.parameters);
            s.append(ps.as_str());
            s.append(") {\n");
            let b = f.body.string();
            s.append(b.as_str());
            s.append("\n}");
            s
        },
        Object::StringObj(x) => x.value.clone(),
        Object::Builtin(_) => String::from_str("builtin function"),
        Object::Array(a) => {
            let mut s = String::from_str("[");
            let e = inspect_objects(&a.elements);
            s.append(e.as_str());
            s.append("]");
            s
        },
        Object::Hash(h) => {
            let mut s = String::from_str("{");
            let p = inspect_pairs(&h.pairs);
            s.append(p.as_str());
            s.append("}");
            s
        },
        Object::CompiledFunction(c) => {
            let mut s = String::from_str("CompiledFunction[");
            let n = usize_to_string(c.instructions.0.len());
            s.append(n.as_str());
            s.append("]");
            s
        },
        Object::Closure(c) => {
            let mut s = String::from_str("Closure[");
            let n = usize_to_string(c.func.instructions.0.len());
            s.append(n.as_str());
            s.append("]");
            s
        },
    }
}

/// The printed forms of the values joined by ", ".
pub fn inspect_objects(os: &Vec<Object>) -> (s: String)
    ensures
        s@ == objs_inspect(os@),
    decreases os@,
{
    let mut out = String::new();
    let mut i: usize = 0;
    while i < os.len()
        invariant
            i <= os@.len(),
            out@ == objs_inspect(os@.take(i as int)),
        decreases os@.len() - i,
    {
        assert(os@.take(i + 1).drop_last() =~= os@.take(i as int));
        if i > 0 {
            out.append(", ");
        }
        let part = inspect_object(&os[i]);
        out.append(part.as_str());
        i = i + 1;
    }
    assert(os@.take(os@.len() as int) =~= os@);
    out
}

// ---------------------------------------------------------------------------
// Values as Rust's `{:?}` shows them, as error messages of the machine quote
// them.

/// A value as `{:?}` shows it: the variant, then the struct with its fields.
/// A function value of the tree-walking evaluator, which the machine never
/// holds, is shown by its variant only.
pub open spec fn obj_debug(o: Object) -> Seq<char>
    decreases o,
{
    match o {
        Object::Integer(i) => "Integer(Integer { value: "@ + int_str(i.value as int) + " })"@,
        Object::Boolean(b) => "Boolean(Boolean { value: "@ + bool_str(b.value) + " })"@,
        Object::Null(_) => "Null(Null)"@,
        Object::ReturnValue(r) => "ReturnValue(ReturnValue { value: "@ + obj_debug(*r.value) + " })"@,
        Object::ErrorObj(e) => "ErrorObj(ErrorObj { message: "@ + str_debug(e.message@) + " })"@,
        Object::Function(_) => "Function(Function)"@,
        Object::StringObj(x) => "StringObj(StringObj { value: "@ + str_debug(x.value@) + " })"@,
        Object::Builtin(_) => "Builtin(Builtin)"@,
        Object::Array(a) => "Array(Array { elements: ["@ + objs_debug(a.elements@) + "] })"@,
        Object::Hash(_) => "Hash(Hash)"@,
        Object::CompiledFunction(c) => "CompiledFunction("@ + compiled_debug(c) + ")"@,
        Object::Closure(c) => "Closure(Closure { func: "@ + compiled_debug(c.func) + ", free: ["@
            + objs_debug(c.free@) + "] })"@,
    }
}

/// Values as `{:?}` shows them, joined by ", ".
pub open spec fn objs_debug(os: Seq<Object>) -> Seq<char>
    decreases os,
{
    if os.len() == 0 {
        Seq::empty()
    } else if os.len() == 1 {
        obj_debug(os[0])
    } else {
        objs_debug(os.drop_last()) + ", "@ + obj_debug(os.last())
    }
}

/// Instructions as `{:?}` shows them: their listing (of complete
/// instructions; nothing otherwise).
pub open spec fn instr_debug(b: Seq<u8>) -> Seq<char> {
    if wf_instructions(b) {
        instructions_str(b, 0)
    } else {
        Seq::empty()
    }
}

/// A compiled function as `{:?}` shows it.
pub open spec fn compiled_debug(c: CompiledFunction) -> Seq<char> {
    "CompiledFunction { instructions: "@ + instr_debug(c.instructions.0@) + ", num_locals: "@ + nat_str(
        c.num_locals as nat,
    ) + ", num_parameters: "@ + nat_str(c.num_parameters as nat) + " }"@
}

/// A possibly missing value as `{:?}` shows it.
pub open spec fn opt_debug(o: Option<Object>) -> Seq<char> {
    match o {
        Some(x) => "Some("@ + obj_debug(x) + ")"@,
        None => "None"@,
    }
}

/// A compiled function as `{:?}` shows it.
pub fn debug_compiled(c: &CompiledFunction) -> (s: String)
    ensures
        s@ == compiled_debug(*c),
{
    let mut s = String::from_str("CompiledFunction { instructions: ");
    if instructions_complete(&c.instructions.0) {
        let listing = c.instructions.string();
        s.append(listing.as_str());
    }
    s.append(", num_locals: ");
    let n = usize_to_string(c.num_locals);
    s.append(n.as_str());
    s.append(", num_parameters: ");
    let m = usize_to_string(c.num_parameters);
    s.append(m.as_str());
    s.append(" }");
    s
}

/// A value as `{:?}` shows it.
pub fn debug_object(o: &Object) -> (s: String)
    ensures
        s@ == obj_debug(*o),
    decreases *o,
{
    match o {
        Object::Integer(x) => {
            let mut s = String::from_str("Integer(Integer { value: ");
            let v = i64_to_string(x.value);
            s.append(v.as_str());
            s.append(" })");
            s
        },
        Object::Boolean(x) => {
            let mut s = String::from_str("Boolean(Boolean { value: ");
            let v = bool_string(x.value);
            s.append(v.as_str());
            s.append(" })");
            s
        },
        Object::Null(_) => String::from_str("Null(Null)"),
        Object::ReturnValue(r) => {
            let mut s = String::from_str("ReturnValue(ReturnValue { value: ");
            let v = debug_object(&r.value);
            s.append(v.as_str());
            s.append(" })");
            s
        },
        Object::ErrorObj(e) => {
            let mut s = String::from_str("ErrorObj(ErrorObj { message: ");
            let v = debug_str(e.message.as_str());
            s.append(v.as_str());
            s.append(" })");
            s
        },
        Object::Function(_) => String::from_str("Function(Function)"),
        Object::StringObj(x) => {
            let mut s = String::from_str("StringObj(StringObj { value: ");
            let v = debug_str(x.value.as_str());
            s.append(v.as_str());
            s.append(" })");
            s
        },
        Object::Builtin(_) => String::from_str("Builtin(Builtin)"),
        Object::Array(a) => {
            let mut s = String::from_str("Array(Array { elements: [");
            let v = debug_objects(&a.elements);
            s.append(v.as_str());
            s.append("] })");
            s
        },
        Object::Hash(_) => String::from_str("Hash(Hash)"),
        Object::CompiledFunction(c) => {
            let mut s = String::from_str("CompiledFunction(");
            let v = debug_compiled(c);
            s.append(v.as_str());
            s.append(")");
            s
        },
        Object::Closure(c) => {
            let mut s = String::from_str("Closure(Closure { func: ");
            let f = debug_compiled(&c.func);
            s.append(f.as_str());
            s.append(", free: [");
            let v = debug_objects(&c.free);
            s.append(v.as_str());
            s.append("] })");
            s
        },
    }
}

/// Values as `{:?}` shows them, joined by ", ".
pub fn debug_objects(os: &Vec<Object>) -> (s: String)
    ensures
        s@ == objs_debug(os@),
    decreases os@,
{
    let mut out = String::new();
    let mut i: usize = 0;
    while i < os.len()
        invariant
            i <= os@.len(),
            out@ == objs_debug(os@.take(i as int)),
        decreases os@.len() - i,
    {
        assert(os@.take(i + 1).drop_last() =~= os@.take(i as int));
        if i > 0 {
            out.append(", ");
        }
        let part = debug_object(&os[i]);
        out.append(part.as_str());
        i = i + 1;
    }
    assert(os@.take(os@.len() as int) =~= os@);
    out
}

/// A possibly missing value as `{:?}` shows it.
pub fn debug_opt(o: &Option<Object>) -> (s: String)
    ensures
        s@ == opt_debug(*o),
{
    match o {
        Some(x) => {
            let mut s = String::from_str("Some(");
            let v = debug_object(x);
            s.append(v.as_str());
            s.append(")");
            s
        },
        None => String::from_str("None"),
    }
}

/// The printed form of a hash key.
pub fn inspect_key(k: &HashKey) -> (s: String)
    ensures
        s@ == key_str(*k),
{
    match k {
        HashKey::Integer(i) => i64_to_string(i.value),
        HashKey::Boolean(b) => bool_string(b.value),
        HashKey::StringObj(s) => s.value.clone(),
    }
}

/// The entries printed as "key: value" and joined by ", ".
pub fn inspect_pairs(ps: &Vec<HashPair>) -> (s: String)
    ensures
        s@ == pairs_inspect(ps@),
    decreases ps@,
{
    let mut out = String::new();
    let mut i: usize = 0;
    while i < ps.len()
        invariant
            i <= ps@.len(),
            out@ == pairs_inspect(ps@.take(i as int)),
        decreases ps@.len() - i,
    {
        assert(ps@.take(i + 1).drop_last() =~= ps@.take(i as int));
        if i > 0 {
            out.append(", ");
        }
        let k = inspect_key(&ps[i].key);
        out.append(k.as_str());
        out.append(": ");
        let v = inspect_object(&ps[i].value);
        out.append(v.as_str());
        i = i + 1;
    }
    assert(ps@.take(ps@.len() as int) =~= ps@);
    out
}

impl ObjectTrait for Object {
    fn get_type(&self) -> (s: String)
        ensures
            s@ == obj_type(*self),
    {
        object_type_name(self)
    }

    fn inspect(&self) -> (s: String)
        ensures
            s@ == obj_inspect(*self),
    {
        inspect_object(self)
    }
}

impl ObjectTrait for Integer {
    fn get_type(&self) -> (s: String)
        ensures
            s@ == "INTEGER"@,
    {
        String::from_str("INTEGER")
    }

    fn inspect(&self) -> (s: String)
        ensures
            s@ == int_str(self.value as int),
    {
        i64_to_string(self.value)
    }
}

impl ObjectTrait for Boolean {
    fn get_type(&self) -> (s: String)
        ensures
            s@ == "BOOLEAN"@,
    {
        String::from_str("BOOLEAN")
    }

    fn inspect(&self) -> (s: String)
        ensures
            s@ == bool_str(self.value),
    {
        bool_string(self.value)
    }
}

impl ObjectTrait for Null {
    fn get_type(&self) -> (s: String)
        ensures
            s@ == "NULL"@,
    {
        String::from_str("NULL")
    }

    fn inspect(&self) -> (s: String)
        ensures
            s@ == "null"@,
    {
        String::from_str("null")
    }
}

impl ObjectTrait for ReturnValue {
    fn get_type(&self) -> (s: String)
        ensures
            s@ == "RETURN_VALUE"@,
    {
        String::from_str("RETURN_VALUE")
    }

    fn inspect(&self) -> (s: String)
        ensures
            s@ == obj_inspect(*self.value),
    {
        inspect_object(&self.value)
    }
}

impl ObjectTrait for ErrorObj {
    fn get_type(&self) -> (s: String)
        ensures
            s@ == "ERROR"@,
    {
        String::from_str("ERROR")
    }

    fn inspect(&self) -> (s: String)
        ensures
            s@ == "ERROR: "@ + self.message@,
    {
        let mut s = String::from_str("ERROR: ");
        s.append(self.message.as_str());
        s
    }
}

impl ObjectTrait for Function {
    fn get_type(&self) -> (s: String)
        ensures
            s@ == "FUNCTION"@,
    {
        String::from_str("FUNCTION")
    }

    fn inspect(&self) -> (s: String)
        ensures
            s@ == obj_inspect(Object::Function(*self)),
    {
        let mut s = String::from_str("fn(");
        let ps = identifiers_string(&self.parameters);
        s.append(ps.as_str());
        s.append(") {\n");
        let b = self.body.string();
        s.append(b.as_str());
        s.append("\n}");
        s
    }
}

impl ObjectTrait for StringObj {
    fn get_type(&self) -> (s: String)
        ensures
            s@ == "STRING"@,
    {
        String::from_str("STRING")
    }

    fn inspect(&self) -> (s: String)
        ensures
            s@ == self.value@,
    {
        self.value.clone()
    }
}

impl ObjectTrait for Builtin {
    fn get_type(&self) -> (s: String)
        ensures
            s@ == "BUILTIN"@,
    {
        String::from_str("BUILTIN")
    }

    fn inspect(&self) -> (s: String)
        ensures
            s@ == "builtin function"@,
    {
        String::from_str("builtin function")
    }
}

impl ObjectTrait for Array {
    fn get_type(&self) -> (s: String)
        ensures
            s@ == "ARRAY"@,
    {
        String::from_str("ARRAY")
    }

    fn inspect(&self) -> (s: String)
        ensures
            s@ == obj_inspect(Object::Array(*self)),
    {
        let mut s = String::from_str("[");
        let e = inspect_objects(&self.elements);
        s.append(e.as_str());
        s.append("]");
        s
    }
}

impl ObjectTrait for Hash {
    fn get_type(&self) -> (s: String)
        ensures
            s@ == "HASH"@,
    {
        String::from_str("HASH")
    }

    fn inspect(&self) -> (s: String)
        ensures
            s@ == obj_inspect(Object::Hash(*self)),
    {
        let mut s = String::from_str("{");
        let p = inspect_pairs(&self.pairs);
        s.append(p.as_str());
        s.append("}");
        s
    }
}

impl ObjectTrait for CompiledFunction {
    fn get_type(&self) -> (s: String)
        ensures
            s@ == "COMPILED_FUNCTION"@,
    {
        String::from_str("COMPILED_FUNCTION")
    }

    fn inspect(&self) -> (s: String)
        ensures
            s@ == obj_inspect(Object::CompiledFunction(*self)),
    {
        let mut s = String::from_str("CompiledFunction[");
        let n = usize_to_string(self.instructions.0.len());
        s.append(n.as_str());
        s.append("]");
        s
    }
}

impl ObjectTrait for Closure {
    fn get_type(&self) -> (s: String)
        ensures
            s@ == "CLOSURE"@,
    {
        String::from_str("CLOSURE")
    }

    fn inspect(&self) -> (s: String)
        ensures
            s@ == obj_inspect(Object::Closure(*self)),
    {
        let mut s = String::from_str("Closure[");
        let n = usize_to_string(self.func.instructions.0.len());
        s.append(n.as_str());
        s.append("]");
        s
    }
}

} // verus!

verus! {

// ---------------------------------------------------------------------------
// Hash keys and hashes.

/// Two hash keys are the same key.
pub open spec fn key_eq(a: HashKey, b: HashKey) -> bool {
    match (a, b) {
        (HashKey::Integer(x), HashKey::Integer(y)) => x.value == y.value,
        (HashKey::Boolean(x), HashKey::Boolean(y)) => x.value == y.value,
        (HashKey::StringObj(x), HashKey::StringObj(y)) => x.value@ == y.value@,
        _ => false,
    }
}

/// The key under which a value can be stored in a hash, when its type can be hashed.
pub open spec fn spec_hash_key(o: Object) -> Option<HashKey> {
    match o {
        Object::Integer(i) => Some(HashKey::Integer(i)),
        Object::Boolean(b) => Some(HashKey::Boolean(b)),
        Object::StringObj(s) => Some(HashKey::StringObj(s)),
        _ => None,
    }
}

/// Two possibly missing values are the same.
pub open spec fn same_opt(a: Option<Object>, b: Option<Object>) -> bool {
    match (a, b) {
        (Some(x), Some(y)) => same_obj(x, y),
        (None, None) => true,
        _ => false,
    }
}

/// A copy of a possibly missing value.
pub fn duplicate_opt(o: &Option<Object>) -> (r: Option<Object>)
    ensures
        same_opt(r, *o),
{
    match o {
        Some(v) => Some(v.duplicate()),
        None => None,
    }
}

/// Whether two hash keys are the same key.
pub fn hash_key_eq(a: &HashKey, b: &HashKey) -> (r: bool)
    ensures
        r == key_eq(*a, *b),
{
    match (a, b) {
        (HashKey::Integer(x), HashKey::Integer(y)) => x.value == y.value,
        (HashKey::Boolean(x), HashKey::Boolean(y)) => x.value == y.value,
        (HashKey::StringObj(x), HashKey::StringObj(y)) => x.value == y.value,
        _ => false,
    }
}

impl HashKey {
    /// A copy of the key.
    pub fn duplicate(&self) -> (r: HashKey)
        ensures
            r == *self,
    {
        match self {
            HashKey::Integer(i) => HashKey::Integer(*i),
            HashKey::Boolean(b) => HashKey::Boolean(*b),
            HashKey::StringObj(s) => HashKey::StringObj(StringObj { value: s.value.clone() }),
        }
    }

    /// The value the key was made from.
    pub fn to_object(&self) -> (o: Object)
        ensures
            spec_hash_key(o) == Some(*self),
    {
        match self {
            HashKey::Integer(i) => Object::Integer(*i),
            HashKey::Boolean(b) => Object::Boolean(*b),
            HashKey::StringObj(s) => Object::StringObj(StringObj { value: s.value.clone() }),
        }
    }
}

/// Values that can serve as hash keys.
pub trait Hashable {
    fn hash_key(&self) -> HashKey;
}

impl Hashable for Integer {
    fn hash_key(&self) -> (k: HashKey)
        ensures
            k == HashKey::Integer(*self),
    {
        HashKey::Integer(*self)
    }
}

impl Hashable for Boolean {
    fn hash_key(&self) -> (k: HashKey)
        ensures
            k == HashKey::Boolean(*self),
    {
        HashKey::Boolean(*self)
    }
}

impl Hashable for StringObj {
    fn hash_key(&self) -> (k: HashKey)
        ensures
            k == HashKey::StringObj(*self),
    {
        HashKey::StringObj(StringObj { value: self.value.clone() })
    }
}

/// Values whose type may or may not be hashable.
pub trait AsHashable {
    fn as_hashable(&self) -> Option<HashKey>;
}

impl AsHashable for Object {
    /// The key of this value, when its type can be hashed.
    fn as_hashable(&self) -> (r: Option<HashKey>)
        ensures
            r == spec_hash_key(*self),
    {
        match self {
            Object::Integer(i) => Some(i.hash_key()),
            Object::Boolean(b) => Some(b.hash_key()),
            Object::StringObj(s) => Some(s.hash_key()),
            _ => None,
        }
    }
}

/// The position of the first entry whose key is `k`, if any.
pub open spec fn find_key(ps: Seq<HashPair>, k: HashKey) -> Option<int>
    decreases ps.len(),
{
    if ps.len() == 0 {
        None
    } else if key_eq(ps[0].key, k) {
        Some(0)
    } else {
        match find_key(ps.drop_first(), k) {
            Some(i) => Some(i + 1),
            None => None,
        }
    }
}

pub proof fn lemma_find_key(ps: Seq<HashPair>, k: HashKey)
    ensures
        find_key(ps, k) matches Some(i) ==> 0 <= i < ps.len() && key_eq(ps[i].key, k) && forall|
            j: int,
        |
            0 <= j < i ==> !key_eq(#[trigger] ps[j].key, k),
        find_key(ps, k) is None ==> forall|j: int| 0 <= j < ps.len() ==> !key_eq(#[trigger] ps[j].key, k),
    decreases ps.len(),
{
    if ps.len() > 0 && !key_eq(ps[0].key, k) {
        let t = ps.drop_first();
        lemma_find_key(t, k);
        assert forall|j: int| 0 < j < ps.len() implies ps[j] == #[trigger] t[j - 1] by {}
        match find_key(t, k) {
            Some(i) => {
                assert(find_key(ps, k) == Some(i + 1));
                assert forall|j: int| 0 <= j < i + 1 implies !key_eq(#[trigger] ps[j].key, k) by {
                    if j > 0 {
                        assert(ps[j] == t[j - 1]);
                    }
                }
            },
            None => {
                assert(find_key(ps, k) is None);
                assert forall|j: int| 0 <= j < ps.len() implies !key_eq(#[trigger] ps[j].key, k) by {
                    if j > 0 {
                        assert(ps[j] == t[j - 1]);
                    }
                }
            },
        }
    }
}

impl Hash {
    /// No key appears in two entries.
    pub open spec fn wf(&self) -> bool {
        forall|i: int, j: int|
            0 <= i < j < self.pairs@.len() ==> !key_eq(#[trigger] self.pairs@[i].key, #[trigger] self.pairs@[j].key)
    }

    /// The position of the entry for `key`, if any.
    pub fn position(&self, key: &HashKey) -> (r: Option<usize>)
        ensures
            r matches Some(i) ==> i < self.pairs@.len() && key_eq(self.pairs@[i as int].key, *key),
            r is None ==> forall|j: int| 0 <= j < self.pairs@.len() ==> !key_eq(#[trigger] self.pairs@[j].key, *key),
            r matches Some(i) ==> find_key(self.pairs@, *key) == Some(i as int),
            r is None ==> find_key(self.pairs@, *key) is None,
    {
        proof {
            lemma_find_key(self.pairs@, *key);
        }
        let mut i: usize = 0;
        while i < self.pairs.len()
            invariant
                i <= self.pairs@.len(),
                forall|j: int| 0 <= j < i ==> !key_eq(#[trigger] self.pairs@[j].key, *key),
            decreases self.pairs@.len() - i,
        {
            if hash_key_eq(&self.pairs[i].key, key) {
                proof {
                    lemma_find_key(self.pairs@, *key);
                    if let Some(f) = find_key(self.pairs@, *key) {
                        assert(f <= i);
                        assert(!(f < i));
                    }
                }
                return Some(i);
            }
            i = i + 1;
        }
        None
    }

    /// The value stored under `key`, if any.
    pub fn get(&self, key: &HashKey) -> (r: Option<&Object>)
        ensures
            match find_key(self.pairs@, *key) {
                Some(i) => r == Some(&self.pairs@[i].value),
                None => r is None,
            },
    {
        match self.position(key) {
            Some(i) => Some(&self.pairs[i].value),
            None => None,
        }
    }

    /// Stores `value` under `key`, replacing the value of an existing entry for `key`.
    pub fn insert(&mut self, key: HashKey, value: Object)
        requires
            old(self).wf(),
        ensures
            final(self).wf(),
            final(self).pairs@ == hash_inserted(old(self).pairs@, key, value),
    {
        match self.position(&key) {
            Some(i) => {
                let k = self.pairs[i].key.duplicate();
                self.pairs.set(i, HashPair { key: k, value });
                assert forall|a: int, b: int| 0 <= a < b < self.pairs@.len() implies !key_eq(
                    #[trigger] self.pairs@[a].key,
                    #[trigger] self.pairs@[b].key,
                ) by {
                    assert(self.pairs@[a].key == old(self).pairs@[a].key);
                    assert(self.pairs@[b].key == old(self).pairs@[b].key);
                }
            },
            None => {
                self.pairs.push(HashPair { key, value });
                assert forall|a: int, b: int| 0 <= a < b < self.pairs@.len() implies !key_eq(
                    #[trigger] self.pairs@[a].key,
                    #[trigger] self.pairs@[b].key,
                ) by {
                    if b == self.pairs@.len() - 1 {
                        assert(self.pairs@[b].key == key);
                        assert(self.pairs@[a] == old(self).pairs@[a]);
                        assert(!key_eq(old(self).pairs@[a].key, key));
                        let ka = self.pairs@[a].key;
                        assert(key_eq(ka, key) == key_eq(key, ka));
                    } else {
                        assert(self.pairs@[a] == old(self).pairs@[a]);
                        assert(self.pairs@[b] == old(self).pairs@[b]);
                    }
                }
            },
        }
    }
}

/// The entries after storing `value` under `key`: the entry for `key`
/// gets the new value, or a new entry is added at the end.
pub open spec fn hash_inserted(before: Seq<HashPair>, key: HashKey, value: Object) -> Seq<HashPair> {
    match find_key(before, key) {
        Some(i) => before.update(i, HashPair { key: before[i].key, value }),
        None => before.push(HashPair { key, value }),
    }
}

/// Strings with the same text have the same hash key, and strings with
/// different texts have different keys.
pub proof fn law_string_hash_key(a: StringObj, b: StringObj)
    ensures
        key_eq(HashKey::StringObj(a), HashKey::StringObj(b)) <==> a.value@ == b.value@,
{
}

/// Two strings are equal values exactly when their texts are equal, and
/// two integers exactly when their numbers are.
pub proof fn law_equality_by_content(x: StringObj, y: StringObj, m: Integer, n: Integer)
    ensures
        obj_equal(Object::StringObj(x), Object::StringObj(y)) <==> x.value@ == y.value@,
        obj_equal(Object::Integer(m), Object::Integer(n)) <==> m.value == n.value,
        !obj_equal(Object::StringObj(x), Object::Integer(m)),
{
}

/// The printed forms of values, in order, joined by ", ": element `i`'s
/// printed form is the `i`-th part.
pub open spec fn printed_parts(os: Seq<Object>) -> Seq<Seq<char>> {
    Seq::new(os.len(), |i: int| obj_inspect(os[i]))
}

/// An array prints as "[", then the printed forms of its elements in order
/// with ", " between neighbours, then "]"; printing one more element adds
/// ", " and that element's printed form.
pub proof fn law_array_printed(a: Array, os: Seq<Object>, x: Object)
    ensures
        obj_inspect(Object::Array(a)) == "["@ + seq_join(printed_parts(a.elements@), ", "@) + "]"@,
        objs_inspect(os) == seq_join(printed_parts(os), ", "@),
        os.len() > 0 ==> objs_inspect(os.push(x)) == objs_inspect(os) + ", "@ + obj_inspect(x),
        objs_inspect(seq![x]) == obj_inspect(x),
{
    lemma_objs_inspect_parts(a.elements@);
    lemma_objs_inspect_parts(os);
    lemma_objs_inspect_parts(os.push(x));
    assert(os.push(x).drop_last() =~= os);
    assert(printed_parts(os.push(x)).drop_last() =~= printed_parts(os));
}

proof fn lemma_objs_inspect_parts(os: Seq<Object>)
    ensures
        objs_inspect(os) == seq_join(printed_parts(os), ", "@),
    decreases os.len(),
{
    if os.len() > 1 {
        lemma_objs_inspect_parts(os.drop_last());
        assert(printed_parts(os).drop_last() =~= printed_parts(os.drop_last()));
    } else if os.len() == 1 {
        assert(printed_parts(os)[0] == obj_inspect(os[0]));
    }
}

/// What a hash gives back of a store: after storing `value` under `key`,
/// looking up `key` finds `value`, and every other key finds what it found
/// before.
pub proof fn law_hash_insert_then_get(before: Seq<HashPair>, key: HashKey, value: Object, other: HashKey)
    requires
        forall|i: int, j: int| 0 <= i < j < before.len() ==> !key_eq(#[trigger] before[i].key, #[trigger] before[j].key),
        !key_eq(other, key),
    ensures
        find_key(hash_inserted(before, key, value), key) matches Some(i) && hash_inserted(before, key, value)[i].value == value,
        match find_key(before, other) {
            Some(j) => find_key(hash_inserted(before, key, value), other) == Some(j) && hash_inserted(before, key, value)[j].value == before[j].value,
            None => find_key(hash_inserted(before, key, value), other) is None,
        },
{
    let after = hash_inserted(before, key, value);
    lemma_find_key(before, key);
    lemma_find_key(before, other);
    lemma_find_key(after, key);
    lemma_find_key(after, other);
    lemma_key_eq_symmetric(key, other);
    match find_key(before, key) {
        Some(i) => {
            assert(after.len() == before.len());
            assert forall|j: int| 0 <= j < after.len() implies #[trigger] after[j].key == before[j].key by {}
            lemma_find_key_same_keys(before, after, key);
            lemma_find_key_same_keys(before, after, other);
        },
        None => {
            assert forall|j: int| 0 <= j < before.len() implies #[trigger] after[j] == before[j] by {}
            lemma_find_key_push(before, HashPair { key, value }, key);
            lemma_find_key_push(before, HashPair { key, value }, other);
            lemma_key_eq_reflexive(key);
        },
    }
}

proof fn lemma_key_eq_symmetric(a: HashKey, b: HashKey)
    ensures
        key_eq(a, b) == key_eq(b, a),
{
}

proof fn lemma_key_eq_reflexive(a: HashKey)
    ensures
        key_eq(a, a),
{
}

/// Lookups only depend on the keys.
proof fn lemma_find_key_same_keys(a: Seq<HashPair>, b: Seq<HashPair>, k: HashKey)
    requires
        a.len() == b.len(),
        forall|j: int| 0 <= j < a.len() ==> #[trigger] b[j].key == a[j].key,
    ensures
        find_key(a, k) == find_key(b, k),
    decreases a.len(),
{
    if a.len() > 0 {
        assert(a[0].key == b[0].key);
        assert forall|j: int| 0 <= j < a.drop_first().len() implies #[trigger] b.drop_first()[j].key == a.drop_first()[j].key by {
            assert(b[j + 1].key == a[j + 1].key);
        }
        lemma_find_key_same_keys(a.drop_first(), b.drop_first(), k);
    }
}

/// Adding an entry at the end does not change the lookups that found an
/// entry before; a key not found before finds the new entry if it matches.
proof fn lemma_find_key_push(a: Seq<HashPair>, p: HashPair, k: HashKey)
    ensures
        find_key(a, k) is Some ==> find_key(a.push(p), k) == find_key(a, k),
        find_key(a, k) is None ==> find_key(a.push(p), k) == (if key_eq(p.key, k) { Some(a.len() as int) } else { None::<int> }),
    decreases a.len(),
{
    if a.len() > 0 {
        assert(a.push(p).drop_first() =~= a.drop_first().push(p));
        assert(a.push(p)[0] == a[0]);
        lemma_find_key_push(a.drop_first(), p, k);
    } else {
        assert(a.push(p).drop_first() =~= Seq::<HashPair>::empty());
        assert(a.push(p)[0] == p);
        assert(find_key(Seq::<HashPair>::empty(), k) is None);
    }
}

// ---------------------------------------------------------------------------
// Equality of values, as `==` and `!=` compare them.

pub open spec fn obj_equal(a: Object, b: Object) -> bool
    decreases a,
{
    match (a, b) {
        (Object::Integer(x), Object::Integer(y)) => x.value == y.value,
        (Object::Boolean(x), Object::Boolean(y)) => x.value == y.value,
        (Object::Null(_), Object::Null(_)) => true,
        (Object::ReturnValue(x), Object::ReturnValue(y)) => obj_equal(*x.value, *y.value),
        (Object::ErrorObj(x), Object::ErrorObj(y)) => x.message@ == y.message@,
        (Object::StringObj(x), Object::StringObj(y)) => x.value@ == y.value@,
        (Object::Array(x), Object::Array(y)) => objs_equal(x.elements@, y.elements@),
        (Object::CompiledFunction(x), Object::CompiledFunction(y)) => x.instructions.0@
            == y.instructions.0@ && x.num_locals == y.num_locals && x.num_parameters
            == y.num_parameters,
        _ => false,
    }
}

pub open spec fn objs_equal(a: Seq<Object>, b: Seq<Object>) -> bool
    decreases a,
{
    a.len() == b.len() && (a.len() == 0 || (objs_equal(a.drop_last(), b.drop_last()) && obj_equal(
        a.last(),
        b.last(),
    )))
}

/// Whether two values are equal: by value for integers, booleans, strings,
/// errors, compiled functions and (element by element) arrays; function
/// values, builtins and hashes are never equal.
pub fn objects_equal(a: &Object, b: &Object) -> (r: bool)
    ensures
        r == obj_equal(*a, *b),
    decreases *a,
{
    match (a, b) {
        (Object::Integer(x), Object::Integer(y)) => x.value == y.value,
        (Object::Boolean(x), Object::Boolean(y)) => x.value == y.value,
        (Object::Null(_), Object::Null(_)) => true,
        (Object::ReturnValue(x), Object::ReturnValue(y)) => objects_equal(&x.value, &y.value),
        (Object::ErrorObj(x), Object::ErrorObj(y)) => x.message == y.message,
        (Object::StringObj(x), Object::StringObj(y)) => x.value == y.value,
        (Object::Array(x), Object::Array(y)) => objects_seq_equal(&x.elements, &y.elements),
        (Object::CompiledFunction(x), Object::CompiledFunction(y)) => {
            bytes_equal(&x.instructions.0, &y.instructions.0) && x.num_locals == y.num_locals
                && x.num_parameters == y.num_parameters
        },
        _ => false,
    }
}

/// Whether two sequences of values are equal element by element.
pub fn objects_seq_equal(a: &Vec<Object>, b: &Vec<Object>) -> (r: bool)
    ensures
        r == objs_equal(a@, b@),
    decreases a@,
{
    if a.len() != b.len() {
        return false;
    }
    let mut i: usize = 0;
    while i < a.len()
        invariant
            a@.len() == b@.len(),
            i <= a@.len(),
            objs_equal(a@.take(i as int), b@.take(i as int)),
        decreases a@.len() - i,
    {
        assert(a@.take(i + 1).drop_last() =~= a@.take(i as int));
        assert(b@.take(i + 1).drop_last() =~= b@.take(i as int));
        if !objects_equal(&a[i], &b[i]) {
            proof {
                if objs_equal(a@, b@) {
                    lemma_objs_equal_prefix(a@, b@, i + 1);
                    assert(a@.take(i + 1).last() == a@[i as int]);
                    assert(b@.take(i + 1).last() == b@[i as int]);
                }
            }
            return false;
        }
        i = i + 1;
    }
    assert(a@.take(i as int) =~= a@);
    assert(b@.take(i as int) =~= b@);
    true
}

/// Equal sequences of values have equal prefixes.
pub proof fn lemma_objs_equal_prefix(a: Seq<Object>, b: Seq<Object>, k: int)
    requires
        0 <= k <= a.len(),
        objs_equal(a, b),
    ensures
        objs_equal(a.take(k), b.take(k)),
    decreases a.len(),
{
    if k < a.len() {
        assert(a.drop_last().take(k) =~= a.take(k));
        assert(b.drop_last().take(k) =~= b.take(k));
        lemma_objs_equal_prefix(a.drop_last(), b.drop_last(), k);
    } else {
        assert(a.take(k) =~= a);
        assert(b.take(k) =~= b);
    }
}

/// Whether two byte sequences are equal.
pub fn bytes_equal(a: &Vec<u8>, b: &Vec<u8>) -> (r: bool)
    ensures
        r == (a@ == b@),
{
    if a.len() != b.len() {
        return false;
    }
    let mut i: usize = 0;
    while i < a.len()
        invariant
            a@.len() == b@.len(),
            i <= a@.len(),
            forall|k: int| 0 <= k < i ==> a@[k] == b@[k],
        decreases a@.len() - i,
    {
        if a[i] != b[i] {
            return false;
        }
        i = i + 1;
    }
    assert(a@ =~= b@);
    true
}

/// The boolean value for a native `bool`.
pub fn native_bool_to_boolean_object(input: bool) -> (o: Object)
    ensures
        o == Object::Boolean(Boolean { value: input }),
{
    Object::Boolean(Boolean { value: input })
}

} // verus!

verus! {

// ---------------------------------------------------------------------------
// Copies of values.

/// Two values are the same value, part for part.
pub open spec fn same_obj(a: Object, b: Object) -> bool
    decreases a,
{
    match (a, b) {
        (Object::ReturnValue(x), Object::ReturnValue(y)) => same_obj(*x.value, *y.value),
        (Object::Function(x), Object::Function(y)) => x.parameters@ == y.parameters@ && same_block(
            x.body,
            y.body,
        ) && x.env == y.env,
        (Object::Array(x), Object::Array(y)) => same_objs(x.elements@, y.elements@),
        (Object::Hash(x), Object::Hash(y)) => same_hash_pairs(x.pairs@, y.pairs@),
        (Object::CompiledFunction(x), Object::CompiledFunction(y)) => same_compiled(x, y),
        (Object::Closure(x), Object::Closure(y)) => same_compiled(x.func, y.func) && same_objs(
            x.free@,
            y.free@,
        ),
        (Object::Integer(_), _) | (Object::Boolean(_), _) | (Object::Null(_), _) | (
            Object::ErrorObj(_),
            _,
        ) | (Object::StringObj(_), _) | (Object::Builtin(_), _) => a == b,
        _ => false,
    }
}

pub open spec fn same_compiled(a: CompiledFunction, b: CompiledFunction) -> bool {
    a.instructions.0@ == b.instructions.0@ && a.num_locals == b.num_locals && a.num_parameters
        == b.num_parameters
}

pub open spec fn same_objs(a: Seq<Object>, b: Seq<Object>) -> bool
    decreases a,
{
    a.len() == b.len() && (a.len() == 0 || (same_objs(a.drop_last(), b.drop_last()) && same_obj(
        a.last(),
        b.last(),
    )))
}

pub open spec fn same_hash_pairs(a: Seq<HashPair>, b: Seq<HashPair>) -> bool
    decreases a,
{
    a.len() == b.len() && (a.len() == 0 || (same_hash_pairs(a.drop_last(), b.drop_last())
        && a.last().key == b.last().key && same_obj(a.last().value, b.last().value)))
}

/// Same sequences of values have the same elements.
pub proof fn lemma_same_objs_index(a: Seq<Object>, b: Seq<Object>, i: int)
    requires
        same_objs(a, b),
        0 <= i < a.len(),
    ensures
        same_obj(a[i], b[i]),
        a.len() == b.len(),
    decreases a.len(),
{
    if i < a.len() - 1 {
        lemma_same_objs_index(a.drop_last(), b.drop_last(), i);
    }
}

/// Same sequences of hash entries have the same keys and values.
pub proof fn lemma_same_hash_pairs_index(a: Seq<HashPair>, b: Seq<HashPair>, i: int)
    requires
        same_hash_pairs(a, b),
        0 <= i < a.len(),
    ensures
        a[i].key == b[i].key,
        same_obj(a[i].value, b[i].value),
        a.len() == b.len(),
    decreases a.len(),
{
    if i < a.len() - 1 {
        lemma_same_hash_pairs_index(a.drop_last(), b.drop_last(), i);
    }
}

/// A copy of the bytes.
pub fn copy_bytes(v: &Vec<u8>) -> (r: Vec<u8>)
    ensures
        r@ == v@,
{
    let mut r: Vec<u8> = Vec::new();
    let mut i: usize = 0;
    while i < v.len()
        invariant
            i <= v@.len(),
            r@ == v@.take(i as int),
        decreases v@.len() - i,
    {
        r.push(v[i]);
        i = i + 1;
        assert(r@ =~= v@.take(i as int));
    }
    assert(v@.take(v@.len() as int) =~= v@);
    r
}

impl CompiledFunction {
    /// A copy of the compiled function.
    pub fn duplicate(&self) -> (r: CompiledFunction)
        ensures
            same_compiled(r, *self),
    {
        CompiledFunction {
            instructions: Instructions(copy_bytes(&self.instructions.0)),
            num_locals: self.num_locals,
            num_parameters: self.num_parameters,
        }
    }
}

impl Object {
    /// A copy of the value.
    pub fn duplicate(&self) -> (r: Object)
        ensures
            same_obj(r, *self),
        decreases *self,
    {
        match self {
            Object::Integer(i) => Object::Integer(*i),
            Object::Boolean(b) => Object::Boolean(*b),
            Object::Null(n) => Object::Null(*n),
            Object::ReturnValue(r) => Object::ReturnValue(ReturnValue { value: Box::new(r.value.duplicate()) }),
            Object::ErrorObj(e) => Object::ErrorObj(ErrorObj { message: e.message.clone() }),
            Object::Function(f) => Object::Function(
                Function {
                    parameters: crate::ast::duplicate_identifiers(&f.parameters),
                    body: f.body.duplicate(),
                    env: f.env,
                },
            ),
            Object::StringObj(s) => Object::StringObj(StringObj { value: s.value.clone() }),
            Object::Builtin(b) => Object::Builtin(*b),
            Object::Array(a) => Object::Array(Array { elements: duplicate_objects(&a.elements) }),
            Object::Hash(h) => Object::Hash(Hash { pairs: duplicate_hash_pairs(&h.pairs) }),
            Object::CompiledFunction(c) => Object::CompiledFunction(c.duplicate()),
            Object::Closure(c) => Object::Closure(
                Closure { func: c.func.duplicate(), free: duplicate_objects(&c.free) },
            ),
        }
    }
}

/// A copy of the values.
pub fn duplicate_objects(os: &Vec<Object>) -> (r: Vec<Object>)
    ensures
        same_objs(r@, os@),
    decreases os@,
{
    let mut r: Vec<Object> = Vec::new();
    let mut i: usize = 0;
    while i < os.len()
        invariant
            i <= os@.len(),
            same_objs(r@, os@.take(i as int)),
        decreases os@.len() - i,
    {
        let ghost prev = r@;
        let d = os[i].duplicate();
        r.push(d);
        assert(r@.drop_last() =~= prev);
        assert(os@.take(i + 1).drop_last() =~= os@.take(i as int));
        i = i + 1;
    }
    assert(os@.take(os@.len() as int) =~= os@);
    r
}

/// A copy of the hash entries.
pub fn duplicate_hash_pairs(ps: &Vec<HashPair>) -> (r: Vec<HashPair>)
    ensures
        same_hash_pairs(r@, ps@),
    decreases ps@,
{
    let mut r: Vec<HashPair> = Vec::new();
    let mut i: usize = 0;
    while i < ps.len()
        invariant
            i <= ps@.len(),
            same_hash_pairs(r@, ps@.take(i as int)),
        decreases ps@.len() - i,
    {
        let ghost prev = r@;
        let k = ps[i].key.duplicate();
        let v = ps[i].value.duplicate();
        r.push(HashPair { key: k, value: v });
        assert(r@.drop_last() =~= prev);
        assert(ps@.take(i + 1).drop_last() =~= ps@.take(i as int));
        i = i + 1;
    }
    assert(ps@.take(ps@.len() as int) =~= ps@);
    r
}

} // verus!
