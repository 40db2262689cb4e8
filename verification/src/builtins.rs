//! The functions built into the language: `len`, `puts`, `first`, `last`,
//! `rest` and `push`.
use vstd::prelude::*;
use vstd::utf8::encode_utf8;
use crate::object::{
    Object, Integer, Null, Builtin, BuiltinFunction, Array, ErrorObj, obj_type, obj_inspect,
    same_obj, same_objs, inspect_object, object_type_name, duplicate_objects,
};
use crate::text::{nat_str, usize_to_string};

verus! {

/// The name under which a builtin is known.
pub open spec fn builtin_name(f: BuiltinFunction) -> Seq<char> {
    match f {
        BuiltinFunction::Len => "len"@,
        BuiltinFunction::Puts => "puts"@,
        BuiltinFunction::First => "first"@,
        BuiltinFunction::Last => "last"@,
        BuiltinFunction::Rest => "rest"@,
        BuiltinFunction::Push => "push"@,
    }
}

/// The builtins in the order in which they are numbered.
pub open spec fn builtin_at(i: int) -> BuiltinFunction {
    if i == 0 {
        BuiltinFunction::Len
    } else if i == 1 {
        BuiltinFunction::Puts
    } else if i == 2 {
        BuiltinFunction::First
    } else if i == 3 {
        BuiltinFunction::Last
    } else if i == 4 {
        BuiltinFunction::Rest
    } else {
        BuiltinFunction::Push
    }
}

/// The builtin known under `name`, if any.
pub open spec fn spec_builtin_named(name: Seq<char>) -> Option<BuiltinFunction> {
    if name == "len"@ {
        Some(BuiltinFunction::Len)
    } else if name == "puts"@ {
        Some(BuiltinFunction::Puts)
    } else if name == "first"@ {
        Some(BuiltinFunction::First)
    } else if name == "last"@ {
        Some(BuiltinFunction::Last)
    } else if name == "rest"@ {
        Some(BuiltinFunction::Rest)
    } else if name == "push"@ {
        Some(BuiltinFunction::Push)
    } else {
        None
    }
}

/// The message for a call with the wrong number of arguments.
pub open spec fn arity_message(got: nat, want: nat) -> Seq<char> {
    "wrong number of arguments. got="@ + nat_str(got) + ", want="@ + nat_str(want)
}

/// The message for an argument that is not an array, in the tree-walking
/// evaluator's wording or, for the virtual machine (`machine`), in its own
/// (which quotes the type name).
pub open spec fn not_array_message(f: BuiltinFunction, arg: Object, machine: bool) -> Seq<char> {
    if machine {
        "arguemnt to `"@ + builtin_name(f) + "` must be ARRAY, got=\""@ + obj_type(arg) + "\""@
    } else {
        "argument to `"@ + builtin_name(f) + "` must be ARRAY, got "@ + obj_type(arg)
    }
}

/// Whether `r` is an error object with the message `m`.
pub open spec fn is_error_with(r: Object, m: Seq<char>) -> bool {
    r matches Object::ErrorObj(e) && e.message@ == m
}

/// What applying builtin `f` to `args` gives back, `r` standing for the
/// result; `machine` tells whether the virtual machine applies it.
pub open spec fn builtin_result(f: BuiltinFunction, args: Seq<Object>, r: Object, machine: bool) -> bool {
    match f {
        BuiltinFunction::Puts => r == Object::Null(Null {}),
        BuiltinFunction::Push => if args.len() != 2 {
            is_error_with(r, arity_message(args.len(), 2))
        } else {
            match args[0] {
                Object::Array(a) => r matches Object::Array(b) && same_objs(
                    b.elements@,
                    a.elements@.push(args[1]),
                ),
                _ => is_error_with(r, not_array_message(f, args[0], machine)),
            }
        },
        _ => if args.len() != 1 {
            is_error_with(r, arity_message(args.len(), 1))
        } else {
            match (f, args[0]) {
                (BuiltinFunction::Len, Object::Array(a)) => r == Object::Integer(
                    Integer { value: a.elements@.len() as i64 },
                ),
                (BuiltinFunction::Len, Object::StringObj(s)) => r == Object::Integer(
                    Integer { value: (encode_utf8(s.value@).len() as usize) as i64 },
                ),
                (BuiltinFunction::Len, _) => is_error_with(
                    r,
                    "argument to `len` not supported, got "@ + obj_type(args[0]),
                ),
                (BuiltinFunction::First, Object::Array(a)) => if a.elements@.len() > 0 {
                    same_obj(r, a.elements@[0])
                } else {
                    r == Object::Null(Null {})
                },
                (BuiltinFunction::Last, Object::Array(a)) => if a.elements@.len() > 0 {
                    same_obj(r, a.elements@.last())
                } else {
                    r == Object::Null(Null {})
                },
                (BuiltinFunction::Rest, Object::Array(a)) => if a.elements@.len() > 0 {
                    r matches Object::Array(b) && same_objs(b.elements@, a.elements@.drop_first())
                } else {
                    r == Object::Null(Null {})
                },
                _ => is_error_with(r, not_array_message(f, args[0], machine)),
            }
        },
    }
}

/// What `puts` writes: the printed form of each argument, one line each.
pub open spec fn puts_lines(args: Seq<Object>) -> Seq<Seq<char>> {
    Seq::new(args.len(), |i: int| obj_inspect(args[i]))
}

/// The builtin known under `name`, as a value.
pub fn get_builtin(name: &str) -> (r: Option<Object>)
    ensures
        match spec_builtin_named(name@) {
            Some(f) => r == Some(Object::Builtin(Builtin { func: f })),
            None => r is None,
        },
{
    match get_builtin_by_name(name) {
        Some(b) => Some(Object::Builtin(b)),
        None => None,
    }
}

/// The builtin known under `name`.
pub fn get_builtin_by_name(name: &str) -> (r: Option<Builtin>)
    ensures
        match spec_builtin_named(name@) {
            Some(f) => r == Some(Builtin { func: f }),
            None => r is None,
        },
{
    let f = if crate::text::str_eq(name, "len") {
        BuiltinFunction::Len
    } else if crate::text::str_eq(name, "puts") {
        BuiltinFunction::Puts
    } else if crate::text::str_eq(name, "first") {
        BuiltinFunction::First
    } else if crate::text::str_eq(name, "last") {
        BuiltinFunction::Last
    } else if crate::text::str_eq(name, "rest") {
        BuiltinFunction::Rest
    } else if crate::text::str_eq(name, "push") {
        BuiltinFunction::Push
    } else {
        return None;
    };
    Some(Builtin { func: f })
}

/// The name of a builtin.
pub fn builtin_function_name(f: BuiltinFunction) -> (s: &'static str)
    ensures
        s@ == builtin_name(f),
{
    match f {
        BuiltinFunction::Len => "len",
        BuiltinFunction::Puts => "puts",
        BuiltinFunction::First => "first",
        BuiltinFunction::Last => "last",
        BuiltinFunction::Rest => "rest",
        BuiltinFunction::Push => "push",
    }
}

/// The names of the builtins, in the order in which they are numbered.
pub fn get_builtin_names() -> (r: Vec<String>)
    ensures
        r@.len() == 6,
        forall|i: int| 0 <= i < 6 ==> (#[trigger] r@[i])@ == builtin_name(builtin_at(i)),
{
    let mut r: Vec<String> = Vec::new();
    r.push(String::from_str("len"));
    r.push(String::from_str("puts"));
    r.push(String::from_str("first"));
    r.push(String::from_str("last"));
    r.push(String::from_str("rest"));
    r.push(String::from_str("push"));
    r
}

/// The builtin numbered `i`.
pub fn builtin_by_index(i: usize) -> (r: Option<BuiltinFunction>)
    ensures
        i < 6 ==> r == Some(builtin_at(i as int)),
        i >= 6 ==> r is None,
{
    if i == 0 {
        Some(BuiltinFunction::Len)
    } else if i == 1 {
        Some(BuiltinFunction::Puts)
    } else if i == 2 {
        Some(BuiltinFunction::First)
    } else if i == 3 {
        Some(BuiltinFunction::Last)
    } else if i == 4 {
        Some(BuiltinFunction::Rest)
    } else if i == 5 {
        Some(BuiltinFunction::Push)
    } else {
        None
    }
}

fn arity_error(got: usize, want: usize) -> (r: Object)
    ensures
        is_error_with(r, arity_message(got as nat, want as nat)),
{
    let mut m = String::from_str("wrong number of arguments. got=");
    let g = usize_to_string(got);
    m.append(g.as_str());
    m.append(", want=");
    let w = usize_to_string(want);
    m.append(w.as_str());
    Object::ErrorObj(ErrorObj { message: m })
}

fn not_array_error(f: BuiltinFunction, arg: &Object, machine: bool) -> (r: Object)
    ensures
        is_error_with(r, not_array_message(f, *arg, machine)),
{
    let t = object_type_name(arg);
    if machine {
        let mut m = String::from_str("arguemnt to `");
        m.append(builtin_function_name(f));
        m.append("` must be ARRAY, got=\"");
        m.append(t.as_str());
        m.append("\"");
        Object::ErrorObj(ErrorObj { message: m })
    } else {
        let mut m = String::from_str("argument to `");
        m.append(builtin_function_name(f));
        m.append("` must be ARRAY, got ");
        m.append(t.as_str());
        Object::ErrorObj(ErrorObj { message: m })
    }
}

/// Applies builtin `func` to `args`, for the virtual machine when `machine`
/// holds.  What `puts` prints is appended to `output`, one line per argument;
/// the other builtins leave it unchanged.
pub fn apply_builtin(func: BuiltinFunction, args: &Vec<Object>, output: &mut Vec<String>, machine: bool) -> (r: Object)
    ensures
        builtin_result(func, args@, r, machine),
        func == BuiltinFunction::Puts ==> final(output)@.len() == old(output)@.len() + args@.len(),
        func == BuiltinFunction::Puts ==> forall|i: int|
            0 <= i < old(output)@.len() ==> #[trigger] final(output)@[i] == old(output)@[i],
        func == BuiltinFunction::Puts ==> forall|i: int|
            0 <= i < args@.len() ==> (#[trigger] final(output)@[old(output)@.len() + i])@
                == puts_lines(args@)[i],
        func != BuiltinFunction::Puts ==> final(output)@ == old(output)@,
{
    match func {
        BuiltinFunction::Puts => {
            let ghost start = output@;
            let mut i: usize = 0;
            while i < args.len()
                invariant
                    i <= args@.len(),
                    output@.len() == start.len() + i,
                    forall|k: int| 0 <= k < start.len() ==> #[trigger] output@[k] == start[k],
                    forall|k: int| 0 <= k < i ==> (#[trigger] output@[start.len() + k])@
                        == puts_lines(args@)[k],
                decreases args@.len() - i,
            {
                let line = inspect_object(&args[i]);
                output.push(line);
                i = i + 1;
            }
            let r = Object::Null(Null {});
            assert(func == BuiltinFunction::Puts);
            assert(builtin_result(func, args@, r, machine));
            r
        },
        BuiltinFunction::Push => {
            if args.len() != 2 {
                return arity_error(args.len(), 2);
            }
            match &args[0] {
                Object::Array(a) => {
                    let mut elements = duplicate_objects(&a.elements);
                    let ghost prev = elements@;
                    let last = args[1].duplicate();
                    elements.push(last);
                    assert(elements@.drop_last() == prev);
                    assert(a.elements@.push(args@[1]).drop_last() =~= a.elements@);
                    Object::Array(Array { elements })
                },
                _ => not_array_error(func, &args[0], machine),
            }
        },
        _ => {
            if args.len() != 1 {
                return arity_error(args.len(), 1);
            }
            match (func, &args[0]) {
                (BuiltinFunction::Len, Object::Array(a)) => {
                    let n: i64 = #[verifier::truncate] (a.elements.len() as i64);
                    Object::Integer(Integer { value: n })
                },
                (BuiltinFunction::Len, Object::StringObj(s)) => {
                    let st = s.value.as_str();
                    let len = st.len();
                    assert(st@ == s.value@);
                    assert(len == encode_utf8(s.value@).len() as usize);
                    let n: i64 = #[verifier::truncate] (len as i64);
                    Object::Integer(Integer { value: n })
                },
                (BuiltinFunction::Len, _) => {
                    let mut m = String::from_str("argument to `len` not supported, got ");
                    let t = object_type_name(&args[0]);
                    m.append(t.as_str());
                    Object::ErrorObj(ErrorObj { message: m })
                },
                (BuiltinFunction::First, Object::Array(a)) => {
                    if a.elements.len() > 0 {
                        a.elements[0].duplicate()
                    } else {
                        Object::Null(Null {})
                    }
                },
                (BuiltinFunction::Last, Object::Array(a)) => {
                    let n = a.elements.len();
                    if n > 0 {
                        a.elements[n - 1].duplicate()
                    } else {
                        Object::Null(Null {})
                    }
                },
                (BuiltinFunction::Rest, Object::Array(a)) => {
                    let n = a.elements.len();
                    if n > 0 {
                        let mut elements: Vec<Object> = Vec::new();
                        let mut i: usize = 1;
                        while i < n
                            invariant
                                1 <= i <= n,
                                n == a.elements@.len(),
                                same_objs(elements@, a.elements@.subrange(1, i as int)),
                            decreases n - i,
                        {
                            let ghost prev = elements@;
                            let d = a.elements[i].duplicate();
                            elements.push(d);
                            assert(elements@.drop_last() == prev);
                            assert(a.elements@.subrange(1, i + 1).drop_last() =~= a.elements@.subrange(1, i as int));
                            i = i + 1;
                        }
                        assert(a.elements@.subrange(1, n as int) =~= a.elements@.drop_first());
                        Object::Array(Array { elements })
                    } else {
                        Object::Null(Null {})
                    }
                },
                _ => not_array_error(func, &args[0], machine),
            }
        },
    }
}


/// On one array: `len` gives the number of its elements, `first` and `last`
/// (a copy of) its first and last element, `rest` all elements but the
/// first, each in order; on an empty array `first`, `last` and `rest` give
/// null.  `len` of a string gives the number of bytes of its UTF-8 text.
pub proof fn law_array_builtins(f: BuiltinFunction, arr: Array, s: crate::object::StringObj, r: Object, t: Object, machine: bool)
    requires
        builtin_result(f, seq![Object::Array(arr)], r, machine),
        builtin_result(BuiltinFunction::Len, seq![Object::StringObj(s)], t, machine),
    ensures
        f == BuiltinFunction::Len ==> r == Object::Integer(Integer { value: arr.elements@.len() as i64 }),
        f == BuiltinFunction::First && arr.elements@.len() > 0 ==> same_obj(r, arr.elements@[0]),
        f == BuiltinFunction::Last && arr.elements@.len() > 0 ==> same_obj(
            r,
            arr.elements@[arr.elements@.len() - 1],
        ),
        f == BuiltinFunction::Rest && arr.elements@.len() > 0 ==> (r matches Object::Array(b) && b.elements@.len()
            == arr.elements@.len() - 1 && forall|i: int|
            0 <= i < b.elements@.len() ==> same_obj(#[trigger] b.elements@[i], arr.elements@[i + 1])),
        (f == BuiltinFunction::First || f == BuiltinFunction::Last || f == BuiltinFunction::Rest)
            && arr.elements@.len() == 0 ==> r == Object::Null(Null {}),
        t == Object::Integer(Integer { value: (encode_utf8(s.value@).len() as usize) as i64 }),
{
    if f == BuiltinFunction::Rest && arr.elements@.len() > 0 {
        if let Object::Array(b) = r {
            assert forall|i: int| 0 <= i < b.elements@.len() implies same_obj(#[trigger] b.elements@[i], arr.elements@[i + 1]) by {
                crate::object::lemma_same_objs_index(b.elements@, arr.elements@.drop_first(), i);
            }
        }
    }
}

/// `push` puts a copy of the value at the end, where `last` finds it (and
/// copies it once more), and `len` of the result is one more than `len` of
/// the array pushed to.
pub proof fn law_push_then_last_and_len(
    arr: Object,
    x: Object,
    pushed: Object,
    last: Object,
    n_before: Object,
    n_after: Object,
    machine: bool,
)
    requires
        arr is Array,
        builtin_result(BuiltinFunction::Push, seq![arr, x], pushed, machine),
        builtin_result(BuiltinFunction::Last, seq![pushed], last, machine),
        builtin_result(BuiltinFunction::Len, seq![arr], n_before, machine),
        builtin_result(BuiltinFunction::Len, seq![pushed], n_after, machine),
        arr->Array_0.elements@.len() < i64::MAX,
    ensures
        pushed matches Object::Array(b) && b.elements@.len() > 0 && same_obj(b.elements@.last(), x)
            && same_obj(last, b.elements@.last()),
        n_before matches Object::Integer(a) && n_after matches Object::Integer(b) && b.value == a.value + 1,
{
    let a = arr->Array_0;
    let b = pushed->Array_0;
    assert(seq![arr, x][0] == arr);
    assert(seq![arr, x][1] == x);
    assert(seq![pushed][0] == pushed);
    assert(seq![arr][0] == arr);
    let full = a.elements@.push(x);
    crate::object::lemma_same_objs_index(b.elements@, full, full.len() - 1);
    assert(full.last() == x);
}

} // verus!
