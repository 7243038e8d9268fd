use vstd::prelude::*;

use crate::text::{fail, same_chars, Error};
use crate::value::{decimal, digits_of, display_of, push_digits, Value, EXACT_INT_LIMIT};

verus! {

/// The number of elements of an array or entries of an object.
pub open spec fn size_of(v: Value) -> nat {
    match v {
        Value::Array(a) => a@.len(),
        Value::Object(o) => o@.len(),
        _ => 0,
    }
}

/// Whether every element is an integer.
pub open spec fn all_ints(s: Seq<Value>) -> bool {
    forall|i: int| 0 <= i < s.len() ==> (#[trigger] s[i]) is Int
}

/// The arithmetic sum of the integers of a sequence.
pub open spec fn int_sum(s: Seq<Value>) -> int
    decreases s.len(),
{
    if s.len() == 0 {
        0
    } else {
        int_sum(s.drop_last()) + match s.last() {
            Value::Int(n) => n as int,
            _ => 0,
        }
    }
}

/// Whether an integer fits in a signed 64-bit value.
pub open spec fn fits_i64(n: int) -> bool {
    i64::MIN <= n <= i64::MAX
}

/// The name of a value's kind, as error messages give it.
pub open spec fn kind_name(v: Value) -> Seq<char> {
    match v {
        Value::Null => "null"@,
        Value::Boolean(_) => "a boolean"@,
        Value::Int(_) => "an integer"@,
        Value::Float(_) => "a float"@,
        Value::String(_) => "a string"@,
        Value::Ident(_) => "an identifier"@,
        Value::Array(_) => "an array"@,
        Value::Object(_) => "an object"@,
        Value::Function(_) => "a function"@,
    }
}

/// What a builtin received: the kind of its one argument, or how many
/// arguments it got.
pub open spec fn received(args: Seq<Value>) -> Seq<char> {
    if args.len() == 1 {
        kind_name(args[0])
    } else {
        digits_of(args.len()) + " arguments"@
    }
}

/// The message of an arity or type error: the function, the shape it
/// expects, and what it received.
pub open spec fn shape_message(name: Seq<char>, expected: Seq<char>, args: Seq<Value>) -> Seq<char> {
    name + " expects "@ + expected + ", received "@ + received(args)
}

fn kind_str(v: &Value) -> (r: &'static str)
    ensures
        r@ == kind_name(*v),
{
    match v {
        Value::Null => "null",
        Value::Boolean(_) => "a boolean",
        Value::Int(_) => "an integer",
        Value::Float(_) => "a float",
        Value::String(_) => "a string",
        Value::Ident(_) => "an identifier",
        Value::Array(_) => "an array",
        Value::Object(_) => "an object",
        Value::Function(_) => "a function",
    }
}

/// An arity or type error of the builtin `name`.
pub fn shape_error(name: &str, expected: &str, args: &Vec<Value>) -> (r: Error)
    ensures
        r.message@ == shape_message(name@, expected@, args@),
{
    let mut m = String::from_str(name);
    m.append(" expects ");
    m.append(expected);
    m.append(", received ");
    if args.len() == 1 {
        m.append(kind_str(&args[0]));
    } else {
        push_digits(&mut m, args.len() as u64);
        m.append(" arguments");
    }
    assert(m@ =~= shape_message(name@, expected@, args@));
    Error::query(m)
}

/// What `count` returns: an array's element count or an object's entry count.
pub open spec fn count_spec(args: Seq<Value>, r: Result<Value, Error>) -> bool {
    &&& (!(args.len() == 1 && (args[0] is Array || args[0] is Object)) ==> (r matches Err(e) && e.message@ == shape_message("count"@, "one array or object"@, args)))
    &&& (r is Ok <==> args.len() == 1 && (args[0] is Array || args[0] is Object))
    &&& (r matches Ok(v) ==> v == Value::Int(size_of(args[0]) as i64))
}

/// What `keys` returns: an object's keys as strings, in insertion order.
pub open spec fn keys_spec(args: Seq<Value>, r: Result<Value, Error>) -> bool {
    &&& (!(args.len() == 1 && args[0] is Object) ==> (r matches Err(e) && e.message@ == shape_message("keys"@, "one object"@, args)))
    &&& (r is Ok <==> args.len() == 1 && args[0] is Object)
    &&& (r matches Ok(v) ==> v is Array && v->Array_0@.len() == size_of(args[0]) && forall|i: int|
        0 <= i < v->Array_0@.len() ==> (#[trigger] v->Array_0@[i]) is String
            && v->Array_0@[i]->String_0@ == args[0]->Object_0@[i].0@)
}

/// What `values` returns: an object's values, in insertion order.
pub open spec fn values_spec(args: Seq<Value>, r: Result<Value, Error>) -> bool {
    &&& (!(args.len() == 1 && args[0] is Object) ==> (r matches Err(e) && e.message@ == shape_message("values"@, "one object"@, args)))
    &&& (r is Ok <==> args.len() == 1 && args[0] is Object)
    &&& (r matches Ok(v) ==> v is Array && v->Array_0@.len() == size_of(args[0]) && forall|i: int|
        0 <= i < v->Array_0@.len() ==> args[0]->Object_0@[i].1.same(#[trigger] v->Array_0@[i]))
}

/// What `log` returns: the one argument, unchanged.
pub open spec fn log_spec(args: Seq<Value>, r: Result<Value, Error>) -> bool {
    &&& (!(args.len() == 1) ==> (r matches Err(e) && e.message@ == shape_message("log"@, "one value"@, args)))
    &&& (r is Ok <==> args.len() == 1)
    &&& (r matches Ok(v) ==> v == args[0])
}

/// What `string` returns: the scalar text of the one argument.
pub open spec fn string_spec(args: Seq<Value>, r: Result<Value, Error>) -> bool {
    &&& (r matches Err(e) ==> e.message@ == shape_message("string"@, "one scalar value"@, args))
    &&& (r is Ok <==> args.len() == 1 && display_of(args[0]) is Some)
    &&& (r matches Ok(v) ==> v is String && Some(v->String_0@) == display_of(args[0]))
}

/// What `float` returns: the one argument, where that is already a float.
pub open spec fn float_spec(args: Seq<Value>, r: Result<Value, Error>) -> bool {
    &&& (!(args.len() == 1 && args[0] is Float) ==> (r matches Err(e) && e.message@ == shape_message("float"@, "one float"@, args)))
    &&& (r is Ok <==> args.len() == 1 && args[0] is Float)
    &&& (r matches Ok(v) ==> v == args[0])
}

/// What `sum` returns: the sum of an array of integers that fits in 64 bits.
pub open spec fn sum_spec(args: Seq<Value>, r: Result<Value, Error>) -> bool {
    &&& (!(args.len() == 1 && args[0] is Array && all_ints(args[0]->Array_0@)) ==> (r matches Err(e) && e.message@ == shape_message("sum"@, "one array of integers"@, args)))
    &&& (r is Ok <==> args.len() == 1 && args[0] is Array && all_ints(args[0]->Array_0@)
        && fits_i64(int_sum(args[0]->Array_0@)))
    &&& (r matches Ok(v) ==> v == Value::Int(int_sum(args[0]->Array_0@) as i64))
}

/// `string` of an integer whose magnitude is below 2^53 succeeds and gives
/// the integer's canonical decimal rendering.
pub proof fn lemma_string_of_int(n: i64, r: Result<Value, Error>)
    requires
        -EXACT_INT_LIMIT <= n <= EXACT_INT_LIMIT,
        string_spec(seq![Value::Int(n)], r),
    ensures
        r matches Ok(v) && v is String && v->String_0@ == decimal(n as int),
{
}

/// `count`: the element count of its one array or object argument.
pub fn count(args: Vec<Value>) -> (r: Result<Value, Error>)
    ensures
        count_spec(args@, r),
{
    if args.len() != 1 {
        return Err(shape_error("count", "one array or object", &args));
    }
    match &args[0] {
        Value::Array(a) => Ok(Value::Int(a.len() as i64)),
        Value::Object(o) => Ok(Value::Int(o.len() as i64)),
        _ => Err(shape_error("count", "one array or object", &args)),
    }
}

/// `keys`: the keys of its one object argument, in insertion order.
pub fn keys(args: Vec<Value>) -> (r: Result<Value, Error>)
    ensures
        keys_spec(args@, r),
{
    if args.len() != 1 {
        return Err(shape_error("keys", "one object", &args));
    }
    match &args[0] {
        Value::Object(o) => {
            let mut r: Vec<Value> = Vec::new();
            let mut i: usize = 0;
            while i < o.len()
                invariant
                    i <= o@.len(),
                    r@.len() == i,
                    forall|j: int|
                        0 <= j < i ==> (#[trigger] r@[j]) is String && r@[j]->String_0@ == o@[j].0@,
                decreases o@.len() - i,
            {
                r.push(Value::String(o[i].0.clone()));
                i = i + 1;
            }
            Ok(Value::Array(r))
        },
        _ => Err(shape_error("keys", "one object", &args)),
    }
}

/// `values`: the values of its one object argument, in insertion order.
pub fn values(args: Vec<Value>) -> (r: Result<Value, Error>)
    ensures
        values_spec(args@, r),
{
    if args.len() != 1 {
        return Err(shape_error("values", "one object", &args));
    }
    match &args[0] {
        Value::Object(o) => {
            let mut r: Vec<Value> = Vec::new();
            let mut i: usize = 0;
            while i < o.len()
                invariant
                    i <= o@.len(),
                    r@.len() == i,
                    forall|j: int| 0 <= j < i ==> o@[j].1.same(#[trigger] r@[j]),
                decreases o@.len() - i,
            {
                r.push(o[i].1.copy());
                i = i + 1;
            }
            Ok(Value::Array(r))
        },
        _ => Err(shape_error("values", "one object", &args)),
    }
}

/// `log`: its one argument, unchanged. This library performs no I/O: a
/// host that wants the diagnostic line writes the returned value out.
pub fn log(args: Vec<Value>) -> (r: Result<Value, Error>)
    ensures
        log_spec(args@, r),
{
    if args.len() != 1 {
        return Err(shape_error("log", "one value", &args));
    }
    let mut args = args;
    match args.pop() {
        Some(v) => Ok(v),
        None => Err(fail("log expects one value")),
    }
}

/// `string`: the scalar text of its one argument.
pub fn string(args: Vec<Value>) -> (r: Result<Value, Error>)
    ensures
        string_spec(args@, r),
{
    if args.len() != 1 {
        return Err(shape_error("string", "one scalar value", &args));
    }
    match args[0].to_string() {
        Some(s) => Ok(Value::String(s)),
        None => Err(shape_error("string", "one scalar value", &args)),
    }
}

/// `float`: its one argument where that is already a float. This library
/// holds floats only as bit patterns and does no floating-point work, so it
/// converts neither strings nor integers.
pub fn float(args: Vec<Value>) -> (r: Result<Value, Error>)
    ensures
        float_spec(args@, r),
{
    if args.len() != 1 {
        return Err(shape_error("float", "one float", &args));
    }
    match &args[0] {
        Value::Float(x) => Ok(Value::Float(*x)),
        _ => Err(shape_error("float", "one float", &args)),
    }
}

/// `sum`: the sum of its one argument, an array of integers.
pub fn sum(args: Vec<Value>) -> (r: Result<Value, Error>)
    ensures
        sum_spec(args@, r),
{
    if args.len() != 1 {
        return Err(shape_error("sum", "one array of integers", &args));
    }
    match &args[0] {
        Value::Array(a) => {
            let mut total: i128 = 0;
            let mut i: usize = 0;
            while i < a.len()
                invariant
                    args@.len() == 1,
                    args@[0] is Array,
                    args@[0]->Array_0 == *a,
                    i <= a@.len(),
                    all_ints(a@.subrange(0, i as int)),
                    total == int_sum(a@.subrange(0, i as int)),
                    -(i as int) * 0x8000_0000_0000_0000 <= total <= (i as int) * 0x8000_0000_0000_0000,
                decreases a@.len() - i,
            {
                assert(a@.subrange(0, i + 1).drop_last() =~= a@.subrange(0, i as int));
                match &a[i] {
                    Value::Int(n) => {
                        proof {
                            assert((i as int) * 0x8000_0000_0000_0000 + 0x8000_0000_0000_0000
                                <= 0x8000_0000_0000_0000 * 0x1_0000_0000_0000_0000) by (nonlinear_arith)
                                requires i < 0x1_0000_0000_0000_0000;
                        }
                        total = total + *n as i128;
                        proof {
                            assert((i as int + 1) * 0x8000_0000_0000_0000
                                == (i as int) * 0x8000_0000_0000_0000 + 0x8000_0000_0000_0000) by (nonlinear_arith);
                        }
                    },
                    _ => {
                        assert(!(a@[i as int] is Int));
                        assert(!all_ints(a@));
                        return Err(shape_error("sum", "one array of integers", &args));
                    },
                }
                i = i + 1;
            }
            assert(a@.subrange(0, a@.len() as int) =~= a@);
            if total < i64::MIN as i128 || total > i64::MAX as i128 {
                return Err(fail("sum overflows a 64-bit integer"));
            }
            Ok(Value::Int(total as i64))
        },
        _ => Err(shape_error("sum", "one array of integers", &args)),
    }
}

} // verus!

verus! {

/// The text of a string or identifier used as an object key.
pub open spec fn key_text(v: Value) -> Seq<char> {
    match v {
        Value::String(s) => s@,
        Value::Ident(s) => s@,
        _ => Seq::empty(),
    }
}

/// The position that an integer index denotes in an array of length `len`:
/// a negative index counts from the end.
pub open spec fn position(len: int, k: int) -> int {
    if k < 0 { len + k } else { k }
}

/// What indexing `target` by `key` gives: an array element by position, an
/// object value by key, or null where there is none.
pub open spec fn index_spec(target: Value, key: Value, r: Result<Value, Error>) -> bool {
    &&& (r is Ok <==> target is Null || (target is Array && key is Int)
        || (target is Object && (key is String || key is Ident)))
    &&& (r matches Ok(v) ==> match target {
        Value::Array(a) => {
            let j = position(a@.len() as int, key->Int_0 as int);
            if 0 <= j < a@.len() { a@[j].same(v) } else { v is Null }
        },
        Value::Object(o) => {
            ||| exists|i: int| 0 <= i < o@.len() && (#[trigger] o@[i]).0@ == key_text(key) && o@[i].1.same(v)
            ||| (v is Null && forall|i: int| 0 <= i < o@.len() ==> (#[trigger] o@[i]).0@ != key_text(key))
        },
        _ => v is Null,
    })
}

/// Indexes a value: the routine shared by subscripts and the `index` builtin.
pub fn index_value(target: &Value, key: &Value) -> (r: Result<Value, Error>)
    ensures
        index_spec(*target, *key, r),
{
    match target {
        Value::Null => Ok(Value::Null),
        Value::Array(a) => match key {
            Value::Int(k) => {
                let len = a.len() as i128;
                let j: i128 = if *k < 0 { len + *k as i128 } else { *k as i128 };
                if 0 <= j && j < len {
                    Ok(a[j as usize].copy())
                } else {
                    Ok(Value::Null)
                }
            },
            _ => Err(fail("an array is indexed by an integer")),
        },
        Value::Object(o) => {
            let k: &String = match key {
                Value::String(s) => s,
                Value::Ident(s) => s,
                _ => { return Err(fail("an object is indexed by a string")); },
            };
            let mut i: usize = 0;
            while i < o.len()
                invariant
                    *target is Object,
                    target->Object_0 == *o,
                    i <= o@.len(),
                    key_text(*key) == k@,
                    *key is String || *key is Ident,
                    forall|j: int| 0 <= j < i ==> (#[trigger] o@[j]).0@ != k@,
                decreases o@.len() - i,
            {
                if same_chars(o[i].0.as_str(), k.as_str()) {
                    let v = o[i].1.copy();
                    assert(o@[i as int].0@ == key_text(*key));
                    return Ok(v);
                }
                i = i + 1;
            }
            Ok(Value::Null)
        },
        _ => Err(fail("only arrays and objects can be indexed")),
    }
}

/// What `index` returns: its last argument indexed by its first.
pub open spec fn index_call_spec(args: Seq<Value>, r: Result<Value, Error>) -> bool {
    &&& (args.len() != 2 ==> r is Err)
    &&& (args.len() == 2 ==> index_spec(args[1], args[0], r))
}

/// `index key target`: the same as the subscript `target[key]`. It takes
/// exactly a key and a target, as the subscript it shares its routine with
/// does; a piped value arrives as the target.
pub fn index(args: Vec<Value>) -> (r: Result<Value, Error>)
    ensures
        index_call_spec(args@, r),
{
    if args.len() != 2 {
        return Err(fail("index expects a key and a value"));
    }
    index_value(&args[1], &args[0])
}

} // verus!
