use vstd::prelude::*;

use crate::node::Node;

verus! {

/// A runtime value of the query language.
///
/// A floating-point number is held as its IEEE-754 binary64 bit pattern.
/// An object keeps its entries in insertion order, with unique keys.
#[derive(Debug, PartialEq)]
pub enum Value {
    Null,
    Boolean(bool),
    Int(i64),
    Float(u64),
    String(String),
    Ident(String),
    Array(Vec<Value>),
    Object(Vec<(String, Value)>),
    Function(Node),
}

/// The largest magnitude below which every integer widens to a float exactly.
pub const EXACT_INT_LIMIT: i64 = 9007199254740991;

/// The character of a decimal digit.
pub open spec fn digit_char(d: nat) -> char {
    if d == 0 { '0' } else if d == 1 { '1' } else if d == 2 { '2' } else if d == 3 { '3' }
    else if d == 4 { '4' } else if d == 5 { '5' } else if d == 6 { '6' } else if d == 7 { '7' }
    else if d == 8 { '8' } else { '9' }
}

/// The decimal digits of `n`, most significant first, without leading zeros.
pub open spec fn digits_of(n: nat) -> Seq<char>
    decreases n,
{
    if n < 10 {
        seq![digit_char(n)]
    } else {
        digits_of(n / 10).push(digit_char(n % 10))
    }
}

/// The canonical decimal rendering of an integer.
pub open spec fn decimal(n: int) -> Seq<char> {
    if n < 0 {
        seq!['-'] + digits_of((-n) as nat)
    } else {
        digits_of(n as nat)
    }
}

/// The scalar rendering of a value, where this library defines one.
pub open spec fn display_of(v: Value) -> Option<Seq<char>> {
    match v {
        Value::Null => Some("null"@),
        Value::Boolean(b) => Some(if b { "true"@ } else { "false"@ }),
        Value::Int(n) => if -EXACT_INT_LIMIT <= n <= EXACT_INT_LIMIT {
            Some(decimal(n as int))
        } else {
            None
        },
        Value::String(s) => Some(s@),
        Value::Ident(s) => Some(s@),
        _ => None,
    }
}

fn digit_str(d: u64) -> (r: &'static str)
    requires
        d < 10,
    ensures
        r@ == seq![digit_char(d as nat)],
{
    if d == 0 { proof { reveal_strlit("0"); } "0" }
    else if d == 1 { proof { reveal_strlit("1"); } "1" }
    else if d == 2 { proof { reveal_strlit("2"); } "2" }
    else if d == 3 { proof { reveal_strlit("3"); } "3" }
    else if d == 4 { proof { reveal_strlit("4"); } "4" }
    else if d == 5 { proof { reveal_strlit("5"); } "5" }
    else if d == 6 { proof { reveal_strlit("6"); } "6" }
    else if d == 7 { proof { reveal_strlit("7"); } "7" }
    else if d == 8 { proof { reveal_strlit("8"); } "8" }
    else { proof { reveal_strlit("9"); } "9" }
}

/// Appends the decimal digits of `n` to `s`.
pub(crate) fn push_digits(s: &mut String, n: u64)
    ensures
        final(s)@ == old(s)@ + digits_of(n as nat),
    decreases n,
{
    if n < 10 {
        s.append(digit_str(n));
    } else {
        push_digits(s, n / 10);
        s.append(digit_str(n % 10));
        assert(digits_of(n as nat) == digits_of((n / 10) as nat).push(digit_char((n % 10) as nat)));
    }
}

/// Renders an integer in canonical decimal notation.
pub fn render_int(n: i64) -> (r: String)
    requires
        -EXACT_INT_LIMIT <= n <= EXACT_INT_LIMIT,
    ensures
        r@ == decimal(n as int),
{
    if n < 0 {
        proof { reveal_strlit("-"); }
        let mut s = String::from_str("-");
        push_digits(&mut s, (-n) as u64);
        s
    } else {
        let mut s = String::new();
        push_digits(&mut s, n as u64);
        assert(s@ =~= decimal(n as int));
        s
    }
}

impl Value {
    /// Two values agree variant by variant, text by text and, recursively,
    /// element by element.
    pub open spec fn same(self, other: Value) -> bool
        decreases self,
    {
        match (self, other) {
            (Value::Null, Value::Null) => true,
            (Value::Boolean(a), Value::Boolean(b)) => a == b,
            (Value::Int(a), Value::Int(b)) => a == b,
            (Value::Float(a), Value::Float(b)) => a == b,
            (Value::String(a), Value::String(b)) => a@ == b@,
            (Value::Ident(a), Value::Ident(b)) => a@ == b@,
            (Value::Array(a), Value::Array(b)) => {
                &&& a@.len() == b@.len()
                &&& forall|i: int| 0 <= i < a@.len() ==> (#[trigger] a@[i]).same(b@[i])
            },
            (Value::Object(a), Value::Object(b)) => {
                &&& a@.len() == b@.len()
                &&& forall|i: int|
                    0 <= i < a@.len() ==> (#[trigger] a@[i]).0@ == b@[i].0@ && a@[i].1.same(b@[i].1)
            },
            (Value::Function(a), Value::Function(b)) => a.same(b),
            _ => false,
        }
    }

    /// Every value is the same as itself.
    pub proof fn lemma_same_refl(self)
        ensures
            self.same(self),
        decreases self,
    {
        match self {
            Value::Array(a) => {
                assert forall|i: int| 0 <= i < a@.len() implies (#[trigger] a@[i]).same(a@[i]) by {
                    assert(decreases_to!(self => a));
                    a@[i].lemma_same_refl();
                }
            },
            Value::Object(o) => {
                assert forall|i: int| 0 <= i < o@.len() implies (#[trigger] o@[i]).0@ == o@[i].0@
                    && o@[i].1.same(o@[i].1) by {
                    assert(decreases_to!(self => o));
                    o@[i].1.lemma_same_refl();
                }
            },
            Value::Function(n) => n.lemma_same_refl(),
            _ => {},
        }
    }

    /// A deep copy of the value.
    pub fn copy(&self) -> (r: Value)
        ensures
            self.same(r),
        decreases self,
    {
        match self {
            Value::Null => Value::Null,
            Value::Boolean(b) => Value::Boolean(*b),
            Value::Int(n) => Value::Int(*n),
            Value::Float(x) => Value::Float(*x),
            Value::String(s) => Value::String(s.clone()),
            Value::Ident(s) => Value::Ident(s.clone()),
            Value::Array(a) => {
                let mut r: Vec<Value> = Vec::new();
                let mut i: usize = 0;
                while i < a.len()
                    invariant
                        *self is Array,
                        self->Array_0 == *a,
                        i <= a@.len(),
                        r@.len() == i,
                        forall|j: int| 0 <= j < i ==> (#[trigger] a@[j]).same(r@[j]),
                    decreases a@.len() - i,
                {
                    proof {
                        assert(decreases_to!(*self => self->Array_0));
                        assert(decreases_to!(*a => a@));
                        assert(decreases_to!(a@ => a@[i as int]));
                    }
                    r.push(a[i].copy());
                    i = i + 1;
                }
                Value::Array(r)
            },
            Value::Object(o) => {
                let mut r: Vec<(String, Value)> = Vec::new();
                let mut i: usize = 0;
                while i < o.len()
                    invariant
                        *self is Object,
                        self->Object_0 == *o,
                        i <= o@.len(),
                        r@.len() == i,
                        forall|j: int|
                            0 <= j < i ==> (#[trigger] o@[j]).0@ == r@[j].0@ && o@[j].1.same(r@[j].1),
                    decreases o@.len() - i,
                {
                    proof {
                        assert(decreases_to!(*self => self->Object_0));
                        assert(decreases_to!(*o => o@));
                        assert(decreases_to!(o@ => o@[i as int]));
                        assert(decreases_to!(o@[i as int] => o@[i as int].1));
                    }
                    let entry = (o[i].0.clone(), o[i].1.copy());
                    r.push(entry);
                    i = i + 1;
                }
                Value::Object(r)
            },
            Value::Function(n) => Value::Function(n.copy()),
        }
    }

    /// The scalar text of a value: `null`, `true`, `false`, an integer in
    /// decimal, or the raw text of a string or identifier. `None` where the
    /// value has no scalar rendering here: arrays, objects, function
    /// references, floats, and integers too large to widen to a float exactly.
    pub fn to_string(&self) -> (r: Option<String>)
        ensures
            r matches Some(s) ==> display_of(*self) == Some(s@),
            r is None ==> display_of(*self) is None,
    {
        match self {
            Value::Null => {
                proof { reveal_strlit("null"); }
                Some(String::from_str("null"))
            },
            Value::Boolean(b) => {
                if *b {
                    Some(String::from_str("true"))
                } else {
                    Some(String::from_str("false"))
                }
            },
            Value::Int(n) => {
                if -EXACT_INT_LIMIT <= *n && *n <= EXACT_INT_LIMIT {
                    Some(render_int(*n))
                } else {
                    None
                }
            },
            Value::String(s) => Some(s.clone()),
            Value::Ident(s) => Some(s.clone()),
            _ => None,
        }
    }
}

} // verus!
