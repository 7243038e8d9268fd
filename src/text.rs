use vstd::prelude::*;

verus! {

/// A query error carrying a human-readable message.
#[derive(Debug)]
pub struct Error {
    pub message: String,
}

impl Error {
    pub fn query(message: String) -> (r: Error)
        ensures
            r.message@ == message@,
    {
        Error { message }
    }
}

/// A query error with a fixed message.
pub fn fail(message: &str) -> (r: Error)
    ensures
        r.message@ == message@,
{
    Error { message: String::from_str(message) }
}

/// Whether two string slices hold the same characters.
pub fn same_chars(a: &str, b: &str) -> (r: bool)
    ensures
        r == (a@ == b@),
{
    let n = a.unicode_len();
    let m = b.unicode_len();
    if n != m {
        return false;
    }
    let mut i: usize = 0;
    while i < n
        invariant
            n == a@.len(),
            m == b@.len(),
            n == m,
            i <= n,
            forall|j: int| 0 <= j < i ==> a@[j] == b@[j],
        decreases n - i,
    {
        if a.get_char(i) != b.get_char(i) {
            return false;
        }
        i = i + 1;
    }
    assert(a@ =~= b@);
    true
}

/// A fresh string holding `a` followed by `b`.
pub fn concat_str(a: &str, b: &str) -> (r: String)
    ensures
        r@ == a@ + b@,
{
    let mut s = String::from_str(a);
    s.append(b);
    s
}

} // verus!
