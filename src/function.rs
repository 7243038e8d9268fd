use vstd::prelude::*;

use crate::text::{concat_str, same_chars, Error};

verus! {

/// Builtin functions of the query language.
pub enum Function {
    Count,
    Float,
    Index,
    Keys,
    Log,
    MapEach,
    String,
    Sum,
    Values,
}

/// The name under which a builtin is called in a query.
pub open spec fn name_of(f: Function) -> Seq<char> {
    match f {
        Function::Count => "count"@,
        Function::Float => "float"@,
        Function::Index => "index"@,
        Function::Keys => "keys"@,
        Function::Log => "log"@,
        Function::MapEach => "map"@,
        Function::String => "string"@,
        Function::Sum => "sum"@,
        Function::Values => "values"@,
    }
}

/// The builtin called by the name `s`, if any.
pub open spec fn resolve(s: Seq<char>) -> Option<Function> {
    if s == "count"@ { Some(Function::Count) }
    else if s == "float"@ { Some(Function::Float) }
    else if s == "index"@ { Some(Function::Index) }
    else if s == "keys"@ { Some(Function::Keys) }
    else if s == "log"@ { Some(Function::Log) }
    else if s == "map"@ { Some(Function::MapEach) }
    else if s == "string"@ { Some(Function::String) }
    else if s == "sum"@ { Some(Function::Sum) }
    else if s == "values"@ { Some(Function::Values) }
    else { None }
}

/// Whether some builtin is called by the name `s`.
pub open spec fn is_builtin_name(s: Seq<char>) -> bool {
    exists|f: Function| name_of(f) == s
}

impl Function {
    /// Whether the function reserves its first argument as an unevaluated lambda.
    pub open spec fn spec_takes_fn_arg(self) -> bool {
        self is MapEach
    }

    pub fn takes_fn_arg(&self) -> (r: bool)
        ensures
            r == self.spec_takes_fn_arg(),
    {
        match self {
            Function::MapEach => true,
            _ => false,
        }
    }

    /// Resolves a builtin by its exact, case-sensitive name.
    pub fn from_str(s: &str) -> (r: Result<Function, Error>)
        ensures
            r is Ok <==> is_builtin_name(s@),
            r matches Ok(f) ==> name_of(f) == s@ && resolve(s@) == Some(f),
            r is Err ==> resolve(s@) is None,
            r matches Err(e) ==> e.message@ == "unknown function "@ + s@,
    {
        if same_chars(s, "count") {
            assert(name_of(Function::Count) == s@);
            Ok(Function::Count)
        } else if same_chars(s, "float") {
            assert(name_of(Function::Float) == s@);
            Ok(Function::Float)
        } else if same_chars(s, "index") {
            assert(name_of(Function::Index) == s@);
            Ok(Function::Index)
        } else if same_chars(s, "keys") {
            assert(name_of(Function::Keys) == s@);
            Ok(Function::Keys)
        } else if same_chars(s, "log") {
            assert(name_of(Function::Log) == s@);
            Ok(Function::Log)
        } else if same_chars(s, "map") {
            assert(name_of(Function::MapEach) == s@);
            Ok(Function::MapEach)
        } else if same_chars(s, "string") {
            assert(name_of(Function::String) == s@);
            Ok(Function::String)
        } else if same_chars(s, "sum") {
            assert(name_of(Function::Sum) == s@);
            Ok(Function::Sum)
        } else if same_chars(s, "values") {
            assert(name_of(Function::Values) == s@);
            Ok(Function::Values)
        } else {
            assert forall|f: Function| name_of(f) != s@ by {
                match f {
                    Function::Count => {},
                    Function::Float => {},
                    Function::Index => {},
                    Function::Keys => {},
                    Function::Log => {},
                    Function::MapEach => {},
                    Function::String => {},
                    Function::Sum => {},
                    Function::Values => {},
                }
            }
            Err(Error::query(concat_str("unknown function ", s)))
        }
    }
}

/// Resolution succeeds exactly on the nine builtin names.
pub proof fn lemma_resolution(s: Seq<char>)
    ensures
        is_builtin_name(s) <==> (s == "count"@ || s == "float"@ || s == "index"@ || s == "keys"@
            || s == "log"@ || s == "map"@ || s == "string"@ || s == "sum"@ || s == "values"@),
{
    if s == "count"@ { assert(name_of(Function::Count) == s); }
    if s == "float"@ { assert(name_of(Function::Float) == s); }
    if s == "index"@ { assert(name_of(Function::Index) == s); }
    if s == "keys"@ { assert(name_of(Function::Keys) == s); }
    if s == "log"@ { assert(name_of(Function::Log) == s); }
    if s == "map"@ { assert(name_of(Function::MapEach) == s); }
    if s == "string"@ { assert(name_of(Function::String) == s); }
    if s == "sum"@ { assert(name_of(Function::Sum) == s); }
    if s == "values"@ { assert(name_of(Function::Values) == s); }
}

} // verus!
