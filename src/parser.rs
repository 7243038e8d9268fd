use vstd::prelude::*;

use crate::node::{Node, Rule};
use crate::text::{fail, same_chars, Error};

verus! {

/// How deeply a query may nest before parsing fails cleanly.
pub const MAX_NESTING: u32 = 200;

/// A node is well formed over the source `s`: its span lies in `s`, its
/// text is the source under its span, and each child lies within it and is
/// well formed in turn.
pub open spec fn wf(n: Node, s: Seq<char>) -> bool
    decreases n,
{
    &&& n.start <= n.end <= s.len()
    &&& n.text@ == s.subrange(n.start as int, n.end as int)
    &&& forall|i: int|
        0 <= i < n.children@.len() ==> n.start <= (#[trigger] n.children@[i]).start && n.children@[i].end
            <= n.end && wf(n.children@[i], s)
}

/// A node is well formed and lies within `[lo, hi)`.
pub open spec fn within(n: Node, s: Seq<char>, lo: int, hi: int) -> bool {
    lo <= n.start && n.end <= hi && wf(n, s)
}

/// Every node of the list lies within `[lo, hi)`.
pub open spec fn all_within(ns: Seq<Node>, s: Seq<char>, lo: int, hi: int) -> bool {
    forall|i: int| 0 <= i < ns.len() ==> within(#[trigger] ns[i], s, lo, hi)
}

/// The source of a query: its text and its characters.
pub struct Source<'a> {
    pub text: &'a str,
    pub chars: Vec<char>,
}

impl<'a> Source<'a> {
    pub open spec fn inv(&self) -> bool {
        &&& self.chars@ == self.text@
        &&& self.chars@.len() <= usize::MAX
    }

    pub open spec fn len(&self) -> nat {
        self.chars@.len()
    }

    pub fn new(text: &'a str) -> (r: Source<'a>)
        ensures
            r.inv(),
            r.text == text,
    {
        let n = text.unicode_len();
        let mut chars: Vec<char> = Vec::new();
        let mut i: usize = 0;
        while i < n
            invariant
                n == text@.len(),
                i <= n,
                chars@ == text@.subrange(0, i as int),
            decreases n - i,
        {
            chars.push(text.get_char(i));
            assert(chars@ =~= text@.subrange(0, i + 1));
            i = i + 1;
        }
        assert(chars@ =~= text@);
        Source { text, chars }
    }

    fn at(&self, i: usize) -> (r: Option<char>)
        requires
            self.inv(),
        ensures
            i < self.len() ==> r == Some(self.chars@[i as int]),
            i >= self.len() ==> r is None,
    {
        if i < self.chars.len() {
            Some(self.chars[i])
        } else {
            None
        }
    }

    fn is(&self, i: usize, c: char) -> (r: bool)
        requires
            self.inv(),
        ensures
            r == (i < self.len() && self.chars@[i as int] == c),
    {
        i < self.chars.len() && self.chars[i] == c
    }

    fn node(&self, rule: Rule, start: usize, end: usize, children: Vec<Node>) -> (r: Node)
        requires
            self.inv(),
            start <= end <= self.len(),
            all_within(children@, self.chars@, start as int, end as int),
        ensures
            within(r, self.chars@, start as int, end as int),
            r.rule == rule,
            r.start == start,
            r.end == end,
            r.children@ == children@,
    {
        let text = String::from_str(self.text.substring_char(start, end));
        let r = Node::new(rule, text, start, end, children);
        assert forall|i: int| 0 <= i < r.children@.len() implies r.start <= (#[trigger] r.children@[i]).start
            && r.children@[i].end <= r.end && wf(r.children@[i], self.chars@) by {
            assert(within(children@[i], self.chars@, start as int, end as int));
        }
        r
    }

    fn skip_ws(&self, pos: usize) -> (r: usize)
        requires
            self.inv(),
            pos <= self.len(),
        ensures
            pos <= r <= self.len(),
    {
        let mut p = pos;
        while p < self.chars.len() && is_ws(self.chars[p])
            invariant
                self.inv(),
                pos <= p <= self.chars@.len(),
            decreases self.chars@.len() - p,
        {
            p = p + 1;
        }
        p
    }

    fn words_equal(&self, start: usize, end: usize, word: &str) -> (r: bool)
        requires
            self.inv(),
            start <= end <= self.len(),
        ensures
            r == (self.chars@.subrange(start as int, end as int) == word@),
    {
        same_chars(self.text.substring_char(start, end), word)
    }
}

impl<'a> Source<'a> {
    /// A word: `null`, `true`, `false`, or an identifier.
    fn parse_word(&self, pos: usize) -> (r: Result<(Node, usize), Error>)
        requires
            self.inv(),
            pos <= self.len(),
        ensures
            r matches Ok((n, q)) ==> q <= self.len() && within(n, self.chars@, pos as int, q as int),
    {
        let mut p = pos;
        while p < self.chars.len() && is_ident_char(self.chars[p])
            invariant
                self.inv(),
                pos <= p <= self.chars@.len(),
            decreases self.chars@.len() - p,
        {
            p = p + 1;
        }
        if p == pos {
            return Err(fail("expected a name"));
        }
        let rule = if self.words_equal(pos, p, "null") {
            Rule::Null
        } else if self.words_equal(pos, p, "true") || self.words_equal(pos, p, "false") {
            Rule::Bool
        } else {
            Rule::Ident
        };
        Ok((self.node(rule, pos, p, Vec::new()), p))
    }

    /// A number: an optional `-`, digits, an optional fraction and exponent.
    fn parse_number(&self, pos: usize) -> (r: Result<(Node, usize), Error>)
        requires
            self.inv(),
            pos <= self.len(),
        ensures
            r matches Ok((n, q)) ==> q <= self.len() && within(n, self.chars@, pos as int, q as int),
    {
        let mut p = pos;
        if self.is(p, '-') {
            p = p + 1;
        }
        let digits_start = p;
        p = self.skip_digits(p);
        if p == digits_start {
            return Err(fail("expected a digit"));
        }
        if self.is(p, '.') {
            let q = self.skip_digits(p + 1);
            if q == p + 1 {
                return Err(fail("expected a digit after the decimal point"));
            }
            p = q;
        }
        if self.is(p, 'e') || self.is(p, 'E') {
            let mut q = p + 1;
            if self.is(q, '+') || self.is(q, '-') {
                q = q + 1;
            }
            let e = self.skip_digits(q);
            if e == q {
                return Err(fail("expected a digit in the exponent"));
            }
            p = e;
        }
        Ok((self.node(Rule::Number, pos, p, Vec::new()), p))
    }

    fn skip_digits(&self, pos: usize) -> (r: usize)
        requires
            self.inv(),
            pos <= self.len(),
        ensures
            pos <= r <= self.len(),
    {
        let mut p = pos;
        while p < self.chars.len() && is_digit(self.chars[p])
            invariant
                self.inv(),
                pos <= p <= self.chars@.len(),
            decreases self.chars@.len() - p,
        {
            p = p + 1;
        }
        p
    }

    /// A string literal in double quotes; a backslash escapes the next character.
    fn parse_string(&self, pos: usize) -> (r: Result<(Node, usize), Error>)
        requires
            self.inv(),
            pos <= self.len(),
        ensures
            r matches Ok((n, q)) ==> q <= self.len() && within(n, self.chars@, pos as int, q as int),
    {
        if !self.is(pos, '"') {
            return Err(fail("expected a string"));
        }
        let mut p = pos + 1;
        loop
            invariant
                self.inv(),
                pos < p <= self.chars@.len(),
            decreases self.chars@.len() - p,
        {
            match self.at(p) {
                None => { return Err(fail("unterminated string")); },
                Some('"') => {
                    let inner = self.node(Rule::Inner, pos + 1, p, Vec::new());
                    let mut children: Vec<Node> = Vec::new();
                    children.push(inner);
                    return Ok((self.node(Rule::String, pos, p + 1, children), p + 1));
                },
                Some('\\') => {
                    if p + 1 >= self.chars.len() {
                        return Err(fail("unterminated string"));
                    }
                    p = p + 2;
                },
                Some(_) => { p = p + 1; },
            }
        }
    }

    /// A primary value: a word, number, string, `@`, array, object, or an
    /// expression in parentheses.
    fn parse_primary(&self, pos: usize, fuel: u32) -> (r: Result<(Node, usize), Error>)
        requires
            self.inv(),
            pos <= self.len(),
        ensures
            r matches Ok((n, q)) ==> q <= self.len() && within(n, self.chars@, pos as int, q as int),
        decreases fuel, 0int,
    {
        if fuel == 0 {
            return Err(fail("query nests too deeply"));
        }
        match self.at(pos) {
            None => Err(fail("unexpected end of query")),
            Some(c) => {
                if c == '@' {
                    Ok((self.node(Rule::At, pos, pos + 1, Vec::new()), pos + 1))
                } else if c == '"' {
                    self.parse_string(pos)
                } else if is_digit(c) || c == '-' {
                    self.parse_number(pos)
                } else if is_ident_start(c) {
                    self.parse_word(pos)
                } else if c == '[' {
                    self.parse_array(pos, fuel - 1)
                } else if c == '{' {
                    self.parse_object(pos, fuel - 1)
                } else if c == '(' {
                    let p = self.skip_ws(pos + 1);
                    match self.parse_expr(p, fuel - 1) {
                        Ok((n, q)) => {
                            let q = self.skip_ws(q);
                            if self.is(q, ')') {
                                Ok((n, q + 1))
                            } else {
                                Err(fail("expected `)`"))
                            }
                        },
                        Err(e) => Err(e),
                    }
                } else {
                    Err(fail("unexpected character"))
                }
            },
        }
    }

    /// An array literal: expressions between brackets, separated by commas.
    fn parse_array(&self, pos: usize, fuel: u32) -> (r: Result<(Node, usize), Error>)
        requires
            self.inv(),
            pos <= self.len(),
        ensures
            r matches Ok((n, q)) ==> q <= self.len() && within(n, self.chars@, pos as int, q as int),
        decreases fuel, 0int,
    {
        if fuel == 0 {
            return Err(fail("query nests too deeply"));
        }
        if !self.is(pos, '[') {
            return Err(fail("expected `[`"));
        }
        let mut children: Vec<Node> = Vec::new();
        let mut p = self.skip_ws(pos + 1);
        if self.is(p, ']') {
            return Ok((self.node(Rule::Array, pos, p + 1, children), p + 1));
        }
        loop
            invariant
                self.inv(),
                fuel > 0,
                pos < p <= self.len(),
                all_within(children@, self.chars@, pos as int, p as int),
            decreases self.len() - p,
        {
            match self.parse_expr(p, fuel - 1) {
                Ok((n, q)) => {
                    children.push(n);
                    let q = self.skip_ws(q);
                    assert(all_within(children@, self.chars@, pos as int, q as int));
                    match self.at(q) {
                        Some(']') => {
                            return Ok((self.node(Rule::Array, pos, q + 1, children), q + 1));
                        },
                        Some(',') => {
                            let next = self.skip_ws(q + 1);
                            if next <= p {
                                return Err(fail("malformed array"));
                            }
                            p = next;
                        },
                        _ => { return Err(fail("expected `,` or `]`")); },
                    }
                },
                Err(e) => { return Err(e); },
            }
        }
    }

    /// An object literal: `key: value` entries between braces.
    fn parse_object(&self, pos: usize, fuel: u32) -> (r: Result<(Node, usize), Error>)
        requires
            self.inv(),
            pos <= self.len(),
        ensures
            r matches Ok((n, q)) ==> q <= self.len() && within(n, self.chars@, pos as int, q as int),
        decreases fuel, 0int,
    {
        if fuel == 0 {
            return Err(fail("query nests too deeply"));
        }
        if !self.is(pos, '{') {
            return Err(fail("expected `{`"));
        }
        let mut children: Vec<Node> = Vec::new();
        let mut p = self.skip_ws(pos + 1);
        if self.is(p, '}') {
            return Ok((self.node(Rule::Object, pos, p + 1, children), p + 1));
        }
        loop
            invariant
                self.inv(),
                fuel > 0,
                pos < p <= self.len(),
                all_within(children@, self.chars@, pos as int, p as int),
            decreases self.len() - p,
        {
            match self.parse_keyval(p, fuel - 1) {
                Ok((n, q)) => {
                    children.push(n);
                    let q = self.skip_ws(q);
                    assert(all_within(children@, self.chars@, pos as int, q as int));
                    match self.at(q) {
                        Some('}') => {
                            return Ok((self.node(Rule::Object, pos, q + 1, children), q + 1));
                        },
                        Some(',') => {
                            let next = self.skip_ws(q + 1);
                            if next <= p {
                                return Err(fail("malformed object"));
                            }
                            p = next;
                        },
                        _ => { return Err(fail("expected `,` or `}`")); },
                    }
                },
                Err(e) => { return Err(e); },
            }
        }
    }

    /// One object entry: a name or string key, a colon, and an expression.
    fn parse_keyval(&self, pos: usize, fuel: u32) -> (r: Result<(Node, usize), Error>)
        requires
            self.inv(),
            pos <= self.len(),
        ensures
            r matches Ok((n, q)) ==> q <= self.len() && within(n, self.chars@, pos as int, q as int),
        decreases fuel, 0int,
    {
        if fuel == 0 {
            return Err(fail("query nests too deeply"));
        }
        let key = if self.is(pos, '"') {
            self.parse_string(pos)
        } else {
            self.parse_word(pos)
        };
        match key {
            Ok((k, p)) => {
                let p = self.skip_ws(p);
                if !self.is(p, ':') {
                    return Err(fail("expected `:`"));
                }
                let p = self.skip_ws(p + 1);
                match self.parse_expr(p, fuel - 1) {
                    Ok((v, q)) => {
                        let mut children: Vec<Node> = Vec::new();
                        children.push(k);
                        children.push(v);
                        Ok((self.node(Rule::Keyval, pos, q, children), q))
                    },
                    Err(e) => Err(e),
                }
            },
            Err(e) => Err(e),
        }
    }

    /// A primary value followed by any number of `[index]` subscripts.
    fn parse_postfix(&self, pos: usize, fuel: u32) -> (r: Result<(Node, usize), Error>)
        requires
            self.inv(),
            pos <= self.len(),
        ensures
            r matches Ok((n, q)) ==> q <= self.len() && within(n, self.chars@, pos as int, q as int),
        decreases fuel, 1int,
    {
        match self.parse_primary(pos, fuel) {
            Ok((base, p)) => {
                if !self.is(p, '[') {
                    return Ok((base, p));
                }
                if fuel == 0 {
                    return Err(fail("query nests too deeply"));
                }
                let mut children: Vec<Node> = Vec::new();
                children.push(base);
                let mut p = p;
                while self.is(p, '[')
                    invariant
                        self.inv(),
                        fuel > 0,
                        pos <= p <= self.len(),
                        all_within(children@, self.chars@, pos as int, p as int),
                    decreases self.len() - p,
                {
                    let i = self.skip_ws(p + 1);
                    match self.parse_expr(i, fuel - 1) {
                        Ok((n, q)) => {
                            let q = self.skip_ws(q);
                            if !self.is(q, ']') {
                                return Err(fail("expected `]`"));
                            }
                            children.push(n);
                            p = q + 1;
                        },
                        Err(e) => { return Err(e); },
                    }
                }
                Ok((self.node(Rule::IndexedValue, pos, p, children), p))
            },
            Err(e) => Err(e),
        }
    }

    /// Values joined by `+`. With at least one operator the node spans the
    /// whitespace after its last operand.
    fn parse_arith(&self, pos: usize, fuel: u32) -> (r: Result<(Node, usize), Error>)
        requires
            self.inv(),
            pos <= self.len(),
        ensures
            r matches Ok((n, q)) ==> q <= self.len() && within(n, self.chars@, pos as int, q as int),
        decreases fuel, 2int,
    {
        match self.parse_postfix(pos, fuel) {
            Ok((first, p)) => {
                let q = self.skip_ws(p);
                if !self.is(q, '+') {
                    return Ok((first, p));
                }
                let mut children: Vec<Node> = Vec::new();
                children.push(first);
                let mut p = p;
                let mut q = q;
                while self.is(q, '+')
                    invariant
                        self.inv(),
                        pos <= p <= q <= self.len(),
                        all_within(children@, self.chars@, pos as int, p as int),
                    decreases self.len() - q,
                {
                    let op = self.node(Rule::PlusOp, q, q + 1, Vec::new());
                    children.push(op);
                    let s = self.skip_ws(q + 1);
                    match self.parse_postfix(s, fuel) {
                        Ok((n, e)) => {
                            children.push(n);
                            p = e;
                            q = self.skip_ws(e);
                        },
                        Err(err) => { return Err(err); },
                    }
                }
                Ok((self.node(Rule::InfixExpr, pos, q, children), q))
            },
            Err(e) => Err(e),
        }
    }

    /// An expression: a call, where a name or a parenthesized expression is
    /// followed by whitespace and arguments, or else a sum of values.
    pub fn parse_expr(&self, pos: usize, fuel: u32) -> (r: Result<(Node, usize), Error>)
        requires
            self.inv(),
            pos <= self.len(),
        ensures
            r matches Ok((n, q)) ==> q <= self.len() && within(n, self.chars@, pos as int, q as int),
        decreases fuel, 3int,
    {
        let callee = match self.at(pos) {
            Some(c) => {
                if is_ident_start(c) {
                    match self.parse_word(pos) {
                        Ok((n, p)) => if n.rule == Rule::Ident { Some((n, p)) } else { None },
                        Err(_) => None,
                    }
                } else if c == '(' {
                    match self.parse_primary(pos, fuel) {
                        Ok(np) => Some(np),
                        Err(e) => { return Err(e); },
                    }
                } else {
                    None
                }
            },
            None => None,
        };
        match callee {
            Some((head, p)) => {
                let q = self.skip_ws(p);
                let is_call = q > p && match self.at(q) {
                    Some(c) => starts_arg(c),
                    None => false,
                };
                if !is_call {
                    return self.parse_arith(pos, fuel);
                }
                if fuel == 0 {
                    return Err(fail("query nests too deeply"));
                }
                let mut children: Vec<Node> = Vec::new();
                children.push(head);
                let mut p = p;
                let mut q = q;
                loop
                    invariant
                        self.inv(),
                        fuel > 0,
                        pos <= p <= q < self.len(),
                        all_within(children@, self.chars@, pos as int, p as int),
                    decreases self.len() - q,
                {
                    match self.parse_arith(q, fuel - 1) {
                        Ok((n, e)) => {
                            children.push(n);
                            p = e;
                        },
                        Err(err) => { return Err(err); },
                    }
                    let next = self.skip_ws(p);
                    let spaced = next > p || (p > 0 && is_ws(self.chars[p - 1]));
                    let more = spaced && next > q && match self.at(next) {
                        Some(c) => starts_arg(c),
                        None => false,
                    };
                    if !more {
                        return Ok((self.node(Rule::Function, pos, p, children), p));
                    }
                    q = next;
                }
            },
            None => self.parse_arith(pos, fuel),
        }
    }
}

/// Parses a query: an expression followed by any number of `| expression`
/// stages. Returns the first expression and one pipe node per stage.
pub fn parse(query: &str) -> (r: Result<Vec<Node>, Error>)
    ensures
        r matches Ok(nodes) ==> nodes@.len() >= 1 && all_within(nodes@, query@, 0, query@.len() as int),
{
    let src = Source::new(query);
    let mut nodes: Vec<Node> = Vec::new();
    let p = src.skip_ws(0);
    let mut p = match src.parse_expr(p, MAX_NESTING) {
        Ok((n, q)) => {
            nodes.push(n);
            q
        },
        Err(e) => { return Err(e); },
    };
    loop
        invariant
            src.inv(),
            src.text == query,
            p <= src.len(),
            nodes@.len() >= 1,
            all_within(nodes@, src.chars@, 0, p as int),
        decreases src.len() - p,
    {
        let q = src.skip_ws(p);
        if !src.is(q, '|') {
            if q != src.chars.len() {
                return Err(fail("unexpected input after the query"));
            }
            assert(all_within(nodes@, query@, 0, query@.len() as int));
            return Ok(nodes);
        }
        let s = src.skip_ws(q + 1);
        match src.parse_expr(s, MAX_NESTING) {
            Ok((n, e)) => {
                let end = src.skip_ws(e);
                let mut children: Vec<Node> = Vec::new();
                children.push(n);
                let pipe = src.node(Rule::Pipe, q, end, children);
                nodes.push(pipe);
                p = end;
            },
            Err(err) => { return Err(err); },
        }
    }
}

pub open spec fn spec_is_ws(c: char) -> bool {
    c == ' ' || c == '\t' || c == '\n' || c == '\r'
}

fn is_ws(c: char) -> (r: bool)
    ensures
        r == spec_is_ws(c),
{
    c == ' ' || c == '\t' || c == '\n' || c == '\r'
}

fn is_ident_start(c: char) -> bool {
    ('a' <= c && c <= 'z') || ('A' <= c && c <= 'Z') || c == '_'
}

fn is_ident_char(c: char) -> bool {
    is_ident_start(c) || is_digit(c)
}

fn is_digit(c: char) -> bool {
    '0' <= c && c <= '9'
}

/// Whether a character can begin an argument of a call.
fn starts_arg(c: char) -> bool {
    is_ident_start(c) || is_digit(c) || c == '-' || c == '"' || c == '@' || c == '[' || c == '{' || c == '('
}

} // verus!
