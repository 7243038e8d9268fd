use vstd::prelude::*;

use crate::builtins::{
    count, count_spec, float, float_spec, index, index_call_spec, index_spec, index_value, keys, keys_spec,
    log, log_spec, string, string_spec, sum, sum_spec, values, values_spec,
};
use crate::function::{is_builtin_name, resolve, Function};
use crate::node::{Node, Rule};
use crate::parser::{all_within, parse};
use crate::text::{concat_str, fail, same_chars, Error};
use crate::value::Value;

verus! {

/// How deeply evaluation may nest before it fails cleanly with an error.
pub const MAX_DEPTH: u32 = 400;

/// Whether an explicit context reference `@` stands among the nodes.
pub open spec fn has_at(s: Seq<Node>) -> bool {
    exists|i: int| 0 <= i < s.len() && (#[trigger] s[i]).rule == Rule::At
}

/// Whether a node is a call: a bare identifier, or a function node whose
/// first child names the function.
pub open spec fn is_call(node: Node) -> bool {
    node.rule == Rule::Ident || (node.rule == Rule::Function && node.children@.len() >= 1)
}

/// The text that names the function of a call.
pub open spec fn call_name(node: Node) -> Seq<char> {
    if node.rule == Rule::Ident {
        node.text@
    } else {
        node.children@[0].text@
    }
}

/// The children from position `from` on.
pub open spec fn rest_of(children: Seq<Node>, from: int) -> Seq<Node> {
    children.subrange(from, children.len() as int)
}

/// The position of the first evaluated argument of a call to `f`: after the
/// name child of a function node and after the lambda of a higher-order builtin.
pub open spec fn first_arg(node: Node, f: Function) -> int {
    (if node.rule == Rule::Function { 1int } else { 0int }) + (if f.spec_takes_fn_arg() { 1int } else { 0int })
}

/// The argument list once the context step is done: the pipe context is
/// appended as one trailing argument unless an explicit `@` consumed it.
pub open spec fn threaded(args: Seq<Value>, consumed: bool, context: Option<Value>) -> Seq<Value> {
    if !consumed && context is Some {
        args.push(context->Some_0)
    } else {
        args
    }
}

/// Two optional values are both absent or both present and the same.
pub open spec fn opt_same(a: Option<Value>, b: Option<Value>) -> bool {
    match (a, b) {
        (None, None) => true,
        (Some(x), Some(y)) => x.same(y),
        _ => false,
    }
}

/// The context a child is evaluated with. Among the arguments of a call
/// (`at_only`) only an explicit `@` sees it; elsewhere every child does.
pub open spec fn child_ctx(child: Node, ctx: Option<Value>, at_only: bool) -> Option<Value> {
    if at_only && child.rule != Rule::At {
        None
    } else {
        ctx
    }
}

/// The optional lambda node, by value.
pub open spec fn opt_node(o: Option<&Node>) -> Option<Node> {
    match o {
        Some(n) => Some(*n),
        None => None,
    }
}

/// The nodes evaluate, left to right, to the values `vals`.
pub open spec fn evals_all(
    cs: Seq<Node>,
    data: Value,
    ctx: Option<Value>,
    at_only: bool,
    depth: nat,
    vals: Seq<Value>,
) -> bool
    decreases depth, 1int,
{
    &&& vals.len() == cs.len()
    &&& forall|i: int|
        0 <= i < cs.len() ==> expr_evals(
            #[trigger] cs[i],
            data,
            child_ctx(cs[i], ctx, at_only),
            depth,
            Ok::<Value, Error>(vals[i]),
        )
}

/// Left to right, the first node that fails gives the error `e`: every node
/// before it evaluates to a value.
pub open spec fn fails_first(
    cs: Seq<Node>,
    data: Value,
    ctx: Option<Value>,
    at_only: bool,
    depth: nat,
    e: Error,
) -> bool
    decreases depth, 2int,
{
    exists|k: int|
        0 <= k < cs.len() && (exists|vals: Seq<Value>| #![trigger vals.len()]
            evals_all(cs.subrange(0, k), data, ctx, at_only, depth, vals)) && expr_evals(
            #[trigger] cs[k],
            data,
            child_ctx(cs[k], ctx, at_only),
            depth,
            Err::<Value, Error>(e),
        )
}

/// The nodes evaluate to values and `r` is `Ok` of `build` applied to them,
/// or the first failing node's error.
pub open spec fn list_evals(cs: Seq<Node>, data: Value, ctx: Option<Value>, depth: nat, r: Result<Value, Error>) -> bool
    decreases depth, 3int,
{
    ||| (r matches Ok(v) && v is Array && evals_all(cs, data, ctx, false, depth, v->Array_0@))
    ||| (r matches Err(e) && fails_first(cs, data, ctx, false, depth, e))
}

/// The operands of an infix expression: its children at even positions.
pub open spec fn operands(cs: Seq<Node>) -> Seq<Node> {
    Seq::new(((cs.len() + 1) / 2) as nat, |i: int| cs[2 * i])
}

/// An infix expression alternates operands and `+` operators, starting and
/// ending with an operand.
pub open spec fn infix_shape(cs: Seq<Node>) -> bool {
    &&& cs.len() % 2 == 1
    &&& forall|i: int| 0 <= i < cs.len() && i % 2 == 1 ==> (#[trigger] cs[i]).rule == Rule::PlusOp
}

/// What adding two values gives: integers with overflow checked, strings
/// and arrays by concatenation.
pub open spec fn add_spec(a: Value, b: Value, r: Result<Value, Error>) -> bool {
    match (a, b) {
        (Value::Int(x), Value::Int(y)) => if i64::MIN <= x + y <= i64::MAX {
            r == Ok::<Value, Error>(Value::Int((x + y) as i64))
        } else {
            r is Err
        },
        (Value::String(x), Value::String(y)) => (r matches Ok(v) && v is String && v->String_0@ == x@ + y@),
        (Value::Array(x), Value::Array(y)) => (r matches Ok(v) && v is Array && v->Array_0@ == x@ + y@),
        _ => r is Err,
    }
}

/// One step of a left-to-right sum: add to the sum so far, unless it failed.
pub open spec fn add_step(p: Result<Value, Error>, x: Value, r: Result<Value, Error>) -> bool {
    match p {
        Ok(pv) => add_spec(pv, x, r),
        Err(e) => r == Err::<Value, Error>(e),
    }
}

/// Adding the values from left to right gives `r`; the first failing
/// addition ends it.
pub open spec fn add_fold(vals: Seq<Value>, r: Result<Value, Error>) -> bool
    decreases vals.len(),
{
    if vals.len() == 0 {
        r is Err
    } else if vals.len() == 1 {
        r == Ok::<Value, Error>(vals[0])
    } else {
        exists|p: Result<Value, Error>| add_fold(vals.drop_last(), p) && #[trigger] add_step(p, vals.last(), r)
    }
}

/// One step of a chain of subscripts: index the value so far, unless it failed.
pub open spec fn index_step(p: Result<Value, Error>, x: Value, r: Result<Value, Error>) -> bool {
    match p {
        Ok(pv) => index_spec(pv, x, r),
        Err(e) => r == Err::<Value, Error>(e),
    }
}

/// Indexing the first value by each of the others in turn gives `r`; the
/// first failing subscript ends it.
pub open spec fn index_fold(vals: Seq<Value>, r: Result<Value, Error>) -> bool
    decreases vals.len(),
{
    if vals.len() == 0 {
        r is Err
    } else if vals.len() == 1 {
        r == Ok::<Value, Error>(vals[0])
    } else {
        exists|p: Result<Value, Error>| index_fold(vals.drop_last(), p) && #[trigger] index_step(p, vals.last(), r)
    }
}

/// What a node evaluates to against `data` with the pipe context `ctx`,
/// given a nesting budget of `depth`.
pub open spec fn expr_evals(node: Node, data: Value, ctx: Option<Value>, depth: nat, r: Result<Value, Error>) -> bool
    decreases depth, 0int,
{
    if depth == 0 {
        r is Err
    } else {
        let d = (depth - 1) as nat;
        match node.rule {
            Rule::Null => r == Ok::<Value, Error>(Value::Null),
            Rule::At => (r matches Ok(v) && match ctx {
                Some(c) => c.same(v),
                None => data.same(v),
            }),
            Rule::Bool => r == Ok::<Value, Error>(Value::Boolean(node.text@ == "true"@)),
            Rule::Number => match literal_value(node.text@) {
                Some(n) => r == Ok::<Value, Error>(Value::Int(n)),
                None => r is Err,
            },
            Rule::String => (r matches Ok(v) && v is String && v->String_0@ == literal_text(node)),
            Rule::Function => if node.children@.len() == 0 {
                r is Err
            } else {
                exists|c: Option<Value>| #[trigger] opt_same(ctx, c) && call_evals(node, data, c, d, r)
            },
            Rule::Ident => if is_builtin_name(node.text@) {
                exists|c: Option<Value>| #[trigger] opt_same(ctx, c) && call_evals(node, data, c, d, r)
            } else if data is Object {
                exists|k: Value| k is Ident && k->Ident_0@ == node.text@ && #[trigger] index_spec(data, k, r)
            } else {
                (r matches Err(e) && e.message@ == "unknown function "@ + node.text@)
            },
            Rule::Array => list_evals(node.children@, data, ctx, d, r),
            Rule::InfixExpr => if !infix_shape(node.children@) {
                r is Err
            } else {
                ||| (exists|vals: Seq<Value>| evals_all(operands(node.children@), data, ctx, false, d, vals)
                    && #[trigger] add_fold(vals, r))
                ||| (r matches Err(e) && fails_first(operands(node.children@), data, ctx, false, d, e))
            },
            Rule::IndexedValue => if node.children@.len() == 0 {
                r is Err
            } else {
                ||| (exists|vals: Seq<Value>| evals_all(node.children@, data, ctx, false, d, vals)
                    && #[trigger] index_fold(vals, r))
                ||| (r matches Err(e) && fails_first(node.children@, data, ctx, false, d, e))
            },
            Rule::Object => (r is Ok ==> r->Ok_0 is Object && unique_keys(r->Ok_0->Object_0@)),
            _ => r is Err,
        }
    }
}

/// What a call evaluates to: the name resolves to a builtin; the children
/// after the name (and after the lambda of `map`) are evaluated left to
/// right, an explicit `@` with the context and every other child without;
/// the context is appended as the last argument unless an `@` consumed it;
/// the builtin is applied. The first failing child's error is passed on.
pub open spec fn call_evals(node: Node, data: Value, ctx: Option<Value>, depth: nat, r: Result<Value, Error>) -> bool
    decreases depth, 4int,
{
    if depth == 0 {
        r is Err
    } else {
        match resolve(call_name(node)) {
            None => (r matches Err(e) && e.message@ == "unknown function "@ + call_name(node)),
            Some(f) => {
                let from = first_arg(node, f);
                if from > node.children@.len() {
                    r is Err
                } else {
                    let cs = rest_of(node.children@, from);
                    let d = (depth - 1) as nat;
                    let lambda = if f.spec_takes_fn_arg() {
                        Some(node.children@[from - 1])
                    } else {
                        None
                    };
                    ||| (exists|args: Seq<Value>| evals_all(cs, data, ctx, true, d, args) && dispatch_evals(
                        f,
                        lambda,
                        #[trigger] threaded(args, has_at(cs), ctx),
                        data,
                        d,
                        r,
                    ))
                    ||| (r matches Err(e) && fails_first(cs, data, ctx, true, d, e))
                }
            },
        }
    }
}

/// What the builtin `f` returns on the arguments; `lambda` is the reserved
/// argument of `map`.
pub open spec fn dispatch_evals(
    f: Function,
    lambda: Option<Node>,
    args: Seq<Value>,
    data: Value,
    depth: nat,
    r: Result<Value, Error>,
) -> bool
    decreases depth, 3int,
{
    match f {
        Function::Count => count_spec(args, r),
        Function::Float => float_spec(args, r),
        Function::Index => index_call_spec(args, r),
        Function::Keys => keys_spec(args, r),
        Function::Log => log_spec(args, r),
        Function::String => string_spec(args, r),
        Function::Sum => sum_spec(args, r),
        Function::Values => values_spec(args, r),
        Function::MapEach => match lambda {
            Some(l) => map_evals(l, args, data, depth, r),
            None => r is Err,
        },
    }
}

/// What `map` returns: for one array argument, the lambda evaluated with
/// each element as its context, in input order, or the first failing
/// element's error; for any other arguments, an error.
pub open spec fn map_evals(l: Node, args: Seq<Value>, data: Value, depth: nat, r: Result<Value, Error>) -> bool
    decreases depth, 1int,
{
    if !(args.len() == 1 && args[0] is Array) {
        r is Err
    } else {
        let a = args[0]->Array_0@;
        ||| (r matches Ok(v) && v is Array && v->Array_0@.len() == a.len() && forall|i: int|
            0 <= i < a.len() ==> expr_evals(l, data, Some(a[i]), depth, Ok::<Value, Error>(#[trigger] v->Array_0@[i])))
        ||| (r matches Err(e) && exists|k: int| 0 <= k < a.len() && (exists|out: Seq<Value>| #![trigger out.len()] out.len() == k
            && forall|i: int| 0 <= i < k ==> expr_evals(l, data, Some(a[i]), depth, Ok::<Value, Error>(#[trigger] out[i])))
            && expr_evals(l, data, Some(#[trigger] a[k]), depth, Err::<Value, Error>(e)))
    }
}

/// Stage `n` of a query, given what the stages before it gave: its
/// expression with that value as context, unless they failed.
pub open spec fn stage_step(nodes: Seq<Node>, data: Value, n: int, p: Result<Value, Error>, r: Result<Value, Error>) -> bool {
    match p {
        Ok(v) => expr_evals(nodes[n - 1].children@[0], data, Some(v), MAX_DEPTH as nat, r),
        Err(e) => r == Err::<Value, Error>(e),
    }
}

/// The stages of a query up to `n` evaluate to `r`: the first without a
/// context, each later one with the value of the one before as its context.
pub open spec fn stages_eval(nodes: Seq<Node>, data: Value, n: int, r: Result<Value, Error>) -> bool
    decreases n,
{
    if n <= 1 {
        expr_evals(nodes[0], data, None, MAX_DEPTH as nat, r)
    } else {
        exists|p: Result<Value, Error>| stages_eval(nodes, data, n - 1, p) && #[trigger] stage_step(nodes, data, n, p, r)
    }
}

/// Whether every stage after the first is a pipe around one expression.
pub open spec fn pipes_ok(nodes: Seq<Node>) -> bool {
    forall|i: int| 1 <= i < nodes.len() ==> (#[trigger] nodes[i]).rule == Rule::Pipe && nodes[i].children@.len() == 1
}

/// What a parsed query evaluates to.
pub open spec fn query_evals(nodes: Seq<Node>, data: Value, r: Result<Value, Error>) -> bool {
    if nodes.len() == 0 || !pipes_ok(nodes) {
        r is Err
    } else {
        stages_eval(nodes, data, nodes.len() as int, r)
    }
}

/// The content of a string literal node: the text of its inner child.
pub open spec fn literal_text(node: Node) -> Seq<char> {
    if node.children@.len() > 0 {
        node.children@[0].text@
    } else {
        Seq::empty()
    }
}

proof fn lemma_evals_push(
    cs: Seq<Node>,
    data: Value,
    ctx: Option<Value>,
    at_only: bool,
    depth: nat,
    vals: Seq<Value>,
    c: Node,
    v: Value,
)
    requires
        evals_all(cs, data, ctx, at_only, depth, vals),
        expr_evals(c, data, child_ctx(c, ctx, at_only), depth, Ok::<Value, Error>(v)),
    ensures
        evals_all(cs.push(c), data, ctx, at_only, depth, vals.push(v)),
{
    assert forall|i: int| 0 <= i < cs.push(c).len() implies expr_evals(
        #[trigger] cs.push(c)[i],
        data,
        child_ctx(cs.push(c)[i], ctx, at_only),
        depth,
        Ok::<Value, Error>(vals.push(v)[i]),
    ) by {
        if i < cs.len() {
            assert(cs.push(c)[i] == cs[i]);
            assert(vals.push(v)[i] == vals[i]);
        }
    }
}

proof fn lemma_ctx_irrelevant(
    cs: Seq<Node>,
    data: Value,
    c1: Option<Value>,
    c2: Option<Value>,
    depth: nat,
    vals: Seq<Value>,
)
    requires
        !has_at(cs),
        evals_all(cs, data, c1, true, depth, vals),
    ensures
        evals_all(cs, data, c2, true, depth, vals),
{
    assert forall|i: int| 0 <= i < cs.len() implies expr_evals(
        #[trigger] cs[i],
        data,
        child_ctx(cs[i], c2, true),
        depth,
        Ok::<Value, Error>(vals[i]),
    ) by {
        assert(cs[i].rule != Rule::At);
        assert(child_ctx(cs[i], c1, true) == child_ctx(cs[i], c2, true));
    }
}

/// A call whose arguments hold no explicit `@` gives, with the context `v`,
/// what the same call gives without a context when one more argument that
/// evaluates to `v` is written at its end: the implicit context is the last
/// argument.
pub proof fn lemma_implicit_context_is_last_argument(
    call1: Node,
    call2: Node,
    lit: Node,
    f: Function,
    data: Value,
    v: Value,
    depth: nat,
    r: Result<Value, Error>,
)
    requires
        call1.rule == Rule::Function,
        call1.children@.len() >= 1,
        call2.rule == Rule::Function,
        call2.children@ == call1.children@.push(lit),
        resolve(call_name(call1)) == Some(f),
        first_arg(call1, f) <= call1.children@.len(),
        !has_at(rest_of(call1.children@, first_arg(call1, f))),
        lit.rule != Rule::At,
        depth > 0,
        expr_evals(lit, data, None, (depth - 1) as nat, Ok::<Value, Error>(v)),
        call_evals(call1, data, Some(v), depth, r),
    ensures
        call_evals(call2, data, None, depth, r),
{
    let from = first_arg(call1, f);
    let d = (depth - 1) as nat;
    assert(call2.children@[0] == call1.children@[0]);
    assert(call_name(call2) == call_name(call1));
    assert(first_arg(call2, f) == from);
    let cs1 = rest_of(call1.children@, from);
    let cs2 = rest_of(call2.children@, from);
    assert(cs2 =~= cs1.push(lit));
    if f.spec_takes_fn_arg() {
        assert(call2.children@[from - 1] == call1.children@[from - 1]);
    }
    assert(!has_at(cs2)) by {
        if has_at(cs2) {
            let k = choose|k: int| 0 <= k < cs2.len() && (#[trigger] cs2[k]).rule == Rule::At;
            if k < cs1.len() {
                assert(cs2[k] == cs1[k]);
            }
        }
    }
    if r is Err && fails_first(cs1, data, Some(v), true, d, r->Err_0) {
        let e = r->Err_0;
        let k = choose|k: int|
            0 <= k < cs1.len() && (exists|vals: Seq<Value>| #![trigger vals.len()]
                evals_all(cs1.subrange(0, k), data, Some(v), true, d, vals)) && expr_evals(
                #[trigger] cs1[k],
                data,
                child_ctx(cs1[k], Some(v), true),
                d,
                Err::<Value, Error>(e),
            );
        let vals = choose|vals: Seq<Value>| #![trigger vals.len()] evals_all(cs1.subrange(0, k), data, Some(v), true, d, vals);
        assert(cs1[k].rule != Rule::At);
        assert(cs2.subrange(0, k) =~= cs1.subrange(0, k));
        assert(!has_at(cs1.subrange(0, k))) by {
            if has_at(cs1.subrange(0, k)) {
                let j = choose|j: int| 0 <= j < k && (#[trigger] cs1.subrange(0, k)[j]).rule == Rule::At;
                assert(cs1.subrange(0, k)[j] == cs1[j]);
            }
        }
        lemma_ctx_irrelevant(cs1.subrange(0, k), data, Some(v), None, d, vals);
        assert(vals.len() == k);
        assert(cs2[k] == cs1[k]);
        assert(fails_first(cs2, data, None, true, d, e));
    } else {
        let lambda = if f.spec_takes_fn_arg() { Some(call1.children@[from - 1]) } else { None };
        let args = choose|args: Seq<Value>| evals_all(cs1, data, Some(v), true, d, args) && dispatch_evals(
            f,
            lambda,
            #[trigger] threaded(args, has_at(cs1), Some(v)),
            data,
            d,
            r,
        );
        lemma_ctx_irrelevant(cs1, data, Some(v), None, d, args);
        assert(cs2[cs1.len() as int] == lit);
        lemma_evals_push(cs1, data, None, true, d, args, lit, v);
        assert(threaded(args.push(v), has_at(cs2), None) == threaded(args, has_at(cs1), Some(v)));
    }
}

/// Appends the pipe context as a trailing argument where it was present and
/// not consumed explicitly.
pub fn thread_context(args: Vec<Value>, consumed: bool, context: Option<Value>) -> (r: Vec<Value>)
    ensures
        r@ == threaded(args@, consumed, context),
{
    let mut args = args;
    if !consumed {
        match context {
            Some(c) => args.push(c),
            None => {},
        }
    }
    args
}

fn copy_context(context: &Option<Value>) -> (r: Option<Value>)
    ensures
        opt_same(*context, r),
{
    match context {
        Some(c) => Some(c.copy()),
        None => None,
    }
}

/// Evaluates the children from `from` on, left to right, and reports
/// whether an explicit `@` stood among them. With `at_only` (the arguments
/// of a call) only an `@` child sees the context; otherwise every child does.
pub fn eval_children(
    children: &Vec<Node>,
    from: usize,
    data: &Value,
    context: &Option<Value>,
    at_only: bool,
    depth: u32,
) -> (r: Result<(Vec<Value>, bool), Error>)
    requires
        from <= children@.len(),
    ensures
        r matches Ok((args, consumed)) ==> evals_all(rest_of(children@, from as int), *data, *context, at_only, depth as nat, args@)
            && consumed == has_at(rest_of(children@, from as int)),
        r matches Err(e) ==> fails_first(rest_of(children@, from as int), *data, *context, at_only, depth as nat, e),
    decreases depth, 1int,
{
    let ghost rest = rest_of(children@, from as int);
    let mut args: Vec<Value> = Vec::new();
    let mut consumed = false;
    let mut i: usize = from;
    assert(children@.subrange(from as int, from as int) =~= Seq::<Node>::empty());
    while i < children.len()
        invariant
            from <= i <= children@.len(),
            rest == rest_of(children@, from as int),
            evals_all(children@.subrange(from as int, i as int), *data, *context, at_only, depth as nat, args@),
            consumed == has_at(children@.subrange(from as int, i as int)),
        decreases children@.len() - i,
    {
        let child = &children[i];
        let is_at = child.rule == Rule::At;
        let none: Option<Value> = None;
        let v = if at_only && !is_at {
            eval_expr(child, data, &none, depth)
        } else {
            eval_expr(child, data, context, depth)
        };
        let ghost prev = children@.subrange(from as int, i as int);
        let ghost next = children@.subrange(from as int, i + 1);
        assert(next =~= prev.push(children@[i as int]));
        match v {
            Ok(v) => {
                proof {
                    lemma_evals_push(prev, *data, *context, at_only, depth as nat, args@, children@[i as int], v);
                }
                args.push(v);
            },
            Err(e) => {
                proof {
                    let k = i - from;
                    assert(rest.subrange(0, k) =~= prev);
                    assert(rest[k] == children@[i as int]);
                    assert(evals_all(rest.subrange(0, k), *data, *context, at_only, depth as nat, args@));
                }
                return Err(e);
            },
        }
        proof {
            if has_at(prev) {
                let k = choose|k: int| 0 <= k < prev.len() && (#[trigger] prev[k]).rule == Rule::At;
                assert(next[k] == prev[k]);
            }
            if is_at {
                assert(next[next.len() - 1].rule == Rule::At);
            }
            if has_at(next) {
                let k = choose|k: int| 0 <= k < next.len() && (#[trigger] next[k]).rule == Rule::At;
                if k < prev.len() {
                    assert(prev[k] == next[k]);
                }
            }
        }
        if is_at {
            consumed = true;
        }
        i = i + 1;
    }
    assert(children@.subrange(from as int, i as int) =~= rest);
    Ok((args, consumed))
}

/// Applies a lambda to each element of an array, with the element as its
/// pipe context; results keep the input order.
pub fn map_each(lambda: &Node, args: Vec<Value>, data: &Value, depth: u32) -> (r: Result<Value, Error>)
    ensures
        map_evals(*lambda, args@, *data, depth as nat, r),
    decreases depth, 1int,
{
    let ghost orig = args@;
    if args.len() != 1 {
        return Err(fail("map expects a function and one array"));
    }
    let mut work = args;
    match work.pop() {
        Some(Value::Array(a)) => {
            let ghost a0 = a@;
            let n0: usize = a.len();
            assert(orig[0] is Array && orig[0]->Array_0@ == a0);
            let mut a = a;
            let mut out: Vec<Value> = Vec::new();
            let mut i: usize = 0;
            while a.len() > 0
                invariant
                    a0.len() == n0,
                    orig == args@,
                    orig.len() == 1,
                    orig[0] is Array,
                    orig[0]->Array_0@ == a0,
                    i <= a0.len(),
                    a@ == a0.subrange(i as int, a0.len() as int),
                    out@.len() == i,
                    forall|j: int|
                        0 <= j < i ==> expr_evals(*lambda, *data, Some(a0[j]), depth as nat, Ok::<Value, Error>(#[trigger] out@[j])),
                decreases a@.len(),
            {
                let x = a.remove(0);
                assert(x == a0[i as int]);
                assert(a@ =~= a0.subrange(i + 1, a0.len() as int));
                let ctx = Some(x);
                match eval_expr(lambda, data, &ctx, depth) {
                    Ok(v) => {
                        out.push(v);
                    },
                    Err(e) => {
                        assert(out@.len() == i && forall|j: int|
                            0 <= j < i ==> expr_evals(*lambda, *data, Some(a0[j]), depth as nat, Ok::<Value, Error>(#[trigger] out@[j])));
                        return Err(e);
                    },
                }
                i = i + 1;
            }
            assert(i == a0.len());
            Ok(Value::Array(out))
        },
        _ => Err(fail("map expects an array")),
    }
}

/// Invokes the builtin `f` on evaluated arguments; `lambda` is the reserved
/// unevaluated argument of a higher-order builtin.
pub fn dispatch(f: Function, lambda: Option<&Node>, args: Vec<Value>, data: &Value, depth: u32) -> (r:
    Result<Value, Error>)
    ensures
        dispatch_evals(f, opt_node(lambda), args@, *data, depth as nat, r),
    decreases depth, 3int,
{
    match f {
        Function::Count => count(args),
        Function::Float => float(args),
        Function::Index => index(args),
        Function::Keys => keys(args),
        Function::Log => log(args),
        Function::MapEach => match lambda {
            Some(l) => map_each(l, args, data, depth),
            None => Err(fail("map expects a function argument")),
        },
        Function::String => string(args),
        Function::Sum => sum(args),
        Function::Values => values(args),
    }
}

/// Evaluates a call with a depth budget: resolves the function by name,
/// reserves the lambda of a higher-order builtin, evaluates and threads the
/// arguments, and dispatches.
pub fn eval_call(node: &Node, data: &Value, context: Option<Value>, depth: u32) -> (r: Result<
    Value,
    Error,
>)
    requires
        is_call(*node),
    ensures
        call_evals(*node, *data, context, depth as nat, r),
    decreases depth, 4int,
{
    if depth == 0 {
        return Err(fail("expression nests too deeply"));
    }
    let name: &str = if node.rule == Rule::Ident {
        node.text.as_str()
    } else {
        node.children[0].text.as_str()
    };
    let f = match Function::from_str(name) {
        Ok(f) => f,
        Err(e) => { return Err(e); },
    };
    let skip: usize = if node.rule == Rule::Function { 1 } else { 0 };
    let lambda: Option<&Node>;
    let from: usize;
    if f.takes_fn_arg() {
        if skip < node.children.len() {
            lambda = Some(&node.children[skip]);
            from = skip + 1;
        } else {
            return Err(fail("map expects a function argument"));
        }
    } else {
        lambda = None;
        from = skip;
    }
    assert(from == first_arg(*node, f));
    let ghost ctx = context;
    match eval_children(&node.children, from, data, &context, true, depth - 1) {
        Ok((args, consumed)) => {
            let ghost a = args@;
            let args = thread_context(args, consumed, context);
            let r = dispatch(f, lambda, args, data, depth - 1);
            assert(evals_all(rest_of(node.children@, from as int), *data, ctx, true, (depth - 1) as nat, a));
            r
        },
        Err(e) => Err(e),
    }
}

/// Evaluates a call node against the data, with an optional pipe context.
pub fn eval(node: &Node, data: &Value, context: Option<Value>) -> (r: Result<Value, Error>)
    requires
        is_call(*node),
    ensures
        call_evals(*node, *data, context, MAX_DEPTH as nat, r),
{
    eval_call(node, data, context, MAX_DEPTH)
}

/// Evaluates any expression node, with a depth budget.
pub fn eval_expr(node: &Node, data: &Value, context: &Option<Value>, depth: u32) -> (r: Result<
    Value,
    Error,
>)
    ensures
        expr_evals(*node, *data, *context, depth as nat, r),
    decreases depth, 0int,
{
    if depth == 0 {
        return Err(fail("expression nests too deeply"));
    }
    match node.rule {
        Rule::Null => Ok(Value::Null),
        Rule::At => match context {
            Some(c) => Ok(c.copy()),
            None => Ok(data.copy()),
        },
        Rule::Bool => Ok(Value::Boolean(same_chars(node.text.as_str(), "true"))),
        Rule::Number => match parse_int(node.text.as_str()) {
            Some(n) => Ok(Value::Int(n)),
            None => Err(fail("number literal is not a 64-bit integer")),
        },
        Rule::String => Ok(Value::String(string_literal(node))),
        Rule::Function => {
            if node.children.len() == 0 {
                return Err(fail("call without a function"));
            }
            let c = copy_context(context);
            eval_call(node, data, c, depth - 1)
        },
        Rule::Ident => {
            if Function::from_str(node.text.as_str()).is_ok() {
                let c = copy_context(context);
                eval_call(node, data, c, depth - 1)
            } else {
                match data {
                    Value::Object(_) => {
                        let k = Value::Ident(node.text.clone());
                        index_value(data, &k)
                    },
                    _ => Err(concat_error("unknown function ", node.text.as_str())),
                }
            }
        },
        Rule::Array => {
            assert(rest_of(node.children@, 0) =~= node.children@);
            match eval_children(&node.children, 0, data, context, false, depth - 1) {
                Ok((vals, _)) => Ok(Value::Array(vals)),
                Err(e) => Err(e),
            }
        },
        Rule::Object => eval_object(node, data, context, depth - 1),
        Rule::InfixExpr => {
            let n = node.children.len();
            if n % 2 != 1 {
                return Err(fail("malformed infix expression"));
            }
            let mut k: usize = 0;
            while k < n
                invariant
                    n == node.children@.len(),
                    n % 2 == 1,
                    depth > 0,
                    node.rule == Rule::InfixExpr,
                    k <= n,
                    forall|i: int| 0 <= i < k && i % 2 == 1 ==> (#[trigger] node.children@[i]).rule == Rule::PlusOp,
                decreases n - k,
            {
                if k % 2 == 1 && node.children[k].rule != Rule::PlusOp {
                    assert(!infix_shape(node.children@));
                    return Err(fail("malformed infix expression"));
                }
                k = k + 1;
            }
            assert(infix_shape(node.children@));
            let ghost ops = operands(node.children@);
            let count = n / 2 + 1;
            let mut vals: Vec<Value> = Vec::new();
            let mut i: usize = 0;
            assert(ops.subrange(0, 0) =~= Seq::<Node>::empty());
            while i < count
                invariant
                    depth > 0,
                    node.rule == Rule::InfixExpr,
                    infix_shape(node.children@),
                    n == node.children@.len(),
                    count == (n + 1) / 2,
                    ops == operands(node.children@),
                    ops.len() == count,
                    i <= count,
                    evals_all(ops.subrange(0, i as int), *data, *context, false, (depth - 1) as nat, vals@),
                decreases count - i,
            {
                assert(ops[i as int] == node.children@[2 * i]);
                let ghost prev = ops.subrange(0, i as int);
                assert(ops.subrange(0, i + 1) =~= prev.push(ops[i as int]));
                match eval_expr(&node.children[2 * i], data, context, depth - 1) {
                    Ok(v) => {
                        proof {
                            lemma_evals_push(prev, *data, *context, false, (depth - 1) as nat, vals@, ops[i as int], v);
                        }
                        vals.push(v);
                    },
                    Err(e) => {
                        assert(ops[i as int] == node.children@[2 * i]);
                        return Err(e);
                    },
                }
                i = i + 1;
            }
            assert(ops.subrange(0, i as int) =~= ops);
            fold_add(vals)
        },
        Rule::IndexedValue => {
            if node.children.len() == 0 {
                return Err(fail("empty subscript"));
            }
            assert(rest_of(node.children@, 0) =~= node.children@);
            match eval_children(&node.children, 0, data, context, false, depth - 1) {
                Ok((vals, _)) => fold_index(vals),
                Err(e) => Err(e),
            }
        },
        _ => Err(fail("this node cannot be evaluated on its own")),
    }
}

proof fn lemma_add_fold_err(vals: Seq<Value>, j: int, e: Error)
    requires
        1 <= j <= vals.len(),
        add_fold(vals.subrange(0, j), Err::<Value, Error>(e)),
    ensures
        add_fold(vals, Err::<Value, Error>(e)),
    decreases vals.len() - j,
{
    if j == vals.len() {
        assert(vals.subrange(0, j) =~= vals);
    } else {
        let next = vals.subrange(0, j + 1);
        assert(next.drop_last() =~= vals.subrange(0, j));
        assert(add_fold(next.drop_last(), Err::<Value, Error>(e)));
        assert(add_step(Err::<Value, Error>(e), next.last(), Err::<Value, Error>(e)));
        assert(add_fold(next, Err::<Value, Error>(e)));
        lemma_add_fold_err(vals, j + 1, e);
    }
}

proof fn lemma_index_fold_err(vals: Seq<Value>, j: int, e: Error)
    requires
        1 <= j <= vals.len(),
        index_fold(vals.subrange(0, j), Err::<Value, Error>(e)),
    ensures
        index_fold(vals, Err::<Value, Error>(e)),
    decreases vals.len() - j,
{
    if j == vals.len() {
        assert(vals.subrange(0, j) =~= vals);
    } else {
        let next = vals.subrange(0, j + 1);
        assert(next.drop_last() =~= vals.subrange(0, j));
        assert(index_fold(next.drop_last(), Err::<Value, Error>(e)));
        assert(index_step(Err::<Value, Error>(e), next.last(), Err::<Value, Error>(e)));
        assert(index_fold(next, Err::<Value, Error>(e)));
        lemma_index_fold_err(vals, j + 1, e);
    }
}

/// Adds the values from left to right.
pub fn fold_add(vals: Vec<Value>) -> (r: Result<Value, Error>)
    ensures
        add_fold(vals@, r),
{
    let ghost v0 = vals@;
    let mut rest = vals;
    if rest.len() == 0 {
        return Err(fail("empty expression"));
    }
    let n0: usize = rest.len();
    let mut acc = rest.remove(0);
    let mut k: usize = 1;
    assert(v0.subrange(0, 1) =~= seq![acc]);
    while rest.len() > 0
        invariant
            1 <= k <= v0.len(),
            v0.len() == n0,
            v0 == vals@,
            rest@ == v0.subrange(k as int, v0.len() as int),
            add_fold(v0.subrange(0, k as int), Ok::<Value, Error>(acc)),
        decreases rest@.len(),
    {
        let x = rest.remove(0);
        assert(x == v0[k as int]);
        assert(rest@ =~= v0.subrange(k + 1, v0.len() as int));
        let ghost prev = acc;
        let ghost next = v0.subrange(0, k + 1);
        assert(next.drop_last() =~= v0.subrange(0, k as int));
        assert(next.last() == x);
        assert(add_fold(next.drop_last(), Ok::<Value, Error>(acc)));
        match add_values(acc, x) {
            Ok(s) => {
                assert(add_step(Ok::<Value, Error>(prev), next.last(), Ok::<Value, Error>(s)));
                assert(add_fold(next, Ok::<Value, Error>(s)));
                acc = s;
            },
            Err(e) => {
                assert(add_step(Ok::<Value, Error>(prev), next.last(), Err::<Value, Error>(e)));
                assert(add_fold(next, Err::<Value, Error>(e)));
                proof { lemma_add_fold_err(v0, k + 1, e); }
                return Err(e);
            },
        }
        k = k + 1;
    }
    assert(v0.subrange(0, k as int) =~= v0);
    Ok(acc)
}

/// Indexes the first value by each of the others in turn.
pub fn fold_index(vals: Vec<Value>) -> (r: Result<Value, Error>)
    ensures
        index_fold(vals@, r),
{
    let ghost v0 = vals@;
    let mut rest = vals;
    if rest.len() == 0 {
        return Err(fail("empty subscript"));
    }
    let n0: usize = rest.len();
    let mut acc = rest.remove(0);
    let mut k: usize = 1;
    assert(v0.subrange(0, 1) =~= seq![acc]);
    while rest.len() > 0
        invariant
            1 <= k <= v0.len(),
            v0.len() == n0,
            v0 == vals@,
            rest@ == v0.subrange(k as int, v0.len() as int),
            index_fold(v0.subrange(0, k as int), Ok::<Value, Error>(acc)),
        decreases rest@.len(),
    {
        let x = rest.remove(0);
        assert(x == v0[k as int]);
        assert(rest@ =~= v0.subrange(k + 1, v0.len() as int));
        let ghost next = v0.subrange(0, k + 1);
        assert(next.drop_last() =~= v0.subrange(0, k as int));
        assert(next.last() == x);
        assert(index_fold(next.drop_last(), Ok::<Value, Error>(acc)));
        let ghost prev = acc;
        match index_value(&acc, &x) {
            Ok(s) => {
                assert(index_step(Ok::<Value, Error>(prev), next.last(), Ok::<Value, Error>(s)));
                assert(index_fold(next, Ok::<Value, Error>(s)));
                acc = s;
            },
            Err(e) => {
                assert(index_step(Ok::<Value, Error>(prev), next.last(), Err::<Value, Error>(e)));
                assert(index_fold(next, Err::<Value, Error>(e)));
                proof { lemma_index_fold_err(v0, k + 1, e); }
                return Err(e);
            },
        }
        k = k + 1;
    }
    assert(v0.subrange(0, k as int) =~= v0);
    Ok(acc)
}

proof fn lemma_stages_err(nodes: Seq<Node>, data: Value, j: int, n: int, e: Error)
    requires
        1 <= j <= n,
        stages_eval(nodes, data, j, Err::<Value, Error>(e)),
    ensures
        stages_eval(nodes, data, n, Err::<Value, Error>(e)),
    decreases n - j,
{
    if j < n {
        assert(stages_eval(nodes, data, (j + 1) - 1, Err::<Value, Error>(e)));
        assert(stage_step(nodes, data, j + 1, Err::<Value, Error>(e), Err::<Value, Error>(e)));
        assert(stages_eval(nodes, data, j + 1, Err::<Value, Error>(e)));
        lemma_stages_err(nodes, data, j + 1, n, e);
    }
}

/// Evaluates a parsed query: the first expression without a pipe context,
/// then each pipe stage with the result of the stage before it as context.
pub fn eval_query(nodes: &Vec<Node>, data: &Value) -> (r: Result<Value, Error>)
    ensures
        query_evals(nodes@, *data, r),
{
    if nodes.len() == 0 {
        return Err(fail("empty query"));
    }
    let mut i: usize = 1;
    while i < nodes.len()
        invariant
            1 <= i <= nodes@.len(),
            forall|j: int| 1 <= j < i ==> (#[trigger] nodes@[j]).rule == Rule::Pipe && nodes@[j].children@.len() == 1,
        decreases nodes@.len() - i,
    {
        if nodes[i].rule != Rule::Pipe || nodes[i].children.len() != 1 {
            assert(!pipes_ok(nodes@));
            return Err(fail("a query stage must be a pipe"));
        }
        i = i + 1;
    }
    assert(pipes_ok(nodes@));
    let none: Option<Value> = None;
    let mut v = match eval_expr(&nodes[0], data, &none, MAX_DEPTH) {
        Ok(v) => v,
        Err(e) => {
            proof { lemma_stages_err(nodes@, *data, 1, nodes@.len() as int, e); }
            return Err(e);
        },
    };
    let mut k: usize = 1;
    while k < nodes.len()
        invariant
            1 <= k <= nodes@.len(),
            pipes_ok(nodes@),
            stages_eval(nodes@, *data, k as int, Ok::<Value, Error>(v)),
        decreases nodes@.len() - k,
    {
        assert(nodes@[k as int].rule == Rule::Pipe && nodes@[k as int].children@.len() == 1);
        let ghost prev = v;
        let ctx = Some(v);
        match eval_expr(&nodes[k].children[0], data, &ctx, MAX_DEPTH) {
            Ok(w) => {
                assert(stages_eval(nodes@, *data, (k + 1) - 1, Ok::<Value, Error>(prev)));
                assert(stage_step(nodes@, *data, k + 1, Ok::<Value, Error>(prev), Ok::<Value, Error>(w)));
                assert(stages_eval(nodes@, *data, k + 1, Ok::<Value, Error>(w)));
                v = w;
            },
            Err(e) => {
                assert(stages_eval(nodes@, *data, (k + 1) - 1, Ok::<Value, Error>(prev)));
                assert(stage_step(nodes@, *data, k + 1, Ok::<Value, Error>(prev), Err::<Value, Error>(e)));
                assert(stages_eval(nodes@, *data, k + 1, Err::<Value, Error>(e)));
                proof { lemma_stages_err(nodes@, *data, k + 1, nodes@.len() as int, e); }
                return Err(e);
            },
        }
        k = k + 1;
    }
    Ok(v)
}

/// Parses and evaluates a query against the data. A query that parses
/// gives what its nodes evaluate to; one that does not gives a parse error.
pub fn run(query: &str, data: &Value) -> (r: Result<Value, Error>)
    ensures
        r is Ok ==> exists|nodes: Seq<Node>| all_within(nodes, query@, 0, query@.len() as int)
            && query_evals(nodes, *data, r),
{
    match parse(query) {
        Ok(nodes) => eval_query(&nodes, data),
        Err(e) => Err(e),
    }
}

fn concat_error(prefix: &str, s: &str) -> (r: Error)
    ensures
        r.message@ == prefix@ + s@,
{
    Error::query(concat_str(prefix, s))
}

/// The content of a string literal node: the text of its inner child.
fn string_literal(node: &Node) -> (r: String)
    ensures
        r@ == literal_text(*node),
{
    if node.children.len() > 0 {
        node.children[0].text.clone()
    } else {
        String::new()
    }
}

/// Evaluates an object literal; a repeated key keeps its last value.
fn eval_object(node: &Node, data: &Value, context: &Option<Value>, depth: u32) -> (r: Result<Value, Error>)
    ensures
        r is Ok ==> r->Ok_0 is Object && unique_keys(r->Ok_0->Object_0@),
    decreases depth, 1int,
{
    let mut entries: Vec<(String, Value)> = Vec::new();
    let mut i: usize = 0;
    while i < node.children.len()
        invariant
            i <= node.children@.len(),
            unique_keys(entries@),
        decreases node.children@.len() - i,
    {
        let kv = &node.children[i];
        if kv.rule != Rule::Keyval || kv.children.len() != 2 {
            return Err(fail("malformed object entry"));
        }
        let key = if kv.children[0].rule == Rule::String {
            string_literal(&kv.children[0])
        } else {
            kv.children[0].text.clone()
        };
        let v = match eval_expr(&kv.children[1], data, context, depth) {
            Ok(v) => v,
            Err(e) => { return Err(e); },
        };
        put_entry(&mut entries, key, v);
        i = i + 1;
    }
    Ok(Value::Object(entries))
}

/// Whether the entries' keys are pairwise distinct.
pub open spec fn unique_keys(entries: Seq<(String, Value)>) -> bool {
    forall|i: int, j: int| 0 <= i < j < entries.len() ==> (#[trigger] entries[i]).0@ != (#[trigger] entries[j]).0@
}

/// Sets the value of `key`: an entry of the same key is replaced in place,
/// otherwise a new entry is appended. Keys stay unique.
pub fn put_entry(entries: &mut Vec<(String, Value)>, key: String, v: Value)
    requires
        unique_keys(old(entries)@),
    ensures
        unique_keys(final(entries)@),
        (forall|i: int| 0 <= i < old(entries)@.len() ==> (#[trigger] old(entries)@[i]).0@ != key@)
            ==> final(entries)@ == old(entries)@.push((key, v)),
        (exists|i: int| 0 <= i < old(entries)@.len() && (#[trigger] old(entries)@[i]).0@ == key@)
            ==> (exists|i: int| 0 <= i < old(entries)@.len() && (#[trigger] old(entries)@[i]).0@ == key@
            && final(entries)@ == old(entries)@.update(i, (key, v))),
{
    let ghost e0 = entries@;
    let mut i: usize = 0;
    while i < entries.len()
        invariant
            i <= entries@.len(),
            entries@ == e0,
            e0 == old(entries)@,
            unique_keys(e0),
            forall|j: int| 0 <= j < i ==> (#[trigger] e0[j]).0@ != key@,
        decreases entries@.len() - i,
    {
        if same_chars(entries[i].0.as_str(), key.as_str()) {
            let ghost k = key@;
            entries.remove(i);
            entries.insert(i, (key, v));
            assert(entries@ =~= e0.update(i as int, (key, v)));
            assert forall|a: int, b: int| 0 <= a < b < entries@.len() implies (#[trigger] entries@[a]).0@
                != (#[trigger] entries@[b]).0@ by {
                if a != i && b != i {
                    assert(entries@[a] == e0[a] && entries@[b] == e0[b]);
                } else if a == i {
                    assert(e0[b].0@ != e0[a].0@);
                } else {
                    assert(e0[b].0@ == k);
                    assert(e0[a].0@ != e0[b].0@);
                }
            }
            return;
        }
        i = i + 1;
    }
    entries.push((key, v));
    assert forall|a: int, b: int| 0 <= a < b < entries@.len() implies (#[trigger] entries@[a]).0@
        != (#[trigger] entries@[b]).0@ by {
        if b < e0.len() {
            assert(entries@[a] == e0[a] && entries@[b] == e0[b]);
        } else {
            assert(entries@[a] == e0[a]);
        }
    }
}

/// Adds two values: integers with overflow checked, strings and arrays by
/// concatenation.
pub fn add_values(a: Value, b: Value) -> (r: Result<Value, Error>)
    ensures
        add_spec(a, b, r),
{
    match (a, b) {
        (Value::Int(x), Value::Int(y)) => match x.checked_add(y) {
            Some(z) => Ok(Value::Int(z)),
            None => Err(fail("integer addition overflows")),
        },
        (Value::String(x), Value::String(y)) => Ok(Value::String(concat_str(x.as_str(), y.as_str()))),
        (Value::Array(x), Value::Array(y)) => {
            let mut x = x;
            let mut y = y;
            x.append(&mut y);
            Ok(Value::Array(x))
        },
        _ => Err(fail("these values cannot be added")),
    }
}

/// Whether every character is a decimal digit, and there is at least one.
pub open spec fn is_digits(s: Seq<char>) -> bool {
    s.len() > 0 && forall|i: int| 0 <= i < s.len() ==> '0' <= #[trigger] s[i] <= '9'
}

/// The value of a string of decimal digits.
pub open spec fn digits_value(s: Seq<char>) -> int
    decreases s.len(),
{
    if s.len() == 0 {
        0
    } else {
        digits_value(s.drop_last()) * 10 + (s.last() as u32 - '0' as u32)
    }
}

/// The value of an integer literal: decimal digits with an optional
/// leading `-`, whose digits denote at most `i64::MAX`.
pub open spec fn literal_value(s: Seq<char>) -> Option<i64> {
    if is_digits(s) && digits_value(s) <= i64::MAX {
        Some(digits_value(s) as i64)
    } else if s.len() > 0 && s[0] == '-' && is_digits(s.drop_first()) && digits_value(s.drop_first())
        <= i64::MAX {
        Some((-digits_value(s.drop_first())) as i64)
    } else {
        None
    }
}

/// A string of digits is worth at least any of its prefixes.
pub proof fn lemma_digits_monotone(s: Seq<char>, j: int)
    requires
        forall|i: int| 0 <= i < s.len() ==> '0' <= #[trigger] s[i] <= '9',
        0 <= j <= s.len(),
    ensures
        0 <= digits_value(s.subrange(0, j)) <= digits_value(s),
    decreases s.len(),
{
    if s.len() == 0 {
        assert(s.subrange(0, j) =~= s);
    } else if j == s.len() {
        assert(s.subrange(0, j) =~= s);
        lemma_digits_monotone(s.drop_last(), j - 1);
    } else {
        assert(s.drop_last().subrange(0, j) =~= s.subrange(0, j));
        lemma_digits_monotone(s.drop_last(), j);
        lemma_digits_monotone(s.drop_last(), s.len() - 1);
        assert(s.drop_last().subrange(0, s.len() - 1) =~= s.drop_last());
    }
}

/// Reads an integer literal: decimal digits with an optional leading `-`.
pub fn parse_int(s: &str) -> (r: Option<i64>)
    ensures
        r == literal_value(s@),
{
    let len = s.unicode_len();
    if len == 0 {
        return None;
    }
    let negative = s.get_char(0) == '-';
    let start: usize = if negative { 1 } else { 0 };
    proof {
        if !negative {
            assert(s@.subrange(0, len as int) =~= s@);
        } else {
            assert(!is_digits(s@));
        }
    }
    if start >= len {
        proof { assert(s@.drop_first().len() == 0); }
        return None;
    }
    let ghost digits = s@.subrange(start as int, len as int);
    proof {
        if negative {
            assert(digits =~= s@.drop_first());
        } else {
            assert(digits =~= s@);
        }
    }
    let mut acc: i128 = 0;
    let mut i: usize = start;
    while i < len
        invariant
            start <= i <= len,
            len == s@.len(),
            start == (if negative { 1usize } else { 0usize }),
            negative == (s@[0] == '-'),
            negative ==> digits =~= s@.drop_first(),
            !negative ==> digits =~= s@,
            digits == s@.subrange(start as int, len as int),
            0 <= acc <= i64::MAX,
            acc == digits_value(digits.subrange(0, i - start)),
            forall|j: int| start <= j < i ==> '0' <= #[trigger] s@[j] <= '9',
        decreases len - i,
    {
        let c = s.get_char(i);
        if c < '0' || c > '9' {
            proof {
                assert(digits[i - start] == c);
                assert(!is_digits(digits));
                if !negative {
                    assert(s@[0] != '-' || s@.len() == 0 || !is_digits(s@.drop_first()));
                }
            }
            return None;
        }
        assert(digits.subrange(0, i + 1 - start).drop_last() =~= digits.subrange(0, i - start));
        acc = acc * 10 + (c as u32 - '0' as u32) as i128;
        if acc > i64::MAX as i128 {
            proof {
                if is_digits(digits) {
                    lemma_digits_monotone(digits, i + 1 - start);
                }
            }
            return None;
        }
        i = i + 1;
    }
    proof {
        assert forall|j: int| 0 <= j < digits.len() implies '0' <= #[trigger] digits[j] <= '9' by {
            assert(digits[j] == s@[start + j]);
        }
        assert(digits.subrange(0, i - start) =~= digits);
        if !negative {
            assert(s@[0] != '-');
        }
    }
    if negative {
        Some(-(acc as i64))
    } else {
        Some(acc as i64)
    }
}

} // verus!
