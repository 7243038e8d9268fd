use mistql::eval::{eval, run, thread_context};
use mistql::function::Function;
use mistql::node::{Node, Rule};
use mistql::parser::parse;
use mistql::value::Value;

fn tok(rule: &str, start: usize, end: usize, children: Vec<String>) -> String {
    if children.is_empty() {
        format!("{}({},{})", rule, start, end)
    } else {
        format!("{}({},{},[{}])", rule, start, end, children.join(","))
    }
}

fn leaf(rule: &str, start: usize, end: usize) -> String {
    tok(rule, start, end, vec![])
}

fn rule_name(rule: Rule) -> &'static str {
    match rule {
        Rule::Ident => "ident",
        Rule::Function => "function",
        Rule::At => "at",
        Rule::Array => "array",
        Rule::Object => "object",
        Rule::Keyval => "keyval",
        Rule::String => "string",
        Rule::Inner => "inner",
        Rule::Number => "number",
        Rule::Bool => "bool",
        Rule::Null => "null",
        Rule::Pipe => "pipe",
        Rule::InfixExpr => "infix_expr",
        Rule::IndexedValue => "indexed_value",
        Rule::PlusOp => "plus_op",
    }
}

fn render(query: &str, node: &Node) -> String {
    let chars: Vec<char> = query.chars().collect();
    let text: String = chars[node.start..node.end].iter().collect();
    assert_eq!(node.text, text);
    let children = node.children.iter().map(|c| render(query, c)).collect();
    tok(rule_name(node.rule), node.start, node.end, children)
}

fn tokens(query: &str) -> Vec<String> {
    let nodes = parse(query).unwrap_or_else(|e| panic!("{}", e.message));
    nodes.iter().map(|n| render(query, n)).collect()
}

fn ints(ns: &[i64]) -> Value {
    Value::Array(ns.iter().map(|n| Value::Int(*n)).collect())
}

#[test]
fn parses_basic_function_call() {
    assert_eq!(
        tokens("count [1,2,3]"),
        vec![tok(
            "function",
            0,
            13,
            vec![
                leaf("ident", 0, 5),
                tok("array", 6, 13, vec![leaf("number", 7, 8), leaf("number", 9, 10), leaf("number", 11, 12)]),
            ]
        )]
    );
}

#[test]
fn parses_function_with_three_arguments() {
    assert_eq!(
        tokens("if false 1 2"),
        vec![tok(
            "function",
            0,
            12,
            vec![leaf("ident", 0, 2), leaf("bool", 3, 8), leaf("number", 9, 10), leaf("number", 11, 12)]
        )]
    );
}

#[test]
fn functions_are_first_class_citizens() {
    assert_eq!(
        tokens("(if toggle keys values) {one: \"two\"}"),
        vec![tok(
            "function",
            0,
            36,
            vec![
                tok(
                    "function",
                    1,
                    22,
                    vec![leaf("ident", 1, 3), leaf("ident", 4, 10), leaf("ident", 11, 15), leaf("ident", 16, 22)]
                ),
                tok(
                    "object",
                    24,
                    36,
                    vec![tok(
                        "keyval",
                        25,
                        35,
                        vec![leaf("ident", 25, 28), tok("string", 30, 35, vec![leaf("inner", 31, 34)])]
                    )]
                ),
            ]
        )]
    );
}

#[test]
fn function_with_function_as_parameter() {
    assert_eq!(
        tokens("reduce @[0] + @[1] 0 @"),
        vec![tok(
            "function",
            0,
            22,
            vec![
                leaf("ident", 0, 6),
                tok(
                    "infix_expr",
                    7,
                    19,
                    vec![
                        tok("indexed_value", 7, 11, vec![leaf("at", 7, 8), leaf("number", 9, 10)]),
                        leaf("plus_op", 12, 13),
                        tok("indexed_value", 14, 18, vec![leaf("at", 14, 15), leaf("number", 16, 17)]),
                    ]
                ),
                leaf("number", 19, 20),
                leaf("at", 21, 22),
            ]
        )]
    );
}

#[test]
fn parses_piped_expressions() {
    assert_eq!(
        tokens("null | true | [1,2,3]"),
        vec![
            leaf("null", 0, 4),
            tok("pipe", 5, 12, vec![leaf("bool", 7, 11)]),
            tok(
                "pipe",
                12,
                21,
                vec![tok("array", 14, 21, vec![leaf("number", 15, 16), leaf("number", 17, 18), leaf("number", 19, 20)])]
            ),
        ]
    );
}

#[test]
fn casts_int_to_string() {
    let result = Value::Int(1).to_string().unwrap();
    assert_eq!(result, "1".to_string())
}

#[test]
fn resolves_every_builtin_name() {
    for name in ["count", "float", "index", "keys", "log", "map", "string", "sum", "values"] {
        assert!(Function::from_str(name).is_ok(), "{}", name);
    }
    assert!(matches!(Function::from_str("map"), Ok(Function::MapEach)));
}

#[test]
fn rejects_unknown_function_names() {
    for name in ["Count", "reduce", "", "counts", "if", "filter"] {
        let err = Function::from_str(name).err().unwrap();
        assert_eq!(err.message, format!("unknown function {}", name));
    }
    assert!(run("frobnicate [1]", &Value::Null).is_err());
}

#[test]
fn only_map_takes_a_function_argument() {
    assert!(Function::MapEach.takes_fn_arg());
    assert!(!Function::Count.takes_fn_arg());
    assert!(!Function::Values.takes_fn_arg());
}

#[test]
fn explicit_context_is_not_appended_again() {
    let args = thread_context(vec![Value::Int(1), Value::Int(2)], true, Some(Value::Int(9)));
    assert_eq!(args, vec![Value::Int(1), Value::Int(2)]);
    // `index 1 @` on a piped array: the array is consumed through `@` only.
    assert_eq!(run("[5,6,7] | index 1 @", &Value::Null).unwrap(), Value::Int(6));
}

#[test]
fn implicit_context_is_appended_last() {
    let args = thread_context(vec![Value::Int(1), Value::Int(2)], false, Some(Value::Int(9)));
    assert_eq!(args, vec![Value::Int(1), Value::Int(2), Value::Int(9)]);
    let none = thread_context(vec![Value::Int(1)], false, None);
    assert_eq!(none, vec![Value::Int(1)]);
    assert_eq!(run("[5,6,7] | index 2", &Value::Null).unwrap(), Value::Int(7));
}

#[test]
fn counts_a_literal_array() {
    assert_eq!(run("count [1,2,3]", &Value::Null).unwrap(), Value::Int(3));
}

#[test]
fn counts_a_piped_array() {
    assert_eq!(run("[1,2,3] | count", &Value::Null).unwrap(), Value::Int(3));
}

#[test]
fn maps_a_lambda_over_an_array() {
    assert_eq!(run("map (@ + 1) [1,2,3]", &Value::Null).unwrap(), ints(&[2, 3, 4]));
}

#[test]
fn eval_threads_context_into_a_call_node() {
    let nodes = parse("count").unwrap();
    assert_eq!(eval(&nodes[0], &Value::Null, Some(ints(&[4, 5]))).unwrap(), Value::Int(2));
    assert!(eval(&nodes[0], &Value::Null, None).is_err());
}

#[test]
fn builtin_arity_and_type_errors() {
    assert!(run("count 1", &Value::Null).is_err());
    assert!(run("count [1] [2]", &Value::Null).is_err());
    assert!(run("keys [1]", &Value::Null).is_err());
    assert!(run("sum [1, \"a\"]", &Value::Null).is_err());
    assert!(run("map (@ + 1) 3", &Value::Null).is_err());
    assert!(run("string [1]", &Value::Null).is_err());
    // floats are held only as bit patterns here: parsing one is the host's work
    assert!(run("float \"1.5\"", &Value::Null).is_err());
}

#[test]
fn keys_values_and_sum() {
    let obj = "{a: 1, b: \"x\"}";
    assert_eq!(
        run(&format!("keys {}", obj), &Value::Null).unwrap(),
        Value::Array(vec![Value::String("a".to_string()), Value::String("b".to_string())])
    );
    assert_eq!(
        run(&format!("values {}", obj), &Value::Null).unwrap(),
        Value::Array(vec![Value::Int(1), Value::String("x".to_string())])
    );
    assert_eq!(run("sum [1, 2, 39]", &Value::Null).unwrap(), Value::Int(42));
    assert_eq!(run("sum []", &Value::Null).unwrap(), Value::Int(0));
    assert!(run("sum [9223372036854775807, 1]", &Value::Null).is_err());
    assert_eq!(run("sum [9223372036854775807, 1, -1]", &Value::Null).unwrap(), Value::Int(i64::MAX));
    assert_eq!(run("count {a: 1, a: 2}", &Value::Null).unwrap(), Value::Int(1));
}

#[test]
fn string_log_and_index() {
    assert_eq!(run("string 42", &Value::Null).unwrap(), Value::String("42".to_string()));
    assert_eq!(run("string -7", &Value::Null).unwrap(), Value::String("-7".to_string()));
    assert_eq!(run("string null", &Value::Null).unwrap(), Value::String("null".to_string()));
    assert_eq!(run("string true", &Value::Null).unwrap(), Value::String("true".to_string()));
    assert_eq!(run("log [1,2]", &Value::Null).unwrap(), ints(&[1, 2]));
    assert_eq!(run("[1,2,3][-1]", &Value::Null).unwrap(), Value::Int(3));
    assert_eq!(run("[1,2,3][5]", &Value::Null).unwrap(), Value::Null);
    assert_eq!(run("{a: 1}[\"a\"]", &Value::Null).unwrap(), Value::Int(1));
    assert_eq!(run("index \"b\" {a: 1}", &Value::Null).unwrap(), Value::Null);
}

#[test]
fn renders_integers_in_the_exact_range() {
    let max = 9007199254740991i64;
    assert_eq!(Value::Int(max).to_string().unwrap(), "9007199254740991");
    assert_eq!(Value::Int(-max).to_string().unwrap(), "-9007199254740991");
    assert_eq!(Value::Int(0).to_string().unwrap(), "0");
    assert_eq!(Value::Int(-120).to_string().unwrap(), "-120");
    assert!(Value::Int(max + 1).to_string().is_none());
    assert!(Value::Float(1.5f64.to_bits()).to_string().is_none());
}

#[test]
fn deep_nesting_fails_cleanly() {
    let deep = format!("{}1{}", "[".repeat(5000), "]".repeat(5000));
    assert!(run(&deep, &Value::Null).is_err());
    assert!(run("count [1,", &Value::Null).is_err());
    assert!(run("", &Value::Null).is_err());
}

#[test]
fn shape_errors_name_function_shape_and_argument() {
    assert_eq!(
        run("count 1", &Value::Null).err().unwrap().message,
        "count expects one array or object, received an integer"
    );
    assert_eq!(
        run("count [1] [2]", &Value::Null).err().unwrap().message,
        "count expects one array or object, received 2 arguments"
    );
    assert_eq!(run("keys [1]", &Value::Null).err().unwrap().message, "keys expects one object, received an array");
    assert_eq!(
        run("sum [1, \"a\"]", &Value::Null).err().unwrap().message,
        "sum expects one array of integers, received an array"
    );
}

#[test]
fn first_failing_argument_error_is_passed_on() {
    let err = run("count (nope 1) (keys 2)", &Value::Null).err().unwrap();
    assert_eq!(err.message, "unknown function nope");
}

#[test]
fn infix_chains_add_left_to_right() {
    assert_eq!(run("1 + 2 + 3", &Value::Null).unwrap(), Value::Int(6));
    assert_eq!(run("\"a\" + \"b\"", &Value::Null).unwrap(), Value::String("ab".to_string()));
    assert_eq!(run("[1] + [2]", &Value::Null).unwrap(), ints(&[1, 2]));
    assert_eq!(run("[[1, 2], [3]][0][1]", &Value::Null).unwrap(), Value::Int(2));
}
