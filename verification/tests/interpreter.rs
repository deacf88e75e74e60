use rylang::environment::Value;
use rylang::interpreter::{lookup_label, FloatAnswer, FloatRequest, Interpreter, Step};
use rylang::parser::Parser;

fn answer(q: &FloatRequest) -> FloatAnswer {
    match q {
        FloatRequest::Parse(s) => FloatAnswer::Bits(s.parse::<f64>().unwrap().to_bits()),
        FloatRequest::Format(b) => FloatAnswer::Text(format!("{}", f64::from_bits(*b))),
        FloatRequest::Arith(l, op, r) => {
            let (l, r) = (f64::from_bits(*l), f64::from_bits(*r));
            let v = match op {
                '+' => l + r,
                '-' => l - r,
                '*' => l * r,
                '/' => l / r,
                '%' => l % r,
                _ => unreachable!(),
            };
            FloatAnswer::Bits(v.to_bits())
        }
    }
}

fn interpreter(src: &str) -> Interpreter {
    let parser = Parser { filepath: String::new(), contents: Some(src.to_string()), statements: None };
    let mut it = Interpreter { data: None, parser, vars: Vec::new(), labels: Vec::new(), index: 0 };
    it.prepare().unwrap();
    it
}

/// Runs a program to its end: the lines it prints or reports, and the error
/// it stops with.
fn run_it(it: &mut Interpreter) -> (Vec<String>, Option<String>) {
    let mut out = Vec::new();
    let mut answers: Vec<FloatAnswer> = Vec::new();
    for _ in 0..100_000 {
        match it.go(&answers) {
            Step::NeedFloat(q) => {
                let a = answer(&q);
                answers.push(a);
            }
            Step::AnswerMismatch => panic!("answer of the wrong kind"),
            Step::Continue => answers.clear(),
            Step::Read(p) => {
                out.push(format!("READ {}", p));
                answers.clear();
            }
            Step::Write { statement, args } => {
                out.push(format!("WRITE | statement: {} | args: {:?}", statement, args));
                answers.clear();
            }
            Step::Print(l) => {
                out.push(l);
                answers.clear();
            }
            Step::Finished => return (out, None),
            Step::Fail(m) => return (out, Some(m)),
        }
    }
    panic!("the program did not end")
}

fn run(src: &str) -> (Vec<String>, Option<String>) {
    let mut it = interpreter(src);
    run_it(&mut it)
}

#[test]
fn let_integer_prints() {
    assert_eq!(run("let x = 5; print(x);"), (vec!["5 (Numeric)".to_string()], None));
}

#[test]
fn let_float_prints() {
    assert_eq!(run("let pi = 3.14; print(pi);"), (vec!["3.14 (Numeric)".to_string()], None));
}

#[test]
fn let_string_bool_null() {
    let (out, err) = run("let s = \"hi\"; let b = TRUE; let n = null; print(s, b, n);");
    assert_eq!(err, None);
    assert_eq!(out, vec!["hi (String) true (Bool) null (Null)".to_string()]);
}

#[test]
fn let_quoted_list_is_vector() {
    let (out, err) = run("let v = \"a,b\"; print(v);");
    assert_eq!(err, None);
    assert_eq!(out, vec!["\"a, b\" (Vector)".to_string()]);
}

#[test]
fn let_unknown_shows_bytes() {
    let (out, err) = run("let u = hi.there; print(u);");
    assert_eq!(err, None);
    assert_eq!(out, vec!["[104, 105, 46, 116, 104, 101, 114, 101] (Unknown)".to_string()]);
}

#[test]
fn let_alias_copies() {
    assert_eq!(run("let a = 5; let b = a; print(b);"), (vec!["5 (Numeric)".to_string()], None));
}

#[test]
fn let_twice_keeps_first() {
    assert_eq!(run("let a = 1; let a = 2; print(a);"), (vec!["1 (Numeric)".to_string()], None));
}

#[test]
fn invalid_let() {
    let (_, err) = run("let x = ;");
    assert_eq!(err, Some("Invalid let statement: let x =".to_string()));
}

#[test]
fn let_of_plain_text_is_string() {
    assert_eq!(run("let x = a b; print(x);"), (vec!["a b (String)".to_string()], None));
}

#[test]
fn let_with_arithmetic() {
    let mut it = interpreter("let x = 5;\nlet pi = 3.14;\nlet y = x + pi;\n");
    let (out, err) = run_it(&mut it);
    assert_eq!((out.len(), err), (0, None));
    assert_eq!(it.vars.len(), 3);
    assert_eq!(it.vars[2].name, "y");
    assert_eq!(
        it.vars[2].to_value().unwrap(),
        Value::Numeric { bits: (5.0f64 + 3.14).to_bits(), is_integer: false }
    );
}

#[test]
fn let_with_whole_arithmetic() {
    assert_eq!(run("let a = 4; let b = a * 3; print(b);"), (vec!["12 (Numeric)".to_string()], None));
}

#[test]
fn documented_label_loop() {
    let src = r#"let i = 0;
let y = 10;

branch one;

label one:
    let hw = "Hello World!\n";
    print(hw);
    i = i + 1;
    if (i < y) branch one;
"#;
    let mut it = interpreter(src);
    let (out, err) = run_it(&mut it);
    assert_eq!(err, None);
    assert_eq!(out, vec!["Hello World!\\n (String)".to_string(); 10]);
    assert_eq!(it.dereference("i"), "{NAME: i}TYPE: numeric}");
    let i = &it.vars[0];
    assert_eq!(i.to_value().unwrap(), Value::Numeric { bits: 10.0f64.to_bits(), is_integer: true });
    assert_eq!(lookup_label(&it.labels, &vec!['o', 'n', 'e']), Some(3));
}

#[test]
fn label_before_branch_runs_it() {
    let (out, err) = run("let n = 0; label top: n = n + 1; if (n < 3) branch top; print(n);");
    assert_eq!(err, None);
    assert_eq!(out, vec!["3 (Numeric)".to_string()]);
}

#[test]
fn parenthesised_assignment() {
    let src = "let H = 0.5; let T1 = 2; let T2 = 4; let Ts = 0; Ts = (H * T1) + ((1.0 - H) * (T1 + T2)); print(Ts);";
    let mut it = interpreter(src);
    let (out, err) = run_it(&mut it);
    assert_eq!(err, None);
    assert_eq!(out, vec!["4 (Numeric)".to_string()]);
    assert_eq!(it.vars.len(), 4);
}

#[test]
fn parenthesised_forms() {
    let (out, err) = run("let a = 7; b = (a); c = ((a - 1) / 4); d = (a) % (2 + 1); e = \"(x\"; print(b, c, d, e);");
    assert_eq!(err, None);
    assert_eq!(out, vec!["7 (Numeric) 1.5 (Numeric) 1 (Numeric) (x (String)".to_string()]);
    let (_, err) = run("let a = 1; b = (a / (a - 1));");
    assert_eq!(err, Some("Division by zero.".to_string()));
}

#[test]
fn label_loop_counts() {
    let src = "let i = 0; let y = 3; branch one; label one; print(i); i = i + 1; if (i < y) branch one;";
    let (out, err) = run(src);
    assert_eq!(err, None);
    assert_eq!(out, vec!["0 (Numeric)", "1 (Numeric)", "2 (Numeric)"]);
}

#[test]
fn float_sum_assigned() {
    let (out, err) = run("let a = 1.5; let b = 2.25; c = a + b; print(c);");
    assert_eq!(err, None);
    assert_eq!(out, vec!["3.75 (Numeric)".to_string()]);
}

#[test]
fn remainder_and_product() {
    let (out, err) = run("let a = 7; b = a % 2; c = a * 6; print(b, c);");
    assert_eq!(err, None);
    assert_eq!(out, vec!["1 (Numeric) 42 (Numeric)".to_string()]);
}

#[test]
fn large_product_prints_whole() {
    let (out, err) = run("let a = 1000000000000000; b = a * 10; print(b);");
    assert_eq!(err, None);
    assert_eq!(out, vec!["10000000000000000 (Numeric)".to_string()]);
}

#[test]
fn huge_literal_is_float() {
    let (out, err) = run("let big = 99999999999999999999; print(big);");
    assert_eq!(err, None);
    assert_eq!(out, vec!["100000000000000000000 (Numeric)".to_string()]);
}

#[test]
fn division_by_zero_fails() {
    let (_, err) = run("let a = 1; b = a / 0;");
    assert_eq!(err, Some("Division by zero.".to_string()));
}

#[test]
fn modulo_by_zero_fails() {
    let (_, err) = run("let a = 1; b = a % 0.0;");
    assert_eq!(err, Some("Modulo by zero.".to_string()));
}

#[test]
fn text_concatenation() {
    let (out, err) = run("let s = \"ab\"; t = s + \"cd\"; print(t);");
    assert_eq!(err, None);
    assert_eq!(out, vec!["abcd (String)".to_string()]);
}

#[test]
fn non_numeric_operator_fails() {
    let (_, err) = run("let s = \"ab\"; t = s - 1;");
    assert_eq!(
        err,
        Some("Operator '-' cannot be applied to non-numeric operands 'ab' and '1'.".to_string())
    );
}

#[test]
fn bad_numeric_assignment() {
    let (_, err) = run("x = \" 5\";");
    assert_eq!(err, Some("Bad numeric ' 5': Bad numeric ' 5': invalid float literal".to_string()));
}

#[test]
fn bad_numeric_reassignment() {
    let (_, err) = run("let x = 1; x = \" 5\";");
    assert_eq!(
        err,
        Some("Arithmetic produced bad numeric ' 5': Bad numeric ' 5': invalid float literal".to_string())
    );
}

#[test]
fn assign_with_terminator_marks() {
    let (out, err) = run("x = 4:; print(x);");
    assert_eq!(err, None);
    assert_eq!(out, vec!["4 (Numeric)".to_string()]);
}

#[test]
fn unrecognized_statement() {
    let (_, err) = run("foo;");
    assert_eq!(err, Some("Unrecognized statement: foo".to_string()));
}

#[test]
fn write_reports_arguments() {
    let (out, err) = run("write(\"out.csv\", x);");
    assert_eq!(err, None);
    assert_eq!(out, vec!["WRITE | statement: write(\"out.csv\", x) | args: [\"out.csv\", \"x\"]".to_string()]);
}

#[test]
fn read_gives_path() {
    let (out, err) = run("read(\"data.csv\");");
    assert_eq!(err, None);
    assert_eq!(out, vec!["READ data.csv".to_string()]);
}

#[test]
fn read_without_argument_fails() {
    let (_, err) = run("read();");
    assert_eq!(err, Some("read() expects exactly 1 argument, got 0: read()".to_string()));
}

#[test]
fn read_missing_parenthesis_fails() {
    let (_, err) = run("read \"x\";");
    assert_eq!(err, Some("Missing '(' in: read \"x\"".to_string()));
}

#[test]
fn missing_label_fails() {
    let (_, err) = run("branch nowhere;");
    assert_eq!(err, Some("Label 'nowhere' not found.".to_string()));
}

#[test]
fn malformed_if_fails() {
    let (_, err) = run("let x = 1; if x branch y;");
    assert_eq!(err, Some("Malformed if statement: if x branch y".to_string()));
}

#[test]
fn string_condition_jumps() {
    let (out, err) = run("let s = \"abc\"; if (s == abc) branch end; print(s); label end;");
    assert_eq!(err, None);
    assert!(out.is_empty());
}

#[test]
fn false_condition_falls_through() {
    let (out, err) = run("let s = \"abc\"; if (s > abd) branch end; print(s); label end;");
    assert_eq!(err, None);
    assert_eq!(out, vec!["abc (String)".to_string()]);
}

#[test]
fn unsupported_condition_fails() {
    let (_, err) = run("let x = 1; if (x + 1 > 2) branch a; label a;");
    assert_eq!(err, Some("Unsupported condition: 'x + 1 > 2'".to_string()));
}

#[test]
fn unknown_condition_variable_fails() {
    let (_, err) = run("if (zz > 1) branch a; label a;");
    assert_eq!(err, Some("Unknown variable 'zz' in condition.".to_string()));
}

#[test]
fn print_plain_arguments() {
    let (out, err) = run("print(hello, \"w o\");");
    assert_eq!(err, None);
    assert_eq!(out, vec!["hello w o".to_string()]);
}

#[test]
fn print_without_arguments_fails() {
    let (_, err) = run("print();");
    assert_eq!(err, Some("print() expects at least 1 argument: print()".to_string()));
}

#[test]
fn dereference_names_type() {
    let mut it = interpreter("let x = 5;");
    run_it(&mut it);
    assert_eq!(it.dereference("x"), "{NAME: x}TYPE: numeric}".to_string());
    assert_eq!(it.dereference("y"), String::new());
}

#[test]
fn later_label_wins() {
    let it = interpreter("label a; label a; let b = 1;");
    assert_eq!(lookup_label(&it.labels, &vec!['a']), Some(1));
    assert_eq!(lookup_label(&it.labels, &vec!['b']), None);
}

#[test]
fn request_is_repeated_until_answered() {
    let mut it = interpreter("let pi = 3.5;");
    let step = it.go(&Vec::new());
    match step {
        Step::NeedFloat(FloatRequest::Parse(s)) => assert_eq!(s, "3.5"),
        _ => panic!("expected a request"),
    }
    assert_eq!(it.index, 0);
    assert!(it.vars.is_empty());
    let wrong = vec![FloatAnswer::Text("x".to_string())];
    assert!(matches!(it.go(&wrong), Step::AnswerMismatch));
    let right = vec![FloatAnswer::Bits(3.5f64.to_bits())];
    assert!(matches!(it.go(&right), Step::Continue));
    assert_eq!(it.index, 1);
    assert_eq!(it.vars.len(), 1);
    assert!(matches!(it.go(&Vec::new()), Step::Finished));
}

#[test]
fn unbalanced_statements_reported() {
    let parser = Parser { filepath: String::new(), contents: Some("print((x); let y = 1;".to_string()), statements: None };
    let mut it = Interpreter { data: None, parser, vars: Vec::new(), labels: Vec::new(), index: 0 };
    let bad = it.prepare().unwrap();
    assert_eq!(bad, vec!["print((x)".to_string()]);
    assert!(!it.check_parentheses_structure("[\"]\""));
    assert!(it.check_parentheses_structure("f(\"(\", [1])"));
}

#[test]
fn helpers_split_arguments() {
    let it = interpreter("label a;");
    assert_eq!(it.parse_args(" \"a,b\" , c ,, d"), vec!["a,b", "c", "d"]);
    assert_eq!(it.clean_arg("  \"q\"  "), "q".to_string());
}
