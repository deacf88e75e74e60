use rylang::compiler::Compiler;
use rylang::csv::{ColumnType, CSV};
use rylang::environment::{Type, Value};
use rylang::interpreter::{FloatAnswer, FloatRequest, Interpreter, Step};
use rylang::operations::add_uint;
use rylang::parser::Parser;

const TYPES: [ColumnType; 5] =
    [ColumnType::Empty, ColumnType::Boolean, ColumnType::Integer, ColumnType::Float, ColumnType::String];

fn answer(q: &FloatRequest) -> FloatAnswer {
    match q {
        FloatRequest::Parse(s) => FloatAnswer::Bits(s.parse::<f64>().unwrap().to_bits()),
        FloatRequest::Format(b) => FloatAnswer::Text(format!("{}", f64::from_bits(*b))),
        FloatRequest::Arith(l, op, r) => {
            let (l, r) = (f64::from_bits(*l), f64::from_bits(*r));
            FloatAnswer::Bits(match op {
                '+' => l + r,
                '-' => l - r,
                '*' => l * r,
                '/' => l / r,
                _ => l % r,
            }
            .to_bits())
        }
    }
}

fn run(src: &str) -> (Interpreter, Vec<String>) {
    let parser = Parser { filepath: String::new(), contents: Some(src.to_string()), statements: None };
    let mut it = Interpreter { data: None, parser, vars: Vec::new(), labels: Vec::new(), index: 0 };
    it.prepare().unwrap();
    let mut out = Vec::new();
    let mut answers = Vec::new();
    loop {
        match it.go(&answers) {
            Step::NeedFloat(q) => answers.push(answer(&q)),
            Step::Print(l) => {
                out.push(l);
                answers.clear();
            }
            Step::Finished => return (it, out),
            Step::Fail(m) => panic!("{}", m),
            _ => answers.clear(),
        }
    }
}

#[test]
fn merging_types_commutes_and_associates() {
    for a in TYPES {
        assert_eq!(CSV::merge_types(ColumnType::Empty, a), a);
        assert_eq!(CSV::merge_types(a, ColumnType::Empty), a);
        assert_eq!(CSV::merge_types(a, a), a);
        for b in TYPES {
            assert_eq!(CSV::merge_types(a, b), CSV::merge_types(b, a));
            for c in TYPES {
                assert_eq!(
                    CSV::merge_types(CSV::merge_types(a, b), c),
                    CSV::merge_types(a, CSV::merge_types(b, c))
                );
            }
        }
    }
}

#[test]
fn column_type_covers_its_cells() {
    let t = CSV::parse("t.csv".to_string(), "a,b,c\n1,yes,\n2.5,x,\n3,no,\n", None, true);
    assert_eq!(t.column_types, vec![ColumnType::Float, ColumnType::String, ColumnType::Empty]);
    for (i, cell) in t.data.iter().enumerate() {
        let col = i % 3;
        let ty = t.column_types[col];
        assert_eq!(CSV::merge_types(ty, CSV::classify_value(cell)), ty);
    }
}

#[test]
fn balanced_texts_compose() {
    let c = Compiler { data: None, parser: Parser { filepath: String::new(), contents: None, statements: None } };
    let a = "f(\"x)\", [1, {2}])";
    let b = "'('";
    assert!(c.check_parentheses_structure(a.to_string()));
    assert!(c.check_parentheses_structure(b.to_string()));
    assert!(c.check_parentheses_structure(format!("{}{}", a, b)));
    assert!(c.check_parentheses_structure(format!("[{}]", a)));
    assert!(c.check_parentheses_structure("plain words, no brackets".to_string()));
}

#[test]
fn arguments_are_never_empty() {
    let c = Compiler { data: None, parser: Parser { filepath: String::new(), contents: None, statements: None } };
    let args = c.parse_args(",, a ,  ,\"\", b,");
    assert_eq!(args, vec!["a", "b"]);
    assert!(args.iter().all(|a| !a.is_empty()));
}

#[test]
fn integer_cells_add_exactly() {
    let mut t = CSV::parse("t.csv".to_string(), "n\n9007199254740990\n-9007199254740991\n", None, true);
    assert_eq!(add_uint(&mut t, 1, 0), Ok(vec![]));
    assert_eq!(t.data, vec!["9007199254740991", "-9007199254740990"]);
}

#[test]
fn assignment_then_read() {
    let (it, out) = run("let x = 1; let y = 2; x = 5; print(x, y);");
    assert_eq!(out, vec!["5 (Numeric) 2 (Numeric)".to_string()]);
    assert_eq!(it.vars.len(), 2);
    let (it2, out2) = run("z = \"w\"; print(z);");
    assert_eq!(out2, vec!["w (String)".to_string()]);
    assert_eq!(it2.vars[0].var_type, Type::String);
}

#[test]
fn vector_literal_keeps_its_text() {
    let (it, _) = run("let v = \"a,b,,c\";");
    assert_eq!(it.vars[0].var_type, Type::Vector);
    assert_eq!(it.vars[0].data, b"\"a,b,,c\"".to_vec());
}

#[test]
fn whole_results_are_integers() {
    let (it, out) = run("let h = 2.5; x = h * 4; print(x);");
    assert_eq!(out, vec!["10 (Numeric)".to_string()]);
    assert_eq!(it.vars[1].to_value().unwrap(), Value::Numeric { bits: 10.0f64.to_bits(), is_integer: true });
}

#[test]
fn statements_have_no_outer_space() {
    let mut p = Parser { filepath: String::new(), contents: Some(" \t a ;\u{a0}b\u{2003};;\n".to_string()), statements: None };
    p.get_statements().unwrap();
    let st = p.statements.unwrap();
    assert_eq!(st, vec!["a".to_string(), "b".to_string()]);
    assert!(st.iter().all(|s| !s.is_empty() && s.trim() == s));
}

#[test]
fn parentheses_change_nothing() {
    let (_, out) = run("let a = 2; b = (a + 1); c = a + 1; d = ((a)); print(b, c, d);");
    assert_eq!(out, vec!["3 (Numeric) 3 (Numeric) 2 (Numeric)".to_string()]);
}
