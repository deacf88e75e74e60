use rylang::csv::{ColumnType, CSV};
use rylang::operations::{add_uint, guess_type, is_integer_string};
use rylang::environment::Type;

fn table(contents: &str, has_header: bool) -> CSV {
    CSV::parse("t.csv".to_string(), contents, None, has_header)
}

#[test]
fn parse_with_header() {
    let t = table("name,age\nbob, 30\nann,41\n", true);
    assert_eq!(t.headers, Some(vec!["name".to_string(), "age".to_string()]));
    assert_eq!(t.data, vec!["bob", "30", "ann", "41"]);
    assert_eq!(t.row_length, 2);
    assert_eq!(t.num_rows, 2);
    assert_eq!(t.delim, ",");
    assert_eq!(t.column_types, vec![ColumnType::String, ColumnType::Integer]);
}

#[test]
fn parse_without_header() {
    let t = table("1;2.5\n3;x", false);
    assert_eq!(t.headers, None);
    assert_eq!(t.data, vec!["1;2.5", "3;x"]);
    assert_eq!(t.row_length, 1);
    assert_eq!(t.num_rows, 2);
    let u = CSV::parse("t.csv".to_string(), "1;2.5\r\n3; \n", Some(";".to_string()), false);
    assert_eq!(u.data, vec!["1", "2.5", "3", ""]);
    assert_eq!(u.column_types, vec![ColumnType::Integer, ColumnType::Float]);
}

#[test]
fn classify_cells() {
    assert_eq!(CSV::classify_value("  "), ColumnType::Empty);
    assert_eq!(CSV::classify_value("Yes"), ColumnType::Boolean);
    assert_eq!(CSV::classify_value(" F "), ColumnType::Boolean);
    assert_eq!(CSV::classify_value("-3"), ColumnType::Integer);
    assert_eq!(CSV::classify_value("+3"), ColumnType::Integer);
    assert_eq!(CSV::classify_value("2.5"), ColumnType::Float);
    assert_eq!(CSV::classify_value("abc"), ColumnType::String);
}

#[test]
fn float_syntax_agrees_with_std() {
    let samples = [
        "1e3", "inf", "-Infinity", "NaN", "+.5", "5.", ".", "1e", "e5", "1e+7", "0x10", "1_000",
        "infinit", "nan1", "1.5E-3", "--1", "", " 1",
    ];
    for s in samples {
        let expected = if s.trim().is_empty() {
            ColumnType::Empty
        } else if s.trim().parse::<i64>().is_ok() {
            ColumnType::Integer
        } else if s.trim().parse::<f64>().is_ok() {
            ColumnType::Float
        } else {
            ColumnType::String
        };
        assert_eq!(CSV::classify_value(s), expected, "{}", s);
    }
}

#[test]
fn merge_column_types() {
    assert_eq!(CSV::merge_types(ColumnType::Empty, ColumnType::Float), ColumnType::Float);
    assert_eq!(CSV::merge_types(ColumnType::Boolean, ColumnType::Empty), ColumnType::Boolean);
    assert_eq!(CSV::merge_types(ColumnType::Integer, ColumnType::Float), ColumnType::Float);
    assert_eq!(CSV::merge_types(ColumnType::Float, ColumnType::Integer), ColumnType::Float);
    assert_eq!(CSV::merge_types(ColumnType::Boolean, ColumnType::Integer), ColumnType::String);
    assert_eq!(CSV::merge_types(ColumnType::String, ColumnType::String), ColumnType::String);
}

#[test]
fn infer_types_again() {
    let mut t = table("a,b\n1,t\n2.5,\n", true);
    t.column_types = Vec::new();
    t.infer_column_types();
    assert_eq!(t.column_types, vec![ColumnType::Float, ColumnType::Boolean]);
}

#[test]
fn table_lines_pad_columns() {
    let t = table("name,age\nbob,30\nann,41\n", true);
    assert_eq!(t.column_widths(), vec![4, 3]);
    assert_eq!(
        t.table_lines(),
        vec!["name , age", "-----+----", "bob  , 30 ", "ann  , 41 "]
    );
}

#[test]
fn table_lines_count_bytes_for_width() {
    let t = table("h\n\u{e9}\n", true);
    assert_eq!(t.column_widths(), vec![2]);
    assert_eq!(t.table_lines(), vec!["h ", "--", "\u{e9} "]);
}

#[test]
fn empty_table_lines() {
    let t = table("", true);
    assert_eq!(t.row_length, 0);
    assert_eq!(t.table_lines(), vec!["[empty csv]"]);
}

#[test]
fn add_to_integer_column() {
    let mut t = table("a,b\n1,x\n2,y\n", true);
    assert_eq!(add_uint(&mut t, 5, 0), Ok(vec![]));
    assert_eq!(t.data, vec!["6", "x", "7", "y"]);
}

#[test]
fn add_reports_float_cells() {
    let mut t = table("a\n1.5\n2\n", true);
    assert_eq!(add_uint(&mut t, 5, 0), Ok(vec![0]));
    assert_eq!(t.data, vec!["1.5", "7"]);
}

#[test]
fn add_rounds_like_binary64() {
    let mut t = table("a\n9007199254740993\n-9223372036854775808\n", true);
    assert_eq!(add_uint(&mut t, 0, 0), Ok(vec![]));
    let first = (9007199254740993i64 as f64 + 0.0) as i64;
    assert_eq!(t.data, vec![first.to_string(), i64::MIN.to_string()]);
    let mut u = table("a\n9223372036854775807\n", true);
    assert_eq!(add_uint(&mut u, 4_000_000_000, 0), Ok(vec![]));
    assert_eq!(u.data, vec![i64::MAX.to_string()]);
}

#[test]
fn add_errors() {
    let mut t = table("a,b\n1,x\n", true);
    assert_eq!(add_uint(&mut t, 1, 2), Err("error: invalid column index".to_string()));
    assert_eq!(add_uint(&mut t, 1, 1), Err("error: row 1 column 1: could not parse 'x' as a number".to_string()));
    let mut e = table("a\n \n", true);
    assert_eq!(add_uint(&mut e, 1, 0), Err("error: row 1 column 0: input is empty".to_string()));
    let mut m = table("a,b\n1\n", true);
    assert_eq!(add_uint(&mut m, 1, 1), Err("error: row 1 is missing column 1".to_string()));
    assert_eq!(m.data, vec!["1"]);
}

#[test]
fn guess_literal_types() {
    assert_eq!(guess_type("12".to_string()), Type::Numeric);
    assert_eq!(guess_type("a,b".to_string()), Type::Vector);
    assert_eq!(guess_type("'q'".to_string()), Type::String);
    assert_eq!(guess_type("`q`".to_string()), Type::String);
    assert_eq!(guess_type("q".to_string()), Type::Unknown);
    assert!(is_integer_string(" 7 "));
    assert!(!is_integer_string("7.0"));
}

fn example_table() -> CSV {
    CSV {
        fp: "f".to_string(),
        delim: ",".to_string(),
        row_length: 2,
        num_rows: 1,
        has_header: true,
        headers: Some(vec!["name".to_string(), "x".to_string()]),
        data: vec!["a".to_string(), "10".to_string()],
        column_types: vec![ColumnType::String, ColumnType::Integer],
    }
}

#[test]
fn summary_lines_describe_table() {
    let t = example_table();
    assert_eq!(
        t.summary_lines(),
        vec![
            "Filepath   : f",
            "Delimiter  : \",\"",
            "Rows       : 1",
            "Row length : 2",
            "Has header : true",
            "Cells      : 2",
            "Col types  : [String, Integer]",
            "",
            "",
        ]
    );
}

#[test]
fn printed_text_of_table() {
    let t = example_table();
    let mut text = String::new();
    for line in t.printed_lines() {
        text.push_str(&line);
        text.push('\n');
    }
    assert_eq!(
        text,
        "Filepath   : f\nDelimiter  : \",\"\nRows       : 1\nRow length : 2\nHas header : true\nCells      : 2\nCol types  : [String, Integer]\n\n\nname , x \n-----+---\na    , 10\n"
    );
}

#[test]
fn summary_escapes_delimiter() {
    let t = CSV::parse("p".to_string(), "a\tb\n", Some("\t".to_string()), false);
    let lines = t.summary_lines();
    assert_eq!(lines[1], format!("Delimiter  : {:?}", "\t"));
    assert_eq!(lines[4], "Has header : false");
    assert_eq!(lines[6], "Col types  : [String, String]");
}
