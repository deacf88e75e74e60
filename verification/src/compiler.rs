//! The compiler front end: it checks every statement and finds the calls
//! to `read(...)` and `write(...)`, which its driver carries out.

use vstd::prelude::*;
use crate::csv::CSV;
use crate::parser::Parser;
use crate::pattern::{captures, captures_view, group, regex_captures};
use crate::syntax::{
    balanced, check_structure, clean_arg, clean_arg_spec, parse_args, parse_args_spec,
};
use crate::text::{append_chars, chars_eq, chars_of, lemma_map_push, string_of, trim};
use crate::numbers::nat_text;

verus! {

pub struct Compiler {
    pub data: Option<CSV>,
    pub parser: Parser,
}

/// A call that the driver carries out.
pub enum Command {
    /// Load the CSV file at this path.
    Read(String),
    /// Report a write call: the statement, its raw argument text and its
    /// arguments.
    Write { statement: String, raw_args: String, args: Vec<String> },
}

pub enum CommandModel {
    Read(Seq<char>),
    Write(Seq<char>, Seq<char>, Seq<Seq<char>>),
}

pub open spec fn command_view(c: Command) -> CommandModel {
    match c {
        Command::Read(p) => CommandModel::Read(p@),
        Command::Write { statement, raw_args, args } => CommandModel::Write(
            statement@,
            raw_args@,
            args@.map_values(|s: String| s@),
        ),
    }
}

/// A function call statement: a name, then its arguments in parentheses.
pub open spec fn call_pattern() -> Seq<char> {
    "^\\s*([a-zA-Z_][a-zA-Z0-9_]*)\\s*\\((.*)\\)\\s*$"@
}

/// What a statement asks of the driver, given the capture groups of
/// `call_pattern` on it.
pub open spec fn command_of_captures(statement: Seq<char>, caps: Option<Seq<Option<Seq<char>>>>) -> Result<
    Option<CommandModel>,
    Seq<char>,
> {
    match caps {
        None => Ok(None),
        Some(c) => match (group(c, 1), group(c, 2)) {
            (Some(keyword), Some(raw)) => {
                if keyword == "read"@ {
                    let args = parse_args_spec(raw);
                    if args.len() != 1 {
                        Err("read() expects exactly 1 argument, got "@ + nat_text(args.len())
                            + " in statement: "@ + statement)
                    } else if trim(args[0]).len() == 0 {
                        Err("read() got an empty filepath in statement: "@ + statement)
                    } else {
                        Ok(Some(CommandModel::Read(args[0])))
                    }
                } else if keyword == "write"@ {
                    Ok(Some(CommandModel::Write(statement, raw, parse_args_spec(raw))))
                } else {
                    Ok(None)
                }
            },
            _ => Ok(None),
        },
    }
}

/// What a statement asks of the driver.
pub open spec fn command_spec(statement: Seq<char>) -> Result<Option<CommandModel>, Seq<char>> {
    command_of_captures(statement, regex_captures(call_pattern(), statement))
}

pub open spec fn result_view(r: Result<Option<Command>, String>) -> Result<Option<CommandModel>, Seq<char>> {
    match r {
        Ok(Some(c)) => Ok(Some(command_view(c))),
        Ok(None) => Ok(None),
        Err(e) => Err(e@),
    }
}

/// What a statement asks of the driver, given the capture groups of
/// `call_pattern` on it.
pub fn command_from_captures(statement: &str, caps: Option<Vec<Option<String>>>) -> (r: Result<
    Option<Command>,
    String,
>)
    ensures
        result_view(r) == command_of_captures(statement@, captures_view(caps)),
{
    let c = match caps {
        None => {
            return Ok(None);
        },
        Some(c) => c,
    };
    let keyword = crate::pattern::get_group(&c, 1);
    let raw = crate::pattern::get_group(&c, 2);
    let (keyword, raw) = match (keyword, raw) {
        (Some(k), Some(r)) => (k, r),
        _ => {
            return Ok(None);
        },
    };
    let kw = chars_of(keyword.as_str());
    let raw_chars = chars_of(raw.as_str());
    let read_word = chars_of("read");
    let write_word = chars_of("write");
    if chars_eq(&kw, &read_word) {
        let args = parse_args(&raw_chars);
        if args.len() != 1 {
            let mut e = chars_of("read() expects exactly 1 argument, got ");
            append_chars(&mut e, &crate::numbers::u64_text(args.len() as u64));
            append_chars(&mut e, &chars_of(" in statement: "));
            append_chars(&mut e, &chars_of(statement));
            return Err(string_of(&e));
        }
        let path = &args[0];
        let t = crate::text::trim_chars(path);
        if t.len() == 0 {
            let mut e = chars_of("read() got an empty filepath in statement: ");
            append_chars(&mut e, &chars_of(statement));
            return Err(string_of(&e));
        }
        Ok(Some(Command::Read(string_of(path))))
    } else if chars_eq(&kw, &write_word) {
        let args = parse_args(&raw_chars);
        let mut out: Vec<String> = Vec::new();
        let mut i: usize = 0;
        while i < args.len()
            invariant
                i <= args.len(),
                out@.map_values(|s: String| s@) == args@.take(i as int).map_values(
                    |v: Vec<char>| v@,
                ),
            decreases args.len() - i,
        {
            let ghost before = out@;
            let s = string_of(&args[i]);
            out.push(s);
            i = i + 1;
            proof {
                lemma_map_push(before, s, |s: String| s@);
                assert(args@.take(i as int) =~= args@.take(i - 1).push(args@[i - 1]));
                lemma_map_push(args@.take(i - 1), args@[i - 1], |v: Vec<char>| v@);
            }
        }
        assert(args@.take(i as int) =~= args@);
        Ok(Some(Command::Write { statement: string_of(&chars_of(statement)), raw_args: raw, args: out }))
    } else {
        Ok(None)
    }
}

impl Compiler {
    /// What a statement asks of the driver (see `command_spec`).
    pub fn command_for(statement: &str) -> (r: Result<Option<Command>, String>)
        ensures
            result_view(r) == command_spec(statement@),
    {
        let caps = captures("^\\s*([a-zA-Z_][a-zA-Z0-9_]*)\\s*\\((.*)\\)\\s*$", statement);
        command_from_captures(statement, caps)
    }

    /// The statements whose brackets or quotes do not balance, in order.
    pub fn fail_early(&self) -> (r: Vec<String>)
        ensures
            self.parser.statements is None ==> r@.len() == 0,
            self.parser.statements matches Some(st) ==> r@.map_values(|s: String| s@)
                == unbalanced(st@.map_values(|s: String| s@)),
    {
        unbalanced_statements(&self.parser.statements)
    }

    /// Whether the brackets and quotes of `input` balance.
    pub fn check_parentheses_structure(&self, input: String) -> (r: bool)
        ensures
            r == balanced(input@),
    {
        check_structure(&chars_of(input.as_str()))
    }

    /// The arguments of an argument list.
    pub fn parse_args(&self, args_text: &str) -> (r: Vec<String>)
        ensures
            r@.map_values(|s: String| s@) == parse_args_spec(args_text@),
    {
        strings_of(&parse_args(&chars_of(args_text)))
    }

    /// An argument trimmed and without enclosing double quotes.
    pub fn clean_arg(&self, arg: &str) -> (r: String)
        ensures
            r@ == clean_arg_spec(arg@),
    {
        string_of(&clean_arg(&chars_of(arg)))
    }
}

/// Character vectors as strings.
pub fn strings_of(v: &Vec<Vec<char>>) -> (r: Vec<String>)
    ensures
        r@.map_values(|s: String| s@) == v@.map_values(|c: Vec<char>| c@),
{
    let mut out: Vec<String> = Vec::new();
    let mut i: usize = 0;
    while i < v.len()
        invariant
            i <= v.len(),
            out@.map_values(|s: String| s@) == v@.take(i as int).map_values(|c: Vec<char>| c@),
        decreases v.len() - i,
    {
        let ghost before = out@;
        let s = string_of(&v[i]);
        out.push(s);
        i = i + 1;
        proof {
            lemma_map_push(before, s, |s: String| s@);
            assert(v@.take(i as int) =~= v@.take(i - 1).push(v@[i - 1]));
            lemma_map_push(v@.take(i - 1), v@[i - 1], |c: Vec<char>| c@);
        }
    }
    assert(v@.take(i as int) =~= v@);
    out
}

/// The statements that are not balanced, in order.
pub open spec fn unbalanced(st: Seq<Seq<char>>) -> Seq<Seq<char>>
    decreases st.len(),
{
    if st.len() == 0 {
        Seq::empty()
    } else if balanced(st.last()) {
        unbalanced(st.drop_last())
    } else {
        unbalanced(st.drop_last()).push(st.last())
    }
}

/// The statements that are not balanced, in order.
pub fn unbalanced_statements(statements: &Option<Vec<String>>) -> (r: Vec<String>)
    ensures
        statements is None ==> r@.len() == 0,
        statements matches Some(st) ==> r@.map_values(|s: String| s@) == unbalanced(
            st@.map_values(|s: String| s@),
        ),
{
    let mut out: Vec<String> = Vec::new();
    match statements {
        None => out,
        Some(st) => {
            let ghost ss = st@.map_values(|s: String| s@);
            let mut i: usize = 0;
            while i < st.len()
                invariant
                    i <= st.len(),
                    ss == st@.map_values(|s: String| s@),
                    out@.map_values(|s: String| s@) == unbalanced(ss.take(i as int)),
                decreases st.len() - i,
            {
                proof {
                    assert(ss.take(i + 1).drop_last() =~= ss.take(i as int));
                    assert(ss.take(i + 1).last() == st@[i as int]@);
                }
                if !check_structure(&chars_of(st[i].as_str())) {
                    let ghost before = out@;
                    let s = st[i].clone();
                    out.push(s);
                    proof {
                        lemma_map_push(before, s, |s: String| s@);
                    }
                }
                i = i + 1;
            }
            assert(ss.take(i as int) =~= ss);
            out
        },
    }
}

} // verus!
