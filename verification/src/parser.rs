//! Splitting a program into statements: statements end with ';', and nothing
//! but white space may follow the last one.

use vstd::prelude::*;
use crate::pattern::{is_match, regex_is_match, regex_split, split};
use crate::text::{append_chars, chars_of, lemma_map_push, string_of, trim, trim_chars};
use crate::numbers::{nat_text, u64_text};

verus! {

pub struct Parser {
    pub filepath: String,
    pub contents: Option<String>,
    pub statements: Option<Vec<String>>,
}

#[derive(Debug, Clone, Copy, PartialEq, Eq, Structural)]
pub enum StatementsError {
    /// No program text has been read.
    NoContents,
    /// Something other than white space follows the last ';'.
    TrailingText,
}

/// The pattern that a program must match: a ';' followed only by white space
/// up to the end.
pub open spec fn end_pattern() -> Seq<char> {
    ";\\s*$"@
}

pub open spec fn semicolon_pattern() -> Seq<char> {
    ";"@
}

/// The pieces, trimmed, without the empty ones.
pub open spec fn nonempty_trimmed(pieces: Seq<Seq<char>>) -> Seq<Seq<char>>
    decreases pieces.len(),
{
    if pieces.len() == 0 {
        Seq::empty()
    } else {
        let rest = nonempty_trimmed(pieces.drop_last());
        if trim(pieces.last()).len() > 0 {
            rest.push(trim(pieces.last()))
        } else {
            rest
        }
    }
}

/// The statements of a program text.
pub open spec fn statements_of(contents: Seq<char>) -> Result<Seq<Seq<char>>, StatementsError> {
    if !regex_is_match(end_pattern(), contents) {
        Err(StatementsError::TrailingText)
    } else {
        Ok(nonempty_trimmed(regex_split(semicolon_pattern(), contents)))
    }
}

impl StatementsError {
    pub fn message(&self) -> (r: &'static str)
        ensures
            r@ == match self {
                StatementsError::NoContents => "contents is None"@,
                StatementsError::TrailingText => "non-whitespace content found after last ';'"@,
            },
    {
        match self {
            StatementsError::NoContents => "contents is None",
            StatementsError::TrailingText => "non-whitespace content found after last ';'",
        }
    }
}

/// The statements made from pieces of program text: each trimmed, empty
/// ones dropped.
pub fn statements_from_pieces(pieces: &Vec<String>) -> (r: Vec<String>)
    ensures
        r@.map_values(|s: String| s@) == nonempty_trimmed(pieces@.map_values(|s: String| s@)),
{
    let ghost ps = pieces@.map_values(|s: String| s@);
    let mut r: Vec<String> = Vec::new();
    let mut i: usize = 0;
    while i < pieces.len()
        invariant
            i <= pieces.len(),
            ps == pieces@.map_values(|s: String| s@),
            r@.map_values(|s: String| s@) == nonempty_trimmed(ps.take(i as int)),
        decreases pieces.len() - i,
    {
        let t = trim_chars(&chars_of(pieces[i].as_str()));
        proof {
            assert(ps.take(i + 1).drop_last() =~= ps.take(i as int));
            assert(ps.take(i + 1).last() == pieces@[i as int]@);
        }
        if t.len() > 0 {
            let ghost before = r@;
            let s = string_of(&t);
            r.push(s);
            proof {
                lemma_map_push(before, s, |s: String| s@);
            }
        }
        i = i + 1;
    }
    assert(ps.take(i as int) =~= ps);
    r
}

impl Parser {
    /// Splits the program text into statements (see `statements_of`).
    pub fn get_statements(&mut self) -> (r: Result<(), StatementsError>)
        ensures
            final(self).filepath == old(self).filepath,
            final(self).contents == old(self).contents,
            old(self).contents is None ==> r == Err::<(), StatementsError>(StatementsError::NoContents)
                && final(self).statements == old(self).statements,
            old(self).contents matches Some(c) ==> match statements_of(c@) {
                Ok(st) => r is Ok && (final(self).statements matches Some(v) && v@.map_values(
                    |s: String| s@,
                ) == st),
                Err(e) => r == Err::<(), StatementsError>(e) && final(self).statements == old(
                    self,
                ).statements,
            },
    {
        let contents = match &self.contents {
            Some(c) => c,
            None => {
                return Err(StatementsError::NoContents);
            },
        };
        if !is_match(";\\s*$", contents.as_str()) {
            return Err(StatementsError::TrailingText);
        }
        let pieces = split(";", contents.as_str());
        let statements = statements_from_pieces(&pieces);
        self.statements = Some(statements);
        Ok(())
    }
}

/// Every statement is non-empty and has no white space at either end.
pub proof fn law_statements_trimmed(contents: Seq<char>)
    ensures
        statements_of(contents) matches Ok(st) ==> forall|i: int| 0 <= i < st.len() ==> (#[trigger] st[i]).len() > 0 && trim(st[i]) == st[i],
{
    if statements_of(contents) is Ok {
        lemma_nonempty_trimmed(regex_split(semicolon_pattern(), contents));
    }
}

proof fn lemma_nonempty_trimmed(pieces: Seq<Seq<char>>)
    ensures
        forall|i: int| 0 <= i < nonempty_trimmed(pieces).len() ==> (#[trigger] nonempty_trimmed(pieces)[i]).len() > 0
            && trim(nonempty_trimmed(pieces)[i]) == nonempty_trimmed(pieces)[i],
    decreases pieces.len(),
{
    if pieces.len() > 0 {
        let rest = nonempty_trimmed(pieces.drop_last());
        lemma_nonempty_trimmed(pieces.drop_last());
        crate::text::lemma_trim_idempotent(pieces.last());
        let r = nonempty_trimmed(pieces);
        assert forall|i: int| 0 <= i < r.len() implies (#[trigger] r[i]).len() > 0 && trim(r[i]) == r[i] by {
            if i < rest.len() {
                assert(r[i] == rest[i]);
            }
        }
    }
}

/// The lines that list the statements: `i: statement` for each, or a note
/// that there are none.
pub open spec fn statement_lines_spec(statements: Option<Vec<String>>) -> Seq<Seq<char>> {
    match statements {
        Some(st) => Seq::new(st@.len(), |i: int| nat_text(i as nat) + ": "@ + st@[i]@),
        None => seq!["No statements loaded."@],
    }
}

impl Parser {
    /// The lines that list the statements (see `statement_lines_spec`).
    pub fn statement_lines(&self) -> (r: Vec<String>)
        ensures
            r@.map_values(|s: String| s@) == statement_lines_spec(self.statements),
    {
        match &self.statements {
            None => {
                let r = vec![string_of(&chars_of("No statements loaded."))];
                assert(r@.map_values(|s: String| s@) =~= seq!["No statements loaded."@]);
                r
            },
            Some(st) => {
                let mut out: Vec<String> = Vec::new();
                let mut i: usize = 0;
                while i < st.len()
                    invariant
                        i <= st.len(),
                        out@.map_values(|s: String| s@) == Seq::new(i as nat, |k: int| nat_text(k as nat) + ": "@ + st@[k]@),
                    decreases st.len() - i,
                {
                    let mut line = u64_text(i as u64);
                    append_chars(&mut line, &chars_of(": "));
                    append_chars(&mut line, &chars_of(st[i].as_str()));
                    let ghost before = out@;
                    let l = string_of(&line);
                    out.push(l);
                    proof {
                        lemma_map_push(before, l, |s: String| s@);
                    }
                    i = i + 1;
                    assert(out@.map_values(|s: String| s@) =~= Seq::new(i as nat, |k: int| nat_text(k as nat) + ": "@ + st@[k]@));
                }
                out
            },
        }
    }
}

} // verus!
