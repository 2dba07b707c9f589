//! The `shallow` file of a shallow clone: one boundary commit id per line.

use vstd::prelude::*;
use crate::text::{chars_of, trim_chars, trim_range};

verus! {

/// The full object id that libgit2's `git_oid_fromstrn` reads from a text, as
/// 40 lower-case hexadecimal digits, or `None` when it refuses the text.
pub uninterp spec fn git_oid_text(s: Seq<char>) -> Option<Seq<char>>;

/// Runs `git2::Oid::from_str` and writes the id back with `to_string`.
///
/// Claims only that the result is git2's reading of this text.
#[verifier::external_body]
fn parse_oid(text: &str) -> (r: Option<String>)
    ensures
        match r {
            Some(o) => git_oid_text(text@) == Some(o@),
            None => git_oid_text(text@) is None,
        },
{
    match git2::Oid::from_str(text) {
        Ok(oid) => Some(oid.to_string()),
        Err(_) => None,
    }
}

/// Why the shallow file was refused.
#[derive(Debug, Clone, PartialEq, Eq)]
pub enum ShallowError {
    /// The trimmed line is no object id; lines count from 1.
    InvalidOid { value: String, line: usize },
}

/// The end of the line that starts at `i`: the next newline, or the end.
pub open spec fn line_end(s: Seq<char>, i: int) -> int
    decreases s.len() - i,
{
    if i < 0 || i >= s.len() {
        s.len() as int
    } else if s[i] == '\n' {
        i
    } else {
        line_end(s, i + 1)
    }
}

/// The ids of the lines from position `i` on, line `line` being the first;
/// blank lines are skipped, and the first line that is no id is the error.
pub open spec fn oids_from(s: Seq<char>, i: int, line: int) -> Result<Seq<Seq<char>>, (int, Seq<char>)>
    decreases s.len() + 1 - i,
{
    if i < 0 || i > s.len() {
        Ok(Seq::empty())
    } else {
        let e = if i <= line_end(s, i) <= s.len() { line_end(s, i) } else { i };
        let t = trim_chars(s.subrange(i, e));
        let rest = oids_from(s, e + 1, line + 1);
        if t.len() == 0 {
            rest
        } else {
            match git_oid_text(t) {
                None => Err((line, t)),
                Some(o) => match rest {
                    Ok(v) => Ok(seq![o] + v),
                    Err(x) => Err(x),
                },
            }
        }
    }
}

/// The ids of a shallow file's lines, in order.
pub open spec fn shallow_oids(s: Seq<char>) -> Result<Seq<Seq<char>>, (int, Seq<char>)> {
    oids_from(s, 0, 1)
}

spec fn prepend(acc: Seq<Seq<char>>, r: Result<Seq<Seq<char>>, (int, Seq<char>)>) -> Result<
    Seq<Seq<char>>,
    (int, Seq<char>),
> {
    match r {
        Ok(v) => Ok(acc + v),
        Err(x) => Err(x),
    }
}

proof fn lemma_line_end(s: Seq<char>, i: int)
    requires
        0 <= i <= s.len(),
    ensures
        i <= line_end(s, i) <= s.len(),
        forall|k: int| i <= k < line_end(s, i) ==> s[k] != '\n',
        line_end(s, i) < s.len() ==> s[line_end(s, i)] == '\n',
    decreases s.len() - i,
{
    if i < s.len() && s[i] != '\n' {
        lemma_line_end(s, i + 1);
    }
}

fn find_line_end(cs: &Vec<char>, i: usize) -> (e: usize)
    requires
        i <= cs@.len(),
    ensures
        e == line_end(cs@, i as int),
{
    let mut e = i;
    while e < cs.len() && cs[e] != '\n'
        invariant
            i <= e <= cs@.len(),
            line_end(cs@, e as int) == line_end(cs@, i as int),
        decreases cs.len() - e,
    {
        e = e + 1;
    }
    e
}

/// The boundary commit ids of a shallow file's contents.
pub fn parse_shallow_oids(contents: &str) -> (r: Result<Vec<String>, ShallowError>)
    requires
        contents@.len() + 2 <= usize::MAX,
    ensures
        match shallow_oids(contents@) {
            Ok(v) => r matches Ok(ids) && ids@.map_values(|o: String| o@) == v,
            Err((line, value)) => r matches Err(ShallowError::InvalidOid { value: t, line: n }) && t@
                == value && n == line,
        },
{
    let cs = chars_of(contents);
    let mut out: Vec<String> = Vec::new();
    let mut i: usize = 0;
    let mut line: usize = 1;
    while i <= cs.len()
        invariant
            cs@ == contents@,
            cs@.len() + 2 <= usize::MAX,
            1 <= line <= i + 1,
            i <= cs@.len() + 1,
            shallow_oids(contents@) == prepend(
                out@.map_values(|o: String| o@),
                oids_from(contents@, i as int, line as int),
            ),
        decreases cs.len() + 1 - i,
    {
        let e = find_line_end(&cs, i);
        proof {
            lemma_line_end(cs@, i as int);
        }
        let t = trim_range(&cs, i, e);
        let ghost before = out@.map_values(|o: String| o@);
        if !t.as_str().is_empty() {
            match parse_oid(t.as_str()) {
                None => {
                    return Err(ShallowError::InvalidOid { value: t, line });
                },
                Some(o) => {
                    out.push(o);
                    proof {
                        let after = out@.map_values(|o: String| o@);
                        assert(after == before.push(o@));
                        match oids_from(contents@, e as int + 1, line as int + 1) {
                            Ok(v) => {
                                assert(before + (seq![o@] + v) == after + v);
                            },
                            Err(_) => {},
                        }
                    }
                },
            }
        } else {
            proof {
                assert(t@.len() == 0);
            }
        }
        i = e + 1;
        line = line + 1;
    }
    proof {
        let v = out@.map_values(|o: String| o@);
        assert(v + Seq::<Seq<char>>::empty() == v);
    }
    Ok(out)
}

} // verus!
