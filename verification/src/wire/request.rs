//! Classification of inbound request lines (RFC 2167 §3.1.1, §3.1.3).

use vstd::prelude::*;

use crate::text::{
    chars_of, is_ascii_alpha, is_white_space, lower_range, lower_seq, skip_start,
    string_from_chars, string_of_range, trim_start, trimmed, Blanks,
};

verus! {

/// One trimmed line as classified by the session loop.
#[derive(Debug, Clone, PartialEq, Eq)]
#[non_exhaustive]
pub enum Request {
    /// Empty line; ignored.
    Empty,
    /// A directive: `name` is lowercased without the leading `-`, `args` is
    /// the remainder of the line.
    Directive {
        /// Directive name (lowercased, without the leading `-`).
        name: String,
        /// Argument string (may be empty).
        args: String,
    },
    /// A non-directive line during a normal session: a query.
    Query(String),
    /// A non-directive line while registration lines are being spooled.
    Spool(String),
}

/// `-` followed by an ASCII letter.
pub open spec fn is_directive_text(s: Seq<char>) -> bool {
    s.len() >= 2 && s[0] == '-' && is_ascii_alpha(s[1])
}

/// The index of the first white space character of `s` at or after `i`,
/// or `s.len()`.
pub open spec fn white_space_from(s: Seq<char>, i: int) -> int
    decreases s.len() - i,
{
    if i < 0 || i >= s.len() {
        s.len() as int
    } else if is_white_space(s[i]) {
        i
    } else {
        white_space_from(s, i + 1)
    }
}

/// The name part of a directive line (before the first white space, after
/// the `-`), lowercased.
pub open spec fn directive_name(s: Seq<char>) -> Seq<char> {
    let rest = s.drop_first();
    lower_seq(rest.take(white_space_from(rest, 0)))
}

/// The argument part of a directive line: what follows the name, without
/// leading white space.
pub open spec fn directive_args(s: Seq<char>) -> Seq<char> {
    let rest = s.drop_first();
    trim_start(Blanks::Unicode, rest.skip(white_space_from(rest, 0)))
}

/// True if `s` looks like a directive: a leading `-` followed by an ASCII
/// letter.
pub fn is_directive(s: &str) -> (b: bool)
    ensures
        b == is_directive_text(s@),
{
    let v = chars_of(s);
    v.len() >= 2 && v[0] == '-' && (('a' <= v[1] && v[1] <= 'z') || ('A' <= v[1] && v[1] <= 'Z'))
}

impl Request {
    /// Classify a trimmed line given whether registration lines are being
    /// spooled. A directive is recognised in either state.
    pub fn classify(line: &str, spooling: bool) -> (r: Request)
        ensures
            line@.len() == 0 ==> r is Empty,
            line@.len() != 0 && is_directive_text(line@) ==> (r matches Request::Directive {
                name,
                args,
            } && name@ == directive_name(line@) && args@ == directive_args(line@)),
            line@.len() != 0 && !is_directive_text(line@) && spooling ==> (r matches Request::Spool(
                l,
            ) && l@ == line@),
            line@.len() != 0 && !is_directive_text(line@) && !spooling ==> (r matches Request::Query(
                l,
            ) && l@ == line@),
    {
        let v = chars_of(line);
        if v.len() == 0 {
            return Request::Empty;
        }
        if is_directive(line) {
            let ghost rest = v@.drop_first();
            let mut i: usize = 1;
            while i < v.len() && !crate::text::is_whitespace(v[i])
                invariant
                    1 <= i <= v@.len(),
                    rest == v@.drop_first(),
                    white_space_from(rest, 0) == white_space_from(rest, i - 1),
                decreases v@.len() - i,
            {
                i = i + 1;
            }
            assert(rest.take(i - 1) =~= v@.subrange(1, i as int));
            let name = lower_range(v.as_slice(), 1, i);
            let a = skip_start(Blanks::Unicode, v.as_slice(), i);
            assert(rest.skip(i - 1) =~= v@.subrange(i as int, v@.len() as int));
            let args = string_of_range(v.as_slice(), a, v.len());
            return Request::Directive { name: string_from_chars(name.as_slice()), args };
        }
        if spooling {
            Request::Spool(line.to_owned())
        } else {
            Request::Query(line.to_owned())
        }
    }
}

} // verus!
