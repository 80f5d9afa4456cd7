//! The grammar of a request head: the request line with its path and query,
//! and the header lines.
//!
//! The head of a request is a request line, then header lines up to an empty
//! line. This module says, as functions of the characters of a line, what
//! each line means; [`crate::request`] reads lines by it.

use vstd::prelude::*;
use crate::fields::{appended, Field, FieldMap};
use crate::text::{first_at, is_ascii_space, trim};

verus! {

/// Why the head of a request was refused.
#[derive(Clone, Copy, Debug, PartialEq, Eq, Structural)]
pub enum ParseError {
    /// The request line could not be read from the connection.
    UnreadableRequestLine,
    /// The request line does not have exactly three parts.
    BadRequestLine,
    /// The request target does not begin with `/`.
    BadPath,
    /// A header line could not be read from the connection.
    UnreadableHeaders,
    /// A header line has no colon.
    MalformedHeader,
    /// A header line has nothing but white space before its colon.
    EmptyHeaderName,
}

/// The length of the run of characters other than white space with which `s`
/// begins.
pub open spec fn word_len(s: Seq<char>) -> int
    decreases s.len(),
{
    if s.len() == 0 || is_ascii_space(s[0]) {
        0
    } else {
        1 + word_len(s.drop_first())
    }
}

/// The parts of `s` between runs of ASCII white space, in order. No part is
/// empty.
pub open spec fn tokens(s: Seq<char>) -> Seq<Seq<char>>
    decreases s.len(),
{
    if s.len() == 0 {
        Seq::empty()
    } else if is_ascii_space(s[0]) {
        tokens(s.drop_first())
    } else {
        let n = word_len(s);
        if 0 < n <= s.len() {
            seq![s.take(n)] + tokens(s.skip(n))
        } else {
            Seq::empty()
        }
    }
}

/// The pieces of `s` between occurrences of `c`. There is always at least
/// one piece, and a piece may be empty.
pub open spec fn split_on(s: Seq<char>, c: char) -> Seq<Seq<char>>
    decreases s.len(),
{
    let i = first_at(s, c);
    if 0 <= i < s.len() {
        seq![s.take(i)] + split_on(s.skip(i + 1), c)
    } else {
        seq![s]
    }
}

/// The parameters `m` after one more piece of a query: a piece `k=v` adds `v`
/// under `k`, cut at its first `=`; a piece without `=` adds nothing.
pub open spec fn with_parameter(m: FieldMap, piece: Seq<char>) -> FieldMap {
    let i = first_at(piece, '=');
    if i < piece.len() {
        appended(m, piece.take(i), piece.skip(i + 1))
    } else {
        m
    }
}

/// The parameters that a list of pieces gives, taken from first to last.
pub open spec fn parameters(pieces: Seq<Seq<char>>) -> FieldMap
    decreases pieces.len(),
{
    if pieces.len() == 0 {
        Map::empty()
    } else {
        with_parameter(parameters(pieces.drop_last()), pieces.last())
    }
}

/// The parameters of the query `q`, which is cut at each `&`.
pub open spec fn query_fields(q: Seq<char>) -> FieldMap {
    parameters(split_on(q, '&'))
}

/// What a request line says.
pub struct Target {
    pub verb: Seq<char>,
    pub path: Seq<char>,
    pub query: FieldMap,
}

/// The meaning of a request line. It has exactly three parts: the verb, the
/// target and the version, which is not looked at. The target begins with
/// `/` and is cut at its first `?` into the path and the query.
pub open spec fn request_line_of(line: Seq<char>) -> Result<Target, ParseError> {
    let parts = tokens(line);
    if parts.len() != 3 {
        Err(ParseError::BadRequestLine)
    } else if parts[1].len() == 0 || parts[1][0] != '/' {
        Err(ParseError::BadPath)
    } else {
        let target = parts[1];
        let q = first_at(target, '?');
        Ok(
            Target {
                verb: parts[0],
                path: target.take(q),
                query: if q < target.len() {
                    query_fields(target.skip(q + 1))
                } else {
                    Map::empty()
                },
            },
        )
    }
}

/// Whether `line` ends the headers: the empty line `\r\n`, or nothing at all,
/// which is what is read at the end of the input.
pub open spec fn is_header_end(line: Seq<char>) -> bool {
    line.len() == 0 || line == seq!['\r', '\n']
}

/// The meaning of a header line: the name before the first colon and the
/// value after it, both without the white space around them.
pub open spec fn header_of(line: Seq<char>) -> Result<Field, ParseError> {
    let i = first_at(line, ':');
    if i >= line.len() {
        Err(ParseError::MalformedHeader)
    } else if trim(line.take(i)).len() == 0 {
        Err(ParseError::EmptyHeaderName)
    } else {
        Ok((trim(line.take(i)), trim(line.skip(i + 1))))
    }
}

/// The headers that `lines` add to `found`: line after line up to the first
/// that ends the headers, or to the last.
pub open spec fn headers_from(found: FieldMap, lines: Seq<Seq<char>>) -> Result<
    FieldMap,
    ParseError,
>
    decreases lines.len(),
{
    if lines.len() == 0 || is_header_end(lines[0]) {
        Ok(found)
    } else {
        match header_of(lines[0]) {
            Err(e) => Err(e),
            Ok(field) => headers_from(appended(found, field.0, field.1), lines.drop_first()),
        }
    }
}

/// A run of characters other than white space, that ends at white space or
/// at the end, is what `word_len` measures.
pub proof fn lemma_word_len(s: Seq<char>, k: int)
    requires
        0 <= k <= s.len(),
        forall|j: int| 0 <= j < k ==> !is_ascii_space(s[j]),
        k < s.len() ==> is_ascii_space(s[k]),
    ensures
        word_len(s) == k,
    decreases k,
{
    if k > 0 {
        let rest = s.drop_first();
        assert forall|j: int| 0 <= j < k - 1 implies !is_ascii_space(rest[j]) by {
            assert(rest[j] == s[j + 1]);
        }
        lemma_word_len(rest, k - 1);
    }
}

impl ParseError {
    /// The reason, as it is sent to the client.
    pub open spec fn text(&self) -> Seq<char> {
        match *self {
            ParseError::UnreadableRequestLine => "Couldn't read request line"@,
            ParseError::BadRequestLine => "Couldn't parse request line"@,
            ParseError::BadPath => "Request path must start with a '/'"@,
            ParseError::UnreadableHeaders => "Error reading headers"@,
            ParseError::MalformedHeader => "Malformed header line"@,
            ParseError::EmptyHeaderName => "Empty header name"@,
        }
    }

    /// The reason, as it is sent to the client.
    pub fn message(&self) -> (r: &'static str)
        ensures
            r@ == self.text(),
    {
        match self {
            ParseError::UnreadableRequestLine => "Couldn't read request line",
            ParseError::BadRequestLine => "Couldn't parse request line",
            ParseError::BadPath => "Request path must start with a '/'",
            ParseError::UnreadableHeaders => "Error reading headers",
            ParseError::MalformedHeader => "Malformed header line",
            ParseError::EmptyHeaderName => "Empty header name",
        }
    }
}

} // verus!
