//! One request on one connection: what was parsed of its head, and the
//! response as far as it has been formed.
//!
//! A request is parsed from the lines of its head. The response is gathered
//! in the request: first the preamble, once, then the body. Whoever owns the
//! connection takes the gathered bytes and sends them.

use vstd::prelude::*;
use crate::fields::{appended, appended_names, FieldMap, Fields};
use crate::response::{content_length_name, preamble_text, response_bytes, Response};
use crate::status::Status;
use crate::grammar::{
    header_of, headers_from, is_header_end, lemma_word_len, parameters, query_fields,
    request_line_of, split_on, tokens, with_parameter, ParseError,
};
use crate::text::{
    find, is_ascii_space, is_ascii_space_char, lemma_first_at, slice_text, texts, to_chars,
    trim_bounds,
};

verus! {

/// The texts of the ranges `ranges` of `s`.
pub open spec fn range_texts(s: Seq<char>, ranges: Seq<(usize, usize)>) -> Seq<Seq<char>> {
    Seq::new(ranges.len(), |i: int| s.subrange(ranges[i].0 as int, ranges[i].1 as int))
}

/// The ranges of the parts of `chars` between runs of ASCII white space.
pub fn token_ranges(chars: &Vec<char>) -> (ranges: Vec<(usize, usize)>)
    ensures
        forall|i: int|
            0 <= i < ranges@.len() ==> (#[trigger] ranges@[i]).0 < ranges@[i].1 <= chars@.len(),
        range_texts(chars@, ranges@) == tokens(chars@),
{
    let n = chars.len();
    let mut ranges: Vec<(usize, usize)> = Vec::new();
    let mut i: usize = 0;
    proof {
        assert(chars@.skip(0) =~= chars@);
        assert(range_texts(chars@, ranges@) + tokens(chars@.skip(0)) =~= tokens(chars@));
    }
    while i < n
        invariant
            n == chars@.len(),
            i <= n,
            forall|k: int|
                0 <= k < ranges@.len() ==> (#[trigger] ranges@[k]).0 < ranges@[k].1 <= chars@.len(),
            tokens(chars@) == range_texts(chars@, ranges@) + tokens(chars@.skip(i as int)),
        decreases n - i,
    {
        let ghost rest = chars@.skip(i as int);
        if is_ascii_space_char(chars[i]) {
            proof {
                assert(rest.drop_first() =~= chars@.skip(i + 1));
            }
            i = i + 1;
        } else {
            let start = i;
            let mut j = i + 1;
            while j < n && !is_ascii_space_char(chars[j])
                invariant
                    n == chars@.len(),
                    start < j <= n,
                    forall|k: int| start <= k < j ==> !is_ascii_space(chars@[k]),
                decreases n - j,
            {
                j = j + 1;
            }
            proof {
                lemma_word_len(rest, j - start);
                assert(rest.take(j - start) =~= chars@.subrange(start as int, j as int));
                assert(rest.skip(j - start) =~= chars@.skip(j as int));
                let before = range_texts(chars@, ranges@);
                let after = range_texts(chars@, ranges@.push((start, j)));
                assert(after =~= before + seq![chars@.subrange(start as int, j as int)]);
                assert(before + (seq![rest.take(j - start)] + tokens(rest.skip(j - start)))
                    =~= after + tokens(chars@.skip(j as int)));
            }
            ranges.push((start, j));
            i = j;
        }
    }
    proof {
        assert(range_texts(chars@, ranges@) + tokens(chars@.skip(i as int)) =~= range_texts(
            chars@,
            ranges@,
        ));
    }
    ranges
}

/// A request: the verb, the path and the parameters of its request line, its
/// headers, and its response.
pub struct Request {
    pub request_headers: Fields,
    pub query_params: Fields,
    pub path: String,
    pub verb: String,
    pub response: Response,
}

impl Request {
    /// The path begins with `/`, the verb is not empty, and the fields and
    /// the response are well formed.
    pub open spec fn wf(&self) -> bool {
        &&& self.request_headers.wf()
        &&& self.query_params.wf()
        &&& self.path@.len() > 0
        &&& self.path@[0] == '/'
        &&& self.verb@.len() > 0
        &&& self.response.wf()
    }

    /// A request on which no response has been begun.
    pub fn new(
        request_headers: Fields,
        query_params: Fields,
        path: String,
        verb: String,
    ) -> (r: Request)
        requires
            request_headers.wf(),
            query_params.wf(),
            path@.len() > 0,
            path@[0] == '/',
            verb@.len() > 0,
        ensures
            r.wf(),
            r.request_headers == request_headers,
            r.query_params == query_params,
            r.path == path,
            r.verb == verb,
            r.response.is_fresh(),
    {
        Request { request_headers, query_params, path, verb, response: Response::new() }
    }

    /// Whether the preamble of the response has been formed.
    pub fn response_headers_sent(&self) -> (r: bool)
        ensures
            r == self.response.sent(),
    {
        self.response.is_sent()
    }

    /// What was parsed of the request is the same in `self` and in `other`.
    pub open spec fn same_head(&self, other: &Request) -> bool {
        &&& self.request_headers == other.request_headers
        &&& self.query_params == other.query_params
        &&& self.path == other.path
        &&& self.verb == other.verb
    }

    /// The oldest value of the request header `header`, if the request has
    /// that header. The name is compared as it stands, case and all.
    pub fn get_request_header(&self, header: &str) -> (r: Option<&String>)
        requires
            self.request_headers.wf(),
        ensures
            match r {
                Some(value) => self.request_headers@.dom().contains(header@) && value@
                    == self.request_headers@[header@][0],
                None => !self.request_headers@.dom().contains(header@),
            },
    {
        self.request_headers.first(header)
    }

    /// Adds a header to the response. The preamble has not been formed yet.
    pub fn add_response_header(&mut self, header: &str, value: &str)
        requires
            old(self).wf(),
            !old(self).response.sent(),
        ensures
            final(self).wf(),
            final(self).same_head(old(self)),
            !final(self).response.sent(),
            final(self).response.output() == old(self).response.output(),
            final(self).response.fields()@ == appended(
                old(self).response.fields()@,
                header@,
                value@,
            ),
            final(self).response.fields().names() == appended_names(
                old(self).response.fields().names(),
                old(self).response.fields()@,
                header@,
            ),
    {
        self.response.add_header(header, value);
    }

    /// Forms the preamble of the response for a body of `body_size` bytes.
    /// This is done once, and by no response that has a `Content-Length`
    /// header of its own.
    pub fn send_preamble(&mut self, code: Status, body_size: usize)
        requires
            old(self).wf(),
            code.wf(),
            !old(self).response.sent(),
            !old(self).response.fields()@.dom().contains(content_length_name()),
        ensures
            final(self).wf(),
            final(self).same_head(old(self)),
            final(self).response.sent(),
            final(self).response.fields() == old(self).response.fields(),
            final(self).response.output() == vstd::utf8::encode_utf8(
                preamble_text(code@, old(self).response.fields().in_order(), body_size as nat),
            ),
    {
        self.response.send_preamble(code, body_size);
    }

    /// Gathers bytes of the body of the response. The preamble has been
    /// formed before.
    pub fn write(&mut self, buf: &[u8]) -> (written: usize)
        requires
            old(self).wf(),
            old(self).response.sent(),
        ensures
            final(self).wf(),
            final(self).same_head(old(self)),
            final(self).response.sent(),
            final(self).response.fields() == old(self).response.fields(),
            final(self).response.output() == old(self).response.output() + buf@,
            written == buf@.len(),
    {
        self.response.write(buf)
    }

    /// Forms the whole response: the preamble for `body`, then `body`.
    pub fn respond(&mut self, code: Status, body: &[u8])
        requires
            old(self).wf(),
            code.wf(),
            !old(self).response.sent(),
            !old(self).response.fields()@.dom().contains(content_length_name()),
        ensures
            final(self).wf(),
            final(self).same_head(old(self)),
            final(self).response.sent(),
            final(self).response.fields() == old(self).response.fields(),
            final(self).response.output() == response_bytes(
                code@,
                old(self).response.fields().in_order(),
                body@,
            ),
    {
        self.response.respond(code, body);
    }

    /// The parameters of a query: the text after the `?` of a request target.
    pub fn parse_query_params(params: &str) -> (fields: Fields)
        ensures
            fields.wf(),
            fields@ == query_fields(params@),
    {
        let chars = to_chars(params);
        let n = chars.len();
        let mut fields = Fields::new();
        let mut start: usize = 0;
        let mut finished = false;
        let ghost mut done: Seq<Seq<char>> = Seq::empty();
        proof {
            assert(chars@.skip(0) =~= chars@);
            assert(done + split_on(chars@.skip(0), '&') =~= split_on(chars@, '&'));
        }
        while !finished
            invariant
                chars@ == params@,
                n == chars@.len(),
                fields.wf(),
                finished ==> fields@ == query_fields(params@),
                !finished ==> {
                    &&& start <= n
                    &&& split_on(chars@, '&') == done + split_on(chars@.skip(start as int), '&')
                    &&& fields@ == parameters(done)
                },
            decreases
                    (if finished {
                        0
                    } else {
                        n - start + 1
                    }),
        {
            let ghost rest = chars@.skip(start as int);
            proof {
                assert(rest =~= chars@.subrange(start as int, n as int));
            }
            let end = find(&chars, start, n, '&');
            let ghost piece = chars@.subrange(start as int, end as int);
            let eq = find(&chars, start, end, '=');
            if eq < end {
                let name = slice_text(params, start, eq);
                let value = slice_text(params, eq + 1, end);
                fields.append(name, value);
                proof {
                    assert(piece.take(eq - start) =~= chars@.subrange(start as int, eq as int));
                    assert(piece.skip(eq - start + 1) =~= chars@.subrange(eq + 1, end as int));
                }
            }
            proof {
                assert(fields@ == with_parameter(parameters(done), piece));
                assert(done.push(piece).drop_last() =~= done);
                assert(fields@ == parameters(done.push(piece)));
                assert(rest.take(end - start) =~= piece);
            }
            if end == n {
                proof {
                    assert(rest =~= piece);
                    assert(done + seq![rest] =~= done.push(piece));
                }
                finished = true;
            } else {
                proof {
                    assert(rest.skip(end - start + 1) =~= chars@.skip(end + 1));
                    assert(done + (seq![piece] + split_on(chars@.skip(end + 1), '&'))
                        =~= done.push(piece) + split_on(chars@.skip(end + 1), '&'));
                    done = done.push(piece);
                }
                start = end + 1;
            }
        }
        fields
    }

    /// Reads a request line. The request that comes of it has no headers yet.
    pub fn parse_request_line(line: &str) -> (r: Result<Request, ParseError>)
        ensures
            match r {
                Ok(request) => {
                    &&& request_line_of(line@) is Ok
                    &&& request.verb@ == request_line_of(line@)->Ok_0.verb
                    &&& request.path@ == request_line_of(line@)->Ok_0.path
                    &&& request.query_params@ == request_line_of(line@)->Ok_0.query
                    &&& request.request_headers@ == FieldMap::empty()
                    &&& request.wf()
                    &&& request.response.is_fresh()
                },
                Err(e) => request_line_of(line@) == Err::<crate::grammar::Target, ParseError>(e),
            },
    {
        let chars = to_chars(line);
        let parts = token_ranges(&chars);
        if parts.len() != 3 {
            return Err(ParseError::BadRequestLine);
        }
        let (v0, v1) = parts[0];
        let (t0, t1) = parts[1];
        proof {
            assert(range_texts(chars@, parts@)[0] == chars@.subrange(v0 as int, v1 as int));
            assert(range_texts(chars@, parts@)[1] == chars@.subrange(t0 as int, t1 as int));
        }
        if chars[t0] != '/' {
            return Err(ParseError::BadPath);
        }
        let q = find(&chars, t0, t1, '?');
        let ghost target = chars@.subrange(t0 as int, t1 as int);
        let path = slice_text(line, t0, q);
        proof {
            lemma_first_at(target, '?');
            assert(target[0] == '/');
            assert(target.take(q - t0) =~= chars@.subrange(t0 as int, q as int));
        }
        let query = if q < t1 {
            let text = slice_text(line, q + 1, t1);
            proof {
                assert(target.skip(q - t0 + 1) =~= chars@.subrange(q + 1, t1 as int));
            }
            Request::parse_query_params(text.as_str())
        } else {
            Fields::new()
        };
        let verb = slice_text(line, v0, v1);
        Ok(Request::new(Fields::new(), query, path, verb))
    }

    /// Reads one line after the request line: a header, or the end of the
    /// headers.
    pub fn parse_header(line: &str) -> (r: Result<Option<(String, String)>, ParseError>)
        ensures
            match r {
                Ok(None) => is_header_end(line@),
                Ok(Some(field)) => !is_header_end(line@) && header_of(line@) == Ok::<
                    (Seq<char>, Seq<char>),
                    ParseError,
                >((field.0@, field.1@)),
                Err(e) => !is_header_end(line@) && header_of(line@) == Err::<
                    (Seq<char>, Seq<char>),
                    ParseError,
                >(e),
            },
    {
        let chars = to_chars(line);
        let n = chars.len();
        if n == 0 || (n == 2 && chars[0] == '\r' && chars[1] == '\n') {
            proof {
                if n == 2 {
                    assert(line@ =~= seq!['\r', '\n']);
                }
            }
            return Ok(None);
        }
        proof {
            assert(chars@.subrange(0, n as int) =~= chars@);
        }
        let colon = find(&chars, 0, n, ':');
        if colon >= n {
            return Err(ParseError::MalformedHeader);
        }
        let (n0, n1) = trim_bounds(&chars, 0, colon);
        let (v0, v1) = trim_bounds(&chars, colon + 1, n);
        proof {
            assert(chars@.take(colon as int) =~= chars@.subrange(0, colon as int));
            assert(chars@.skip(colon + 1) =~= chars@.subrange(colon + 1, n as int));
        }
        if n0 == n1 {
            return Err(ParseError::EmptyHeaderName);
        }
        Ok(Some((slice_text(line, n0, n1), slice_text(line, v0, v1))))
    }

    /// Reads the headers from `lines[from..]`, up to the line that ends them
    /// or to the last line.
    pub fn parse_headers(lines: &Vec<String>, from: usize) -> (r: Result<Fields, ParseError>)
        requires
            from <= lines@.len(),
        ensures
            match r {
                Ok(fields) => fields.wf() && headers_from(
                    FieldMap::empty(),
                    texts(lines@).skip(from as int),
                ) == Ok::<FieldMap, ParseError>(fields@),
                Err(e) => headers_from(FieldMap::empty(), texts(lines@).skip(from as int))
                    == Err::<FieldMap, ParseError>(e),
            },
    {
        let n = lines.len();
        let mut fields = Fields::new();
        let mut i = from;
        while i < n
            invariant
                n == lines@.len(),
                from <= i <= n,
                fields.wf(),
                headers_from(FieldMap::empty(), texts(lines@).skip(from as int)) == headers_from(
                    fields@,
                    texts(lines@).skip(i as int),
                ),
            decreases n - i,
        {
            let ghost rest = texts(lines@).skip(i as int);
            proof {
                assert(rest[0] == lines@[i as int]@);
                assert(rest.drop_first() =~= texts(lines@).skip(i + 1));
            }
            match Request::parse_header(lines[i].as_str()) {
                Err(e) => {
                    return Err(e);
                },
                Ok(None) => {
                    return Ok(fields);
                },
                Ok(Some(field)) => {
                    fields.append(field.0, field.1);
                },
            }
            i = i + 1;
        }
        Ok(fields)
    }

    /// Reads the head of a request from its lines: the request line, then the
    /// header lines. Each line stands as it was read, with its line end.
    /// Where there is no line at all, the request line is empty.
    pub fn parse_request(lines: &Vec<String>) -> (r: Result<Request, ParseError>)
        ensures
            match r {
                Ok(request) => {
                    &&& request_line_of(first_line(texts(lines@))) is Ok
                    &&& request.verb@ == request_line_of(first_line(texts(lines@)))->Ok_0.verb
                    &&& request.path@ == request_line_of(first_line(texts(lines@)))->Ok_0.path
                    &&& request.query_params@ == request_line_of(
                        first_line(texts(lines@)),
                    )->Ok_0.query
                    &&& headers_from(FieldMap::empty(), texts(lines@).skip(1)) == Ok::<
                        FieldMap,
                        ParseError,
                    >(request.request_headers@)
                    &&& request.wf()
                    &&& request.response.is_fresh()
                },
                Err(e) => head_error(texts(lines@)) == Some(e),
            },
    {
        let parsed = if lines.len() == 0 {
            Request::parse_request_line("")
        } else {
            Request::parse_request_line(lines[0].as_str())
        };
        proof {
            reveal_strlit("");
            if lines@.len() == 0 {
                assert(""@ =~= first_line(texts(lines@)));
            }
        }
        match parsed {
            Err(e) => Err(e),
            Ok(request) => {
                let from: usize = if lines.len() == 0 {
                    0
                } else {
                    1
                };
                proof {
                    if lines@.len() == 0 {
                        assert(texts(lines@).skip(0) =~= texts(lines@).skip(1));
                    }
                }
                match Request::parse_headers(lines, from) {
                    Err(e) => Err(e),
                    Ok(headers) => Ok(
                        Request::new(headers, request.query_params, request.path, request.verb),
                    ),
                }
            },
        }
    }
}

/// The request line among the lines of a head: the first line, or an empty
/// line where there is none.
pub open spec fn first_line(lines: Seq<Seq<char>>) -> Seq<char> {
    if lines.len() > 0 {
        lines[0]
    } else {
        Seq::empty()
    }
}

/// The error in the head of a request, if it has one: that of the request
/// line, or else that of the first header line that has one.
pub open spec fn head_error(lines: Seq<Seq<char>>) -> Option<ParseError> {
    match request_line_of(first_line(lines)) {
        Err(e) => Some(e),
        Ok(_) => match headers_from(FieldMap::empty(), lines.skip(1)) {
            Err(e) => Some(e),
            Ok(_) => None,
        },
    }
}

} // verus!
