//! The response of one request, as far as it has been formed.
//!
//! A response is its preamble, then its body. The preamble is the status
//! line, the headers that the handler added, the `Content-Length` header and
//! an empty line; it is formed once, before any of the body, and it alone
//! says how long the body is.

use vstd::prelude::*;
use vstd::string::StringExecFns;
use crate::fields::{
    appended, appended_names, fields_in_order, fields_named, lemma_fields_in_order_names, Field,
    FieldMap, Fields,
};
use crate::status::{reason_of, Status};
use crate::text::{append_decimal, decimal, texts};

verus! {

/// The name of the header that gives the length of the body.
pub open spec fn content_length_name() -> Seq<char> {
    "Content-Length"@
}

/// The status line: version, code and reason phrase.
pub open spec fn status_line(code: u16) -> Seq<char> {
    "HTTP/1.1"@ + seq![' '] + decimal(code as nat) + seq![' '] + reason_of(code) + seq![
        '\r',
        '\n',
    ]
}

/// The line of a header that the handler added. It ends in a bare line feed.
pub open spec fn header_line(field: Field) -> Seq<char> {
    field.0 + seq![':', ' '] + field.1 + seq!['\n']
}

/// The lines of the headers that the handler added.
pub open spec fn header_lines(fields: Seq<Field>) -> Seq<char>
    decreases fields.len(),
{
    if fields.len() == 0 {
        Seq::empty()
    } else {
        header_lines(fields.drop_last()) + header_line(fields.last())
    }
}

/// The line of the `Content-Length` header for a body of `body_len` bytes.
pub open spec fn content_length_line(body_len: nat) -> Seq<char> {
    "Content-Length:"@ + seq![' '] + decimal(body_len) + seq!['\r', '\n']
}

/// The preamble of a response, as text.
pub open spec fn preamble_text(code: u16, fields: Seq<Field>, body_len: nat) -> Seq<char> {
    status_line(code) + header_lines(fields) + content_length_line(body_len) + seq!['\r', '\n']
}

/// A whole response, as bytes: the preamble, then the body.
pub open spec fn response_bytes(code: u16, fields: Seq<Field>, body: Seq<u8>) -> Seq<u8> {
    vstd::utf8::encode_utf8(preamble_text(code, fields, body.len())) + body
}

/// The headers of a response in the order in which they are written: those
/// that the handler added, then `Content-Length`.
pub open spec fn response_headers(fields: Seq<Field>, body_len: nat) -> Seq<Field> {
    fields.push((content_length_name(), decimal(body_len)))
}

/// The line of the header that is written last. It ends in a carriage
/// return and a line feed.
pub open spec fn last_header_line(field: Field) -> Seq<char> {
    field.0 + seq![':', ' '] + field.1 + seq!['\r', '\n']
}

/// The lines of one more header come after those of the headers before it.
proof fn lemma_header_lines_push(fields: Seq<Field>, field: Field)
    ensures
        header_lines(fields.push(field)) == header_lines(fields) + header_line(field),
{
    assert(fields.push(field).drop_last() =~= fields);
}

/// The fields of one more name come after those of the names before it.
proof fn lemma_fields_in_order_step(names: Seq<Seq<char>>, m: FieldMap, i: int)
    requires
        0 <= i < names.len(),
    ensures
        fields_in_order(names.take(i + 1), m) == fields_in_order(names.take(i), m) + fields_named(
            names[i],
            m[names[i]],
        ),
{
    assert(names.take(i + 1).drop_last() =~= names.take(i));
}

/// Framing: the headers of a response, in the order in which the preamble
/// writes them, hold exactly one `Content-Length`, the last of them, and its
/// value is the length of the body in decimal. This holds of every response
/// whose handler added no `Content-Length` of its own, which is what forming
/// a preamble asks for.
pub proof fn lemma_preamble_framing(code: u16, fields: Fields, body: Seq<u8>)
    requires
        fields.wf(),
        !fields@.dom().contains(content_length_name()),
    ensures
        ({
            let all = response_headers(fields.in_order(), body.len());
            &&& preamble_text(code, fields.in_order(), body.len()) == status_line(code)
                + header_lines(all.drop_last()) + last_header_line(all.last()) + seq!['\r', '\n']
            &&& forall|i: int|
                0 <= i < all.len() ==> ((#[trigger] all[i]).0 == content_length_name() <==> i
                    == all.len() - 1)
            &&& all.last().1 == decimal(body.len())
        }),
{
    let listed = fields.in_order();
    let all = response_headers(listed, body.len());
    fields.lemma_names();
    lemma_fields_in_order_names(fields.names(), fields@);
    assert(all.drop_last() =~= listed);
    reveal_strlit("Content-Length:");
    reveal_strlit("Content-Length");
    assert("Content-Length:"@ =~= "Content-Length"@ + seq![':']);
    assert(content_length_line(body.len()) =~= last_header_line(all.last()));
    assert forall|i: int| 0 <= i < all.len() implies ((#[trigger] all[i]).0
        == content_length_name() <==> i == all.len() - 1) by {
        if i < listed.len() {
            assert(all[i] == listed[i]);
            assert(fields.names().contains(listed[i].0));
        }
    }
}

/// A response in the making: the headers that the handler added, whether the
/// preamble was formed, and the bytes that wait to be sent.
pub struct Response {
    headers: Fields,
    sent: bool,
    output: Vec<u8>,
}

impl Response {
    /// The headers that the handler has added.
    pub closed spec fn fields(&self) -> Fields {
        self.headers
    }

    /// Whether the preamble has been formed.
    pub closed spec fn sent(&self) -> bool {
        self.sent
    }

    /// The bytes that have been gathered and not yet taken.
    pub closed spec fn output(&self) -> Seq<u8> {
        self.output@
    }

    /// The headers are well formed, and nothing is gathered before the
    /// preamble.
    pub open spec fn wf(&self) -> bool {
        &&& self.fields().wf()
        &&& !self.sent() ==> self.output().len() == 0
    }

    /// A response of which nothing has been formed: no header, no preamble,
    /// no byte.
    pub open spec fn is_fresh(&self) -> bool {
        &&& self.wf()
        &&& self.fields()@ == FieldMap::empty()
        &&& self.fields().names() == Seq::<Seq<char>>::empty()
        &&& !self.sent()
        &&& self.output() == Seq::<u8>::empty()
    }

    /// A response of which nothing has been formed.
    pub fn new() -> (r: Response)
        ensures
            r.is_fresh(),
    {
        Response { headers: Fields::new(), sent: false, output: Vec::new() }
    }

    /// Whether the preamble has been formed.
    pub fn is_sent(&self) -> (r: bool)
        ensures
            r == self.sent(),
    {
        self.sent
    }

    /// Whether the handler has added a header named `header`.
    pub fn has_header(&self, header: &str) -> (r: bool)
        requires
            self.wf(),
        ensures
            r == self.fields()@.dom().contains(header@),
    {
        self.headers.contains(header)
    }

    /// Adds a header to the preamble that is still to be formed.
    pub fn add_header(&mut self, header: &str, value: &str)
        requires
            old(self).wf(),
            !old(self).sent(),
        ensures
            final(self).wf(),
            !final(self).sent(),
            final(self).output() == old(self).output(),
            final(self).fields()@ == appended(old(self).fields()@, header@, value@),
            final(self).fields().names() == appended_names(
                old(self).fields().names(),
                old(self).fields()@,
                header@,
            ),
    {
        self.headers.append(String::from_str(header), String::from_str(value));
    }

    /// Forms the preamble for a body of `body_size` bytes: the status line,
    /// the headers added so far, `Content-Length` and the empty line. This is
    /// done once, and by no response that has a `Content-Length` header of
    /// its own.
    pub fn send_preamble(&mut self, code: Status, body_size: usize)
        requires
            old(self).wf(),
            code.wf(),
            !old(self).sent(),
            !old(self).fields()@.dom().contains(content_length_name()),
        ensures
            final(self).wf(),
            final(self).sent(),
            final(self).fields() == old(self).fields(),
            final(self).output() == vstd::utf8::encode_utf8(
                preamble_text(code@, old(self).fields().in_order(), body_size as nat),
            ),
    {
        proof {
            reveal_strlit(" ");
            reveal_strlit(": ");
            reveal_strlit("\n");
            reveal_strlit("\r\n");
        }
        let mut text = String::from_str("HTTP/1.1");
        text.append(" ");
        let digits = code.digits();
        text.append(digits.as_str());
        text.append(" ");
        let reason = code.reason();
        text.append(reason.as_str());
        text.append("\r\n");
        let ghost names = self.headers.names();
        let ghost m = self.headers@;
        let n = self.headers.len();
        let mut i: usize = 0;
        proof {
            assert(text@ =~= status_line(code@));
            assert(names.take(0) =~= Seq::<Seq<char>>::empty());
            assert(text@ =~= status_line(code@) + header_lines(
                fields_in_order(names.take(0), m),
            ));
        }
        while i < n
            invariant
                self.headers.wf(),
                names == self.headers.names(),
                m == self.headers@,
                n == names.len(),
                i <= n,
                text@ == status_line(code@) + header_lines(
                    fields_in_order(names.take(i as int), m),
                ),
            decreases n - i,
        {
            let name = self.headers.name_at(i);
            let values = self.headers.values_at(i);
            let ghost before = fields_in_order(names.take(i as int), m);
            let ghost listed = texts(values@);
            let count = values.len();
            let mut j: usize = 0;
            proof {
                assert(fields_named(name@, listed.take(0)) =~= Seq::<Field>::empty());
                assert(before + fields_named(name@, listed.take(0)) =~= before);
            }
            while j < count
                invariant
                    count == values@.len(),
                    listed == texts(values@),
                    j <= count,
                    text@ == status_line(code@) + header_lines(
                        before + fields_named(name@, listed.take(j as int)),
                    ),
                decreases count - j,
            {
                let ghost had = before + fields_named(name@, listed.take(j as int));
                let ghost field = (name@, values@[j as int]@);
                text.append(name.as_str());
                text.append(": ");
                text.append(values[j].as_str());
                text.append("\n");
                proof {
                    reveal_strlit(": ");
                    reveal_strlit("\n");
                    assert(fields_named(name@, listed.take(j + 1)) =~= fields_named(
                        name@,
                        listed.take(j as int),
                    ).push(field));
                    assert(before + fields_named(name@, listed.take(j + 1)) =~= had.push(field));
                    lemma_header_lines_push(had, field);
                    assert(text@ =~= status_line(code@) + header_lines(had) + header_line(field));
                }
                j = j + 1;
            }
            proof {
                assert(listed.take(count as int) =~= listed);
                lemma_fields_in_order_step(names, m, i as int);
            }
            i = i + 1;
        }
        proof {
            assert(names.take(n as int) =~= names);
        }
        let ghost head = text@;
        text.append("Content-Length:");
        text.append(" ");
        append_decimal(&mut text, body_size);
        text.append("\r\n");
        text.append("\r\n");
        proof {
            assert(text@ =~= head + content_length_line(body_size as nat) + seq!['\r', '\n']);
        }
        self.sent = true;
        self.put(text.as_str().as_bytes());
    }

    /// Gathers bytes of the body. The preamble has been formed before.
    pub fn write(&mut self, buf: &[u8]) -> (written: usize)
        requires
            old(self).wf(),
            old(self).sent(),
        ensures
            final(self).wf(),
            final(self).sent(),
            final(self).fields() == old(self).fields(),
            final(self).output() == old(self).output() + buf@,
            written == buf@.len(),
    {
        self.put(buf);
        buf.len()
    }

    /// Forms a whole response: the preamble for `body`, then `body`.
    pub fn respond(&mut self, code: Status, body: &[u8])
        requires
            old(self).wf(),
            code.wf(),
            !old(self).sent(),
            !old(self).fields()@.dom().contains(content_length_name()),
        ensures
            final(self).wf(),
            final(self).sent(),
            final(self).fields() == old(self).fields(),
            final(self).output() == response_bytes(code@, old(self).fields().in_order(), body@),
    {
        self.send_preamble(code, body.len());
        self.write(body);
    }

    /// Hands over the bytes gathered so far, for them to be sent, and keeps
    /// none.
    pub fn take_output(&mut self) -> (bytes: Vec<u8>)
        requires
            old(self).wf(),
        ensures
            final(self).wf(),
            final(self).sent() == old(self).sent(),
            final(self).fields() == old(self).fields(),
            bytes@ == old(self).output(),
            final(self).output() == Seq::<u8>::empty(),
    {
        let mut bytes: Vec<u8> = Vec::new();
        core::mem::swap(&mut self.output, &mut bytes);
        bytes
    }

    /// Appends `bytes` to what is gathered.
    fn put(&mut self, bytes: &[u8])
        ensures
            final(self).headers == old(self).headers,
            final(self).sent == old(self).sent,
            final(self).output@ == old(self).output@ + bytes@,
    {
        let n = bytes.len();
        let mut i: usize = 0;
        while i < n
            invariant
                n == bytes@.len(),
                i <= n,
                self.headers == old(self).headers,
                self.sent == old(self).sent,
                self.output@ == old(self).output@ + bytes@.take(i as int),
            decreases n - i,
        {
            self.output.push(bytes[i]);
            proof {
                assert(bytes@.take(i + 1) =~= bytes@.take(i as int).push(bytes@[i as int]));
            }
            i = i + 1;
        }
        proof {
            assert(bytes@.take(n as int) =~= bytes@);
        }
    }
}

} // verus!
