//! What the server decides around a handler: the answer to a head that
//! could not be parsed, to a request that no route takes, to a handler that
//! failed, and to a connection that the pool did not admit.
//!
//! The server itself accepts connections, reads lines and sends bytes; here
//! is what it sends, and when.

use vstd::prelude::*;
use crate::fields::Field;
use crate::grammar::ParseError;
use crate::request::Request;
use crate::response::{content_length_name, preamble_text, response_bytes, Response};
use crate::router::{resolve, Router};
use crate::status::Status;

verus! {

/// A whole response without headers of its own: the preamble for `body`,
/// then `body`.
pub fn plain_response(code: Status, body: &[u8]) -> (bytes: Vec<u8>)
    requires
        code.wf(),
    ensures
        bytes@ == response_bytes(code@, Seq::<Field>::empty(), body@),
{
    proof {
        reveal_strlit("Content-Length");
    }
    let mut response = Response::new();
    response.respond(code, body);
    response.take_output()
}

/// The answer to a request whose head could not be read: 400, with the
/// reason as its body.
pub fn bad_request(error: ParseError) -> (bytes: Vec<u8>)
    ensures
        bytes@ == response_bytes(
            400,
            Seq::<Field>::empty(),
            vstd::utf8::encode_utf8(error.text()),
        ),
{
    plain_response(Status::bad_request(), error.message().as_bytes())
}

/// The answer to a connection that the pool did not admit: 503, with no
/// body.
pub fn unavailable() -> (bytes: Vec<u8>)
    ensures
        bytes@ == response_bytes(503, Seq::<Field>::empty(), Seq::<u8>::empty()),
{
    let nothing: Vec<u8> = Vec::new();
    plain_response(Status::service_unavailable(), nothing.as_slice())
}

/// Finds the handler of a request. Where the router has none, the response
/// is formed here: the preamble with the router's status, for a body of no
/// bytes.
pub fn dispatch<'a, H>(router: &'a Router<H>, request: &mut Request) -> (r: Option<&'a H>)
    requires
        router.wf(),
        old(request).wf(),
        !old(request).response.sent(),
        !old(request).response.fields()@.dom().contains(content_length_name()),
    ensures
        final(request).wf(),
        final(request).same_head(old(request)),
        final(request).response.fields() == old(request).response.fields(),
        match resolve(router@, old(request).path@, old(request).verb@) {
            Ok(handler) => r == Some(&handler) && final(request).response == old(
                request,
            ).response,
            Err(code) => {
                &&& r is None
                &&& final(request).response.sent()
                &&& final(request).response.output() == vstd::utf8::encode_utf8(
                    preamble_text(code, old(request).response.fields().in_order(), 0),
                )
            },
        },
{
    match router.get_handler(&request.path, &request.verb) {
        Ok(handler) => Some(handler),
        Err(status) => {
            request.send_preamble(status, 0);
            None
        },
    }
}

/// What to send when a handler has ended: where it failed before the
/// preamble was formed, a fresh 500 with the handler's message as its body;
/// where it failed after that, or did not fail, nothing more.
pub fn conclude(request: &Request, failure: Option<&str>) -> (r: Option<Vec<u8>>)
    ensures
        match failure {
            Some(message) => if request.response.sent() {
                r is None
            } else {
                r is Some && r->0@ == response_bytes(
                    500,
                    Seq::<Field>::empty(),
                    vstd::utf8::encode_utf8(message@),
                )
            },
            None => r is None,
        },
{
    match failure {
        Some(message) => {
            if request.response_headers_sent() {
                None
            } else {
                Some(plain_response(Status::internal_server_error(), message.as_bytes()))
            }
        },
        None => None,
    }
}

} // verus!
