use rust_tag_server::pool::Admission;
use rust_tag_server::request::Request;
use rust_tag_server::router::Router;
use rust_tag_server::server::{bad_request, dispatch, unavailable};
use rust_tag_server::status::Status;
use rust_tag_server::store::TagStore;
use rust_tag_server::tags::{Body, TagHandler, TagRequest, TagResponse};

/// A server in one thread: what a worker does with one connection, with the
/// bytes of the request in hand.
struct Server {
    router: Router<u8>,
    handler: TagHandler,
}

fn strings(value: &serde_json::Value) -> Option<Vec<String>> {
    let mut out = Vec::new();
    for item in value.as_array()? {
        out.push(item.as_str()?.to_string());
    }
    Some(out)
}

fn decode(body: &[u8]) -> Body {
    let decoded = || -> Option<TagRequest> {
        let value: serde_json::Value = serde_json::from_slice(body).ok()?;
        Some(TagRequest {
            user: value.get("user")?.as_str()?.to_string(),
            add: strings(value.get("add")?)?,
            remove: strings(value.get("remove")?)?,
            timestamp: value.get("timestamp")?.as_str()?.to_string(),
        })
    };
    match decoded() {
        Some(tags) => Body::Decoded(tags),
        None => Body::Malformed,
    }
}

fn encode(answer: &TagResponse) -> Vec<u8> {
    let tags: Vec<String> =
        answer.tags.iter().map(|tag| serde_json::to_string(tag).unwrap()).collect();
    format!(
        "{{\"user\":{},\"tags\":[{}]}}",
        serde_json::to_string(&answer.user).unwrap(),
        tags.join(",")
    )
    .into_bytes()
}

impl Server {
    fn new() -> Server {
        let mut router = Router::new();
        router.add_route("/api/tags", "POST", 0u8);
        Server { router, handler: TagHandler::new(TagStore::new()) }
    }

    fn serve(&mut self, raw: &str) -> String {
        let (head, body) = raw.split_once("\r\n\r\n").unwrap_or((raw, ""));
        let mut lines: Vec<String> = head.split("\r\n").map(|l| format!("{}\r\n", l)).collect();
        lines.push(String::from("\r\n"));
        let mut request = match Request::parse_request(&lines) {
            Ok(request) => request,
            Err(e) => return String::from_utf8(bad_request(e)).unwrap(),
        };
        if dispatch(&self.router, &mut request).is_some() {
            let found = match TagHandler::body_length(&request) {
                None => Body::Missing,
                Some(n) => decode(&body.as_bytes()[..n]),
            };
            if let Some(answer) = self.handler.handle(&mut request, found) {
                request.respond(Status::ok(), &encode(&answer));
            }
        }
        String::from_utf8(request.response.take_output()).unwrap()
    }

    fn post(&mut self, json: &str) -> String {
        self.serve(&format!(
            "POST /api/tags HTTP/1.1\r\nContent-Length: {}\r\n\r\n{}",
            json.len(),
            json
        ))
    }
}

fn ok(json: &str) -> String {
    format!("HTTP/1.1 200 OK\r\nContent-Length: {}\r\n\r\n{}", json.len(), json)
}

const ADD: &str =
    r#"{"user":"u","add":["x"],"remove":[],"timestamp":"2020-01-01T00:00:00.000Z"}"#;
const REMOVE_LATER: &str =
    r#"{"user":"u","add":[],"remove":["x"],"timestamp":"2020-01-01T00:00:00.001Z"}"#;
const ADD_AND_REMOVE: &str =
    r#"{"user":"u","add":["x"],"remove":["x"],"timestamp":"2020-01-01T00:00:00.000Z"}"#;

#[test]
fn an_add_is_answered_with_the_tag() {
    let mut server = Server::new();
    assert_eq!(server.post(ADD), ok(r#"{"user":"u","tags":["x"]}"#));
}

#[test]
fn a_newer_remove_is_answered_without_the_tag() {
    let mut server = Server::new();
    server.post(ADD);
    assert_eq!(server.post(REMOVE_LATER), ok(r#"{"user":"u","tags":[]}"#));
}

#[test]
fn a_remove_at_the_timestamp_of_the_add_wins() {
    let mut server = Server::new();
    server.post(ADD);
    assert_eq!(server.post(ADD_AND_REMOVE), ok(r#"{"user":"u","tags":[]}"#));
}

#[test]
fn an_add_replayed_after_a_newer_remove_is_not_seen() {
    let mut server = Server::new();
    server.post(ADD);
    server.post(REMOVE_LATER);
    assert_eq!(server.post(ADD), ok(r#"{"user":"u","tags":[]}"#));
}

#[test]
fn a_body_that_is_not_json_is_answered_with_400() {
    let mut server = Server::new();
    assert_eq!(
        server.post("{not json"),
        "HTTP/1.1 400 Bad Request\r\nContent-Length: 27\r\n\r\nCouldn't parse request JSON"
    );
    assert_eq!(
        server.post(r#"{"user":"u"}"#),
        "HTTP/1.1 400 Bad Request\r\nContent-Length: 27\r\n\r\nCouldn't parse request JSON"
    );
}

#[test]
fn a_wrong_verb_is_answered_with_405_and_a_wrong_path_with_404() {
    let mut server = Server::new();
    assert_eq!(
        server.serve("GET /api/tags HTTP/1.1\r\n\r\n"),
        "HTTP/1.1 405 Method Not Allowed\r\nContent-Length: 0\r\n\r\n"
    );
    assert_eq!(
        server.serve("POST /nope HTTP/1.1\r\nContent-Length: 2\r\n\r\n{}"),
        "HTTP/1.1 404 Not Found\r\nContent-Length: 0\r\n\r\n"
    );
}

#[test]
fn a_request_without_a_body_is_answered_with_400() {
    let mut server = Server::new();
    assert_eq!(
        server.serve("POST /api/tags HTTP/1.1\r\nHost: h\r\n\r\n"),
        "HTTP/1.1 400 Bad Request\r\nContent-Length: 19\r\n\r\nRequest had no body"
    );
}

#[test]
fn a_timestamp_without_an_offset_is_answered_with_400() {
    let mut server = Server::new();
    let out = server
        .post(r#"{"user":"u","add":["x"],"remove":[],"timestamp":"2020-01-01T00:00:00"}"#);
    assert_eq!(
        out,
        "HTTP/1.1 400 Bad Request\r\nContent-Length: 49\r\n\r\n\
         Couldn't parse timestamp, expected zoned ISO 8601"
    );
}

#[test]
fn a_request_line_that_cannot_be_read_is_answered_with_400() {
    let mut server = Server::new();
    assert_eq!(
        server.serve("POST /api/tags\r\n\r\n"),
        "HTTP/1.1 400 Bad Request\r\nContent-Length: 27\r\n\r\nCouldn't parse request line"
    );
    assert_eq!(
        server.serve("POST api/tags HTTP/1.1\r\n\r\n"),
        "HTTP/1.1 400 Bad Request\r\nContent-Length: 34\r\n\r\nRequest path must start with a '/'"
    );
}

#[test]
fn a_path_below_the_endpoint_reaches_it() {
    let mut server = Server::new();
    let out = server.serve(&format!(
        "POST /api/tags/now?trace=1 HTTP/1.1\r\nContent-Length: {}\r\n\r\n{}",
        ADD.len(),
        ADD
    ));
    assert_eq!(out, ok(r#"{"user":"u","tags":["x"]}"#));
}

#[test]
fn the_connection_after_workers_and_queue_are_full_is_answered_with_503() {
    let workers = 3;
    let queue = 2;
    let mut pool = Admission::new(workers, queue);
    let mut answers = Vec::new();
    for _ in 0..(workers + queue + 1) {
        if pool.try_submit() {
            // A worker that is idle takes the job and holds it.
            if pool.can_take() {
                pool.take();
            }
            answers.push(None);
        } else {
            answers.push(Some(String::from_utf8(unavailable()).unwrap()));
        }
    }
    let expected = String::from("HTTP/1.1 503 Service Unavailable\r\nContent-Length: 0\r\n\r\n");
    assert_eq!(answers, vec![None, None, None, None, None, Some(expected)]);
}
