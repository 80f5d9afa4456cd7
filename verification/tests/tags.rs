use rust_tag_server::fields::Fields;
use rust_tag_server::request::Request;
use rust_tag_server::store::TagStore;
use rust_tag_server::tags::{contains_text, Body, Rejection, TagHandler, TagRequest};

fn s(text: &str) -> String {
    String::from(text)
}

fn list(texts: &[&str]) -> Vec<String> {
    texts.iter().map(|t| s(t)).collect()
}

fn sorted(mut tags: Vec<String>) -> Vec<String> {
    tags.sort();
    tags
}

fn request_with(headers: &[(&str, &str)]) -> Request {
    let mut fields = Fields::new();
    for (name, value) in headers {
        fields.append(s(name), s(value));
    }
    Request::new(fields, Fields::new(), s("/api/tags"), s("POST"))
}

fn batch(user: &str, add: &[&str], remove: &[&str], timestamp: &str) -> TagRequest {
    TagRequest { user: s(user), add: list(add), remove: list(remove), timestamp: s(timestamp) }
}

fn output(request: &mut Request) -> String {
    String::from_utf8(request.response.take_output()).unwrap()
}

#[test]
fn the_length_of_the_body_is_the_first_content_length() {
    assert_eq!(TagHandler::body_length(&request_with(&[("Content-Length", "12")])), Some(12));
    assert_eq!(TagHandler::body_length(&request_with(&[("Content-Length", "0")])), Some(0));
    assert_eq!(TagHandler::body_length(&request_with(&[("Content-Length", "+5")])), Some(5));
    assert_eq!(
        TagHandler::body_length(&request_with(&[("Content-Length", "3"), ("Content-Length", "9")])),
        Some(3)
    );
    assert_eq!(
        TagHandler::body_length(&request_with(&[("Content-Length", "2147483647")])),
        Some(2147483647)
    );
}

#[test]
fn a_request_without_a_usable_content_length_has_no_body() {
    assert_eq!(TagHandler::body_length(&request_with(&[])), None);
    assert_eq!(TagHandler::body_length(&request_with(&[("content-length", "12")])), None);
    assert_eq!(TagHandler::body_length(&request_with(&[("Content-Length", "-1")])), None);
    assert_eq!(TagHandler::body_length(&request_with(&[("Content-Length", "")])), None);
    assert_eq!(TagHandler::body_length(&request_with(&[("Content-Length", "12 bytes")])), None);
    assert_eq!(TagHandler::body_length(&request_with(&[("Content-Length", "2147483648")])), None);
    assert_eq!(
        TagHandler::body_length(&request_with(&[("Content-Length", "x"), ("Content-Length", "9")])),
        None
    );
}

#[test]
fn a_text_is_among_a_list_or_not() {
    assert!(contains_text(&list(&["a", "b"]), &s("b")));
    assert!(!contains_text(&list(&["a", "b"]), &s("B")));
    assert!(!contains_text(&list(&[]), &s("")));
    assert!(contains_text(&list(&["", "a"]), &s("")));
}

#[test]
fn a_batch_adds_then_removes() {
    let mut handler = TagHandler::new(TagStore::new());
    handler.apply(&s("u"), &list(&["a", "b", "c"]), &list(&[]), 10);
    handler.apply(&s("u"), &list(&["d"]), &list(&["a", "zz"]), 11);
    assert_eq!(sorted(handler.tag_store.tags_for_user(&s("u"))), list(&["b", "c", "d"]));
}

#[test]
fn a_tag_in_both_lists_is_only_removed() {
    let mut handler = TagHandler::new(TagStore::new());
    handler.apply(&s("u"), &list(&["a", "b"]), &list(&["a"]), 10);
    assert_eq!(handler.tag_store.tags_for_user(&s("u")), list(&["b"]));
    // The add of `a` never reached the store: an add at 5 would be older
    // than it, and a remove at 10 is what the cell carries.
    handler.apply(&s("u"), &list(&["a"]), &list(&[]), 10);
    assert_eq!(handler.tag_store.tags_for_user(&s("u")), list(&["b"]));
    handler.apply(&s("u"), &list(&["a"]), &list(&[]), 11);
    assert_eq!(sorted(handler.tag_store.tags_for_user(&s("u"))), list(&["a", "b"]));
}

#[test]
fn a_tag_listed_twice_is_added_once() {
    let mut handler = TagHandler::new(TagStore::new());
    handler.apply(&s("u"), &list(&["a", "a"]), &list(&["b", "b"]), 10);
    assert_eq!(handler.tag_store.tags_for_user(&s("u")), list(&["a"]));
}

#[test]
fn an_empty_batch_changes_nothing() {
    let mut handler = TagHandler::new(TagStore::new());
    handler.apply(&s("u"), &list(&["a"]), &list(&[]), 10);
    handler.apply(&s("u"), &list(&[]), &list(&[]), 20);
    handler.apply(&s("v"), &list(&[]), &list(&[]), 20);
    assert_eq!(handler.tag_store.tags_for_user(&s("u")), list(&["a"]));
    assert!(handler.tag_store.tags_for_user(&s("v")).is_empty());
}

#[test]
fn a_missing_body_is_refused() {
    let mut handler = TagHandler::new(TagStore::new());
    let mut request = request_with(&[]);
    assert!(handler.handle(&mut request, Body::Missing).is_none());
    assert!(request.response_headers_sent());
    assert_eq!(
        output(&mut request),
        "HTTP/1.1 400 Bad Request\r\nContent-Length: 19\r\n\r\nRequest had no body"
    );
}

#[test]
fn a_body_that_is_no_batch_is_refused() {
    let mut handler = TagHandler::new(TagStore::new());
    let mut request = request_with(&[]);
    assert!(handler.handle(&mut request, Body::Malformed).is_none());
    assert_eq!(
        output(&mut request),
        "HTTP/1.1 400 Bad Request\r\nContent-Length: 27\r\n\r\nCouldn't parse request JSON"
    );
}

#[test]
fn a_timestamp_that_cannot_be_read_is_refused() {
    for timestamp in ["", "yesterday", "2020-01-01", "2020-01-01T00:00:00", "1577836800000"] {
        let mut handler = TagHandler::new(TagStore::new());
        let mut request = request_with(&[]);
        let body = Body::Decoded(batch("u", &["x"], &[], timestamp));
        assert!(handler.handle(&mut request, body).is_none(), "{:?}", timestamp);
        assert_eq!(
            output(&mut request),
            "HTTP/1.1 400 Bad Request\r\nContent-Length: 49\r\n\r\n\
             Couldn't parse timestamp, expected zoned ISO 8601"
        );
        assert!(handler.tag_store.tags_for_user(&s("u")).is_empty());
    }
}

#[test]
fn a_refusal_keeps_the_headers_that_were_added() {
    let mut request = request_with(&[]);
    request.add_response_header("X-A", "1");
    TagHandler::reject(&mut request, Rejection::BadJson);
    assert_eq!(
        output(&mut request),
        "HTTP/1.1 400 Bad Request\r\nX-A: 1\nContent-Length: 27\r\n\r\nCouldn't parse request JSON"
    );
}

#[test]
fn each_refusal_has_its_message() {
    assert_eq!(Rejection::MissingBody.message(), "Request had no body");
    assert_eq!(Rejection::BadJson.message(), "Couldn't parse request JSON");
    assert_eq!(
        Rejection::BadTimestamp.message(),
        "Couldn't parse timestamp, expected zoned ISO 8601"
    );
}

#[test]
fn a_batch_is_answered_by_the_tags_of_its_user() {
    let mut handler = TagHandler::new(TagStore::new());
    let mut request = request_with(&[]);
    let body = Body::Decoded(batch("u", &["x", "y"], &["y"], "2020-01-01T00:00:00.000Z"));
    let answer = handler.handle(&mut request, body).unwrap();
    assert_eq!(answer.user, "u");
    assert_eq!(answer.tags, list(&["x"]));
    assert!(!request.response_headers_sent());
    assert!(request.response.take_output().is_empty());
}

#[test]
fn timestamps_are_instants_whatever_their_offset() {
    let mut handler = TagHandler::new(TagStore::new());
    let mut request = request_with(&[]);
    // 01:00 at +02:00 is an hour before 00:00 at UTC.
    let first = Body::Decoded(batch("u", &["x"], &[], "2020-01-01T00:00:00Z"));
    assert_eq!(handler.handle(&mut request, first).unwrap().tags, list(&["x"]));
    let older = Body::Decoded(batch("u", &[], &["x"], "2020-01-01T01:00:00+02:00"));
    assert_eq!(handler.handle(&mut request, older).unwrap().tags, list(&["x"]));
    let newer = Body::Decoded(batch("u", &[], &["x"], "2019-12-31T23:00:00.001-01:00"));
    assert!(handler.handle(&mut request, newer).unwrap().tags.is_empty());
}

#[test]
fn a_timestamp_counts_milliseconds() {
    let mut handler = TagHandler::new(TagStore::new());
    let mut request = request_with(&[]);
    assert!(handler
        .handle_at(&mut request, batch("u", &["x"], &[], "1970-01-01T00:00:01.444Z"), Some(1_444))
        .is_some());
    // The parsed instant is 1444: a remove at 1443 is older, one at 1444 ties.
    let read = Body::Decoded(batch("u", &["y"], &[], "1970-01-01T00:00:01.444Z"));
    assert_eq!(sorted(handler.handle(&mut request, read).unwrap().tags), list(&["x", "y"]));
    let older = handler.handle_at(&mut request, batch("u", &[], &["y"], ""), Some(1_443));
    assert_eq!(sorted(older.unwrap().tags), list(&["x", "y"]));
    let tie = handler.handle_at(&mut request, batch("u", &[], &["y"], ""), Some(1_444));
    assert_eq!(tie.unwrap().tags, list(&["x"]));
}

#[test]
fn a_batch_as_of_the_epoch_or_before_changes_nothing() {
    let mut handler = TagHandler::new(TagStore::new());
    let mut request = request_with(&[]);
    handler.apply(&s("u"), &list(&["kept"]), &list(&[]), 1);
    for timestamp in ["1970-01-01T00:00:00Z", "1969-12-31T23:59:59.999Z", "1900-01-01T00:00:00Z"] {
        let body = Body::Decoded(batch("u", &["x"], &["kept", "y"], timestamp));
        let answer = handler.handle(&mut request, body).unwrap();
        assert_eq!(answer.user, "u");
        assert_eq!(answer.tags, list(&["kept"]), "{:?}", timestamp);
    }
    for at in [0, -1, i64::MIN] {
        let answer = handler.handle_at(&mut request, batch("u", &["x"], &["kept"], ""), Some(at));
        assert_eq!(answer.unwrap().tags, list(&["kept"]));
    }
    // Nothing was recorded for `x`: the oldest add there is still seen.
    handler.apply(&s("u"), &list(&["x"]), &list(&[]), 1);
    assert_eq!(sorted(handler.tag_store.tags_for_user(&s("u"))), list(&["kept", "x"]));
    assert!(!request.response_headers_sent());
}

#[test]
fn a_timestamp_read_elsewhere_is_taken_as_it_is() {
    let mut handler = TagHandler::new(TagStore::new());
    let mut request = request_with(&[]);
    assert!(handler.handle_at(&mut request, batch("u", &["x"], &[], "ignored"), None).is_none());
    assert!(request.response_headers_sent());
    let mut request = request_with(&[]);
    let answer = handler.handle_at(&mut request, batch("u", &["x"], &[], "ignored"), Some(5));
    assert_eq!(answer.unwrap().tags, list(&["x"]));
}
