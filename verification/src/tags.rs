//! The tags endpoint: a batch of additions and removals of tags for one
//! user, with one timestamp, answered by the tags that the user then has.
//!
//! The endpoint is handed the body of the request as far as it could be
//! decoded, and hands back the answer to encode. A body that cannot be used
//! is answered here, with 400 and a short reason.

use vstd::prelude::*;
use crate::request::Request;
use crate::response::{content_length_name, response_bytes};
use crate::status::Status;
use crate::store::{
    has_cell, lemma_other_cells_untouched, present_tags, tag_present, tags_of, with_add,
    with_remove, TagStore, Tags,
};
use crate::text::{decimal_i32, parse_i32, texts};
use crate::fields::FieldMap;

verus! {

/// The instant that `chrono` reads in `text`, in milliseconds since the
/// epoch, where `chrono` can read `text` as a date and time with an offset.
pub uninterp spec fn timestamp_millis(text: Seq<char>) -> Option<i64>;

/// Parses `text` as a `chrono::DateTime<chrono::FixedOffset>` and calls
/// `timestamp_millis` on the result. The contract gives the outcome a name
/// and claims no more than that it depends on the text alone.
#[verifier::external_body]
fn parse_timestamp(text: &str) -> (r: Option<i64>)
    ensures
        r == timestamp_millis(text@),
{
    match text.parse::<chrono::DateTime<chrono::FixedOffset>>() {
        Ok(at) => Some(at.timestamp_millis()),
        Err(_) => None,
    }
}

/// The store after the additions of a batch: each tag of `add` that is not
/// also in `remove` is added, in order.
pub open spec fn with_adds(
    m: Tags,
    user: Seq<char>,
    add: Seq<Seq<char>>,
    remove: Seq<Seq<char>>,
    ts: int,
) -> Tags
    decreases add.len(),
{
    if add.len() == 0 {
        m
    } else {
        let before = with_adds(m, user, add.drop_last(), remove, ts);
        if remove.contains(add.last()) {
            before
        } else {
            with_add(before, user, add.last(), ts)
        }
    }
}

/// The store after the removals of a batch: each tag of `remove` is removed,
/// in order.
pub open spec fn with_removes(m: Tags, user: Seq<char>, remove: Seq<Seq<char>>, ts: int) -> Tags
    decreases remove.len(),
{
    if remove.len() == 0 {
        m
    } else {
        with_remove(with_removes(m, user, remove.drop_last(), ts), user, remove.last(), ts)
    }
}

/// The store after a batch: the additions, then the removals. A tag that is
/// in both lists is only removed.
pub open spec fn with_batch(
    m: Tags,
    user: Seq<char>,
    add: Seq<Seq<char>>,
    remove: Seq<Seq<char>>,
    ts: int,
) -> Tags {
    with_removes(with_adds(m, user, add, remove, ts), user, remove, ts)
}

/// The additions of a batch leave the cell of a tag that the batch removes
/// as it was.
proof fn lemma_adds_leave_removed_tag(
    m: Tags,
    user: Seq<char>,
    add: Seq<Seq<char>>,
    remove: Seq<Seq<char>>,
    ts: int,
    tag: Seq<char>,
)
    requires
        remove.contains(tag),
    ensures
        has_cell(with_adds(m, user, add, remove, ts), user, tag) == has_cell(m, user, tag),
        has_cell(m, user, tag) ==> tags_of(with_adds(m, user, add, remove, ts), user)[tag]
            == tags_of(m, user)[tag],
    decreases add.len(),
{
    if add.len() > 0 {
        lemma_adds_leave_removed_tag(m, user, add.drop_last(), remove, ts, tag);
        if !remove.contains(add.last()) {
            let before = with_adds(m, user, add.drop_last(), remove, ts);
            lemma_other_cells_untouched(before, user, add.last(), ts, user, tag);
        }
    }
}

/// Removals as of `ts` do not make a cell present, nor newer than `ts`.
proof fn lemma_removes_keep_not_newer(
    m: Tags,
    user: Seq<char>,
    remove: Seq<Seq<char>>,
    ts: int,
    tag: Seq<char>,
)
    requires
        ts > 0,
        !(has_cell(m, user, tag) && tags_of(m, user)[tag] > ts),
    ensures
        !(has_cell(with_removes(m, user, remove, ts), user, tag) && tags_of(
            with_removes(m, user, remove, ts),
            user,
        )[tag] > ts),
    decreases remove.len(),
{
    if remove.len() > 0 {
        lemma_removes_keep_not_newer(m, user, remove.drop_last(), ts, tag);
    }
}

/// Within one batch a removal wins: a tag that the batch removes is not
/// present after the batch, whether the batch adds it too or not. The one
/// start from which this does not hold is a cell that is present with a
/// timestamp newer than the batch's: there the removal is not seen.
pub proof fn lemma_batch_removal_wins(
    m: Tags,
    user: Seq<char>,
    add: Seq<Seq<char>>,
    remove: Seq<Seq<char>>,
    ts: int,
    tag: Seq<char>,
)
    requires
        ts > 0,
        remove.contains(tag),
        !(has_cell(m, user, tag) && tags_of(m, user)[tag] > ts),
    ensures
        !present_tags(with_batch(m, user, add, remove, ts), user).contains(tag),
{
    lemma_adds_leave_removed_tag(m, user, add, remove, ts, tag);
    lemma_removed_tag_is_absent(with_adds(m, user, add, remove, ts), user, remove, ts, tag);
}

/// A tag among removals as of `ts` is not present after them, unless its
/// cell was present and newer than `ts`.
proof fn lemma_removed_tag_is_absent(
    m: Tags,
    user: Seq<char>,
    remove: Seq<Seq<char>>,
    ts: int,
    tag: Seq<char>,
)
    requires
        ts > 0,
        remove.contains(tag),
        !(has_cell(m, user, tag) && tags_of(m, user)[tag] > ts),
    ensures
        !tag_present(with_removes(m, user, remove, ts), user, tag),
    decreases remove.len(),
{
    let front = remove.drop_last();
    let before = with_removes(m, user, front, ts);
    if remove.last() == tag {
        lemma_removes_keep_not_newer(m, user, front, ts, tag);
    } else {
        let i = choose|i: int| 0 <= i < remove.len() && remove[i] == tag;
        assert(front[i] == tag);
        lemma_removed_tag_is_absent(m, user, front, ts, tag);
        lemma_other_cells_untouched(before, user, remove.last(), ts, user, tag);
    }
}

/// The length of the body that the headers of a request announce: the first
/// `Content-Length`, where it is a decimal number that fits 32 bits and is
/// not negative.
pub open spec fn announced_length(headers: FieldMap) -> Option<usize> {
    if !headers.dom().contains(content_length_name()) {
        None
    } else {
        match decimal_i32(headers[content_length_name()][0]) {
            Some(n) => if n >= 0 {
                Some(n as usize)
            } else {
                None
            },
            None => None,
        }
    }
}

/// A batch of mutations, as a client sends it.
pub struct TagRequest {
    pub user: String,
    pub add: Vec<String>,
    pub remove: Vec<String>,
    pub timestamp: String,
}

/// The answer to a batch: the user and the tags that are present for it.
pub struct TagResponse {
    pub user: String,
    pub tags: Vec<String>,
}

/// What was found of the body of a request.
pub enum Body {
    /// The request announces no body.
    Missing,
    /// The body is not the JSON of a batch.
    Malformed,
    /// The body, decoded.
    Decoded(TagRequest),
}

/// Why a request was refused.
#[derive(Clone, Copy, Debug, PartialEq, Eq, Structural)]
pub enum Rejection {
    /// The request announces no body.
    MissingBody,
    /// The body is not the JSON of a batch.
    BadJson,
    /// The timestamp of the batch is not a date and time with an offset.
    BadTimestamp,
}

impl Rejection {
    /// The reason, as it is sent to the client.
    pub open spec fn text(&self) -> Seq<char> {
        match *self {
            Rejection::MissingBody => "Request had no body"@,
            Rejection::BadJson => "Couldn't parse request JSON"@,
            Rejection::BadTimestamp => "Couldn't parse timestamp, expected zoned ISO 8601"@,
        }
    }

    /// The reason, as it is sent to the client.
    pub fn message(&self) -> (r: &'static str)
        ensures
            r@ == self.text(),
    {
        match self {
            Rejection::MissingBody => "Request had no body",
            Rejection::BadJson => "Couldn't parse request JSON",
            Rejection::BadTimestamp => "Couldn't parse timestamp, expected zoned ISO 8601",
        }
    }
}

/// Whether `text` is among `list`.
pub fn contains_text(list: &Vec<String>, text: &String) -> (r: bool)
    ensures
        r == texts(list@).contains(text@),
{
    let n = list.len();
    let mut i: usize = 0;
    while i < n
        invariant
            n == list@.len(),
            i <= n,
            forall|j: int| 0 <= j < i ==> texts(list@)[j] != text@,
        decreases n - i,
    {
        if list[i] == *text {
            proof {
                assert(texts(list@)[i as int] == text@);
            }
            return true;
        }
        i = i + 1;
    }
    false
}

/// The endpoint, with the store that it answers from.
pub struct TagHandler {
    pub tag_store: TagStore,
}

impl TagHandler {
    /// An endpoint over `tag_store`.
    pub fn new(tag_store: TagStore) -> (h: TagHandler)
        ensures
            h.tag_store == tag_store,
    {
        TagHandler { tag_store }
    }

    /// The number of bytes of body to read for `request`, if it announces a
    /// body.
    pub fn body_length(request: &Request) -> (r: Option<usize>)
        requires
            request.request_headers.wf(),
        ensures
            r == announced_length(request.request_headers@),
    {
        proof {
            reveal_strlit("Content-Length");
        }
        match request.get_request_header("Content-Length") {
            None => None,
            Some(value) => match parse_i32(value.as_str()) {
                Some(n) => if n >= 0 {
                    Some(n as usize)
                } else {
                    None
                },
                None => None,
            },
        }
    }

    /// Applies a batch as of `ts`: the additions that are not also removals,
    /// then the removals.
    pub fn apply(&mut self, user: &String, add: &Vec<String>, remove: &Vec<String>, ts: i64)
        requires
            old(self).tag_store.wf(),
            ts > 0,
        ensures
            final(self).tag_store.wf(),
            final(self).tag_store@ == with_batch(
                old(self).tag_store@,
                user@,
                texts(add@),
                texts(remove@),
                ts as int,
            ),
    {
        let ghost adds = texts(add@);
        let ghost removes = texts(remove@);
        let n = add.len();
        let mut i: usize = 0;
        proof {
            assert(adds.take(0) =~= Seq::<Seq<char>>::empty());
        }
        while i < n
            invariant
                n == add@.len(),
                i <= n,
                ts > 0,
                adds == texts(add@),
                removes == texts(remove@),
                self.tag_store.wf(),
                self.tag_store@ == with_adds(
                    old(self).tag_store@,
                    user@,
                    adds.take(i as int),
                    removes,
                    ts as int,
                ),
            decreases n - i,
        {
            proof {
                assert(adds.take(i + 1).drop_last() =~= adds.take(i as int));
                assert(adds.take(i + 1).last() == add@[i as int]@);
            }
            if !contains_text(remove, &add[i]) {
                self.tag_store.add_tag(user, &add[i], ts);
            }
            i = i + 1;
        }
        proof {
            assert(adds.take(n as int) =~= adds);
            assert(removes.take(0) =~= Seq::<Seq<char>>::empty());
        }
        let ghost added = self.tag_store@;
        let m = remove.len();
        let mut j: usize = 0;
        while j < m
            invariant
                m == remove@.len(),
                j <= m,
                ts > 0,
                removes == texts(remove@),
                self.tag_store.wf(),
                self.tag_store@ == with_removes(added, user@, removes.take(j as int), ts as int),
            decreases m - j,
        {
            proof {
                assert(removes.take(j + 1).drop_last() =~= removes.take(j as int));
                assert(removes.take(j + 1).last() == remove@[j as int]@);
            }
            self.tag_store.remove_tag(user, &remove[j], ts);
            j = j + 1;
        }
        proof {
            assert(removes.take(m as int) =~= removes);
        }
    }

    /// Refuses a request: the response is 400, with the reason as its body.
    pub fn reject(request: &mut Request, why: Rejection)
        requires
            old(request).wf(),
            !old(request).response.sent(),
            !old(request).response.fields()@.dom().contains(content_length_name()),
        ensures
            final(request).wf(),
            final(request).same_head(old(request)),
            final(request).response.sent(),
            final(request).response.fields() == old(request).response.fields(),
            final(request).response.output() == response_bytes(
                400,
                old(request).response.fields().in_order(),
                vstd::utf8::encode_utf8(why.text()),
            ),
    {
        let message = why.message();
        request.respond(Status::bad_request(), message.as_bytes());
    }

    /// Answers a decoded batch whose timestamp has been read: `at` is the
    /// instant in milliseconds, or nothing where the timestamp could not be
    /// read. A timestamp that cannot be read is refused. A batch as of an
    /// instant after the epoch is applied; one as of the epoch or before it
    /// is older than anything a cell can carry and changes nothing. Either
    /// way the answer is the tags that the user then has.
    pub fn handle_at(&mut self, request: &mut Request, tags: TagRequest, at: Option<i64>) -> (r:
        Option<TagResponse>)
        requires
            old(self).tag_store.wf(),
            old(request).wf(),
            !old(request).response.sent(),
            !old(request).response.fields()@.dom().contains(content_length_name()),
        ensures
            final(self).tag_store.wf(),
            final(request).wf(),
            final(request).same_head(old(request)),
            match at {
                None => {
                    &&& r is None
                    &&& final(self).tag_store@ == old(self).tag_store@
                    &&& final(request).response.sent()
                    &&& final(request).response.fields() == old(request).response.fields()
                    &&& final(request).response.output() == response_bytes(
                        400,
                        old(request).response.fields().in_order(),
                        vstd::utf8::encode_utf8(Rejection::BadTimestamp.text()),
                    )
                },
                Some(ts) => {
                    &&& r is Some
                    &&& final(self).tag_store@ == if ts > 0 {
                        with_batch(
                            old(self).tag_store@,
                            tags.user@,
                            texts(tags.add@),
                            texts(tags.remove@),
                            ts as int,
                        )
                    } else {
                        old(self).tag_store@
                    }
                    &&& r->0.user@ == tags.user@
                    &&& texts(r->0.tags@).no_duplicates()
                    &&& texts(r->0.tags@).to_set() == present_tags(
                        final(self).tag_store@,
                        tags.user@,
                    )
                    &&& final(request).response == old(request).response
                },
            },
    {
        match at {
            None => {
                TagHandler::reject(request, Rejection::BadTimestamp);
                None
            },
            Some(ts) => {
                if ts > 0 {
                    self.apply(&tags.user, &tags.add, &tags.remove, ts);
                }
                let present = self.tag_store.tags_for_user(&tags.user);
                Some(TagResponse { user: tags.user, tags: present })
            },
        }
    }

    /// Answers a request, given what was found of its body. A missing body
    /// and a body that is not the JSON of a batch are refused. For a decoded
    /// batch the timestamp is read and the batch is answered as
    /// [`TagHandler::handle_at`] says.
    pub fn handle(&mut self, request: &mut Request, body: Body) -> (r: Option<TagResponse>)
        requires
            old(self).tag_store.wf(),
            old(request).wf(),
            !old(request).response.sent(),
            !old(request).response.fields()@.dom().contains(content_length_name()),
        ensures
            final(self).tag_store.wf(),
            final(request).wf(),
            final(request).same_head(old(request)),
            r is Some <==> body is Decoded && timestamp_millis(body->Decoded_0.timestamp@) is Some,
            r is None ==> {
                &&& final(self).tag_store@ == old(self).tag_store@
                &&& final(request).response.sent()
                &&& final(request).response.fields() == old(request).response.fields()
                &&& final(request).response.output() == response_bytes(
                    400,
                    old(request).response.fields().in_order(),
                    vstd::utf8::encode_utf8(
                        match body {
                            Body::Missing => Rejection::MissingBody.text(),
                            Body::Malformed => Rejection::BadJson.text(),
                            Body::Decoded(_) => Rejection::BadTimestamp.text(),
                        },
                    ),
                )
            },
            r is Some ==> {
                &&& final(self).tag_store@ == if timestamp_millis(body->Decoded_0.timestamp@)->0
                    > 0 {
                    with_batch(
                        old(self).tag_store@,
                        body->Decoded_0.user@,
                        texts(body->Decoded_0.add@),
                        texts(body->Decoded_0.remove@),
                        timestamp_millis(body->Decoded_0.timestamp@)->0 as int,
                    )
                } else {
                    old(self).tag_store@
                }
                &&& r->0.user@ == body->Decoded_0.user@
                &&& texts(r->0.tags@).no_duplicates()
                &&& texts(r->0.tags@).to_set() == present_tags(
                    final(self).tag_store@,
                    body->Decoded_0.user@,
                )
                &&& final(request).response == old(request).response
            },
    {
        match body {
            Body::Missing => {
                TagHandler::reject(request, Rejection::MissingBody);
                None
            },
            Body::Malformed => {
                TagHandler::reject(request, Rejection::BadJson);
                None
            },
            Body::Decoded(tags) => {
                let at = parse_timestamp(tags.timestamp.as_str());
                self.handle_at(request, tags, at)
            },
        }
    }
}

} // verus!
