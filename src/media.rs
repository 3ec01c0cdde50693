//! Framing of a media response: which bytes of the file are sent, with
//! which status and headers.
use vstd::prelude::*;
use crate::decimal::{dec, push_decimal};
use crate::range::{range_spec, resolve_range};

verus! {

/// The content type of every media response.
pub const VIDEO_CONTENT_TYPE: &'static str = "video/mp4";

pub const STATUS_OK: u16 = 200;

pub const STATUS_PARTIAL_CONTENT: u16 = 206;

/// How to answer a media request: send `length` bytes of the file from
/// offset `start`, with status `status`, and with the `Content-Range` header
/// value `content_range` when it is present.
pub struct StreamPlan {
    pub status: u16,
    pub start: u64,
    pub length: u64,
    pub content_range: Option<String>,
}

/// The text `bytes <start>-<end>/<total>`.
pub open spec fn content_range_spec(start: u64, end: u64, total: u64) -> Seq<char> {
    seq!['b', 'y', 't', 'e', 's', ' '] + dec(start as nat) + seq!['-'] + dec(end as nat) + seq!['/']
        + dec(total as nat)
}

/// The value of the `Content-Range` header for the window `start..=end` of a
/// resource of `total` bytes.
pub fn content_range(start: u64, end: u64, total: u64) -> (r: String)
    ensures
        r@ == content_range_spec(start, end, total),
{
    let mut s = String::new();
    s.append("bytes ");
    push_decimal(&mut s, start);
    s.append("-");
    push_decimal(&mut s, end);
    s.append("/");
    push_decimal(&mut s, total);
    proof {
        reveal_strlit("bytes ");
        reveal_strlit("-");
        reveal_strlit("/");
    }
    assert(s@ =~= content_range_spec(start, end, total));
    s
}

/// Plans the answer to a request for a file of `file_size` bytes with the
/// given `Range` header: the window it names with status 206, or else the
/// whole file with status 200.
pub fn plan_stream(range_header: Option<&str>, file_size: u64) -> (r: StreamPlan)
    ensures
        match (match range_header {
            Some(h) => range_spec(h@, file_size),
            None => None,
        }) {
            Some((s, e)) => {
                &&& r.status == STATUS_PARTIAL_CONTENT
                &&& r.start == s
                &&& r.length == e - s + 1
                &&& r.content_range matches Some(c) && c@ == content_range_spec(s, e, file_size)
            },
            None => {
                &&& r.status == STATUS_OK
                &&& r.start == 0
                &&& r.length == file_size
                &&& r.content_range is None
            },
        },
{
    match resolve_range(range_header, file_size) {
        Some((start, end)) => StreamPlan {
            status: STATUS_PARTIAL_CONTENT,
            start,
            length: end - start + 1,
            content_range: Some(content_range(start, end, file_size)),
        },
        None => StreamPlan { status: STATUS_OK, start: 0, length: file_size, content_range: None },
    }
}

} // verus!
