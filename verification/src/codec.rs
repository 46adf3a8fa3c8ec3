//! The wire format: the text of a range request, and the split of a response
//! into its header block and its body.

use crate::decimal::{append_decimal, decimal};
use crate::range::ChunkRange;
use vstd::prelude::*;
use vstd::slice::{slice_subrange, slice_to_vec};
use vstd::string::*;

verus! {

/// A response ended before the empty line that closes its header block.
#[derive(Clone, Copy, Debug, PartialEq, Eq, Structural)]
pub struct ProtocolError;

/// The request for the bytes of `range`. The second number on the `Range`
/// line is the exclusive end of the range as it stands, not the index of the
/// last byte: the servers this client talks to read it that way.
pub open spec fn request_text(range: ChunkRange) -> Seq<char> {
    "GET / HTTP/1.1\r\nRange: bytes="@ + decimal(range.start as nat) + "-"@ + decimal(
        range.end as nat,
    ) + "\r\n\r\n"@
}

/// True when a line begins at offset `p`: at the start of the response or
/// right behind a line feed.
pub open spec fn line_starts_at(raw: Seq<u8>, p: int) -> bool {
    p == 0 || (0 < p <= raw.len() && raw[p - 1] == 10)
}

/// True when the line that begins at offset `p` is empty, that is, holds a
/// carriage return and a line feed and nothing else.
pub open spec fn blank_line_at(raw: Seq<u8>, p: int) -> bool {
    &&& 0 <= p
    &&& p + 2 <= raw.len()
    &&& line_starts_at(raw, p)
    &&& raw[p] == 13
    &&& raw[p + 1] == 10
}

/// True when the first empty line of the response begins at offset `p`.
pub open spec fn header_ends_at(raw: Seq<u8>, p: int) -> bool {
    blank_line_at(raw, p) && forall|q: int| 0 <= q < p ==> !blank_line_at(raw, q)
}

/// The body of a response: everything behind its first empty line. A
/// response without an empty line has no body.
pub open spec fn response_body(raw: Seq<u8>) -> Option<Seq<u8>> {
    if exists|p: int| header_ends_at(raw, p) {
        let p = choose|p: int| header_ends_at(raw, p);
        Some(raw.skip(p + 2))
    } else {
        None
    }
}

/// Where the first empty line begins is the only offset at which the header
/// block ends, and the body is what follows it.
pub proof fn lemma_body_at(raw: Seq<u8>, p: int)
    requires
        header_ends_at(raw, p),
    ensures
        response_body(raw) == Some(raw.skip(p + 2)),
{
    let q = choose|q: int| header_ends_at(raw, q);
    assert(q == p);
}

/// A response has no body exactly when none of its lines is empty.
pub proof fn lemma_no_body(raw: Seq<u8>)
    ensures
        response_body(raw) is None <==> forall|p: int| !blank_line_at(raw, p),
{
    if exists|p: int| blank_line_at(raw, p) {
        let p = choose|p: int| blank_line_at(raw, p);
        lemma_first_blank_line(raw, p);
    }
}

/// Below any empty line there is a first one.
proof fn lemma_first_blank_line(raw: Seq<u8>, p: int)
    requires
        blank_line_at(raw, p),
    ensures
        exists|q: int| 0 <= q <= p && header_ends_at(raw, q),
    decreases p,
{
    if exists|q: int| 0 <= q < p && blank_line_at(raw, q) {
        let q = choose|q: int| 0 <= q < p && blank_line_at(raw, q);
        lemma_first_blank_line(raw, q);
    } else {
        assert(header_ends_at(raw, p));
    }
}

/// A header block of complete lines, none of them empty, followed by an
/// empty line and a body, is a response with exactly that body.
pub proof fn lemma_framed_body(head: Seq<u8>, body: Seq<u8>)
    requires
        head.len() == 0 || head.last() == 10,
        forall|p: int| !blank_line_at(head, p),
    ensures
        response_body(head + seq![13u8, 10u8] + body) == Some(body),
{
    let raw = head + seq![13u8, 10u8] + body;
    let p = head.len() as int;
    assert forall|q: int| 0 <= q < p implies !blank_line_at(raw, q) by {
        if blank_line_at(raw, q) && q + 2 <= p {
            assert(blank_line_at(head, q));
        }
    }
    lemma_body_at(raw, p);
}

/// Builds the request for one range.
pub fn get_request(range: ChunkRange) -> (request: String)
    requires
        range.start < range.end,
    ensures
        request@ == request_text(range),
{
    let mut request = String::from_str("GET / HTTP/1.1\r\nRange: bytes=");
    append_decimal(&mut request, range.start);
    request.append("-");
    append_decimal(&mut request, range.end);
    request.append("\r\n\r\n");
    request
}

/// Skips the header lines of a response up to and including the first empty
/// line and returns the bytes behind it. `raw` is everything the connection
/// delivered before it was closed.
pub fn read_response(raw: &[u8]) -> (result: Result<Vec<u8>, ProtocolError>)
    ensures
        match result {
            Ok(body) => response_body(raw@) == Some(body@),
            Err(_) => response_body(raw@) is None,
        },
        result is Err <==> forall|p: int| !blank_line_at(raw@, p),
{
    let len: usize = raw.len();
    let mut p: usize = 0;
    proof {
        lemma_no_body(raw@);
    }
    while p < len && len - p >= 2
        invariant
            p <= len,
            len == raw@.len(),
            forall|q: int| 0 <= q < p ==> !blank_line_at(raw@, q),
        decreases len - p,
    {
        if (p == 0 || raw[p - 1] == 10) && raw[p] == 13 && raw[p + 1] == 10 {
            proof {
                lemma_body_at(raw@, p as int);
            }
            let body = slice_to_vec(slice_subrange(raw, p + 2, len));
            return Ok(body);
        }
        p = p + 1;
    }
    Err(ProtocolError)
}

} // verus!
