//! A small word-counting service core: decode a JSON request body of the
//! shape `{"words": [ ... strings ... ]}`, count how often each distinct
//! word occurs, and encode the counts back as a JSON body
//! `{"counts": { word: count, ... }}`.
#![verifier::loop_isolation(false)]

use vstd::prelude::*;

pub mod count;
pub mod decode;
pub mod encode;

verus! {

/// Whitespace as JSON knows it: space, tab, line feed, carriage return.
pub open spec fn is_json_ws(b: u8) -> bool {
    b == 0x20 || b == 0x09 || b == 0x0a || b == 0x0d
}

/// Index of the first byte at or after `i` that is not JSON whitespace.
pub open spec fn ws_end(s: Seq<u8>, i: int) -> int
    decreases s.len() - i,
{
    if i < 0 || i >= s.len() {
        i
    } else if is_json_ws(s[i]) {
        ws_end(s, i + 1)
    } else {
        i
    }
}

/// Skip JSON whitespace, starting at `i`.
pub(crate) fn skip_ws(s: &Vec<u8>, i: usize) -> (r: usize)
    requires
        i <= s@.len(),
    ensures
        r as int == ws_end(s@, i as int),
        i <= r <= s@.len(),
    decreases s@.len() - i,
{
    if i < s.len() && (s[i] == 0x20 || s[i] == 0x09 || s[i] == 0x0a || s[i] == 0x0d) {
        skip_ws(s, i + 1)
    } else {
        i
    }
}

/// The bytes of the text "payload too large".
pub open spec fn too_large_text() -> Seq<u8> {
    seq![
        0x70u8, 0x61, 0x79, 0x6c, 0x6f, 0x61, 0x64, 0x20, 0x74, 0x6f, 0x6f, 0x20, 0x6c, 0x61,
        0x72, 0x67, 0x65,
    ]
}

/// The response body sent with a payload-too-large reply.
pub fn too_large_message() -> (r: Vec<u8>)
    ensures
        r@ == too_large_text(),
{
    let r: Vec<u8> = vec![
        0x70, 0x61, 0x79, 0x6c, 0x6f, 0x61, 0x64, 0x20, 0x74, 0x6f, 0x6f, 0x20, 0x6c, 0x61, 0x72,
        0x67, 0x65,
    ];
    proof {
        assert(r@ =~= too_large_text());
    }
    r
}

/// Count the words of a request body: the whole core as one function from
/// body bytes to response bytes.
///
/// Succeeds exactly on the bodies the request grammar accepts; the response
/// encodes the occurrence counts of the decoded words, entries in some
/// order.
pub fn count_words(body: &Vec<u8>) -> (r: Result<Vec<u8>, decode::DecodeError>)
    ensures
        r is Err <==> decode::parse_request(body@) is None,
        r matches Ok(out) ==> exists|ps: Seq<(Seq<u8>, u64)>|
            count::pairs_match(
                ps,
                count::word_counts(decode::parse_request(body@).unwrap()),
            ) && out@ == encode::counts_body(ps),
{
    match decode::decode_words(body) {
        Err(e) => Err(e),
        Ok(words) => {
            let pairs = count::count_pairs(&words);
            let out = encode::encode_counts(&pairs);
            proof {
                let ps = encode::pairs_view(pairs@);
                assert(count::pairs_match(
                    ps,
                    count::word_counts(decode::parse_request(body@).unwrap()),
                ) && out@ == encode::counts_body(ps));
            }
            Ok(out)
        },
    }
}

/// The reply to one request: an HTTP status and a response body.
pub struct WordsReply {
    /// The HTTP status code: 200, 400 or 413.
    pub status: u16,
    /// The response body bytes.
    pub body: Vec<u8>,
}

/// Handle one request whose body was read in full: an oversized body is
/// refused with 413 before it is decoded, a body the grammar refuses gets
/// 400, and any other body gets 200 with the encoded counts.
pub fn handle_words(body: &Vec<u8>, limit: usize) -> (r: WordsReply)
    ensures
        body@.len() > limit ==> r.status == 413 && r.body@ == too_large_text(),
        body@.len() <= limit && decode::parse_request(body@) is None ==> r.status == 400
            && r.body@ == decode::bad_request_text(),
        (body@.len() <= limit && decode::parse_request(body@) is Some) ==> (r.status == 200
            && exists|ps: Seq<(Seq<u8>, u64)>|
            count::pairs_match(ps, count::word_counts(decode::parse_request(body@).unwrap()))
            && r.body@ == encode::counts_body(ps)),
{
    if body.len() > limit {
        WordsReply { status: 413, body: too_large_message() }
    } else {
        match count_words(body) {
            Ok(out) => WordsReply { status: 200, body: out },
            Err(e) => WordsReply { status: 400, body: e.message_bytes() },
        }
    }
}

} // verus!
