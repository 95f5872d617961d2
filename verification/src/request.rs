//! Building the single-line request.

use vstd::prelude::*;
use vstd::slice::slice_to_vec;
use vstd::utf8::encode_utf8;

verus! {

/// Encodes one request: the bytes of the URL's text followed by a carriage
/// return and a line feed. URL validity is the caller's concern; nothing
/// here can fail.
pub fn encode_request(url: &str) -> (r: Vec<u8>)
    ensures
        r@ == encode_utf8(url@) + seq![13u8, 10u8],
{
    let mut r = slice_to_vec(url.as_bytes());
    r.push(13);
    r.push(10);
    proof {
        assert(r@ =~= encode_utf8(url@) + seq![13u8, 10u8]);
    }
    r
}

} // verus!
