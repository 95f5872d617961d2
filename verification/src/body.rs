//! Resolving the response body: everything after the first line feed,
//! decoded as text when the metadata declares a textual media type, kept as
//! raw bytes otherwise.

use vstd::prelude::*;
use vstd::slice::{slice_subrange, slice_to_vec};
use vstd::string::StrSliceExecFns;
use vstd::utf8::{decode_utf8, valid_utf8};

use crate::errors::MyErr;
use crate::scan::{find_byte, find_from, lemma_find_byte_at, lemma_find_byte_none};
use crate::text::decode_strict;

verus! {

/// A resolved response body: decoded text, or untouched raw bytes.
#[derive(Debug, PartialEq)]
pub enum BodyData {
    Text(String),
    Binary(Vec<u8>),
}

/// Whether a metadata value declares a textual media type: it begins with
/// the prefix `text/`. The match is case-sensitive, following the wire
/// convention.
pub open spec fn is_text_media(m: Seq<char>) -> bool {
    m.len() >= 5 && m[0] == 't' && m[1] == 'e' && m[2] == 'x' && m[3] == 't' && m[4] == '/'
}

/// The body of a raw response: everything after the first line feed — the
/// same split point the header parser uses.
pub open spec fn spec_body_bytes(raw: Seq<u8>) -> Seq<u8>
    recommends
        find_byte(raw, 10) is Some,
{
    match find_byte(raw, 10) {
        Some(lf) => raw.skip(lf + 1),
        None => Seq::empty(),
    }
}

/// Whether `meta` begins with `text/`.
fn is_text_meta(meta: &str) -> (r: bool)
    ensures
        r == is_text_media(meta@),
{
    let n = meta.unicode_len();
    n >= 5 && meta.get_char(0) == 't' && meta.get_char(1) == 'e' && meta.get_char(2) == 'x'
        && meta.get_char(3) == 't' && meta.get_char(4) == '/'
}

/// Splits the body off a raw response at the first line feed and resolves
/// it. A declared-text body is decoded strictly and its invalid encoding is
/// a reported failure; any other body is returned byte for byte. The caller
/// guarantees the line feed, as the header parser already found one.
pub fn get_response_body(meta: &str, response: &Vec<u8>) -> (r: Result<BodyData, MyErr>)
    requires
        find_byte(response@, 10) is Some,
    ensures
        ({
            let body = spec_body_bytes(response@);
            if is_text_media(meta@) {
                if valid_utf8(body) {
                    r matches Ok(BodyData::Text(s)) && s@ == decode_utf8(body)
                } else {
                    r matches Err(e) && e == MyErr::InvalidTextEncoding
                }
            } else {
                r matches Ok(BodyData::Binary(v)) && v@ == body
            }
        }),
{
    let lf = match find_from(response, 10, 0, response.len()) {
        Some(i) => i,
        None => {
            proof {
                lemma_find_byte_none(response@, 10);
            }
            return Err(MyErr::MalformedResponse);
        },
    };
    proof {
        lemma_find_byte_at(response@, 10, lf as int);
        assert(response@.skip(lf as int + 1) =~= response@.subrange(
            lf as int + 1,
            response@.len() as int,
        ));
    }
    let body = slice_to_vec(slice_subrange(response.as_slice(), lf + 1, response.len()));
    if is_text_meta(meta) {
        match decode_strict(body) {
            Some(s) => Ok(BodyData::Text(s)),
            None => Err(MyErr::InvalidTextEncoding),
        }
    } else {
        Ok(BodyData::Binary(body))
    }
}

} // verus!
