//! The decode side of one exchange: parse the header, classify the status,
//! and resolve the body only on a success status.

use vstd::prelude::*;
use vstd::utf8::{decode_utf8, valid_utf8};

use crate::body::{get_response_body, is_text_media, spec_body_bytes, BodyData};
use crate::errors::MyErr;
use crate::header::{get_response_header, spec_parse_header, Header};
use crate::status::{spec_classify, Status};
use crate::text::lossy_utf8;

verus! {

/// The terminal outcome of one exchange, once the whole response has been
/// read from the transport.
#[derive(Debug)]
pub enum SessionOutcome {
    /// The header line could not be parsed; body handling was never
    /// attempted.
    HeaderFailed(MyErr),
    /// A status outside the success category: the body stays unresolved and
    /// the header is surfaced as the result.
    Unhandled(Header),
    /// A success status with its resolved body.
    Delivered(Header, BodyData),
    /// A success status whose declared-text body is not validly encoded.
    BodyFailed(Header, MyErr),
}

/// The header fields that a successful parse pins down: the transmitted
/// status code, and the trimmed metadata bytes decoded tolerantly.
pub open spec fn header_matches(h: Header, code: u8, meta_bytes: Seq<u8>) -> bool {
    h.status_code == code && h.meta@ == lossy_utf8(meta_bytes)
}

/// Drives the decode side of one exchange over a fully read raw response:
/// parse the header; on a success status — and only then — resolve the body.
pub fn process_response(response: &Vec<u8>) -> (r: SessionOutcome)
    ensures
        ({
            match spec_parse_header(response@) {
                Err(e) => r matches SessionOutcome::HeaderFailed(e2) && e2 == e,
                Ok(pm) => {
                    let body = spec_body_bytes(response@);
                    if spec_classify(pm.0) == Some(Status::Success) {
                        if is_text_media(lossy_utf8(pm.1)) {
                            if valid_utf8(body) {
                                r matches SessionOutcome::Delivered(h, BodyData::Text(s))
                                    && header_matches(h, pm.0, pm.1) && s@ == decode_utf8(body)
                            } else {
                                r matches SessionOutcome::BodyFailed(h, e) && header_matches(
                                    h,
                                    pm.0,
                                    pm.1,
                                ) && e == MyErr::InvalidTextEncoding
                            }
                        } else {
                            r matches SessionOutcome::Delivered(h, BodyData::Binary(v))
                                && header_matches(h, pm.0, pm.1) && v@ == body
                        }
                    } else {
                        r matches SessionOutcome::Unhandled(h) && header_matches(h, pm.0, pm.1)
                    }
                },
            }
        }),
{
    let h = match get_response_header(response) {
        Ok(h) => h,
        Err(e) => {
            return SessionOutcome::HeaderFailed(e);
        },
    };
    let is_success = match h.get_status() {
        Some(Status::Success) => true,
        _ => false,
    };
    if is_success {
        match get_response_body(h.meta.as_str(), response) {
            Ok(b) => SessionOutcome::Delivered(h, b),
            Err(e) => SessionOutcome::BodyFailed(h, e),
        }
    } else {
        SessionOutcome::Unhandled(h)
    }
}

} // verus!
