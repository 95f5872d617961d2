//! Parsing a raw response into its header: split off the header line at the
//! first line feed, split the line at the first space, read the status code
//! and trim the metadata.

use vstd::arithmetic::div_mod::lemma_fundamental_div_mod;
use vstd::prelude::*;
use vstd::slice::slice_subrange;
use vstd::utf8::{decode_utf8, valid_utf8};

use crate::errors::MyErr;
use crate::scan::{
    all_digits, digits_value, find_byte, find_from, is_digit, lemma_find_byte,
    lemma_find_byte_at, lemma_find_byte_none, lemma_trim_ascii, lemma_trim_no_byte,
    lemma_trim_push_wsp, parse_code, parses_as_u8, trim_range, trim_spec,
};
use crate::status::{spec_classify, Status};
use crate::text::{decode_lossy, lemma_ascii_bytes_decode, lossy_utf8};

verus! {

/// A parsed response header: the status code as transmitted and the trimmed
/// metadata field (a prompt, a media type, a redirect target, or diagnostic
/// text, depending on the category).
#[derive(Debug)]
pub struct Header {
    pub status_code: u8,
    pub meta: String,
}

impl Header {
    /// The status category of this header's code; `None` when the code falls
    /// outside every defined decade.
    pub fn get_status(&self) -> (r: Option<Status>)
        ensures
            r == spec_classify(self.status_code),
    {
        let c = self.status_code;
        if 10 <= c && c <= 19 {
            Some(Status::Input)
        } else if 20 <= c && c <= 29 {
            Some(Status::Success)
        } else if 30 <= c && c <= 39 {
            Some(Status::Redirect)
        } else if 40 <= c && c <= 49 {
            Some(Status::TemporaryFailure)
        } else if 50 <= c && c <= 59 {
            Some(Status::PermanentFailure)
        } else if 60 <= c && c <= 69 {
            Some(Status::ClientCertificationRequired)
        } else {
            None
        }
    }
}

/// The parse of a raw response's header line: the status code together with
/// the trimmed metadata bytes, or the failure. The split point is the first
/// line feed; the line splits at its first space.
pub open spec fn spec_parse_header(raw: Seq<u8>) -> Result<(u8, Seq<u8>), MyErr> {
    match find_byte(raw, 10) {
        None => Err(MyErr::MalformedResponse),
        Some(lf) => {
            let line = raw.take(lf);
            match find_byte(line, 32) {
                None => Err(MyErr::MalformedHeader),
                Some(sp) => {
                    let tok = line.take(sp);
                    if parses_as_u8(tok) {
                        Ok((digits_value(tok) as u8, trim_spec(line.skip(sp + 1))))
                    } else {
                        Err(MyErr::MalformedStatusCode)
                    }
                },
            }
        },
    }
}

/// Parses the header line of a raw response. The metadata field is decoded
/// tolerantly: ill-formed bytes in it become replacement characters rather
/// than a failure, but an empty or delimiter-free header is still rejected.
pub fn get_response_header(response: &Vec<u8>) -> (r: Result<Header, MyErr>)
    ensures
        ({
            let p = spec_parse_header(response@);
            match p {
                Ok(pm) => r matches Ok(h) && h.status_code == pm.0 && h.meta@ == lossy_utf8(pm.1)
                    && (valid_utf8(pm.1) ==> h.meta@ == decode_utf8(pm.1)),
                Err(e) => r matches Err(e2) && e2 == e,
            }
        }),
{
    let lf = match find_from(response, 10, 0, response.len()) {
        Some(i) => i,
        None => {
            proof {
                lemma_find_byte_none(response@, 10);
            }
            return Err(MyErr::MalformedResponse);
        },
    };
    proof {
        lemma_find_byte_at(response@, 10, lf as int);
    }
    let ghost line = response@.take(lf as int);
    let sp = match find_from(response, 32, 0, lf) {
        Some(j) => j,
        None => {
            proof {
                assert forall|k: int| 0 <= k < line.len() implies line[k] != 32 by {
                    assert(line[k] == response@[k]);
                }
                lemma_find_byte_none(line, 32);
            }
            return Err(MyErr::MalformedHeader);
        },
    };
    proof {
        assert(line[sp as int] == response@[sp as int]);
        assert forall|k: int| 0 <= k < sp implies line[k] != 32 by {
            assert(line[k] == response@[k]);
        }
        lemma_find_byte_at(line, 32, sp as int);
        assert(line.take(sp as int) =~= response@.subrange(0, sp as int));
    }
    let code = match parse_code(response, sp) {
        Some(c) => c,
        None => {
            return Err(MyErr::MalformedStatusCode);
        },
    };
    let bounds = trim_range(response, sp + 1, lf);
    proof {
        assert(line.skip(sp as int + 1) =~= response@.subrange(sp as int + 1, lf as int));
    }
    let meta_bytes = slice_subrange(response.as_slice(), bounds.0, bounds.1);
    let meta = decode_lossy(meta_bytes);
    Ok(Header { status_code: code, meta })
}

/// The wire form of a header line for a two-digit status code: the two
/// decimal digits, a space, the metadata bytes, then CRLF.
pub open spec fn encode_header_line(code: u8, meta: Seq<u8>) -> Seq<u8>
    recommends
        10 <= code <= 99,
{
    seq![(48 + code / 10) as u8, (48 + code % 10) as u8, 32u8] + meta + seq![13u8, 10u8]
}

/// Round trip: a header line built from a two-digit status code and
/// metadata bytes free of carriage returns and line feeds parses back to
/// exactly that code and the metadata trimmed of surrounding whitespace.
/// When the metadata is ASCII text, the decoded metadata string recovers it
/// character for character.
pub proof fn lemma_header_round_trip(code: u8, meta: Seq<u8>)
    requires
        10 <= code <= 99,
        forall|i: int| 0 <= i < meta.len() ==> meta[i] != 10 && meta[i] != 13,
    ensures
        spec_parse_header(encode_header_line(code, meta)) == Ok::<(u8, Seq<u8>), MyErr>(
            (code, trim_spec(meta)),
        ),
        (forall|i: int| 0 <= i < meta.len() ==> meta[i] < 0x80) ==> ({
            let t = trim_spec(meta);
            valid_utf8(t) && decode_utf8(t).len() == t.len() && (forall|i: int|
                0 <= i < t.len() ==> decode_utf8(t)[i] == t[i] as char)
        }),
{
    if forall|i: int| 0 <= i < meta.len() ==> meta[i] < 0x80 {
        lemma_trim_ascii(meta);
        lemma_ascii_bytes_decode(trim_spec(meta));
    }
    let enc = encode_header_line(code, meta);
    let n = meta.len() as int;
    let d1 = (48 + code / 10) as u8;
    let d2 = (48 + code % 10) as u8;
    assert(code == (code / 10) * 10 + (code % 10)) by {
        lemma_fundamental_div_mod(code as int, 10);
    };
    assert(1 <= code / 10 <= 9);
    assert(code % 10 <= 9);
    assert(enc.len() == n + 5);
    assert(enc[0] == d1 && enc[1] == d2 && enc[2] == 32);
    assert(enc[n + 3] == 13 && enc[n + 4] == 10);
    // the first line feed is the one that ends the header line
    assert forall|k: int| 0 <= k < n + 4 implies enc[k] != 10 by {
        if 3 <= k < n + 3 {
            assert(enc[k] == meta[k - 3]);
        }
    }
    lemma_find_byte_at(enc, 10, n + 4);
    let line = enc.take(n + 4);
    // the first space separates the status token from the metadata
    assert(line[0] == d1 && line[1] == d2 && line[2] == 32);
    lemma_find_byte_at(line, 32, 2);
    // the status token holds exactly the two digits of the code
    let tok = line.take(2);
    assert(tok =~= seq![d1, d2]);
    assert(tok.drop_last() =~= seq![d1]);
    assert(seq![d1].drop_last() =~= Seq::<u8>::empty());
    assert(d1 == 48 + code / 10 && d2 == 48 + code % 10);
    assert(digits_value(Seq::<u8>::empty()) == 0);
    assert(seq![d1].last() == d1);
    assert(digits_value(seq![d1]) == code / 10);
    assert(tok.last() == d2);
    assert(digits_value(tok) == (code / 10) * 10 + (code % 10));
    assert forall|k: int| 0 <= k < tok.len() implies is_digit(tok[k]) by {
        if k == 0 {
            assert(tok[k] == d1);
        } else {
            assert(tok[k] == d2);
        }
    }
    assert(all_digits(tok));
    assert(parses_as_u8(tok));
    // the metadata keeps everything after the space; the carriage return is
    // whitespace and is trimmed away with the rest
    let rest = line.skip(3);
    assert(rest =~= meta.push(13));
    lemma_trim_push_wsp(meta, 13);
    assert(trim_spec(rest) == trim_spec(meta));
    assert(digits_value(tok) as u8 == code);
}

/// The parser rejects degenerate inputs deterministically: empty input and
/// input without a line feed are malformed responses; a header line without
/// a space has no metadata field; a status token that is not a decimal
/// number fitting a byte is a malformed status code.
pub proof fn lemma_parse_header_rejects(raw: Seq<u8>)
    ensures
        raw.len() == 0 ==> spec_parse_header(raw) == Err::<(u8, Seq<u8>), MyErr>(
            MyErr::MalformedResponse,
        ),
        find_byte(raw, 10) is None ==> spec_parse_header(raw) == Err::<(u8, Seq<u8>), MyErr>(
            MyErr::MalformedResponse,
        ),
        find_byte(raw, 10) matches Some(lf) ==> (find_byte(raw.take(lf), 32) is None
            ==> spec_parse_header(raw) == Err::<(u8, Seq<u8>), MyErr>(MyErr::MalformedHeader)),
        find_byte(raw, 10) matches Some(lf) ==> (find_byte(raw.take(lf), 32) matches Some(sp)
            ==> (!parses_as_u8(raw.take(lf).take(sp)) ==> spec_parse_header(raw) == Err::<
            (u8, Seq<u8>),
            MyErr,
        >(MyErr::MalformedStatusCode))),
{
}

/// A successful parse never leaves the line terminator inside the metadata:
/// the metadata bytes come from the header line, which the first line feed
/// ends.
pub proof fn lemma_meta_free_of_line_feed(raw: Seq<u8>)
    ensures
        spec_parse_header(raw) matches Ok(pm) ==> forall|i: int|
            0 <= i < pm.1.len() ==> pm.1[i] != 10,
{
    lemma_find_byte(raw, 10);
    match find_byte(raw, 10) {
        Some(lf) => {
            let line = raw.take(lf);
            lemma_find_byte(line, 32);
            match find_byte(line, 32) {
                Some(sp) => {
                    let rest = line.skip(sp + 1);
                    assert forall|k: int| 0 <= k < rest.len() implies rest[k] != 10 by {
                        assert(rest[k] == line[k + sp + 1]);
                        assert(line[k + sp + 1] == raw[k + sp + 1]);
                    }
                    lemma_trim_no_byte(rest, 10);
                },
                None => {},
            }
        },
        None => {},
    }
}

} // verus!
