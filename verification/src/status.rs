//! Classification of response status codes into semantic categories.

use vstd::prelude::*;

verus! {

/// The semantic category of a response status code, determined by its
/// leading decimal digit.
#[derive(Debug, PartialEq, Eq, Clone, Copy, Structural)]
pub enum Status {
    Input,
    Success,
    Redirect,
    TemporaryFailure,
    PermanentFailure,
    ClientCertificationRequired,
}

/// The category of a status code: the six decades 10..=69 map to the six
/// named categories; every other code is unrecognized (`None`).
pub open spec fn spec_classify(code: u8) -> Option<Status> {
    if 10 <= code && code <= 19 {
        Some(Status::Input)
    } else if 20 <= code && code <= 29 {
        Some(Status::Success)
    } else if 30 <= code && code <= 39 {
        Some(Status::Redirect)
    } else if 40 <= code && code <= 49 {
        Some(Status::TemporaryFailure)
    } else if 50 <= code && code <= 59 {
        Some(Status::PermanentFailure)
    } else if 60 <= code && code <= 69 {
        Some(Status::ClientCertificationRequired)
    } else {
        None
    }
}

/// Each defined category covers exactly one decade of codes, determined by
/// the quotient of the code by ten, and every code whose quotient falls
/// outside 1..=6 is unrecognized.
pub proof fn lemma_classify_decades(code: u8)
    ensures
        code / 10 == 1 ==> spec_classify(code) == Some(Status::Input),
        code / 10 == 2 ==> spec_classify(code) == Some(Status::Success),
        code / 10 == 3 ==> spec_classify(code) == Some(Status::Redirect),
        code / 10 == 4 ==> spec_classify(code) == Some(Status::TemporaryFailure),
        code / 10 == 5 ==> spec_classify(code) == Some(Status::PermanentFailure),
        code / 10 == 6 ==> spec_classify(code) == Some(Status::ClientCertificationRequired),
        code / 10 == 0 || code / 10 >= 7 ==> spec_classify(code) is None,
{
}

} // verus!
