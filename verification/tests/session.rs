use gemini_client::{encode_request, process_response, BodyData, MyErr, SessionOutcome, Status};

#[test]
fn success_response_end_to_end() {
    let response: Vec<u8> = b"20 text/gemini\r\n# Hello\r\n".to_vec();
    match process_response(&response) {
        SessionOutcome::Delivered(h, BodyData::Text(s)) => {
            assert_eq!(h.status_code, 20);
            assert_eq!(h.meta, "text/gemini");
            assert_eq!(h.get_status(), Some(Status::Success));
            assert_eq!(s, "# Hello\r\n");
        }
        _ => panic!("expected a delivered text body"),
    }
}

#[test]
fn failure_response_skips_body() {
    let response: Vec<u8> = b"51 not found\r\n".to_vec();
    match process_response(&response) {
        SessionOutcome::Unhandled(h) => {
            assert_eq!(h.status_code, 51);
            assert_eq!(h.meta, "not found");
            assert_eq!(h.get_status(), Some(Status::PermanentFailure));
        }
        _ => panic!("expected the body to be skipped"),
    }
}

#[test]
fn session_surfaces_header_failure() {
    let response: Vec<u8> = b"garbage".to_vec();
    assert!(matches!(
        process_response(&response),
        SessionOutcome::HeaderFailed(MyErr::MalformedResponse)
    ));
}

#[test]
fn session_surfaces_body_failure() {
    let mut response: Vec<u8> = b"20 text/gemini\r\n".to_vec();
    response.push(0xff);
    match process_response(&response) {
        SessionOutcome::BodyFailed(h, e) => {
            assert_eq!(h.status_code, 20);
            assert_eq!(e, MyErr::InvalidTextEncoding);
        }
        _ => panic!("expected a body failure"),
    }
}

#[test]
fn request_is_url_text_plus_crlf() {
    let r = encode_request("gemini://example.org/");
    assert_eq!(r, b"gemini://example.org/\r\n".to_vec());
}
