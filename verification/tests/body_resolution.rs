use gemini_client::{get_response_body, BodyData, MyErr};

#[test]
fn text_body_is_decoded() {
    let response: Vec<u8> = b"20 text/gemini\r\nhello".to_vec();
    let body = get_response_body("text/gemini", &response).unwrap();
    match body {
        BodyData::Text(s) => assert_eq!(s, "hello"),
        _ => panic!("expected a text body"),
    }
}

#[test]
fn text_plain_body_is_decoded() {
    let response: Vec<u8> = b"20 text/plain\r\nplain words".to_vec();
    let body = get_response_body("text/plain", &response).unwrap();
    match body {
        BodyData::Text(s) => assert_eq!(s, "plain words"),
        _ => panic!("expected a text body"),
    }
}

#[test]
fn binary_body_is_unchanged() {
    let mut response: Vec<u8> = b"20 image/jpeg\r\n".to_vec();
    let payload: Vec<u8> = vec![0, 159, 146, 150, 255, 1];
    response.extend_from_slice(&payload);
    let body = get_response_body("image/jpeg", &response).unwrap();
    match body {
        BodyData::Binary(b) => assert_eq!(b, payload),
        _ => panic!("expected a binary body"),
    }
}

#[test]
fn empty_body_after_header_line() {
    let response: Vec<u8> = b"20 text/gemini\r\n".to_vec();
    let body = get_response_body("text/gemini", &response).unwrap();
    match body {
        BodyData::Text(s) => assert_eq!(s, ""),
        _ => panic!("expected a text body"),
    }
}

#[test]
fn declared_text_with_invalid_encoding_is_an_error() {
    let mut response: Vec<u8> = b"20 text/plain\r\n".to_vec();
    response.push(0xc3);
    response.push(0x28);
    let r = get_response_body("text/plain", &response);
    assert!(matches!(r, Err(MyErr::InvalidTextEncoding)));
}

#[test]
fn unknown_media_type_is_treated_as_binary() {
    let response: Vec<u8> = b"20 application/octet-stream\r\nabc".to_vec();
    let body = get_response_body("application/octet-stream", &response).unwrap();
    match body {
        BodyData::Binary(b) => assert_eq!(b, b"abc".to_vec()),
        _ => panic!("expected a binary body"),
    }
}

#[test]
fn text_prefix_match_is_case_sensitive() {
    let response: Vec<u8> = b"20 Text/gemini\r\nabc".to_vec();
    let body = get_response_body("Text/gemini", &response).unwrap();
    assert!(matches!(body, BodyData::Binary(_)));
}
