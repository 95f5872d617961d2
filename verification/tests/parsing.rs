use gemini_client::{get_response_header, MyErr, Status};

#[test]
fn bad_response() {
    let response = "asdfasdffasdf".bytes().collect();
    let header = get_response_header(&response);
    assert_eq!(header.is_err(), true);
}

#[test]
fn not_utf8_response() {
    let response = vec![33, 0xff, 34];
    let header = get_response_header(&response);
    assert_eq!(header.is_err(), true);
}

#[test]
fn valid_headers() {
    let response_list = vec![
        (Status::Input, "10", "input prompt goes here"),
        (Status::Success, "20", "text/gemini"),
        (Status::Redirect, "30", "gemini://example.org/"),
        (Status::TemporaryFailure, "40", "additional failure information"),
        (Status::PermanentFailure, "50", "additional failure information"),
        (
            Status::ClientCertificationRequired,
            "60",
            "additional certificate information",
        ),
    ];
    for line in response_list {
        let mut response = String::from(line.1);
        response.push(' ');
        response.push_str(line.2);
        response.push_str("\r\n");
        let response = response.bytes().collect();

        let header = get_response_header(&response);
        match &header {
            Ok(r) => {
                assert_eq!(r.get_status().unwrap(), line.0);
                assert_eq!(r.status_code, line.1.parse().unwrap());
                assert_eq!(r.meta, line.2);
            }
            _ => panic!("bogus"),
        }
    }
}

#[test]
fn parse_fails_on_empty_input() {
    let response: Vec<u8> = Vec::new();
    assert!(matches!(
        get_response_header(&response),
        Err(MyErr::MalformedResponse)
    ));
}

#[test]
fn parse_fails_without_line_feed() {
    let response: Vec<u8> = b"20 text/gemini".to_vec();
    assert!(matches!(
        get_response_header(&response),
        Err(MyErr::MalformedResponse)
    ));
}

#[test]
fn parse_fails_without_space() {
    let response: Vec<u8> = b"20text/gemini\r\n".to_vec();
    assert!(matches!(
        get_response_header(&response),
        Err(MyErr::MalformedHeader)
    ));
}

#[test]
fn parse_fails_on_non_numeric_status() {
    let response: Vec<u8> = b"ab cd\r\n".to_vec();
    assert!(matches!(
        get_response_header(&response),
        Err(MyErr::MalformedStatusCode)
    ));
}

#[test]
fn parse_fails_on_out_of_range_status() {
    let response: Vec<u8> = b"999 meta\r\n".to_vec();
    assert!(matches!(
        get_response_header(&response),
        Err(MyErr::MalformedStatusCode)
    ));
}

#[test]
fn parse_fails_on_invalid_bytes_in_status_token() {
    let response: Vec<u8> = vec![51, 0xff, 32, 52, 10];
    assert!(matches!(
        get_response_header(&response),
        Err(MyErr::MalformedStatusCode)
    ));
}

#[test]
fn header_round_trip() {
    let response: Vec<u8> = b"42 some meta value \r\n".to_vec();
    let h = get_response_header(&response).unwrap();
    assert_eq!(h.status_code, 42);
    assert_eq!(h.meta, "some meta value");
}

#[test]
fn status_token_allows_leading_zeros() {
    let response: Vec<u8> = b"020 meta\r\n".to_vec();
    let h = get_response_header(&response).unwrap();
    assert_eq!(h.status_code, 20);
    assert_eq!(h.meta, "meta");
}

#[test]
fn whitespace_only_meta_trims_to_empty() {
    let response: Vec<u8> = b"20 \t \r\n".to_vec();
    let h = get_response_header(&response).unwrap();
    assert_eq!(h.status_code, 20);
    assert_eq!(h.meta, "");
}

#[test]
fn meta_with_invalid_bytes_is_decoded_tolerantly() {
    let mut response: Vec<u8> = b"20 te".to_vec();
    response.push(0xff);
    response.extend_from_slice(b"xt\r\n");
    let h = get_response_header(&response).unwrap();
    assert_eq!(h.status_code, 20);
    assert_eq!(h.meta, "te\u{fffd}xt");
}
