use gemini_client::{Header, Status};

fn status_of(code: u8) -> Option<Status> {
    let h = Header {
        status_code: code,
        meta: String::new(),
    };
    h.get_status()
}

#[test]
fn classify_decade_boundaries() {
    let cases: Vec<(u8, Option<Status>)> = vec![
        (0, None),
        (9, None),
        (10, Some(Status::Input)),
        (19, Some(Status::Input)),
        (20, Some(Status::Success)),
        (29, Some(Status::Success)),
        (30, Some(Status::Redirect)),
        (39, Some(Status::Redirect)),
        (40, Some(Status::TemporaryFailure)),
        (49, Some(Status::TemporaryFailure)),
        (50, Some(Status::PermanentFailure)),
        (59, Some(Status::PermanentFailure)),
        (60, Some(Status::ClientCertificationRequired)),
        (69, Some(Status::ClientCertificationRequired)),
        (70, None),
        (99, None),
        (255, None),
    ];
    for (code, expected) in cases {
        assert_eq!(status_of(code), expected);
    }
}

#[test]
fn classify_full_decades() {
    for code in 10..=19u8 {
        assert_eq!(status_of(code), Some(Status::Input));
    }
    for code in 20..=29u8 {
        assert_eq!(status_of(code), Some(Status::Success));
    }
    for code in 30..=39u8 {
        assert_eq!(status_of(code), Some(Status::Redirect));
    }
    for code in 40..=49u8 {
        assert_eq!(status_of(code), Some(Status::TemporaryFailure));
    }
    for code in 50..=59u8 {
        assert_eq!(status_of(code), Some(Status::PermanentFailure));
    }
    for code in 60..=69u8 {
        assert_eq!(status_of(code), Some(Status::ClientCertificationRequired));
    }
    for code in 0..=9u8 {
        assert_eq!(status_of(code), None);
    }
    for code in 70..=255u8 {
        assert_eq!(status_of(code), None);
    }
}
