use rollout_controller::http::{header_to_str, HttpResponse, MAX_HEADER};

#[test]
fn header_values_are_visible_ascii() {
    assert_eq!(
        header_to_str(&b"sha256:abc ~\t".to_vec()).as_deref(),
        Some("sha256:abc ~\t")
    );
    assert_eq!(header_to_str(&vec![]).as_deref(), Some(""));
    for b in [0u8, 10, 31, 127, 128, 255] {
        assert!(header_to_str(&vec![b'a', b]).is_none());
    }
}

#[test]
fn header_values_are_read_as_by_the_client() {
    for b in 0u8..=255 {
        if let Ok(value) = reqwest::header::HeaderValue::from_bytes(&[b'x', b]) {
            assert_eq!(
                header_to_str(&value.as_bytes().to_vec()),
                value.to_str().ok().map(|s| s.to_string())
            );
        }
    }
}

#[test]
fn statuses_have_three_digits() {
    assert!(HttpResponse::new(99, None, None).is_none());
    assert!(HttpResponse::new(1000, None, None).is_none());
    assert_eq!(HttpResponse::new(100, None, None).unwrap().status(), 100);
    assert_eq!(HttpResponse::new(999, None, None).unwrap().status(), 999);
}

#[test]
fn challenges_have_a_greatest_length() {
    assert!(HttpResponse::new(401, None, Some(vec![b'a'; MAX_HEADER])).is_some());
    assert!(HttpResponse::new(401, None, Some(vec![b'a'; MAX_HEADER + 1])).is_none());
}

#[test]
fn responses_keep_what_they_were_made_of() {
    let r = HttpResponse::new(204, Some(b"d".to_vec()), Some(b"c".to_vec())).unwrap();
    assert!(r.is_success());
    assert!(!r.is_unauthorized());
    assert_eq!(r.digest(), Some(&b"d".to_vec()));
    assert_eq!(r.challenge(), Some(&b"c".to_vec()));
    let r = HttpResponse::new(401, None, None).unwrap();
    assert!(!r.is_success());
    assert!(r.is_unauthorized());
    assert!(r.digest().is_none());
    assert!(r.challenge().is_none());
    assert!(!HttpResponse::new(300, None, None).unwrap().is_success());
    assert!(!HttpResponse::new(199, None, None).unwrap().is_success());
}
