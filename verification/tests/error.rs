use rollout_controller::error::ControllerError;

#[test]
fn errors_are_put_in_words() {
    assert_eq!(
        ControllerError::KubeError("x".to_string()).message(),
        "Kubernetes error: x"
    );
    assert_eq!(
        ControllerError::HttpError("x".to_string()).message(),
        "HTTP error: x"
    );
    assert_eq!(
        ControllerError::ToStrError.message(),
        "Header conversion error: failed to convert header to a str"
    );
    assert_eq!(ControllerError::from("x").message(), "Missing field: x");
    assert_eq!(ControllerError::from("x".to_string()).message(), "x");
}

#[test]
fn the_words_for_an_unreadable_header_are_the_client_s() {
    let value = reqwest::header::HeaderValue::from_bytes(&[0xff]).unwrap();
    let e = value.to_str().unwrap_err();
    assert_eq!(
        ControllerError::ToStrError.message(),
        format!("Header conversion error: {}", e)
    );
}
