use news_digest::{check_status, Credentials, ErrorKind};

#[test]
fn success_statuses_are_accepted() {
    assert_eq!(check_status(200), Ok(()));
    assert_eq!(check_status(299), Ok(()));
}

#[test]
fn other_statuses_are_response_failures() {
    assert_eq!(check_status(199), Err(ErrorKind::Response));
    assert_eq!(check_status(301), Err(ErrorKind::Response));
    assert_eq!(check_status(401), Err(ErrorKind::Response));
    assert_eq!(check_status(500), Err(ErrorKind::Response));
}

#[test]
fn missing_credentials_are_a_config_failure() {
    let r = Credentials::from_parts(None, Some("s".to_string()));
    assert!(matches!(r, Err(ErrorKind::Config)));
    let r = Credentials::from_parts(Some("id".to_string()), None);
    assert!(matches!(r, Err(ErrorKind::Config)));
    let r = Credentials::from_parts(Some(String::new()), Some("s".to_string()));
    assert!(matches!(r, Err(ErrorKind::Config)));
}

#[test]
fn present_credentials_are_kept() {
    let c = Credentials::from_parts(Some("id".to_string()), Some("secret".to_string())).ok().unwrap();
    assert_eq!(c.client_id, "id");
    assert_eq!(c.client_secret, "secret");
}
