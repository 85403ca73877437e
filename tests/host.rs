use nip_proxy::host::extract_domain;

#[test]
fn test_regex() {
    assert!(extract_domain("foo.192.168.1.1.nip.io") == Some("foo.".to_string()));
    assert!(extract_domain("foo.bar.192.168.1.1.nip.io") == Some("foo.bar.".to_string()));
    assert!(extract_domain("foo.192.168.1.1.nip.io:8888") == Some("foo.".to_string()));
    assert!(extract_domain("foo.bar.192.168.1.1.nip.io:8888") == Some("foo.bar.".to_string()));
}

#[test]
fn labels_kept_with_and_without_port() {
    assert_eq!(extract_domain("my-app.v2.10.0.0.1.nip.io"), Some("my-app.v2.".to_string()));
    assert_eq!(extract_domain("my-app.v2.10.0.0.1.nip.io:1"), Some("my-app.v2.".to_string()));
    assert_eq!(extract_domain("A1.255.255.255.255.nip.io:65535"), Some("A1.".to_string()));
}

#[test]
fn numeric_labels_before_quad() {
    assert_eq!(extract_domain("1.2.3.4.5.nip.io"), Some("1.".to_string()));
    assert_eq!(extract_domain("x.99.1.2.3.4.nip.io"), Some("x.99.".to_string()));
}

#[test]
fn wrong_suffix_rejected() {
    assert_eq!(extract_domain("foo.192.168.1.1.xip.io"), None);
    assert_eq!(extract_domain("foo.192.168.1.1.nip.io.evil.com"), None);
    assert_eq!(extract_domain("foo.192.168.1.1.nip.i"), None);
}

#[test]
fn missing_quad_rejected() {
    assert_eq!(extract_domain("foo.192.168.1.nip.io"), None);
    assert_eq!(extract_domain("foo.nip.io"), None);
    assert_eq!(extract_domain("192.168.1.1.nip.io"), None);
    assert_eq!(extract_domain("foo.1234.168.1.1.nip.io"), None);
}

#[test]
fn empty_or_malformed_label_rejected() {
    assert_eq!(extract_domain(".192.168.1.1.nip.io"), None);
    assert_eq!(extract_domain("foo..192.168.1.1.nip.io"), None);
    assert_eq!(extract_domain("-foo.192.168.1.1.nip.io"), None);
    assert_eq!(extract_domain("foo-.192.168.1.1.nip.io"), None);
    assert_eq!(extract_domain("fo_o.192.168.1.1.nip.io"), None);
    assert_eq!(extract_domain(""), None);
}

#[test]
fn bad_port_rejected() {
    assert_eq!(extract_domain("foo.192.168.1.1.nip.io:"), None);
    assert_eq!(extract_domain("foo.192.168.1.1.nip.io:88a8"), None);
    assert_eq!(extract_domain("foo.192.168.1.1.nip.io:80:80"), None);
}
