use tcp_proxy::domain::{validate_app_name, validate_target, AppName, AppNameError, Target, TargetError};

#[test]
fn accepts_host_and_port() {
    assert_eq!(validate_target("localhost:8080"), Ok(()));
    assert_eq!(validate_target("10.0.0.1:443"), Ok(()));
    assert_eq!(validate_target("a.b-c.:1"), Ok(()));
    assert_eq!(validate_target("example.com.:65535"), Ok(()));
    assert_eq!(validate_target("h:00080"), Ok(()));
}

#[test]
fn rejects_malformed_targets() {
    for bad in [
        "",
        ":80",
        "-host:80",
        ".host:80",
        "host",
        "host:",
        "host:123456",
        "host:8a",
        "ho st:80",
        "host:80\n",
        "h\u{f3}st:80",
        "host:80:90",
        "host_1:80",
    ] {
        assert_eq!(validate_target(bad), Err(TargetError::Malformed), "{bad:?}");
    }
}

#[test]
fn rejects_port_above_u16() {
    assert_eq!(validate_target("host:65536"), Err(TargetError::PortOutOfRange));
    assert_eq!(validate_target("host:99999"), Err(TargetError::PortOutOfRange));
}

#[test]
fn target_keeps_its_text() {
    let t = Target::try_new(String::from("backend-1:9000")).unwrap();
    assert_eq!(t.as_str(), "backend-1:9000");
    let u = t.clone();
    assert!(t.same_as(&u));
    assert!(!t.same_as(&Target::try_new(String::from("backend-2:9000")).unwrap()));
    assert_eq!(u.into_inner(), String::from("backend-1:9000"));
    assert_eq!(Target::try_new(String::from("x:70000")).unwrap_err(), TargetError::PortOutOfRange);
}

#[test]
fn app_names() {
    assert_eq!(validate_app_name("my-app_1"), Ok(()));
    assert_eq!(validate_app_name(""), Err(AppNameError::Empty));
    assert_eq!(validate_app_name("my app"), Err(AppNameError::InvalidCharacter));
    assert_eq!(validate_app_name("app.v2"), Err(AppNameError::InvalidCharacter));
    let a = AppName::try_new(String::from("web")).unwrap();
    assert_eq!(a.as_str(), "web");
    assert!(a.is_text(&String::from("web")));
    assert_eq!(a.to_text(), String::from("web"));
    assert_eq!(AppName::try_new(String::new()).unwrap_err(), AppNameError::Empty);
}
