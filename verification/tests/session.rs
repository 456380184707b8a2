use cp_api::{Client, Error, JsonValue};
use cp_api::exchange::{CallStep, RawReply};

fn jstr(x: &str) -> JsonValue {
    JsonValue::Str(x.to_string())
}

fn jobj(ms: Vec<(&str, JsonValue)>) -> JsonValue {
    JsonValue::Obj(ms.into_iter().map(|(k, v)| (k.to_string(), v)).collect())
}

fn done(step: CallStep) -> cp_api::Response {
    match step {
        CallStep::Done(r) => r,
        _ => panic!("expected the exchange to be over"),
    }
}

#[test]
fn url_has_server_port_and_command() {
    let client = Client::new("192.168.1.10", 443);
    let url = client.build_url("show-hosts");
    assert_eq!(url, "https://192.168.1.10:443/web_api/show-hosts");
}

#[test]
fn scripted_login_then_logout() {
    let mut client = Client::new("192.168.1.10", 443);
    let payload = client.login_payload("user", "pass");
    let (mut ex, req) = client.start_call("login", payload).unwrap();
    assert_eq!(req.url, "https://192.168.1.10:443/web_api/login");
    assert!(!req.headers.iter().any(|h| h.0 == "x-chkp-sid"));

    let reply = RawReply {
        status: 200,
        url: req.url.clone(),
        headers: vec![("content-type".to_string(), "application/json".to_string())],
        body: jobj(vec![
            ("sid", jstr("SID1")),
            ("uid", jstr("UID1")),
            ("api-server-version", jstr("1.9")),
        ]),
    };
    let res = done(ex.on_reply(&mut client, reply).unwrap());
    let login = client.finish_login(res).unwrap();
    assert!(login.is_success());
    assert!(!client.sid().is_empty());
    assert!(!client.uid().is_empty());
    assert!(!client.api_server_version().is_empty());
    assert_eq!(client.sid(), "SID1");

    let (mut ex, req) = client.start_call("logout", jobj(vec![])).unwrap();
    assert!(req.headers.iter().any(|h| h.0 == "x-chkp-sid" && h.1 == "SID1"));
    let reply = RawReply {
        status: 200,
        url: req.url.clone(),
        headers: vec![],
        body: jobj(vec![]),
    };
    let res = done(ex.on_reply(&mut client, reply).unwrap());
    let logout = client.finish_logout(res);
    assert!(logout.is_success());
    assert!(client.sid().is_empty());
    assert!(client.uid().is_empty());
    assert!(client.api_server_version().is_empty());
}

#[test]
fn failed_login_leaves_state_unchanged() {
    let mut client = Client::new("192.168.1.10", 443);
    let payload = client.login_payload("user", "wrong");
    let (mut ex, req) = client.start_call("login", payload).unwrap();
    let reply = RawReply {
        status: 403,
        url: req.url.clone(),
        headers: vec![],
        body: jobj(vec![("message", jstr("Authentication failed"))]),
    };
    let res = done(ex.on_reply(&mut client, reply).unwrap());
    let login = client.finish_login(res).unwrap();
    assert!(!login.is_success());
    assert!(login.is_not_success());
    assert!(client.sid().is_empty());
    assert!(client.uid().is_empty());
    assert!(client.api_server_version().is_empty());
}

#[test]
fn login_missing_field_is_reported_and_commits_nothing() {
    let mut client = Client::new("192.168.1.10", 443);
    let payload = client.login_payload("user", "pass");
    let (mut ex, req) = client.start_call("login", payload).unwrap();
    let reply = RawReply {
        status: 200,
        url: req.url.clone(),
        headers: vec![],
        body: jobj(vec![("sid", jstr("SID1"))]),
    };
    let res = done(ex.on_reply(&mut client, reply).unwrap());
    match client.finish_login(res) {
        Err(Error::InvalidResponse(field, _img)) => assert_eq!(field, "uid"),
        _ => panic!("expected the missing uid to be reported"),
    }
    assert!(client.sid().is_empty());
    assert!(client.uid().is_empty());
    assert!(client.api_server_version().is_empty());
}

#[test]
fn invalid_session_identifier_cannot_make_headers() {
    let mut client = Client::new("192.168.1.10", 443);
    client.sid = "bad\u{7}sid".to_string();
    match client.start_call("show-hosts", jobj(vec![])) {
        Err(Error::HeaderValue(_)) => {},
        _ => panic!("expected a header construction failure"),
    }
}

#[test]
fn login_payload_carries_configured_timeout_and_domain() {
    let mut client = Client::new("192.168.1.10", 443);
    client.session_timeout(800);
    client.domain("System Data");
    let payload = client.login_payload("cp_api", "vpn123");
    match payload.obj_get("session-timeout") {
        Some(JsonValue::Num(n)) => assert_eq!(*n, 800),
        _ => panic!("expected the session timeout in the payload"),
    }
    match payload.obj_get("domain") {
        Some(JsonValue::Str(d)) => assert_eq!(d, "System Data"),
        _ => panic!("expected the domain in the payload"),
    }
    match payload.obj_get("password") {
        Some(JsonValue::Str(p)) => assert_eq!(p, "vpn123"),
        _ => panic!("expected the password in the payload"),
    }
}

#[test]
fn configuration_setters_update_the_state() {
    let mut client = Client::new("192.168.1.10", 443);
    client.certificate("/home/admin/cert.cer");
    client.accept_invalid_certs(true);
    client.proxy("https://10.1.1.100:8080");
    client.connect_timeout(10);
    client.wait_for_task(false);
    client.read_only(true);
    client.continue_last_session(true);
    client.show_password(true);
    assert_eq!(client.certificate, "/home/admin/cert.cer");
    assert!(client.accept_invalid_certs);
    assert_eq!(client.proxy, "https://10.1.1.100:8080");
    assert_eq!(client.connect_timeout, 10);
    assert!(!client.wait_for_task);
    assert!(client.read_only);
    assert!(client.continue_last_session);
    assert!(client.show_password);
}
