use cp_api::{Client, Error, JsonValue, Response};
use cp_api::exchange::{CallStep, RawReply};

fn jstr(x: &str) -> JsonValue {
    JsonValue::Str(x.to_string())
}

fn jnum(n: u64) -> JsonValue {
    JsonValue::Num(n)
}

fn jobj(ms: Vec<(&str, JsonValue)>) -> JsonValue {
    JsonValue::Obj(ms.into_iter().map(|(k, v)| (k.to_string(), v)).collect())
}

fn jarr(vs: Vec<JsonValue>) -> JsonValue {
    JsonValue::Arr(vs)
}

#[test]
fn status_classification_ranges() {
    let info = Response::from_raw(100, "u".to_string(), vec![], jobj(vec![]));
    assert!(info.is_informational());
    assert!(!info.is_success());
    let redirect = Response::from_raw(301, "u".to_string(), vec![], jobj(vec![]));
    assert!(redirect.is_redirection());
    assert!(redirect.is_not_success());
    let client_err = Response::from_raw(404, "u".to_string(), vec![], jobj(vec![]));
    assert!(client_err.is_client_error());
    let server_err = Response::from_raw(500, "u".to_string(), vec![], jobj(vec![]));
    assert!(server_err.is_server_error());
    let ok = Response::from_raw(200, "u".to_string(), vec![], jobj(vec![]));
    assert!(ok.is_success());
    assert!(!ok.is_not_success());
    assert_eq!(ok.status(), 200);
}

#[test]
fn failed_task_overrides_success() {
    let body = jobj(vec![
        ("tasks", jarr(vec![jobj(vec![("status", jstr("failed"))])])),
    ]);
    let res = Response::from_raw(200, "u".to_string(), vec![], body);
    assert_eq!(res.status(), 200);
    assert!(!res.is_success());
    assert!(res.is_not_success());
}

#[test]
fn partially_succeeded_task_overrides_success() {
    let body = jobj(vec![
        ("tasks", jarr(vec![
            jobj(vec![("status", jstr("succeeded"))]),
            jobj(vec![("status", jstr("partially succeeded"))]),
        ])),
    ]);
    let res = Response::from_raw(200, "u".to_string(), vec![], body);
    assert!(!res.is_success());
}

#[test]
fn succeeded_tasks_do_not_override_success() {
    let body = jobj(vec![
        ("tasks", jarr(vec![jobj(vec![("status", jstr("succeeded"))])])),
    ]);
    let res = Response::from_raw(200, "u".to_string(), vec![], body);
    assert!(res.is_success());
}

#[test]
fn poller_repolls_until_terminal_status() {
    let mut client = Client::new("10.1.1.110", 443);
    let (mut ex, req) = client.start_call("install-policy", jobj(vec![])).unwrap();
    let reply = RawReply {
        status: 200,
        url: req.url.clone(),
        headers: vec![],
        body: jobj(vec![("task-id", jstr("T1"))]),
    };
    let mut poll_req = match ex.on_reply(&mut client, reply).unwrap() {
        CallStep::Send(r) => r,
        _ => panic!("expected the poll loop to open"),
    };
    assert_eq!(poll_req.url, "https://10.1.1.110:443/web_api/show-task");
    match poll_req.body.obj_get("task-id") {
        Some(JsonValue::Str(t)) => assert_eq!(t, "T1"),
        _ => panic!("expected the task id in the poll body"),
    }

    let statuses = ["in progress", "in progress", "succeeded"];
    let mut polls = 1;
    let mut idx = 0;
    let final_res = loop {
        let reply = RawReply {
            status: 200,
            url: poll_req.url.clone(),
            headers: vec![],
            body: jobj(vec![
                ("tasks", jarr(vec![jobj(vec![
                    ("status", jstr(statuses[idx])),
                    ("progress-percentage", jnum(if statuses[idx] == "succeeded" { 100 } else { 50 })),
                ])])),
            ]),
        };
        idx += 1;
        match ex.on_reply(&mut client, reply).unwrap() {
            CallStep::Wait(secs, r, _status, _progress) => {
                assert_eq!(secs, 5);
                poll_req = r;
                polls += 1;
            },
            CallStep::Done(res) => break res,
            CallStep::Send(_) => panic!("a second task must not open a new poll loop"),
        }
    };
    assert_eq!(polls, 3);
    match final_res.data.obj_get("tasks") {
        Some(JsonValue::Arr(ts)) => match ts[0].obj_get("status") {
            Some(JsonValue::Str(s)) => assert_eq!(s, "succeeded"),
            _ => panic!("expected a terminal status"),
        },
        _ => panic!("expected the final task array"),
    }
}

#[test]
fn no_wait_returns_the_task_id_immediately() {
    let mut client = Client::new("10.1.1.110", 443);
    client.wait_for_task(false);
    let (mut ex, req) = client.start_call("install-policy", jobj(vec![])).unwrap();
    let reply = RawReply {
        status: 200,
        url: req.url.clone(),
        headers: vec![],
        body: jobj(vec![("task-id", jstr("T1"))]),
    };
    let res = match ex.on_reply(&mut client, reply).unwrap() {
        CallStep::Done(r) => r,
        _ => panic!("expected the exchange to be over without polling"),
    };
    match res.data.obj_get("task-id") {
        Some(JsonValue::Str(t)) => assert_eq!(t, "T1"),
        _ => panic!("expected the task id in the reply"),
    }
}

#[test]
fn poll_reply_missing_fields_is_reported() {
    let mut client = Client::new("10.1.1.110", 443);
    let (mut ex, req) = client.start_call("install-policy", jobj(vec![])).unwrap();
    let reply = RawReply {
        status: 200,
        url: req.url.clone(),
        headers: vec![],
        body: jobj(vec![("task-id", jstr("T1"))]),
    };
    let _poll_req = match ex.on_reply(&mut client, reply).unwrap() {
        CallStep::Send(r) => r,
        _ => panic!("expected the poll loop to open"),
    };
    let reply = RawReply {
        status: 200,
        url: "u".to_string(),
        headers: vec![],
        body: jobj(vec![("tasks", jarr(vec![jobj(vec![("status", jstr("in progress"))])]))]),
    };
    match ex.on_reply(&mut client, reply) {
        Err(Error::InvalidResponse(field, _)) => assert_eq!(field, "progress-percentage"),
        _ => panic!("expected the missing progress to be reported"),
    }
}

#[test]
fn task_id_that_is_not_text_is_reported() {
    let mut client = Client::new("10.1.1.110", 443);
    let (mut ex, req) = client.start_call("install-policy", jobj(vec![])).unwrap();
    let reply = RawReply {
        status: 200,
        url: req.url.clone(),
        headers: vec![],
        body: jobj(vec![("task-id", jnum(7))]),
    };
    match ex.on_reply(&mut client, reply) {
        Err(Error::InvalidResponse(field, _)) => assert_eq!(field, "task-id"),
        _ => panic!("expected the malformed task id to be reported"),
    }
}

#[test]
fn password_redacted_in_recorded_call() {
    let mut client = Client::new("192.168.1.10", 443);
    client.log_file("log.json");
    let payload = client.login_payload("a", "secret");
    let (mut ex, req) = client.start_call("login", payload).unwrap();
    let reply = RawReply {
        status: 200,
        url: req.url.clone(),
        headers: vec![],
        body: jobj(vec![
            ("sid", jstr("S")),
            ("uid", jstr("U")),
            ("api-server-version", jstr("1.9")),
        ]),
    };
    match ex.on_reply(&mut client, reply).unwrap() {
        CallStep::Done(_) => {},
        _ => panic!("expected the exchange to be over"),
    }
    assert_eq!(client.logged_calls().len(), 1);
    let entry = &client.logged_calls()[0];
    let request = entry.obj_get("Request").unwrap();
    let recorded = request.obj_get("payload").unwrap();
    match recorded.obj_get("password") {
        Some(JsonValue::Str(p)) => assert_eq!(p, "*****"),
        _ => panic!("expected the redacted password"),
    }
    let rendered = client.render_log().unwrap();
    assert!(!rendered.contains("secret"));
}

#[test]
fn password_shown_when_asked() {
    let mut client = Client::new("192.168.1.10", 443);
    client.log_file("log.json");
    client.show_password(true);
    let payload = client.login_payload("a", "secret");
    let (mut ex, req) = client.start_call("login", payload).unwrap();
    let reply = RawReply {
        status: 200,
        url: req.url.clone(),
        headers: vec![],
        body: jobj(vec![
            ("sid", jstr("S")),
            ("uid", jstr("U")),
            ("api-server-version", jstr("1.9")),
        ]),
    };
    ex.on_reply(&mut client, reply).unwrap();
    let entry = &client.logged_calls()[0];
    let recorded = entry.obj_get("Request").unwrap().obj_get("payload").unwrap();
    match recorded.obj_get("password") {
        Some(JsonValue::Str(p)) => assert_eq!(p, "secret"),
        _ => panic!("expected the clear password"),
    }
}

#[test]
fn login_payload_without_password_cannot_be_recorded() {
    let mut client = Client::new("192.168.1.10", 443);
    client.log_file("log.json");
    let payload = jobj(vec![("user", jstr("a"))]);
    let res = Response::from_raw(200, "u".to_string(), vec![], jobj(vec![]));
    match client.update_calls("login", "u", &vec![], &payload, &res) {
        Err(Error::Custom(_)) => {},
        _ => panic!("expected the missing password to be fatal"),
    }
    assert_eq!(client.logged_calls().len(), 0);
}

#[test]
fn every_poll_call_is_recorded() {
    let mut client = Client::new("10.1.1.110", 443);
    client.log_file("log.json");
    let (mut ex, req) = client.start_call("run-script", jobj(vec![])).unwrap();
    let reply = RawReply {
        status: 200,
        url: req.url.clone(),
        headers: vec![],
        body: jobj(vec![("task-id", jstr("T1"))]),
    };
    let mut poll_req = match ex.on_reply(&mut client, reply).unwrap() {
        CallStep::Send(r) => r,
        _ => panic!("expected the poll loop to open"),
    };
    let statuses = ["in progress", "succeeded"];
    let mut idx = 0;
    loop {
        let reply = RawReply {
            status: 200,
            url: poll_req.url.clone(),
            headers: vec![],
            body: jobj(vec![("tasks", jarr(vec![jobj(vec![
                ("status", jstr(statuses[idx])),
                ("progress-percentage", jnum(50)),
            ])]))]),
        };
        idx += 1;
        match ex.on_reply(&mut client, reply).unwrap() {
            CallStep::Wait(_, r, _, _) => poll_req = r,
            CallStep::Done(_) => break,
            CallStep::Send(_) => panic!("unexpected fresh request"),
        }
    }
    // two poll calls, each recorded, then the original command
    assert_eq!(client.logged_calls().len(), 3);
    let last = &client.logged_calls()[2];
    let url = last.obj_get("Request").unwrap().obj_get("url").unwrap();
    match url {
        JsonValue::Str(u) => assert!(u.ends_with("/web_api/run-script")),
        _ => panic!("expected the original command in the last entry"),
    }
    let first = &client.logged_calls()[0];
    let url = first.obj_get("Request").unwrap().obj_get("url").unwrap();
    match url {
        JsonValue::Str(u) => assert!(u.ends_with("/web_api/show-task")),
        _ => panic!("expected the poll call in the first entry"),
    }
}
