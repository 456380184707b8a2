use cp_api::{Client, Error, JsonValue};
use cp_api::exchange::{CallStep, RawReply};
use cp_api::query::QueryStep;

fn jstr(x: &str) -> JsonValue {
    JsonValue::Str(x.to_string())
}

fn jnum(n: u64) -> JsonValue {
    JsonValue::Num(n)
}

fn jobj(ms: Vec<(&str, JsonValue)>) -> JsonValue {
    JsonValue::Obj(ms.into_iter().map(|(k, v)| (k.to_string(), v)).collect())
}

fn jarr(vs: Vec<JsonValue>) -> JsonValue {
    JsonValue::Arr(vs)
}

fn page_reply(url: &str, to: u64, total: u64, count: usize) -> RawReply {
    let objects: Vec<JsonValue> = (0..count)
        .map(|k| jobj(vec![("name", jstr(&format!("host{}", k)))]))
        .collect();
    RawReply {
        status: 200,
        url: url.to_string(),
        headers: vec![],
        body: jobj(vec![
            ("to", jnum(to)),
            ("total", jnum(total)),
            ("objects", jarr(objects)),
        ]),
    }
}

#[test]
fn query_aggregates_every_page() {
    let mut client = Client::new("192.168.1.10", 443);
    let (mut qx, mut ex, mut req) = client.start_query("show-hosts", "standard").unwrap();
    let pages = [(50u64, 120u64, 50usize), (100, 120, 50), (120, 120, 20)];
    let mut page_calls = 1;
    let mut i = 0;
    let out = loop {
        let (to, total, count) = pages[i];
        if i == 1 {
            match req.body.obj_get("offset") {
                Some(JsonValue::Num(o)) => assert_eq!(*o, 50),
                _ => panic!("expected the second page at offset 50"),
            }
        }
        i += 1;
        let reply = page_reply(&req.url, to, total, count);
        let res = match ex.on_reply(&mut client, reply).unwrap() {
            CallStep::Done(r) => r,
            _ => panic!("expected a plain page call"),
        };
        match qx.on_page(&client, res).unwrap() {
            QueryStep::NextPage(e2, r2) => {
                ex = e2;
                req = r2;
                page_calls += 1;
            },
            QueryStep::Done(out) => break out,
        }
    };
    assert_eq!(page_calls, 3);
    assert_eq!(out.objects.len(), 120);
    assert!(out.data.deep_eq(&jobj(vec![])));
    assert!(out.is_success());
    match out.objects[57].obj_get("name") {
        Some(JsonValue::Str(n)) => assert_eq!(n, "host7"),
        _ => panic!("expected the objects in page order"),
    }
}

#[test]
fn query_with_zero_total_ends_after_one_call() {
    let mut client = Client::new("192.168.1.10", 443);
    let (mut qx, mut ex, req) = client.start_query("show-hosts", "standard").unwrap();
    match req.body.obj_get("limit") {
        Some(JsonValue::Num(l)) => assert_eq!(*l, 50),
        _ => panic!("expected the fixed page size"),
    }
    let reply = page_reply(&req.url, 0, 0, 0);
    let res = match ex.on_reply(&mut client, reply).unwrap() {
        CallStep::Done(r) => r,
        _ => panic!("expected a plain page call"),
    };
    match qx.on_page(&client, res).unwrap() {
        QueryStep::Done(out) => {
            assert_eq!(out.objects.len(), 0);
            assert!(out.data.deep_eq(&jobj(vec![])));
        },
        QueryStep::NextPage(_, _) => panic!("a zero total must end after one page call"),
    }
}

#[test]
fn unsuccessful_page_aborts_the_query() {
    let mut client = Client::new("192.168.1.10", 443);
    let (mut qx, mut ex, req) = client.start_query("show-hosts", "standard").unwrap();
    let reply = RawReply {
        status: 400,
        url: req.url.clone(),
        headers: vec![],
        body: jobj(vec![
            ("code", jstr("generic_error")),
            ("message", jstr("bad request")),
        ]),
    };
    let res = match ex.on_reply(&mut client, reply).unwrap() {
        CallStep::Done(r) => r,
        _ => panic!("expected a plain page call"),
    };
    match qx.on_page(&client, res) {
        Err(Error::Custom(msg)) => {
            assert!(msg.contains("unsuccessful Response"));
            assert!(msg.contains("generic_error"));
            assert!(msg.contains("bad request"));
        },
        _ => panic!("expected the query to abort"),
    }
}

#[test]
fn page_missing_counters_is_reported() {
    let mut client = Client::new("192.168.1.10", 443);
    let (mut qx, mut ex, req) = client.start_query("show-hosts", "standard").unwrap();
    let reply = RawReply {
        status: 200,
        url: req.url.clone(),
        headers: vec![],
        body: jobj(vec![("objects", jarr(vec![]))]),
    };
    let res = match ex.on_reply(&mut client, reply).unwrap() {
        CallStep::Done(r) => r,
        _ => panic!("expected a plain page call"),
    };
    match qx.on_page(&client, res) {
        Err(Error::InvalidResponse(field, _)) => assert_eq!(field, "to"),
        _ => panic!("expected the missing counter to be reported"),
    }
}

#[test]
fn page_missing_objects_is_reported() {
    let mut client = Client::new("192.168.1.10", 443);
    let (mut qx, mut ex, req) = client.start_query("show-hosts", "standard").unwrap();
    let reply = RawReply {
        status: 200,
        url: req.url.clone(),
        headers: vec![],
        body: jobj(vec![("to", jnum(0)), ("total", jnum(0))]),
    };
    let res = match ex.on_reply(&mut client, reply).unwrap() {
        CallStep::Done(r) => r,
        _ => panic!("expected a plain page call"),
    };
    match qx.on_page(&client, res) {
        Err(Error::InvalidResponse(field, _)) => assert_eq!(field, "objects"),
        _ => panic!("expected the missing objects to be reported"),
    }
}
