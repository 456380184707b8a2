use cp_api::{Client, Error, JsonValue, Response};
use cp_api::exchange::{CallStep, RawReply};
use cp_api::parse::parse_document;
use cp_api::render::{render_pretty, render_array_pretty};
use serde::Serialize;
use serde_json::ser::PrettyFormatter;
use serde_json::{Number, Value};

fn jstr(x: &str) -> JsonValue {
    JsonValue::Str(x.to_string())
}

fn jnum(n: u64) -> JsonValue {
    JsonValue::Num(n)
}

fn jobj(ms: Vec<(&str, JsonValue)>) -> JsonValue {
    JsonValue::Obj(ms.into_iter().map(|(k, v)| (k.to_string(), v)).collect())
}

fn jarr(vs: Vec<JsonValue>) -> JsonValue {
    JsonValue::Arr(vs)
}

fn sample_document() -> JsonValue {
    jobj(vec![
        ("name", jstr("host \"one\"\\two")),
        ("count", jnum(18446744073709551615)),
        ("zero", jnum(0)),
        ("enabled", JsonValue::Bool(true)),
        ("disabled", JsonValue::Bool(false)),
        ("nothing", JsonValue::Null),
        ("notes", jstr("line one\nline two\ttabbed\rreturned\u{1}bell")),
        ("empty-object", jobj(vec![])),
        ("empty-array", jarr(vec![])),
        ("nested", jarr(vec![
            jobj(vec![("a", jnum(1))]),
            jarr(vec![jstr("x"), JsonValue::Null]),
            jnum(42),
        ])),
    ])
}

#[test]
fn pretty_text_uses_four_space_indent() {
    let v = jobj(vec![
        ("a", jnum(1)),
        ("b", jarr(vec![jnum(2), jstr("x")])),
    ]);
    let expected = "{\n    \"a\": 1,\n    \"b\": [\n        2,\n        \"x\"\n    ]\n}";
    assert_eq!(render_pretty(&v), expected);
}

#[test]
fn pretty_text_matches_the_reference_serializer() {
    let mut inner = serde_json::Map::new();
    inner.insert("x".to_string(), Value::Number(Number::from(7u64)));
    let mut m = serde_json::Map::new();
    m.insert("a".to_string(), Value::Number(Number::from(1u64)));
    m.insert("b".to_string(), Value::Array(vec![
        Value::String("s".to_string()),
        Value::Bool(true),
        Value::Null,
        Value::Object(inner),
    ]));
    let reference = Value::Object(m);
    let formatter = PrettyFormatter::with_indent(b"    ");
    let mut buf: Vec<u8> = Vec::new();
    let mut ser = serde_json::Serializer::with_formatter(&mut buf, formatter);
    reference.serialize(&mut ser).unwrap();
    let reference_text = String::from_utf8(buf).unwrap();

    let ours = jobj(vec![
        ("a", jnum(1)),
        ("b", jarr(vec![jstr("s"), JsonValue::Bool(true), JsonValue::Null,
            jobj(vec![("x", jnum(7))])])),
    ]);
    assert_eq!(render_pretty(&ours), reference_text);
}

#[test]
fn rendered_document_parses_back_deep_equal() {
    let v = sample_document();
    let text = render_pretty(&v);
    let back = parse_document(&text).unwrap();
    assert!(back.deep_eq(&v));
}

#[test]
fn rendered_scalars_parse_back() {
    for v in [JsonValue::Null, JsonValue::Bool(true), JsonValue::Bool(false), jnum(0), jnum(7),
        jnum(18446744073709551615), jstr(""), jstr("plain"), jarr(vec![]), jobj(vec![])] {
        let text = render_pretty(&v);
        let back = parse_document(&text).unwrap();
        assert!(back.deep_eq(&v));
    }
}

#[test]
fn flushed_audit_log_round_trips() {
    let mut client = Client::new("192.168.1.10", 443);
    client.log_file("audit.json");
    let (mut ex, req) = client
        .start_call("show-host", jobj(vec![("name", jstr("host1"))]))
        .unwrap();
    let reply = RawReply {
        status: 200,
        url: req.url.clone(),
        headers: vec![("content-type".to_string(), "application/json".to_string())],
        body: jobj(vec![("name", jstr("host1")), ("ipv4-address", jstr("172.25.1.50"))]),
    };
    match ex.on_reply(&mut client, reply).unwrap() {
        CallStep::Done(_) => {},
        _ => panic!("expected the exchange to be over"),
    }
    let document = client.render_log().unwrap();
    let back = parse_document(&document).unwrap();
    match &back {
        JsonValue::Arr(entries) => {
            assert_eq!(entries.len(), 1);
            assert!(entries[0].deep_eq(&client.logged_calls()[0]));
        },
        _ => panic!("expected the log to be an array of entries"),
    }
    client.clear_log();
    assert_eq!(client.logged_calls().len(), 0);
    match client.render_log() {
        Err(Error::Custom(_)) => {},
        _ => panic!("a cleared log has no configured file"),
    }
}

#[test]
fn object_dump_round_trips() {
    let objects = vec![
        jobj(vec![("name", jstr("h1"))]),
        jobj(vec![("name", jstr("h2"))]),
    ];
    let text = render_array_pretty(&objects);
    let back = parse_document(&text).unwrap();
    match &back {
        JsonValue::Arr(items) => {
            assert_eq!(items.len(), 2);
            assert!(items[0].deep_eq(&objects[0]));
            assert!(items[1].deep_eq(&objects[1]));
        },
        _ => panic!("expected the dump to be an array"),
    }
}

#[test]
fn flush_without_configured_file_is_an_error() {
    let client = Client::new("192.168.1.10", 443);
    match client.render_log() {
        Err(Error::Custom(msg)) => assert!(msg.contains("not set")),
        _ => panic!("expected the missing log file to be reported"),
    }
}

#[test]
fn reply_headers_come_back_in_order() {
    let res = Response::from_raw(
        200,
        "u".to_string(),
        vec![
            ("server".to_string(), "web".to_string()),
            ("content-type".to_string(), "application/json".to_string()),
        ],
        jobj(vec![]),
    );
    let hs = res.headers();
    assert_eq!(hs.len(), 2);
    assert_eq!(hs[0].0, "server");
    assert_eq!(hs[1].1, "application/json");
    assert_eq!(res.url(), "u");
}

#[test]
fn oversized_number_is_rejected() {
    assert!(parse_document("18446744073709551616").is_none());
    assert!(parse_document("18446744073709551615").is_some());
}

#[test]
fn trailing_text_is_rejected() {
    assert!(parse_document("null x").is_none());
    assert!(parse_document("  null  ").is_some());
}

#[test]
fn unicode_escape_is_only_for_control_characters() {
    assert!(parse_document("\"\\u0041\"").is_none());
    match parse_document("\"\\u0001\"") {
        Some(JsonValue::Str(s)) => assert_eq!(s, "\u{1}"),
        _ => panic!("expected the escaped control character"),
    }
}

#[test]
fn deep_eq_tells_values_apart() {
    let a = jobj(vec![("k", jnum(1))]);
    let b = jobj(vec![("k", jnum(2))]);
    let c = jobj(vec![("j", jnum(1))]);
    assert!(a.deep_eq(&a));
    assert!(!a.deep_eq(&b));
    assert!(!a.deep_eq(&c));
    assert!(!a.deep_eq(&JsonValue::Null));
}
