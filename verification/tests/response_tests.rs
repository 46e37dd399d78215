use request_executor::{settle, Error, Fault, Mapping, Outcome, Reply, Response};

fn header(name: &str, value: &str) -> (String, Vec<u8>) {
    (name.to_string(), value.as_bytes().to_vec())
}

fn echo_reply() -> Reply {
    Reply {
        status: 200,
        headers: vec![
            header("content-type", "application/json; charset=utf-8"),
            header("Date", "Wed, 28 Oct 2026 01:00:00 GMT"),
        ],
        body: "{\"args\":{\"name\":\"john\"},\"headers\":{\"random-header\":\"1337\"},\"url\":\"https://postman-echo.com/get?name=john\"}".to_string(),
    }
}

#[test]
fn reply_becomes_response_with_status_headers_and_parsed_body() {
    let response = Response::from_reply(&echo_reply()).unwrap();
    assert_eq!(response.status(), 200);
    assert_eq!(response.headers().len(), 2);
    assert_eq!(
        response.headers().get("content-type"),
        Some(&"application/json; charset=utf-8".to_string())
    );
    assert_eq!(
        response.headers().get("Date"),
        Some(&"Wed, 28 Oct 2026 01:00:00 GMT".to_string())
    );
    assert_eq!(response.body()["args"]["name"], "john");
    assert_eq!(response.body()["headers"]["random-header"], "1337");
    let parsed: serde_json::Value = serde_json::from_str(&echo_reply().body).unwrap();
    assert_eq!(response.body(), &parsed);
}

#[test]
fn response_keeps_status_whatever_it_is() {
    let reply = Reply { status: 404, headers: Vec::new(), body: "null".to_string() };
    let response = Response::from_reply(&reply).unwrap();
    assert_eq!(response.status(), 404);
    assert_eq!(response.headers().len(), 0);
    assert!(response.body().is_null());
    let odd = Reply { status: 65535, headers: Vec::new(), body: "[1, 2]".to_string() };
    assert_eq!(Response::from_reply(&odd).unwrap().status(), 65535);
}

#[test]
fn response_keeps_header_names_as_received() {
    let reply = Reply {
        status: 200,
        headers: vec![header("X-Mixed-Case", "v"), header("x-mixed-case", "w")],
        body: "{}".to_string(),
    };
    let response = Response::from_reply(&reply).unwrap();
    assert_eq!(response.headers().get("X-Mixed-Case"), Some(&"v".to_string()));
    assert_eq!(response.headers().get("x-mixed-case"), Some(&"w".to_string()));
}

#[test]
fn response_keeps_last_value_of_a_repeated_header() {
    let reply = Reply {
        status: 200,
        headers: vec![header("set-cookie", "a=1"), header("vary", "x"), header("set-cookie", "b=2")],
        body: "{}".to_string(),
    };
    let response = Response::from_reply(&reply).unwrap();
    assert_eq!(response.headers().len(), 2);
    assert_eq!(response.headers().get("set-cookie"), Some(&"b=2".to_string()));
    assert_eq!(
        response.headers().entries(),
        &vec![
            ("set-cookie".to_string(), "b=2".to_string()),
            ("vary".to_string(), "x".to_string())
        ]
    );
}

#[test]
fn header_value_in_utf8_beyond_ascii_is_kept() {
    let mut reply = echo_reply();
    reply.headers.push(("x-name".to_string(), vec![b'c', b'a', b'f', 0xc3, 0xa9]));
    reply.headers.push(("x-sign".to_string(), vec![0xe2, 0x82, 0xac, 0xf0, 0x9f, 0x98, 0x80]));
    let response = Response::from_reply(&reply).unwrap();
    assert_eq!(response.status(), 200);
    assert_eq!(response.headers().len(), 4);
    assert_eq!(response.headers().get("x-name"), Some(&"caf\u{e9}".to_string()));
    assert_eq!(response.headers().get("x-sign"), Some(&"\u{20ac}\u{1f600}".to_string()));
    assert_eq!(response.body()["args"]["name"], "john");
}

#[test]
fn header_value_of_two_bytes_for_one_character_settles_as_response() {
    let reply = Reply {
        status: 200,
        headers: vec![("x-e".to_string(), vec![0xc3, 0xa9])],
        body: "{}".to_string(),
    };
    match settle(&Outcome::Replied(reply)) {
        Ok(Ok(response)) => {
            assert_eq!(response.headers().get("x-e"), Some(&"\u{e9}".to_string()));
        }
        _ => panic!("a header value in UTF-8 must be kept"),
    }
}

#[test]
fn header_value_that_is_not_utf8_is_a_fault() {
    for bytes in [
        vec![b'a', 0xe9, b'b'],
        vec![0x80],
        vec![0xc3],
        vec![0xe2, 0x82],
        vec![0xc0, 0x80],
        vec![0xed, 0xa0, 0x80],
        vec![0xf4, 0x90, 0x80, 0x80],
        vec![0xff],
    ] {
        let mut reply = echo_reply();
        reply.headers.push(("x-bytes".to_string(), bytes));
        assert_eq!(Response::from_reply(&reply).err(), Some(Fault::ResponseHeader));
    }
}

#[test]
fn header_value_with_control_characters_is_text() {
    let mut reply = echo_reply();
    reply.headers.push(("x-tab".to_string(), vec![b'a', b'\t', b'~', b' ', 0x7f, 0x01]));
    reply.headers.push(("x-empty".to_string(), Vec::new()));
    let response = Response::from_reply(&reply).unwrap();
    assert_eq!(response.headers().get("x-tab"), Some(&"a\t~ \u{7f}\u{1}".to_string()));
    assert_eq!(response.headers().get("x-empty"), Some(&String::new()));
}

#[test]
fn body_that_is_not_json_is_a_fault() {
    let mut empty = echo_reply();
    empty.body = String::new();
    assert_eq!(Response::from_reply(&empty).err(), Some(Fault::ResponseBody));
    let mut text = echo_reply();
    text.body = "<html></html>".to_string();
    assert_eq!(Response::from_reply(&text).err(), Some(Fault::ResponseBody));
    let mut trailing = echo_reply();
    trailing.body = "{} {}".to_string();
    assert_eq!(Response::from_reply(&trailing).err(), Some(Fault::ResponseBody));
}

#[test]
fn header_fault_comes_before_body_fault() {
    let reply = Reply {
        status: 200,
        headers: vec![("x".to_string(), vec![0xff])],
        body: "not json".to_string(),
    };
    assert_eq!(Response::from_reply(&reply).err(), Some(Fault::ResponseHeader));
}

#[test]
fn response_new_holds_its_parts() {
    let mut headers = Mapping::new();
    headers.insert("a".to_string(), "b".to_string());
    let response = Response::new(201, headers, serde_json::Value::Bool(true));
    assert_eq!(response.status(), 201);
    assert_eq!(response.headers().get("a"), Some(&"b".to_string()));
    assert_eq!(response.body(), &serde_json::Value::Bool(true));
}

#[test]
fn error_status_and_url_are_independently_optional() {
    let neither = Error::new(None, None);
    assert_eq!(neither.status(), None);
    assert_eq!(neither.url(), &None);
    let status = Error::new(Some(503), None);
    assert_eq!(status.status(), Some(503));
    assert_eq!(status.url(), &None);
    let url = Error::new(None, Some("https://unreachable.invalid/".to_string()));
    assert_eq!(url.status(), None);
    assert_eq!(url.url(), &Some("https://unreachable.invalid/".to_string()));
    let both = Error::new(Some(500), Some("https://example.com/".to_string()));
    assert_eq!(both.status(), Some(500));
    assert_eq!(both.url(), &Some("https://example.com/".to_string()));
}

#[test]
fn failed_attempt_settles_as_error() {
    let outcome = Outcome::Failed {
        status: None,
        url: Some("https://unreachable.invalid/get".to_string()),
    };
    match settle(&outcome) {
        Ok(Err(error)) => {
            assert_eq!(error.status(), None);
            assert_eq!(error.url(), &Some("https://unreachable.invalid/get".to_string()));
        }
        _ => panic!("a failed attempt must settle as an error"),
    }
}

#[test]
fn answered_attempt_settles_as_response() {
    match settle(&Outcome::Replied(echo_reply())) {
        Ok(Ok(response)) => {
            assert_eq!(response.status(), 200);
            assert_eq!(response.body()["args"]["name"], "john");
        }
        _ => panic!("an answered attempt must settle as a response"),
    }
}

#[test]
fn answered_attempt_with_faulty_data_settles_as_fault() {
    let reply = Reply { status: 200, headers: Vec::new(), body: "".to_string() };
    assert!(matches!(settle(&Outcome::Replied(reply)), Err(Fault::ResponseBody)));
}

#[test]
fn same_reply_twice_gives_same_status_and_body() {
    let first = Response::from_reply(&echo_reply()).unwrap();
    let mut again = echo_reply();
    again.headers[1] = header("Date", "Wed, 28 Oct 2026 01:00:01 GMT");
    let second = Response::from_reply(&again).unwrap();
    assert_eq!(first.status(), second.status());
    assert_eq!(first.body(), second.body());
}
