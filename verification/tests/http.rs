use ironclaw::http::{decode_body, failure, Decision, Exchange, HttpReply, MAX_RETRIES};

fn reply(status: u16, body: &[u8]) -> Result<HttpReply, String> {
    Ok(HttpReply {
        status,
        body: body.to_vec(),
    })
}

#[test]
fn success_is_accepted() {
    for status in [200, 204, 299] {
        let mut exchange = Exchange::new("S");
        assert_eq!(
            exchange.on_reply(reply(status, b"body")),
            Decision::Accept(b"body".to_vec())
        );
    }
}

#[test]
fn passing_failures_are_tried_again_up_to_the_limit() {
    let mut exchange = Exchange::new("S");
    assert_eq!(
        exchange.on_reply(reply(500, b"")),
        Decision::Retry("S API error 500 (attempt 1/3). Retrying...".to_string())
    );
    assert_eq!(
        exchange.on_reply(reply(429, b"")),
        Decision::Retry("S API error 429 (attempt 2/3). Retrying...".to_string())
    );
    assert_eq!(
        exchange.on_reply(reply(599, b"down")),
        Decision::Fail("S API error (HTTP 599): down".to_string())
    );
}

#[test]
fn no_more_than_the_limit_is_sent() {
    let mut exchange = Exchange::new("S");
    let mut sent = 0;
    loop {
        sent += 1;
        match exchange.on_reply(reply(503, b"")) {
            Decision::Retry(_) => {}
            _ => break,
        }
    }
    assert_eq!(sent, MAX_RETRIES);
}

#[test]
fn lasting_failures_end_the_exchange() {
    for status in [0, 100, 199, 300, 301, 400, 404, 428, 430, 499] {
        let mut exchange = Exchange::new("S");
        assert_eq!(
            exchange.on_reply(reply(status, b"no")),
            Decision::Fail(format!("S API error (HTTP {}): no", status))
        );
    }
    let mut exchange = Exchange::new("S");
    assert_eq!(
        exchange.on_reply(Err("timed out".to_string())),
        Decision::Fail("HTTP request failed: timed out".to_string())
    );
}

#[test]
fn failure_carries_the_text() {
    assert_eq!(failure("S", 418, "tea\u{fffd}"), "S API error (HTTP 418): tea\u{fffd}");
    let mut exchange = Exchange::new("S");
    assert_eq!(
        exchange.on_reply(reply(400, &[0xe2, 0x82, 0x21])),
        Decision::Fail("S API error (HTTP 400): \u{fffd}!".to_string())
    );
}

#[test]
fn body_is_utf8() {
    assert_eq!(decode_body("é".as_bytes().to_vec()).unwrap(), "é");
    assert_eq!(
        decode_body(vec![0x61, 0xc0]).unwrap_err(),
        "Invalid UTF-8 response: invalid utf-8 sequence of 1 bytes from index 1"
    );
}
