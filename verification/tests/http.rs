use bare_metal::http::{
    handle_request, parse_http_request, status_response, INDEX_PAGE, RESPONSE_METHOD_NOT_ALLOWED,
    RESPONSE_NOT_FOUND, RESPONSE_OK,
};
use bare_metal::leds::{led_get, led_set, LedState, LED_BLUE, LED_GREEN, LED_RED};

#[test]
fn parses_example_requests() {
    assert_eq!(
        parse_http_request(b"GET /led/blue/on HTTP/1.1\r\n\r\n"),
        Some(("GET", "/led/blue/on"))
    );
    assert_eq!(
        parse_http_request(b"GET /api/status HTTP/1.1\r\n\r\n"),
        Some(("GET", "/api/status"))
    );
}

#[test]
fn parses_first_two_words_of_first_line() {
    assert_eq!(parse_http_request(b"POST /x"), Some(("POST", "/x")));
    assert_eq!(parse_http_request(b"  GET \t /a/b  extra words\nsecond line"), Some(("GET", "/a/b")));
    assert_eq!(parse_http_request(b"GET /x\r"), Some(("GET", "/x")));
    assert_eq!(parse_http_request(b"GET /x\r\nHost: h\r\n"), Some(("GET", "/x")));
}

#[test]
fn too_few_words_give_nothing() {
    assert_eq!(parse_http_request(b""), None);
    assert_eq!(parse_http_request(b"GET"), None);
    assert_eq!(parse_http_request(b"GET   \r\n/path"), None);
    assert_eq!(parse_http_request(b"\r\nGET / HTTP/1.1"), None);
    assert_eq!(parse_http_request(b"   \t  "), None);
}

#[test]
fn invalid_utf8_gives_nothing() {
    assert_eq!(parse_http_request(&[b'G', b'E', b'T', b' ', b'/', 0xFF]), None);
    assert_eq!(parse_http_request(&[0xC0, 0x80, b' ', b'/']), None);
    // Invalid bytes on a later line still make the whole request unreadable.
    assert_eq!(parse_http_request(b"GET /x\n\xED\xA0\x80"), None);
}

#[test]
fn unicode_whitespace_separates_words() {
    assert_eq!(parse_http_request("GET\u{3000}/p".as_bytes()), Some(("GET", "/p")));
    assert_eq!(parse_http_request("GET\u{a0}/p HTTP".as_bytes()), Some(("GET", "/p")));
    assert_eq!(parse_http_request("\u{2009}GET\u{85}/p".as_bytes()), Some(("GET", "/p")));
    assert_eq!(parse_http_request("GET\u{1680}\u{205f}/ü".as_bytes()), Some(("GET", "/ü")));
    // Non-whitespace multibyte characters stay inside words.
    assert_eq!(parse_http_request("G\u{e9}T /\u{2010}".as_bytes()), Some(("G\u{e9}T", "/\u{2010}")));
}

#[test]
fn parse_agrees_with_std_split() {
    let samples: [&str; 6] = [
        "GET / HTTP/1.1\r\n",
        " \u{2028} PUT\u{202f}/a\u{3000}b\n",
        "a\u{b}b\u{c}c",
        "x",
        "\u{200a}\u{2000}",
        "GET\u{2029}/ok\u{a0}",
    ];
    for s in samples.iter() {
        let expected = s.lines().next().and_then(|line| {
            let mut words = line.split_whitespace();
            let m = words.next()?;
            let p = words.next()?;
            Some((m, p))
        });
        assert_eq!(parse_http_request(s.as_bytes()), expected, "{:?}", s);
    }
}

#[test]
fn led_routes_switch_leds() {
    let mut leds = LedState::new();
    let (resp, odr) = handle_request(&mut leds, 0, "GET", "/led/blue/on");
    assert_eq!(resp, RESPONSE_OK);
    assert_eq!(resp, "HTTP/1.1 200 OK\r\nContent-Length: 2\r\n\r\nOK");
    assert_eq!(odr, 1 << LED_BLUE);
    assert!(led_get(&leds, LED_BLUE));
    let (_, odr) = handle_request(&mut leds, odr, "GET", "/led/red/on");
    assert_eq!(odr, (1 << LED_BLUE) | (1 << LED_RED));
    let (_, odr) = handle_request(&mut leds, odr, "GET", "/led/green/on");
    let (_, odr) = handle_request(&mut leds, odr, "GET", "/led/green/off");
    assert_eq!(odr, (1 << LED_BLUE) | (1 << LED_RED));
    assert!(!led_get(&leds, LED_GREEN));
    let (_, odr) = handle_request(&mut leds, odr, "GET", "/led/blue/off");
    let (_, odr) = handle_request(&mut leds, odr, "GET", "/led/red/off");
    assert_eq!(odr, 0);
    assert!(!led_get(&leds, LED_BLUE) && !led_get(&leds, LED_GREEN) && !led_get(&leds, LED_RED));
}

#[test]
fn toggle_route_inverts_all() {
    let mut leds = LedState::new();
    let odr = led_set(&mut leds, 0x8000_0000, LED_GREEN, true);
    let (resp, odr) = handle_request(&mut leds, odr, "GET", "/led/toggle");
    assert_eq!(resp, RESPONSE_OK);
    assert_eq!(odr, 0x8000_0000 | (1 << LED_BLUE) | (1 << LED_RED));
    assert!(led_get(&leds, LED_BLUE));
    assert!(!led_get(&leds, LED_GREEN));
    assert!(led_get(&leds, LED_RED));
}

#[test]
fn status_reports_each_led() {
    let mut leds = LedState::new();
    let (resp, _) = handle_request(&mut leds, 0, "GET", "/api/status");
    assert_eq!(
        resp,
        "HTTP/1.1 200 OK\r\nContent-Type: application/json\r\n\r\n{\"blue\":false,\"green\":false,\"red\":false}"
    );
    let (_, odr) = handle_request(&mut leds, 0, "GET", "/led/blue/on");
    let (_, odr) = handle_request(&mut leds, odr, "GET", "/led/red/on");
    let (resp, odr2) = handle_request(&mut leds, odr, "GET", "/api/status");
    assert_eq!(odr2, odr);
    assert_eq!(
        resp,
        "HTTP/1.1 200 OK\r\nContent-Type: application/json\r\n\r\n{\"blue\":true,\"green\":false,\"red\":true}"
    );
    let (_, odr) = handle_request(&mut leds, odr, "GET", "/led/green/on");
    let (resp, _) = handle_request(&mut leds, odr, "GET", "/api/status");
    assert_eq!(
        resp,
        "HTTP/1.1 200 OK\r\nContent-Type: application/json\r\n\r\n{\"blue\":true,\"green\":true,\"red\":true}"
    );
}

#[test]
fn status_response_table() {
    assert!(status_response(false, true, false).ends_with("{\"blue\":false,\"green\":true,\"red\":false}"));
    assert!(status_response(true, true, false).ends_with("{\"blue\":true,\"green\":true,\"red\":false}"));
    assert!(status_response(false, false, true).ends_with("{\"blue\":false,\"green\":false,\"red\":true}"));
    assert!(status_response(false, true, true).ends_with("{\"blue\":false,\"green\":true,\"red\":true}"));
    assert!(status_response(true, false, false).ends_with("{\"blue\":true,\"green\":false,\"red\":false}"));
}

#[test]
fn other_requests() {
    let mut leds = LedState::new();
    assert_eq!(handle_request(&mut leds, 5, "POST", "/led/blue/on"), (RESPONSE_METHOD_NOT_ALLOWED, 5));
    assert!(!led_get(&leds, LED_BLUE));
    assert_eq!(handle_request(&mut leds, 5, "get", "/"), (RESPONSE_METHOD_NOT_ALLOWED, 5));
    assert_eq!(handle_request(&mut leds, 5, "GET", "/nope"), (RESPONSE_NOT_FOUND, 5));
    assert_eq!(handle_request(&mut leds, 5, "GET", "/led/blue"), (RESPONSE_NOT_FOUND, 5));
    assert_eq!(RESPONSE_NOT_FOUND, "HTTP/1.1 404 Not Found\r\nContent-Length: 9\r\n\r\nNot Found");
    assert_eq!(
        RESPONSE_METHOD_NOT_ALLOWED,
        "HTTP/1.1 405 Method Not Allowed\r\nContent-Length: 0\r\n\r\n"
    );
    let (page, odr) = handle_request(&mut leds, 5, "GET", "/");
    assert_eq!(page, INDEX_PAGE);
    assert_eq!(odr, 5);
    assert!(page.starts_with("HTTP/1.1 200 OK\r\nContent-Type: text/html\r\n\r\n<!DOCTYPE html>"));
    assert!(page.contains("🎮 STM32 LED Controller"));
    assert!(page.contains("fetch('/led/toggle')"));
    assert!(page.ends_with("</div></body></html>"));
}

#[test]
fn parsed_request_is_answered() {
    let mut leds = LedState::new();
    let (method, path) = parse_http_request(b"GET /led/green/on HTTP/1.1\r\n\r\n").unwrap();
    let (resp, odr) = handle_request(&mut leds, 0, method, path);
    assert_eq!(resp, RESPONSE_OK);
    assert_eq!(odr, 1 << LED_GREEN);
}

fn check_framing(response: &str) {
    assert!(response.starts_with("HTTP/1.1 "));
    let split = response.find("\r\n\r\n").expect("blank line after the headers");
    let head = &response[..split];
    let body = &response[split + 4..];
    for line in head.split("\r\n").skip(1) {
        assert!(!line.is_empty());
        if let Some(n) = line.strip_prefix("Content-Length: ") {
            assert_eq!(n.parse::<usize>().unwrap(), body.len());
        }
    }
}

#[test]
fn law_responses_are_well_framed() {
    let paths = [
        "/", "/led/blue/on", "/led/blue/off", "/led/green/on", "/led/green/off", "/led/red/on",
        "/led/red/off", "/led/toggle", "/api/status", "/nope",
    ];
    let mut leds = LedState::new();
    let mut odr: u32 = 0;
    for method in ["GET", "POST"] {
        for path in paths {
            let (response, new_odr) = handle_request(&mut leds, odr, method, path);
            odr = new_odr;
            check_framing(response);
        }
    }
    for bits in 0..8u32 {
        check_framing(status_response(bits & 1 != 0, bits & 2 != 0, bits & 4 != 0));
    }
    assert_eq!(RESPONSE_OK.len() - RESPONSE_OK.find("\r\n\r\n").unwrap() - 4, 2);
    assert_eq!(RESPONSE_NOT_FOUND.len() - RESPONSE_NOT_FOUND.find("\r\n\r\n").unwrap() - 4, 9);
    assert!(RESPONSE_METHOD_NOT_ALLOWED.ends_with("Content-Length: 0\r\n\r\n"));
    assert!(INDEX_PAGE.starts_with("HTTP/1.1 200 OK\r\nContent-Type: text/html\r\n\r\n"));
}

#[test]
fn law_only_first_line_matters() {
    let line = b"GET /led/red/on HTTP/1.1\r".to_vec();
    let expected = parse_http_request(&line);
    assert_eq!(expected, Some(("GET", "/led/red/on")));
    for rest in [&b""[..], b"Host: x\r\n\r\n", b"POST /other\n", "\u{3000}é\n".as_bytes()] {
        let mut buffer = line.clone();
        buffer.push(b'\n');
        buffer.extend_from_slice(rest);
        assert_eq!(parse_http_request(&buffer), expected);
    }
    let short = b"GET".to_vec();
    let mut buffer = short.clone();
    buffer.extend_from_slice(b"\n/path more");
    assert_eq!(parse_http_request(&short), None);
    assert_eq!(parse_http_request(&buffer), None);
}
