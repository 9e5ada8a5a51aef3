//! The web server's HTTP front end: reading the request line and answering
//! requests for the LED controller.
//!
//! A request is answered from its first line only. The line is read the way
//! `str::lines` and `str::split_whitespace` read it: the first line ends at
//! the first line feed, and its first two whitespace-separated words are the
//! method and the path. Whitespace is Unicode whitespace; in UTF-8 each such
//! character is one of the byte sequences recognised by [`ws_width`].
use vstd::prelude::*;
use vstd::utf8::*;
use vstd::string::*;
use crate::decimal::decimal_digits;
use crate::leds::{
    LedState, LED_BLUE, LED_GREEN, LED_RED, led_set, led_get, led_toggle_all, spec_pin_set,
    spec_led_set, spec_led_get, spec_pins_toggle_all, spec_led_toggle_all, led_bit,
    lemma_get_after_set,
};


verus! {

/// Answer to a request whose method is not GET.
pub const RESPONSE_METHOD_NOT_ALLOWED: &'static str =
    "HTTP/1.1 405 Method Not Allowed\r\nContent-Length: 0\r\n\r\n";

/// Answer to a successful LED command.
pub const RESPONSE_OK: &'static str = "HTTP/1.1 200 OK\r\nContent-Length: 2\r\n\r\nOK";

/// Answer to an unknown path.
pub const RESPONSE_NOT_FOUND: &'static str = "HTTP/1.1 404 Not Found\r\nContent-Length: 9\r\n\r\nNot Found";

/// The LED controller web page.
pub const INDEX_PAGE: &'static str = "HTTP/1.1 200 OK\r\n\
    Content-Type: text/html\r\n\r\n\
    <!DOCTYPE html><html><head><title>STM32 LED Control</title>\
    <style>body{font-family:Arial;margin:40px;background:#f0f0f0}\
    .container{background:white;padding:30px;border-radius:10px;box-shadow:0 2px 10px rgba(0,0,0,0.1)}\
    h1{color:#333;text-align:center}\
    .led{margin:20px 0;padding:15px;border:2px solid #ddd;border-radius:5px}\
    .btn{padding:10px 20px;margin:5px;border:none;border-radius:5px;cursor:pointer;font-size:16px}\
    .btn-on{background:#4CAF50;color:white}.btn-off{background:#f44336;color:white}\
    .btn-toggle{background:#2196F3;color:white;width:100%;padding:15px;font-size:18px}\
    .status{display:inline-block;width:20px;height:20px;border-radius:50%;margin-left:10px}\
    .status-on{background:#4CAF50}.status-off{background:#ccc}\
    </style></head><body>\
    <div class='container'><h1>🎮 STM32 LED Controller</h1>\
    <div class='led'>🔵 <b>Blue LED</b> <span class='status status-off' id='blue'></span>\
    <button class='btn btn-on' onclick=\"fetch('/led/blue/on').then(()=>location.reload())\">ON</button>\
    <button class='btn btn-off' onclick=\"fetch('/led/blue/off').then(()=>location.reload())\">OFF</button></div>\
    <div class='led'>🟢 <b>Green LED</b> <span class='status status-off' id='green'></span>\
    <button class='btn btn-on' onclick=\"fetch('/led/green/on').then(()=>location.reload())\">ON</button>\
    <button class='btn btn-off' onclick=\"fetch('/led/green/off').then(()=>location.reload())\">OFF</button></div>\
    <div class='led'>🔴 <b>Red LED</b> <span class='status status-off' id='red'></span>\
    <button class='btn btn-on' onclick=\"fetch('/led/red/on').then(()=>location.reload())\">ON</button>\
    <button class='btn btn-off' onclick=\"fetch('/led/red/off').then(()=>location.reload())\">OFF</button></div>\
    <button class='btn btn-toggle' onclick=\"fetch('/led/toggle').then(()=>location.reload())\">⚡ Toggle All LEDs</button>\
    <p style='text-align:center;color:#666;margin-top:30px'>STM32F439ZI @ 192.168.1.100</p>\
    </div></body></html>";

/// Byte `c` is one of the one-byte whitespace characters
/// (tab, line feed, vertical tab, form feed, carriage return, space).
pub open spec fn is_ascii_space(c: u8) -> bool {
    c == 0x09 || c == 0x0A || c == 0x0B || c == 0x0C || c == 0x0D || c == 0x20
}

/// Bytes `c d f` encode one of the three-byte Unicode whitespace characters
/// U+1680, U+2000..U+200A, U+2028, U+2029, U+202F, U+205F, U+3000.
pub open spec fn is_three_byte_space(c: u8, d: u8, f: u8) -> bool {
    ||| c == 0xE1 && d == 0x9A && f == 0x80
    ||| c == 0xE2 && d == 0x80 && ((0x80 <= f && f <= 0x8A) || f == 0xA8 || f == 0xA9 || f == 0xAF)
    ||| c == 0xE2 && d == 0x81 && f == 0x9F
    ||| c == 0xE3 && d == 0x80 && f == 0x80
}

/// The length of the whitespace character that starts at byte `i` and ends at
/// or before `end`, or 0 when no whitespace character starts there. The
/// two-byte ones are U+0085 and U+00A0.
pub open spec fn ws_width(b: Seq<u8>, i: int, end: int) -> int {
    if !(0 <= i < end) {
        0
    } else if is_ascii_space(b[i]) {
        1
    } else if i + 1 < end && b[i] == 0xC2 && (b[i + 1] == 0x85 || b[i + 1] == 0xA0) {
        2
    } else if i + 2 < end && is_three_byte_space(b[i], b[i + 1], b[i + 2]) {
        3
    } else {
        0
    }
}

/// The first position at or after `i` that does not start whitespace (or `end`).
pub open spec fn skip_ws(b: Seq<u8>, i: int, end: int) -> int
    decreases end - i,
{
    if i < end && ws_width(b, i, end) > 0 {
        skip_ws(b, i + ws_width(b, i, end), end)
    } else {
        i
    }
}

/// The first position at or after `i` that starts whitespace (or `end`).
pub open spec fn token_end(b: Seq<u8>, i: int, end: int) -> int
    decreases end - i,
{
    if i < end && ws_width(b, i, end) == 0 {
        token_end(b, i + 1, end)
    } else {
        i
    }
}

/// The position of the first line feed at or after `i`, or the length.
pub open spec fn line_end(b: Seq<u8>, i: int) -> int
    decreases b.len() - i,
{
    if i >= b.len() {
        b.len() as int
    } else if b[i] == 0x0A {
        i
    } else {
        line_end(b, i + 1)
    }
}

/// The first two words of the first line of `b`: the method and the path.
pub open spec fn request_line(b: Seq<u8>) -> Option<(Seq<u8>, Seq<u8>)> {
    let e = line_end(b, 0);
    let s1 = skip_ws(b, 0, e);
    let t1 = token_end(b, s1, e);
    let s2 = skip_ws(b, t1, e);
    let t2 = token_end(b, s2, e);
    if s1 < e && s2 < e {
        Some((b.subrange(s1, t1), b.subrange(s2, t2)))
    } else {
        None
    }
}

/// `core::str::from_utf8`: the bytes as a string when they are valid UTF-8.
/// Trusted to succeed exactly on valid UTF-8 (vstd's `valid_utf8`) and to
/// return a string with exactly these bytes, as its documentation says.
#[verifier::external_body]
fn utf8_str(bytes: &[u8]) -> (r: Option<&str>)
    ensures
        r is Some <==> valid_utf8(bytes@),
        r matches Some(s) ==> s.spec_bytes() == bytes@,
{
    core::str::from_utf8(bytes).ok()
}

/// A whitespace character that starts at a character boundary ends at one.
proof fn lemma_ws_next_boundary(b: Seq<u8>, i: int, end: int)
    requires
        valid_utf8(b),
        is_char_boundary(b, i),
        0 <= i < end <= b.len(),
        ws_width(b, i, end) > 0,
    ensures
        is_char_boundary(b, i + ws_width(b, i, end)),
{
    let w = ws_width(b, i, end);
    valid_utf8_split(b, i);
    let rest = b.subrange(i, b.len() as int);
    assert(valid_first_scalar(rest) && valid_utf8(pop_first_scalar(rest)));
    if i + w < b.len() {
        is_char_boundary_iff_not_is_continuation_byte(b, i + w);
    } else {
        is_char_boundary_start_end_of_seq(b);
    }
}

/// A position holding a non-continuation byte, or the end, is a character boundary.
proof fn lemma_boundary(b: Seq<u8>, i: int)
    requires
        valid_utf8(b),
        0 <= i <= b.len(),
        i < b.len() ==> !is_continuation_byte(b[i]),
    ensures
        is_char_boundary(b, i),
{
    if i < b.len() {
        is_char_boundary_iff_not_is_continuation_byte(b, i);
    } else {
        is_char_boundary_start_end_of_seq(b);
    }
}

/// Width of the whitespace character at `i` (0 if none).
fn whitespace_width(b: &[u8], i: usize, end: usize) -> (w: usize)
    requires
        i < end <= b@.len(),
    ensures
        w == ws_width(b@, i as int, end as int),
{
    let c = b[i];
    if c == 0x09 || c == 0x0A || c == 0x0B || c == 0x0C || c == 0x0D || c == 0x20 {
        return 1;
    }
    if c == 0xC2 && i + 1 < end {
        let d = b[i + 1];
        if d == 0x85 || d == 0xA0 {
            return 2;
        }
        return 0;
    }
    if end - i > 2 {
        let d = b[i + 1];
        let f = b[i + 2];
        if (c == 0xE1 && d == 0x9A && f == 0x80) || (c == 0xE2 && d == 0x80 && ((0x80 <= f && f
            <= 0x8A) || f == 0xA8 || f == 0xA9 || f == 0xAF)) || (c == 0xE2 && d == 0x81 && f
            == 0x9F) || (c == 0xE3 && d == 0x80 && f == 0x80) {
            return 3;
        }
    }
    0
}

/// Skips the whitespace starting at `start`.
fn skip_whitespace(b: &[u8], start: usize, end: usize) -> (r: usize)
    requires
        start <= end <= b@.len(),
        valid_utf8(b@),
        is_char_boundary(b@, start as int),
    ensures
        r == skip_ws(b@, start as int, end as int),
        start <= r <= end,
        is_char_boundary(b@, r as int),
        r < end ==> ws_width(b@, r as int, end as int) == 0,
{
    let mut i = start;
    loop
        invariant
            start <= i <= end,
            end <= b@.len(),
            valid_utf8(b@),
            is_char_boundary(b@, i as int),
            skip_ws(b@, i as int, end as int) == skip_ws(b@, start as int, end as int),
        decreases end - i,
    {
        if i >= end {
            return i;
        }
        let w = whitespace_width(b, i, end);
        if w == 0 {
            return i;
        }
        proof {
            lemma_ws_next_boundary(b@, i as int, end as int);
        }
        i = i + w;
    }
}

/// Finds the end of the word starting at `start`.
fn word_end(b: &[u8], start: usize, end: usize) -> (r: usize)
    requires
        start <= end <= b@.len(),
    ensures
        r == token_end(b@, start as int, end as int),
        start <= r <= end,
        r < end ==> ws_width(b@, r as int, end as int) > 0,
{
    let mut i = start;
    loop
        invariant
            start <= i <= end,
            end <= b@.len(),
            token_end(b@, i as int, end as int) == token_end(b@, start as int, end as int),
        decreases end - i,
    {
        if i >= end {
            return i;
        }
        if whitespace_width(b, i, end) != 0 {
            return i;
        }
        i = i + 1;
    }
}

/// Finds the first line feed (or the end).
fn find_line_end(b: &[u8]) -> (r: usize)
    ensures
        r == line_end(b@, 0),
        r <= b@.len(),
        r < b@.len() ==> b@[r as int] == 0x0A,
{
    let mut i: usize = 0;
    while i < b.len()
        invariant
            i <= b@.len(),
            line_end(b@, i as int) == line_end(b@, 0),
        decreases b@.len() - i,
    {
        if b[i] == 0x0A {
            return i;
        }
        i += 1;
    }
    i
}

/// The part of `s` between two character boundaries.
fn substring(s: &str, from: usize, to: usize) -> (r: &str)
    requires
        from <= to <= s.spec_bytes().len(),
        is_char_boundary(s.spec_bytes(), from as int),
        is_char_boundary(s.spec_bytes(), to as int),
    ensures
        r.spec_bytes() == s.spec_bytes().subrange(from as int, to as int),
{
    let ghost bytes = s.spec_bytes();
    proof {
        encode_utf8_valid_utf8(s@);
        valid_utf8_split(bytes, to as int);
        let head = bytes.subrange(0, to as int);
        if from < to {
            is_char_boundary_iff_not_is_continuation_byte(bytes, from as int);
        }
        lemma_boundary(head, from as int);
    }
    let (head, _) = s.split_at(to);
    let (_, r) = head.split_at(from);
    r
}

/// Reads the method and the path from an HTTP request: the first two words of
/// its first line. Nothing when the bytes are not UTF-8 or the line has fewer
/// than two words.
pub fn parse_http_request(buffer: &[u8]) -> (r: Option<(&str, &str)>)
    ensures
        r is Some <==> (valid_utf8(buffer@) && request_line(buffer@) is Some),
        r matches Some((m, p)) ==> m.spec_bytes() == request_line(buffer@).unwrap().0
            && p.spec_bytes() == request_line(buffer@).unwrap().1,
{
    let req = match utf8_str(buffer) {
        Some(s) => s,
        None => return None,
    };
    let b = req.as_bytes();
    proof {
        is_char_boundary_start_end_of_seq(b@);
    }
    let e = find_line_end(b);
    let s1 = skip_whitespace(b, 0, e);
    if s1 >= e {
        return None;
    }
    let t1 = word_end(b, s1, e);
    proof {
        lemma_boundary(b@, t1 as int);
    }
    let s2 = skip_whitespace(b, t1, e);
    if s2 >= e {
        return None;
    }
    let t2 = word_end(b, s2, e);
    proof {
        lemma_boundary(b@, t2 as int);
    }
    let method = substring(req, s1, t1);
    let path = substring(req, s2, t2);
    Some((method, path))
}


/// What a request asks for.
pub enum Route {
    /// The method is not GET.
    MethodNotAllowed,
    /// `/`: the web page.
    Index,
    /// `/led/<colour>/<on|off>`: switch one LED.
    Led(u32, bool),
    /// `/led/toggle`: invert all LEDs.
    ToggleAll,
    /// `/api/status`: the LED states as JSON.
    Status,
    /// Any other path.
    NotFound,
}

/// The route of a request with the given method and path.
pub open spec fn spec_route(method: Seq<char>, path: Seq<char>) -> Route {
    if method != "GET"@ {
        Route::MethodNotAllowed
    } else if path == "/"@ {
        Route::Index
    } else if path == "/led/blue/on"@ {
        Route::Led(LED_BLUE, true)
    } else if path == "/led/blue/off"@ {
        Route::Led(LED_BLUE, false)
    } else if path == "/led/green/on"@ {
        Route::Led(LED_GREEN, true)
    } else if path == "/led/green/off"@ {
        Route::Led(LED_GREEN, false)
    } else if path == "/led/red/on"@ {
        Route::Led(LED_RED, true)
    } else if path == "/led/red/off"@ {
        Route::Led(LED_RED, false)
    } else if path == "/led/toggle"@ {
        Route::ToggleAll
    } else if path == "/api/status"@ {
        Route::Status
    } else {
        Route::NotFound
    }
}

/// The `/api/status` answer for the given LED states.
pub open spec fn spec_status_response(blue: bool, green: bool, red: bool) -> Seq<char> {
    if blue {
        if green {
            if red {
                "HTTP/1.1 200 OK\r\nContent-Type: application/json\r\n\r\n{\"blue\":true,\"green\":true,\"red\":true}"@
            } else {
                "HTTP/1.1 200 OK\r\nContent-Type: application/json\r\n\r\n{\"blue\":true,\"green\":true,\"red\":false}"@
            }
        } else {
            if red {
                "HTTP/1.1 200 OK\r\nContent-Type: application/json\r\n\r\n{\"blue\":true,\"green\":false,\"red\":true}"@
            } else {
                "HTTP/1.1 200 OK\r\nContent-Type: application/json\r\n\r\n{\"blue\":true,\"green\":false,\"red\":false}"@
            }
        }
    } else {
        if green {
            if red {
                "HTTP/1.1 200 OK\r\nContent-Type: application/json\r\n\r\n{\"blue\":false,\"green\":true,\"red\":true}"@
            } else {
                "HTTP/1.1 200 OK\r\nContent-Type: application/json\r\n\r\n{\"blue\":false,\"green\":true,\"red\":false}"@
            }
        } else {
            if red {
                "HTTP/1.1 200 OK\r\nContent-Type: application/json\r\n\r\n{\"blue\":false,\"green\":false,\"red\":true}"@
            } else {
                "HTTP/1.1 200 OK\r\nContent-Type: application/json\r\n\r\n{\"blue\":false,\"green\":false,\"red\":false}"@
            }
        }
    }
}

/// The `/api/status` answer: the three LED states as a JSON object.
pub fn status_response(blue: bool, green: bool, red: bool) -> (r: &'static str)
    ensures
        r@ == spec_status_response(blue, green, red),
{
    if blue {
        if green {
            if red {
                "HTTP/1.1 200 OK\r\nContent-Type: application/json\r\n\r\n{\"blue\":true,\"green\":true,\"red\":true}"
            } else {
                "HTTP/1.1 200 OK\r\nContent-Type: application/json\r\n\r\n{\"blue\":true,\"green\":true,\"red\":false}"
            }
        } else {
            if red {
                "HTTP/1.1 200 OK\r\nContent-Type: application/json\r\n\r\n{\"blue\":true,\"green\":false,\"red\":true}"
            } else {
                "HTTP/1.1 200 OK\r\nContent-Type: application/json\r\n\r\n{\"blue\":true,\"green\":false,\"red\":false}"
            }
        }
    } else {
        if green {
            if red {
                "HTTP/1.1 200 OK\r\nContent-Type: application/json\r\n\r\n{\"blue\":false,\"green\":true,\"red\":true}"
            } else {
                "HTTP/1.1 200 OK\r\nContent-Type: application/json\r\n\r\n{\"blue\":false,\"green\":true,\"red\":false}"
            }
        } else {
            if red {
                "HTTP/1.1 200 OK\r\nContent-Type: application/json\r\n\r\n{\"blue\":false,\"green\":false,\"red\":true}"
            } else {
                "HTTP/1.1 200 OK\r\nContent-Type: application/json\r\n\r\n{\"blue\":false,\"green\":false,\"red\":false}"
            }
        }
    }
}

/// The two strings hold the same characters.
fn str_eq(a: &str, b: &str) -> (r: bool)
    ensures
        r == (a@ == b@),
{
    let x = a.as_bytes();
    let y = b.as_bytes();
    proof {
        encode_utf8_decode_utf8(a@);
        encode_utf8_decode_utf8(b@);
    }
    if x.len() != y.len() {
        return false;
    }
    let mut i: usize = 0;
    while i < x.len()
        invariant
            i <= x@.len(),
            x@.len() == y@.len(),
            x@ == a.spec_bytes(),
            y@ == b.spec_bytes(),
            forall|k: int| 0 <= k < i ==> x@[k] == y@[k],
        decreases x@.len() - i,
    {
        if x[i] != y[i] {
            assert(a@ != b@);
            return false;
        }
        i += 1;
    }
    assert(x@ =~= y@);
    true
}

/// The route of a request.
fn route(method: &str, path: &str) -> (r: Route)
    ensures
        r == spec_route(method@, path@),
{
    if !str_eq(method, "GET") {
        Route::MethodNotAllowed
    } else if str_eq(path, "/") {
        Route::Index
    } else if str_eq(path, "/led/blue/on") {
        Route::Led(LED_BLUE, true)
    } else if str_eq(path, "/led/blue/off") {
        Route::Led(LED_BLUE, false)
    } else if str_eq(path, "/led/green/on") {
        Route::Led(LED_GREEN, true)
    } else if str_eq(path, "/led/green/off") {
        Route::Led(LED_GREEN, false)
    } else if str_eq(path, "/led/red/on") {
        Route::Led(LED_RED, true)
    } else if str_eq(path, "/led/red/off") {
        Route::Led(LED_RED, false)
    } else if str_eq(path, "/led/toggle") {
        Route::ToggleAll
    } else if str_eq(path, "/api/status") {
        Route::Status
    } else {
        Route::NotFound
    }
}

/// Answers a request: returns the response and the new value of the LED
/// port's output data register, and updates the LED record for LED commands.
pub fn handle_request(leds: &mut LedState, odr: u32, method: &str, path: &str) -> (r: (
    &'static str,
    u32,
))
    ensures
        r.0@ == spec_response(spec_route(method@, path@), old(leds)@),
        match spec_route(method@, path@) {
            Route::MethodNotAllowed => r.0@ == RESPONSE_METHOD_NOT_ALLOWED@ && r.1 == odr
                && final(leds)@ == old(leds)@,
            Route::Index => r.0@ == INDEX_PAGE@ && r.1 == odr && final(leds)@ == old(leds)@,
            Route::Led(pin, on) => {
                &&& r.0@ == RESPONSE_OK@
                &&& r.1 == spec_pin_set(odr, pin, on)
                &&& final(leds)@ == spec_led_set(old(leds)@, pin, on)
            },
            Route::ToggleAll => {
                &&& r.0@ == RESPONSE_OK@
                &&& r.1 == spec_pins_toggle_all(odr)
                &&& final(leds)@ == spec_led_toggle_all(old(leds)@)
            },
            Route::Status => {
                &&& r.0@ == spec_status_response(
                    spec_led_get(old(leds)@, LED_BLUE),
                    spec_led_get(old(leds)@, LED_GREEN),
                    spec_led_get(old(leds)@, LED_RED),
                )
                &&& r.1 == odr
                &&& final(leds)@ == old(leds)@
            },
            Route::NotFound => r.0@ == RESPONSE_NOT_FOUND@ && r.1 == odr && final(leds)@ == old(
                leds,
            )@,
        },
{
    match route(method, path) {
        Route::MethodNotAllowed => (RESPONSE_METHOD_NOT_ALLOWED, odr),
        Route::Index => (INDEX_PAGE, odr),
        Route::Led(pin, on) => {
            let odr = led_set(leds, odr, pin, on);
            (RESPONSE_OK, odr)
        },
        Route::ToggleAll => {
            let odr = led_toggle_all(leds, odr);
            (RESPONSE_OK, odr)
        },
        Route::Status => {
            let blue = led_get(leds, LED_BLUE);
            let green = led_get(leds, LED_GREEN);
            let red = led_get(leds, LED_RED);
            (status_response(blue, green, red), odr)
        },
        Route::NotFound => (RESPONSE_NOT_FOUND, odr),
    }
}

/// After a command switches one LED, a status request reports that LED in the
/// state just set and the other two as they were.
pub proof fn lemma_status_after_led_command(bits: u32, pin: u32, on: bool)
    requires
        led_bit(pin) is Some,
    ensures
        ({
            let nb = spec_led_set(bits, pin, on);
            spec_status_response(
                spec_led_get(nb, LED_BLUE),
                spec_led_get(nb, LED_GREEN),
                spec_led_get(nb, LED_RED),
            ) == spec_status_response(
                if pin == LED_BLUE {
                    on
                } else {
                    spec_led_get(bits, LED_BLUE)
                },
                if pin == LED_GREEN {
                    on
                } else {
                    spec_led_get(bits, LED_GREEN)
                },
                if pin == LED_RED {
                    on
                } else {
                    spec_led_get(bits, LED_RED)
                },
            )
        }),
{
    if pin != LED_BLUE {
        lemma_get_after_set(bits, pin, on, LED_BLUE);
    } else {
        lemma_get_after_set(bits, pin, on, LED_GREEN);
    }
    if pin != LED_GREEN {
        lemma_get_after_set(bits, pin, on, LED_GREEN);
    }
    if pin != LED_RED {
        lemma_get_after_set(bits, pin, on, LED_RED);
    }
}

/// `w` is a word on its own: non-empty, with no line feed and no whitespace
/// character starting anywhere in it.
pub open spec fn is_word(w: Seq<u8>) -> bool {
    &&& w.len() > 0
    &&& forall|k: int| 0 <= k < w.len() ==> #[trigger] w[k] != 0x0A && ws_width(w, k, w.len() as int) == 0
}

/// Line feeds between `i` and `j` decide where the first line ends.
proof fn lemma_line_end_skip(b: Seq<u8>, i: int, j: int)
    requires
        0 <= i <= j <= b.len(),
        forall|k: int| i <= k < j ==> b[k] != 0x0A,
    ensures
        line_end(b, i) == line_end(b, j),
    decreases j - i,
{
    if i < j {
        lemma_line_end_skip(b, i + 1, j);
    }
}

/// The first line ends at or after the position searched from.
proof fn lemma_line_end_bounds(b: Seq<u8>, i: int)
    requires
        0 <= i <= b.len(),
    ensures
        i <= line_end(b, i) <= b.len(),
        line_end(b, i) < b.len() ==> b[line_end(b, i)] == 0x0A,
    decreases b.len() - i,
{
    if i < b.len() && b[i] != 0x0A {
        lemma_line_end_bounds(b, i + 1);
    }
}

/// A run without whitespace that is followed by whitespace (or the end) is
/// one word.
proof fn lemma_token_end(b: Seq<u8>, i: int, j: int, end: int)
    requires
        0 <= i <= j <= end,
        forall|k: int| i <= k < j ==> #[trigger] ws_width(b, k, end) == 0,
        j == end || ws_width(b, j, end) > 0,
    ensures
        token_end(b, i, end) == j,
    decreases j - i,
{
    if i < j {
        lemma_token_end(b, i + 1, j, end);
    }
}

/// A word keeps its meaning inside a request when it is followed by a space,
/// carriage return or line feed, or ends the line: no whitespace character
/// starts inside it there either.
proof fn lemma_word_in_context(b: Seq<u8>, at: int, w: Seq<u8>, end: int)
    requires
        is_word(w),
        0 <= at,
        at + w.len() <= end <= b.len(),
        b.subrange(at, at + w.len()) == w,
        at + w.len() < end ==> (b[at + w.len()] == 0x20 || b[at + w.len()] == 0x0D || b[at
            + w.len()] == 0x0A),
    ensures
        forall|k: int| at <= k < at + w.len() ==> #[trigger] ws_width(b, k, end) == 0,
        forall|k: int| at <= k < at + w.len() ==> #[trigger] b[k] != 0x0A,
{
    let n = w.len() as int;
    assert forall|k: int| at <= k < at + n implies #[trigger] ws_width(b, k, end) == 0 by {
        assert(b[k] == w[k - at]);
        assert(w[k - at] != 0x0A && ws_width(w, k - at, n) == 0);
        if k + 1 < at + n {
            assert(b[k + 1] == w[k - at + 1]);
        }
        if k + 2 < at + n {
            assert(b[k + 2] == w[k - at + 2]);
        }
    }
    assert forall|k: int| at <= k < at + n implies #[trigger] b[k] != 0x0A by {
        assert(b[k] == w[k - at]);
        assert(w[k - at] != 0x0A);
    }
}

/// A request line made of a method, one space and a path, followed by a
/// space, a carriage return, a line feed or nothing, reads back as exactly
/// that method and path.
pub proof fn lemma_request_line_roundtrip(method: Seq<u8>, path: Seq<u8>, tail: Seq<u8>)
    requires
        is_word(method),
        is_word(path),
        tail.len() == 0 || tail[0] == 0x20 || tail[0] == 0x0D || tail[0] == 0x0A,
    ensures
        request_line(method + seq![0x20u8] + path + tail) == Some((method, path)),
{
    let b = method + seq![0x20u8] + path + tail;
    let m = method.len() as int;
    let l = m + 1 + path.len();
    assert(b.subrange(0, m) =~= method);
    assert(b.subrange(m + 1, l) =~= path);
    assert(b[m] == 0x20);
    lemma_word_in_context(b, 0, method, b.len() as int);
    lemma_word_in_context(b, m + 1, path, b.len() as int);
    lemma_line_end_skip(b, 0, l);
    lemma_line_end_bounds(b, l);
    let e = line_end(b, 0);
    assert(l <= e);
    if l < b.len() {
        assert(b[l] == tail[0]);
    }
    lemma_word_in_context(b, 0, method, e);
    lemma_word_in_context(b, m + 1, path, e);
    assert(ws_width(b, 0, e) == 0);
    assert(skip_ws(b, 0, e) == 0);
    assert(ws_width(b, m, e) == 1);
    lemma_token_end(b, 0, m, e);
    assert(ws_width(b, m + 1, e) == 0);
    assert(skip_ws(b, m + 1, e) == m + 1);
    assert(skip_ws(b, m, e) == m + 1);
    assert(l == e || ws_width(b, l, e) > 0);
    lemma_token_end(b, m + 1, l, e);
}
/// Scanning for whitespace up to `e` reads no byte at or after `e`, and never
/// moves backwards or past `e`.
proof fn lemma_scan_prefix(b: Seq<u8>, c: Seq<u8>, i: int, e: int)
    requires
        0 <= i,
        e <= b.len(),
        e <= c.len(),
        forall|k: int| 0 <= k < e ==> b[k] == c[k],
    ensures
        skip_ws(b, i, e) == skip_ws(c, i, e),
        token_end(b, i, e) == token_end(c, i, e),
        i <= e ==> i <= skip_ws(b, i, e) <= e,
        i <= e ==> i <= token_end(b, i, e) <= e,
    decreases e - i,
{
    if i < e {
        assert(b[i] == c[i]);
        if i + 1 < e {
            assert(b[i + 1] == c[i + 1]);
        }
        if i + 2 < e {
            assert(b[i + 2] == c[i + 2]);
        }
        assert(ws_width(b, i, e) == ws_width(c, i, e));
        lemma_scan_prefix(b, c, i + 1, e);
        if ws_width(b, i, e) > 0 {
            lemma_scan_prefix(b, c, i + ws_width(b, i, e), e);
        }
    }
}

/// Only the first line of a request decides its method and path: whatever
/// follows the first line feed changes nothing, and a valid UTF-8 first line
/// followed by valid UTF-8 is a valid request.
pub proof fn lemma_first_line_decides(line: Seq<u8>, rest: Seq<u8>)
    requires
        forall|k: int| 0 <= k < line.len() ==> line[k] != 0x0A,
    ensures
        request_line(line + seq![0x0Au8] + rest) == request_line(line),
        valid_utf8(line) && valid_utf8(rest) ==> valid_utf8(line + seq![0x0Au8] + rest),
{
    let b = line + seq![0x0Au8] + rest;
    let e = line.len() as int;
    assert forall|k: int| 0 <= k < e implies b[k] != 0x0A by {
        assert(b[k] == line[k]);
    }
    lemma_line_end_skip(b, 0, e);
    lemma_line_end_skip(line, 0, e);
    assert(line_end(b, 0) == e);
    assert(line_end(line, 0) == e);
    assert forall|k: int| 0 <= k < e implies b[k] == line[k] by {}
    let s1 = skip_ws(b, 0, e);
    lemma_scan_prefix(b, line, 0, e);
    let t1 = token_end(b, s1, e);
    lemma_scan_prefix(b, line, s1, e);
    let s2 = skip_ws(b, t1, e);
    lemma_scan_prefix(b, line, t1, e);
    let t2 = token_end(b, s2, e);
    lemma_scan_prefix(b, line, s2, e);
    assert(b.subrange(s1, t1) =~= line.subrange(s1, t1));
    assert(b.subrange(s2, t2) =~= line.subrange(s2, t2));
    if valid_utf8(line) && valid_utf8(rest) {
        assert(valid_utf8(seq![0x0Au8])) by {
            reveal_with_fuel(valid_utf8, 2);
        }
        valid_utf8_concat(line, seq![0x0Au8]);
        valid_utf8_concat(line + seq![0x0Au8], rest);
    }
}
/// The header block of a response: each header line followed by CR LF.
pub open spec fn header_block(headers: Seq<Seq<char>>) -> Seq<char>
    decreases headers.len(),
{
    if headers.len() == 0 {
        Seq::empty()
    } else {
        headers[0] + "\r\n"@ + header_block(headers.drop_first())
    }
}

/// An HTTP/1.1 response: status line, header lines, a blank line, the body.
pub open spec fn http_response(status: Seq<char>, headers: Seq<Seq<char>>, body: Seq<char>) -> Seq<
    char,
> {
    "HTTP/1.1 "@ + status + "\r\n"@ + header_block(headers) + "\r\n"@ + body
}

/// `s` holds no carriage return and no line feed.
pub open spec fn is_line(s: Seq<char>) -> bool {
    forall|i: int| 0 <= i < s.len() ==> #[trigger] s[i] != '\r' && s[i] != '\n'
}

/// The `Content-Length` header line for a body of `n` characters.
pub open spec fn content_length_header(n: nat) -> Seq<char> {
    "Content-Length: "@ + decimal_digits(n).map_values(|d: u8| d as char)
}

/// `h` is a `Content-Length` header line.
pub open spec fn is_content_length_header(h: Seq<char>) -> bool {
    h.len() >= 16 && h.subrange(0, 16) == "Content-Length: "@
}

/// `r` is the response with this status, these headers and this body; status
/// and headers are single non-empty lines (so the first blank line ends the
/// headers), and every `Content-Length` header gives the body's length.
pub open spec fn framed_as(r: Seq<char>, status: Seq<char>, headers: Seq<Seq<char>>, body: Seq<char>) -> bool {
    &&& r == http_response(status, headers, body)
    &&& is_line(status)
    &&& forall|i: int| 0 <= i < headers.len() ==> (#[trigger] headers[i]).len() > 0 && is_line(headers[i])
    &&& forall|i: int|
        0 <= i < headers.len() && is_content_length_header(#[trigger] headers[i]) ==> headers[i]
            == content_length_header(body.len())
}

/// `r` is a well-formed HTTP/1.1 response whose `Content-Length`, where it
/// has one, is the length of its body.
pub open spec fn well_framed(r: Seq<char>) -> bool {
    exists|status: Seq<char>, headers: Seq<Seq<char>>, body: Seq<char>|
        #[trigger] framed_as(r, status, headers, body)
}

/// The answer to a non-GET request is well framed.
proof fn lemma_framed_405()
    ensures
        well_framed(RESPONSE_METHOD_NOT_ALLOWED@),
{
    reveal_strlit("HTTP/1.1 405 Method Not Allowed\r\nContent-Length: 0\r\n\r\n");
    reveal_strlit("HTTP/1.1 ");
    reveal_strlit("405 Method Not Allowed");
    reveal_strlit("\r\n");
    reveal_strlit("Content-Length: 0");
    reveal_strlit("Content-Length: ");
    reveal_strlit("");
    let status = "405 Method Not Allowed"@;
    let headers = seq!["Content-Length: 0"@];
    let body = ""@;
    reveal_with_fuel(header_block, 2);
    assert(header_block(headers) =~= "Content-Length: 0"@ + "\r\n"@);
    assert(RESPONSE_METHOD_NOT_ALLOWED@ =~= http_response(status, headers, body));
    assert(decimal_digits(0) == seq![48u8]);
    assert(content_length_header(0) =~= "Content-Length: 0"@);
    assert(framed_as(RESPONSE_METHOD_NOT_ALLOWED@, status, headers, body));
}
/// A response that starts with a status line and one header line that is not
/// a `Content-Length`, then a blank line, is well framed whatever follows.
proof fn lemma_framed_one_header(r: Seq<char>, status: Seq<char>, header: Seq<char>)
    requires
        is_line(status),
        header.len() > 0,
        is_line(header),
        !is_content_length_header(header),
        r.len() >= 9 + status.len() + 2 + header.len() + 4,
        r.subrange(0, (9 + status.len() + 2 + header.len() + 4) as int) == "HTTP/1.1 "@ + status + "\r\n"@
            + header + "\r\n"@ + "\r\n"@,
    ensures
        well_framed(r),
{
    reveal_strlit("HTTP/1.1 ");
    reveal_strlit("\r\n");
    let k = (9 + status.len() + 2 + header.len() + 4) as int;
    let headers = seq![header];
    let body = r.subrange(k, r.len() as int);
    reveal_with_fuel(header_block, 2);
    assert(header_block(headers) =~= header + "\r\n"@);
    assert(r =~= r.subrange(0, k) + body);
    assert(r =~= http_response(status, headers, body));
    assert(framed_as(r, status, headers, body));
}

/// The web page answer is well framed.
proof fn lemma_framed_index()
    ensures
        well_framed(INDEX_PAGE@),
{
    // The characters of a string constant are revealed from its literal, so
    // the page text is repeated here exactly as in `INDEX_PAGE`.
    reveal_strlit("HTTP/1.1 200 OK\r\n\
        Content-Type: text/html\r\n\r\n\
        <!DOCTYPE html><html><head><title>STM32 LED Control</title>\
        <style>body{font-family:Arial;margin:40px;background:#f0f0f0}\
        .container{background:white;padding:30px;border-radius:10px;box-shadow:0 2px 10px rgba(0,0,0,0.1)}\
        h1{color:#333;text-align:center}\
        .led{margin:20px 0;padding:15px;border:2px solid #ddd;border-radius:5px}\
        .btn{padding:10px 20px;margin:5px;border:none;border-radius:5px;cursor:pointer;font-size:16px}\
        .btn-on{background:#4CAF50;color:white}.btn-off{background:#f44336;color:white}\
        .btn-toggle{background:#2196F3;color:white;width:100%;padding:15px;font-size:18px}\
        .status{display:inline-block;width:20px;height:20px;border-radius:50%;margin-left:10px}\
        .status-on{background:#4CAF50}.status-off{background:#ccc}\
        </style></head><body>\
        <div class='container'><h1>🎮 STM32 LED Controller</h1>\
        <div class='led'>🔵 <b>Blue LED</b> <span class='status status-off' id='blue'></span>\
        <button class='btn btn-on' onclick=\"fetch('/led/blue/on').then(()=>location.reload())\">ON</button>\
        <button class='btn btn-off' onclick=\"fetch('/led/blue/off').then(()=>location.reload())\">OFF</button></div>\
        <div class='led'>🟢 <b>Green LED</b> <span class='status status-off' id='green'></span>\
        <button class='btn btn-on' onclick=\"fetch('/led/green/on').then(()=>location.reload())\">ON</button>\
        <button class='btn btn-off' onclick=\"fetch('/led/green/off').then(()=>location.reload())\">OFF</button></div>\
        <div class='led'>🔴 <b>Red LED</b> <span class='status status-off' id='red'></span>\
        <button class='btn btn-on' onclick=\"fetch('/led/red/on').then(()=>location.reload())\">ON</button>\
        <button class='btn btn-off' onclick=\"fetch('/led/red/off').then(()=>location.reload())\">OFF</button></div>\
        <button class='btn btn-toggle' onclick=\"fetch('/led/toggle').then(()=>location.reload())\">⚡ Toggle All LEDs</button>\
        <p style='text-align:center;color:#666;margin-top:30px'>STM32F439ZI @ 192.168.1.100</p>\
        </div></body></html>");
    reveal_strlit("HTTP/1.1 ");
    reveal_strlit("\r\n");
    reveal_strlit("200 OK");
    reveal_strlit("Content-Type: text/html");
    reveal_strlit("Content-Length: ");
    let status = "200 OK"@;
    let header = "Content-Type: text/html"@;
    assert(header.subrange(0, 16)[8] != "Content-Length: "@[8]);
    assert(INDEX_PAGE@.subrange(0, 44) =~= "HTTP/1.1 "@ + status + "\r\n"@ + header + "\r\n"@
        + "\r\n"@);
    lemma_framed_one_header(INDEX_PAGE@, status, header);
}
/// The answer to an LED command is well framed.
proof fn lemma_framed_ok()
    ensures
        well_framed(RESPONSE_OK@),
{
    reveal_strlit("HTTP/1.1 200 OK\r\nContent-Length: 2\r\n\r\nOK");
    reveal_strlit("HTTP/1.1 ");
    reveal_strlit("200 OK");
    reveal_strlit("\r\n");
    reveal_strlit("Content-Length: 2");
    reveal_strlit("Content-Length: ");
    reveal_strlit("OK");
    let status = "200 OK"@;
    let headers = seq!["Content-Length: 2"@];
    let body = "OK"@;
    reveal_with_fuel(header_block, 2);
    assert(header_block(headers) =~= "Content-Length: 2"@ + "\r\n"@);
    assert(RESPONSE_OK@ =~= http_response(status, headers, body));
    assert(decimal_digits(2) == seq![50u8]);
    assert(content_length_header(2) =~= "Content-Length: 2"@);
    assert(framed_as(RESPONSE_OK@, status, headers, body));
}

/// The answer to an unknown path is well framed.
proof fn lemma_framed_404()
    ensures
        well_framed(RESPONSE_NOT_FOUND@),
{
    reveal_strlit("HTTP/1.1 404 Not Found\r\nContent-Length: 9\r\n\r\nNot Found");
    reveal_strlit("HTTP/1.1 ");
    reveal_strlit("404 Not Found");
    reveal_strlit("\r\n");
    reveal_strlit("Content-Length: 9");
    reveal_strlit("Content-Length: ");
    reveal_strlit("Not Found");
    let status = "404 Not Found"@;
    let headers = seq!["Content-Length: 9"@];
    let body = "Not Found"@;
    reveal_with_fuel(header_block, 2);
    assert(header_block(headers) =~= "Content-Length: 9"@ + "\r\n"@);
    assert(RESPONSE_NOT_FOUND@ =~= http_response(status, headers, body));
    assert(decimal_digits(9) == seq![57u8]);
    assert(content_length_header(9) =~= "Content-Length: 9"@);
    assert(framed_as(RESPONSE_NOT_FOUND@, status, headers, body));
}

/// A JSON answer: status `200 OK`, one `Content-Type` header, then the body.
proof fn lemma_framed_json(r: Seq<char>)
    requires
        r.len() >= 51,
        r.subrange(0, 51) == "HTTP/1.1 200 OK\r\nContent-Type: application/json\r\n\r\n"@,
    ensures
        well_framed(r),
{
    reveal_strlit("HTTP/1.1 200 OK\r\nContent-Type: application/json\r\n\r\n");
    reveal_strlit("HTTP/1.1 ");
    reveal_strlit("\r\n");
    reveal_strlit("200 OK");
    reveal_strlit("Content-Type: application/json");
    reveal_strlit("Content-Length: ");
    let status = "200 OK"@;
    let header = "Content-Type: application/json"@;
    assert(header.subrange(0, 16)[8] != "Content-Length: "@[8]);
    assert(r.subrange(0, 51) =~= "HTTP/1.1 "@ + status + "\r\n"@ + header + "\r\n"@ + "\r\n"@);
    lemma_framed_one_header(r, status, header);
}

/// Every status answer is well framed.
proof fn lemma_framed_status(blue: bool, green: bool, red: bool)
    ensures
        well_framed(spec_status_response(blue, green, red)),
{
    reveal_strlit("HTTP/1.1 200 OK\r\nContent-Type: application/json\r\n\r\n");
    reveal_strlit("HTTP/1.1 200 OK\r\nContent-Type: application/json\r\n\r\n{\"blue\":true,\"green\":true,\"red\":true}");
    reveal_strlit("HTTP/1.1 200 OK\r\nContent-Type: application/json\r\n\r\n{\"blue\":true,\"green\":true,\"red\":false}");
    reveal_strlit("HTTP/1.1 200 OK\r\nContent-Type: application/json\r\n\r\n{\"blue\":true,\"green\":false,\"red\":true}");
    reveal_strlit("HTTP/1.1 200 OK\r\nContent-Type: application/json\r\n\r\n{\"blue\":true,\"green\":false,\"red\":false}");
    reveal_strlit("HTTP/1.1 200 OK\r\nContent-Type: application/json\r\n\r\n{\"blue\":false,\"green\":true,\"red\":true}");
    reveal_strlit("HTTP/1.1 200 OK\r\nContent-Type: application/json\r\n\r\n{\"blue\":false,\"green\":true,\"red\":false}");
    reveal_strlit("HTTP/1.1 200 OK\r\nContent-Type: application/json\r\n\r\n{\"blue\":false,\"green\":false,\"red\":true}");
    reveal_strlit("HTTP/1.1 200 OK\r\nContent-Type: application/json\r\n\r\n{\"blue\":false,\"green\":false,\"red\":false}");
    let r = spec_status_response(blue, green, red);
    assert(r.subrange(0, 51) =~= "HTTP/1.1 200 OK\r\nContent-Type: application/json\r\n\r\n"@);
    lemma_framed_json(r);
}

/// The answer to a request with the given route when the LED record holds
/// `bits` (the response part of [`handle_request`]).
pub open spec fn spec_response(route: Route, bits: u32) -> Seq<char> {
    match route {
        Route::MethodNotAllowed => RESPONSE_METHOD_NOT_ALLOWED@,
        Route::Index => INDEX_PAGE@,
        Route::Led(_, _) => RESPONSE_OK@,
        Route::ToggleAll => RESPONSE_OK@,
        Route::Status => spec_status_response(
            spec_led_get(bits, LED_BLUE),
            spec_led_get(bits, LED_GREEN),
            spec_led_get(bits, LED_RED),
        ),
        Route::NotFound => RESPONSE_NOT_FOUND@,
    }
}

/// Every answer of the server is a well-formed HTTP/1.1 response: a status
/// line, header lines and a blank line before the body, and a
/// `Content-Length` header, where there is one, giving the body's length.
pub proof fn lemma_responses_well_framed(route: Route, bits: u32)
    ensures
        well_framed(spec_response(route, bits)),
{
    match route {
        Route::MethodNotAllowed => lemma_framed_405(),
        Route::Index => lemma_framed_index(),
        Route::Led(_, _) => lemma_framed_ok(),
        Route::ToggleAll => lemma_framed_ok(),
        Route::Status => lemma_framed_status(
            spec_led_get(bits, LED_BLUE),
            spec_led_get(bits, LED_GREEN),
            spec_led_get(bits, LED_RED),
        ),
        Route::NotFound => lemma_framed_404(),
    }
}
/// `r` has the four characters CR LF CR LF (an empty line) at position `i`.
pub open spec fn blank_line_at(r: Seq<char>, i: int) -> bool {
    &&& 0 <= i
    &&& i + 4 <= r.len()
    &&& r[i] == '\r'
    &&& r[i + 1] == '\n'
    &&& r[i + 2] == '\r'
    &&& r[i + 3] == '\n'
}

/// In non-empty lines each followed by CR LF, and a final CR LF, the only
/// empty line is the final one.
proof fn lemma_header_block_blank_line(lines: Seq<Seq<char>>, i: int)
    requires
        forall|j: int| 0 <= j < lines.len() ==> (#[trigger] lines[j]).len() > 0 && is_line(lines[j]),
        blank_line_at(header_block(lines) + "\r\n"@, i),
    ensures
        lines.len() > 0,
        i == header_block(lines).len() - 2,
    decreases lines.len(),
{
    reveal_strlit("\r\n");
    let p = header_block(lines) + "\r\n"@;
    if lines.len() == 0 {
        assert(p =~= "\r\n"@);
    } else {
        let l0 = lines[0];
        let rest = lines.drop_first();
        let q = header_block(rest) + "\r\n"@;
        let n = l0.len() as int;
        assert(p =~= l0 + "\r\n"@ + q);
        if i < n {
            assert(p[i] == l0[i]);
        } else if i == n {
            if rest.len() > 0 {
                assert(rest[0].len() > 0 && is_line(rest[0]));
                reveal_with_fuel(header_block, 1);
                assert(header_block(rest) =~= rest[0] + "\r\n"@ + header_block(rest.drop_first()));
                assert(q[0] == rest[0][0]);
                assert(p[i + 2] == q[0]);
            }
        } else if i == n + 1 {
            assert(p[i] == '\n');
        } else {
            assert forall|j: int| 0 <= j < rest.len() implies (#[trigger] rest[j]).len() > 0
                && is_line(rest[j]) by {
                assert(rest[j] == lines[j + 1]);
            }
            let m = i - n - 2;
            assert(p[i] == q[m] && p[i + 1] == q[m + 1] && p[i + 2] == q[m + 2] && p[i + 3] == q[m
                + 3]);
            lemma_header_block_blank_line(rest, i - n - 2);
        }
    }
}

/// A non-empty header block ends with CR LF.
proof fn lemma_header_block_ends(lines: Seq<Seq<char>>)
    requires
        lines.len() > 0,
    ensures
        header_block(lines).len() >= 2,
        header_block(lines)[header_block(lines).len() - 2] == '\r',
        header_block(lines)[header_block(lines).len() - 1] == '\n',
    decreases lines.len(),
{
    reveal_strlit("\r\n");
    let rest = lines.drop_first();
    if rest.len() > 0 {
        lemma_header_block_ends(rest);
    } else {
        assert(header_block(rest) =~= Seq::<char>::empty());
    }
}

/// A framed response splits at its first empty line: the head before it
/// starts with `HTTP/1.1 `, no empty line comes earlier, and everything after
/// it is the body, whose length every `Content-Length` header gives.
pub proof fn lemma_framed_split(r: Seq<char>, status: Seq<char>, headers: Seq<Seq<char>>, body: Seq<char>)
    requires
        framed_as(r, status, headers, body),
    ensures
        r.len() >= body.len() + 4,
        r.subrange(0, 9) == "HTTP/1.1 "@,
        blank_line_at(r, r.len() - body.len() - 4),
        forall|i: int| 0 <= i < r.len() - body.len() - 4 ==> !#[trigger] blank_line_at(r, i),
        r.subrange(r.len() - body.len(), r.len() as int) == body,
{
    reveal_strlit("HTTP/1.1 ");
    reveal_strlit("\r\n");
    let first = "HTTP/1.1 "@ + status;
    let lines = seq![first] + headers;
    assert(lines.drop_first() =~= headers);
    assert(lines[0] == first);
    reveal_with_fuel(header_block, 1);
    assert(header_block(lines) =~= first + "\r\n"@ + header_block(headers));
    let p = header_block(lines) + "\r\n"@;
    assert(r =~= p + body);
    assert forall|j: int| 0 <= j < lines.len() implies (#[trigger] lines[j]).len() > 0 && is_line(
        lines[j],
    ) by {
        if j == 0 {
            assert forall|k: int| 0 <= k < first.len() implies #[trigger] first[k] != '\r'
                && first[k] != '\n' by {
                if k >= 9 {
                    assert(first[k] == status[k - 9]);
                }
            }
        } else {
            assert(lines[j] == headers[j - 1]);
        }
    }
    let k = p.len() - 4;
    assert(r.subrange(0, 9) =~= "HTTP/1.1 "@);
    assert(blank_line_at(r, k)) by {
        lemma_header_block_ends(lines);
        let hb = header_block(lines);
        assert(p[k] == hb[hb.len() - 2] && p[k + 1] == hb[hb.len() - 1]);
    }
    assert forall|i: int| 0 <= i < k implies !#[trigger] blank_line_at(r, i) by {
        if blank_line_at(r, i) {
            assert(blank_line_at(p, i));
            lemma_header_block_blank_line(lines, i);
        }
    }
    assert(r.subrange(p.len() as int, r.len() as int) =~= body);
}
/// Unicode White_Space code points, the characters `char::is_whitespace`
/// accepts: U+0009..U+000D, U+0020, U+0085, U+00A0, U+1680, U+2000..U+200A,
/// U+2028, U+2029, U+202F, U+205F and U+3000.
pub open spec fn is_unicode_whitespace(c: u32) -> bool {
    ||| 0x09 <= c <= 0x0D
    ||| c == 0x20
    ||| c == 0x85
    ||| c == 0xA0
    ||| c == 0x1680
    ||| 0x2000 <= c <= 0x200A
    ||| c == 0x2028
    ||| c == 0x2029
    ||| c == 0x202F
    ||| c == 0x205F
    ||| c == 0x3000
}

/// The parser splits exactly at Unicode whitespace: where the UTF-8 encoding
/// of a character `c` starts (inside any surrounding bytes, with the line
/// extending at least to its end), a whitespace character is recognised with
/// the width of its encoding exactly when `c` is Unicode whitespace, and
/// nothing is recognised otherwise.
pub proof fn lemma_ws_width_is_unicode_whitespace(pre: Seq<u8>, c: char, post: Seq<u8>, end: int)
    requires
        pre.len() + encode_scalar(c as u32).len() <= end <= pre.len() + encode_scalar(c as u32).len()
            + post.len(),
    ensures
        ws_width(pre + encode_scalar(c as u32) + post, pre.len() as int, end) == if is_unicode_whitespace(
            c as u32,
        ) {
            encode_scalar(c as u32).len() as int
        } else {
            0
        },
{
    let v = c as u32;
    let e = encode_scalar(v);
    let b = pre + e + post;
    let i = pre.len() as int;
    assert(is_scalar(v));
    assert(b[i] == e[0]);
    if has_width_1_encoding(v) {
        let b0 = leading_byte_width_1(v);
        assert(b0 == v && b0 < 0x80) by (bit_vector)
            requires
                v <= 0x7F,
                b0 == (v & 0x7F) as u8,
        ;
    } else if has_width_2_encoding(v) {
        let b0 = leading_byte_width_2(v);
        let b1 = last_continuation_byte(v);
        assert(b[i + 1] == e[1]);
        assert(0xC0 <= b0 <= 0xDF && ((b0 == 0xC2 && (b1 == 0x85 || b1 == 0xA0)) <==> (v == 0x85
            || v == 0xA0))) by (bit_vector)
            requires
                0x80 <= v <= 0x7FF,
                b0 == 0xC0 | ((v >> 6) & 0x1F) as u8,
                b1 == 0x80 | (v & 0x3F) as u8,
        ;
    } else if has_width_3_encoding(v) {
        let b0 = leading_byte_width_3(v);
        let b1 = second_last_continuation_byte(v);
        let b2 = last_continuation_byte(v);
        assert(b[i + 1] == e[1]);
        assert(b[i + 2] == e[2]);
        assert(0xE0 <= b0 <= 0xEF && (is_three_byte_space(b0, b1, b2) <==> (v == 0x1680 || (0x2000
            <= v <= 0x200A) || v == 0x2028 || v == 0x2029 || v == 0x202F || v == 0x205F || v
            == 0x3000))) by (bit_vector)
            requires
                0x800 <= v <= 0xFFFF,
                b0 == 0xE0 | ((v >> 12) & 0x0F) as u8,
                b1 == 0x80 | ((v >> 6) & 0x3F) as u8,
                b2 == 0x80 | (v & 0x3F) as u8,
        ;
    } else {
        let b0 = leading_byte_width_4(v);
        assert(b0 >= 0xF0) by (bit_vector)
            requires
                b0 == 0xF0 | ((v >> 18) & 0x7) as u8,
        ;
    }
}
/// Only GET requests do anything: every other method is refused with the 405
/// answer, leaving the output register and the LED record as they were; and a
/// GET request is never refused for its method.
pub proof fn lemma_only_get_is_served(method: Seq<char>, path: Seq<char>, bits: u32)
    ensures
        method != "GET"@ ==> spec_route(method, path) == Route::MethodNotAllowed,
        method != "GET"@ ==> spec_response(spec_route(method, path), bits)
            == RESPONSE_METHOD_NOT_ALLOWED@,
        method == "GET"@ ==> spec_route(method, path) != Route::MethodNotAllowed,
{
}

/// The LED commands a GET request can carry: a route that switches an LED
/// comes only from `/led/<colour>/<on|off>` naming that LED and state, and
/// toggling all LEDs only from `/led/toggle`.
pub proof fn lemma_led_routes(method: Seq<char>, path: Seq<char>)
    ensures
        spec_route(method, path) == Route::Led(LED_BLUE, true) <==> (method == "GET"@ && path
            == "/led/blue/on"@),
        spec_route(method, path) == Route::Led(LED_BLUE, false) <==> (method == "GET"@ && path
            == "/led/blue/off"@),
        spec_route(method, path) == Route::Led(LED_GREEN, true) <==> (method == "GET"@ && path
            == "/led/green/on"@),
        spec_route(method, path) == Route::Led(LED_GREEN, false) <==> (method == "GET"@ && path
            == "/led/green/off"@),
        spec_route(method, path) == Route::Led(LED_RED, true) <==> (method == "GET"@ && path
            == "/led/red/on"@),
        spec_route(method, path) == Route::Led(LED_RED, false) <==> (method == "GET"@ && path
            == "/led/red/off"@),
        spec_route(method, path) == Route::ToggleAll <==> (method == "GET"@ && path
            == "/led/toggle"@),
        spec_route(method, path) == Route::Status <==> (method == "GET"@ && path
            == "/api/status"@),
        spec_route(method, path) == Route::Index <==> (method == "GET"@ && path == "/"@),
{
    reveal_strlit("/");
    reveal_strlit("/led/blue/on");
    reveal_strlit("/led/blue/off");
    reveal_strlit("/led/green/on");
    reveal_strlit("/led/green/off");
    reveal_strlit("/led/red/on");
    reveal_strlit("/led/red/off");
    reveal_strlit("/led/toggle");
    reveal_strlit("/api/status");
    // The paths are pairwise different.
    assert("/"@.len() != "/led/blue/on"@.len());
    assert("/"@.len() != "/led/blue/off"@.len());
    assert("/"@.len() != "/led/green/on"@.len());
    assert("/"@.len() != "/led/green/off"@.len());
    assert("/"@.len() != "/led/red/on"@.len());
    assert("/"@.len() != "/led/red/off"@.len());
    assert("/"@.len() != "/led/toggle"@.len());
    assert("/"@.len() != "/api/status"@.len());
    assert("/led/blue/on"@.len() != "/led/blue/off"@.len());
    assert("/led/blue/on"@.len() != "/led/green/on"@.len());
    assert("/led/blue/on"@.len() != "/led/green/off"@.len());
    assert("/led/blue/on"@.len() != "/led/red/on"@.len());
    assert("/led/blue/on"@[5] != "/led/red/off"@[5]);
    assert("/led/blue/on"@.len() != "/led/toggle"@.len());
    assert("/led/blue/on"@.len() != "/api/status"@.len());
    assert("/led/blue/off"@[5] != "/led/green/on"@[5]);
    assert("/led/blue/off"@.len() != "/led/green/off"@.len());
    assert("/led/blue/off"@.len() != "/led/red/on"@.len());
    assert("/led/blue/off"@.len() != "/led/red/off"@.len());
    assert("/led/blue/off"@.len() != "/led/toggle"@.len());
    assert("/led/blue/off"@.len() != "/api/status"@.len());
    assert("/led/green/on"@.len() != "/led/green/off"@.len());
    assert("/led/green/on"@.len() != "/led/red/on"@.len());
    assert("/led/green/on"@.len() != "/led/red/off"@.len());
    assert("/led/green/on"@.len() != "/led/toggle"@.len());
    assert("/led/green/on"@.len() != "/api/status"@.len());
    assert("/led/green/off"@.len() != "/led/red/on"@.len());
    assert("/led/green/off"@.len() != "/led/red/off"@.len());
    assert("/led/green/off"@.len() != "/led/toggle"@.len());
    assert("/led/green/off"@.len() != "/api/status"@.len());
    assert("/led/red/on"@.len() != "/led/red/off"@.len());
    assert("/led/red/on"@[5] != "/led/toggle"@[5]);
    assert("/led/red/on"@[1] != "/api/status"@[1]);
    assert("/led/red/off"@.len() != "/led/toggle"@.len());
    assert("/led/red/off"@.len() != "/api/status"@.len());
    assert("/led/toggle"@[1] != "/api/status"@[1]);
}
/// The UTF-8 encoding of two strings one after the other.
proof fn lemma_encode_concat(a: Seq<char>, b: Seq<char>)
    ensures
        encode_utf8(a + b) == encode_utf8(a) + encode_utf8(b),
    decreases a.len(),
{
    if a.len() == 0 {
        assert(a + b =~= b);
        assert(encode_utf8(a) + encode_utf8(b) =~= encode_utf8(b));
    } else {
        assert((a + b).drop_first() =~= a.drop_first() + b);
        assert((a + b)[0] == a[0]);
        lemma_encode_concat(a.drop_first(), b);
        assert(encode_utf8(a + b) =~= encode_scalar(a[0] as u32) + encode_utf8(a.drop_first())
            + encode_utf8(b));
    }
}

/// The bytes of one character's encoding: a single byte equal to the code
/// point, or a lead byte of at least 0xC0 followed by continuation bytes
/// 0x80..=0xBF.
proof fn lemma_scalar_bytes(c: char)
    ensures
        1 <= encode_scalar(c as u32).len() <= 4,
        encode_scalar(c as u32).len() == 1 ==> encode_scalar(c as u32)[0] == c as u32,
        encode_scalar(c as u32).len() > 1 ==> encode_scalar(c as u32)[0] >= 0xC0,
        forall|k: int|
            1 <= k < encode_scalar(c as u32).len() ==> 0x80 <= #[trigger] encode_scalar(
                c as u32,
            )[k] <= 0xBF,
{
    let v = c as u32;
    assert(is_scalar(v));
    let b0 = (v & 0x7F) as u8;
    let l2 = 0xC0 | ((v >> 6) & 0x1F) as u8;
    let l3 = 0xE0 | ((v >> 12) & 0x0F) as u8;
    let l4 = 0xF0 | ((v >> 18) & 0x7) as u8;
    let c1 = 0x80 | (v & 0x3F) as u8;
    let c2 = 0x80 | ((v >> 6) & 0x3F) as u8;
    let c3 = 0x80 | ((v >> 12) & 0x3F) as u8;
    assert(v <= 0x7F ==> b0 == v) by (bit_vector)
        requires
            b0 == (v & 0x7F) as u8,
    ;
    assert(l2 >= 0xC0 && l3 >= 0xC0 && l4 >= 0xC0) by (bit_vector)
        requires
            l2 == 0xC0 | ((v >> 6) & 0x1F) as u8,
            l3 == 0xE0 | ((v >> 12) & 0x0F) as u8,
            l4 == 0xF0 | ((v >> 18) & 0x7) as u8,
    ;
    assert(0x80 <= c1 <= 0xBF && 0x80 <= c2 <= 0xBF && 0x80 <= c3 <= 0xBF) by (bit_vector)
        requires
            c1 == 0x80 | (v & 0x3F) as u8,
            c2 == 0x80 | ((v >> 6) & 0x3F) as u8,
            c3 == 0x80 | ((v >> 12) & 0x3F) as u8,
    ;
}

/// A string without line feeds encodes to bytes without line feeds.
proof fn lemma_encode_no_lf(s: Seq<char>)
    requires
        forall|j: int| 0 <= j < s.len() ==> s[j] != '\n',
    ensures
        forall|k: int| 0 <= k < encode_utf8(s).len() ==> #[trigger] encode_utf8(s)[k] != 0x0A,
    decreases s.len(),
{
    if s.len() > 0 {
        let e = encode_scalar(s[0] as u32);
        let rest = s.drop_first();
        lemma_scalar_bytes(s[0]);
        lemma_encode_no_lf(rest);
        assert(s[0] as u32 != 10) by {
            if s[0] as u32 == 10 {
                assert('\n' as u32 == 10);
                char_u32_cast(s[0], 10);
                char_u32_cast('\n', 10);
            }
        }
        assert forall|k: int| 0 <= k < encode_utf8(s).len() implies #[trigger] encode_utf8(s)[k]
            != 0x0A by {
            if k < e.len() {
                assert(encode_utf8(s)[k] == e[k]);
            } else {
                assert(encode_utf8(s)[k] == encode_utf8(rest)[k - e.len()]);
            }
        }
    }
}

/// `b` holds the encoding of `s` from position `i` on.
pub open spec fn encodes_at(b: Seq<u8>, i: int, s: Seq<char>) -> bool {
    &&& 0 <= i
    &&& i + encode_utf8(s).len() <= b.len()
    &&& b.subrange(i, i + encode_utf8(s).len()) == encode_utf8(s)
}

/// The encoding of `s` at `i` continues with the encoding of its tail.
proof fn lemma_encodes_at_tail(b: Seq<u8>, i: int, s: Seq<char>)
    requires
        encodes_at(b, i, s),
        s.len() > 0,
    ensures
        b =~= b.subrange(0, i) + encode_scalar(s[0] as u32) + b.subrange(
            i + encode_scalar(s[0] as u32).len(),
            b.len() as int,
        ),
        encodes_at(b, i + encode_scalar(s[0] as u32).len(), s.drop_first()),
        encode_utf8(s).len() == encode_scalar(s[0] as u32).len() + encode_utf8(s.drop_first()).len(),
{
    let e = encode_scalar(s[0] as u32);
    let n = e.len() as int;
    let t = encode_utf8(s.drop_first());
    assert(encode_utf8(s) == e + t);
    assert forall|k: int| 0 <= k < n implies b[i + k] == e[k] by {
        assert(b.subrange(i, i + encode_utf8(s).len())[k] == encode_utf8(s)[k]);
    }
    assert(b.subrange(i + n, i + n + t.len()) =~= t) by {
        assert forall|k: int| 0 <= k < t.len() implies b[i + n + k] == t[k] by {
            assert(b.subrange(i, i + encode_utf8(s).len())[n + k] == encode_utf8(s)[n + k]);
        }
    }
}

/// Scanning over a run of whitespace characters skips all of them.
proof fn lemma_skip_ws_run(b: Seq<u8>, i: int, e: int, ws: Seq<char>)
    requires
        encodes_at(b, i, ws),
        i + encode_utf8(ws).len() <= e <= b.len(),
        forall|j: int| 0 <= j < ws.len() ==> is_unicode_whitespace(#[trigger] ws[j] as u32),
    ensures
        skip_ws(b, i, e) == skip_ws(b, i + encode_utf8(ws).len(), e),
    decreases ws.len(),
{
    if ws.len() > 0 {
        let c = ws[0];
        let n = encode_scalar(c as u32).len() as int;
        lemma_encodes_at_tail(b, i, ws);
        lemma_ws_width_is_unicode_whitespace(
            b.subrange(0, i),
            c,
            b.subrange(i + n, b.len() as int),
            e,
        );
        assert(ws_width(b, i, e) == n);
        assert(is_unicode_whitespace(ws[0] as u32));
        assert forall|j: int| 0 <= j < ws.drop_first().len() implies is_unicode_whitespace(
            #[trigger] ws.drop_first()[j] as u32,
        ) by {
            assert(ws.drop_first()[j] == ws[j + 1]);
        }
        lemma_skip_ws_run(b, i + n, e, ws.drop_first());
    }
}

/// Inside the encoding of a string without whitespace no whitespace
/// character starts and there is no line feed.
proof fn lemma_word_run(b: Seq<u8>, i: int, e: int, w: Seq<char>)
    requires
        encodes_at(b, i, w),
        i + encode_utf8(w).len() <= e <= b.len(),
        forall|j: int| 0 <= j < w.len() ==> !is_unicode_whitespace(#[trigger] w[j] as u32),
    ensures
        forall|k: int| i <= k < i + encode_utf8(w).len() ==> #[trigger] ws_width(b, k, e) == 0 && b[k]
            != 0x0A,
    decreases w.len(),
{
    if w.len() > 0 {
        let c = w[0];
        let ce = encode_scalar(c as u32);
        let n = ce.len() as int;
        lemma_encodes_at_tail(b, i, w);
        lemma_scalar_bytes(c);
        assert(!is_unicode_whitespace(w[0] as u32));
        lemma_ws_width_is_unicode_whitespace(
            b.subrange(0, i),
            c,
            b.subrange(i + n, b.len() as int),
            e,
        );
        assert forall|j: int| 0 <= j < w.drop_first().len() implies !is_unicode_whitespace(
            #[trigger] w.drop_first()[j] as u32,
        ) by {
            assert(w.drop_first()[j] == w[j + 1]);
        }
        lemma_word_run(b, i + n, e, w.drop_first());
        assert forall|k: int| i <= k < i + encode_utf8(w).len() implies #[trigger] ws_width(b, k, e)
            == 0 && b[k] != 0x0A by {
            if k == i {
                assert(b[i] == ce[0]);
            } else if k < i + n {
                assert(b[k] == ce[k - i]);
                assert(0x80 <= ce[k - i] <= 0xBF);
            } else {
                assert(i + n <= k < i + n + encode_utf8(w.drop_first()).len());
            }
        }
    }
}
/// Every character of `s` is Unicode whitespace.
pub open spec fn all_whitespace(s: Seq<char>) -> bool {
    forall|j: int| 0 <= j < s.len() ==> is_unicode_whitespace(#[trigger] s[j] as u32)
}

/// No character of `s` is Unicode whitespace.
pub open spec fn no_whitespace(s: Seq<char>) -> bool {
    forall|j: int| 0 <= j < s.len() ==> !is_unicode_whitespace(#[trigger] s[j] as u32)
}

/// `s` holds no line feed.
pub open spec fn no_line_feed(s: Seq<char>) -> bool {
    forall|j: int| 0 <= j < s.len() ==> #[trigger] s[j] != '\n'
}

/// A string without whitespace has no line feed.
proof fn lemma_no_whitespace_no_lf(s: Seq<char>)
    requires
        no_whitespace(s),
    ensures
        no_line_feed(s),
{
    assert forall|j: int| 0 <= j < s.len() implies #[trigger] s[j] != '\n' by {
        assert('\n' as u32 == 10);
        assert(!is_unicode_whitespace(s[j] as u32));
    }
}

/// A non-empty string encodes to at least one byte.
proof fn lemma_encode_nonempty(s: Seq<char>)
    requires
        s.len() > 0,
    ensures
        encode_utf8(s).len() > 0,
{
    lemma_scalar_bytes(s[0]);
}

/// The first line of `b` ends at its first line feed, or at its end when it
/// has none.
pub proof fn lemma_line_end_at(b: Seq<u8>, l: int)
    requires
        0 <= l <= b.len(),
        forall|k: int| 0 <= k < l ==> b[k] != 0x0A,
        l == b.len() || b[l] == 0x0A,
    ensures
        line_end(b, 0) == l,
{
    lemma_line_end_skip(b, 0, l);
}

/// The method and the path are the first two words of the first line, where
/// words are separated by runs of Unicode whitespace: a line made of optional
/// leading whitespace, a word, whitespace, a second word and then whitespace
/// or nothing gives exactly those two words, whatever follows.
#[verifier::rlimit(50)]
pub proof fn lemma_request_line_words(
    sep0: Seq<char>,
    m: Seq<char>,
    sep1: Seq<char>,
    p: Seq<char>,
    rest: Seq<char>,
)
    requires
        all_whitespace(sep0),
        no_line_feed(sep0),
        m.len() > 0,
        no_whitespace(m),
        sep1.len() > 0,
        all_whitespace(sep1),
        no_line_feed(sep1),
        p.len() > 0,
        no_whitespace(p),
        rest.len() == 0 || is_unicode_whitespace(rest[0] as u32),
    ensures
        request_line(encode_utf8(sep0 + m + sep1 + p + rest)) == Some(
            (encode_utf8(m), encode_utf8(p)),
        ),
{
    let e0 = encode_utf8(sep0);
    let em = encode_utf8(m);
    let e1 = encode_utf8(sep1);
    let ep = encode_utf8(p);
    let er = encode_utf8(rest);
    lemma_encode_concat(sep0, m);
    lemma_encode_concat(sep0 + m, sep1);
    lemma_encode_concat(sep0 + m + sep1, p);
    lemma_encode_concat(sep0 + m + sep1 + p, rest);
    let b = encode_utf8(sep0 + m + sep1 + p + rest);
    assert(b == e0 + em + e1 + ep + er);
    let a1 = e0.len() as int;
    let a2 = a1 + em.len();
    let a3 = a2 + e1.len();
    let l = a3 + ep.len();
    assert(b.subrange(0, a1) =~= e0);
    assert(b.subrange(a1, a2) =~= em);
    assert(b.subrange(a2, a3) =~= e1);
    assert(b.subrange(a3, l) =~= ep);
    assert(b.subrange(l, b.len() as int) =~= er);
    lemma_encode_nonempty(m);
    lemma_encode_nonempty(p);
    lemma_encode_nonempty(sep1);
    // No line feed before the end of the second word.
    lemma_encode_no_lf(sep0);
    lemma_encode_no_lf(sep1);
    lemma_word_run(b, a1, b.len() as int, m);
    lemma_word_run(b, a3, b.len() as int, p);
    assert forall|k: int| 0 <= k < l implies b[k] != 0x0A by {
        if k < a1 {
            assert(b[k] == e0[k]);
        } else if k < a2 {
            assert(ws_width(b, k, b.len() as int) == 0);
        } else if k < a3 {
            assert(b[k] == e1[k - a2]);
        } else {
            assert(ws_width(b, k, b.len() as int) == 0);
        }
    }
    lemma_line_end_skip(b, 0, l);
    lemma_line_end_bounds(b, l);
    let e = line_end(b, 0);
    // The second word is followed by whitespace or by the end of the line.
    if rest.len() > 0 {
        let c = rest[0];
        let n = encode_scalar(c as u32).len() as int;
        lemma_encodes_at_tail(b, l, rest);
        lemma_scalar_bytes(c);
        if c == '\n' {
            assert(b[l] == encode_scalar(c as u32)[0]);
            assert('\n' as u32 == 10);
            assert(e == l);
        } else {
            assert forall|k: int| l <= k < l + n implies b[k] != 0x0A by {
                assert(b[k] == encode_scalar(c as u32)[k - l]);
                if k == l && n == 1 {
                    assert(c as u32 != 10) by {
                        if c as u32 == 10 {
                            assert('\n' as u32 == 10);
                            char_u32_cast(c, 10);
                            char_u32_cast('\n', 10);
                        }
                    }
                }
            }
            lemma_line_end_skip(b, l, l + n);
            lemma_line_end_bounds(b, l + n);
            lemma_ws_width_is_unicode_whitespace(
                b.subrange(0, l),
                c,
                b.subrange(l + n, b.len() as int),
                e,
            );
        }
    } else {
        assert(e == l);
    }
    assert(l == e || ws_width(b, l, e) > 0);
    // The separator starts with whitespace.
    lemma_encodes_at_tail(b, a2, sep1);
    lemma_ws_width_is_unicode_whitespace(
        b.subrange(0, a2),
        sep1[0],
        b.subrange(a2 + encode_scalar(sep1[0] as u32).len(), b.len() as int),
        e,
    );
    assert(ws_width(b, a2, e) > 0);
    // Both words read the same within the first line.
    lemma_word_run(b, a1, e, m);
    lemma_word_run(b, a3, e, p);
    lemma_skip_ws_run(b, 0, e, sep0);
    assert(ws_width(b, a1, e) == 0);
    assert(skip_ws(b, 0, e) == a1);
    lemma_token_end(b, a1, a2, e);
    lemma_skip_ws_run(b, a2, e, sep1);
    assert(ws_width(b, a3, e) == 0);
    assert(skip_ws(b, a2, e) == a3);
    lemma_token_end(b, a3, l, e);
}

/// A first line with fewer than two words gives no method and path.
pub proof fn lemma_request_line_one_word(sep0: Seq<char>, m: Seq<char>, sep1: Seq<char>, tail: Seq<u8>)
    requires
        all_whitespace(sep0),
        no_line_feed(sep0),
        no_whitespace(m),
        all_whitespace(sep1),
        no_line_feed(sep1),
        tail.len() == 0 || tail[0] == 0x0A,
    ensures
        request_line(encode_utf8(sep0 + m + sep1) + tail) is None,
{
    let e0 = encode_utf8(sep0);
    let em = encode_utf8(m);
    let e1 = encode_utf8(sep1);
    lemma_encode_concat(sep0, m);
    lemma_encode_concat(sep0 + m, sep1);
    let b = encode_utf8(sep0 + m + sep1) + tail;
    assert(b == e0 + em + e1 + tail);
    let a1 = e0.len() as int;
    let a2 = a1 + em.len();
    let l = a2 + e1.len();
    assert(b.subrange(0, a1) =~= e0);
    assert(b.subrange(a1, a2) =~= em);
    assert(b.subrange(a2, l) =~= e1);
    lemma_encode_no_lf(sep0);
    lemma_encode_no_lf(sep1);
    lemma_word_run(b, a1, b.len() as int, m);
    assert forall|k: int| 0 <= k < l implies b[k] != 0x0A by {
        if k < a1 {
            assert(b[k] == e0[k]);
        } else if k < a2 {
            assert(ws_width(b, k, b.len() as int) == 0);
        } else {
            assert(b[k] == e1[k - a2]);
        }
    }
    if l < b.len() {
        assert(b[l] == tail[0]);
    }
    lemma_line_end_at(b, l);
    let e = l;
    assert(skip_ws(b, e, e) == e);
    lemma_skip_ws_run(b, a2, e, sep1);
    if m.len() == 0 {
        assert(em.len() == 0);
        lemma_skip_ws_run(b, 0, e, sep0);
        assert(skip_ws(b, 0, e) == e);
    } else {
        lemma_encode_nonempty(m);
        lemma_word_run(b, a1, e, m);
        lemma_skip_ws_run(b, 0, e, sep0);
        assert(ws_width(b, a1, e) == 0);
        assert(skip_ws(b, 0, e) == a1);
        if sep1.len() > 0 {
            lemma_encodes_at_tail(b, a2, sep1);
            lemma_ws_width_is_unicode_whitespace(
                b.subrange(0, a2),
                sep1[0],
                b.subrange(a2 + encode_scalar(sep1[0] as u32).len(), b.len() as int),
                e,
            );
        }
        lemma_token_end(b, a1, a2, e);
    }
}
/// `true` or `false` as JSON text.
pub open spec fn json_bool(b: bool) -> Seq<char> {
    if b {
        "true"@
    } else {
        "false"@
    }
}

/// The status answer reports each LED under its own name: after the JSON
/// header comes the object `{"blue":B,"green":G,"red":R}` with each value the
/// state of that LED.
pub proof fn lemma_status_reports_each_led(blue: bool, green: bool, red: bool)
    ensures
        spec_status_response(blue, green, red) == "HTTP/1.1 200 OK\r\nContent-Type: application/json\r\n\r\n"@ + "{\"blue\":"@ + json_bool(blue)
            + ",\"green\":"@ + json_bool(green) + ",\"red\":"@ + json_bool(red) + "}"@,
{
    reveal_strlit("HTTP/1.1 200 OK\r\nContent-Type: application/json\r\n\r\n");
    reveal_strlit("{\"blue\":");
    reveal_strlit(",\"green\":");
    reveal_strlit(",\"red\":");
    reveal_strlit("}");
    reveal_strlit("true");
    reveal_strlit("false");
    reveal_strlit("HTTP/1.1 200 OK\r\nContent-Type: application/json\r\n\r\n{\"blue\":true,\"green\":true,\"red\":true}");
    reveal_strlit("HTTP/1.1 200 OK\r\nContent-Type: application/json\r\n\r\n{\"blue\":true,\"green\":true,\"red\":false}");
    reveal_strlit("HTTP/1.1 200 OK\r\nContent-Type: application/json\r\n\r\n{\"blue\":true,\"green\":false,\"red\":true}");
    reveal_strlit("HTTP/1.1 200 OK\r\nContent-Type: application/json\r\n\r\n{\"blue\":true,\"green\":false,\"red\":false}");
    reveal_strlit("HTTP/1.1 200 OK\r\nContent-Type: application/json\r\n\r\n{\"blue\":false,\"green\":true,\"red\":true}");
    reveal_strlit("HTTP/1.1 200 OK\r\nContent-Type: application/json\r\n\r\n{\"blue\":false,\"green\":true,\"red\":false}");
    reveal_strlit("HTTP/1.1 200 OK\r\nContent-Type: application/json\r\n\r\n{\"blue\":false,\"green\":false,\"red\":true}");
    reveal_strlit("HTTP/1.1 200 OK\r\nContent-Type: application/json\r\n\r\n{\"blue\":false,\"green\":false,\"red\":false}");
    assert(spec_status_response(blue, green, red) =~= "HTTP/1.1 200 OK\r\nContent-Type: application/json\r\n\r\n"@ + "{\"blue\":"@ + json_bool(blue)
        + ",\"green\":"@ + json_bool(green) + ",\"red\":"@ + json_bool(red) + "}"@);
}
} // verus!
