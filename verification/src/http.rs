//! The HTTP requests that the solver answers.
//!
//! A request is read from its bytes: the header ends at the first blank line, its first line names
//! method and path, and a `Content-Length` line says how long the body is.

use vstd::prelude::*;
use vstd::slice::{slice_subrange, slice_to_vec};
use vstd::string::StringSliceAdditionalSpecFns;
use vstd::utf8::{decode_utf8, encode_utf8, encode_utf8_decode_utf8, valid_utf8};

use crate::count::solved_total;
use crate::scan::{
    chars_of, find_char, find_from, lowered, lowered_chars, parse_trimmed, parsed_number, same_text,
    stands_at, trim_end, trim_start, word_at,
};
use crate::server::{
    command_of, command_reply, commanded, cube_json, status_json, SharedState,
};
use crate::text::{decimal, decimal_string, utf8_text};

verus! {

/// A blank line, with the end of the line before it, stands in `buf` at index `i`.
pub open spec fn is_blank_line(buf: Seq<u8>, i: int) -> bool {
    &&& 0 <= i
    &&& i + 4 <= buf.len()
    &&& buf[i] == 13
    &&& buf[i + 1] == 10
    &&& buf[i + 2] == 13
    &&& buf[i + 3] == 10
}

/// The first blank line from index `i` on.
pub open spec fn first_blank_line(buf: Seq<u8>, i: int) -> Option<int>
    decreases buf.len() - i,
{
    if i + 4 > buf.len() {
        None
    } else if is_blank_line(buf, i) {
        Some(i)
    } else {
        first_blank_line(buf, i + 1)
    }
}

/// Where the header of a request ends: at the first blank line or, without one, four bytes before
/// the end.
pub open spec fn header_end(buf: Seq<u8>) -> int {
    match first_blank_line(buf, 0) {
        Some(i) => i,
        None => if buf.len() < 4 {
            0
        } else {
            buf.len() - 4
        },
    }
}

/// The first line of `text`, without its line end.
pub open spec fn first_line(text: Seq<char>) -> Seq<char> {
    let k = find_from(text, '\n', 0);
    if k < text.len() && k > 0 && text[k - 1] == '\r' {
        text.take(k - 1)
    } else {
        text.take(k)
    }
}

/// The first two words of the first line of `text`: what stands before its first space, and
/// what stands between that and the next space or the end of the line.
pub open spec fn request_of(text: Seq<char>) -> Option<(Seq<char>, Seq<char>)> {
    let line = first_line(text);
    let a = find_from(line, ' ', 0);
    if a < line.len() {
        Some((line.take(a), line.subrange(a + 1, find_from(line, ' ', a + 1))))
    } else {
        None
    }
}

/// Method and path of the request with header `header`.
pub open spec fn request_line(header: Seq<u8>) -> Option<(Seq<char>, Seq<char>)> {
    if valid_utf8(header) {
        request_of(decode_utf8(header))
    } else {
        None
    }
}

/// What the first line of `text` that starts with `content-length:`, in capitals or not, has
/// behind the colon.
pub open spec fn length_field(text: Seq<char>) -> Option<Seq<char>>
    decreases text.len(),
{
    let k = find_from(text, '\n', 0);
    let line = first_line(text);
    if stands_at(lowered(line), "content-length:"@, 0) {
        Some(line.skip(15))
    } else if 0 <= k < text.len() {
        length_field(text.skip(k + 1))
    } else {
        None
    }
}

/// The length of the body that `header` announces, 0 if it announces none.
pub open spec fn content_length(header: Seq<u8>) -> int {
    let text = if valid_utf8(header) {
        decode_utf8(header)
    } else {
        Seq::empty()
    };
    match length_field(text) {
        Some(field) => match parsed_number(trim_end(trim_start(field))) {
            Some(n) => n,
            None => 0,
        },
        None => 0,
    }
}

/// Where the body begins in the bytes of a request.
pub open spec fn body_start(buf: Seq<u8>) -> int {
    if header_end(buf) + 4 < buf.len() {
        header_end(buf) + 4
    } else {
        buf.len() as int
    }
}

/// How many bytes of the body that the header announces are not in `buf`.
pub open spec fn missing_len(buf: Seq<u8>) -> int {
    let missing = content_length(buf.take(header_end(buf))) - (buf.len() - body_start(buf));
    if missing > 0 {
        missing
    } else {
        0
    }
}

/// Where the header of a request ends.
pub fn find_header_end(buf: &[u8]) -> (res: usize)
    ensures
        res == header_end(buf@),
        res <= buf@.len(),
{
    let n = buf.len();
    let mut i: usize = 0;
    while n - i >= 4
        invariant
            n == buf@.len(),
            i <= n,
            first_blank_line(buf@, 0) == first_blank_line(buf@, i as int),
        decreases n - i,
    {
        if buf[i] == 13 && buf[i + 1] == 10 && buf[i + 2] == 13 && buf[i + 3] == 10 {
            return i;
        }
        i += 1;
    }
    if n < 4 {
        0
    } else {
        n - 4
    }
}

/// Searching the beginning of a text finds what searching all of it finds, if it lies there.
proof fn lemma_find_in_prefix(s: Seq<char>, c: char, e: int, i: int)
    requires
        0 <= i <= e <= s.len(),
    ensures
        i <= find_from(s, c, i) <= s.len(),
        find_from(s.take(e), c, i) == (if find_from(s, c, i) < e {
            find_from(s, c, i)
        } else {
            e
        }),
    decreases e - i,
{
    if i < e {
        if s[i] != c {
            lemma_find_in_prefix(s, c, e, i + 1);
        }
    } else {
        lemma_find_bounds(s, c, i);
    }
}

/// A search ends at or behind its start, and not behind the end of the text.
proof fn lemma_find_bounds(s: Seq<char>, c: char, i: int)
    requires
        0 <= i <= s.len(),
    ensures
        i <= find_from(s, c, i) <= s.len(),
    decreases s.len() - i,
{
    if i < s.len() && s[i] != c {
        lemma_find_bounds(s, c, i + 1);
    }
}

/// Text and bytes determine each other.
proof fn lemma_text_of_bytes(s: &str, bytes: Seq<u8>)
    requires
        s.spec_bytes() == bytes,
    ensures
        s@ == decode_utf8(bytes),
{
    encode_utf8_decode_utf8(s@);
}

/// The end of the line that starts at `from`, without its line end; and where the next line
/// starts, if there is one.
fn line_bounds(chars: &Vec<char>, from: usize) -> (res: (usize, Option<usize>))
    requires
        from <= chars@.len(),
    ensures
        ({
            let rest = chars@.skip(from as int);
            let k = find_from(rest, '\n', 0);
            &&& from <= res.0 <= chars@.len()
            &&& chars@.subrange(from as int, res.0 as int) == first_line(rest)
            &&& res.1 == (if k < rest.len() {
                Some((from + k + 1) as usize)
            } else {
                None
            })
            &&& 0 <= k <= rest.len()
        }),
{
    let k = find_char(chars, '\n', from);
    let n = chars.len();
    proof {
        lemma_find_in_rest(chars@, '\n', from as int, from as int);
    }
    if k < n {
        let e = if k > from && chars[k - 1] == '\r' { k - 1 } else { k };
        assert(chars@.subrange(from as int, e as int) =~= first_line(chars@.skip(from as int)));
        (e, Some(k + 1))
    } else {
        assert(chars@.subrange(from as int, k as int) =~= first_line(chars@.skip(from as int)));
        (k, None)
    }
}

/// Searching the rest of a text finds what searching the text from there on finds.
proof fn lemma_find_in_rest(s: Seq<char>, c: char, from: int, i: int)
    requires
        0 <= from <= i <= s.len(),
    ensures
        find_from(s.skip(from), c, i - from) == find_from(s, c, i) - from,
        i <= find_from(s, c, i) <= s.len(),
    decreases s.len() - i,
{
    if i < s.len() && s[i] != c {
        lemma_find_in_rest(s, c, from, i + 1);
    }
}

/// Method and path of the request with header `buf`.
pub fn parse_request_line(buf: &[u8]) -> (res: Option<(&str, &str)>)
    ensures
        res is Some == request_line(buf@) is Some,
        res matches Some((method, path)) ==> request_line(buf@) == Some((method@, path@)),
{
    let text = match utf8_text(buf) {
        Some(text) => text,
        None => {
            return None;
        },
    };
    proof {
        lemma_text_of_bytes(text, buf@);
    }
    let chars = chars_of(text);
    let (e, _) = line_bounds(&chars, 0);
    let ghost line = first_line(text@);
    proof {
        assert(chars@.skip(0) =~= chars@);
        assert(chars@.subrange(0, e as int) =~= chars@.take(e as int));
        lemma_find_in_prefix(text@, ' ', e as int, 0);
    }
    let a = find_char(&chars, ' ', 0);
    if a >= e {
        return None;
    }
    proof {
        lemma_find_in_prefix(text@, ' ', e as int, a + 1);
    }
    let b = find_char(&chars, ' ', a + 1);
    let b = if b < e { b } else { e };
    assert(line.take(a as int) =~= text@.subrange(0, a as int));
    assert(line.subrange(a + 1, b as int) =~= text@.subrange(a + 1, b as int));
    Some((text.substring_char(0, a), text.substring_char(a + 1, b)))
}

/// The length of the body that the header `buf` announces.
pub fn parse_content_length(buf: &[u8]) -> (res: usize)
    ensures
        res == content_length(buf@),
{
    let text = match utf8_text(buf) {
        Some(text) => text,
        None => "",
    };
    proof {
        reveal_strlit("");
        reveal_strlit("content-length:");
        if valid_utf8(buf@) {
            lemma_text_of_bytes(text, buf@);
        } else {
            assert(text@ =~= Seq::<char>::empty());
        }
    }
    let chars = chars_of(text);
    let small = lowered_chars(&chars);
    let word = chars_of("content-length:");
    let n = chars.len();
    let mut start: usize = 0;
    assert(chars@.skip(0) =~= chars@);
    loop
        invariant
            n == chars@.len(),
            start <= n,
            small@ == lowered(chars@),
            word@ == "content-length:"@,
            word@.len() == 15,
            chars@ == (if valid_utf8(buf@) {
                decode_utf8(buf@)
            } else {
                Seq::empty()
            }),
            length_field(chars@) == length_field(chars@.skip(start as int)),
        decreases n - start,
    {
        let (e, next) = line_bounds(&chars, start);
        let ghost rest = chars@.skip(start as int);
        let ghost line = first_line(rest);
        let found = word_at(&small, &word, start) && e - start >= 15;
        proof {
            assert(found == stands_at(lowered(line), word@, 0)) by {
                assert(line == chars@.subrange(start as int, e as int));
                if e - start >= 15 {
                    assert(small@.subrange(start as int, start + 15) =~= lowered(line).subrange(
                        0,
                        15,
                    ));
                }
            }
        }
        if found {
            assert(line.skip(15) =~= chars@.subrange(start + 15, e as int));
            return match parse_trimmed(&chars, start + 15, e) {
                Some(v) => v,
                None => 0,
            };
        }
        match next {
            Some(s) => {
                proof {
                    let k = find_from(rest, '\n', 0);
                    assert(rest.skip(k + 1) =~= chars@.skip(s as int));
                }
                start = s;
            },
            None => {
                return 0;
            },
        }
    }
}

/// The text of bytes that need not be valid UTF-8, with a replacement character for what is not.
pub uninterp spec fn lossy_text(bytes: Seq<u8>) -> Seq<char>;

/// The text of bytes that need not be valid UTF-8.
///
/// Calls [`String::from_utf8_lossy`]: what it makes of the bytes has the name [`lossy_text`], and
/// of valid UTF-8 it makes the text that this encodes. Where it puts replacement characters into
/// other bytes is not stated.
#[verifier::external_body]
fn lossy_string(bytes: &Vec<u8>) -> (res: String)
    ensures
        res@ == lossy_text(bytes@),
        valid_utf8(bytes@) ==> res@ == decode_utf8(bytes@),
{
    String::from_utf8_lossy(bytes).into_owned()
}

/// What the bytes of a request ask for.
#[derive(Clone, Copy, Debug, PartialEq, Eq, Structural)]
pub enum Route {
    /// Nothing that can be read.
    BadRequest,
    /// The progress.
    Status,
    /// The whole cube.
    CubeData,
    /// A sign of life.
    Health,
    /// A command.
    Control,
    /// A known path, with a method that it has not.
    MethodNotAllowed,
    /// An unknown path.
    NotFound,
}

/// What a request with this method and path asks for.
pub open spec fn route_of(request: Option<(Seq<char>, Seq<char>)>) -> Route {
    match request {
        None => Route::BadRequest,
        Some((method, path)) => if method == "GET"@ && path == "/status"@ {
            Route::Status
        } else if method == "GET"@ && path == "/cube"@ {
            Route::CubeData
        } else if method == "GET"@ && path == "/health"@ {
            Route::Health
        } else if method == "POST"@ && path == "/control"@ {
            Route::Control
        } else if path == "/status"@ || path == "/control"@ || path == "/cube"@ {
            Route::MethodNotAllowed
        } else {
            Route::NotFound
        },
    }
}

/// What the bytes `buf` of a request ask for.
pub open spec fn route_of_bytes(buf: Seq<u8>) -> Route {
    route_of(request_line(buf.take(header_end(buf))))
}

/// The words for a status code.
pub open spec fn reason(status: u16) -> Seq<char> {
    if status == 200 {
        "OK"@
    } else if status == 400 {
        "Bad Request"@
    } else if status == 404 {
        "Not Found"@
    } else if status == 405 {
        "Method Not Allowed"@
    } else {
        "Error"@
    }
}

/// A response up to and with its blank line, for a body of `len` bytes.
pub open spec fn response_head(status: u16, content_type: Seq<char>, len: nat) -> Seq<char> {
    "HTTP/1.1 "@ + decimal(status as nat) + " "@ + reason(status) + "\r\nContent-Type: "@
        + content_type + "\r\nContent-Length: "@ + decimal(len)
        + "\r\nAccess-Control-Allow-Origin: *\r\nConnection: close\r\n\r\n"@
}

/// A response with the body `body`.
pub open spec fn response_text(status: u16, content_type: Seq<char>, body: Seq<char>) -> Seq<
    char,
> {
    response_head(status, content_type, encode_utf8(body).len()) + body
}

/// The response to a request: `body` is the text of its body.
pub open spec fn answer(state: SharedState, route: Route, body: Seq<char>) -> Seq<char> {
    match route {
        Route::BadRequest => response_text(400, "text/plain"@, "Bad Request"@),
        Route::Status => response_text(200, "application/json"@, state.status_snapshot@),
        Route::CubeData => response_text(200, "application/json"@, state.cube_snapshot@),
        Route::Health => response_text(200, "text/plain"@, "OK"@),
        Route::Control => response_text(
            200,
            "application/json"@,
            command_reply(command_of(body)),
        ),
        Route::MethodNotAllowed => response_text(405, "text/plain"@, "Method Not Allowed"@),
        Route::NotFound => response_text(404, "text/plain"@, "Not Found"@),
    }
}

/// The state after a request: `body` is the text of its body.
pub open spec fn state_after(state: SharedState, route: Route, body: Seq<char>) -> SharedState {
    if route == Route::Control {
        commanded(state, command_of(body))
    } else {
        state
    }
}

/// How many bytes of the body of a request are still to be read.
pub open spec fn to_be_read(buf: Seq<u8>) -> int {
    if route_of_bytes(buf) == Route::Control {
        missing_len(buf)
    } else {
        0
    }
}

/// What the bytes of a request ask for.
pub fn route(buf: &[u8]) -> (res: Route)
    ensures
        res == route_of_bytes(buf@),
{
    let end = find_header_end(buf);
    assert(buf@.subrange(0, end as int) =~= buf@.take(end as int));
    match parse_request_line(slice_subrange(buf, 0, end)) {
        None => Route::BadRequest,
        Some((method, path)) => {
            let status = same_text(path, "/status");
            let cube = same_text(path, "/cube");
            let control = same_text(path, "/control");
            if same_text(method, "GET") && status {
                Route::Status
            } else if same_text(method, "GET") && cube {
                Route::CubeData
            } else if same_text(method, "GET") && same_text(path, "/health") {
                Route::Health
            } else if same_text(method, "POST") && control {
                Route::Control
            } else if status || control || cube {
                Route::MethodNotAllowed
            } else {
                Route::NotFound
            }
        },
    }
}

/// How many bytes of the body of a request are still to be read: only commands have a body.
pub fn missing_body(buf: &[u8]) -> (res: usize)
    ensures
        res == (if route_of_bytes(buf@) == Route::Control {
            missing_len(buf@)
        } else {
            0
        }),
        res == to_be_read(buf@),
{
    if route(buf) != Route::Control {
        return 0;
    }
    let end = find_header_end(buf);
    assert(buf@.subrange(0, end as int) =~= buf@.take(end as int));
    let announced = parse_content_length(slice_subrange(buf, 0, end));
    let have = if buf.len() - end > 4 { buf.len() - end - 4 } else { 0 };
    if announced > have {
        announced - have
    } else {
        0
    }
}

/// The text of the body of a request: what is in `buf` behind the header, and then `extra`.
pub fn read_body(buf: &[u8], extra: &[u8]) -> (res: String)
    ensures
        res@ == lossy_text(buf@.skip(body_start(buf@)) + extra@),
        valid_utf8(buf@.skip(body_start(buf@)) + extra@) ==> res@ == decode_utf8(
            buf@.skip(body_start(buf@)) + extra@,
        ),
{
    let end = find_header_end(buf);
    let n = buf.len();
    let start = if n - end > 4 { end + 4 } else { n };
    let mut body = slice_to_vec(slice_subrange(buf, start, n));
    body.extend_from_slice(extra);
    assert(body@ =~= buf@.skip(body_start(buf@)) + extra@);
    lossy_string(&body)
}

/// The words for a status code.
fn reason_str(status: u16) -> (res: &'static str)
    ensures
        res@ == reason(status),
{
    match status {
        200 => "OK",
        400 => "Bad Request",
        404 => "Not Found",
        405 => "Method Not Allowed",
        _ => "Error",
    }
}

/// The bytes of a response with the body `body`.
pub fn http_response(status: u16, content_type: &str, body: &str) -> (res: Vec<u8>)
    ensures
        res@ == encode_utf8(response_text(status, content_type@, body@)),
{
    let mut out = String::new();
    out.append("HTTP/1.1 ");
    out.append(decimal_string(status as u64).as_str());
    out.append(" ");
    out.append(reason_str(status));
    out.append("\r\nContent-Type: ");
    out.append(content_type);
    out.append("\r\nContent-Length: ");
    out.append(decimal_string(body.as_bytes().len() as u64).as_str());
    out.append("\r\nAccess-Control-Allow-Origin: *\r\nConnection: close\r\n\r\n");
    out.append(body);
    assert(Seq::<char>::empty() + "HTTP/1.1 "@ =~= "HTTP/1.1 "@);
    slice_to_vec(out.as_str().as_bytes())
}

/// The response to the request `buf`, with the rest `extra` of its body, after the request is
/// carried out. Only a command changes the state.
pub fn respond(state: &mut SharedState, buf: &[u8], extra: &[u8]) -> (res: Vec<u8>)
    ensures
        ({
            let body = lossy_text(buf@.skip(body_start(buf@)) + extra@);
            &&& res@ == encode_utf8(answer(*old(state), route_of_bytes(buf@), body))
            &&& *final(state) == (if route_of_bytes(buf@) == Route::Control {
                commanded(*old(state), command_of(body))
            } else {
                *old(state)
            })
            &&& *final(state) == state_after(*old(state), route_of_bytes(buf@), body)
        }),
{
    match route(buf) {
        Route::BadRequest => http_response(400, "text/plain", "Bad Request"),
        Route::Status => http_response(200, "application/json", state.status_snapshot.as_str()),
        Route::CubeData => http_response(200, "application/json", state.cube_snapshot.as_str()),
        Route::Health => http_response(200, "text/plain", "OK"),
        Route::Control => {
            let body = read_body(buf, extra);
            let reply = state.control(body.as_str());
            http_response(200, "application/json", reply)
        },
        Route::MethodNotAllowed => http_response(405, "text/plain", "Method Not Allowed"),
        Route::NotFound => http_response(404, "text/plain", "Not Found"),
    }
}

/// The encoding of a text is the encodings of its parts, one after the other.
proof fn lemma_encode_concat(a: Seq<char>, b: Seq<char>)
    ensures
        encode_utf8(a + b) == encode_utf8(a) + encode_utf8(b),
    decreases a.len(),
{
    if a.len() == 0 {
        assert(a + b =~= b);
        assert(encode_utf8(a) + encode_utf8(b) =~= encode_utf8(b));
    } else {
        lemma_encode_concat(a.drop_first(), b);
        assert((a + b).drop_first() =~= a.drop_first() + b);
        assert(encode_utf8(a + b) =~= encode_utf8(a) + encode_utf8(b));
    }
}

/// A response is its head and the bytes of its body, and the head announces how many these are.
pub proof fn law_response_is_framed(status: u16, content_type: Seq<char>, body: Seq<char>)
    ensures
        ({
            let bytes = encode_utf8(body);
            encode_utf8(response_text(status, content_type, body)) == encode_utf8(
                response_head(status, content_type, bytes.len()),
            ) + bytes
        }),
{
    lemma_encode_concat(
        response_head(status, content_type, encode_utf8(body).len()),
        body,
    );
}

/// Whatever the state, a sign of life is given.
pub proof fn law_health_is_always_ok(state: SharedState, buf: Seq<u8>, body: Seq<char>)
    requires
        request_line(buf.take(header_end(buf))) == Some(("GET"@, "/health"@)),
    ensures
        answer(state, route_of_bytes(buf), body) == response_text(200, "text/plain"@, "OK"@),
{
    reveal_strlit("/health");
    reveal_strlit("/status");
    reveal_strlit("/cube");
    assert("/health"@.len() != "/cube"@.len());
    assert("/health"@[1] != "/status"@[1]);
}

/// From a tick on, until the state changes, a request for the cube is answered with the present
/// cube and a request for the progress with the present progress.
pub proof fn law_snapshots_are_served(state: SharedState, body: Seq<char>)
    requires
        state.snapshots_current(),
    ensures
        answer(state, Route::CubeData, body) == response_text(
            200,
            "application/json"@,
            cube_json(state.run_state, state.cube@),
        ),
        answer(state, Route::Status, body) == response_text(
            200,
            "application/json"@,
            status_json(
                state.run_state,
                state.phase,
                solved_total(state.cube@),
                state.total_moves,
                state.total_elapsed_us,
            ),
        ),
{
}

} // verus!
