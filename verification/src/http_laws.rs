//! How requests are read from their bytes, and what they are answered.

use vstd::prelude::*;
use vstd::utf8::{encode_utf8, encode_utf8_decode_utf8, encode_utf8_valid_utf8, valid_utf8};

use crate::http::{
    answer, body_start, content_length, first_blank_line, first_line, header_end, is_blank_line,
    length_field, missing_len, reason, request_line, request_of, response_text, route_of,
    route_of_bytes, state_after, to_be_read, Route,
};
use crate::scan::{
    is_space, law_digits_are_read_as_a_number, law_search_stops_at_the_first,
    law_white_space_is_taken_away, lowered, parsed_number, stands_at, trim_end, trim_start,
};
use crate::server::{command_of, command_reply, commanded, SharedState};
use crate::text::{decimal, law_numbers_are_written_in_full};

verus! {

/// The four bytes of a blank line.
pub open spec fn blank_line() -> Seq<u8> {
    seq![13, 10, 13, 10]
}

/// The first blank line is where one stands and none stands before.
proof fn lemma_first_blank_line(buf: Seq<u8>, i: int, k: int)
    requires
        0 <= i <= k,
        is_blank_line(buf, k),
        forall|j: int| i <= j < k ==> !#[trigger] is_blank_line(buf, j),
    ensures
        first_blank_line(buf, i) == Some(k),
    decreases k - i,
{
    if i < k {
        assert(!is_blank_line(buf, i));
        lemma_first_blank_line(buf, i + 1, k);
    }
}

proof fn lemma_no_blank_line(buf: Seq<u8>, i: int)
    requires
        0 <= i,
        forall|j: int| i <= j ==> !#[trigger] is_blank_line(buf, j),
    ensures
        first_blank_line(buf, i) is None,
    decreases buf.len() - i,
{
    if i + 4 <= buf.len() {
        assert(!is_blank_line(buf, i));
        lemma_no_blank_line(buf, i + 1);
    }
}

/// The header is what stands before the first blank line, and the body what stands behind it.
pub proof fn law_blank_line_parts_header_and_body(head: Seq<u8>, body: Seq<u8>)
    requires
        forall|i: int|
            0 <= i < head.len() ==> (#[trigger] (head + blank_line() + body).skip(i)).take(4)
                != blank_line(),
    ensures
        ({
            let buf = head + blank_line() + body;
            &&& header_end(buf) == head.len()
            &&& body_start(buf) == head.len() + 4
            &&& buf.take(header_end(buf)) == head
            &&& buf.skip(body_start(buf)) == body
        }),
{
    let buf = head + blank_line() + body;
    let k = head.len() as int;
    assert(is_blank_line(buf, k));
    assert forall|j: int| 0 <= j < k implies !#[trigger] is_blank_line(buf, j) by {
        if is_blank_line(buf, j) {
            assert(buf.skip(j).take(4) =~= blank_line());
        }
    }
    lemma_first_blank_line(buf, 0, k);
    assert(buf.take(k) =~= head);
    assert(buf.skip(k + 4) =~= body);
}

/// Without a blank line the header ends four bytes before the end, and there is no body.
pub proof fn law_without_blank_line_there_is_no_body(buf: Seq<u8>)
    requires
        forall|i: int|
            0 <= i <= buf.len() - 4 ==> (#[trigger] buf.skip(i)).take(4) != blank_line(),
    ensures
        header_end(buf) == (if buf.len() < 4 {
            0
        } else {
            buf.len() - 4
        }),
        buf.skip(body_start(buf)).len() == 0,
{
    assert forall|j: int| 0 <= j implies !#[trigger] is_blank_line(buf, j) by {
        if is_blank_line(buf, j) {
            assert(buf.skip(j).take(4) =~= blank_line());
        }
    }
    lemma_no_blank_line(buf, 0);
}

/// `c` does not stand in `s`.
pub open spec fn free_of(s: Seq<char>, c: char) -> bool {
    forall|i: int| 0 <= i < s.len() ==> #[trigger] s[i] != c
}

/// The first line ends before the first line feed, and before a carriage return right before it.
pub proof fn law_first_line_ends_at_the_line_feed(line: Seq<char>, rest: Seq<char>)
    requires
        free_of(line, '\n'),
    ensures
        first_line(line + seq!['\r', '\n'] + rest) == line,
        line.len() == 0 || line.last() != '\r' ==> first_line(line + seq!['\n'] + rest) == line,
        first_line(line) == line,
{
    let a = line + seq!['\r', '\n'] + rest;
    law_search_stops_at_the_first(a, '\n', 0, line.len() as int + 1);
    assert(a.take(line.len() as int) =~= line);
    let b = line + seq!['\n'] + rest;
    law_search_stops_at_the_first(b, '\n', 0, line.len() as int);
    assert(b.take(line.len() as int) =~= line);
    law_search_stops_at_the_first(line, '\n', 0, line.len() as int);
    assert(line.take(line.len() as int) =~= line);
}

/// Method and path are the first two words of the first line, whatever follows in it.
pub proof fn law_first_two_words_are_method_and_path(
    text: Seq<char>,
    method: Seq<char>,
    path: Seq<char>,
    more: Seq<char>,
)
    requires
        free_of(method, ' '),
        free_of(path, ' '),
        first_line(text) == method + seq![' '] + path || first_line(text) == method + seq![' ']
            + path + seq![' '] + more,
    ensures
        request_of(text) == Some((method, path)),
{
    let line = first_line(text);
    let a = method.len() as int;
    let b = a + 1 + path.len();
    law_search_stops_at_the_first(line, ' ', 0, a);
    assert forall|j: int| a + 1 <= j < b implies #[trigger] line[j] != ' ' by {
        assert(line[j] == path[j - a - 1]);
    }
    law_search_stops_at_the_first(line, ' ', a + 1, b);
    assert(line.take(a) =~= method);
    assert(line.subrange(a + 1, b) =~= path);
}

/// A first line of one word is no request.
pub proof fn law_one_word_is_no_request(text: Seq<char>)
    requires
        free_of(first_line(text), ' '),
    ensures
        request_of(text) is None,
{
    let line = first_line(text);
    law_search_stops_at_the_first(line, ' ', 0, line.len() as int);
}

/// A header is read as the text that its bytes encode; other bytes are no request.
pub proof fn law_headers_are_text(text: Seq<char>, bytes: Seq<u8>)
    ensures
        request_line(encode_utf8(text)) == request_of(text),
        !valid_utf8(bytes) ==> request_line(bytes) is None && content_length(bytes) == 0,
{
    encode_utf8_decode_utf8(text);
    encode_utf8_valid_utf8(text);
    if !valid_utf8(bytes) {
        reveal_strlit("content-length:");
        assert(length_field(Seq::<char>::empty()) is None) by {
            law_first_line_ends_at_the_line_feed(Seq::empty(), Seq::empty());
            law_search_stops_at_the_first(Seq::<char>::empty(), '\n', 0, 0);
        }
    }
}

/// A line that starts with `content-length:`, in capitals or not, gives what it has behind the
/// colon, if no line before it did.
pub proof fn law_length_line_is_taken(name: Seq<char>, field: Seq<char>, rest: Seq<char>)
    requires
        lowered(name) == "content-length:"@,
        free_of(field, '\n'),
    ensures
        length_field(name + field + seq!['\r', '\n'] + rest) == Some(field),
        field.len() == 0 || field.last() != '\r' ==> length_field(
            name + field + seq!['\n'] + rest,
        ) == Some(field),
        length_field(name + field) == Some(field),
{
    reveal_strlit("content-length:");
    assert(name.len() == 15) by {
        assert(lowered(name).len() == name.len());
    }
    let line = name + field;
    assert forall|i: int| 0 <= i < line.len() implies #[trigger] line[i] != '\n' by {
        if i < 15 {
            assert(lowered(name)[i] == "content-length:"@[i]);
            assert(line[i] == name[i]);
        } else {
            assert(line[i] == field[i - 15]);
        }
    }
    assert(line.last() != '\r' || field.len() > 0) by {
        assert(lowered(name)[14] == ':');
    }
    law_first_line_ends_at_the_line_feed(line, rest);
    assert(lowered(line).subrange(0, 15) =~= lowered(name));
    assert(stands_at(lowered(line), "content-length:"@, 0));
    assert(line.skip(15) =~= field);
}

/// Any other line is passed over.
pub proof fn law_other_lines_are_passed_over(line: Seq<char>, rest: Seq<char>)
    requires
        free_of(line, '\n'),
        line.len() < 15 || lowered(line).take(15) != "content-length:"@,
    ensures
        length_field(line + seq!['\n'] + rest) == length_field(rest),
        length_field(line) is None,
{
    reveal_strlit("content-length:");
    let text = line + seq!['\n'] + rest;
    law_search_stops_at_the_first(text, '\n', 0, line.len() as int);
    let first = first_line(text);
    assert(first.len() <= line.len());
    assert(first =~= line.take(first.len() as int));
    assert(!stands_at(lowered(first), "content-length:"@, 0)) by {
        if first.len() >= 15 {
            assert(lowered(first).subrange(0, 15) =~= lowered(line).take(15));
        }
    }
    assert(text.skip(line.len() as int + 1) =~= rest);
    law_search_stops_at_the_first(line, '\n', 0, line.len() as int);
    law_first_line_ends_at_the_line_feed(line, rest);
    assert(!stands_at(lowered(line), "content-length:"@, 0)) by {
        if line.len() >= 15 {
            assert(lowered(line).subrange(0, 15) =~= lowered(line).take(15));
        }
    }
}

/// The length that a header announces is the number in its length line, with white space round it
/// or not; without such a line or number it is zero.
pub proof fn law_announced_length_is_the_number(
    text: Seq<char>,
    before: Seq<char>,
    n: nat,
    behind: Seq<char>,
)
    requires
        forall|i: int| 0 <= i < before.len() ==> is_space(#[trigger] before[i]),
        forall|i: int| 0 <= i < behind.len() ==> is_space(#[trigger] behind[i]),
        n <= usize::MAX,
    ensures
        length_field(text) == Some(before + decimal(n) + behind) ==> content_length(
            encode_utf8(text),
        ) == n,
        length_field(text) is None ==> content_length(encode_utf8(text)) == 0,
        length_field(text) is Some && parsed_number(
            trim_end(trim_start(length_field(text)->0)),
        ) is None ==> content_length(encode_utf8(text)) == 0,
{
    encode_utf8_decode_utf8(text);
    encode_utf8_valid_utf8(text);
    law_numbers_are_written_in_full(n);
    assert(!is_space(decimal(n)[0]));
    assert(!is_space(decimal(n).last()));
    law_white_space_is_taken_away(before, decimal(n), behind);
    law_digits_are_read_as_a_number(decimal(n));
}

/// What is missing of a body is what its announced length goes beyond the bytes at hand.
pub proof fn law_missing_bytes_complete_the_body(buf: Seq<u8>)
    ensures
        ({
            let announced = content_length(buf.take(header_end(buf)));
            let at_hand = buf.skip(body_start(buf)).len();
            if announced <= at_hand {
                missing_len(buf) == 0
            } else {
                missing_len(buf) + at_hand == announced
            }
        }),
{
    lemma_header_end_bounds(buf, 0);
}

proof fn lemma_header_end_bounds(buf: Seq<u8>, i: int)
    requires
        0 <= i,
    ensures
        first_blank_line(buf, i) matches Some(k) ==> i <= k <= buf.len() - 4,
    decreases buf.len() - i,
{
    if i + 4 <= buf.len() && !is_blank_line(buf, i) {
        lemma_header_end_bounds(buf, i + 1);
    }
}

/// Each path is asked for with its own method; with any other method three of them are refused,
/// and everything else is not found.
pub proof fn law_routes_follow_method_and_path(method: Seq<char>, path: Seq<char>)
    ensures
        ({
            let r = route_of(Some((method, path)));
            &&& r == Route::Status <==> method == "GET"@ && path == "/status"@
            &&& r == Route::CubeData <==> method == "GET"@ && path == "/cube"@
            &&& r == Route::Health <==> method == "GET"@ && path == "/health"@
            &&& r == Route::Control <==> method == "POST"@ && path == "/control"@
            &&& r == Route::MethodNotAllowed <==> (method != "GET"@ && path == "/status"@) || (method
                != "GET"@ && path == "/cube"@) || (method != "POST"@ && path == "/control"@)
            &&& r != Route::BadRequest
        }),
        route_of(None) == Route::BadRequest,
{
    reveal_strlit("GET");
    reveal_strlit("POST");
    reveal_strlit("/status");
    reveal_strlit("/cube");
    reveal_strlit("/health");
    reveal_strlit("/control");
    assert("GET"@.len() != "POST"@.len());
    assert("/cube"@.len() != "/status"@.len());
    assert("/cube"@.len() != "/health"@.len());
    assert("/cube"@.len() != "/control"@.len());
    assert("/control"@.len() != "/status"@.len());
    assert("/control"@.len() != "/health"@.len());
    assert("/status"@[1] != "/health"@[1]);
}

/// A request is routed by the first two words of its header, whatever its other lines and its body
/// are.
pub proof fn law_requests_are_routed_by_their_first_line(
    method: Seq<char>,
    path: Seq<char>,
    more: Seq<char>,
    lines: Seq<char>,
    body: Seq<u8>,
)
    requires
        free_of(method, ' '),
        free_of(path, ' '),
        free_of(method, '\n'),
        free_of(path, '\n'),
        free_of(more, '\n'),
        ({
            let header = method + seq![' '] + path + seq![' '] + more + seq!['\r', '\n'] + lines;
            let head = encode_utf8(header);
            forall|i: int|
                0 <= i < head.len() ==> (#[trigger] (head + blank_line() + body).skip(i)).take(4)
                    != blank_line()
        }),
    ensures
        ({
            let header = method + seq![' '] + path + seq![' '] + more + seq!['\r', '\n'] + lines;
            let buf = encode_utf8(header) + blank_line() + body;
            &&& route_of_bytes(buf) == route_of(Some((method, path)))
            &&& buf.skip(body_start(buf)) == body
        }),
{
    let line = method + seq![' '] + path + seq![' '] + more;
    let header = line + seq!['\r', '\n'] + lines;
    assert forall|i: int| 0 <= i < line.len() implies #[trigger] line[i] != '\n' by {
        let (a, b) = (method.len() as int, method.len() + 1 + path.len());
        if i < a {
            assert(line[i] == method[i]);
        } else if a < i < b {
            assert(line[i] == path[i - a - 1]);
        } else if i > b {
            assert(line[i] == more[i - b - 1]);
        }
    }
    law_first_line_ends_at_the_line_feed(line, lines);
    law_first_two_words_are_method_and_path(header, method, path, more);
    law_headers_are_text(header, Seq::empty());
    law_blank_line_parts_header_and_body(encode_utf8(header), body);
}

/// A request without a blank line is routed by all but its last four bytes.
pub proof fn law_requests_without_blank_line_are_routed(text: Seq<char>, tail: Seq<u8>)
    requires
        tail.len() == 4,
        ({
            let buf = encode_utf8(text) + tail;
            forall|i: int|
                0 <= i <= buf.len() - 4 ==> (#[trigger] buf.skip(i)).take(4) != blank_line()
        }),
    ensures
        route_of_bytes(encode_utf8(text) + tail) == route_of(request_of(text)),
{
    let buf = encode_utf8(text) + tail;
    law_without_blank_line_there_is_no_body(buf);
    assert(buf.take(buf.len() - 4) =~= encode_utf8(text));
    law_headers_are_text(text, Seq::empty());
}

/// A header that is no text is a bad request.
pub proof fn law_bytes_that_are_no_text_are_refused(head: Seq<u8>, body: Seq<u8>)
    requires
        !valid_utf8(head),
        forall|i: int|
            0 <= i < head.len() ==> (#[trigger] (head + blank_line() + body).skip(i)).take(4)
                != blank_line(),
    ensures
        route_of_bytes(head + blank_line() + body) == Route::BadRequest,
{
    law_blank_line_parts_header_and_body(head, body);
}

/// Every route has its answer: what is asked for with code 200, a reply to a command with code 200
/// too, and the refusals with their codes.
pub proof fn law_routes_have_their_answers(state: SharedState, body: Seq<char>)
    ensures
        answer(state, Route::Status, body) == response_text(
            200,
            "application/json"@,
            state.status_snapshot@,
        ),
        answer(state, Route::CubeData, body) == response_text(
            200,
            "application/json"@,
            state.cube_snapshot@,
        ),
        answer(state, Route::Health, body) == response_text(200, "text/plain"@, "OK"@),
        answer(state, Route::Control, body) == response_text(
            200,
            "application/json"@,
            command_reply(command_of(body)),
        ),
        answer(state, Route::BadRequest, body) == response_text(
            400,
            "text/plain"@,
            "Bad Request"@,
        ),
        answer(state, Route::NotFound, body) == response_text(404, "text/plain"@, "Not Found"@),
        answer(state, Route::MethodNotAllowed, body) == response_text(
            405,
            "text/plain"@,
            "Method Not Allowed"@,
        ),
{
}

/// A response gives its code in digits and in words, the type of its body and the number of its
/// bytes, and then, behind a blank line, the body.
pub proof fn law_responses_have_their_form(status: u16, content_type: Seq<char>, body: Seq<char>)
    ensures
        response_text(status, content_type, body) == "HTTP/1.1 "@ + decimal(status as nat) + " "@
            + reason(status) + "\r\nContent-Type: "@ + content_type + "\r\nContent-Length: "@
            + decimal(encode_utf8(body).len())
            + "\r\nAccess-Control-Allow-Origin: *\r\nConnection: close\r\n\r\n"@ + body,
        reason(200) == "OK"@,
        reason(400) == "Bad Request"@,
        reason(404) == "Not Found"@,
        reason(405) == "Method Not Allowed"@,
        status != 200 && status != 400 && status != 404 && status != 405 ==> reason(status)
            == "Error"@,
{
}

/// Only commands change anything: every other request leaves the state as it is, and a command
/// changes it as its words say.
pub proof fn law_only_commands_change_the_state(
    state: SharedState,
    method: Seq<char>,
    path: Seq<char>,
    body: Seq<char>,
)
    ensures
        ({
            let after = state_after(state, route_of(Some((method, path))), body);
            if method == "POST"@ && path == "/control"@ {
                after == commanded(state, command_of(body))
            } else {
                after == state
            }
        }),
        state_after(state, Route::BadRequest, body) == state,
{
    law_routes_follow_method_and_path(method, path);
}

/// Only the bodies of commands are read to their end.
pub proof fn law_only_bodies_of_commands_are_read(buf: Seq<u8>)
    ensures
        route_of_bytes(buf) == Route::Control ==> to_be_read(buf) == missing_len(buf),
        route_of_bytes(buf) != Route::Control ==> to_be_read(buf) == 0,
{
}

} // verus!
