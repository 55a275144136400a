use cube200::base64::base64_encode;
use cube200::cube::CubeState;
use cube200::explore::ExplorerResult;
use cube200::geometry::TOTAL;
use cube200::http::{
    find_header_end, http_response, missing_body, parse_content_length, parse_request_line,
    read_body, respond, route, Route,
};
use cube200::moves::Move;
use cube200::phase::SolvePhase;
use cube200::scan::{
    chars_of, contains_word, find_char, is_whitespace, lowered_chars, parse_trimmed, same_text,
    word_at,
};
use cube200::scramble::Cube;
use cube200::server::{
    collect_wait, cube_snapshot_json, parse_command, percent_string, phase_str, run_str,
    status_snapshot_json, tick_due, Command, ExecutorAction, RunState, SharedState,
};
use cube200::text::{ascii_string, decimal_string, padded_string};

fn mv(axis: u8, layer: u16, cw: bool) -> Move {
    Move { axis, layer, cw }
}

fn solved() -> CubeState {
    Cube::new_solved().state
}

#[test]
fn base64_of_known_texts() {
    assert_eq!(base64_encode(b""), "");
    assert_eq!(base64_encode(b"f"), "Zg==");
    assert_eq!(base64_encode(b"fo"), "Zm8=");
    assert_eq!(base64_encode(b"foo"), "Zm9v");
    assert_eq!(base64_encode(b"foob"), "Zm9vYg==");
    assert_eq!(base64_encode(b"fooba"), "Zm9vYmE=");
    assert_eq!(base64_encode(b"foobar"), "Zm9vYmFy");
    assert_eq!(base64_encode(&[0xff, 0xef, 0xbe]), "/+++");
    assert_eq!(base64_encode(&[0, 0, 0]), "AAAA");
}

fn decode(text: &str) -> Vec<u8> {
    let value = |c: u8| -> u32 {
        match c {
            b'A'..=b'Z' => (c - b'A') as u32,
            b'a'..=b'z' => (c - b'a') as u32 + 26,
            b'0'..=b'9' => (c - b'0') as u32 + 52,
            b'+' => 62,
            b'/' => 63,
            _ => 0,
        }
    };
    let mut out = Vec::new();
    for q in text.as_bytes().chunks(4) {
        let n = value(q[0]) << 18 | value(q[1]) << 12 | value(q[2]) << 6 | value(q[3]);
        let bytes = [(n >> 16) as u8, (n >> 8) as u8, n as u8];
        let len = if q[2] == b'=' { 1 } else if q[3] == b'=' { 2 } else { 3 };
        out.extend_from_slice(&bytes[..len]);
    }
    out
}

#[test]
fn base64_is_decoded_again() {
    for len in 0..300usize {
        let data: Vec<u8> = (0..len).map(|i| (i * 89 + len * 7) as u8).collect();
        let text = base64_encode(&data);
        assert_eq!(text.len(), (len + 2) / 3 * 4);
        assert_eq!(decode(&text), data);
    }
    let s = solved();
    assert_eq!(decode(&s.to_base64()), s.data.to_vec());
    assert_eq!(s.to_base64().len(), 320_000);
}

#[test]
fn numbers_are_written() {
    for n in [0u64, 7, 9, 10, 99, 100, 240_000, u64::MAX] {
        assert_eq!(decimal_string(n), n.to_string());
    }
    assert_eq!(padded_string(42, 6), "000042");
    assert_eq!(padded_string(1234567, 6), "234567");
    assert_eq!(padded_string(5, 0), "");
    assert_eq!(ascii_string(&b"plain".to_vec()), "plain");
}

#[test]
fn percentages_have_six_decimals() {
    for solved in 0..=240_000u32 {
        let pct = solved as f64 / 240_000f64 * 100.0;
        assert_eq!(percent_string(solved), format!("{:.6}", pct));
    }
    assert_eq!(percent_string(1), "0.000417");
    assert_eq!(percent_string(240_000), "100.000000");
}

#[test]
fn whitespace_is_that_of_unicode() {
    for c in '\0'..=char::MAX {
        assert_eq!(is_whitespace(c), c.is_whitespace());
    }
}

#[test]
fn text_is_scanned() {
    assert_eq!(chars_of("aé€"), vec!['a', 'é', '€']);
    assert!(same_text("GET", "GET"));
    assert!(!same_text("GET", "GEt"));
    assert!(!same_text("GET", "GETS"));
    assert!(same_text("", ""));
    assert_eq!(lowered_chars(&chars_of("AZaz[@É")), chars_of("azaz[@É"));
    let s = chars_of("one two");
    assert!(contains_word(&s, "two"));
    assert!(contains_word(&s, ""));
    assert!(contains_word(&chars_of(""), ""));
    assert!(!contains_word(&s, "twos"));
    assert!(word_at(&s, &chars_of("ne"), 1));
    assert!(!word_at(&s, &chars_of("ne"), 2));
    assert!(!word_at(&s, &chars_of("ne"), 60));
    assert_eq!(find_char(&s, ' ', 0), 3);
    assert_eq!(find_char(&s, ' ', 4), 7);
}

#[test]
fn numbers_are_read_as_the_standard_library_reads_them() {
    for text in [
        "", " ", "0", "7", " 12 ", "+5", "-5", "+", "++5", "5x", "1 2", "00018", "\u{a0}33\u{3000}",
        "18446744073709551615", "18446744073709551616", "99999999999999999999999", "٣", "0x10",
    ] {
        let chars = chars_of(text);
        assert_eq!(parse_trimmed(&chars, 0, chars.len()), text.trim().parse::<usize>().ok(), "{}", text);
    }
}

#[test]
fn commands_are_recognized() {
    assert_eq!(parse_command("start"), Command::Start);
    assert_eq!(parse_command("{\"cmd\":\"RESUME\"}"), Command::Start);
    assert_eq!(parse_command("Pause"), Command::Pause);
    assert_eq!(parse_command("please stop"), Command::Pause);
    assert_eq!(parse_command("ShutDown"), Command::Shutdown);
    assert_eq!(parse_command("stop and restart"), Command::Start);
    assert_eq!(parse_command("shutdown, then pause"), Command::Pause);
    assert_eq!(parse_command(""), Command::Unknown);
    assert_eq!(parse_command("go"), Command::Unknown);
}

#[test]
fn snapshots_have_their_form() {
    let s = solved();
    assert_eq!(
        cube_snapshot_json(RunState::Running, &s),
        format!("{{\"n\":200,\"faces\":6,\"state\":\"running\",\"data\":\"{}\"}}", s.to_base64())
    );
    assert_eq!(
        status_snapshot_json(RunState::Paused, SolvePhase::EdgePairing, 120_000, 7, 71),
        "{\"state\":\"paused\",\"phase\":\"edge_pairing\",\"solved_cells\":120000,\"total_cells\":240000,\
         \"solved_pct\":50.000000,\"total_moves\":7,\"avg_move_us\":10}"
    );
    assert_eq!(
        status_snapshot_json(RunState::Running, SolvePhase::Solved, 240_000, 0, 71),
        "{\"state\":\"running\",\"phase\":\"solved\",\"solved_cells\":240000,\"total_cells\":240000,\
         \"solved_pct\":100.000000,\"total_moves\":0,\"avg_move_us\":0}"
    );
    assert_eq!(phase_str(SolvePhase::CenterReduction), "center_reduction");
    assert_eq!(phase_str(SolvePhase::ThreeByThreeReduction), "3x3_reduction");
    assert_eq!(run_str(RunState::Paused), "paused");
}

#[test]
fn state_starts_paused() {
    let s = SharedState::new(solved());
    assert_eq!(s.run_state, RunState::Paused);
    assert_eq!((s.total_moves, s.total_elapsed_us, s.shutdown), (0, 0, false));
    assert_eq!(s.phase, SolvePhase::CenterReduction);
    assert_eq!(s.status_snapshot, "{\"status\":\"initializing\"}");
    assert!(s.cube_snapshot.starts_with("{\"n\":200,\"faces\":6,\"state\":\"paused\",\"data\":\"AAAA"));
    assert!(s.cube.data == solved().data);
}

#[test]
fn ticks_bring_the_snapshots_up_to_date() {
    let mut s = SharedState::new(solved());
    assert!(s.tick().is_none());
    assert!(s.status_snapshot.starts_with("{\"state\":\"paused\",\"phase\":\"center_reduction\",\"solved_cells\":240000"));
    s.run_state = RunState::Running;
    s.cube.apply(mv(0, 4, true));
    let copy = s.tick().unwrap();
    assert!(copy.data == s.cube.data);
    assert!(s.status_snapshot.contains("\"solved_cells\":239200,"));
    let json = s.cube_snapshot.clone();
    let data = json.split("\"data\":\"").nth(1).unwrap();
    assert_eq!(decode(&data[..data.len() - 2]), s.cube.data.to_vec());
}

#[test]
fn control_changes_the_state() {
    let mut s = SharedState::new(solved());
    assert_eq!(s.control("START"), "{\"ok\":true,\"state\":\"running\"}");
    assert_eq!(s.run_state, RunState::Running);
    assert_eq!(s.control("what?"), "{\"ok\":false,\"error\":\"unknown command\"}");
    assert_eq!(s.run_state, RunState::Running);
    assert_eq!(s.control("pause"), "{\"ok\":true,\"state\":\"paused\"}");
    assert_eq!(s.run_state, RunState::Paused);
    assert!(!s.shutdown);
    assert_eq!(s.control("shutdown"), "{\"ok\":true,\"state\":\"shutdown\"}");
    assert!(s.shutdown);
}

#[test]
fn executor_follows_the_state() {
    let mut s = SharedState::new(solved());
    assert_eq!(s.executor_action(), ExecutorAction::Wait);
    s.run_state = RunState::Running;
    assert_eq!(s.executor_action(), ExecutorAction::Collect);
    s.shutdown = true;
    assert_eq!(s.executor_action(), ExecutorAction::Exit);
}

fn found(moves: Vec<Move>, cost: i64) -> ExplorerResult {
    ExplorerResult { explorer_id: 0, moves, predicted_cost: cost, elapsed_us: 5 }
}

#[test]
fn best_result_is_carried_out() {
    let mut s = SharedState::new(solved());
    s.cube.apply(mv(1, 20, true));
    assert_eq!(s.execute(&vec![]), None);
    assert_eq!(s.execute(&vec![found(vec![], 1), found(vec![mv(1, 20, false)], 2)]), None);
    assert!(!s.shutdown);
    assert_eq!(s.execute(&vec![found(vec![mv(0, 0, true)], 900), found(vec![mv(1, 20, false)], 0)]), Some(1));
    assert!(s.cube.data == solved().data);
    assert_eq!(s.phase, SolvePhase::Solved);
    assert!(s.shutdown);
    s.record(1, 30, 5);
    assert_eq!((s.total_moves, s.total_elapsed_us), (1, 35));
}

#[test]
fn what_was_carried_out_is_booked() {
    let mut s = SharedState::new(solved());
    let results = vec![
        found(vec![mv(0, 0, true)], 900),
        ExplorerResult {
            explorer_id: 3,
            moves: vec![mv(1, 20, true), mv(0, 7, false), mv(2, 5, true)],
            predicted_cost: 12,
            elapsed_us: 450,
        },
    ];
    let k = s.execute(&results).unwrap();
    assert_eq!((s.total_moves, s.total_elapsed_us), (0, 0));
    s.account(&results[k], 30);
    assert_eq!((s.total_moves, s.total_elapsed_us), (3, 480));
    s.account(&results[0], 1);
    assert_eq!((s.total_moves, s.total_elapsed_us), (4, 486));
    s.total_moves = u64::MAX;
    s.total_elapsed_us = u64::MAX - 1;
    s.account(&results[1], 0);
    assert_eq!((s.total_moves, s.total_elapsed_us), (2, 448));
}

#[test]
fn totals_wrap_around() {
    let mut s = SharedState::new(solved());
    s.total_moves = u64::MAX;
    s.total_elapsed_us = u64::MAX - 1;
    s.record(3, 4, 5);
    assert_eq!((s.total_moves, s.total_elapsed_us), (2, 7));
}

#[test]
fn times_are_kept() {
    assert!(!tick_due(199_999_999));
    assert!(tick_due(200_000_000));
    assert_eq!(collect_wait(0), Some(5_000_000));
    assert_eq!(collect_wait(15_000_000), Some(5_000_000));
    assert_eq!(collect_wait(18_000_000), Some(2_000_000));
    assert_eq!(collect_wait(20_000_000), None);
    assert_eq!(collect_wait(u128::MAX), None);
}

#[test]
fn header_ends_at_the_blank_line() {
    assert_eq!(find_header_end(b"ab\r\n\r\ncd\r\n\r\n"), 2);
    assert_eq!(find_header_end(b"abcdefg"), 3);
    assert_eq!(find_header_end(b"abc"), 0);
    assert_eq!(find_header_end(b""), 0);
    assert_eq!(find_header_end(b"\r\n\r\n"), 0);
}

#[test]
fn request_lines_are_read_as_the_standard_library_reads_them() {
    let reference = |buf: &[u8]| -> Option<(String, String)> {
        let text = std::str::from_utf8(buf).ok()?;
        let first = text.lines().next()?;
        let mut it = first.splitn(3, ' ');
        Some((it.next()?.to_string(), it.next()?.to_string()))
    };
    let cases: Vec<&[u8]> = vec![
        b"GET /status HTTP/1.1\r\nHost: x", b"GET /status", b"GET", b"", b"\n GET", b" ", b"  ", b"a b\r", b"a b\r\nc d",
        b"a\r\nb c", b"POST /control x y z", b"GET\t/status", "é /ü x".as_bytes(), b"\xff GET /", b"GET /status\xc3", b"a \n",
    ];
    for buf in cases {
        let got = parse_request_line(buf).map(|(m, p)| (m.to_string(), p.to_string()));
        assert_eq!(got, reference(buf), "{:?}", buf);
    }
}

#[test]
fn content_lengths_are_read_as_the_standard_library_reads_them() {
    let reference = |buf: &[u8]| -> usize {
        let hdr = std::str::from_utf8(buf).unwrap_or("");
        hdr.lines()
            .find(|l| l.to_ascii_lowercase().starts_with("content-length:"))
            .and_then(|l| l.splitn(2, ':').nth(1))
            .and_then(|v| v.trim().parse().ok())
            .unwrap_or(0)
    };
    let cases: Vec<&[u8]> = vec![
        b"POST /control HTTP/1.1\r\nContent-Length: 12\r\nX: y", b"CONTENT-LENGTH:5", b"content-length:\t7 \r", b"",
        b"content-length: x\r\ncontent-length: 3", b"x\ncontent-length: 3:4", b"xcontent-length: 3", b"content-length:",
        b"Content-Length: +8\r\n", b"content-length\r\n: 4", b"\xffcontent-length: 4", b"a\r\n\r\nContent-length: 6",
        b"content-length: 5\r", b"content-lengt", "c\ncontent-length:\u{2003}21".as_bytes(),
    ];
    for buf in cases {
        assert_eq!(parse_content_length(buf), reference(buf), "{:?}", buf);
    }
}

#[test]
fn routes_are_told_apart() {
    let of = |line: &str| route(format!("{}\r\nHost: h\r\n\r\n", line).as_bytes());
    assert_eq!(of("GET /status HTTP/1.1"), Route::Status);
    assert_eq!(of("GET /cube HTTP/1.1"), Route::CubeData);
    assert_eq!(of("GET /health HTTP/1.1"), Route::Health);
    assert_eq!(of("POST /control HTTP/1.1"), Route::Control);
    assert_eq!(of("POST /status HTTP/1.1"), Route::MethodNotAllowed);
    assert_eq!(of("GET /control HTTP/1.1"), Route::MethodNotAllowed);
    assert_eq!(of("PUT /cube HTTP/1.1"), Route::MethodNotAllowed);
    assert_eq!(of("POST /health HTTP/1.1"), Route::NotFound);
    assert_eq!(of("GET / HTTP/1.1"), Route::NotFound);
    assert_eq!(of("GET"), Route::BadRequest);
    assert_eq!(route(b"\xff\xfe GET /status\r\n\r\n"), Route::BadRequest);
    // Without a blank line the last four bytes do not belong to the header.
    assert_eq!(route(b"GET /statusXXXX"), Route::Status);
}

#[test]
fn missing_bodies_are_measured() {
    let control = b"POST /control HTTP/1.1\r\nContent-Length: 9\r\n\r\nsta";
    assert_eq!(missing_body(control), 6);
    assert_eq!(missing_body(b"POST /control HTTP/1.1\r\nContent-Length: 2\r\n\r\nsta"), 0);
    assert_eq!(missing_body(b"POST /control HTTP/1.1\r\n\r\nsta"), 0);
    assert_eq!(missing_body(b"GET /status HTTP/1.1\r\nContent-Length: 9\r\n\r\n"), 0);
}

#[test]
fn bodies_are_joined_and_made_text() {
    assert_eq!(read_body(b"h\r\n\r\nabc", b"def"), "abcdef");
    assert_eq!(read_body(b"h\r\n\r\n", b""), "");
    assert_eq!(read_body(b"xyz", b"q"), "q");
    assert_eq!(read_body(b"h\r\n\r\n\xffstart", b"\xc3"), "\u{fffd}start\u{fffd}");
    assert_eq!(read_body("h\r\n\r\né".as_bytes(), b""), "é");
}

#[test]
fn responses_have_their_form() {
    assert_eq!(
        http_response(200, "text/plain", "OK"),
        b"HTTP/1.1 200 OK\r\nContent-Type: text/plain\r\nContent-Length: 2\r\nAccess-Control-Allow-Origin: *\r\nConnection: close\r\n\r\nOK".to_vec()
    );
    let text = |status| String::from_utf8(http_response(status, "a/b", "é")).unwrap();
    assert!(text(400).starts_with("HTTP/1.1 400 Bad Request\r\nContent-Type: a/b\r\nContent-Length: 2\r\n"));
    assert!(text(404).starts_with("HTTP/1.1 404 Not Found\r\n"));
    assert!(text(405).starts_with("HTTP/1.1 405 Method Not Allowed\r\n"));
    assert!(text(500).starts_with("HTTP/1.1 500 Error\r\n"));
    assert!(text(500).ends_with("\r\n\r\né"));
}

#[test]
fn requests_are_answered() {
    let mut s = SharedState::new(solved());
    assert_eq!(respond(&mut s, b"GET /health HTTP/1.1\r\n\r\n", b""), http_response(200, "text/plain", "OK"));
    let status = s.status_snapshot.clone();
    assert_eq!(
        respond(&mut s, b"GET /status HTTP/1.1\r\n\r\n", b""),
        http_response(200, "application/json", &status)
    );
    let cube = s.cube_snapshot.clone();
    assert_eq!(
        respond(&mut s, b"GET /cube HTTP/1.1\r\n\r\n", b""),
        http_response(200, "application/json", &cube)
    );
    assert_eq!(respond(&mut s, b"DELETE /cube HTTP/1.1\r\n\r\n", b""), http_response(405, "text/plain", "Method Not Allowed"));
    assert_eq!(respond(&mut s, b"GET /x HTTP/1.1\r\n\r\n", b""), http_response(404, "text/plain", "Not Found"));
    assert_eq!(respond(&mut s, b"\x80\r\n\r\n", b""), http_response(400, "text/plain", "Bad Request"));
    assert_eq!(s.run_state, RunState::Paused);
    assert_eq!(
        respond(&mut s, b"POST /control HTTP/1.1\r\nContent-Length: 5\r\n\r\nst", b"art"),
        http_response(200, "application/json", "{\"ok\":true,\"state\":\"running\"}")
    );
    assert_eq!(s.run_state, RunState::Running);
    // A broken byte before the word does not hide it.
    respond(&mut s, b"POST /control HTTP/1.1\r\n\r\n\xffpause", b"");
    assert_eq!(s.run_state, RunState::Paused);
    respond(&mut s, b"GET /control HTTP/1.1\r\n\r\nshutdown", b"");
    assert!(!s.shutdown);
    respond(&mut s, b"POST /control HTTP/1.1\r\n\r\nshutdown", b"");
    assert!(s.shutdown);
}

#[test]
fn served_cube_is_the_cube_of_the_tick() {
    let mut s = SharedState::new(solved());
    s.cube.apply(mv(2, 0, true));
    s.tick();
    let bytes = respond(&mut s, b"GET /cube HTTP/1.1\r\n\r\n", b"");
    let text = String::from_utf8(bytes).unwrap();
    let (head, body) = text.split_once("\r\n\r\n").unwrap();
    assert!(head.contains(&format!("Content-Length: {}\r\n", body.len())));
    let data = body.split("\"data\":\"").nth(1).unwrap();
    assert_eq!(decode(&data[..data.len() - 2]), s.cube.data.to_vec());
    assert_eq!(decode(&data[..data.len() - 2]).len(), TOTAL);
}

#[test]
fn base64_padding_is_at_the_end() {
    for len in 0..40usize {
        let text = base64_encode(&vec![0x5a; len]);
        let padding = (3 - len % 3) % 3;
        let (digits, rest) = text.split_at(text.len() - padding);
        assert!(!digits.contains('='));
        assert_eq!(rest, &"=="[..padding]);
    }
}

#[test]
fn base64_keeps_to_its_alphabet() {
    let all: Vec<u8> = (0..=255u8).chain((0..=255u8).rev()).collect();
    for part in [&all[..], &all[1..], &all[2..]] {
        assert!(base64_encode(part).chars().all(|c| c.is_ascii_alphanumeric() || "+/=".contains(c)));
    }
}

#[test]
fn shutdown_is_not_taken_back() {
    let mut s = SharedState::new(solved());
    s.control("shutdown");
    for body in ["start", "pause", "shutdown", "?"] {
        s.control(body);
        assert!(s.shutdown);
    }
}
