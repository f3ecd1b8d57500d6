use yt_download::capture::capture_component;
use yt_download::capture::capture_payload;
use yt_download::capture::percent_decode;
use yt_download::capture::unescape_amp;

#[test]
fn payload_is_captured_between_braces() {
    let page = b"junk var ytInitialPlayerResponse = {\"a\": 1};tail";
    let cap = capture_payload(page).expect("capture succeeds");
    assert_eq!(cap, b"{\"a\": 1}".to_vec());
}

#[test]
fn payload_capture_allows_whitespace_around_assignment() {
    let page = b"var ytInitialPlayerResponse\n =\t {\"a\": 1}  \n ;";
    let cap = capture_payload(page).expect("capture succeeds");
    assert_eq!(cap, b"{\"a\": 1}".to_vec());
}

#[test]
fn payload_capture_stops_at_first_closing_brace_before_semicolon() {
    let page = b"var ytInitialPlayerResponse = {\"a\": {\"b\": 2}};";
    let cap = capture_payload(page).expect("capture succeeds");
    assert_eq!(cap, b"{\"a\": {\"b\": 2}}".to_vec());
}

#[test]
fn capture_retries_from_the_next_marker_occurrence() {
    let page = b"var ytInitialPlayerResponse appears early; var ytInitialPlayerResponse = {\"a\": 1};";
    let cap = capture_payload(page).expect("the second occurrence completes the shape");
    assert_eq!(cap, b"{\"a\": 1}".to_vec());
}

#[test]
fn payload_capture_fails_without_marker() {
    assert!(capture_payload(b"{\"a\": 1};").is_none());
}

#[test]
fn payload_capture_fails_without_semicolon() {
    assert!(capture_payload(b"var ytInitialPlayerResponse = {\"a\": 1}").is_none());
}

#[test]
fn payload_capture_fails_on_line_break_inside_object() {
    assert!(capture_payload(b"var ytInitialPlayerResponse = {\"a\":\n1};").is_none());
}

#[test]
fn component_is_cut_at_ampersand() {
    let cipher = b"s=SIGTOK&sp=sig&url=http%3A%2F%2Fx%2Fy";
    let url = capture_component(cipher, b"url=").expect("url component");
    assert_eq!(url, b"http%3A%2F%2Fx%2Fy".to_vec());
    let sig = capture_component(cipher, b"s=").expect("signature component");
    assert_eq!(sig, b"SIGTOK".to_vec());
}

#[test]
fn component_runs_to_end_without_delimiter() {
    let url = capture_component(b"url=abc", b"url=").expect("url component");
    assert_eq!(url, b"abc".to_vec());
}

#[test]
fn missing_or_empty_component_is_none() {
    assert!(capture_component(b"sp=sig", b"url=").is_none());
    assert!(capture_component(b"url=&s=x", b"url=").is_none());
}

#[test]
fn percent_decode_handles_both_hex_cases() {
    assert_eq!(percent_decode(b"http%3A%2F%2Fx"), b"http://x".to_vec());
    assert_eq!(percent_decode(b"%41%62%63"), b"Abc".to_vec());
    assert_eq!(percent_decode(b"%3a%2f"), b":/".to_vec());
}

#[test]
fn percent_decode_keeps_malformed_escapes() {
    assert_eq!(percent_decode(b"a%zzb"), b"a%zzb".to_vec());
    assert_eq!(percent_decode(b"end%2"), b"end%2".to_vec());
    assert_eq!(percent_decode(b"%"), b"%".to_vec());
}

#[test]
fn unescape_restores_escaped_ampersands() {
    assert_eq!(unescape_amp(b"a=1\\u0026b=2\\u0026c=3"), b"a=1&b=2&c=3".to_vec());
    assert_eq!(unescape_amp(b"plain"), b"plain".to_vec());
    assert_eq!(unescape_amp(b"\\u0026"), b"&".to_vec());
}
