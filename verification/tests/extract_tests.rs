use yt_download::extract::extract;
use yt_download::extract::ExtractionError;

fn page(body: &str) -> String {
    format!("<html><script>var ytInitialPlayerResponse = {};</script></html>", body)
}

#[test]
fn round_trip_one_progressive_entry() {
    let p = page(r#"{"streamingData": {"formats": [{"itag": 18, "url": "http://x/y?a=1&b=2"}]}}"#);
    let res = extract(p.as_bytes()).expect("extraction succeeds");
    let st = res.get(18).expect("itag 18 resolved");
    assert_eq!(st.url, b"http://x/y?a=1&b=2".to_vec());
    assert_eq!(st.profile.get_itag(), 18);
    assert_eq!(st.profile.get_extension(), "mp4");
    let entries = res.entries();
    assert_eq!(entries.len(), 1);
}

#[test]
fn double_escaped_ampersand_is_restored() {
    // The JSON string carries a literal backslash-u-0026, which the walk
    // restores to a plain ampersand after JSON decoding.
    let p = page(r#"{"streamingData": {"formats": [{"itag": 18, "url": "http://x/y?a=1\\u0026b=2"}]}}"#);
    let res = extract(p.as_bytes()).expect("extraction succeeds");
    let st = res.get(18).expect("itag 18 resolved");
    assert_eq!(st.url, b"http://x/y?a=1&b=2".to_vec());
}

#[test]
fn unknown_itag_is_skipped_silently() {
    let p = page(r#"{"streamingData": {"formats": [{"itag": 999, "url": "http://x/y"}]}}"#);
    let res = extract(p.as_bytes()).expect("extraction succeeds");
    assert_eq!(res.len(), 0);
    assert!(res.get(999).is_none());
}

#[test]
fn adaptive_entry_overwrites_progressive_for_same_itag() {
    let p = page(
        r#"{"streamingData": {"formats": [{"itag": 140, "url": "http://progressive/a"}], "adaptiveFormats": [{"itag": 140, "url": "http://adaptive/b"}]}}"#,
    );
    let res = extract(p.as_bytes()).expect("extraction succeeds");
    let st = res.get(140).expect("itag 140 resolved");
    assert_eq!(st.url, b"http://adaptive/b".to_vec());
    assert_eq!(res.len(), 1);
}

#[test]
fn cipher_entry_recovers_percent_encoded_url() {
    let p = page(
        r#"{"streamingData": {"adaptiveFormats": [{"itag": 140, "signatureCipher": "s=SIGTOK&url=http%3A%2F%2Fx%2Fy"}]}}"#,
    );
    let res = extract(p.as_bytes()).expect("extraction succeeds");
    let st = res.get(140).expect("itag 140 resolved");
    assert_eq!(st.url, b"http://x/y".to_vec());
}

#[test]
fn cipher_without_url_component_is_skipped() {
    let p = page(
        r#"{"streamingData": {"adaptiveFormats": [{"itag": 140, "signatureCipher": "s=SIGTOK"}]}}"#,
    );
    let res = extract(p.as_bytes()).expect("extraction succeeds");
    assert_eq!(res.len(), 0);
}

#[test]
fn cipher_without_signature_component_is_skipped() {
    let p = page(
        r#"{"streamingData": {"adaptiveFormats": [{"itag": 140, "signatureCipher": "url=http%3A%2F%2Fx%2Fy"}]}}"#,
    );
    let res = extract(p.as_bytes()).expect("extraction succeeds");
    assert_eq!(res.len(), 0);
}

#[test]
fn otf_entry_is_skipped() {
    let p = page(
        r#"{"streamingData": {"formats": [{"itag": 18, "type": "FORMAT_STREAM_TYPE_OTF", "url": "http://x/y"}]}}"#,
    );
    let res = extract(p.as_bytes()).expect("extraction succeeds");
    assert_eq!(res.len(), 0);
}

#[test]
fn missing_marker_yields_no_embedded_payload() {
    match extract(b"<html><body>nothing here</body></html>") {
        Err(e) => assert_eq!(e, ExtractionError::NoEmbeddedPayload),
        Ok(_) => panic!("extraction must fail without the marker"),
    }
}

#[test]
fn malformed_payload_yields_error_not_empty_result() {
    let p = "var ytInitialPlayerResponse = {this is not valid structured data};";
    match extract(p.as_bytes()) {
        Err(e) => assert_eq!(e, ExtractionError::MalformedPayload),
        Ok(_) => panic!("malformed text must not yield a silent empty result"),
    }
}

#[test]
fn non_integer_itag_yields_malformed_payload() {
    let p = page(r#"{"streamingData": {"formats": [{"itag": "abc", "url": "http://x/y"}]}}"#);
    match extract(p.as_bytes()) {
        Err(e) => assert_eq!(e, ExtractionError::MalformedPayload),
        Ok(_) => panic!("a non-integer itag must fail the run"),
    }
}

#[test]
fn entry_without_url_or_cipher_is_skipped() {
    let p = page(r#"{"streamingData": {"formats": [{"itag": 18}]}}"#);
    let res = extract(p.as_bytes()).expect("extraction succeeds");
    assert_eq!(res.len(), 0);
}

#[test]
fn page_may_hold_line_breaks_outside_the_object() {
    let p = format!(
        "<html>\n<body>\n<script>var ytInitialPlayerResponse = {};</script>\n</body>\n</html>",
        r#"{"streamingData": {"formats": [{"itag": 22, "url": "http://x/hd"}]}}"#
    );
    let res = extract(p.as_bytes()).expect("extraction succeeds");
    assert_eq!(res.get(22).expect("itag 22 resolved").url, b"http://x/hd".to_vec());
}

#[test]
fn cipher_with_lowercase_hex_is_decoded() {
    let p = page(
        r#"{"streamingData": {"adaptiveFormats": [{"itag": 251, "signatureCipher": "s=TOK&url=http%3a%2f%2fx%2fz"}]}}"#,
    );
    let res = extract(p.as_bytes()).expect("extraction succeeds");
    assert_eq!(res.get(251).expect("itag 251 resolved").url, b"http://x/z".to_vec());
}

#[test]
fn empty_lists_yield_empty_mapping() {
    let p = page(r#"{"streamingData": {"formats": [], "adaptiveFormats": []}}"#);
    let res = extract(p.as_bytes()).expect("extraction succeeds");
    assert_eq!(res.len(), 0);
}
