use yt_download::link::is_supported_url;

#[test]
fn canonical_watch_urls_are_accepted() {
    assert!(is_supported_url(b"https://www.youtube.com/watch?v=abcdef"));
    assert!(is_supported_url(b"http://www.youtube.com/watch?v=abcdef"));
    assert!(is_supported_url(b"https://youtube.com/watch?v=a"));
    assert!(is_supported_url(b"https://m.youtube.com/watch?v=abcdef"));
}

#[test]
fn shortened_urls_are_accepted() {
    assert!(is_supported_url(b"https://youtu.be/abcdef"));
    assert!(is_supported_url(b"http://www.youtu.be/abcdef"));
}

#[test]
fn other_shapes_are_rejected() {
    assert!(!is_supported_url(b""));
    assert!(!is_supported_url(b"youtube.com/watch?v=abc"));
    assert!(!is_supported_url(b"ftp://www.youtube.com/watch?v=abc"));
    assert!(!is_supported_url(b"https://example.com/watch?v=abc"));
    assert!(!is_supported_url(b"https://www.youtube.com/playlist?list=abc"));
}

#[test]
fn empty_video_id_is_rejected() {
    assert!(!is_supported_url(b"https://www.youtube.com/watch?v="));
    assert!(!is_supported_url(b"https://youtu.be/"));
}
