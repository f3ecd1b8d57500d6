use yt_download::catalog::lookup;
use yt_download::extract::ResolvedStream;
use yt_download::select::filter_reachable;
use yt_download::select::partition_streams;
use yt_download::select::sort_by_bitrate;
use yt_download::select::sort_by_height;

fn stream(itag: i32, url: &str) -> ResolvedStream {
    ResolvedStream { url: url.as_bytes().to_vec(), profile: lookup(itag).expect("catalog itag") }
}

#[test]
fn filter_keeps_only_reachable_in_original_position() {
    let streams = vec![stream(18, "http://dead/a"), stream(22, "http://live/b")];
    let reachable = vec![false, true];
    let kept = filter_reachable(streams, &reachable);
    assert_eq!(kept.len(), 1);
    assert_eq!(kept[0].url, b"http://live/b".to_vec());
    assert_eq!(kept[0].profile.get_itag(), 22);
}

#[test]
fn filter_preserves_relative_order() {
    let streams = vec![
        stream(17, "http://a"),
        stream(18, "http://b"),
        stream(22, "http://c"),
        stream(137, "http://d"),
    ];
    let reachable = vec![true, false, true, true];
    let kept = filter_reachable(streams, &reachable);
    assert_eq!(kept.len(), 3);
    assert_eq!(kept[0].url, b"http://a".to_vec());
    assert_eq!(kept[1].url, b"http://c".to_vec());
    assert_eq!(kept[2].url, b"http://d".to_vec());
}

#[test]
fn filter_of_all_unreachable_is_empty() {
    let streams = vec![stream(18, "http://a"), stream(22, "http://b")];
    let kept = filter_reachable(streams, &vec![false, false]);
    assert!(kept.is_empty());
}

#[test]
fn sort_heights_ascending() {
    // heights 720, 144, 1080
    let streams = vec![stream(22, "http://a"), stream(17, "http://b"), stream(137, "http://c")];
    let sorted = sort_by_height(streams);
    let heights: Vec<i32> = sorted.iter().map(|s| s.profile.get_height()).collect();
    assert_eq!(heights, vec![144, 720, 1080]);
}

#[test]
fn sort_bitrates_ascending() {
    // bitrates 128, 48, 160
    let streams = vec![stream(140, "http://a"), stream(249, "http://b"), stream(251, "http://c")];
    let sorted = sort_by_bitrate(streams);
    let rates: Vec<i32> = sorted.iter().map(|s| s.profile.get_audio_bitrate()).collect();
    assert_eq!(rates, vec![48, 128, 160]);
}

#[test]
fn sort_keeps_all_streams() {
    let streams = vec![stream(137, "http://c"), stream(22, "http://a"), stream(17, "http://b")];
    let sorted = sort_by_height(streams);
    assert_eq!(sorted.len(), 3);
    let mut urls: Vec<Vec<u8>> = sorted.iter().map(|s| s.url.clone()).collect();
    urls.sort();
    assert_eq!(urls, vec![b"http://a".to_vec(), b"http://b".to_vec(), b"http://c".to_vec()]);
}

#[test]
fn partition_splits_on_height_sentinel() {
    let entries = vec![
        (22, stream(22, "http://v1")),
        (140, stream(140, "http://a1")),
        (17, stream(17, "http://v2")),
        (251, stream(251, "http://a2")),
    ];
    let (video, audio) = partition_streams(entries);
    assert_eq!(video.len(), 2);
    assert_eq!(audio.len(), 2);
    assert_eq!(video[0].url, b"http://v1".to_vec());
    assert_eq!(video[1].url, b"http://v2".to_vec());
    assert_eq!(audio[0].url, b"http://a1".to_vec());
    assert_eq!(audio[1].url, b"http://a2".to_vec());
    assert!(video.iter().all(|s| s.profile.get_height() != -1));
    assert!(audio.iter().all(|s| s.profile.get_height() == -1));
}
