use yt_download::catalog::lookup;
use yt_download::format::ACodec;
use yt_download::format::Format;
use yt_download::format::VCodec;

#[test]
fn lookup_known_progressive_profile() {
    let f = lookup(18).expect("itag 18 is in the catalog");
    assert_eq!(f.get_itag(), 18);
    assert_eq!(f.get_extension(), "mp4");
    assert_eq!(f.get_height(), 360);
    assert_eq!(f.get_fps(), 30);
    assert_eq!(*f.get_video_codec(), VCodec::H264);
    assert_eq!(*f.get_audio_codec(), ACodec::AAC);
    assert_eq!(f.get_audio_bitrate(), 96);
}

#[test]
fn lookup_known_audio_profile() {
    let f = lookup(140).expect("itag 140 is in the catalog");
    assert_eq!(f.get_itag(), 140);
    assert_eq!(f.get_extension(), "m4a");
    assert_eq!(f.get_height(), -1);
    assert_eq!(*f.get_video_codec(), VCodec::NONE);
    assert_eq!(*f.get_audio_codec(), ACodec::AAC);
    assert_eq!(f.get_audio_bitrate(), 128);
}

#[test]
fn lookup_known_webm_opus_profile() {
    let f = lookup(251).expect("itag 251 is in the catalog");
    assert_eq!(f.get_extension(), "webm");
    assert_eq!(f.get_height(), -1);
    assert_eq!(*f.get_audio_codec(), ACodec::OPUS);
    assert_eq!(f.get_audio_bitrate(), 160);
}

#[test]
fn lookup_known_hls_profile() {
    let f = lookup(96).expect("itag 96 is in the catalog");
    assert_eq!(f.get_extension(), "mp4");
    assert_eq!(f.get_height(), 1080);
    assert_eq!(f.get_audio_bitrate(), 256);
}

#[test]
fn lookup_unknown_itag_is_none() {
    assert!(lookup(999).is_none());
    assert!(lookup(0).is_none());
    assert!(lookup(-1).is_none());
}

#[test]
fn lookup_is_pure_across_calls() {
    for itag in [17, 18, 22, 140, 251, 999, 5, 313] {
        let a = lookup(itag);
        let b = lookup(itag);
        match (a, b) {
            (Some(x), Some(y)) => {
                assert_eq!(x.get_itag(), y.get_itag());
                assert_eq!(x.get_extension(), y.get_extension());
                assert_eq!(x.get_height(), y.get_height());
                assert_eq!(x.get_fps(), y.get_fps());
                assert_eq!(x.get_audio_bitrate(), y.get_audio_bitrate());
                assert_eq!(*x.get_video_codec(), *y.get_video_codec());
                assert_eq!(*x.get_audio_codec(), *y.get_audio_codec());
            },
            (None, None) => {},
            _ => panic!("lookup changed its answer between calls"),
        }
    }
}

#[test]
fn format_new_keeps_fields() {
    let f = Format::new(7, "ogg", 480, 25, VCodec::VP8, ACodec::VORBIS, 112, true, false);
    assert_eq!(f.get_itag(), 7);
    assert_eq!(f.get_extension(), "ogg");
    assert_eq!(f.get_height(), 480);
    assert_eq!(f.get_fps(), 25);
    assert_eq!(*f.get_video_codec(), VCodec::VP8);
    assert_eq!(*f.get_audio_codec(), ACodec::VORBIS);
    assert_eq!(f.get_audio_bitrate(), 112);
}
