//! The fixed catalog of known encoding profiles: a pure table from the
//! platform's integer identifier (itag) to the profile's static properties.

use vstd::prelude::*;

use crate::format::ACodec;
use crate::format::Format;
use crate::format::FormatV;
use crate::format::VCodec;

verus! {

/// Abbreviation used by `spec_lookup` to write one catalog row.
pub open spec fn row(
    itag: int,
    ext: Seq<char>,
    height: int,
    fps: int,
    v_codec: VCodec,
    a_codec: ACodec,
    audio_bitrate: int,
    is_dash_container: bool,
    is_hls_content: bool,
) -> FormatV {
    FormatV {
        itag,
        ext,
        height,
        fps,
        v_codec,
        a_codec,
        audio_bitrate,
        is_dash_container,
        is_hls_content,
    }
}

/// The catalog as a mathematical table. These rows are externally defined
/// constants of the hosting platform, reproduced verbatim.
pub open spec fn spec_lookup(itag: int) -> Option<FormatV> {
    if itag == 17 { Some(row(17, "3gp"@, 144, 30, VCodec::MPEG4, ACodec::AAC, 24, false, false)) }
    else if itag == 36 { Some(row(36, "3gp"@, 240, 30, VCodec::MPEG4, ACodec::AAC, 32, false, false)) }
    else if itag == 5 { Some(row(5, "flv"@, 240, 30, VCodec::H263, ACodec::MP3, 64, false, false)) }
    else if itag == 43 { Some(row(43, "webm"@, 360, 30, VCodec::VP8, ACodec::VORBIS, 128, false, false)) }
    else if itag == 18 { Some(row(18, "mp4"@, 360, 30, VCodec::H264, ACodec::AAC, 96, false, false)) }
    else if itag == 22 { Some(row(22, "mp4"@, 720, 30, VCodec::H264, ACodec::AAC, 192, false, false)) }
    else if itag == 160 { Some(row(160, "mp4"@, 144, 30, VCodec::H264, ACodec::NONE, -1, true, false)) }
    else if itag == 133 { Some(row(133, "mp4"@, 240, 30, VCodec::H264, ACodec::NONE, -1, true, false)) }
    else if itag == 134 { Some(row(134, "mp4"@, 360, 30, VCodec::H264, ACodec::NONE, -1, true, false)) }
    else if itag == 135 { Some(row(135, "mp4"@, 480, 30, VCodec::H264, ACodec::NONE, -1, true, false)) }
    else if itag == 136 { Some(row(136, "mp4"@, 720, 30, VCodec::H264, ACodec::NONE, -1, true, false)) }
    else if itag == 137 { Some(row(137, "mp4"@, 1080, 30, VCodec::H264, ACodec::NONE, -1, true, false)) }
    else if itag == 264 { Some(row(264, "mp4"@, 1440, 30, VCodec::H264, ACodec::NONE, -1, true, false)) }
    else if itag == 266 { Some(row(266, "mp4"@, 2160, 30, VCodec::H264, ACodec::NONE, -1, true, false)) }
    else if itag == 298 { Some(row(298, "mp4"@, 720, 60, VCodec::H264, ACodec::NONE, -1, true, false)) }
    else if itag == 299 { Some(row(299, "mp4"@, 1080, 30, VCodec::H264, ACodec::NONE, -1, true, false)) }
    else if itag == 140 { Some(row(140, "m4a"@, -1, 30, VCodec::NONE, ACodec::AAC, 128, true, false)) }
    else if itag == 141 { Some(row(141, "m4a"@, -1, 30, VCodec::NONE, ACodec::AAC, 256, true, false)) }
    else if itag == 256 { Some(row(256, "m4a"@, -1, 30, VCodec::NONE, ACodec::AAC, 192, true, false)) }
    else if itag == 258 { Some(row(258, "m4a"@, -1, 30, VCodec::NONE, ACodec::AAC, 384, true, false)) }
    else if itag == 278 { Some(row(278, "webm"@, 144, 30, VCodec::VP9, ACodec::NONE, -1, true, false)) }
    else if itag == 242 { Some(row(242, "webm"@, 240, 30, VCodec::VP9, ACodec::NONE, -1, true, false)) }
    else if itag == 243 { Some(row(243, "webm"@, 360, 30, VCodec::VP9, ACodec::NONE, -1, true, false)) }
    else if itag == 244 { Some(row(244, "webm"@, 480, 30, VCodec::VP9, ACodec::NONE, -1, true, false)) }
    else if itag == 247 { Some(row(247, "webm"@, 720, 30, VCodec::VP9, ACodec::NONE, -1, true, false)) }
    else if itag == 248 { Some(row(248, "webm"@, 1080, 30, VCodec::VP9, ACodec::NONE, -1, true, false)) }
    else if itag == 271 { Some(row(271, "webm"@, 1440, 30, VCodec::VP9, ACodec::NONE, -1, true, false)) }
    else if itag == 313 { Some(row(313, "webm"@, 2160, 30, VCodec::VP9, ACodec::NONE, -1, true, false)) }
    else if itag == 302 { Some(row(302, "webm"@, 720, 60, VCodec::VP9, ACodec::NONE, -1, true, false)) }
    else if itag == 308 { Some(row(308, "webm"@, 1440, 60, VCodec::VP9, ACodec::NONE, -1, true, false)) }
    else if itag == 303 { Some(row(303, "webm"@, 1080, 60, VCodec::VP9, ACodec::NONE, -1, true, false)) }
    else if itag == 315 { Some(row(315, "webm"@, 2160, 60, VCodec::VP9, ACodec::NONE, -1, true, false)) }
    else if itag == 171 { Some(row(171, "webm"@, -1, 30, VCodec::NONE, ACodec::VORBIS, 128, true, false)) }
    else if itag == 249 { Some(row(249, "webm"@, -1, 30, VCodec::NONE, ACodec::OPUS, 48, true, false)) }
    else if itag == 250 { Some(row(250, "webm"@, -1, 30, VCodec::NONE, ACodec::OPUS, 64, true, false)) }
    else if itag == 251 { Some(row(251, "webm"@, -1, 30, VCodec::NONE, ACodec::OPUS, 160, true, false)) }
    else if itag == 91 { Some(row(91, "mp4"@, 144, 30, VCodec::H264, ACodec::AAC, 48, false, true)) }
    else if itag == 92 { Some(row(92, "mp4"@, 240, 30, VCodec::H264, ACodec::AAC, 128, false, true)) }
    else if itag == 93 { Some(row(93, "mp4"@, 360, 30, VCodec::H264, ACodec::AAC, 128, false, true)) }
    else if itag == 94 { Some(row(94, "mp4"@, 480, 30, VCodec::H264, ACodec::AAC, 256, false, true)) }
    else if itag == 95 { Some(row(95, "mp4"@, 720, 30, VCodec::H264, ACodec::AAC, 256, false, true)) }
    else if itag == 96 { Some(row(96, "mp4"@, 1080, 30, VCodec::H264, ACodec::AAC, 256, false, true)) }
    else { None }
}

/// What `lookup` promises of its result: it is exactly the catalog row.
pub open spec fn lookup_returns(r: Option<FormatV>, itag: int) -> bool {
    match r {
        Some(v) => spec_lookup(itag) == Some(v),
        None => spec_lookup(itag) is None,
    }
}

/// Look an itag up in the fixed catalog.
#[verifier::rlimit(40)]
pub fn lookup(itag: i32) -> (r: Option<Format<'static>>)
    ensures
        lookup_returns(
            match r {
                Some(f) => Some(f@),
                None => None,
            },
            itag as int,
        ),
{
    match itag {
        17 => Some(Format::new(17, "3gp", 144, 30, VCodec::MPEG4, ACodec::AAC, 24, false, false)),
        36 => Some(Format::new(36, "3gp", 240, 30, VCodec::MPEG4, ACodec::AAC, 32, false, false)),
        5 => Some(Format::new(5, "flv", 240, 30, VCodec::H263, ACodec::MP3, 64, false, false)),
        43 => Some(Format::new(43, "webm", 360, 30, VCodec::VP8, ACodec::VORBIS, 128, false, false)),
        18 => Some(Format::new(18, "mp4", 360, 30, VCodec::H264, ACodec::AAC, 96, false, false)),
        22 => Some(Format::new(22, "mp4", 720, 30, VCodec::H264, ACodec::AAC, 192, false, false)),
        160 => Some(Format::new(160, "mp4", 144, 30, VCodec::H264, ACodec::NONE, -1, true, false)),
        133 => Some(Format::new(133, "mp4", 240, 30, VCodec::H264, ACodec::NONE, -1, true, false)),
        134 => Some(Format::new(134, "mp4", 360, 30, VCodec::H264, ACodec::NONE, -1, true, false)),
        135 => Some(Format::new(135, "mp4", 480, 30, VCodec::H264, ACodec::NONE, -1, true, false)),
        136 => Some(Format::new(136, "mp4", 720, 30, VCodec::H264, ACodec::NONE, -1, true, false)),
        137 => Some(Format::new(137, "mp4", 1080, 30, VCodec::H264, ACodec::NONE, -1, true, false)),
        264 => Some(Format::new(264, "mp4", 1440, 30, VCodec::H264, ACodec::NONE, -1, true, false)),
        266 => Some(Format::new(266, "mp4", 2160, 30, VCodec::H264, ACodec::NONE, -1, true, false)),
        298 => Some(Format::new(298, "mp4", 720, 60, VCodec::H264, ACodec::NONE, -1, true, false)),
        299 => Some(Format::new(299, "mp4", 1080, 30, VCodec::H264, ACodec::NONE, -1, true, false)),
        140 => Some(Format::new(140, "m4a", -1, 30, VCodec::NONE, ACodec::AAC, 128, true, false)),
        141 => Some(Format::new(141, "m4a", -1, 30, VCodec::NONE, ACodec::AAC, 256, true, false)),
        256 => Some(Format::new(256, "m4a", -1, 30, VCodec::NONE, ACodec::AAC, 192, true, false)),
        258 => Some(Format::new(258, "m4a", -1, 30, VCodec::NONE, ACodec::AAC, 384, true, false)),
        278 => Some(Format::new(278, "webm", 144, 30, VCodec::VP9, ACodec::NONE, -1, true, false)),
        242 => Some(Format::new(242, "webm", 240, 30, VCodec::VP9, ACodec::NONE, -1, true, false)),
        243 => Some(Format::new(243, "webm", 360, 30, VCodec::VP9, ACodec::NONE, -1, true, false)),
        244 => Some(Format::new(244, "webm", 480, 30, VCodec::VP9, ACodec::NONE, -1, true, false)),
        247 => Some(Format::new(247, "webm", 720, 30, VCodec::VP9, ACodec::NONE, -1, true, false)),
        248 => Some(Format::new(248, "webm", 1080, 30, VCodec::VP9, ACodec::NONE, -1, true, false)),
        271 => Some(Format::new(271, "webm", 1440, 30, VCodec::VP9, ACodec::NONE, -1, true, false)),
        313 => Some(Format::new(313, "webm", 2160, 30, VCodec::VP9, ACodec::NONE, -1, true, false)),
        302 => Some(Format::new(302, "webm", 720, 60, VCodec::VP9, ACodec::NONE, -1, true, false)),
        308 => Some(Format::new(308, "webm", 1440, 60, VCodec::VP9, ACodec::NONE, -1, true, false)),
        303 => Some(Format::new(303, "webm", 1080, 60, VCodec::VP9, ACodec::NONE, -1, true, false)),
        315 => Some(Format::new(315, "webm", 2160, 60, VCodec::VP9, ACodec::NONE, -1, true, false)),
        171 => Some(Format::new(171, "webm", -1, 30, VCodec::NONE, ACodec::VORBIS, 128, true, false)),
        249 => Some(Format::new(249, "webm", -1, 30, VCodec::NONE, ACodec::OPUS, 48, true, false)),
        250 => Some(Format::new(250, "webm", -1, 30, VCodec::NONE, ACodec::OPUS, 64, true, false)),
        251 => Some(Format::new(251, "webm", -1, 30, VCodec::NONE, ACodec::OPUS, 160, true, false)),
        91 => Some(Format::new(91, "mp4", 144, 30, VCodec::H264, ACodec::AAC, 48, false, true)),
        92 => Some(Format::new(92, "mp4", 240, 30, VCodec::H264, ACodec::AAC, 128, false, true)),
        93 => Some(Format::new(93, "mp4", 360, 30, VCodec::H264, ACodec::AAC, 128, false, true)),
        94 => Some(Format::new(94, "mp4", 480, 30, VCodec::H264, ACodec::AAC, 256, false, true)),
        95 => Some(Format::new(95, "mp4", 720, 30, VCodec::H264, ACodec::AAC, 256, false, true)),
        96 => Some(Format::new(96, "mp4", 1080, 30, VCodec::H264, ACodec::AAC, 256, false, true)),
        _ => None,
    }
}

/// Law: the catalog is a pure table. Any two results that meet `lookup`'s
/// contract for the same itag are the same value, so repeated calls of
/// `lookup` agree and mutate no hidden state.
pub proof fn lemma_lookup_pure(itag: int, r1: Option<FormatV>, r2: Option<FormatV>)
    requires
        lookup_returns(r1, itag),
        lookup_returns(r2, itag),
    ensures
        r1 == r2,
{
}

} // verus!

