//! Static encoding profiles: a profile couples a container extension with
//! codec, resolution and bitrate information under a stable integer key.

use vstd::prelude::*;

verus! {

/// Video codec of a stream, `NONE` meaning the stream has no video track.
#[derive(Clone, Copy, Debug, PartialEq, Eq, Structural)]
pub enum VCodec {
    H263,
    H264,
    MPEG4,
    VP8,
    VP9,
    NONE,
}

/// Audio codec of a stream, `NONE` meaning the stream has no audio track.
#[derive(Clone, Copy, Debug, PartialEq, Eq, Structural)]
pub enum ACodec {
    MP3,
    AAC,
    VORBIS,
    OPUS,
    NONE,
}

/// One encoding profile as the hosting platform defines it.
#[derive(Clone, Copy, Debug)]
pub struct Format<'a> {
    itag: i32,
    ext: &'a str,
    height: i32,
    fps: u32,
    v_codec: VCodec,
    a_codec: ACodec,
    audio_bitrate: i32,
    is_dash_container: bool,
    is_hls_content: bool,
}

/// Mathematical value of a `Format`: the same fields over `int` and `Seq<char>`.
pub ghost struct FormatV {
    pub itag: int,
    pub ext: Seq<char>,
    pub height: int,
    pub fps: int,
    pub v_codec: VCodec,
    pub a_codec: ACodec,
    pub audio_bitrate: int,
    pub is_dash_container: bool,
    pub is_hls_content: bool,
}

impl<'a> View for Format<'a> {
    type V = FormatV;

    closed spec fn view(&self) -> FormatV {
        FormatV {
            itag: self.itag as int,
            ext: self.ext@,
            height: self.height as int,
            fps: self.fps as int,
            v_codec: self.v_codec,
            a_codec: self.a_codec,
            audio_bitrate: self.audio_bitrate as int,
            is_dash_container: self.is_dash_container,
            is_hls_content: self.is_hls_content,
        }
    }
}

impl<'a> Format<'a> {
    pub fn new(
        itag: i32,
        ext: &str,
        height: i32,
        fps: u32,
        v_codec: VCodec,
        a_codec: ACodec,
        audio_bitrate: i32,
        is_dash_container: bool,
        is_hls_content: bool,
    ) -> (r: Format)
        ensures
            r@ == (FormatV {
                itag: itag as int,
                ext: ext@,
                height: height as int,
                fps: fps as int,
                v_codec,
                a_codec,
                audio_bitrate: audio_bitrate as int,
                is_dash_container,
                is_hls_content,
            }),
    {
        Format {
            itag,
            ext,
            height,
            fps,
            v_codec,
            a_codec,
            audio_bitrate,
            is_dash_container,
            is_hls_content,
        }
    }

    /// Frames per second of the video track (populated, though meaningless,
    /// for audio-only profiles).
    pub fn get_fps(&self) -> (r: u32)
        ensures
            r as int == self@.fps,
    {
        self.fps
    }

    /// Audio bitrate in kbit/s, or -1 if there is no audio track.
    pub fn get_audio_bitrate(&self) -> (r: i32)
        ensures
            r as int == self@.audio_bitrate,
    {
        self.audio_bitrate
    }

    /// The platform's stable integer identifier of this profile.
    pub fn get_itag(&self) -> (r: i32)
        ensures
            r as int == self@.itag,
    {
        self.itag
    }

    /// The file extension and container format, like "mp4".
    pub fn get_extension(&self) -> (r: &str)
        ensures
            r@ == self@.ext,
    {
        self.ext
    }

    /// The pixel height of the video stream, or -1 for audio-only profiles.
    pub fn get_height(&self) -> (r: i32)
        ensures
            r as int == self@.height,
    {
        self.height
    }

    /// The audio codec of this profile.
    pub fn get_audio_codec(&self) -> (r: &ACodec)
        ensures
            *r == self@.a_codec,
    {
        &self.a_codec
    }

    /// The video codec of this profile.
    pub fn get_video_codec(&self) -> (r: &VCodec)
        ensures
            *r == self@.v_codec,
    {
        &self.v_codec
    }
}

} // verus!
