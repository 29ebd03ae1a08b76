//! The data model shared by the services: media kinds, export settings and
//! the audio-only output spec.

use vstd::prelude::*;

use crate::text::{lowercase, str_eq, to_lowercase};

verus! {

/// What a dropped file is.
#[derive(Debug, Clone, Copy, PartialEq, Eq, Structural)]
pub enum MediaType {
    Video,
    Audio,
}

/// How to reconcile an audio file that runs longer than its video.
#[derive(Debug, Clone, Copy, PartialEq, Eq, Structural)]
pub enum LengthFix {
    /// Trim the audio hard at the end of the video (ffmpeg `-shortest`).
    Cut,
    /// Keep the video length, but fade the audio out over the final 12 frames.
    Fade,
    /// Hold the last video frame until the video is as long as the audio.
    Freeze,
}

impl Default for LengthFix {
    fn default() -> (r: Self)
        ensures
            r == LengthFix::Cut,
    {
        LengthFix::Cut
    }
}

/// Video stream handling for laybacks.
#[derive(Debug, Clone, Copy, PartialEq, Eq, Structural)]
pub enum VideoCodecOption {
    Original,
    H264,
}

/// Audio stream handling for laybacks.
#[derive(Debug, Clone, Copy, PartialEq, Eq, Structural)]
pub enum AudioFormatOption {
    Original,
    Aac,
}

/// Container for audio-only outputs. Original keeps the source's own.
#[derive(Debug, Clone, Copy, PartialEq, Eq, Structural)]
pub enum AudioContainer {
    Original,
    Wav,
    Aiff,
    Flac,
    Alac,
    Aac,
}

impl Default for AudioContainer {
    fn default() -> (r: Self)
        ensures
            r == AudioContainer::Original,
    {
        AudioContainer::Original
    }
}

/// The extension a container writes, or None for "keep the source's".
pub open spec fn container_extension(c: AudioContainer) -> Option<Seq<char>> {
    match c {
        AudioContainer::Original => None,
        AudioContainer::Wav => Some("wav"@),
        AudioContainer::Aiff => Some("aif"@),
        AudioContainer::Flac => Some("flac"@),
        AudioContainer::Alac => Some("m4a"@),
        AudioContainer::Aac => Some("m4a"@),
    }
}

impl AudioContainer {
    /// File extension the container writes, or None for "keep the source's".
    pub fn extension(&self) -> (r: Option<&'static str>)
        ensures
            r.is_some() == container_extension(*self).is_some(),
            r matches Some(e) ==> e@ == container_extension(*self).unwrap(),
    {
        match self {
            AudioContainer::Original => None,
            AudioContainer::Wav => Some("wav"),
            AudioContainer::Aiff => Some("aif"),
            AudioContainer::Flac => Some("flac"),
            AudioContainer::Alac => Some("m4a"),
            AudioContainer::Aac => Some("m4a"),
        }
    }

    /// Lossy containers can't hold PCM, so a re-encode has to go elsewhere.
    pub fn is_lossy(&self) -> (r: bool)
        ensures
            r == (*self == AudioContainer::Aac),
    {
        matches!(self, AudioContainer::Aac)
    }
}

/// What an audio-only render should come out as. `None` = keep the source's.
#[derive(Debug, Clone, Copy, PartialEq, Eq, Structural)]
pub struct AudioOutputSpec {
    pub container: AudioContainer,
    pub sample_rate: Option<u32>,
    pub bit_depth: Option<u32>,
}

impl Default for AudioOutputSpec {
    fn default() -> (r: Self)
        ensures
            r.container == AudioContainer::Original,
            r.sample_rate.is_none(),
            r.bit_depth.is_none(),
    {
        AudioOutputSpec { container: AudioContainer::Original, sample_rate: None, bit_depth: None }
    }
}

impl AudioOutputSpec {
    /// True when the spec asks for a change to sample rate or bit depth.
    pub fn converts(&self) -> (r: bool)
        ensures
            r == (self.sample_rate.is_some() || self.bit_depth.is_some()),
    {
        self.sample_rate.is_some() || self.bit_depth.is_some()
    }

    /// True when anything about the output differs from "as the source is".
    pub fn is_set(&self) -> (r: bool)
        ensures
            r == (self.container != AudioContainer::Original || self.sample_rate.is_some()
                || self.bit_depth.is_some()),
    {
        self.container != AudioContainer::Original || self.converts()
    }
}

/// Export settings chosen in the UI.
#[derive(Debug, Clone)]
pub struct ExportSettings {
    pub video_codec: VideoCodecOption,
    pub audio_format: AudioFormatOption,
    pub aac_bitrate: u32,
    pub output_directory: Option<String>,
    pub use_audio_file_location: bool,
    /// Audio-only outputs: container, sample rate and bit depth (16, 24, or
    /// 32 = 32-bit float). Ignored on video laybacks.
    pub audio_container: AudioContainer,
    pub sample_rate: Option<u32>,
    pub bit_depth: Option<u32>,
}

impl Default for ExportSettings {
    fn default() -> (r: Self)
        ensures
            r.video_codec == VideoCodecOption::Original,
            r.audio_format == AudioFormatOption::Original,
            r.aac_bitrate == 320000,
            r.output_directory.is_none(),
            r.use_audio_file_location,
            r.audio_container == AudioContainer::Original,
            r.sample_rate.is_none(),
            r.bit_depth.is_none(),
    {
        ExportSettings {
            video_codec: VideoCodecOption::Original,
            audio_format: AudioFormatOption::Original,
            aac_bitrate: 320000,
            output_directory: None,
            use_audio_file_location: true,
            audio_container: AudioContainer::Original,
            sample_rate: None,
            bit_depth: None,
        }
    }
}

/// The extension of a video layback for an audio format.
pub open spec fn layback_extension(f: AudioFormatOption) -> Seq<char> {
    match f {
        AudioFormatOption::Original => "mov"@,
        AudioFormatOption::Aac => "mp4"@,
    }
}

impl ExportSettings {
    /// The container extension of a video layback: AAC goes in .mp4,
    /// anything else in .mov.
    pub fn output_extension(&self) -> (r: &'static str)
        ensures
            r@ == layback_extension(self.audio_format),
    {
        match self.audio_format {
            AudioFormatOption::Original => "mov",
            AudioFormatOption::Aac => "mp4",
        }
    }

    /// The audio-only output spec: container, sample rate and bit depth.
    pub fn audio_output_spec(&self) -> (r: AudioOutputSpec)
        ensures
            r.container == self.audio_container,
            r.sample_rate == self.sample_rate,
            r.bit_depth == self.bit_depth,
    {
        AudioOutputSpec {
            container: self.audio_container,
            sample_rate: self.sample_rate,
            bit_depth: self.bit_depth,
        }
    }
}

/// Supported video extensions, lowercase.
pub open spec fn video_extensions() -> Seq<Seq<char>> {
    seq!["mp4"@, "mov"@, "m4v"@, "mxf"@]
}

/// Supported audio extensions, lowercase.
pub open spec fn audio_extensions() -> Seq<Seq<char>> {
    seq!["wav"@, "aif"@, "aiff"@, "bwf"@, "m4a"@, "aac"@, "mp3"@, "flac"@]
}

/// Is `ext` (in any case) a supported video extension?
pub fn is_video_extension(ext: &str) -> (r: bool)
    ensures
        r == video_extensions().contains(lowercase(ext@)),
{
    let l = to_lowercase(ext);
    let e = l.as_str();
    let r = str_eq(e, "mp4") || str_eq(e, "mov") || str_eq(e, "m4v") || str_eq(e, "mxf");
    proof {
        let x = lowercase(ext@);
        let s = video_extensions();
        assert(s[0] == "mp4"@ && s[1] == "mov"@ && s[2] == "m4v"@ && s[3] == "mxf"@);
        if s.contains(x) {
            let i = choose|i: int| 0 <= i < s.len() && s[i] == x;
            assert(i == 0 || i == 1 || i == 2 || i == 3);
        }
    }
    r
}

/// Is `ext` (in any case) a supported audio extension?
pub fn is_audio_extension(ext: &str) -> (r: bool)
    ensures
        r == audio_extensions().contains(lowercase(ext@)),
{
    let l = to_lowercase(ext);
    let e = l.as_str();
    let r = str_eq(e, "wav") || str_eq(e, "aif") || str_eq(e, "aiff") || str_eq(e, "bwf")
        || str_eq(e, "m4a") || str_eq(e, "aac") || str_eq(e, "mp3") || str_eq(e, "flac");
    proof {
        let x = lowercase(ext@);
        let s = audio_extensions();
        assert(s[0] == "wav"@ && s[1] == "aif"@ && s[2] == "aiff"@ && s[3] == "bwf"@);
        assert(s[4] == "m4a"@ && s[5] == "aac"@ && s[6] == "mp3"@ && s[7] == "flac"@);
        if s.contains(x) {
            let i = choose|i: int| 0 <= i < s.len() && s[i] == x;
            assert(0 <= i < 8);
        }
    }
    r
}

/// Is `ext` (in any case) a supported video or audio extension?
pub fn is_supported_extension(ext: &str) -> (r: bool)
    ensures
        r == (video_extensions().contains(lowercase(ext@)) || audio_extensions().contains(
            lowercase(ext@),
        )),
{
    is_video_extension(ext) || is_audio_extension(ext)
}

// ── Laws ────────────────────────────────────────────────────────────────────

/// The video extensions taken are exactly mp4, mov, m4v and mxf.
pub proof fn lemma_video_extensions_are(x: Seq<char>)
    ensures
        video_extensions().contains(x) <==> (x == "mp4"@ || x == "mov"@ || x == "m4v"@ || x == "mxf"@),
{
    let s = video_extensions();
    assert(s[0] == "mp4"@ && s[1] == "mov"@ && s[2] == "m4v"@ && s[3] == "mxf"@);
    if s.contains(x) {
        let i = choose|i: int| 0 <= i < s.len() && s[i] == x;
        assert(i == 0 || i == 1 || i == 2 || i == 3);
    }
}

/// The audio extensions taken are exactly wav, aif, aiff, bwf, m4a, aac,
/// mp3 and flac.
pub proof fn lemma_audio_extensions_are(x: Seq<char>)
    ensures
        audio_extensions().contains(x) <==> (x == "wav"@ || x == "aif"@ || x == "aiff"@ || x == "bwf"@
            || x == "m4a"@ || x == "aac"@ || x == "mp3"@ || x == "flac"@),
{
    let s = audio_extensions();
    assert(s[0] == "wav"@ && s[1] == "aif"@ && s[2] == "aiff"@ && s[3] == "bwf"@);
    assert(s[4] == "m4a"@ && s[5] == "aac"@ && s[6] == "mp3"@ && s[7] == "flac"@);
    if s.contains(x) {
        let i = choose|i: int| 0 <= i < s.len() && s[i] == x;
        assert(0 <= i < 8);
    }
}

/// No extension is taken both as video and as audio.
pub proof fn lemma_video_audio_apart(x: Seq<char>)
    ensures
        !(video_extensions().contains(x) && audio_extensions().contains(x)),
{
    lemma_video_extensions_are(x);
    lemma_audio_extensions_are(x);
    reveal_strlit("mp4");
    reveal_strlit("mov");
    reveal_strlit("m4v");
    reveal_strlit("mxf");
    reveal_strlit("wav");
    reveal_strlit("aif");
    reveal_strlit("aiff");
    reveal_strlit("bwf");
    reveal_strlit("m4a");
    reveal_strlit("aac");
    reveal_strlit("mp3");
    reveal_strlit("flac");
    if video_extensions().contains(x) && audio_extensions().contains(x) {
        assert(x.len() == 3);
        assert(x[0] == 'm');
        assert(x == "mp4"@ || x == "mov"@ || x == "m4v"@ || x == "mxf"@);
        assert(x == "m4a"@ || x == "mp3"@);
        if x == "m4a"@ {
            assert(x[2] == 'a');
        } else {
            assert(x[1] == 'p' && x[2] == '3');
        }
    }
}

} // verus!
