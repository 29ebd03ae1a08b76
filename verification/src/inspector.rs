//! What a media file is, from its name and from ffprobe's streams.

use vstd::prelude::*;

use crate::models::{audio_extensions, is_audio_extension, is_video_extension, video_extensions, MediaType};
use crate::numtext::{float_text, is_float_text};
use crate::text::{
    chars_of, extension_of, file_name_of, file_stem_of, lowercase, owned, path_extension,
    path_file_name, path_file_stem, push_str, str_eq, string_of, to_lowercase,
};

verus! {

/// What a media file's path says about it.
pub struct MediaIdentity {
    /// The extension, lowercased ("" when there is none).
    pub extension: String,
    pub media_type: MediaType,
    /// The file name, and the name without its extension ("unknown" when
    /// the path has none).
    pub filename: String,
    pub filename_no_ext: String,
}

/// A path's extension, lowercased ("" when there is none).
pub open spec fn media_ext_of(path: Seq<char>) -> Seq<char> {
    lowercase(
        match path_extension(path) {
            Some(e) => e,
            None => Seq::empty(),
        },
    )
}

/// The kind of media an extension names: video, audio, or neither.
pub open spec fn media_type_of(ext: Seq<char>) -> Option<MediaType> {
    if video_extensions().contains(lowercase(ext)) {
        Some(MediaType::Video)
    } else if audio_extensions().contains(lowercase(ext)) {
        Some(MediaType::Audio)
    } else {
        None
    }
}

/// What a path says about a media file: its extension, its kind (video
/// or audio, by extension), its name and its name without extension; a
/// file of another kind is refused with "Unsupported file type: <ext>".
pub fn media_identity(path: &str) -> (r: Result<MediaIdentity, String>)
    ensures
        ({
            let ext = media_ext_of(path@);
            &&& (r is Err <==> media_type_of(ext) is None)
            &&& r matches Err(e) ==> e@ == "Unsupported file type: "@ + ext
            &&& r matches Ok(m) ==> {
                &&& m.extension@ == ext
                &&& Some(m.media_type) == media_type_of(ext)
                &&& m.filename@ == match path_file_name(path@) {
                    Some(n) => n,
                    None => "unknown"@,
                }
                &&& m.filename_no_ext@ == match path_file_stem(path@) {
                    Some(n) => n,
                    None => "unknown"@,
                }
            }
        }),
{
    let raw = match extension_of(path) {
        Some(e) => e,
        None => owned(""),
    };
    proof {
        reveal_strlit("");
        assert(raw@ == match path_extension(path@) {
            Some(e) => e,
            None => Seq::<char>::empty(),
        });
    }
    let extension = to_lowercase(raw.as_str());
    let media_type = if is_video_extension(extension.as_str()) {
        MediaType::Video
    } else if is_audio_extension(extension.as_str()) {
        MediaType::Audio
    } else {
        let mut e = chars_of("Unsupported file type: ");
        push_str(&mut e, extension.as_str());
        return Err(string_of(&e));
    };
    let filename = match file_name_of(path) {
        Some(n) => n,
        None => owned("unknown"),
    };
    let filename_no_ext = match file_stem_of(path) {
        Some(n) => n,
        None => owned("unknown"),
    };
    Ok(MediaIdentity { extension, media_type, filename, filename_no_ext })
}

/// One stream of ffprobe's report, as far as a media file's details go.
pub struct ProbeStream {
    /// "video", "audio", …
    pub codec_type: String,
    pub codec_name: Option<String>,
    /// The sample rate's text.
    pub sample_rate: Option<String>,
    pub channels: Option<u32>,
    /// Whether the average and the nominal frame rate read as a usable
    /// (nonzero) rate.
    pub avg_rate_ok: bool,
    pub r_rate_ok: bool,
}

/// Where a media file's details come from among its streams.
pub struct StreamPick {
    pub codec_name: Option<String>,
    /// The stream whose sample rate is taken.
    pub sample_rate_from: Option<usize>,
    pub channels: Option<u32>,
    /// The stream whose frame rate is taken, and whether it is its average
    /// rate (else its nominal one).
    pub frame_rate_from: Option<(usize, bool)>,
}

/// Is stream `s` of codec type `t`?
pub open spec fn is_type(s: ProbeStream, t: Seq<char>) -> bool {
    s.codec_type@ == t
}

/// Has the file a video stream?
pub open spec fn has_video(ss: Seq<ProbeStream>) -> bool {
    exists|i: int| 0 <= i < ss.len() && is_type(#[trigger] ss[i], "video"@)
}

/// The codec name after the first `n` streams: the first video stream's
/// (a stream without one leaves it open), or, in a file without video, the
/// first audio stream's.
pub open spec fn codec_upto(ss: Seq<ProbeStream>, n: int, video: bool) -> Option<Seq<char>>
    decreases n,
{
    if n <= 0 {
        None
    } else {
        let c = codec_upto(ss, n - 1, video);
        let s = ss[n - 1];
        if c is None && (is_type(s, "video"@) || (is_type(s, "audio"@) && !video)) {
            match s.codec_name {
                Some(x) => Some(x@),
                None => None,
            }
        } else {
            c
        }
    }
}

/// The first of the first `n` streams that is audio with a sample rate that
/// reads as a number.
pub open spec fn sample_rate_upto(ss: Seq<ProbeStream>, n: int) -> Option<usize>
    decreases n,
{
    if n <= 0 {
        None
    } else {
        let c = sample_rate_upto(ss, n - 1);
        let s = ss[n - 1];
        if c is None && is_type(s, "audio"@) && (s.sample_rate matches Some(t) && is_float_text(t@)) {
            Some((n - 1) as usize)
        } else {
            c
        }
    }
}

/// The channel count of the first of the first `n` streams that is audio
/// and has one.
pub open spec fn channels_upto(ss: Seq<ProbeStream>, n: int) -> Option<u32>
    decreases n,
{
    if n <= 0 {
        None
    } else {
        let c = channels_upto(ss, n - 1);
        let s = ss[n - 1];
        if c is None && is_type(s, "audio"@) {
            s.channels
        } else {
            c
        }
    }
}

/// The first of the first `n` streams that is video with a usable frame
/// rate, and whether that is its average rate (preferred) or its nominal.
pub open spec fn frame_rate_upto(ss: Seq<ProbeStream>, n: int) -> Option<(usize, bool)>
    decreases n,
{
    if n <= 0 {
        None
    } else {
        let c = frame_rate_upto(ss, n - 1);
        let s = ss[n - 1];
        if c is None && is_type(s, "video"@) && (s.avg_rate_ok || s.r_rate_ok) {
            Some(((n - 1) as usize, s.avg_rate_ok))
        } else {
            c
        }
    }
}

/// Pick a media file's details from ffprobe's streams: the codec name (the
/// video's, else in an audio-only file the audio's), the sample rate and
/// channel count (the first audio stream's that has one) and the frame rate
/// (the first video stream's, its average rate preferred).
pub fn pick_streams(streams: &Vec<ProbeStream>) -> (r: StreamPick)
    ensures
        (match r.codec_name {
            Some(c) => Some(c@),
            None => None,
        }) == codec_upto(streams@, streams@.len() as int, has_video(streams@)),
        r.sample_rate_from == sample_rate_upto(streams@, streams@.len() as int),
        r.channels == channels_upto(streams@, streams@.len() as int),
        r.frame_rate_from == frame_rate_upto(streams@, streams@.len() as int),
{
    let mut video = false;
    let mut k: usize = 0;
    while k < streams.len()
        invariant
            k <= streams.len(),
            video <==> exists|i: int| 0 <= i < k && is_type(#[trigger] streams@[i], "video"@),
        decreases streams.len() - k,
    {
        if str_eq(streams[k].codec_type.as_str(), "video") {
            video = true;
        }
        k += 1;
    }
    let ghost ss = streams@;
    let ghost hv = has_video(ss);
    assert(video == hv);
    let mut codec: Option<String> = None;
    let mut rate: Option<usize> = None;
    let mut channels: Option<u32> = None;
    let mut frame: Option<(usize, bool)> = None;
    let mut i: usize = 0;
    while i < streams.len()
        invariant
            i <= streams.len(),
            ss == streams@,
            video == hv,
            (match codec {
                Some(c) => Some(c@),
                None => None,
            }) == codec_upto(ss, i as int, hv),
            rate == sample_rate_upto(ss, i as int),
            channels == channels_upto(ss, i as int),
            frame == frame_rate_upto(ss, i as int),
        decreases streams.len() - i,
    {
        let s = &streams[i];
        proof {
            reveal_strlit("video");
            reveal_strlit("audio");
            assert("video"@[0] != "audio"@[0]);
        }
        let is_video = str_eq(s.codec_type.as_str(), "video");
        let is_audio = str_eq(s.codec_type.as_str(), "audio");
        if is_video {
            if codec.is_none() {
                codec = match &s.codec_name {
                    Some(c) => Some(owned(c.as_str())),
                    None => None,
                };
            }
            if frame.is_none() && (s.avg_rate_ok || s.r_rate_ok) {
                frame = Some((i, s.avg_rate_ok));
            }
        } else if is_audio {
            if rate.is_none() {
                match &s.sample_rate {
                    Some(t) => {
                        let tv = chars_of(t.as_str());
                        if float_text(&tv) {
                            rate = Some(i);
                        }
                    },
                    None => {},
                }
            }
            if channels.is_none() {
                channels = s.channels;
            }
            if codec.is_none() && !video {
                codec = match &s.codec_name {
                    Some(c) => Some(owned(c.as_str())),
                    None => None,
                };
            }
        }
        i += 1;
    }
    StreamPick { codec_name: codec, sample_rate_from: rate, channels, frame_rate_from: frame }
}

// ── Laws ────────────────────────────────────────────────────────────────────

/// A dropped file is a picture exactly when its extension, in any case, is
/// mp4, mov, m4v or mxf; it is sound exactly when it is wav, aif, aiff,
/// bwf, m4a, aac, mp3 or flac; anything else is refused.
pub proof fn lemma_media_kinds(ext: Seq<char>)
    ensures
        ({
            let x = lowercase(ext);
            &&& media_type_of(ext) == Some(MediaType::Video) <==> (x == "mp4"@ || x == "mov"@ || x
                == "m4v"@ || x == "mxf"@)
            &&& media_type_of(ext) == Some(MediaType::Audio) <==> (x == "wav"@ || x == "aif"@ || x
                == "aiff"@ || x == "bwf"@ || x == "m4a"@ || x == "aac"@ || x == "mp3"@ || x == "flac"@)
            &&& media_type_of(ext) is None <==> !(video_extensions().contains(x)
                || audio_extensions().contains(x))
        }),
{
    let x = lowercase(ext);
    crate::models::lemma_video_extensions_are(x);
    crate::models::lemma_audio_extensions_are(x);
    crate::models::lemma_video_audio_apart(x);
}

} // verus!
