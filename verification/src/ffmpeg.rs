//! ffmpeg command lines: the layback mux, audio-only exports, ProRes working
//! files, and the lookup of the ffmpeg binaries.

use vstd::prelude::*;

use crate::models::{AudioFormatOption, ExportSettings, LengthFix, VideoCodecOption};
use crate::text::{
    chars_of, decimal, ends_with, ends_with_exec, extension_of, find, find_chars, join, join_chars,
    lowercase, owned, path_extension, push_arg, push_arg_chars, push_decimal, push_str, str_eq,
    string_of, to_lowercase, views,
};

verus! {

/// The arguments that transcode a video into an Apple ProRes 422 .mov
/// working file (with 16-bit PCM audio) in prores_ks profile `profile`
/// (0 = Proxy, 1 = LT, 2 = 422, 3 = HQ).
pub open spec fn prores_command_of(video: Seq<char>, output: Seq<char>, profile: u8) -> Seq<Seq<char>> {
    seq![
        "-y"@,
        "-i"@,
        video,
        "-c:v"@,
        "prores_ks"@,
        "-profile:v"@,
        decimal(profile as nat),
        "-vendor"@,
        "apl0"@,
        "-pix_fmt"@,
        "yuv422p10le"@,
        "-c:a"@,
        "pcm_s16le"@,
        output,
    ]
}

/// Build the ffmpeg command to transcode a video into an Apple ProRes 422
/// .mov "working file" (with PCM audio) — a smooth-playing guide picture for
/// Pro Tools.
pub fn build_prores_command(video_path: &str, output_path: &str, profile: u8) -> (r: Vec<String>)
    ensures
        views(r@) == prores_command_of(video_path@, output_path@, profile),
{
    let mut args: Vec<String> = Vec::new();
    push_arg(&mut args, "-y");
    push_arg(&mut args, "-i");
    push_arg(&mut args, video_path);
    push_arg(&mut args, "-c:v");
    push_arg(&mut args, "prores_ks");
    push_arg(&mut args, "-profile:v");
    let mut p: Vec<char> = Vec::new();
    push_decimal(&mut p, profile as u64);
    push_arg_chars(&mut args, &p);
    push_arg(&mut args, "-vendor");
    push_arg(&mut args, "apl0");
    push_arg(&mut args, "-pix_fmt");
    push_arg(&mut args, "yuv422p10le");
    push_arg(&mut args, "-c:a");
    push_arg(&mut args, "pcm_s16le");
    push_arg(&mut args, output_path);
    assert(views(args@) =~= prores_command_of(video_path@, output_path@, profile));
    args
}

/// The first line of a text as `str::lines` yields it: up to the first
/// '\n' with one '\r' before it dropped; the whole text when it has no
/// '\n'; none for an empty text.
pub open spec fn first_line(s: Seq<char>) -> Option<Seq<char>> {
    if s.len() == 0 {
        None
    } else {
        let i = find(s, "\n"@);
        if i >= 0 {
            let l = s.take(i);
            if ends_with(l, "\r"@) {
                Some(l.drop_last())
            } else {
                Some(l)
            }
        } else {
            Some(s)
        }
    }
}

/// The ffmpeg version string: the first line of `ffmpeg -version`'s output.
pub fn get_ffmpeg_version(version_output: &str) -> (r: Option<String>)
    ensures
        match r {
            Some(l) => first_line(version_output@) == Some(l@),
            None => first_line(version_output@) is None,
        },
{
    let v = chars_of(version_output);
    if v.len() == 0 {
        return None;
    }
    let nl = chars_of("\n");
    match find_chars(&v, &nl) {
        Some(i) => {
            proof {
                crate::text::lemma_find_from(v@, nl@, 0);
                reveal_strlit("\n");
            }
            let l = crate::text::slice_chars(&v, 0, i);
            if ends_with_exec(&l, "\r") {
                proof {
                    reveal_strlit("\r");
                }
                let k = crate::text::slice_chars(&l, 0, l.len() - 1);
                assert(k@ =~= l@.drop_last());
                Some(string_of(&k))
            } else {
                Some(string_of(&l))
            }
        },
        None => Some(owned(version_output)),
    }
}

/// Where to look for a binary, in order, after the bundled sidecar: its bare
/// name on the PATH, then the usual install locations.
pub open spec fn binary_candidates_of(name: Seq<char>, windows: bool) -> Seq<Seq<char>> {
    if windows {
        seq![name, "C:\\ffmpeg\\bin\\"@ + name + ".exe"@]
    } else {
        seq![name, "/usr/local/bin/"@ + name, "/opt/homebrew/bin/"@ + name, "/usr/bin/"@ + name]
    }
}

/// Where to look for a binary when no bundled sidecar runs.
pub fn binary_candidates(name: &str, windows: bool) -> (r: Vec<String>)
    ensures
        views(r@) == binary_candidates_of(name@, windows),
{
    let mut out: Vec<String> = Vec::new();
    push_arg(&mut out, name);
    if windows {
        let mut v = chars_of("C:\\ffmpeg\\bin\\");
        push_str(&mut v, name);
        push_str(&mut v, ".exe");
        push_arg_chars(&mut out, &v);
    } else {
        let mut a = chars_of("/usr/local/bin/");
        push_str(&mut a, name);
        push_arg_chars(&mut out, &a);
        let mut b = chars_of("/opt/homebrew/bin/");
        push_str(&mut b, name);
        push_arg_chars(&mut out, &b);
        let mut c = chars_of("/usr/bin/");
        push_str(&mut c, name);
        push_arg_chars(&mut out, &c);
    }
    assert(views(out@) =~= binary_candidates_of(name@, windows));
    out
}

/// The "clock" delivery handles: 10 s of silence before, 5 s after.
pub open spec fn clock_filters() -> Seq<Seq<char>> {
    seq!["adelay=10000:all=1"@, "apad=pad_dur=5"@]
}

/// The audio filter chain of an audio-only export: the gain, the silence
/// compliance filters, then the clock handles.
pub open spec fn audio_only_filters(gain: Option<Seq<char>>, compliance: Seq<Seq<char>>, clock: bool) -> Seq<
    Seq<char>,
> {
    (match gain {
        Some(g) => seq!["volume="@ + g + "dB"@],
        None => Seq::empty(),
    }) + compliance + if clock {
        clock_filters()
    } else {
        Seq::empty()
    }
}

/// The lowercase extension of an output path ("" when it has none).
pub open spec fn output_ext(path: Seq<char>) -> Seq<char> {
    match path_extension(path) {
        Some(e) => lowercase(e),
        None => lowercase(Seq::empty()),
    }
}

/// The lossless codec for a container, used when filters rule out a copy.
pub open spec fn lossless_codec(ext: Seq<char>) -> Seq<char> {
    if ext == "aif"@ || ext == "aiff"@ {
        "pcm_s24be"@
    } else if ext == "flac"@ {
        "flac"@
    } else if ext == "m4a"@ || ext == "mp4"@ {
        "alac"@
    } else {
        "pcm_s24le"@
    }
}

/// The codec arguments of an audio-only export: AAC only where the
/// container can hold it, else a stream copy, or (with filters) the
/// container's lossless codec.
pub open spec fn audio_only_codec(ext: Seq<char>, format: AudioFormatOption, bitrate: u32, filtered: bool) -> Seq<
    Seq<char>,
> {
    if format == AudioFormatOption::Aac && (ext == "m4a"@ || ext == "mp4"@ || ext == "aac"@) {
        seq!["-c:a"@, "aac"@, "-b:a"@, decimal(bitrate as nat)]
    } else if filtered {
        seq!["-c:a"@, lossless_codec(ext)]
    } else {
        seq!["-c:a"@, "copy"@]
    }
}

/// The arguments of an audio-only export.
pub open spec fn audio_only_command_of(
    audio: Seq<char>,
    output: Seq<char>,
    format: AudioFormatOption,
    bitrate: u32,
    gain: Option<Seq<char>>,
    compliance: Seq<Seq<char>>,
    clock: bool,
) -> Seq<Seq<char>> {
    let filters = audio_only_filters(gain, compliance, clock);
    seq!["-y"@, "-i"@, audio, "-vn"@] + (if filters.len() > 0 {
        seq!["-af"@, join(filters, ","@)]
    } else {
        Seq::empty()
    }) + audio_only_codec(output_ext(output), format, bitrate, filters.len() > 0) + seq![output]
}

/// Appends a copy of each of `items` to `out`.
pub fn push_all(out: &mut Vec<String>, items: &Vec<String>)
    ensures
        views(final(out)@) == views(old(out)@) + views(items@),
{
    let ghost start = views(out@);
    let mut i: usize = 0;
    while i < items.len()
        invariant
            i <= items.len(),
            views(out@) == start + views(items@).take(i as int),
        decreases items.len() - i,
    {
        push_arg(out, items[i].as_str());
        assert(views(items@).take(i + 1) =~= views(items@).take(i as int).push(items@[i as int]@));
        i += 1;
    }
    assert(views(items@).take(i as int) =~= views(items@));
}

/// The characters of each string.
fn all_chars(items: &Vec<String>) -> (r: Vec<Vec<char>>)
    ensures
        r@.map_values(|p: Vec<char>| p@) == views(items@),
{
    let mut out: Vec<Vec<char>> = Vec::new();
    let mut i: usize = 0;
    while i < items.len()
        invariant
            i <= items.len(),
            out@.map_values(|p: Vec<char>| p@) == views(items@).take(i as int),
        decreases items.len() - i,
    {
        let ghost before = out@.map_values(|p: Vec<char>| p@);
        out.push(chars_of(items[i].as_str()));
        assert(out@.map_values(|p: Vec<char>| p@) =~= before.push(items@[i as int]@));
        assert(views(items@).take(i + 1) =~= views(items@).take(i as int).push(items@[i as int]@));
        i += 1;
    }
    assert(views(items@).take(i as int) =~= views(items@));
    out
}

/// Appends "-af <filters joined with ','>" when there are filters.
fn push_filters(args: &mut Vec<String>, filters: &Vec<String>, flag: &str)
    ensures
        views(final(args)@) == views(old(args)@) + (if filters.len() > 0 {
            seq![flag@, join(views(filters@), ","@)]
        } else {
            Seq::empty()
        }),
{
    if filters.len() > 0 {
        push_arg(args, flag);
        let parts = all_chars(filters);
        let j = join_chars(&parts, ",");
        push_arg_chars(args, &j);
        assert(views(args@) =~= views(old(args)@) + seq![flag@, join(views(filters@), ","@)]);
    } else {
        assert(views(args@) =~= views(old(args)@) + Seq::<Seq<char>>::empty());
    }
}

/// Build the ffmpeg command for an audio-only export (normalise, mute the
/// head and tail, add clock handles). `gain_db` is the normalisation gain's
/// text when a gain is applied; `compliance` the silence-compliance filters.
#[verifier::spinoff_prover]
#[verifier::rlimit(40)]
pub fn build_audio_only_command(
    audio_path: &str,
    output_path: &str,
    settings: &ExportSettings,
    gain_db: Option<&str>,
    compliance: &Vec<String>,
    clock: bool,
) -> (r: Vec<String>)
    ensures
        views(r@) == audio_only_command_of(
            audio_path@,
            output_path@,
            settings.audio_format,
            settings.aac_bitrate,
            match gain_db {
                Some(g) => Some(g@),
                None => None,
            },
            views(compliance@),
            clock,
        ),
{
    let mut args: Vec<String> = Vec::new();
    push_arg(&mut args, "-y");
    push_arg(&mut args, "-i");
    push_arg(&mut args, audio_path);
    push_arg(&mut args, "-vn");
    let mut filters: Vec<String> = Vec::new();
    if let Some(g) = gain_db {
        let mut v = chars_of("volume=");
        push_str(&mut v, g);
        push_str(&mut v, "dB");
        push_arg_chars(&mut filters, &v);
    }
    push_all(&mut filters, compliance);
    if clock {
        push_arg(&mut filters, "adelay=10000:all=1");
        push_arg(&mut filters, "apad=pad_dur=5");
    }
    let ghost g = match gain_db {
        Some(g) => Some(g@),
        None => None,
    };
    assert(views(filters@) =~= audio_only_filters(g, views(compliance@), clock));
    push_filters(&mut args, &filters, "-af");
    let ext = match extension_of(output_path) {
        Some(e) => to_lowercase(e.as_str()),
        None => to_lowercase(""),
    };
    proof {
        reveal_strlit("");
        assert(""@ =~= Seq::<char>::empty());
    }
    assert(ext@ == output_ext(output_path@));
    let e = ext.as_str();
    let aac_container = str_eq(e, "m4a") || str_eq(e, "mp4") || str_eq(e, "aac");
    let ghost head = views(args@);
    if settings.audio_format == AudioFormatOption::Aac && aac_container {
        push_arg(&mut args, "-c:a");
        push_arg(&mut args, "aac");
        push_arg(&mut args, "-b:a");
        let mut b: Vec<char> = Vec::new();
        push_decimal(&mut b, settings.aac_bitrate as u64);
        push_arg_chars(&mut args, &b);
    } else if filters.len() > 0 {
        let codec = if str_eq(e, "aif") || str_eq(e, "aiff") {
            "pcm_s24be"
        } else if str_eq(e, "flac") {
            "flac"
        } else if str_eq(e, "m4a") || str_eq(e, "mp4") {
            "alac"
        } else {
            "pcm_s24le"
        };
        push_arg(&mut args, "-c:a");
        push_arg(&mut args, codec);
    } else {
        push_arg(&mut args, "-c:a");
        push_arg(&mut args, "copy");
    }
    assert(views(args@) =~= head + audio_only_codec(
        output_ext(output_path@),
        settings.audio_format,
        settings.aac_bitrate,
        filters.len() > 0,
    ));
    push_arg(&mut args, output_path);
    assert(views(args@) =~= audio_only_command_of(
        audio_path@,
        output_path@,
        settings.audio_format,
        settings.aac_bitrate,
        g,
        views(compliance@),
        clock,
    ));
    args
}


/// The measured numbers of a layback, rendered as ffmpeg writes them.
pub struct MuxTiming {
    /// The audio runs past the video by more than the 40 ms tolerance.
    pub audio_longer: bool,
    /// The video's frame rate, five decimals (25 when unknown).
    pub fps: String,
    /// How long a freeze holds the last frame: the audio's overrun, four
    /// decimals.
    pub freeze_pad: String,
    /// The fade length fix's fade-out filter (12 frames ending at the
    /// video's end).
    pub fade_out: String,
    /// The timecode offset in ms, when the offset is positive.
    pub offset_ms: Option<u64>,
}

/// A slate card prepended to the video: a pre-rendered image shown for its
/// duration (four decimals) with silence underneath, the programme audio
/// delayed by the same time (in ms).
pub struct SlateInput {
    pub image_path: String,
    pub duration: String,
    pub delay_ms: u64,
}

/// "adelay=<ms>|<ms>".
pub open spec fn adelay(ms: nat) -> Seq<char> {
    "adelay="@ + decimal(ms) + "|"@ + decimal(ms)
}

/// The length fix that applies: the chosen one when the audio really runs
/// longer, else a plain cut.
pub open spec fn effective_fix(fix: LengthFix, audio_longer: bool) -> LengthFix {
    if audio_longer {
        fix
    } else {
        LengthFix::Cut
    }
}

/// The slate's input arguments.
pub open spec fn slate_inputs(fps: Seq<char>, slate: Option<(Seq<char>, Seq<char>, nat)>) -> Seq<
    Seq<char>,
> {
    match slate {
        Some((image, duration, _)) => seq![
            "-loop"@,
            "1"@,
            "-framerate"@,
            fps,
            "-t"@,
            duration,
            "-i"@,
            image,
        ],
        None => Seq::empty(),
    }
}

/// The video mapping: through the concat graph with a slate (the freeze
/// folded into it), else the video stream directly (with a `tpad` filter
/// when freezing).
pub open spec fn video_map(freeze: bool, pad: Seq<char>, slated: bool) -> Seq<Seq<char>> {
    if slated {
        let main = if freeze {
            "tpad=stop_mode=clone:stop_duration="@ + pad + ",format=yuv420p,setsar=1"@
        } else {
            "format=yuv420p,setsar=1"@
        };
        seq![
            "-filter_complex"@,
            "[2:v]format=yuv420p,setsar=1[sl];[0:v]"@ + main + "[mv];[sl][mv]concat=n=2:v=1:a=0[v]"@,
            "-map"@,
            "[v]"@,
        ]
    } else if freeze {
        seq!["-map"@, "0:v:0"@, "-vf"@, "tpad=stop_mode=clone:stop_duration="@ + pad]
    } else {
        seq!["-map"@, "0:v:0"@]
    }
}

/// The video codec arguments: H.264 when the stream is filtered or H.264 is
/// asked for, else a copy.
pub open spec fn video_codec_args(reencode: bool) -> Seq<Seq<char>> {
    if reencode {
        seq!["-c:v"@, "libx264"@, "-crf"@, "18"@, "-preset"@, "medium"@, "-pix_fmt"@, "yuv420p"@]
    } else {
        seq!["-c:v"@, "copy"@]
    }
}

/// The audio filters of a layback, in order: offset delay, gain, silence
/// compliance, the fade fix, and last the slate delay.
pub open spec fn mux_filters(
    offset_ms: Option<u64>,
    gain: Option<Seq<char>>,
    compliance: Seq<Seq<char>>,
    fade: bool,
    fade_out: Seq<char>,
    slate_delay: Option<nat>,
) -> Seq<Seq<char>> {
    (match offset_ms {
        Some(ms) => seq![adelay(ms as nat)],
        None => Seq::empty(),
    }) + (match gain {
        Some(g) => seq!["volume="@ + g + "dB"@],
        None => Seq::empty(),
    }) + compliance + (if fade {
        seq![fade_out]
    } else {
        Seq::empty()
    }) + (match slate_delay {
        Some(ms) => seq![adelay(ms)],
        None => Seq::empty(),
    })
}

/// The audio codec arguments of a layback: AAC at the set bit rate, or a
/// stream copy — PCM when filters rule a copy out.
pub open spec fn mux_audio_codec(format: AudioFormatOption, bitrate: u32, filtered: bool) -> Seq<Seq<char>> {
    match format {
        AudioFormatOption::Original => if filtered {
            seq!["-c:a"@, "pcm_s24le"@]
        } else {
            seq!["-c:a"@, "copy"@]
        },
        AudioFormatOption::Aac => seq!["-c:a"@, "aac"@, "-b:a"@, decimal(bitrate as nat)],
    }
}

/// The arguments of a layback: the video, the replacement audio, and the
/// slate card when there is one.
pub open spec fn mux_command_of(
    video: Seq<char>,
    audio: Seq<char>,
    output: Seq<char>,
    settings_codec: VideoCodecOption,
    format: AudioFormatOption,
    bitrate: u32,
    gain: Option<Seq<char>>,
    compliance: Seq<Seq<char>>,
    fix: LengthFix,
    timing: (bool, Seq<char>, Seq<char>, Seq<char>, Option<u64>),
    slate: Option<(Seq<char>, Seq<char>, nat)>,
) -> Seq<Seq<char>> {
    let (audio_longer, fps, pad, fade_out, offset) = timing;
    let eff = effective_fix(fix, audio_longer);
    let freeze = eff == LengthFix::Freeze;
    let filters = mux_filters(
        offset,
        gain,
        compliance,
        eff == LengthFix::Fade,
        fade_out,
        match slate {
            Some((_, _, d)) => Some(d),
            None => None,
        },
    );
    seq!["-y"@, "-i"@, video, "-i"@, audio] + slate_inputs(fps, slate) + video_map(
        freeze,
        pad,
        slate is Some,
    ) + seq!["-map"@, "1:a:0"@] + video_codec_args(
        slate is Some || freeze || settings_codec == VideoCodecOption::H264,
    ) + (if filters.len() > 0 {
        seq!["-af"@, join(filters, ","@)]
    } else {
        Seq::empty()
    }) + mux_audio_codec(format, bitrate, filters.len() > 0) + (if freeze {
        Seq::empty()
    } else {
        seq!["-shortest"@]
    }) + seq![output]
}

/// The timing as plain values.
pub open spec fn timing_view(t: MuxTiming) -> (bool, Seq<char>, Seq<char>, Seq<char>, Option<u64>) {
    (t.audio_longer, t.fps@, t.freeze_pad@, t.fade_out@, t.offset_ms)
}

/// The slate as plain values.
pub open spec fn slate_view(s: Option<&SlateInput>) -> Option<(Seq<char>, Seq<char>, nat)> {
    match s {
        Some(s) => Some((s.image_path@, s.duration@, s.delay_ms as nat)),
        None => None,
    }
}

fn adelay_exec(ms: u64) -> (r: Vec<char>)
    ensures
        r@ == adelay(ms as nat),
{
    let mut v = chars_of("adelay=");
    push_decimal(&mut v, ms);
    push_str(&mut v, "|");
    push_decimal(&mut v, ms);
    v
}

fn push_slate_inputs(args: &mut Vec<String>, fps: &String, slate: Option<&SlateInput>)
    ensures
        views(final(args)@) == views(old(args)@) + slate_inputs(fps@, slate_view(slate)),
{
    if let Some(s) = slate {
        push_arg(args, "-loop");
        push_arg(args, "1");
        push_arg(args, "-framerate");
        push_arg(args, fps.as_str());
        push_arg(args, "-t");
        push_arg(args, s.duration.as_str());
        push_arg(args, "-i");
        push_arg(args, s.image_path.as_str());
    }
    assert(views(args@) =~= views(old(args)@) + slate_inputs(fps@, slate_view(slate)));
}

fn push_video_map(args: &mut Vec<String>, freeze: bool, pad: &String, slated: bool)
    ensures
        views(final(args)@) == views(old(args)@) + video_map(freeze, pad@, slated),
{
    if slated {
        let mut main: Vec<char>;
        if freeze {
            main = chars_of("tpad=stop_mode=clone:stop_duration=");
            push_str(&mut main, pad.as_str());
            push_str(&mut main, ",format=yuv420p,setsar=1");
        } else {
            main = chars_of("format=yuv420p,setsar=1");
        }
        push_arg(args, "-filter_complex");
        let mut g = chars_of("[2:v]format=yuv420p,setsar=1[sl];[0:v]");
        crate::text::push_chars(&mut g, &main);
        push_str(&mut g, "[mv];[sl][mv]concat=n=2:v=1:a=0[v]");
        push_arg_chars(args, &g);
        push_arg(args, "-map");
        push_arg(args, "[v]");
    } else {
        push_arg(args, "-map");
        push_arg(args, "0:v:0");
        if freeze {
            push_arg(args, "-vf");
            let mut t = chars_of("tpad=stop_mode=clone:stop_duration=");
            push_str(&mut t, pad.as_str());
            push_arg_chars(args, &t);
        }
    }
    assert(views(args@) =~= views(old(args)@) + video_map(freeze, pad@, slated));
}

fn push_video_codec(args: &mut Vec<String>, reencode: bool)
    ensures
        views(final(args)@) == views(old(args)@) + video_codec_args(reencode),
{
    if reencode {
        push_arg(args, "-c:v");
        push_arg(args, "libx264");
        push_arg(args, "-crf");
        push_arg(args, "18");
        push_arg(args, "-preset");
        push_arg(args, "medium");
        push_arg(args, "-pix_fmt");
        push_arg(args, "yuv420p");
    } else {
        push_arg(args, "-c:v");
        push_arg(args, "copy");
    }
    assert(views(args@) =~= views(old(args)@) + video_codec_args(reencode));
}

fn mux_filters_exec(
    offset_ms: Option<u64>,
    gain_db: Option<&str>,
    compliance: &Vec<String>,
    fade: bool,
    fade_out: &String,
    slate: Option<&SlateInput>,
) -> (r: Vec<String>)
    ensures
        views(r@) == mux_filters(
            offset_ms,
            match gain_db {
                Some(g) => Some(g@),
                None => None,
            },
            views(compliance@),
            fade,
            fade_out@,
            match slate_view(slate) {
                Some((_, _, d)) => Some(d),
                None => None,
            },
        ),
{
    let mut filters: Vec<String> = Vec::new();
    if let Some(ms) = offset_ms {
        let d = adelay_exec(ms);
        push_arg_chars(&mut filters, &d);
    }
    if let Some(g) = gain_db {
        let mut v = chars_of("volume=");
        push_str(&mut v, g);
        push_str(&mut v, "dB");
        push_arg_chars(&mut filters, &v);
    }
    push_all(&mut filters, compliance);
    if fade {
        push_arg(&mut filters, fade_out.as_str());
    }
    if let Some(s) = slate {
        let d = adelay_exec(s.delay_ms);
        push_arg_chars(&mut filters, &d);
    }
    let ghost gv = match gain_db {
        Some(g) => Some(g@),
        None => None,
    };
    assert(views(filters@) =~= mux_filters(
        offset_ms,
        gv,
        views(compliance@),
        fade,
        fade_out@,
        match slate_view(slate) {
            Some((_, _, d)) => Some(d),
            None => None,
        },
    ));
    filters
}

fn push_mux_audio_codec(args: &mut Vec<String>, format: AudioFormatOption, bitrate: u32, filtered: bool)
    ensures
        views(final(args)@) == views(old(args)@) + mux_audio_codec(format, bitrate, filtered),
{
    match format {
        AudioFormatOption::Original => {
            if filtered {
                push_arg(args, "-c:a");
                push_arg(args, "pcm_s24le");
            } else {
                push_arg(args, "-c:a");
                push_arg(args, "copy");
            }
        },
        AudioFormatOption::Aac => {
            push_arg(args, "-c:a");
            push_arg(args, "aac");
            push_arg(args, "-b:a");
            let mut b: Vec<char> = Vec::new();
            push_decimal(&mut b, bitrate as u64);
            push_arg_chars(args, &b);
        },
    }
    assert(views(args@) =~= views(old(args)@) + mux_audio_codec(format, bitrate, filtered));
}

/// Build the ffmpeg command that lays the audio back onto the video: the
/// length fix (cut, fade or freeze), the slate card, the normalisation gain
/// (its text, when one is applied) and the silence-compliance filters.
#[verifier::spinoff_prover]
#[verifier::rlimit(40)]
pub fn build_mux_command(
    video_path: &str,
    audio_path: &str,
    output_path: &str,
    settings: &ExportSettings,
    gain_db: Option<&str>,
    compliance: &Vec<String>,
    length_fix: LengthFix,
    timing: &MuxTiming,
    slate: Option<&SlateInput>,
) -> (r: Vec<String>)
    ensures
        views(r@) == mux_command_of(
            video_path@,
            audio_path@,
            output_path@,
            settings.video_codec,
            settings.audio_format,
            settings.aac_bitrate,
            match gain_db {
                Some(g) => Some(g@),
                None => None,
            },
            views(compliance@),
            length_fix,
            timing_view(*timing),
            slate_view(slate),
        ),
{
    let eff = if timing.audio_longer {
        length_fix
    } else {
        LengthFix::Cut
    };
    let freeze = eff == LengthFix::Freeze;
    let mut args: Vec<String> = Vec::new();
    push_arg(&mut args, "-y");
    push_arg(&mut args, "-i");
    push_arg(&mut args, video_path);
    push_arg(&mut args, "-i");
    push_arg(&mut args, audio_path);
    let ghost a0 = views(args@);
    push_slate_inputs(&mut args, &timing.fps, slate);
    push_video_map(&mut args, freeze, &timing.freeze_pad, slate.is_some());
    push_arg(&mut args, "-map");
    push_arg(&mut args, "1:a:0");
    let reencode = slate.is_some() || freeze || settings.video_codec == VideoCodecOption::H264;
    push_video_codec(&mut args, reencode);
    let filters = mux_filters_exec(
        timing.offset_ms,
        gain_db,
        compliance,
        eff == LengthFix::Fade,
        &timing.fade_out,
        slate,
    );
    push_filters(&mut args, &filters, "-af");
    push_mux_audio_codec(&mut args, settings.audio_format, settings.aac_bitrate, filters.len() > 0);
    if !freeze {
        push_arg(&mut args, "-shortest");
    }
    push_arg(&mut args, output_path);
    let ghost gv = match gain_db {
        Some(g) => Some(g@),
        None => None,
    };
    assert(views(args@) =~= mux_command_of(
        video_path@,
        audio_path@,
        output_path@,
        settings.video_codec,
        settings.audio_format,
        settings.aac_bitrate,
        gv,
        views(compliance@),
        length_fix,
        timing_view(*timing),
        slate_view(slate),
    ));
    args
}

/// The arguments that slate a solo video: the card (looped at the video's
/// frame rate `fps` for its duration) concatenated before the picture,
/// re-encoded to H.264; with audio, the video's own soundtrack is delayed by
/// the card's length and written as 24-bit PCM.
pub open spec fn solo_slate_command_of(
    video: Seq<char>,
    output: Seq<char>,
    image: Seq<char>,
    duration: Seq<char>,
    delay_ms: nat,
    fps: Seq<char>,
    has_audio: bool,
) -> Seq<Seq<char>> {
    seq![
        "-y"@,
        "-i"@,
        video,
        "-loop"@,
        "1"@,
        "-framerate"@,
        fps,
        "-t"@,
        duration,
        "-i"@,
        image,
        "-filter_complex"@,
        "[1:v]format=yuv420p,setsar=1[sl];[0:v]format=yuv420p,setsar=1[mv];[sl][mv]concat=n=2:v=1:a=0[v]"@,
        "-map"@,
        "[v]"@,
    ] + (if has_audio {
        seq!["-map"@, "0:a:0"@, "-af"@, adelay(delay_ms), "-c:a"@, "pcm_s24le"@]
    } else {
        Seq::empty()
    }) + video_codec_args(true) + seq![output]
}

/// Slate a solo video (dropped without audio): prepend the card, keep the
/// video's own soundtrack (delayed to match) when it has one. `fps` is the
/// video's frame rate, five decimals.
pub fn build_solo_slate_command(
    video_path: &str,
    output_path: &str,
    slate: &SlateInput,
    fps: &str,
    has_audio: bool,
) -> (r: Vec<String>)
    ensures
        views(r@) == solo_slate_command_of(
            video_path@,
            output_path@,
            slate.image_path@,
            slate.duration@,
            slate.delay_ms as nat,
            fps@,
            has_audio,
        ),
{
    let mut args: Vec<String> = Vec::new();
    push_arg(&mut args, "-y");
    push_arg(&mut args, "-i");
    push_arg(&mut args, video_path);
    push_arg(&mut args, "-loop");
    push_arg(&mut args, "1");
    push_arg(&mut args, "-framerate");
    push_arg(&mut args, fps);
    push_arg(&mut args, "-t");
    push_arg(&mut args, slate.duration.as_str());
    push_arg(&mut args, "-i");
    push_arg(&mut args, slate.image_path.as_str());
    push_arg(&mut args, "-filter_complex");
    push_arg(
        &mut args,
        "[1:v]format=yuv420p,setsar=1[sl];[0:v]format=yuv420p,setsar=1[mv];[sl][mv]concat=n=2:v=1:a=0[v]",
    );
    push_arg(&mut args, "-map");
    push_arg(&mut args, "[v]");
    if has_audio {
        push_arg(&mut args, "-map");
        push_arg(&mut args, "0:a:0");
        push_arg(&mut args, "-af");
        let d = adelay_exec(slate.delay_ms);
        push_arg_chars(&mut args, &d);
        push_arg(&mut args, "-c:a");
        push_arg(&mut args, "pcm_s24le");
    }
    push_video_codec(&mut args, true);
    push_arg(&mut args, output_path);
    assert(views(args@) =~= solo_slate_command_of(
        video_path@,
        output_path@,
        slate.image_path@,
        slate.duration@,
        slate.delay_ms as nat,
        fps@,
        has_audio,
    ));
    args
}

// ── Laws of the audio filter chains ───────────────────────────────────────

/// A layback with a slate delays its audio for the slate last: in the
/// audio filter chain (the argument after "-af") the silence compliance
/// filters and the fade fix's fade-out come, in order, right before the
/// slate's "adelay=<ms>|<ms>", which ends the chain. So the compliance
/// mutes and fades time against the programme audio, not the slate.
pub proof fn lemma_slate_delay_comes_last(
    video: Seq<char>,
    audio: Seq<char>,
    output: Seq<char>,
    codec: VideoCodecOption,
    format: AudioFormatOption,
    bitrate: u32,
    gain: Option<Seq<char>>,
    compliance: Seq<Seq<char>>,
    fix: LengthFix,
    timing: (bool, Seq<char>, Seq<char>, Seq<char>, Option<u64>),
    image: Seq<char>,
    duration: Seq<char>,
    delay: nat,
)
    ensures
        ({
            let cmd = mux_command_of(
                video,
                audio,
                output,
                codec,
                format,
                bitrate,
                gain,
                compliance,
                fix,
                timing,
                Some((image, duration, delay)),
            );
            let fade = timing.0 && fix == LengthFix::Fade;
            let before = compliance + (if fade {
                seq![timing.3]
            } else {
                Seq::empty()
            });
            exists|i: int, fs: Seq<Seq<char>>|
                #![trigger cmd[i], join(fs, ","@)]
                0 <= i && i + 1 < cmd.len() && cmd[i] == "-af"@ && cmd[i + 1] == join(
                    fs,
                    ","@,
                ) && fs.len() > before.len() && fs.last() == "adelay="@ + decimal(delay) + "|"@
                    + decimal(delay) && fs.subrange(fs.len() - 1 - before.len(), fs.len() - 1)
                    == before
        }),
{
    let slate = Some((image, duration, delay));
    let (audio_longer, fps, pad, fade_out, offset) = timing;
    let eff = effective_fix(fix, audio_longer);
    let freeze = eff == LengthFix::Freeze;
    let fade = timing.0 && fix == LengthFix::Fade;
    assert(fade == (eff == LengthFix::Fade));
    let fs = mux_filters(offset, gain, compliance, eff == LengthFix::Fade, fade_out, Some(delay));
    let before = compliance + (if fade {
        seq![timing.3]
    } else {
        Seq::empty()
    });
    let head = (match offset {
        Some(ms) => seq![adelay(ms as nat)],
        None => Seq::<Seq<char>>::empty(),
    }) + (match gain {
        Some(g) => seq!["volume="@ + g + "dB"@],
        None => Seq::<Seq<char>>::empty(),
    });
    assert(fs =~= head + before + seq![adelay(delay)]);
    assert(fs.subrange(fs.len() - 1 - before.len(), fs.len() - 1) =~= before);
    let pre = seq!["-y"@, "-i"@, video, "-i"@, audio] + slate_inputs(fps, slate) + video_map(
        freeze,
        pad,
        true,
    ) + seq!["-map"@, "1:a:0"@] + video_codec_args(true);
    let af = seq!["-af"@, join(fs, ","@)];
    let rest = mux_audio_codec(format, bitrate, true) + (if freeze {
        Seq::empty()
    } else {
        seq!["-shortest"@]
    }) + seq![output];
    let cmd = mux_command_of(video, audio, output, codec, format, bitrate, gain, compliance, fix, timing, slate);
    assert(cmd =~= pre + af + rest);
    let i = pre.len() as int;
    assert(cmd[i] == af[0]);
    assert(cmd[i + 1] == af[1]);
}

/// An audio-only export with clock handles adds them last: its audio filter
/// chain (the argument after "-af") ends with "adelay=10000:all=1" and
/// "apad=pad_dur=5", right after the silence compliance filters in order,
/// and a gain, when there is one, opens the chain. So the handles sit
/// outside every gain and compliance filter.
pub proof fn lemma_clock_handles_come_last(
    audio: Seq<char>,
    output: Seq<char>,
    format: AudioFormatOption,
    bitrate: u32,
    gain: Option<Seq<char>>,
    compliance: Seq<Seq<char>>,
)
    ensures
        ({
            let cmd = audio_only_command_of(audio, output, format, bitrate, gain, compliance, true);
            exists|i: int, fs: Seq<Seq<char>>|
                #![trigger cmd[i], join(fs, ","@)]
                0 <= i && i + 1 < cmd.len() && cmd[i] == "-af"@ && cmd[i + 1] == join(
                    fs,
                    ","@,
                ) && fs.len() >= compliance.len() + 2 && fs[fs.len() - 2] == "adelay=10000:all=1"@
                    && fs.last() == "apad=pad_dur=5"@ && fs.subrange(
                    fs.len() - 2 - compliance.len(),
                    fs.len() - 2,
                ) == compliance && (gain matches Some(g) ==> fs[0] == "volume="@ + g + "dB"@)
        }),
{
    let fs = audio_only_filters(gain, compliance, true);
    let head = match gain {
        Some(g) => seq!["volume="@ + g + "dB"@],
        None => Seq::<Seq<char>>::empty(),
    };
    assert(fs =~= head + compliance + seq!["adelay=10000:all=1"@, "apad=pad_dur=5"@]);
    assert(fs.subrange(fs.len() - 2 - compliance.len(), fs.len() - 2) =~= compliance);
    let pre = seq!["-y"@, "-i"@, audio, "-vn"@];
    let af = seq!["-af"@, join(fs, ","@)];
    let rest = audio_only_codec(output_ext(output), format, bitrate, true) + seq![output];
    let cmd = audio_only_command_of(audio, output, format, bitrate, gain, compliance, true);
    assert(cmd =~= pre + af + rest);
    assert(cmd[4] == af[0]);
    assert(cmd[5] == af[1]);
}
} // verus!
