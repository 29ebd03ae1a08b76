//! The decisions behind the app's commands: which URLs may be opened, how
//! the ffmpeg status reads, where ProRes and slated copies go, and how a
//! slate image becomes a data URL.

use vstd::prelude::*;

use base64::Engine;

use crate::channels::{beside_dir, dir_beside, stem_or, stem_or_default};
use crate::ffmpeg::{build_prores_command, prores_command_of};
use crate::numtext::ascii_lower;
use crate::text::{
    chars_of, extension_of, lowercase, owned, path_extension, push_str, starts_with,
    starts_with_exec, string_of, to_lowercase, views,
};

verus! {

/// May a URL be opened? Only http, https and mailto links are, whatever
/// their case, so nothing else reaches the system's opener.
pub open spec fn url_allowed(url: Seq<char>) -> bool {
    let l = lowercase(url);
    starts_with(l, "https://"@) || starts_with(l, "http://"@) || starts_with(l, "mailto:"@)
}

/// Check a URL's scheme before it is handed to the system: http, https and
/// mailto pass; anything else is refused with "Unsupported URL scheme: <url>".
pub fn validate_url_scheme(url: &str) -> (r: Result<(), String>)
    ensures
        r is Ok <==> url_allowed(url@),
        r matches Err(e) ==> e@ == "Unsupported URL scheme: "@ + url@,
{
    let lower = to_lowercase(url);
    let l = chars_of(lower.as_str());
    if !starts_with_exec(&l, "https://") && !starts_with_exec(&l, "http://") && !starts_with_exec(
        &l,
        "mailto:",
    ) {
        let mut e = chars_of("Unsupported URL scheme: ");
        push_str(&mut e, url);
        return Err(string_of(&e));
    }
    Ok(())
}

/// Where the ffmpeg in use comes from: "bundled" when its path lies under
/// the app's own folder, else "system".
pub open spec fn ffmpeg_source_of(ffmpeg_path: Seq<char>, app_dir: Option<Seq<char>>) -> Seq<char> {
    match app_dir {
        Some(d) => if starts_with(ffmpeg_path, d) {
            "bundled"@
        } else {
            "system"@
        },
        None => "system"@,
    }
}

/// The ffmpeg status line: "<version> (<source>)" when ffmpeg is there
/// ("unknown" when its version could not be read), else the request to
/// install it.
pub open spec fn ffmpeg_status_of(
    available: bool,
    version: Option<Seq<char>>,
    ffmpeg_path: Seq<char>,
    app_dir: Option<Seq<char>>,
) -> Result<Seq<char>, Seq<char>> {
    if available {
        Ok(
            match version {
                Some(v) => v,
                None => "unknown"@,
            } + " ("@ + ffmpeg_source_of(ffmpeg_path, app_dir) + ")"@,
        )
    } else {
        Err("FFmpeg not found. Please install FFmpeg to use Laybacker."@)
    }
}

/// Report on ffmpeg: `available` says whether it runs, `version` is its
/// version when it could be read, `ffmpeg_path` where it was found and
/// `app_dir` the folder the app runs from, when known.
pub fn ffmpeg_status(available: bool, version: Option<String>, ffmpeg_path: &str, app_dir: Option<&str>) -> (r:
    Result<String, String>)
    ensures
        ({
            let want = ffmpeg_status_of(
                available,
                match version {
                    Some(v) => Some(v@),
                    None => None,
                },
                ffmpeg_path@,
                match app_dir {
                    Some(d) => Some(d@),
                    None => None,
                },
            );
            &&& (r is Ok <==> want is Ok)
            &&& r matches Ok(s) ==> want == Ok::<Seq<char>, Seq<char>>(s@)
            &&& r matches Err(e) ==> want == Err::<Seq<char>, Seq<char>>(e@)
        }),
{
    if !available {
        return Err(owned("FFmpeg not found. Please install FFmpeg to use Laybacker."));
    }
    let mut v = match &version {
        Some(s) => chars_of(s.as_str()),
        None => chars_of("unknown"),
    };
    push_str(&mut v, " (");
    let p = chars_of(ffmpeg_path);
    let bundled = match app_dir {
        Some(d) => starts_with_exec(&p, d),
        None => false,
    };
    if bundled {
        push_str(&mut v, "bundled");
    } else {
        push_str(&mut v, "system");
    }
    push_str(&mut v, ")");
    Ok(string_of(&v))
}

/// The prores_ks profile number and label for a profile name: "proxy",
/// "422" and "hq", anything else LT.
pub open spec fn prores_profile_of(name: Seq<char>) -> (u8, Seq<char>) {
    if name == "proxy"@ {
        (0u8, "Proxy"@)
    } else if name == "422"@ {
        (2u8, "422"@)
    } else if name == "hq"@ {
        (3u8, "HQ"@)
    } else {
        (1u8, "LT"@)
    }
}

/// The prores_ks profile number and label for a profile name.
pub fn prores_profile(name: &str) -> (r: (u8, &'static str))
    ensures
        r.0 == prores_profile_of(name@).0,
        r.1@ == prores_profile_of(name@).1,
{
    if crate::text::str_eq(name, "proxy") {
        (0, "Proxy")
    } else if crate::text::str_eq(name, "422") {
        (2, "422")
    } else if crate::text::str_eq(name, "hq") {
        (3, "HQ")
    } else {
        (1, "LT")
    }
}

/// "<folder>/<stem><tag>.mov" beside a video ("video" when it has no stem).
pub open spec fn beside_video_of(video: Seq<char>, tag: Seq<char>) -> Seq<char> {
    beside_dir(video) + "/"@ + stem_or(video, "video"@) + tag + ".mov"@
}

/// A path beside a video: "<folder>/<stem><tag>.mov".
fn beside_video(video: &str, tag: &Vec<char>) -> (r: String)
    ensures
        r@ == beside_video_of(video@, tag@),
{
    let dir = dir_beside(video);
    let stem = stem_or_default(video, "video");
    let mut v = chars_of(dir.as_str());
    push_str(&mut v, "/");
    push_str(&mut v, stem.as_str());
    let ghost before = v@;
    for i in 0..tag.len()
        invariant
            v@ == before + tag@.take(i as int),
    {
        v.push(tag[i]);
        proof {
            assert(tag@.take(i + 1) =~= tag@.take(i as int).push(tag@[i as int]));
        }
    }
    assert(tag@.take(tag@.len() as int) =~= tag@);
    push_str(&mut v, ".mov");
    string_of(&v)
}

/// A ProRes working file to make: where it goes and the ffmpeg arguments.
pub struct ProresJob {
    pub output: String,
    pub args: Vec<String>,
}

/// The ProRes working file for `video` in profile `profile` ("proxy",
/// "422", "hq", else LT): "<stem>_ProRes_<label>.mov" beside the video,
/// and the ffmpeg run that writes it.
pub fn prores_job(video: &str, profile: &str) -> (r: ProresJob)
    ensures
        r.output@ == beside_video_of(video@, "_ProRes_"@ + prores_profile_of(profile@).1),
        views(r.args@) == prores_command_of(video@, r.output@, prores_profile_of(profile@).0),
{
    let (num, label) = prores_profile(profile);
    let mut tag = chars_of("_ProRes_");
    push_str(&mut tag, label);
    let output = beside_video(video, &tag);
    let args = build_prores_command(video, output.as_str(), num);
    ProresJob { output, args }
}

/// Where a slated copy of a solo video goes: "<stem>_Slated.mov" beside it.
pub fn slated_output_path(video: &str) -> (r: String)
    ensures
        r@ == beside_video_of(video@, "_Slated"@),
{
    let tag = chars_of("_Slated");
    beside_video(video, &tag)
}

/// The largest slate image taken, in bytes (40 MB).
pub const MAX_IMAGE_BYTES: usize = 41943040;

/// The MIME type of an image by its (ASCII-lowercased) extension.
pub open spec fn image_mime_of(ext: Seq<char>) -> Option<Seq<char>> {
    if ext == "png"@ {
        Some("image/png"@)
    } else if ext == "jpg"@ || ext == "jpeg"@ {
        Some("image/jpeg"@)
    } else if ext == "webp"@ {
        Some("image/webp"@)
    } else if ext == "gif"@ {
        Some("image/gif"@)
    } else if ext == "bmp"@ {
        Some("image/bmp"@)
    } else {
        None
    }
}

/// A text with its ASCII letters lowercased.
pub open spec fn ascii_lowercase(s: Seq<char>) -> Seq<char> {
    s.map_values(|c: char| ascii_lower(c))
}

/// A path's extension, ASCII-lowercased ("" when it has none).
pub open spec fn image_ext_of(path: Seq<char>) -> Seq<char> {
    match path_extension(path) {
        Some(e) => ascii_lowercase(e),
        None => Seq::empty(),
    }
}

/// The character for a six-bit value in the standard base64 alphabet
/// (RFC 4648): A–Z, a–z, 0–9, '+', '/'.
pub open spec fn base64_digit(v: int) -> char {
    if v < 26 {
        ('A' as int + v) as char
    } else if v < 52 {
        ('a' as int + (v - 26)) as char
    } else if v < 62 {
        ('0' as int + (v - 52)) as char
    } else if v == 62 {
        '+'
    } else {
        '/'
    }
}

/// The standard base64 encoding (RFC 4648, with padding) of `bytes`: each
/// group of three bytes becomes four characters of six bits each; a last
/// group of one or two bytes is filled with zero bits and padded with '='.
pub open spec fn base64_standard(bytes: Seq<u8>) -> Seq<char>
    decreases bytes.len(),
{
    if bytes.len() == 0 {
        Seq::empty()
    } else if bytes.len() == 1 {
        let x = bytes[0] as int;
        seq![base64_digit(x / 4), base64_digit((x % 4) * 16), '=', '=']
    } else if bytes.len() == 2 {
        let x = bytes[0] as int;
        let y = bytes[1] as int;
        seq![
            base64_digit(x / 4),
            base64_digit((x % 4) * 16 + y / 16),
            base64_digit((y % 16) * 4),
            '=',
        ]
    } else {
        let x = bytes[0] as int;
        let y = bytes[1] as int;
        let z = bytes[2] as int;
        seq![
            base64_digit(x / 4),
            base64_digit((x % 4) * 16 + y / 16),
            base64_digit((y % 16) * 4 + z / 64),
            base64_digit(z % 64),
        ] + base64_standard(bytes.subrange(3, bytes.len() as int))
    }
}

/// `base64::engine::general_purpose::STANDARD.encode`: the standard
/// alphabet with padding, as `base64_standard` states it. `encode` panics
/// when the encoded length overflows `usize`, which the bound rules out.
#[verifier::external_body]
fn encode_base64(bytes: &Vec<u8>) -> (r: String)
    requires
        bytes@.len() <= usize::MAX / 2,
    ensures
        r@ == base64_standard(bytes@),
{
    base64::engine::general_purpose::STANDARD.encode(bytes)
}

/// What a slate image read from `path` (`bytes` its contents) becomes: the
/// data URL "data:<mime>;base64,<bytes>", or why it is refused — over
/// 40 MB (checked first), or not PNG, JPEG, WebP, GIF or BMP by its
/// extension in any case.
pub open spec fn image_data_url_of(path: Seq<char>, bytes: Seq<u8>) -> Result<Seq<char>, Seq<char>> {
    if bytes.len() > MAX_IMAGE_BYTES {
        Err("That image is over 40 MB — please use a smaller one"@)
    } else {
        match image_mime_of(image_ext_of(path)) {
            Some(m) => Ok("data:"@ + m + ";base64,"@ + base64_standard(bytes)),
            None => Err(
                "Unsupported image type ."@ + image_ext_of(path) + " — use PNG, JPEG, WebP, GIF or BMP"@,
            ),
        }
    }
}

/// A slate image read from `path` (`bytes` its contents) as a data URL for
/// the slate editor.
pub fn image_data_url(path: &str, bytes: &Vec<u8>) -> (r: Result<String, String>)
    ensures
        ({
            let want = image_data_url_of(path@, bytes@);
            &&& (r is Ok <==> want is Ok)
            &&& r matches Ok(s) ==> want == Ok::<Seq<char>, Seq<char>>(s@)
            &&& r matches Err(e) ==> want == Err::<Seq<char>, Seq<char>>(e@)
        }),
{
    if bytes.len() > MAX_IMAGE_BYTES {
        return Err(owned("That image is over 40 MB — please use a smaller one"));
    }
    let raw = match extension_of(path) {
        Some(e) => chars_of(e.as_str()),
        None => Vec::new(),
    };
    let mut ext: Vec<char> = Vec::new();
    for i in 0..raw.len()
        invariant
            ext@ == ascii_lowercase(raw@.take(i as int)),
    {
        let c = raw[i];
        let lc = if 'A' <= c && c <= 'Z' {
            ((c as u8) + 32) as char
        } else {
            c
        };
        ext.push(lc);
        proof {
            assert(ascii_lowercase(raw@.take(i + 1)) =~= ascii_lowercase(raw@.take(i as int)).push(
                ascii_lower(c),
            ));
        }
    }
    assert(raw@.take(raw@.len() as int) =~= raw@);
    assert(ext@ == image_ext_of(path@));
    let es = string_of(&ext);
    let mime: &str = if crate::text::str_eq(es.as_str(), "png") {
        "image/png"
    } else if crate::text::str_eq(es.as_str(), "jpg") || crate::text::str_eq(es.as_str(), "jpeg") {
        "image/jpeg"
    } else if crate::text::str_eq(es.as_str(), "webp") {
        "image/webp"
    } else if crate::text::str_eq(es.as_str(), "gif") {
        "image/gif"
    } else if crate::text::str_eq(es.as_str(), "bmp") {
        "image/bmp"
    } else {
        let mut e = chars_of("Unsupported image type .");
        push_str(&mut e, es.as_str());
        push_str(&mut e, " — use PNG, JPEG, WebP, GIF or BMP");
        return Err(string_of(&e));
    };
    let b64 = encode_base64(bytes);
    let mut v = chars_of("data:");
    push_str(&mut v, mime);
    push_str(&mut v, ";base64,");
    push_str(&mut v, b64.as_str());
    Ok(string_of(&v))
}

/// `s` with each `'` doubled, for a PowerShell single-quoted string.
pub open spec fn ps_quoted(s: Seq<char>) -> Seq<char>
    decreases s.len(),
{
    if s.len() == 0 {
        Seq::empty()
    } else {
        ps_quoted(s.drop_last()) + if s.last() == '\'' {
            seq!['\'', '\'']
        } else {
            seq![s.last()]
        }
    }
}

/// How PowerShell reads the body of a single-quoted string: a doubled `'`
/// is one `'`; the body ends at a lone `'`, and what it gives back stops
/// there (the second component says whether the body ran to its end).
pub open spec fn ps_unquoted(e: Seq<char>) -> (Seq<char>, bool)
    decreases e.len(),
{
    if e.len() == 0 {
        (Seq::empty(), true)
    } else if e[0] == '\'' {
        if e.len() >= 2 && e[1] == '\'' {
            let r = ps_unquoted(e.skip(2));
            (seq!['\''] + r.0, r.1)
        } else {
            (Seq::empty(), false)
        }
    } else {
        let r = ps_unquoted(e.drop_first());
        (seq![e[0]] + r.0, r.1)
    }
}

/// The quoting of a file path is read back as the path itself, to the end:
/// no path can close the quoted string early and run its own commands.
pub proof fn lemma_ps_quoting_reads_back(s: Seq<char>)
    ensures
        ps_unquoted(ps_quoted(s)) == (s, true),
    decreases s.len(),
{
    if s.len() > 0 {
        lemma_ps_quoted_prefix(s);
        lemma_ps_quoting_reads_back(s.drop_first());
        let tail = ps_quoted(s.drop_first());
        if s[0] == '\'' {
            assert(ps_quoted(s) =~= seq!['\'', '\''] + tail);
            assert(ps_quoted(s).skip(2) =~= tail);
            assert(ps_unquoted(ps_quoted(s)).0 =~= seq!['\''] + s.drop_first());
        } else {
            assert(ps_quoted(s) =~= seq![s[0]] + tail);
            assert(ps_quoted(s).drop_first() =~= tail);
            assert(ps_unquoted(ps_quoted(s)).0 =~= seq![s[0]] + s.drop_first());
        }
        assert(seq![s[0]] + s.drop_first() =~= s);
    }
}

/// Quoting a text is quoting its first character, then the rest.
proof fn lemma_ps_quoted_prefix(s: Seq<char>)
    requires
        s.len() > 0,
    ensures
        ps_quoted(s) == (if s[0] == '\'' {
            seq!['\'', '\'']
        } else {
            seq![s[0]]
        }) + ps_quoted(s.drop_first()),
    decreases s.len(),
{
    if s.len() > 1 {
        lemma_ps_quoted_prefix(s.drop_last());
        assert(s.drop_last().drop_first() =~= s.drop_first().drop_last());
        assert(s.drop_first().last() == s.last());
        assert(s.drop_last()[0] == s[0]);
    } else {
        assert(s.drop_first() =~= Seq::<char>::empty());
        assert(s.drop_last() =~= Seq::<char>::empty());
    }
}

/// The PowerShell command that plays a sound file on Windows, the path
/// quoted so it reads back as itself.
pub open spec fn sound_script_of(path: Seq<char>) -> Seq<char> {
    "(New-Object Media.SoundPlayer '"@ + ps_quoted(path) + "').PlaySync()"@
}

/// The PowerShell command that plays the sound file `path`.
pub fn sound_script(path: &str) -> (r: String)
    ensures
        r@ == sound_script_of(path@),
{
    let cs = chars_of(path);
    let mut v = chars_of("(New-Object Media.SoundPlayer '");
    let ghost start = v@;
    let mut i: usize = 0;
    while i < cs.len()
        invariant
            i <= cs.len(),
            cs@ == path@,
            v@ == start + ps_quoted(cs@.take(i as int)),
        decreases cs.len() - i,
    {
        let c = cs[i];
        if c == '\'' {
            v.push('\'');
            v.push('\'');
        } else {
            v.push(c);
        }
        proof {
            assert(cs@.take(i + 1).drop_last() =~= cs@.take(i as int));
        }
        i += 1;
    }
    assert(cs@.take(cs@.len() as int) =~= cs@);
    push_str(&mut v, "').PlaySync()");
    string_of(&v)
}

} // verus!
