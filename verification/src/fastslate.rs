//! Fast slates: re-encode only what changes. A prepended card is encoded on
//! its own and the whole programme is copied; an overlay re-encodes the
//! picture only up to the first keyframe past the text, and copies the rest.
//! The pieces are joined as MPEG-TS segments and remuxed to a video-only
//! .mov. Only H.264 sources with a constant frame rate qualify, and every
//! result is checked (exact packet count) before it is used.

use vstd::prelude::*;

use crate::text::{chars_of, decimal, push_decimal, owned, push_arg, push_str, string_of, str_eq, trim_chars, trimmed, views};

verus! {

/// What the fast path needs to know about the source picture.
pub struct SourceVideo {
    pub codec: String,
    pub profile: String,
    pub level: i64,
    pub pix_fmt: String,
    pub width: u32,
    pub height: u32,
    /// The frame rate as the fraction ffprobe reports: `fps_num / fps_den`
    /// (an unknown rate has a zero in it).
    pub fps_num: u64,
    pub fps_den: u64,
    pub sar: String,
    /// Keyframe times in microseconds, ascending.
    pub keyframes_us: Vec<u64>,
    pub packets: u64,
}

/// x264's name for an ffprobe profile (surrounding whitespace ignored), or
/// none when the fast path can't match it (10-bit, 4:2:2 and the like).
pub open spec fn x264_profile_of(probe_profile: Seq<char>) -> Option<Seq<char>> {
    let t = trimmed(probe_profile);
    if t == "High"@ {
        Some("high"@)
    } else if t == "Main"@ {
        Some("main"@)
    } else if t == "Baseline"@ || t == "Constrained Baseline"@ {
        Some("baseline"@)
    } else {
        None
    }
}

/// x264's name for an ffprobe profile, or None when the fast path can't
/// match it (10-bit, 4:2:2 and the like).
pub fn x264_profile(probe_profile: &str) -> (r: Option<&'static str>)
    ensures
        r.is_some() == x264_profile_of(probe_profile@).is_some(),
        r matches Some(n) ==> n@ == x264_profile_of(probe_profile@).unwrap(),
{
    let raw = chars_of(probe_profile);
    let t = string_of(&trim_chars(&raw));
    if str_eq(t.as_str(), "High") {
        Some("high")
    } else if str_eq(t.as_str(), "Main") {
        Some("main")
    } else if str_eq(t.as_str(), "Baseline") || str_eq(t.as_str(), "Constrained Baseline") {
        Some("baseline")
    } else {
        None
    }
}

/// Whether a source can take the fast path, or the first reason it can't:
/// not H.264, an unmatched profile, missing stream details (frame rate,
/// size, pixel format), a pixel format other than 4:2:0, or no frames.
pub open spec fn eligible_of(v: SourceVideo) -> Result<(), Seq<char>> {
    if v.codec@ != "h264"@ {
        Err("source is "@ + v.codec@ + ", not H.264"@)
    } else if x264_profile_of(v.profile@) is None {
        Err("H.264 profile "@ + v.profile@ + " can't be matched"@)
    } else if v.fps_num == 0 || v.fps_den == 0 || v.width == 0 || v.height == 0 || v.pix_fmt@.len()
        == 0 {
        Err("incomplete stream details"@)
    } else if v.pix_fmt@ != "yuv420p"@ && v.pix_fmt@ != "yuvj420p"@ {
        Err("pixel format "@ + v.pix_fmt@ + " can't be matched"@)
    } else if v.packets == 0 || v.keyframes_us@.len() == 0 {
        Err("no frames"@)
    } else {
        Ok(())
    }
}

/// Can this source take the fast path at all?
pub fn eligible(v: &SourceVideo) -> (r: Result<(), String>)
    ensures
        r is Ok <==> eligible_of(*v) is Ok,
        r matches Err(e) ==> eligible_of(*v) == Err::<(), Seq<char>>(e@),
{
    if !str_eq(v.codec.as_str(), "h264") {
        let mut e = chars_of("source is ");
        push_str(&mut e, v.codec.as_str());
        push_str(&mut e, ", not H.264");
        return Err(string_of(&e));
    }
    if x264_profile(v.profile.as_str()).is_none() {
        let mut e = chars_of("H.264 profile ");
        push_str(&mut e, v.profile.as_str());
        push_str(&mut e, " can't be matched");
        return Err(string_of(&e));
    }
    let pix = chars_of(v.pix_fmt.as_str());
    if v.fps_num == 0 || v.fps_den == 0 || v.width == 0 || v.height == 0 || pix.len() == 0 {
        return Err(owned("incomplete stream details"));
    }
    if !str_eq(v.pix_fmt.as_str(), "yuv420p") && !str_eq(v.pix_fmt.as_str(), "yuvj420p") {
        let mut e = chars_of("pixel format ");
        push_str(&mut e, v.pix_fmt.as_str());
        push_str(&mut e, " can't be matched");
        return Err(string_of(&e));
    }
    if v.packets == 0 || v.keyframes_us.len() == 0 {
        return Err(owned("no frames"));
    }
    Ok(())
}

/// The keyframes (µs) that count as at or after time `at_us`: within half a
/// millisecond before it is close enough.
pub open spec fn at_or_after(k: u64, at_us: u64) -> bool {
    k + 500 >= at_us
}

/// The first keyframe at or after `at_us` (µs) — where an overlay's
/// re-encoded head ends and the copied tail begins — or none.
pub fn cut_point(keyframes_us: &Vec<u64>, at_us: u64) -> (r: Option<u64>)
    ensures
        r == cut_point_of(keyframes_us@, at_us),
{
    let ghost ks = keyframes_us@;
    assert(ks.subrange(0, ks.len() as int) =~= ks);
    let mut i: usize = 0;
    while i < keyframes_us.len()
        invariant
            i <= keyframes_us.len(),
            ks == keyframes_us@,
            cut_point_of(ks, at_us) == cut_point_of(ks.subrange(i as int, ks.len() as int), at_us),
        decreases keyframes_us.len() - i,
    {
        let k = keyframes_us[i];
        if k as u128 + 500 >= at_us as u128 {
            assert(ks.subrange(i as int, ks.len() as int)[0] == k);
            return Some(k);
        }
        assert(ks.subrange(i + 1, ks.len() as int) =~= ks.subrange(i as int, ks.len() as int).drop_first());
        i += 1;
    }
    None
}

/// Where the copied tail of a fast slate starts: nothing to cut for a
/// prepended card; for an overlay ending at `overlay_end_us`, the first
/// keyframe at or after it, or an error when there is none.
pub fn splice_cut(v: &SourceVideo, overlay_end_us: Option<u64>) -> (r: Result<Option<u64>, String>)
    ensures
        overlay_end_us is None ==> r == Ok::<Option<u64>, String>(None),
        overlay_end_us matches Some(t) ==> match cut_point_of(v.keyframes_us@, t) {
            Some(k) => r == Ok::<Option<u64>, String>(Some(k)),
            None => r matches Err(e) && e@ == "no keyframe after the overlay — nothing to copy"@,
        },
{
    match overlay_end_us {
        None => Ok(None),
        Some(t) => {
            match cut_point(&v.keyframes_us, t) {
                Some(k) => Ok(Some(k)),
                None => Err(owned("no keyframe after the overlay — nothing to copy")),
            }
        },
    }
}

/// The first keyframe at or after `at_us`, or none.
pub open spec fn cut_point_of(keyframes_us: Seq<u64>, at_us: u64) -> Option<u64>
    decreases keyframes_us.len(),
{
    if keyframes_us.len() == 0 {
        None
    } else if at_or_after(keyframes_us[0], at_us) {
        Some(keyframes_us[0])
    } else {
        cut_point_of(keyframes_us.drop_first(), at_us)
    }
}

/// Copying the tail segment: the whole programme (prepend), or from the cut
/// (`cut` its time in seconds, four decimals) on (overlay).
pub open spec fn tail_command_of(video: Seq<char>, cut: Option<Seq<char>>, out: Seq<char>) -> Seq<Seq<char>> {
    seq!["-y"@] + match cut {
        Some(c) => seq!["-ss"@, c],
        None => Seq::empty(),
    } + seq![
        "-i"@,
        video,
        "-map"@,
        "0:v:0"@,
        "-c:v"@,
        "copy"@,
        "-bsf:v"@,
        "h264_mp4toannexb"@,
        "-f"@,
        "mpegts"@,
        out,
    ]
}

/// Copy the tail segment: the whole programme (prepend) or from `cut` on
/// (overlay).
pub fn build_tail_command(video_path: &str, cut: Option<&str>, out: &str) -> (r: Vec<String>)
    ensures
        views(r@) == tail_command_of(
            video_path@,
            match cut {
                Some(c) => Some(c@),
                None => None,
            },
            out@,
        ),
{
    let mut args: Vec<String> = Vec::new();
    push_arg(&mut args, "-y");
    if let Some(c) = cut {
        push_arg(&mut args, "-ss");
        push_arg(&mut args, c);
    }
    push_arg(&mut args, "-i");
    push_arg(&mut args, video_path);
    push_arg(&mut args, "-map");
    push_arg(&mut args, "0:v:0");
    push_arg(&mut args, "-c:v");
    push_arg(&mut args, "copy");
    push_arg(&mut args, "-bsf:v");
    push_arg(&mut args, "h264_mp4toannexb");
    push_arg(&mut args, "-f");
    push_arg(&mut args, "mpegts");
    push_arg(&mut args, out);
    let ghost cv = match cut {
        Some(c) => Some(c@),
        None => None,
    };
    assert(views(args@) =~= tail_command_of(video_path@, cv, out@));
    args
}

/// Joining the segments (listed in `list`) into a video-only .mov, copying.
pub open spec fn splice_join_command_of(list: Seq<char>, out: Seq<char>) -> Seq<Seq<char>> {
    seq![
        "-y"@,
        "-f"@,
        "concat"@,
        "-safe"@,
        "0"@,
        "-i"@,
        list,
        "-map"@,
        "0:v:0"@,
        "-c:v"@,
        "copy"@,
        out,
    ]
}

/// Join the segments into a video-only .mov, copying.
pub fn build_join_command(list_path: &str, out: &str) -> (r: Vec<String>)
    ensures
        views(r@) == splice_join_command_of(list_path@, out@),
{
    let mut args: Vec<String> = Vec::new();
    push_arg(&mut args, "-y");
    push_arg(&mut args, "-f");
    push_arg(&mut args, "concat");
    push_arg(&mut args, "-safe");
    push_arg(&mut args, "0");
    push_arg(&mut args, "-i");
    push_arg(&mut args, list_path);
    push_arg(&mut args, "-map");
    push_arg(&mut args, "0:v:0");
    push_arg(&mut args, "-c:v");
    push_arg(&mut args, "copy");
    push_arg(&mut args, out);
    assert(views(args@) =~= splice_join_command_of(list_path@, out@));
    args
}

/// What a spliced result must hold: every packet of its head
/// and tail segments, and an overlay (whose source had `source_packets`,
/// cut at `cut`, seconds with three decimals) exactly the source's.
pub open spec fn splice_verdict_of(head: u64, tail: u64, got: u64, overlay: Option<(u64, Seq<char>)>) -> Result<
    (),
    Seq<char>,
> {
    if got != head + tail {
        Err("frame count "@ + decimal(got as nat) + " ≠ expected "@ + decimal((head + tail) as nat))
    } else {
        match overlay {
            Some((n, c)) => if got != n {
                Err(
                    "overlay join has "@ + decimal(got as nat) + " frames, source has "@ + decimal(n as nat)
                        + " (cut at "@ + c + "s)"@,
                )
            } else {
                Ok(())
            },
            None => Ok(()),
        }
    }
}

/// Check a spliced result's packet count (`got`) against its segments'
/// (`head`, `tail`) and, for an overlay, the source's.
pub fn splice_verdict(head: u64, tail: u64, got: u64, overlay: Option<(u64, &str)>) -> (r: Result<(), String>)
    requires
        head + tail <= u64::MAX,
    ensures
        ({
            let want = splice_verdict_of(
                head,
                tail,
                got,
                match overlay {
                    Some((n, c)) => Some((n, c@)),
                    None => None,
                },
            );
            &&& (r is Ok <==> want is Ok)
            &&& r matches Err(e) ==> want == Err::<(), Seq<char>>(e@)
        }),
{
    let expected = head + tail;
    if got != expected {
        let mut e = chars_of("frame count ");
        push_decimal(&mut e, got);
        push_str(&mut e, " ≠ expected ");
        push_decimal(&mut e, expected);
        return Err(string_of(&e));
    }
    if let Some((n, c)) = overlay {
        if got != n {
            let mut e = chars_of("overlay join has ");
            push_decimal(&mut e, got);
            push_str(&mut e, " frames, source has ");
            push_decimal(&mut e, n);
            push_str(&mut e, " (cut at ");
            push_str(&mut e, c);
            push_str(&mut e, "s)");
            return Err(string_of(&e));
        }
    }
    Ok(())
}

/// `s` with each `'` written as `'\''`, for a single-quoted entry of an
/// ffmpeg concat list.
pub open spec fn concat_escaped(s: Seq<char>) -> Seq<char>
    decreases s.len(),
{
    if s.len() == 0 {
        Seq::empty()
    } else {
        concat_escaped(s.drop_last()) + if s.last() == '\'' {
            seq!['\'', '\\', '\'', '\'']
        } else {
            seq![s.last()]
        }
    }
}

/// The concat list of a splice: "file '<head>'\nfile '<tail>'\n".
pub open spec fn segment_list_of(head: Seq<char>, tail: Seq<char>) -> Seq<char> {
    "file '"@ + concat_escaped(head) + "'\nfile '"@ + concat_escaped(tail) + "'\n"@
}

/// Appends `s`, escaped for a single-quoted concat entry.
fn push_escaped(v: &mut Vec<char>, s: &str)
    ensures
        final(v)@ == old(v)@ + concat_escaped(s@),
{
    let cs = chars_of(s);
    let ghost start = v@;
    let mut i: usize = 0;
    while i < cs.len()
        invariant
            i <= cs.len(),
            cs@ == s@,
            v@ == start + concat_escaped(cs@.take(i as int)),
        decreases cs.len() - i,
    {
        let c = cs[i];
        if c == '\'' {
            v.push('\'');
            v.push('\\');
            v.push('\'');
            v.push('\'');
        } else {
            v.push(c);
        }
        proof {
            assert(cs@.take(i + 1).drop_last() =~= cs@.take(i as int));
        }
        i += 1;
    }
    assert(cs@.take(cs@.len() as int) =~= cs@);
}

/// The concat list that joins a splice's head and tail segments.
pub fn segment_list(head: &str, tail: &str) -> (r: String)
    ensures
        r@ == segment_list_of(head@, tail@),
{
    let mut v = chars_of("file '");
    push_escaped(&mut v, head);
    push_str(&mut v, "'\nfile '");
    push_escaped(&mut v, tail);
    push_str(&mut v, "'\n");
    string_of(&v)
}

/// The cut is the first keyframe at or after the time: it is one of the
/// keyframes, it is at or after the time, and every keyframe before it is
/// earlier; when there is no cut, every keyframe is earlier.
pub proof fn lemma_cut_point_is_first(ks: Seq<u64>, at_us: u64)
    ensures
        cut_point_of(ks, at_us) matches Some(k) ==> exists|i: int|
            0 <= i < ks.len() && ks[i] == k && at_or_after(k, at_us) && forall|j: int|
                0 <= j < i ==> !at_or_after(#[trigger] ks[j], at_us),
        cut_point_of(ks, at_us) is None ==> forall|j: int|
            0 <= j < ks.len() ==> !at_or_after(#[trigger] ks[j], at_us),
    decreases ks.len(),
{
    if ks.len() > 0 && !at_or_after(ks[0], at_us) {
        let rest = ks.drop_first();
        lemma_cut_point_is_first(rest, at_us);
        match cut_point_of(rest, at_us) {
            Some(k) => {
                let i = choose|i: int|
                    0 <= i < rest.len() && rest[i] == k && at_or_after(k, at_us) && forall|j: int|
                        0 <= j < i ==> !at_or_after(#[trigger] rest[j], at_us);
                assert(ks[i + 1] == k);
                assert forall|j: int| 0 <= j < i + 1 implies !at_or_after(#[trigger] ks[j], at_us) by {
                    if j > 0 {
                        assert(ks[j] == rest[j - 1]);
                    }
                }
            },
            None => {
                assert forall|j: int| 0 <= j < ks.len() implies !at_or_after(#[trigger] ks[j], at_us) by {
                    if j > 0 {
                        assert(ks[j] == rest[j - 1]);
                    }
                }
            },
        }
    } else if ks.len() > 0 {
        assert(ks[0] == ks[0]);
    }
}

/// How ffmpeg reads a quoted token of a concat list (its documented quoting:
/// text between `'` is taken as it is; outside quotes, `\` takes the next
/// character as it is), `quoted` saying whether the reading starts inside
/// quotes.
pub open spec fn ff_unquoted(e: Seq<char>, quoted: bool) -> Seq<char>
    decreases e.len(),
{
    if e.len() == 0 {
        Seq::empty()
    } else if quoted {
        if e[0] == '\'' {
            ff_unquoted(e.drop_first(), false)
        } else {
            seq![e[0]] + ff_unquoted(e.drop_first(), true)
        }
    } else if e[0] == '\'' {
        ff_unquoted(e.drop_first(), true)
    } else if e[0] == '\\' && e.len() >= 2 {
        seq![e[1]] + ff_unquoted(e.skip(2), false)
    } else {
        seq![e[0]] + ff_unquoted(e.drop_first(), false)
    }
}

/// Escaping a text is escaping its first character, then the rest.
proof fn lemma_concat_escaped_front(s: Seq<char>)
    requires
        s.len() > 0,
    ensures
        concat_escaped(s) == (if s[0] == '\'' {
            seq!['\'', '\\', '\'', '\'']
        } else {
            seq![s[0]]
        }) + concat_escaped(s.drop_first()),
    decreases s.len(),
{
    if s.len() > 1 {
        lemma_concat_escaped_front(s.drop_last());
        assert(s.drop_last().drop_first() =~= s.drop_first().drop_last());
        assert(s.drop_first().last() == s.last());
        assert(s.drop_last()[0] == s[0]);
    } else {
        assert(s.drop_first() =~= Seq::<char>::empty());
        assert(s.drop_last() =~= Seq::<char>::empty());
    }
}

/// Inside quotes, an escaped text and its closing quote read back as the
/// text, and the reading goes on outside quotes.
proof fn lemma_escaped_reads_back(s: Seq<char>, rest: Seq<char>)
    ensures
        ff_unquoted(concat_escaped(s) + "'"@ + rest, true) == s + ff_unquoted(rest, false),
    decreases s.len(),
{
    reveal_strlit("'");
    if s.len() == 0 {
        assert(concat_escaped(s) + "'"@ + rest =~= seq!['\''] + rest);
        assert((seq!['\''] + rest).drop_first() =~= rest);
        assert(s + ff_unquoted(rest, false) =~= ff_unquoted(rest, false));
    } else {
        lemma_concat_escaped_front(s);
        lemma_escaped_reads_back(s.drop_first(), rest);
        let tail = concat_escaped(s.drop_first()) + "'"@ + rest;
        if s[0] == '\'' {
            let e = seq!['\'', '\\', '\'', '\''] + tail;
            let e1 = seq!['\\', '\'', '\''] + tail;
            let e2 = seq!['\''] + tail;
            assert(concat_escaped(s) + "'"@ + rest =~= e);
            assert(e.drop_first() =~= e1);
            assert(e1.skip(2) =~= e2);
            assert(e2.drop_first() =~= tail);
            assert(e[0] == '\'' && e1[0] == '\\' && e1[1] == '\'' && e2[0] == '\'');
            assert(ff_unquoted(e2, false) == ff_unquoted(tail, true));
            assert(ff_unquoted(e1, false) == seq!['\''] + ff_unquoted(e2, false));
            assert(ff_unquoted(e, true) == ff_unquoted(e1, false));
        } else {
            let e = seq![s[0]] + tail;
            assert(concat_escaped(s) + "'"@ + rest =~= e);
            assert(e.drop_first() =~= tail);
        }
        assert(seq![s[0]] + s.drop_first() =~= s);
        assert(seq![s[0]] + (s.drop_first() + ff_unquoted(rest, false)) =~= s + ff_unquoted(rest, false));
    }
}

/// A segment's path, quoted for the concat list, reads back as the path
/// itself: no path (quotes included) can break out of its entry.
pub proof fn lemma_concat_quoting_reads_back(path: Seq<char>)
    ensures
        ff_unquoted("'"@ + concat_escaped(path) + "'"@, false) == path,
{
    reveal_strlit("'");
    let e = "'"@ + concat_escaped(path) + "'"@;
    assert(e.drop_first() =~= concat_escaped(path) + "'"@ + Seq::<char>::empty());
    lemma_escaped_reads_back(path, Seq::empty());
    assert(path + ff_unquoted(Seq::<char>::empty(), false) =~= path);
}

/// The verdict of a full decode of the join: clean only when ffmpeg
/// succeeded and printed nothing; otherwise "decode check: <what it said>".
pub open spec fn decode_verdict_of(success: bool, stderr: Seq<char>) -> Result<(), Seq<char>> {
    if !success || trimmed(stderr).len() > 0 {
        Err("decode check: "@ + trimmed(stderr))
    } else {
        Ok(())
    }
}

/// Judge a decode run from its exit status and what it printed.
pub fn decode_verdict(success: bool, stderr: &str) -> (r: Result<(), String>)
    ensures
        r is Ok <==> decode_verdict_of(success, stderr@) is Ok,
        r matches Err(e) ==> decode_verdict_of(success, stderr@) == Err::<(), Seq<char>>(e@),
{
    let raw = chars_of(stderr);
    let t = trim_chars(&raw);
    if !success || t.len() > 0 {
        let mut e = chars_of("decode check: ");
        let ts = string_of(&t);
        push_str(&mut e, ts.as_str());
        return Err(string_of(&e));
    }
    Ok(())
}

} // verus!
