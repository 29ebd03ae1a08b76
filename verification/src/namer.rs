//! Output file names: a video layback is named after its video (plus what is
//! unique to its audio); an audio-only output records each processing step
//! in its name, without stacking the tags of an earlier run; and duplicate
//! names in a batch are numbered apart, each output getting a name of its own.

use vstd::prelude::*;

use crate::models::{container_extension, AudioOutputSpec};
use crate::numtext::{is_float_text, is_u32_text, u32_text, float_text};
use crate::text::{
    join, chars_eq, chars_of, decimal, ends_with, ends_with_exec, find, find_chars, lowercase, push_chars,
    push_decimal, push_str, rfind, rfind_char, string_of, slice_chars, to_lowercase, without_suffix,
};

verus! {

// ── Stripping the tags of an earlier run ────────────────────────────────────

/// A bit-depth tag: "32f" or "<u32>bit".
pub open spec fn is_depth_tag(t: Seq<char>) -> bool {
    t == "32f"@ || (ends_with(t, "bit"@) && is_u32_text(without_suffix(t, "bit"@)))
}

/// A sample-rate tag: "<number>k".
pub open spec fn is_rate_tag(t: Seq<char>) -> bool {
    ends_with(t, "k"@) && is_float_text(without_suffix(t, "k"@))
}

/// A level tag: "<number><unit>" (unit "dBTP" or "LUFS").
pub open spec fn is_level_tag(t: Seq<char>, unit: Seq<char>) -> bool {
    ends_with(t, unit) && is_float_text(without_suffix(t, unit))
}

/// The part of `s` after its last `_`.
pub open spec fn last_segment(s: Seq<char>) -> Seq<char> {
    s.skip(rfind(s, '_') + 1)
}

/// `s` without its last `_`-segment (and that `_`).
pub open spec fn before_last_segment(s: Seq<char>) -> Seq<char> {
    s.take(rfind(s, '_'))
}

/// Drop a trailing bit-depth tag.
pub open spec fn strip_depth(s: Seq<char>) -> Seq<char> {
    if rfind(s, '_') >= 0 && is_depth_tag(last_segment(s)) {
        before_last_segment(s)
    } else {
        s
    }
}

/// Drop a trailing sample-rate tag.
pub open spec fn strip_rate(s: Seq<char>) -> Seq<char> {
    if rfind(s, '_') >= 0 && is_rate_tag(last_segment(s)) {
        before_last_segment(s)
    } else {
        s
    }
}

/// Drop a trailing level tag in `unit`.
pub open spec fn strip_level(s: Seq<char>, unit: Seq<char>) -> Seq<char> {
    if rfind(s, '_') >= 0 && is_level_tag(last_segment(s), unit) {
        before_last_segment(s)
    } else {
        s
    }
}

/// Drop a trailing `word`.
pub open spec fn strip_word(s: Seq<char>, word: Seq<char>) -> Seq<char> {
    if ends_with(s, word) {
        without_suffix(s, word)
    } else {
        s
    }
}

/// Drop the legacy "_normalised_…" marker and everything after it.
pub open spec fn strip_legacy(s: Seq<char>) -> Seq<char> {
    if find(s, "_normalised_"@) >= 0 {
        s.take(find(s, "_normalised_"@))
    } else {
        s
    }
}

/// A name with the tags this app appends taken off, in the reverse of the
/// order they are added: the legacy marker, then depth, rate, "_Clocked",
/// "_6Fr", the dBTP level and the LUFS level.
pub open spec fn stripped(s: Seq<char>) -> Seq<char> {
    strip_level(
        strip_level(
            strip_word(strip_word(strip_rate(strip_depth(strip_legacy(s))), "_Clocked"@), "_6Fr"@),
            "dBTP"@,
        ),
        "LUFS"@,
    )
}

/// The last `_`-segment of `v`, when there is a `_`: (its start, the segment).
fn last_segment_exec(v: &Vec<char>) -> (r: Option<(usize, Vec<char>)>)
    ensures
        match r {
            Some((i, t)) => rfind(v@, '_') >= 0 && i == rfind(v@, '_') && i < v@.len() && t@
                == last_segment(v@),
            None => rfind(v@, '_') < 0,
        },
{
    match rfind_char(v, '_') {
        Some(i) => {
            proof {
                crate::text::lemma_rfind(v@, '_');
            }
            assert(i < v.len());
            let t = slice_chars(v, i + 1, v.len());
            assert(t@ =~= last_segment(v@));
            Some((i, t))
        },
        None => None,
    }
}

fn strip_depth_exec(v: Vec<char>) -> (r: Vec<char>)
    ensures
        r@ == strip_depth(v@),
{
    match last_segment_exec(&v) {
        Some((i, t)) => {
            let is_32f = chars_eq(&t, &chars_of("32f"));
            let mut is_depth = is_32f;
            proof {
                reveal_strlit("bit");
            }
            if !is_depth && ends_with_exec(&t, "bit") {
                let n = slice_chars(&t, 0, t.len() - 3);
                assert(n@ =~= without_suffix(t@, "bit"@));
                is_depth = u32_text(&n);
            }
            if is_depth {
                let r = slice_chars(&v, 0, i);
                assert(r@ =~= before_last_segment(v@));
                r
            } else {
                v
            }
        },
        None => v,
    }
}

fn strip_rate_exec(v: Vec<char>) -> (r: Vec<char>)
    ensures
        r@ == strip_rate(v@),
{
    match last_segment_exec(&v) {
        Some((i, t)) => {
            if ends_with_exec(&t, "k") {
                proof {
                    reveal_strlit("k");
                }
                let n = slice_chars(&t, 0, t.len() - 1);
                assert(n@ =~= without_suffix(t@, "k"@));
                if float_text(&n) {
                    let r = slice_chars(&v, 0, i);
                    assert(r@ =~= before_last_segment(v@));
                    return r;
                }
            }
            v
        },
        None => v,
    }
}

fn strip_level_exec(v: Vec<char>, unit: &str) -> (r: Vec<char>)
    ensures
        r@ == strip_level(v@, unit@),
{
    match last_segment_exec(&v) {
        Some((i, t)) => {
            if ends_with_exec(&t, unit) {
                let u = chars_of(unit);
                let n = slice_chars(&t, 0, t.len() - u.len());
                assert(n@ =~= without_suffix(t@, unit@));
                if float_text(&n) {
                    let r = slice_chars(&v, 0, i);
                    assert(r@ =~= before_last_segment(v@));
                    return r;
                }
            }
            v
        },
        None => v,
    }
}

fn strip_word_exec(v: Vec<char>, word: &str) -> (r: Vec<char>)
    ensures
        r@ == strip_word(v@, word@),
{
    if ends_with_exec(&v, word) {
        let w = chars_of(word);
        let r = slice_chars(&v, 0, v.len() - w.len());
        assert(r@ =~= without_suffix(v@, word@));
        r
    } else {
        v
    }
}

fn strip_legacy_exec(v: Vec<char>) -> (r: Vec<char>)
    ensures
        r@ == strip_legacy(v@),
{
    let pat = chars_of("_normalised_");
    match find_chars(&v, &pat) {
        Some(i) => {
            proof {
                crate::text::lemma_find_from(v@, pat@, 0);
            }
            let r = slice_chars(&v, 0, i);
            assert(r@ =~= v@.take(i as int));
            r
        },
        None => v,
    }
}

/// Strip the tags this app appended previously, so re-processing an output
/// doesn't stack them (e.g. "MyMix_-23LUFS_-1dBTP" -> "MyMix"). Also strips
/// the legacy "_normalised_..." marker written by older versions.
pub fn strip_spec_suffix(name: &str) -> (r: String)
    ensures
        r@ == stripped(name@),
{
    let v = chars_of(name);
    let v = strip_legacy_exec(v);
    let v = strip_depth_exec(v);
    let v = strip_rate_exec(v);
    let v = strip_word_exec(v, "_Clocked");
    let v = strip_word_exec(v, "_6Fr");
    let v = strip_level_exec(v, "dBTP");
    let v = strip_level_exec(v, "LUFS");
    string_of(&v)
}


// ── Conversion tags and extensions ──────────────────────────────────────────

/// `s` without its trailing '0' characters.
pub open spec fn trim_zeros(s: Seq<char>) -> Seq<char>
    decreases s.len(),
{
    if s.len() > 0 && s.last() == '0' {
        trim_zeros(s.drop_last())
    } else {
        s
    }
}

/// `n / 1000` as `Display` prints the float quotient `n as f64 / 1000.0`:
/// the whole part, then (when there are any) the thousandths with trailing
/// zeros dropped. (The float quotient of a `u32` by 1000 is the double nearest the
/// exact decimal, and that decimal, having at most ten significant digits, is
/// the shortest text that reads back to it.)
pub open spec fn thousandths_text(rate: nat) -> Seq<char> {
    if rate % 1000 == 0 {
        decimal(rate / 1000)
    } else {
        decimal(rate / 1000) + "."@ + trim_zeros(
            seq![
                crate::text::digit(((rate % 1000) / 100) as int),
                crate::text::digit(((rate % 100) / 10) as int),
                crate::text::digit((rate % 10) as int),
            ],
        )
    }
}

/// Appends `n / 1000` as `Display` prints the float quotient.
pub fn push_thousandths(v: &mut Vec<char>, n: u32)
    ensures
        final(v)@ == old(v)@ + thousandths_text(n as nat),
{
    let ghost start = v@;
    let rate = n;
    push_decimal(v, (rate / 1000) as u64);
    if rate % 1000 != 0 {
        push_str(v, ".");
        let f = rate % 1000;
        let mut d: Vec<char> = Vec::new();
        d.push(((f / 100) as u8 + 48) as char);
        d.push((((f % 100) / 10) as u8 + 48) as char);
        d.push(((f % 10) as u8 + 48) as char);
        let ghost digits = d@;
        assert(rate % 100 == f % 100 && rate % 10 == f % 10) by (nonlinear_arith)
            requires
                f == rate % 1000,
        ;
        assert(digits =~= seq![
            crate::text::digit(((rate % 1000) / 100) as int),
            crate::text::digit(((rate % 100) / 10) as int),
            crate::text::digit((rate % 10) as int),
        ]);
        while d.len() > 0 && d[d.len() - 1] == '0'
            invariant
                trim_zeros(d@) == trim_zeros(digits),
            decreases d.len(),
        {
            let ghost before = d@;
            d.pop();
            assert(d@ =~= before.drop_last());
        }
        assert(trim_zeros(d@) == d@);
        push_chars(v, &d);
        proof {
            reveal_strlit(".");
        }
    }
    assert(v@ =~= start + thousandths_text(n as nat));
}

/// The sample-rate part of a conversion tag.
pub open spec fn rate_tag(rate: Option<u32>) -> Seq<char> {
    match rate {
        None => Seq::empty(),
        Some(r) => "_"@ + thousandths_text(r as nat) + "k"@,
    }
}

/// The bit-depth part of a conversion tag (32 = 32-bit float).
pub open spec fn depth_tag(depth: Option<u32>) -> Seq<char> {
    match depth {
        None => Seq::empty(),
        Some(d) => if d == 32 {
            "_32f"@
        } else {
            "_"@ + decimal(d as nat) + "bit"@
        },
    }
}

/// Name tag for a conversion: "_48k", "_44.1k_16bit", "_32f"…
pub open spec fn conversion_tag_of(spec: AudioOutputSpec) -> Seq<char> {
    rate_tag(spec.sample_rate) + depth_tag(spec.bit_depth)
}

/// Name tag for a conversion: "_48k", "_44.1k_16bit", "_32f"… Empty when the
/// spec keeps the source's rate and depth.
pub fn conversion_tag(spec: &AudioOutputSpec) -> (r: String)
    ensures
        r@ == conversion_tag_of(*spec),
{
    let mut v: Vec<char> = Vec::new();
    if let Some(rate) = spec.sample_rate {
        push_str(&mut v, "_");
        push_thousandths(&mut v, rate);
        push_str(&mut v, "k");
        proof {
            reveal_strlit("_");
            reveal_strlit(".");
            reveal_strlit("k");
        }
        assert(v@ =~= rate_tag(spec.sample_rate));
    } else {
        assert(v@ =~= rate_tag(spec.sample_rate));
    }
    let ghost head = v@;
    match spec.bit_depth {
        Some(32) => {
            push_str(&mut v, "_32f");
        },
        Some(d) => {
            push_str(&mut v, "_");
            push_decimal(&mut v, d as u64);
            push_str(&mut v, "bit");
            proof {
                reveal_strlit("_");
                reveal_strlit("bit");
            }
        },
        None => {},
    }
    assert(v@ =~= head + depth_tag(spec.bit_depth));
    string_of(&v)
}

/// Source extensions that can't hold PCM (lowercase).
pub open spec fn lossy_extensions() -> Seq<Seq<char>> {
    seq!["mp3"@, "aac"@, "ogg"@, "oga"@, "opus"@, "wma"@, "ac3"@, "eac3"@]
}

/// Source extensions that can't hold PCM: a re-encode of one of these has to
/// land in a WAV instead (the bundled ffmpeg has no MP3 encoder either).
pub fn is_lossy_ext(ext: &str) -> (r: bool)
    ensures
        r == lossy_extensions().contains(lowercase(ext@)),
{
    let l = to_lowercase(ext);
    let e = l.as_str();
    let r = crate::text::str_eq(e, "mp3") || crate::text::str_eq(e, "aac") || crate::text::str_eq(e, "ogg")
        || crate::text::str_eq(e, "oga") || crate::text::str_eq(e, "opus") || crate::text::str_eq(e, "wma")
        || crate::text::str_eq(e, "ac3") || crate::text::str_eq(e, "eac3");
    proof {
        let x = lowercase(ext@);
        let s = lossy_extensions();
        assert(s[0] == "mp3"@ && s[1] == "aac"@ && s[2] == "ogg"@ && s[3] == "oga"@);
        assert(s[4] == "opus"@ && s[5] == "wma"@ && s[6] == "ac3"@ && s[7] == "eac3"@);
        if s.contains(x) {
            let i = choose|i: int| 0 <= i < s.len() && s[i] == x;
            assert(0 <= i < 8);
        }
    }
    r
}

/// The extension an audio-only output gets.
pub open spec fn audio_output_ext_of(
    source_ext: Seq<char>,
    spec: Option<AudioOutputSpec>,
    will_encode: bool,
) -> Seq<char> {
    if spec.is_some() && container_extension(spec.unwrap().container).is_some() {
        container_extension(spec.unwrap().container).unwrap()
    } else if will_encode && lossy_extensions().contains(lowercase(source_ext)) {
        "wav"@
    } else {
        source_ext
    }
}

/// The extension an audio-only output gets: the chosen container's, or the
/// source's own — unless the source is lossy and the file is being re-encoded,
/// in which case it becomes a WAV.
pub fn audio_output_ext(source_ext: &str, spec: Option<&AudioOutputSpec>, will_encode: bool) -> (r:
    String)
    ensures
        r@ == audio_output_ext_of(
            source_ext@,
            match spec {
                Some(s) => Some(*s),
                None => None,
            },
            will_encode,
        ),
{
    if let Some(s) = spec {
        if let Some(ext) = s.container.extension() {
            return crate::text::owned(ext);
        }
    }
    if will_encode && is_lossy_ext(source_ext) {
        return crate::text::owned("wav");
    }
    crate::text::owned(source_ext)
}


// ── Video layback names ─────────────────────────────────────────────────────

/// A name delimiter: underscore, hyphen or space.
pub open spec fn is_delim(c: char) -> bool {
    c == '_' || c == '-' || c == ' '
}

/// Splitting `s[i..]` on delimiters, with `cur` the segment being read and
/// `acc` the non-empty segments already read.
pub open spec fn seg_scan(s: Seq<char>, i: int, cur: Seq<char>, acc: Seq<Seq<char>>) -> Seq<
    Seq<char>,
>
    decreases s.len() - i,
{
    if i >= s.len() || i < 0 {
        if cur.len() > 0 {
            acc.push(cur)
        } else {
            acc
        }
    } else if is_delim(s[i]) {
        seg_scan(
            s,
            i + 1,
            Seq::empty(),
            if cur.len() > 0 {
                acc.push(cur)
            } else {
                acc
            },
        )
    } else {
        seg_scan(s, i + 1, cur.push(s[i]), acc)
    }
}

/// The non-empty segments of `s` between delimiters, in order.
pub open spec fn segments(s: Seq<char>) -> Seq<Seq<char>> {
    seg_scan(s, 0, Seq::empty(), Seq::empty())
}

/// The segments of `a` that are not among `v`, in order.
pub open spec fn keep_new(a: Seq<Seq<char>>, v: Seq<Seq<char>>) -> Seq<Seq<char>>
    decreases a.len(),
{
    if a.len() == 0 {
        Seq::empty()
    } else if v.contains(a.last()) {
        keep_new(a.drop_last(), v)
    } else {
        keep_new(a.drop_last(), v).push(a.last())
    }
}

/// The part of an audio name that does not repeat its video's name: the
/// audio's segments that are not video segments, joined with '_'.
pub open spec fn unique_part(video: Seq<char>, audio: Seq<char>) -> Seq<char> {
    join(keep_new(segments(audio), segments(video)), "_"@)
}

fn segments_exec(s: &str) -> (r: Vec<Vec<char>>)
    ensures
        r@.map_values(|x: Vec<char>| x@) == segments(s@),
{
    let v = chars_of(s);
    let mut acc: Vec<Vec<char>> = Vec::new();
    let mut cur: Vec<char> = Vec::new();
    let mut i: usize = 0;
    assert(acc@.map_values(|x: Vec<char>| x@) =~= Seq::<Seq<char>>::empty());
    assert(cur@ =~= Seq::<char>::empty());
    while i < v.len()
        invariant
            i <= v.len(),
            v@ == s@,
            segments(s@) == seg_scan(s@, i as int, cur@, acc@.map_values(|x: Vec<char>| x@)),
        decreases v.len() - i,
    {
        let c = v[i];
        if c == '_' || c == '-' || c == ' ' {
            if cur.len() > 0 {
                let ghost before = acc@.map_values(|x: Vec<char>| x@);
                acc.push(cur);
                assert(acc@.map_values(|x: Vec<char>| x@) =~= before.push(cur@));
            }
            cur = Vec::new();
        } else {
            cur.push(c);
        }
        i += 1;
    }
    if cur.len() > 0 {
        let ghost before = acc@.map_values(|x: Vec<char>| x@);
        acc.push(cur);
        assert(acc@.map_values(|x: Vec<char>| x@) =~= before.push(cur@));
    }
    acc
}

fn contains_chars(list: &Vec<Vec<char>>, x: &Vec<char>) -> (r: bool)
    ensures
        r == list@.map_values(|y: Vec<char>| y@).contains(x@),
{
    let ghost m = list@.map_values(|y: Vec<char>| y@);
    let mut i: usize = 0;
    while i < list.len()
        invariant
            i <= list.len(),
            m == list@.map_values(|y: Vec<char>| y@),
            forall|j: int| 0 <= j < i ==> m[j] != x@,
        decreases list.len() - i,
    {
        if chars_eq(&list[i], x) {
            assert(m[i as int] == x@);
            return true;
        }
        i += 1;
    }
    false
}

/// Find and remove the parts of `audio_name` that are duplicated from
/// `video_name`. Works on underscore/hyphen/space-delimited segments to
/// avoid splitting numbers.
pub fn remove_duplicate_info(video_name: &str, audio_name: &str) -> (r: String)
    ensures
        r@ == unique_part(video_name@, audio_name@),
{
    let vs = segments_exec(video_name);
    let aseg = segments_exec(audio_name);
    let ghost vm = vs@.map_values(|x: Vec<char>| x@);
    let ghost am = aseg@.map_values(|x: Vec<char>| x@);
    let mut out: Vec<char> = Vec::new();
    let mut kept: usize = 0;
    let mut i: usize = 0;
    while i < aseg.len()
        invariant
            i <= aseg.len(),
            vm == vs@.map_values(|x: Vec<char>| x@),
            am == aseg@.map_values(|x: Vec<char>| x@),
            vm == segments(video_name@),
            am == segments(audio_name@),
            kept == keep_new(am.take(i as int), vm).len(),
            kept <= i,
            out@ == join(keep_new(am.take(i as int), vm), "_"@),
        decreases aseg.len() - i,
    {
        assert(am.take(i + 1).drop_last() =~= am.take(i as int));
        assert(am.take(i + 1).last() == aseg@[i as int]@);
        if !contains_chars(&vs, &aseg[i]) {
            if kept > 0 {
                push_str(&mut out, "_");
            }
            push_chars(&mut out, &aseg[i]);
            proof {
                reveal_strlit("_");
                let k = keep_new(am.take(i + 1), vm);
                assert(k.drop_last() == keep_new(am.take(i as int), vm));
                if kept == 0 {
                    assert(out@ =~= join(k, "_"@));
                } else {
                    assert(out@ =~= join(k, "_"@));
                }
            }
            kept += 1;
        }
        i += 1;
    }
    assert(am.take(aseg.len() as int) =~= am);
    string_of(&out)
}

/// The Levenshtein distance between two character sequences: the fewest
/// single-character insertions, deletions and substitutions that turn one
/// into the other.
pub open spec fn edit_distance(a: Seq<char>, b: Seq<char>) -> nat
    decreases a.len() + b.len(),
{
    if a.len() == 0 {
        b.len()
    } else if b.len() == 0 {
        a.len()
    } else {
        let del = edit_distance(a.drop_last(), b) + 1;
        let ins = edit_distance(a, b.drop_last()) + 1;
        let sub = edit_distance(a.drop_last(), b.drop_last()) + if a.last() == b.last() {
            0nat
        } else {
            1nat
        };
        if del <= ins && del <= sub {
            del
        } else if ins <= sub {
            ins
        } else {
            sub
        }
    }
}

/// `strsim::levenshtein`: the Levenshtein distance between the two strings,
/// counted in characters (the crate's dynamic-programming table over
/// `chars()`).
#[verifier::external_body]
fn levenshtein(a: &str, b: &str) -> (d: usize)
    ensures
        d == edit_distance(a@, b@),
{
    strsim::levenshtein(a, b)
}

/// Are two names similar: is `strsim::normalized_levenshtein` of their
/// lowercase forms above 0.6? (That score is 1 - distance / longer length,
/// and 1.0 for two empty names; above 0.6 means 5·distance < 2·length.)
pub open spec fn names_similar(video: Seq<char>, audio: Seq<char>) -> bool {
    let x = lowercase(video);
    let y = lowercase(audio);
    let m = if x.len() >= y.len() {
        x.len()
    } else {
        y.len()
    };
    m == 0 || 5 * edit_distance(x, y) < 2 * m
}

/// The output name of a video layback (extension included).
pub open spec fn layback_name(
    video: Seq<char>,
    audio: Seq<char>,
    remove_duplicates: bool,
    ext: Seq<char>,
) -> Seq<char> {
    let unique = unique_part(video, audio);
    let base = if !remove_duplicates {
        video + "_"@ + audio
    } else if unique.len() == 0 {
        video + "_with audio"@
    } else if names_similar(video, audio) {
        video + "_with audio_"@ + unique
    } else {
        video + "_"@ + unique
    };
    base + "."@ + ext
}

/// Is the normalised similarity of the two names above the threshold?
fn similar_names(video_name: &str, audio_name: &str) -> (r: bool)
    ensures
        r == names_similar(video_name@, audio_name@),
{
    let x = to_lowercase(video_name);
    let y = to_lowercase(audio_name);
    let d = levenshtein(x.as_str(), y.as_str());
    let xl = chars_of(x.as_str()).len();
    let yl = chars_of(y.as_str()).len();
    let m = if xl >= yl {
        xl
    } else {
        yl
    };
    m == 0 || (d as u128) * 5 < (m as u128) * 2
}

/// Generate the output filename for a video layback from the video's and
/// the audio's names (without extensions).
pub fn generate_name(
    video_name: &str,
    audio_name: &str,
    remove_duplicates: bool,
    output_ext: &str,
) -> (r: String)
    ensures
        r@ == layback_name(video_name@, audio_name@, remove_duplicates, output_ext@),
{
    let similar = similar_names(video_name, audio_name);
    let mut v = chars_of(video_name);
    if !remove_duplicates {
        push_str(&mut v, "_");
        push_str(&mut v, audio_name);
    } else {
        let unique = remove_duplicate_info(video_name, audio_name);
        let u = chars_of(unique.as_str());
        if u.len() == 0 {
            push_str(&mut v, "_with audio");
        } else if similar {
            push_str(&mut v, "_with audio_");
            push_chars(&mut v, &u);
        } else {
            push_str(&mut v, "_");
            push_chars(&mut v, &u);
        }
    }
    push_str(&mut v, ".");
    push_str(&mut v, output_ext);
    string_of(&v)
}


// ── Batch naming ────────────────────────────────────────────────────────────

/// The level a normalised audio-only output is levelled to, as its name
/// records it: the target value's text (as `Display` prints it) and its unit.
/// In full-scale mode the peak ceiling is the spec (dBTP); in loudness mode
/// the LUFS target is.
#[derive(Debug, Clone)]
pub enum LevelTag {
    Peak(String),
    Lufs(String),
}

/// What naming reads of a matched pair.
#[derive(Debug, Clone)]
pub struct PairNaming {
    /// The video's name without extension, when a video is paired.
    pub video_name: Option<String>,
    /// The audio's name without extension.
    pub audio_name: String,
    /// The audio's extension.
    pub audio_ext: String,
    /// The normalisation target, when normalisation is enabled.
    pub level: Option<LevelTag>,
    pub silence_compliance: bool,
    pub clock_enabled: bool,
}

/// The name tag of a level: "_<value>dBTP" or "_<value>LUFS".
pub open spec fn level_suffix(level: Option<LevelTag>) -> Seq<char> {
    match level {
        None => Seq::empty(),
        Some(LevelTag::Peak(t)) => "_"@ + t@ + "dBTP"@,
        Some(LevelTag::Lufs(t)) => "_"@ + t@ + "LUFS"@,
    }
}

/// The tags of the processing steps, in processing order: level, the
/// 6-frame mute, the clock handles.
pub open spec fn step_tags(level: Option<LevelTag>, silence: bool, clock: bool) -> Seq<char> {
    level_suffix(level) + (if silence {
        "_6Fr"@
    } else {
        Seq::empty()
    }) + (if clock {
        "_Clocked"@
    } else {
        Seq::empty()
    })
}

/// The conversion tag an optional output spec gives.
pub open spec fn conversion_of(audio: Option<AudioOutputSpec>) -> Seq<char> {
    match audio {
        Some(s) => conversion_tag_of(s),
        None => Seq::empty(),
    }
}

/// Is any processing applied to an audio-only pair?
pub open spec fn applies_spec(p: PairNaming, audio: Option<AudioOutputSpec>) -> bool {
    p.level.is_some() || p.silence_compliance || p.clock_enabled || conversion_of(audio).len() > 0
}

/// The name of an audio-only output (extension included): the audio's name
/// (its old tags stripped when a spec is being applied), each step's tag,
/// the conversion tag, and the output extension.
pub open spec fn audio_only_name(p: PairNaming, audio: Option<AudioOutputSpec>) -> Seq<char> {
    let any = applies_spec(p, audio);
    let base = if any {
        stripped(p.audio_name@)
    } else {
        p.audio_name@
    };
    base + step_tags(p.level, p.silence_compliance, p.clock_enabled) + conversion_of(audio) + "."@
        + audio_output_ext_of(p.audio_ext@, audio, any)
}

/// The first-pass name of one pair.
pub open spec fn pair_name(
    p: PairNaming,
    remove_duplicates: bool,
    output_ext: Seq<char>,
    audio: Option<AudioOutputSpec>,
) -> Seq<char> {
    match p.video_name {
        Some(v) => layback_name(v@, p.audio_name@, remove_duplicates, output_ext),
        None => audio_only_name(p, audio),
    }
}

/// How many of `names[..n]` equal `x`.
pub open spec fn count_in(names: Seq<Seq<char>>, x: Seq<char>, n: int) -> nat
    decreases n,
{
    if n <= 0 {
        0
    } else {
        count_in(names, x, n - 1) + if names[n - 1] == x {
            1nat
        } else {
            0nat
        }
    }
}

/// `name` with "_<k>" put before its extension (or at its end).
pub open spec fn numbered(name: Seq<char>, k: nat) -> Seq<char> {
    let d = rfind(name, '.');
    if d >= 0 {
        name.take(d) + "_"@ + decimal(k) + name.skip(d)
    } else {
        name + "_"@ + decimal(k)
    }
}

/// Is `x` unavailable as a final name: one of the first-pass names, or a
/// final name already given?
pub open spec fn name_taken(names: Seq<Seq<char>>, given: Seq<Seq<char>>, x: Seq<char>) -> bool {
    names.contains(x) || given.contains(x)
}

/// The first number from `k` on (below `bound`) that numbers `x` into a
/// name not taken; `bound` when every one below it is taken.
pub open spec fn free_number(
    names: Seq<Seq<char>>,
    given: Seq<Seq<char>>,
    x: Seq<char>,
    k: nat,
    bound: nat,
) -> nat
    decreases bound - k,
{
    if k >= bound {
        k
    } else if !name_taken(names, given, numbered(x, k)) {
        k
    } else {
        free_number(names, given, x, k + 1, bound)
    }
}

/// The final names of the first `n` pairs, given in order. A name that
/// occurs once in the batch is kept; a repeated one gets "_<k>" with the
/// smallest k ≥ 1 that makes a name no other pair has or was given.
pub open spec fn final_names(names: Seq<Seq<char>>, n: nat) -> Seq<Seq<char>>
    decreases n,
{
    if n == 0 || n > names.len() {
        Seq::empty()
    } else {
        let given = final_names(names, (n - 1) as nat);
        let x = names[n - 1];
        given.push(
            if count_in(names, x, names.len() as int) > 1 {
                numbered(x, free_number(names, given, x, 1, names.len() + given.len() + 1))
            } else {
                x
            },
        )
    }
}

/// The names numbered per name: a name that occurs more than once gets
/// "_<k>", its occurrence being the k-th of that name in the batch; a name
/// that occurs once is kept.
pub open spec fn counted_names(names: Seq<Seq<char>>) -> Seq<Seq<char>> {
    Seq::new(
        names.len(),
        |i: int|
            if count_in(names, names[i], names.len() as int) > 1 {
                numbered(names[i], count_in(names, names[i], i + 1))
            } else {
                names[i]
            },
    )
}

/// No two names of `s` are equal.
pub open spec fn all_different(s: Seq<Seq<char>>) -> bool {
    forall|a: int, b: int| 0 <= a < b < s.len() ==> s[a] != s[b]
}

/// The output names of a batch: numbered per name when that gives every
/// pair a name of its own; otherwise each repeated name takes the first
/// free number (`final_names`).
pub open spec fn output_names(names: Seq<Seq<char>>) -> Seq<Seq<char>> {
    if all_different(counted_names(names)) {
        counted_names(names)
    } else {
        final_names(names, names.len())
    }
}

/// The final name of `names[i]`.
pub open spec fn disambiguated(names: Seq<Seq<char>>, i: int) -> Seq<char> {
    output_names(names)[i]
}

/// The first-pass names of a batch.
pub open spec fn batch_names(
    pairs: Seq<PairNaming>,
    remove_duplicates: bool,
    output_ext: Seq<char>,
    audio: Option<AudioOutputSpec>,
) -> Seq<Seq<char>> {
    Seq::new(pairs.len(), |i: int| pair_name(pairs[i], remove_duplicates, output_ext, audio))
}

/// The first-pass name of one pair.
fn name_pair(
    p: &PairNaming,
    remove_duplicates: bool,
    output_ext: &str,
    audio: Option<&AudioOutputSpec>,
    conv: &String,
) -> (r: String)
    requires
        conv@ == conversion_of(
            match audio {
                Some(s) => Some(*s),
                None => None,
            },
        ),
    ensures
        r@ == pair_name(
            *p,
            remove_duplicates,
            output_ext@,
            match audio {
                Some(s) => Some(*s),
                None => None,
            },
        ),
{
    let ghost au = match audio {
        Some(s) => Some(*s),
        None => None,
    };
    if let Some(video) = &p.video_name {
        return generate_name(video.as_str(), p.audio_name.as_str(), remove_duplicates, output_ext);
    }
    let conv_chars = chars_of(conv.as_str());
    let any = p.level.is_some() || p.silence_compliance || p.clock_enabled || conv_chars.len() > 0;
    assert(any == applies_spec(*p, au));
    let mut v = if any {
        let b = strip_spec_suffix(p.audio_name.as_str());
        chars_of(b.as_str())
    } else {
        chars_of(p.audio_name.as_str())
    };
    let ghost base = v@;
    match &p.level {
        Some(LevelTag::Peak(t)) => {
            push_str(&mut v, "_");
            push_str(&mut v, t.as_str());
            push_str(&mut v, "dBTP");
        },
        Some(LevelTag::Lufs(t)) => {
            push_str(&mut v, "_");
            push_str(&mut v, t.as_str());
            push_str(&mut v, "LUFS");
        },
        None => {},
    }
    assert(v@ =~= base + level_suffix(p.level));
    let ghost with_level = v@;
    if p.silence_compliance {
        push_str(&mut v, "_6Fr");
    }
    let ghost with_silence = v@;
    if p.clock_enabled {
        push_str(&mut v, "_Clocked");
    }
    assert(v@ =~= base + step_tags(p.level, p.silence_compliance, p.clock_enabled));
    push_chars(&mut v, &conv_chars);
    push_str(&mut v, ".");
    let ext = audio_output_ext(p.audio_ext.as_str(), audio, any);
    push_str(&mut v, ext.as_str());
    assert(v@ =~= audio_only_name(*p, au));
    string_of(&v)
}

/// How many of `names[..n]` equal `x`.
fn count_names(names: &Vec<String>, x: &String, n: usize) -> (r: usize)
    requires
        n <= names.len(),
    ensures
        r == count_in(crate::text::views(names@), x@, n as int),
        r <= n,
{
    let ghost m = crate::text::views(names@);
    let mut c: usize = 0;
    let mut j: usize = 0;
    while j < n
        invariant
            j <= n <= names.len(),
            m == crate::text::views(names@),
            c == count_in(m, x@, j as int),
            c <= j,
        decreases n - j,
    {
        if crate::text::str_eq(names[j].as_str(), x.as_str()) {
            c += 1;
        }
        j += 1;
    }
    c
}

/// `name` with "_<k>" put before its extension (or at its end).
fn number_name(name: &String, k: u128) -> (r: String)
    ensures
        r@ == numbered(name@, k as nat),
{
    let v = chars_of(name.as_str());
    let mut out: Vec<char>;
    match rfind_char(&v, '.') {
        Some(d) => {
            proof {
                crate::text::lemma_rfind(v@, '.');
            }
            out = slice_chars(&v, 0, d);
            push_str(&mut out, "_");
            crate::text::push_decimal_wide(&mut out, k);
            let tail = slice_chars(&v, d, v.len());
            push_chars(&mut out, &tail);
            proof {
                reveal_strlit("_");
            }
            assert(out@ =~= numbered(name@, k as nat));
        },
        None => {
            out = v;
            push_str(&mut out, "_");
            crate::text::push_decimal_wide(&mut out, k);
            proof {
                reveal_strlit("_");
            }
            assert(out@ =~= numbered(name@, k as nat));
        },
    }
    string_of(&out)
}

/// As `generate_names`, with the audio-only output spec: the container
/// decides the extension, and a sample-rate / bit-depth change is recorded in
/// the name. Returns each pair's output filename, in order.
pub fn generate_names_with_audio(
    pairs: &Vec<PairNaming>,
    remove_duplicates: bool,
    output_ext: &str,
    audio: Option<&AudioOutputSpec>,
) -> (r: Vec<String>)
    ensures
        r.len() == pairs.len(),
        forall|i: int|
            0 <= i < r.len() ==> #[trigger] r[i]@ == disambiguated(
                batch_names(
                    pairs@,
                    remove_duplicates,
                    output_ext@,
                    match audio {
                        Some(s) => Some(*s),
                        None => None,
                    },
                ),
                i,
            ),
        forall|a: int, b: int| 0 <= a < b < r.len() ==> #[trigger] r[a]@ != #[trigger] r[b]@,
{
    let ghost au = match audio {
        Some(s) => Some(*s),
        None => None,
    };
    let conv = match audio {
        Some(s) => conversion_tag(s),
        None => String::new(),
    };
    let ghost names = batch_names(pairs@, remove_duplicates, output_ext@, au);
    // First pass: each pair's own name.
    let mut first: Vec<String> = Vec::new();
    let mut i: usize = 0;
    while i < pairs.len()
        invariant
            i <= pairs.len(),
            conv@ == conversion_of(au),
            au == match audio {
                Some(s) => Some(*s),
                None => None,
            },
            names == batch_names(pairs@, remove_duplicates, output_ext@, au),
            first.len() == i,
            forall|j: int| 0 <= j < i ==> #[trigger] first[j]@ == names[j],
        decreases pairs.len() - i,
    {
        let n = name_pair(&pairs[i], remove_duplicates, output_ext, audio, &conv);
        first.push(n);
        i += 1;
    }
    assert(crate::text::views(first@) =~= names);
    // Second pass: number each repeated name by its occurrence.
    let mut counted: Vec<String> = Vec::new();
    let mut i: usize = 0;
    while i < first.len()
        invariant
            i <= first.len(),
            crate::text::views(first@) == names,
            names.len() == first.len(),
            crate::text::views(counted@) == counted_names(names).take(i as int),
        decreases first.len() - i,
    {
        let total = count_names(&first, &first[i], first.len());
        let name: String;
        if total > 1 {
            let k = count_names(&first, &first[i], i + 1);
            name = number_name(&first[i], k as u128);
        } else {
            name = first[i].clone();
        }
        assert(names[i as int] == first[i as int]@);
        assert(name@ == counted_names(names)[i as int]);
        let ghost before = crate::text::views(counted@);
        counted.push(name);
        assert(crate::text::views(counted@) =~= before.push(name@));
        assert(crate::text::views(counted@) =~= counted_names(names).take(i + 1));
        i += 1;
    }
    assert(crate::text::views(counted@) =~= counted_names(names));
    if all_different_exec(&counted) {
        proof {
            assert forall|j: int| 0 <= j < counted.len() implies #[trigger] counted[j]@
                == disambiguated(names, j) by {
                assert(crate::text::views(counted@)[j] == counted[j]@);
            }
            assert forall|a: int, b: int| 0 <= a < b < counted.len() implies #[trigger] counted[a]@
                != #[trigger] counted[b]@ by {
                assert(crate::text::views(counted@)[a] == counted[a]@);
                assert(crate::text::views(counted@)[b] == counted[b]@);
            }
        }
        return counted;
    }
    // Where that numbering collides, give each repeated name the first free number.
    let mut out: Vec<String> = Vec::new();
    let mut i: usize = 0;
    while i < first.len()
        invariant
            i <= first.len(),
            crate::text::views(first@) == names,
            names.len() == first.len(),
            crate::text::views(out@) == final_names(names, i as nat),
        decreases first.len() - i,
    {
        proof {
            lemma_final_names_len(names, i as nat);
        }
        let ghost given = crate::text::views(out@);
        let total = count_names(&first, &first[i], first.len());
        let name: String;
        if total > 1 {
            let bound: u128 = first.len() as u128 + out.len() as u128 + 1;
            let ghost x = names[i as int];
            let ghost target = free_number(names, given, x, 1, bound as nat);
            let mut k: u128 = 1;
            let mut cand = number_name(&first[i], 1);
            while k < bound && (crate::text::contains_string(&first, &cand) || crate::text::contains_string(&out, &cand))
                invariant
                    1 <= k <= bound,
                    i < first.len(),
                    crate::text::views(first@) == names,
                    crate::text::views(out@) == given,
                    x == first@[i as int]@,
                    cand@ == numbered(x, k as nat),
                    free_number(names, given, x, k as nat, bound as nat) == target,
                decreases bound - k,
            {
                k += 1;
                cand = number_name(&first[i], k);
            }
            name = cand;
        } else {
            name = first[i].clone();
        }
        let ghost before = crate::text::views(out@);
        out.push(name);
        assert(crate::text::views(out@) =~= before.push(name@));
        i += 1;
    }
    proof {
        lemma_final_names_len(names, names.len());
        assert(!all_different(counted_names(names)));
        assert forall|j: int| 0 <= j < out.len() implies #[trigger] out[j]@ == disambiguated(names, j) by {
            assert(crate::text::views(out@)[j] == out[j]@);
        }
        assert forall|a: int, b: int| 0 <= a < b < out.len() implies #[trigger] out[a]@ != #[trigger] out[b]@ by {
            assert(out[a]@ == disambiguated(names, a));
            assert(out[b]@ == disambiguated(names, b));
            lemma_final_names_distinct(names, a, b);
        }
    }
    out
}

/// Are all the strings of `v` different?
fn all_different_exec(v: &Vec<String>) -> (r: bool)
    ensures
        r == all_different(crate::text::views(v@)),
{
    let ghost m = crate::text::views(v@);
    let mut b: usize = 1;
    while b < v.len()
        invariant
            1 <= b,
            m == crate::text::views(v@),
            forall|x: int, y: int| 0 <= x < y < b && y < m.len() ==> m[x] != m[y],
        decreases v.len() - b,
    {
        let mut a: usize = 0;
        while a < b
            invariant
                a <= b < v.len(),
                m == crate::text::views(v@),
                forall|x: int, y: int| 0 <= x < y < b ==> m[x] != m[y],
                forall|x: int| 0 <= x < a ==> m[x] != m[b as int],
            decreases b - a,
        {
            if crate::text::str_eq(v[a].as_str(), v[b].as_str()) {
                assert(m[a as int] == m[b as int]);
                return false;
            }
            a += 1;
        }
        b += 1;
    }
    true
}

/// Generate names for all pairs, each with a name of its own.
pub fn generate_names(pairs: &Vec<PairNaming>, remove_duplicates: bool, output_ext: &str) -> (r: Vec<
    String,
>)
    ensures
        r.len() == pairs.len(),
        forall|i: int|
            0 <= i < r.len() ==> #[trigger] r[i]@ == disambiguated(
                batch_names(pairs@, remove_duplicates, output_ext@, None),
                i,
            ),
        forall|a: int, b: int| 0 <= a < b < r.len() ==> #[trigger] r[a]@ != #[trigger] r[b]@,
{
    generate_names_with_audio(pairs, remove_duplicates, output_ext, None)
}


// ── Laws ────────────────────────────────────────────────────────────────────

/// Reading back a decimal rendering gives the number.
pub proof fn lemma_decimal_value(n: nat)
    ensures
        crate::numtext::digits_value(decimal(n)) == n,
        crate::numtext::all_digits(decimal(n)),
        decimal(n).len() > 0,
    decreases n,
{
    let d = (n % 10) as int;
    assert((crate::text::digit(d) as int) == d + 48);
    assert(decimal(n).last() == crate::text::digit(d));
    assert(crate::numtext::digits_value(decimal(n)) == crate::numtext::digits_value(
        decimal(n).drop_last(),
    ) * 10 + d);
    if n < 10 {
        assert(decimal(n).drop_last() =~= Seq::<char>::empty());
    } else {
        lemma_decimal_value(n / 10);
        let s = decimal(n / 10);
        assert(decimal(n).drop_last() =~= s);
        assert((n / 10) * 10 + n % 10 == n) by (nonlinear_arith);
        assert forall|i: int| 0 <= i < decimal(n).len() implies crate::text::is_digit(
            #[trigger] decimal(n)[i],
        ) by {
            if i < s.len() {
                assert(decimal(n)[i] == s[i]);
            }
        }
    }
}

/// Different numbers render differently.
pub proof fn lemma_decimal_injective(a: nat, b: nat)
    requires
        decimal(a) == decimal(b),
    ensures
        a == b,
{
    lemma_decimal_value(a);
    lemma_decimal_value(b);
}

/// Counting occurrences over a longer prefix never counts fewer.
proof fn lemma_count_monotone(names: Seq<Seq<char>>, x: Seq<char>, n: int, m: int)
    requires
        n <= m,
    ensures
        count_in(names, x, n) <= count_in(names, x, m),
    decreases m - n,
{
    if n < m {
        lemma_count_monotone(names, x, n, m - 1);
    }
}

/// Numbering one name with two different numbers gives two names.
proof fn lemma_numbered_injective(name: Seq<char>, a: nat, b: nat)
    requires
        numbered(name, a) == numbered(name, b),
    ensures
        a == b,
{
    let d = rfind(name, '.');
    crate::text::lemma_rfind(name, '.');
    reveal_strlit("_");
    let da = decimal(a);
    let db = decimal(b);
    if d >= 0 {
        let pre = name.take(d) + "_"@;
        let post = name.skip(d);
        assert(numbered(name, a) =~= pre + da + post);
        assert(numbered(name, b) =~= pre + db + post);
        assert(da.len() == db.len());
        assert(da =~= numbered(name, a).subrange(pre.len() as int, (pre.len() + da.len()) as int));
        assert(db =~= numbered(name, b).subrange(pre.len() as int, (pre.len() + db.len()) as int));
    } else {
        let pre = name + "_"@;
        assert(numbered(name, a) =~= pre + da);
        assert(numbered(name, b) =~= pre + db);
        assert(da =~= numbered(name, a).skip(pre.len() as int));
        assert(db =~= numbered(name, b).skip(pre.len() as int));
    }
    lemma_decimal_injective(a, b);
}

/// `final_names` gives one name per pair.
proof fn lemma_final_names_len(names: Seq<Seq<char>>, n: nat)
    ensures
        n <= names.len() ==> final_names(names, n).len() == n,
    decreases n,
{
    if n > 0 && n <= names.len() {
        lemma_final_names_len(names, (n - 1) as nat);
    }
}

/// The names given to the first `n` pairs don't change as more are given.
proof fn lemma_final_names_prefix(names: Seq<Seq<char>>, n: nat, m: nat)
    requires
        n <= m <= names.len(),
    ensures
        final_names(names, m).take(n as int) == final_names(names, n),
    decreases m - n,
{
    lemma_final_names_len(names, n);
    lemma_final_names_len(names, m);
    if n < m {
        lemma_final_names_prefix(names, n, (m - 1) as nat);
        lemma_final_names_len(names, (m - 1) as nat);
        assert(final_names(names, m).take(n as int) =~= final_names(names, (m - 1) as nat).take(n as int));
    } else {
        assert(final_names(names, m).take(n as int) =~= final_names(names, m));
    }
}

/// What `free_number` gives: a free number below the bound, or the bound
/// itself with every number before it taken.
proof fn lemma_free_number_range(
    names: Seq<Seq<char>>,
    given: Seq<Seq<char>>,
    x: Seq<char>,
    k: nat,
    bound: nat,
)
    requires
        k <= bound,
    ensures
        k <= free_number(names, given, x, k, bound) <= bound,
        free_number(names, given, x, k, bound) < bound ==> !name_taken(
            names,
            given,
            numbered(x, free_number(names, given, x, k, bound)),
        ),
        free_number(names, given, x, k, bound) == bound ==> forall|j: nat|
            k <= j < bound ==> #[trigger] name_taken(names, given, numbered(x, j)),
    decreases bound - k,
{
    if k < bound && name_taken(names, given, numbered(x, k)) {
        lemma_free_number_range(names, given, x, k + 1, bound);
    }
}

/// With fewer taken names than numbers tried, some number is free: when
/// every number below `bound` is taken, `bound` itself is free.
proof fn lemma_some_number_free(names: Seq<Seq<char>>, given: Seq<Seq<char>>, x: Seq<char>, bound: nat)
    requires
        bound == names.len() + given.len() + 1,
        forall|j: nat| 1 <= j < bound ==> #[trigger] name_taken(names, given, numbered(x, j)),
    ensures
        !name_taken(names, given, numbered(x, bound)),
{
    if name_taken(names, given, numbered(x, bound)) {
        let f = |k: int| numbered(x, k as nat);
        let tried = vstd::set_lib::set_int_range(1, (bound + 1) as int);
        vstd::set_lib::lemma_int_range(1, (bound + 1) as int);
        assert forall|a: int, b: int| tried.contains(a) && tried.contains(b) && #[trigger] f(a) == #[trigger] f(
            b,
        ) implies a == b by {
            lemma_numbered_injective(x, a as nat, b as nat);
        }
        let made = tried.map(f);
        vstd::set_lib::lemma_map_size(tried, made, f);
        let taken = names.to_set().union(given.to_set());
        names.lemma_cardinality_of_set();
        given.lemma_cardinality_of_set();
        vstd::seq_lib::seq_to_set_is_finite(names);
        vstd::seq_lib::seq_to_set_is_finite(given);
        vstd::set_lib::lemma_len_union(names.to_set(), given.to_set());
        assert forall|y: Seq<char>| made.contains(y) implies taken.contains(y) by {
            let k = choose|k: int| tried.contains(k) && f(k) == y;
            if k < bound {
                assert(name_taken(names, given, numbered(x, k as nat)));
            }
        }
        vstd::set_lib::lemma_len_subset(made, taken);
    }
}

/// The number a repeated name gets makes a name nobody else has or was
/// given.
proof fn lemma_final_number_free(names: Seq<Seq<char>>, given: Seq<Seq<char>>, x: Seq<char>)
    ensures
        !name_taken(
            names,
            given,
            numbered(x, free_number(names, given, x, 1, names.len() + given.len() + 1)),
        ),
{
    let bound = names.len() + given.len() + 1;
    lemma_free_number_range(names, given, x, 1, bound);
    if free_number(names, given, x, 1, bound) == bound {
        lemma_some_number_free(names, given, x, bound);
    }
}

/// Two occurrences of a name make it repeated.
proof fn lemma_repeated(names: Seq<Seq<char>>, i: int, j: int)
    requires
        0 <= i < j < names.len(),
        names[i] == names[j],
    ensures
        count_in(names, names[i], names.len() as int) >= 2,
{
    let x = names[i];
    lemma_count_monotone(names, x, 0, i);
    lemma_count_monotone(names, x, i + 1, j);
    lemma_count_monotone(names, x, j + 1, names.len() as int);
    assert(count_in(names, x, j + 1) == count_in(names, x, j) + 1);
    assert(count_in(names, x, i + 1) == count_in(names, x, i) + 1);
}

/// Every pair of the batch gets an output name of its own: no two final
/// names are equal.
pub proof fn lemma_final_names_distinct(names: Seq<Seq<char>>, i: int, j: int)
    requires
        0 <= i < j < names.len(),
    ensures
        disambiguated(names, i) != disambiguated(names, j),
{
    if !all_different(counted_names(names)) {
        lemma_first_free_distinct(names, i, j);
    }
}

/// Numbering each repeated name by its first free number gives every pair
/// a name of its own.
proof fn lemma_first_free_distinct(names: Seq<Seq<char>>, i: int, j: int)
    requires
        0 <= i < j < names.len(),
    ensures
        final_names(names, names.len())[i] != final_names(names, names.len())[j],
{
    let n = names.len();
    let all = final_names(names, n);
    lemma_final_names_prefix(names, (j + 1) as nat, n);
    lemma_final_names_prefix(names, j as nat, n);
    lemma_final_names_prefix(names, (i + 1) as nat, n);
    lemma_final_names_prefix(names, i as nat, n);
    lemma_final_names_len(names, j as nat);
    lemma_final_names_len(names, i as nat);
    lemma_final_names_len(names, n);
    let gj = final_names(names, j as nat);
    let gi = final_names(names, i as nat);
    assert(all[j] == final_names(names, (j + 1) as nat)[j]);
    assert(all[i] == final_names(names, (i + 1) as nat)[i]);
    assert(all[i] == gj[i]);
    let rj = count_in(names, names[j], n as int) > 1;
    let ri = count_in(names, names[i], n as int) > 1;
    if rj {
        lemma_final_number_free(names, gj, names[j]);
        assert(gj.contains(all[i]));
    } else if ri {
        lemma_final_number_free(names, gi, names[i]);
        assert(names.contains(all[j]));
    } else if names[i] == names[j] {
        lemma_repeated(names, i, j);
    }
}

/// A name that occurs once in the batch is kept as it is.
pub proof fn lemma_unique_name_kept(names: Seq<Seq<char>>, i: int)
    requires
        0 <= i < names.len(),
        forall|j: int| 0 <= j < names.len() && j != i ==> names[j] != names[i],
    ensures
        disambiguated(names, i) == names[i],
{
    let x = names[i];
    lemma_count_upto(names, i, names.len() as int);
    assert(counted_names(names)[i] == x);
    lemma_final_names_prefix(names, (i + 1) as nat, names.len());
    lemma_final_names_len(names, (i + 1) as nat);
    lemma_final_names_len(names, names.len());
    assert(final_names(names, names.len())[i] == final_names(names, (i + 1) as nat)[i]);
}

proof fn lemma_count_upto(names: Seq<Seq<char>>, i: int, n: int)
    requires
        0 <= i < names.len(),
        0 <= n <= names.len(),
        forall|j: int| 0 <= j < names.len() && j != i ==> names[j] != names[i],
    ensures
        count_in(names, names[i], n) == if n > i {
            1nat
        } else {
            0nat
        },
    decreases n,
{
    if n > 0 {
        lemma_count_upto(names, i, n - 1);
    }
}


/// No underscore anywhere in `s`.
pub open spec fn no_underscore(s: Seq<char>) -> bool {
    forall|i: int| 0 <= i < s.len() ==> #[trigger] s[i] != '_'
}

/// The last `_`-segment of `p + "_" + seg` is `seg` when `seg` holds no `_`.
proof fn lemma_split_last(p: Seq<char>, seg: Seq<char>)
    requires
        no_underscore(seg),
    ensures
        rfind(p + "_"@ + seg, '_') == p.len(),
        last_segment(p + "_"@ + seg) == seg,
        before_last_segment(p + "_"@ + seg) == p,
{
    reveal_strlit("_");
    let x = p + "_"@ + seg;
    crate::text::lemma_rfind(x, '_');
    assert(x[p.len() as int] == '_');
    let r = rfind(x, '_');
    if r > p.len() {
        assert(x[r] == seg[r - p.len() - 1]);
    }
    assert(r == p.len());
    assert(last_segment(x) =~= seg);
    assert(before_last_segment(x) =~= p);
}

/// A float text holds no underscore.
proof fn lemma_float_no_underscore(t: Seq<char>)
    requires
        is_float_text(t),
    ensures
        no_underscore(t),
{
    let u = crate::numtext::without_sign(t);
    let off: int = if t.len() > 0 && (t[0] == '+' || t[0] == '-') {
        1
    } else {
        0
    };
    assert(u =~= t.skip(off));
    assert forall|i: int| 0 <= i < t.len() implies #[trigger] t[i] != '_' by {
        if i >= off {
            let j = i - off;
            assert(u[j] == t[i]);
            if crate::numtext::ascii_ieq(u, "inf"@) || crate::numtext::ascii_ieq(u, "infinity"@)
                || crate::numtext::ascii_ieq(u, "nan"@) {
                reveal_strlit("inf");
                reveal_strlit("infinity");
                reveal_strlit("nan");
                assert(crate::numtext::ascii_lower(u[j]) != '_');
            } else {
                let k = choose|k: int|
                    0 <= k <= u.len() && #[trigger] crate::numtext::mantissa_text(u.take(k))
                        && crate::numtext::exponent_text(u.skip(k));
                if j < k {
                    assert(u.take(k)[j] == u[j]);
                } else {
                    let x = u.skip(k);
                    assert(x[j - k] == u[j]);
                    if j > k {
                        let y = crate::numtext::without_sign(x.drop_first());
                        if x.drop_first().len() > 0 && (x.drop_first()[0] == '+'
                            || x.drop_first()[0] == '-') {
                            if j > k + 1 {
                                assert(y[j - k - 2] == u[j]);
                            }
                        } else {
                            assert(y[j - k - 1] == u[j]);
                        }
                    }
                }
            }
        }
    }
}

/// A decimal rendering holds no underscore.
proof fn lemma_decimal_no_underscore(n: nat)
    ensures
        no_underscore(decimal(n)),
{
    lemma_decimal_value(n);
}

/// `trim_zeros` keeps a prefix.
proof fn lemma_trim_zeros_prefix(s: Seq<char>)
    ensures
        trim_zeros(s).len() <= s.len(),
        forall|i: int| 0 <= i < trim_zeros(s).len() ==> #[trigger] trim_zeros(s)[i] == s[i],
    decreases s.len(),
{
    if s.len() > 0 && s.last() == '0' {
        lemma_trim_zeros_prefix(s.drop_last());
    }
}

/// The kHz text of a rate is a float text and holds no underscore.
proof fn lemma_thousandths_text(rate: nat)
    ensures
        is_float_text(thousandths_text(rate)),
        no_underscore(thousandths_text(rate)),
{
    let w = decimal(rate / 1000);
    lemma_decimal_value(rate / 1000);
    let m = thousandths_text(rate);
    assert(m.len() > 0);
    if rate % 1000 != 0 {
        reveal_strlit(".");
        let three = seq![
            crate::text::digit(((rate % 1000) / 100) as int),
            crate::text::digit(((rate % 100) / 10) as int),
            crate::text::digit((rate % 10) as int),
        ];
        let tz = trim_zeros(three);
        lemma_trim_zeros_prefix(three);
        assert(m =~= w + "."@ + tz);
        assert forall|i: int| 0 <= i < m.len() implies crate::text::is_digit(#[trigger] m[i]) || m[i]
            == '.' by {
            if i < w.len() {
                assert(m[i] == w[i]);
            } else if i > w.len() {
                assert(m[i] == tz[i - w.len() - 1]);
                assert(tz[i - w.len() - 1] == three[i - w.len() - 1]);
            }
        }
        assert forall|i: int, j: int|
            0 <= i < j < m.len() && #[trigger] m[i] == '.' implies #[trigger] m[j] != '.' by {
            if i < w.len() {
                assert(m[i] == w[i]);
            }
            if j > w.len() {
                assert(m[j] == tz[j - w.len() - 1]);
                assert(tz[j - w.len() - 1] == three[j - w.len() - 1]);
            }
        }
        assert(crate::text::is_digit(m[0]));
    } else {
        assert(m == w);
    }
    assert(crate::numtext::mantissa_text(m.take(m.len() as int))) by {
        assert(m.take(m.len() as int) =~= m);
    }
    assert(m.skip(m.len() as int) =~= Seq::<char>::empty());
    assert(crate::numtext::number_text(m));
    assert(crate::numtext::without_sign(m) =~= m);
    lemma_float_no_underscore(m);
}

/// Each stripping step keeps a prefix, strictly shorter when it strips.
proof fn lemma_stages_shrink(s: Seq<char>)
    ensures
        strip_legacy(s) == s || strip_legacy(s).len() < s.len(),
        strip_depth(s) == s || strip_depth(s).len() < s.len(),
        strip_rate(s) == s || strip_rate(s).len() < s.len(),
        strip_word(s, "_Clocked"@) == s || strip_word(s, "_Clocked"@).len() < s.len(),
        strip_word(s, "_6Fr"@) == s || strip_word(s, "_6Fr"@).len() < s.len(),
        strip_level(s, "dBTP"@) == s || strip_level(s, "dBTP"@).len() < s.len(),
        strip_level(s, "LUFS"@) == s || strip_level(s, "LUFS"@).len() < s.len(),
        strip_legacy(s).len() <= s.len(),
        strip_depth(s).len() <= s.len(),
        strip_rate(s).len() <= s.len(),
        strip_word(s, "_Clocked"@).len() <= s.len(),
        strip_word(s, "_6Fr"@).len() <= s.len(),
        strip_level(s, "dBTP"@).len() <= s.len(),
        strip_level(s, "LUFS"@).len() <= s.len(),
{
    reveal_strlit("_Clocked");
    reveal_strlit("_6Fr");
    reveal_strlit("_normalised_");
    crate::text::lemma_rfind(s, '_');
    crate::text::lemma_find_from(s, "_normalised_"@, 0);
}

/// A name that stripping leaves alone is left alone by every step.
proof fn lemma_clean_stages(c: Seq<char>)
    requires
        stripped(c) == c,
    ensures
        strip_legacy(c) == c,
        strip_depth(c) == c,
        strip_rate(c) == c,
        strip_word(c, "_Clocked"@) == c,
        strip_word(c, "_6Fr"@) == c,
        strip_level(c, "dBTP"@) == c,
        strip_level(c, "LUFS"@) == c,
{
    let s1 = strip_legacy(c);
    let s2 = strip_depth(s1);
    let s3 = strip_rate(s2);
    let s4 = strip_word(s3, "_Clocked"@);
    let s5 = strip_word(s4, "_6Fr"@);
    let s6 = strip_level(s5, "dBTP"@);
    lemma_stages_shrink(c);
    lemma_stages_shrink(s1);
    lemma_stages_shrink(s2);
    lemma_stages_shrink(s3);
    lemma_stages_shrink(s4);
    lemma_stages_shrink(s5);
    lemma_stages_shrink(s6);
}


/// A string whose last character differs from `w`'s does not end with `w`.
proof fn lemma_not_ends(s: Seq<char>, w: Seq<char>)
    requires
        w.len() > 0,
        s.len() > 0,
        s.last() != w.last(),
    ensures
        !ends_with(s, w),
{
    if ends_with(s, w) {
        assert(s.subrange(s.len() - w.len(), s.len() as int)[w.len() - 1] == s.last());
    }
}

/// `p + w` ends with `w`, and taking `w` off gives `p`.
proof fn lemma_ends_concat(p: Seq<char>, w: Seq<char>)
    ensures
        ends_with(p + w, w),
        without_suffix(p + w, w) == p,
{
    assert((p + w).subrange(p.len() as int, (p + w).len() as int) =~= w);
    assert(without_suffix(p + w, w) =~= p);
}

/// `p + "_" + seg`, as a string split at its last underscore.
proof fn lemma_piece(p: Seq<char>, seg: Seq<char>)
    requires
        no_underscore(seg),
        seg.len() > 0,
    ensures
        rfind(p + "_"@ + seg, '_') == p.len(),
        last_segment(p + "_"@ + seg) == seg,
        before_last_segment(p + "_"@ + seg) == p,
        (p + "_"@ + seg).last() == seg.last(),
        (p + "_"@ + seg).len() > 0,
{
    lemma_split_last(p, seg);
    reveal_strlit("_");
}

proof fn lemma_literals()
    ensures
        "32f"@.len() == 3 && "32f"@[0] == '3' && "32f"@.last() == 'f',
        "bit"@.len() == 3 && "bit"@.last() == 't',
        "k"@.len() == 1 && "k"@.last() == 'k',
        "_Clocked"@.len() == 8 && "_Clocked"@.last() == 'd',
        "_6Fr"@.len() == 4 && "_6Fr"@.last() == 'r',
        "dBTP"@.len() == 4 && "dBTP"@.last() == 'P',
        "LUFS"@.len() == 4 && "LUFS"@.last() == 'S',
        "Clocked"@.len() == 7 && "Clocked"@.last() == 'd',
        "6Fr"@.len() == 3 && "6Fr"@[0] == '6' && "6Fr"@.last() == 'r',
        "_"@ + "Clocked"@ == "_Clocked"@,
        "_"@ + "6Fr"@ == "_6Fr"@,
        no_underscore("Clocked"@),
        no_underscore("6Fr"@),
        no_underscore("32f"@),
        no_underscore("bit"@),
        no_underscore("k"@),
        no_underscore("dBTP"@),
        no_underscore("LUFS"@),
{
    reveal_strlit("32f");
    reveal_strlit("bit");
    reveal_strlit("k");
    reveal_strlit("_Clocked");
    reveal_strlit("_6Fr");
    reveal_strlit("dBTP");
    reveal_strlit("LUFS");
    reveal_strlit("Clocked");
    reveal_strlit("6Fr");
    reveal_strlit("_");
    assert("_"@ + "Clocked"@ =~= "_Clocked"@);
    assert("_"@ + "6Fr"@ =~= "_6Fr"@);
}

/// `a + b` holds no underscore when neither part does.
proof fn lemma_no_underscore_concat(a: Seq<char>, b: Seq<char>)
    requires
        no_underscore(a),
        no_underscore(b),
    ensures
        no_underscore(a + b),
{
    assert forall|i: int| 0 <= i < (a + b).len() implies #[trigger] (a + b)[i] != '_' by {
        if i < a.len() {
            assert((a + b)[i] == a[i]);
        } else {
            assert((a + b)[i] == b[i - a.len()]);
        }
    }
}

/// The segment of a depth tag, without its leading underscore.
pub open spec fn depth_segment(d: u32) -> Seq<char> {
    if d == 32 {
        "32f"@
    } else {
        decimal(d as nat) + "bit"@
    }
}

/// A depth tag is stripped by the depth step.
proof fn lemma_depth_piece(p: Seq<char>, d: u32)
    ensures
        depth_tag(Some(d)) == "_"@ + depth_segment(d),
        strip_depth(p + "_"@ + depth_segment(d)) == p,
{
    lemma_literals();
    reveal_strlit("_32f");
    reveal_strlit("32f");
    reveal_strlit("_");
    let seg = depth_segment(d);
    if d == 32 {
        assert("_"@ + "32f"@ =~= "_32f"@);
    } else {
        lemma_decimal_no_underscore(d as nat);
        lemma_no_underscore_concat(decimal(d as nat), "bit"@);
        lemma_ends_concat(decimal(d as nat), "bit"@);
        lemma_decimal_value(d as nat);
        let w = decimal(d as nat);
        assert(crate::text::is_digit(w[0]));
        assert(w[0] != '+');
        assert(is_u32_text(w));
        assert(depth_tag(Some(d)) =~= "_"@ + seg);
    }
    lemma_piece(p, seg);
}

/// A rate tag passes the depth step and is stripped by the rate step.
proof fn lemma_rate_piece(p: Seq<char>, r: u32)
    ensures
        rate_tag(Some(r)) == "_"@ + (thousandths_text(r as nat) + "k"@),
        strip_depth(p + "_"@ + (thousandths_text(r as nat) + "k"@)) == p + "_"@ + (thousandths_text(r as nat) + "k"@),
        strip_rate(p + "_"@ + (thousandths_text(r as nat) + "k"@)) == p,
{
    lemma_literals();
    let seg = thousandths_text(r as nat) + "k"@;
    lemma_thousandths_text(r as nat);
    lemma_no_underscore_concat(thousandths_text(r as nat), "k"@);
    lemma_piece(p, seg);
    lemma_ends_concat(thousandths_text(r as nat), "k"@);
    assert(seg.last() == 'k');
    lemma_not_ends(seg, "bit"@);
    assert(seg != "32f"@);
    assert(rate_tag(Some(r)) =~= "_"@ + seg);
}

/// "_Clocked" passes the depth and rate steps and is stripped by its own.
proof fn lemma_clock_piece(p: Seq<char>)
    ensures
        strip_depth(p + "_Clocked"@) == p + "_Clocked"@,
        strip_rate(p + "_Clocked"@) == p + "_Clocked"@,
        strip_word(p + "_Clocked"@, "_Clocked"@) == p,
{
    lemma_literals();
    let seg = "Clocked"@;
    assert(p + "_Clocked"@ =~= p + "_"@ + seg);
    lemma_piece(p, seg);
    lemma_not_ends(seg, "bit"@);
    lemma_not_ends(seg, "k"@);
    assert(seg != "32f"@);
    lemma_ends_concat(p, "_Clocked"@);
}

/// "_6Fr" passes the depth, rate and clock steps and is stripped by its own.
proof fn lemma_6fr_piece(p: Seq<char>)
    ensures
        strip_depth(p + "_6Fr"@) == p + "_6Fr"@,
        strip_rate(p + "_6Fr"@) == p + "_6Fr"@,
        strip_word(p + "_6Fr"@, "_Clocked"@) == p + "_6Fr"@,
        strip_word(p + "_6Fr"@, "_6Fr"@) == p,
{
    lemma_literals();
    let seg = "6Fr"@;
    assert(p + "_6Fr"@ =~= p + "_"@ + seg);
    lemma_piece(p, seg);
    lemma_not_ends(seg, "bit"@);
    lemma_not_ends(seg, "k"@);
    lemma_not_ends(p + "_6Fr"@, "_Clocked"@);
    assert(seg[0] != "32f"@[0]);
    assert(seg != "32f"@);
    lemma_ends_concat(p, "_6Fr"@);
}

/// A level tag passes every step before its own and is stripped by its own;
/// a LUFS tag also passes the dBTP step.
proof fn lemma_level_piece(p: Seq<char>, t: Seq<char>, unit: Seq<char>)
    requires
        is_float_text(t),
        unit == "dBTP"@ || unit == "LUFS"@,
    ensures
        strip_depth(p + "_"@ + (t + unit)) == p + "_"@ + (t + unit),
        strip_rate(p + "_"@ + (t + unit)) == p + "_"@ + (t + unit),
        strip_word(p + "_"@ + (t + unit), "_Clocked"@) == p + "_"@ + (t + unit),
        strip_word(p + "_"@ + (t + unit), "_6Fr"@) == p + "_"@ + (t + unit),
        strip_level(p + "_"@ + (t + unit), unit) == p,
        unit == "LUFS"@ ==> strip_level(p + "_"@ + (t + unit), "dBTP"@) == p + "_"@ + (t + unit),
{
    lemma_literals();
    let seg = t + unit;
    lemma_float_no_underscore(t);
    lemma_no_underscore_concat(t, unit);
    lemma_piece(p, seg);
    assert(seg.last() == unit.last());
    lemma_not_ends(seg, "bit"@);
    lemma_not_ends(seg, "k"@);
    lemma_not_ends(p + "_"@ + seg, "_Clocked"@);
    lemma_not_ends(p + "_"@ + seg, "_6Fr"@);
    assert(seg != "32f"@);
    lemma_ends_concat(t, unit);
    if unit == "LUFS"@ {
        lemma_not_ends(seg, "dBTP"@);
    }
}


/// The level text of a tag, when the tag holds one.
pub open spec fn level_text_ok(level: Option<LevelTag>) -> bool {
    match level {
        Some(LevelTag::Peak(t)) => is_float_text(t@),
        Some(LevelTag::Lufs(t)) => is_float_text(t@),
        None => true,
    }
}

proof fn lemma_level_shape(p: Seq<char>, level: Option<LevelTag>)
    requires
        level_text_ok(level),
    ensures
        level matches Some(LevelTag::Peak(t)) ==> p + level_suffix(level) == p + "_"@ + (t@ + "dBTP"@),
        level matches Some(LevelTag::Lufs(t)) ==> p + level_suffix(level) == p + "_"@ + (t@ + "LUFS"@),
        level is None ==> p + level_suffix(level) == p,
{
    match level {
        Some(LevelTag::Peak(t)) => {
            assert(p + level_suffix(level) =~= p + "_"@ + (t@ + "dBTP"@));
        },
        Some(LevelTag::Lufs(t)) => {
            assert(p + level_suffix(level) =~= p + "_"@ + (t@ + "LUFS"@));
        },
        None => {
            assert(p + level_suffix(level) =~= p);
        },
    }
}

/// After a clean base and a level tag, the steps before the level's own
/// leave the name alone.
proof fn lemma_untouched_level(c: Seq<char>, level: Option<LevelTag>)
    requires
        stripped(c) == c,
        level_text_ok(level),
    ensures
        strip_depth(c + level_suffix(level)) == c + level_suffix(level),
        strip_rate(c + level_suffix(level)) == c + level_suffix(level),
        strip_word(c + level_suffix(level), "_Clocked"@) == c + level_suffix(level),
        strip_word(c + level_suffix(level), "_6Fr"@) == c + level_suffix(level),
{
    lemma_clean_stages(c);
    lemma_level_shape(c, level);
    lemma_literals();
    match level {
        Some(LevelTag::Peak(t)) => lemma_level_piece(c, t@, "dBTP"@),
        Some(LevelTag::Lufs(t)) => lemma_level_piece(c, t@, "LUFS"@),
        None => {},
    }
}

/// The name up to and including the 6-frame tag.
pub open spec fn upto_silence(c: Seq<char>, level: Option<LevelTag>, silence: bool) -> Seq<char> {
    c + level_suffix(level) + if silence {
        "_6Fr"@
    } else {
        Seq::empty()
    }
}

/// The name up to and including the clock tag.
pub open spec fn upto_clock(c: Seq<char>, level: Option<LevelTag>, silence: bool, clock: bool) -> Seq<
    char,
> {
    upto_silence(c, level, silence) + if clock {
        "_Clocked"@
    } else {
        Seq::empty()
    }
}

proof fn lemma_untouched_silence(c: Seq<char>, level: Option<LevelTag>, silence: bool)
    requires
        stripped(c) == c,
        level_text_ok(level),
    ensures
        strip_depth(upto_silence(c, level, silence)) == upto_silence(c, level, silence),
        strip_rate(upto_silence(c, level, silence)) == upto_silence(c, level, silence),
        strip_word(upto_silence(c, level, silence), "_Clocked"@) == upto_silence(c, level, silence),
        strip_word(upto_silence(c, level, silence), "_6Fr"@) == c + level_suffix(level),
{
    let q = c + level_suffix(level);
    if silence {
        lemma_6fr_piece(q);
    } else {
        assert(upto_silence(c, level, silence) =~= q);
        lemma_untouched_level(c, level);
    }
}

proof fn lemma_untouched_clock(c: Seq<char>, level: Option<LevelTag>, silence: bool, clock: bool)
    requires
        stripped(c) == c,
        level_text_ok(level),
    ensures
        strip_depth(upto_clock(c, level, silence, clock)) == upto_clock(c, level, silence, clock),
        strip_rate(upto_clock(c, level, silence, clock)) == upto_clock(c, level, silence, clock),
        strip_word(upto_clock(c, level, silence, clock), "_Clocked"@) == upto_silence(
            c,
            level,
            silence,
        ),
{
    let q = upto_silence(c, level, silence);
    if clock {
        lemma_clock_piece(q);
    } else {
        assert(upto_clock(c, level, silence, clock) =~= q);
        lemma_untouched_silence(c, level, silence);
    }
}

/// Re-processing an output doesn't stack its tags: stripping a name built
/// from a base that stripping leaves alone, the tags of the processing steps
/// (with the level written as a float text) and the conversion tag gives the
/// base back — unless the built name holds the legacy "_normalised_" marker.
pub proof fn lemma_strip_undoes_tags(
    base: Seq<char>,
    level: Option<LevelTag>,
    silence: bool,
    clock: bool,
    audio: Option<AudioOutputSpec>,
)
    requires
        stripped(base) == base,
        level_text_ok(level),
        find(base + step_tags(level, silence, clock) + conversion_of(audio), "_normalised_"@) == -1,
    ensures
        stripped(base + step_tags(level, silence, clock) + conversion_of(audio)) == base,
{
    let c = base;
    let p3 = upto_clock(c, level, silence, clock);
    let rate = match audio {
        Some(s) => s.sample_rate,
        None => None,
    };
    let depth = match audio {
        Some(s) => s.bit_depth,
        None => None,
    };
    let p4 = p3 + rate_tag(rate);
    let p5 = p4 + depth_tag(depth);
    let p2 = upto_silence(c, level, silence);
    let p1 = c + level_suffix(level);
    assert(c + step_tags(level, silence, clock) + conversion_of(audio) == p5) by {
        assert(c + step_tags(level, silence, clock) =~= p3);
        assert(c + step_tags(level, silence, clock) + conversion_of(audio) =~= p5);
    }
    assert(strip_legacy(p5) == p5);
    assert(strip_depth(p5) == p4) by {
        lemma_depth_step(c, level, silence, clock, rate, depth);
    }
    assert(strip_rate(p4) == p3) by {
        lemma_rate_step(c, level, silence, clock, rate);
    }
    assert(strip_word(p3, "_Clocked"@) == p2) by {
        lemma_untouched_clock(c, level, silence, clock);
    }
    assert(strip_word(p2, "_6Fr"@) == p1) by {
        lemma_untouched_silence(c, level, silence);
    }
    assert(strip_level(strip_level(p1, "dBTP"@), "LUFS"@) == c) by {
        lemma_level_steps(c, level);
    }
}

proof fn lemma_depth_step(
    c: Seq<char>,
    level: Option<LevelTag>,
    silence: bool,
    clock: bool,
    rate: Option<u32>,
    depth: Option<u32>,
)
    requires
        stripped(c) == c,
        level_text_ok(level),
    ensures
        strip_depth(upto_clock(c, level, silence, clock) + rate_tag(rate) + depth_tag(depth))
            == upto_clock(c, level, silence, clock) + rate_tag(rate),
{
    let p3 = upto_clock(c, level, silence, clock);
    let p4 = p3 + rate_tag(rate);
    let p5 = p4 + depth_tag(depth);
    match depth {
        Some(d) => {
            lemma_depth_piece(p4, d);
            assert(p5 =~= p4 + "_"@ + depth_segment(d));
        },
        None => {
            assert(p5 =~= p4);
            match rate {
                Some(r) => {
                    lemma_rate_piece(p3, r);
                    assert(p4 =~= p3 + "_"@ + (thousandths_text(r as nat) + "k"@));
                },
                None => {
                    assert(p4 =~= p3);
                    lemma_untouched_clock(c, level, silence, clock);
                },
            }
        },
    }
}

proof fn lemma_rate_step(c: Seq<char>, level: Option<LevelTag>, silence: bool, clock: bool, rate: Option<u32>)
    requires
        stripped(c) == c,
        level_text_ok(level),
    ensures
        strip_rate(upto_clock(c, level, silence, clock) + rate_tag(rate)) == upto_clock(
            c,
            level,
            silence,
            clock,
        ),
{
    let p3 = upto_clock(c, level, silence, clock);
    let p4 = p3 + rate_tag(rate);
    match rate {
        Some(r) => {
            lemma_rate_piece(p3, r);
            assert(p4 =~= p3 + "_"@ + (thousandths_text(r as nat) + "k"@));
        },
        None => {
            assert(p4 =~= p3);
            lemma_untouched_clock(c, level, silence, clock);
        },
    }
}

proof fn lemma_level_steps(c: Seq<char>, level: Option<LevelTag>)
    requires
        stripped(c) == c,
        level_text_ok(level),
    ensures
        strip_level(strip_level(c + level_suffix(level), "dBTP"@), "LUFS"@) == c,
{
    lemma_clean_stages(c);
    lemma_level_shape(c, level);
    lemma_literals();
    match level {
        Some(LevelTag::Peak(t)) => {
            lemma_level_piece(c, t@, "dBTP"@);
        },
        Some(LevelTag::Lufs(t)) => {
            lemma_level_piece(c, t@, "LUFS"@);
        },
        None => {},
    }
}


/// Re-dropping an output doesn't stack its tags: naming a pair whose audio
/// is the earlier output (its name the clean base plus the tags the same
/// settings add) gives the same name as naming the original.
pub proof fn lemma_renaming_output_is_stable(
    original: PairNaming,
    reloaded: PairNaming,
    audio: Option<AudioOutputSpec>,
)
    requires
        original.video_name is None,
        reloaded.video_name is None,
        stripped(original.audio_name@) == original.audio_name@,
        level_text_ok(original.level),
        reloaded.level == original.level,
        reloaded.silence_compliance == original.silence_compliance,
        reloaded.clock_enabled == original.clock_enabled,
        reloaded.audio_ext@ == original.audio_ext@,
        reloaded.audio_name@ == original.audio_name@ + step_tags(
            original.level,
            original.silence_compliance,
            original.clock_enabled,
        ) + conversion_of(audio),
        find(reloaded.audio_name@, "_normalised_"@) == -1,
    ensures
        audio_only_name(reloaded, audio) == audio_only_name(original, audio),
{
    let tags = step_tags(original.level, original.silence_compliance, original.clock_enabled);
    if applies_spec(original, audio) {
        lemma_strip_undoes_tags(
            original.audio_name@,
            original.level,
            original.silence_compliance,
            original.clock_enabled,
            audio,
        );
    } else {
        reveal_strlit("_6Fr");
        reveal_strlit("_Clocked");
        assert(original.level is None);
        assert(tags =~= Seq::<char>::empty());
        assert(conversion_of(audio).len() == 0);
        assert(reloaded.audio_name@ =~= original.audio_name@);
    }
}

} // verus!
