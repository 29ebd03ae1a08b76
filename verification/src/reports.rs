//! Reading ffmpeg's and ffprobe's text reports: the loudness summary of the
//! ebur128 filter and ffprobe's packet count. Lines are read as `str::lines`
//! gives them and trimmed; numbers are picked out as the texts `str::parse`
//! accepts.

use vstd::prelude::*;

use crate::numtext::{all_digits, digits_value, float_text, is_float_text};
use crate::text::{
    chars_of, find, find_chars, is_white, is_white_exec, lemma_rfind, rfind, rfind_char, slice_chars,
    starts_with, starts_with_exec, str_eq, string_of, trim_chars, trim_start, trimmed, views,
};

verus! {

/// Where the first line of `s` ends: its first '\n', or its length.
pub open spec fn line_end(s: Seq<char>) -> nat
    decreases s.len(),
{
    if s.len() == 0 {
        0
    } else if s[0] == '\n' {
        0
    } else {
        1 + line_end(s.drop_first())
    }
}

/// The first line of `v` from `start` ends at the returned index.
fn line_end_from(v: &Vec<char>, start: usize) -> (e: usize)
    requires
        start <= v.len(),
    ensures
        start <= e <= v.len(),
        e - start == line_end(v@.skip(start as int)),
{
    let mut j = start;
    while j < v.len() && v[j] != '\n'
        invariant
            start <= j <= v.len(),
            line_end(v@.skip(start as int)) == (j - start) + line_end(v@.skip(j as int)),
        decreases v.len() - j,
    {
        assert(v@.skip(j + 1) =~= v@.skip(j as int).drop_first());
        j += 1;
    }
    j
}

/// How many non-whitespace characters `s` starts with.
pub open spec fn word_len(s: Seq<char>) -> nat
    decreases s.len(),
{
    if s.len() > 0 && !is_white(s[0]) {
        1 + word_len(s.drop_first())
    } else {
        0
    }
}

/// The second whitespace-separated word of `t` (`split_whitespace().nth(1)`).
pub open spec fn second_word(t: Seq<char>) -> Option<Seq<char>> {
    let a = trim_start(t);
    let b = trim_start(a.skip(word_len(a) as int));
    if b.len() == 0 {
        None
    } else {
        Some(b.take(word_len(b) as int))
    }
}

/// Skips whitespace in `v` from `i`.
fn skip_white(v: &Vec<char>, i: usize) -> (j: usize)
    requires
        i <= v.len(),
    ensures
        i <= j <= v.len(),
        v@.skip(j as int) == trim_start(v@.skip(i as int)),
{
    let mut j = i;
    while j < v.len() && is_white_exec(v[j])
        invariant
            i <= j <= v.len(),
            trim_start(v@.skip(j as int)) == trim_start(v@.skip(i as int)),
        decreases v.len() - j,
    {
        assert(v@.skip(j + 1) =~= v@.skip(j as int).drop_first());
        j += 1;
    }
    j
}

/// Skips a word in `v` from `i`.
fn skip_word(v: &Vec<char>, i: usize) -> (j: usize)
    requires
        i <= v.len(),
    ensures
        i <= j <= v.len(),
        j - i == word_len(v@.skip(i as int)),
{
    let mut j = i;
    while j < v.len() && !is_white_exec(v[j])
        invariant
            i <= j <= v.len(),
            word_len(v@.skip(i as int)) == (j - i) + word_len(v@.skip(j as int)),
        decreases v.len() - j,
    {
        assert(v@.skip(j + 1) =~= v@.skip(j as int).drop_first());
        j += 1;
    }
    j
}

/// The second whitespace-separated word of `t`.
fn second_word_exec(t: &Vec<char>) -> (r: Option<Vec<char>>)
    ensures
        match r {
            Some(w) => second_word(t@) == Some(w@),
            None => second_word(t@) is None,
        },
{
    assert(t@.skip(0) =~= t@);
    let a = skip_white(t, 0);
    let b = skip_word(t, a);
    assert(t@.skip(b as int) =~= t@.skip(a as int).skip(word_len(t@.skip(a as int)) as int));
    let c = skip_white(t, b);
    if c >= t.len() {
        return None;
    }
    let d = skip_word(t, c);
    assert(t@.subrange(c as int, d as int) =~= t@.skip(c as int).take(word_len(t@.skip(c as int)) as int));
    Some(slice_chars(t, c, d))
}

/// The value on a summary line tagged `tag` that mentions `unit`: its
/// second word, when that reads as a number.
pub open spec fn tagged_value(t: Seq<char>, tag: Seq<char>, unit: Seq<char>) -> Option<Seq<char>> {
    if starts_with(t, tag) && find(t, unit) >= 0 {
        match second_word(t) {
            Some(w) => if is_float_text(w) {
                Some(w)
            } else {
                None
            },
            None => None,
        }
    } else {
        None
    }
}

/// The value on a trimmed line tagged `tag` that mentions `unit`.
fn tagged_value_exec(t: &Vec<char>, tag: &str, unit: &str) -> (r: Option<Vec<char>>)
    ensures
        match r {
            Some(w) => tagged_value(t@, tag@, unit@) == Some(w@),
            None => tagged_value(t@, tag@, unit@) is None,
        },
{
    if !starts_with_exec(t, tag) {
        return None;
    }
    let u = chars_of(unit);
    if find_chars(t, &u).is_none() {
        return None;
    }
    match second_word_exec(t) {
        Some(w) => if float_text(&w) {
            Some(w)
        } else {
            None
        },
        None => None,
    }
}

/// Reading the lines of `s` in turn, the last integrated loudness ("I:"
/// … "LUFS") and the last peak ("Peak:" … "dBFS") found, starting from
/// `lufs` and `peak`.
pub open spec fn scan_summary(s: Seq<char>, lufs: Option<Seq<char>>, peak: Option<Seq<char>>) -> (
    Option<Seq<char>>,
    Option<Seq<char>>,
)
    decreases s.len(),
{
    let e = line_end(s);
    let t = trimmed(s.take(e as int));
    let l2 = match tagged_value(t, "I:"@, "LUFS"@) {
        Some(w) => Some(w),
        None => lufs,
    };
    let p2 = match tagged_value(t, "Peak:"@, "dBFS"@) {
        Some(w) => Some(w),
        None => peak,
    };
    if e >= s.len() {
        (l2, p2)
    } else {
        scan_summary(s.skip((e + 1) as int), l2, p2)
    }
}

/// The integrated loudness and true peak texts of an ebur128 report: read
/// from its "Summary:" section on (so the running per-frame values before
/// it are never taken); none unless both are there.
pub open spec fn ebur128_summary_of(s: Seq<char>) -> Option<(Seq<char>, Seq<char>)> {
    let i = find(s, "Summary:"@);
    if i < 0 {
        None
    } else {
        match scan_summary(s.skip(i), None, None) {
            (Some(l), Some(p)) => Some((l, p)),
            _ => None,
        }
    }
}

/// An optional character sequence.
pub open spec fn opt_chars(o: Option<Vec<char>>) -> Option<Seq<char>> {
    match o {
        Some(v) => Some(v@),
        None => None,
    }
}

/// The integrated loudness (LUFS) and true peak (dBFS) texts in the summary
/// of ebur128's report; each reads as a number.
pub fn ebur128_summary(report: &str) -> (r: Option<(String, String)>)
    ensures
        match r {
            Some((l, p)) => ebur128_summary_of(report@) == Some((l@, p@)),
            None => ebur128_summary_of(report@) is None,
        },
{
    let v = chars_of(report);
    let pat = chars_of("Summary:");
    let i = match find_chars(&v, &pat) {
        Some(i) => i,
        None => return None,
    };
    proof {
        crate::text::lemma_find_from(v@, pat@, 0);
    }
    let ghost target = scan_summary(v@.skip(i as int), None, None);
    let mut start = i;
    let mut lufs: Option<Vec<char>> = None;
    let mut peak: Option<Vec<char>> = None;
    loop
        invariant
            start <= v.len(),
            scan_summary(v@.skip(start as int), opt_chars(lufs), opt_chars(peak)) == target,
        ensures
            (opt_chars(lufs), opt_chars(peak)) == target,
        decreases v.len() - start,
    {
        let e = line_end_from(&v, start);
        let line = slice_chars(&v, start, e);
        assert(line@ =~= v@.skip(start as int).take(line_end(v@.skip(start as int)) as int));
        let t = trim_chars(&line);
        match tagged_value_exec(&t, "I:", "LUFS") {
            Some(w) => {
                lufs = Some(w);
            },
            None => {},
        }
        match tagged_value_exec(&t, "Peak:", "dBFS") {
            Some(w) => {
                peak = Some(w);
            },
            None => {},
        }
        if e >= v.len() {
            break ;
        }
        assert(v@.skip(e + 1) =~= v@.skip(start as int).skip((line_end(v@.skip(start as int)) + 1) as int));
        start = e + 1;
    }
    match (lufs, peak) {
        (Some(l), Some(p)) => Some((string_of(&l), string_of(&p))),
        _ => None,
    }
}

/// What `str::parse::<u64>` accepts: an optional `+`, then one or more
/// digits whose value fits in a `u64`.
pub open spec fn is_u64_text(s: Seq<char>) -> bool {
    let d = unsigned_digits(s);
    d.len() > 0 && all_digits(d) && digits_value(d) <= u64::MAX
}

/// The digits of an unsigned number's text: without one leading `+`.
pub open spec fn unsigned_digits(s: Seq<char>) -> Seq<char> {
    if s.len() > 0 && s[0] == '+' {
        s.drop_first()
    } else {
        s
    }
}

/// `str::parse::<u64>`.
pub fn parse_u64(v: &Vec<char>) -> (r: Option<u64>)
    ensures
        match r {
            Some(n) => is_u64_text(v@) && n == digits_value(unsigned_digits(v@)),
            None => !is_u64_text(v@),
        },
{
    let lo: usize = if v.len() > 0 && v[0] == '+' {
        1
    } else {
        0
    };
    let ghost d = unsigned_digits(v@);
    assert(d =~= v@.skip(lo as int));
    if lo >= v.len() {
        return None;
    }
    let mut acc: u64 = 0;
    let mut i = lo;
    while i < v.len()
        invariant
            lo <= i <= v.len(),
            d == v@.skip(lo as int),
            d == unsigned_digits(v@),
            all_digits(v@.subrange(lo as int, i as int)),
            acc == digits_value(v@.subrange(lo as int, i as int)),
        decreases v.len() - i,
    {
        let c = v[i];
        if !('0' <= c && c <= '9') {
            assert(d[i - lo] == c);
            assert(!crate::text::is_digit(d[i - lo]));
            assert(!all_digits(d));
            return None;
        }
        let ghost prev = v@.subrange(lo as int, i as int);
        let ghost next = v@.subrange(lo as int, i + 1);
        assert(next.drop_last() =~= prev);
        let dv: u64 = (c as u32 - 48) as u64;
        assert(digits_value(next) == digits_value(prev) * 10 + dv);
        if acc > (u64::MAX - dv) / 10 {
            proof {
                assert(acc * 10 + dv > u64::MAX) by (nonlinear_arith)
                    requires
                        acc > (u64::MAX - dv) / 10,
                        dv <= 9,
                ;
                if all_digits(d) {
                    lemma_digits_value_grows(d, (i + 1 - lo) as int);
                    assert(d.take((i + 1 - lo) as int) =~= next);
                }
            }
            return None;
        }
        acc = acc * 10 + dv;
        i += 1;
    }
    assert(v@.subrange(lo as int, v.len() as int) =~= d);
    Some(acc)
}

/// The value of a digit text is at least that of any prefix.
proof fn lemma_digits_value_grows(d: Seq<char>, k: int)
    requires
        0 <= k <= d.len(),
        all_digits(d),
    ensures
        digits_value(d.take(k)) <= digits_value(d),
    decreases d.len() - k,
{
    if k < d.len() {
        lemma_digits_value_grows(d, k + 1);
        assert(d.take(k + 1).drop_last() =~= d.take(k));
        assert(crate::text::is_digit(d[k]));
    } else {
        assert(d.take(k) =~= d);
    }
}

/// The first line of `s` that is not blank, trimmed.
pub open spec fn first_filled_line(s: Seq<char>) -> Option<Seq<char>>
    decreases s.len(),
{
    let e = line_end(s);
    let t = trimmed(s.take(e as int));
    if t.len() > 0 {
        Some(t)
    } else if e >= s.len() {
        None
    } else {
        first_filled_line(s.skip((e + 1) as int))
    }
}

/// ffprobe's packet count: the first line of its output that is not blank,
/// when it reads as a `u64`.
pub open spec fn packet_count_of(out: Seq<char>) -> Option<nat> {
    match first_filled_line(out) {
        Some(t) => if is_u64_text(t) {
            Some(digits_value(unsigned_digits(t)))
        } else {
            None
        },
        None => None,
    }
}

/// The packet count ffprobe printed (an MPEG-TS stream is reported in its
/// program too; the first count is taken), or "could not count packets".
pub fn packet_count(out: &str) -> (r: Result<u64, String>)
    ensures
        match r {
            Ok(n) => packet_count_of(out@) == Some(n as nat),
            Err(e) => packet_count_of(out@) is None && e@ == "could not count packets"@,
        },
{
    let v = chars_of(out);
    let mut start: usize = 0;
    assert(v@.skip(0) =~= v@);
    loop
        invariant
            start <= v.len(),
            v@ == out@,
            first_filled_line(v@.skip(start as int)) == first_filled_line(v@),
        decreases v.len() - start,
    {
        let e = line_end_from(&v, start);
        let line = slice_chars(&v, start, e);
        assert(line@ =~= v@.skip(start as int).take(line_end(v@.skip(start as int)) as int));
        let t = trim_chars(&line);
        if t.len() > 0 {
            assert(first_filled_line(v@.skip(start as int)) == Some(t@));
            return match parse_u64(&t) {
                Some(n) => Ok(n),
                None => Err(crate::text::owned("could not count packets")),
            };
        }
        if e >= v.len() {
            assert(first_filled_line(v@.skip(start as int)) is None);
            return Err(crate::text::owned("could not count packets"));
        }
        assert(v@.skip(e + 1) =~= v@.skip(start as int).skip((line_end(v@.skip(start as int)) + 1) as int));
        start = e + 1;
    }
}

/// `s` after its last ':' (all of it when it has none), trimmed — the value
/// of a "name: value" report line.
pub open spec fn colon_value(s: Seq<char>) -> Seq<char> {
    trimmed(s.skip(rfind(s, ':') + 1))
}

/// The value of a "name: value" line.
fn colon_value_exec(v: &Vec<char>) -> (r: Vec<char>)
    ensures
        r@ == colon_value(v@),
{
    proof {
        lemma_rfind(v@, ':');
    }
    let from = match rfind_char(v, ':') {
        Some(i) => {
            assert(i < v.len());
            i + 1
        },
        None => 0,
    };
    let rest = slice_chars(v, from, v.len());
    assert(rest@ =~= v@.skip(rfind(v@, ':') + 1));
    trim_chars(&rest)
}

/// The first line of `v` from `start`, and where it ends.
fn line_from(v: &Vec<char>, start: usize) -> (r: (Vec<char>, usize))
    requires
        start <= v.len(),
    ensures
        start <= r.1 <= v.len(),
        r.1 - start == line_end(v@.skip(start as int)),
        r.0@ == v@.skip(start as int).take(line_end(v@.skip(start as int)) as int),
        r.1 < v.len() ==> v@.skip(r.1 + 1) == v@.skip(start as int).skip(
            (line_end(v@.skip(start as int)) + 1) as int,
        ),
{
    let e = line_end_from(v, start);
    let line = slice_chars(v, start, e);
    assert(line@ =~= v@.skip(start as int).take(line_end(v@.skip(start as int)) as int));
    if e < v.len() {
        assert(v@.skip(e + 1) =~= v@.skip(start as int).skip((line_end(v@.skip(start as int)) + 1) as int));
    }
    (line, e)
}

/// The peak level text of an astats report: the value on the first line
/// that mentions "Peak level dB:".
pub open spec fn astats_peak_of(s: Seq<char>) -> Option<Seq<char>>
    decreases s.len(),
{
    let e = line_end(s);
    let line = s.take(e as int);
    if find(line, "Peak level dB:"@) >= 0 {
        Some(colon_value(line))
    } else if e >= s.len() {
        None
    } else {
        astats_peak_of(s.skip((e + 1) as int))
    }
}

/// The peak level text of an astats report ("-inf" for silence).
pub fn astats_peak(report: &str) -> (r: Option<String>)
    ensures
        opt_string_view(r) == astats_peak_of(report@),
{
    let v = chars_of(report);
    let pat = chars_of("Peak level dB:");
    let mut start: usize = 0;
    assert(v@.skip(0) =~= v@);
    loop
        invariant
            start <= v.len(),
            v@ == report@,
            pat@ == "Peak level dB:"@,
            astats_peak_of(v@.skip(start as int)) == astats_peak_of(v@),
        decreases v.len() - start,
    {
        let (line, e) = line_from(&v, start);
        if find_chars(&line, &pat).is_some() {
            return Some(string_of(&colon_value_exec(&line)));
        }
        if e >= v.len() {
            return None;
        }
        start = e + 1;
    }
}

/// An optional string as characters.
pub open spec fn opt_string_view(o: Option<String>) -> Option<Seq<char>> {
    match o {
        Some(s) => Some(s@),
        None => None,
    }
}

/// Reading an astats report's lines in turn (`in_channel` says whether the
/// reading is inside a per-channel block): the RMS level texts of the
/// channels, in order, after those in `acc`. A "Channel:" line opens a block,
/// an "Overall" line closes it; inside one, an "RMS level dB:" line gives a
/// level when its value reads as a number.
pub open spec fn rms_scan(s: Seq<char>, in_channel: bool, acc: Seq<Seq<char>>) -> Seq<Seq<char>>
    decreases s.len(),
{
    let e = line_end(s);
    let line = s.take(e as int);
    let next = if find(line, "Channel:"@) >= 0 {
        (true, acc)
    } else if in_channel && find(line, "RMS level dB:"@) >= 0 {
        let v = colon_value(line);
        (in_channel, if is_float_text(v) {
            acc.push(v)
        } else {
            acc
        })
    } else if find(line, "Overall"@) >= 0 {
        (false, acc)
    } else {
        (in_channel, acc)
    };
    if e >= s.len() {
        next.1
    } else {
        rms_scan(s.skip((e + 1) as int), next.0, next.1)
    }
}

/// The per-channel RMS level texts of an astats report, in channel order.
pub fn astats_rms(report: &str) -> (r: Vec<String>)
    ensures
        views(r@) == rms_scan(report@, false, Seq::empty()),
{
    let v = chars_of(report);
    let channel = chars_of("Channel:");
    let rms = chars_of("RMS level dB:");
    let overall = chars_of("Overall");
    let mut out: Vec<String> = Vec::new();
    let mut in_channel = false;
    let mut start: usize = 0;
    assert(v@.skip(0) =~= v@);
    assert(views(out@) =~= Seq::<Seq<char>>::empty());
    loop
        invariant
            start <= v.len(),
            v@ == report@,
            channel@ == "Channel:"@,
            rms@ == "RMS level dB:"@,
            overall@ == "Overall"@,
            rms_scan(v@.skip(start as int), in_channel, views(out@)) == rms_scan(report@, false, Seq::empty()),
        decreases v.len() - start,
    {
        let (line, e) = line_from(&v, start);
        if find_chars(&line, &channel).is_some() {
            in_channel = true;
        } else if in_channel && find_chars(&line, &rms).is_some() {
            let value = colon_value_exec(&line);
            if float_text(&value) {
                let ghost before = views(out@);
                out.push(string_of(&value));
                assert(views(out@) =~= before.push(value@));
            }
        } else if find_chars(&line, &overall).is_some() {
            in_channel = false;
        }
        if e >= v.len() {
            return out;
        }
        start = e + 1;
    }
}

/// Reading the lines in turn: the phase texts of the lines that start with
/// "lavfi.aphasemeter.phase=" and whose value reads as a number, after
/// those in `acc`.
pub open spec fn phase_scan(s: Seq<char>, acc: Seq<Seq<char>>) -> Seq<Seq<char>>
    decreases s.len(),
{
    let e = line_end(s);
    let line = s.take(e as int);
    let pre = "lavfi.aphasemeter.phase="@;
    let next = if starts_with(line, pre) && is_float_text(trimmed(line.skip(pre.len() as int))) {
        acc.push(trimmed(line.skip(pre.len() as int)))
    } else {
        acc
    };
    if e >= s.len() {
        next
    } else {
        phase_scan(s.skip((e + 1) as int), next)
    }
}

/// The phase correlation texts printed by aphasemeter through ametadata.
pub fn phase_values(report: &str) -> (r: Vec<String>)
    ensures
        views(r@) == phase_scan(report@, Seq::empty()),
{
    let v = chars_of(report);
    let pre = chars_of("lavfi.aphasemeter.phase=");
    let mut out: Vec<String> = Vec::new();
    let mut start: usize = 0;
    assert(v@.skip(0) =~= v@);
    assert(views(out@) =~= Seq::<Seq<char>>::empty());
    loop
        invariant
            start <= v.len(),
            v@ == report@,
            pre@ == "lavfi.aphasemeter.phase="@,
            phase_scan(v@.skip(start as int), views(out@)) == phase_scan(report@, Seq::empty()),
        decreases v.len() - start,
    {
        let (line, e) = line_from(&v, start);
        if starts_with_exec(&line, "lavfi.aphasemeter.phase=") {
            let rest = slice_chars(&line, pre.len(), line.len());
            assert(rest@ =~= line@.skip(pre@.len() as int));
            let value = trim_chars(&rest);
            if float_text(&value) {
                let ghost before = views(out@);
                out.push(string_of(&value));
                assert(views(out@) =~= before.push(value@));
            }
        }
        if e >= v.len() {
            return out;
        }
        start = e + 1;
    }
}

/// Where the first `c` of `s` is, or its length.
pub open spec fn piece_end(s: Seq<char>, c: char) -> nat
    decreases s.len(),
{
    if s.len() == 0 {
        0
    } else if s[0] == c {
        0
    } else {
        1 + piece_end(s.drop_first(), c)
    }
}

/// The first `c` of `v` from `start`, or its length.
fn piece_end_from(v: &Vec<char>, start: usize, c: char) -> (e: usize)
    requires
        start <= v.len(),
    ensures
        start <= e <= v.len(),
        e - start == piece_end(v@.skip(start as int), c),
{
    let mut j = start;
    while j < v.len() && v[j] != c
        invariant
            start <= j <= v.len(),
            piece_end(v@.skip(start as int), c) == (j - start) + piece_end(v@.skip(j as int), c),
        decreases v.len() - j,
    {
        assert(v@.skip(j + 1) =~= v@.skip(j as int).drop_first());
        j += 1;
    }
    j
}

/// The hours, minutes and seconds texts of an ffmpeg clock time
/// ("HH:MM:SS.ffffff", surrounding whitespace ignored): the first three
/// ':'-separated pieces, each reading as a number; none for "N/A", an empty
/// text, fewer pieces, or a piece that isn't a number.
pub open spec fn clock_parts_of(s: Seq<char>) -> Option<(Seq<char>, Seq<char>, Seq<char>)> {
    let t = trimmed(s);
    let e1 = piece_end(t, ':');
    let r1 = t.skip((e1 + 1) as int);
    let e2 = piece_end(r1, ':');
    let r2 = r1.skip((e2 + 1) as int);
    let e3 = piece_end(r2, ':');
    let (h, m, sec) = (t.take(e1 as int), r1.take(e2 as int), r2.take(e3 as int));
    if t.len() == 0 || t == "N/A"@ || e1 >= t.len() || e2 >= r1.len() {
        None
    } else if is_float_text(h) && is_float_text(m) && is_float_text(sec) {
        Some((h, m, sec))
    } else {
        None
    }
}

/// The hours, minutes and seconds texts of an ffmpeg `out_time` value.
pub fn clock_parts(s: &str) -> (r: Option<(String, String, String)>)
    ensures
        match r {
            Some((h, m, sec)) => clock_parts_of(s@) == Some((h@, m@, sec@)),
            None => clock_parts_of(s@) is None,
        },
{
    let raw = chars_of(s);
    let t = trim_chars(&raw);
    let ts = string_of(&t);
    if t.len() == 0 || str_eq(ts.as_str(), "N/A") {
        return None;
    }
    assert(t@.skip(0) =~= t@);
    let e1 = piece_end_from(&t, 0, ':');
    if e1 >= t.len() {
        return None;
    }
    let e2 = piece_end_from(&t, e1 + 1, ':');
    if e2 >= t.len() {
        proof {
            assert(t@.skip(e1 + 1).len() == t@.len() - e1 - 1);
        }
        return None;
    }
    let e3 = piece_end_from(&t, e2 + 1, ':');
    let h = slice_chars(&t, 0, e1);
    let m = slice_chars(&t, e1 + 1, e2);
    let sec = slice_chars(&t, e2 + 1, e3);
    proof {
        let r1 = t@.skip(e1 + 1);
        let r2 = r1.skip((piece_end(r1, ':') + 1) as int);
        assert(t@.skip(e2 + 1) =~= r2);
        assert(h@ =~= t@.take(piece_end(t@, ':') as int));
        assert(m@ =~= r1.take(piece_end(r1, ':') as int));
        assert(sec@ =~= r2.take(piece_end(r2, ':') as int));
    }
    if float_text(&h) && float_text(&m) && float_text(&sec) {
        Some((string_of(&h), string_of(&m), string_of(&sec)))
    } else {
        None
    }
}

} // verus!
