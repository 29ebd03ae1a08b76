//! File Processing for the Audio Only page: fold-downs, fades and silence
//! trims, and the shaping stage of the multifunction chain. Each step writes
//! a new 24-bit WAV (originals are never touched).

use vstd::prelude::*;

use crate::channels::{beside_dir, dir_beside, layout_for_count, layout_for_count_of, stem_or, stem_or_default};
use crate::namer::thousandths_text;
use crate::text::{
    decimal, file_name_of, join, join_chars, join_path, path_file_name, path_has_prefix, path_join,
    path_starts_with, push_decimal, starts_with, starts_with_exec,
};
use crate::text::{chars_of, owned, push_arg, push_arg_chars, push_str, str_eq, string_of, views};

verus! {

/// ffmpeg's channel names of the layouts this app knows, in its order.
pub open spec fn known_layout_channels(layout: Seq<char>) -> Option<Seq<Seq<char>>> {
    if layout == "mono"@ {
        Some(seq!["FC"@])
    } else if layout == "stereo"@ {
        Some(seq!["FL"@, "FR"@])
    } else if layout == "2.1"@ {
        Some(seq!["FL"@, "FR"@, "LFE"@])
    } else if layout == "3.0"@ {
        Some(seq!["FL"@, "FR"@, "FC"@])
    } else if layout == "3.0(back)"@ {
        Some(seq!["FL"@, "FR"@, "BC"@])
    } else if layout == "3.1"@ {
        Some(seq!["FL"@, "FR"@, "FC"@, "LFE"@])
    } else if layout == "4.0"@ {
        Some(seq!["FL"@, "FR"@, "FC"@, "BC"@])
    } else if layout == "quad"@ {
        Some(seq!["FL"@, "FR"@, "BL"@, "BR"@])
    } else if layout == "quad(side)"@ {
        Some(seq!["FL"@, "FR"@, "SL"@, "SR"@])
    } else if layout == "4.1"@ {
        Some(seq!["FL"@, "FR"@, "FC"@, "LFE"@, "BC"@])
    } else if layout == "5.0"@ {
        Some(seq!["FL"@, "FR"@, "FC"@, "BL"@, "BR"@])
    } else if layout == "5.0(side)"@ {
        Some(seq!["FL"@, "FR"@, "FC"@, "SL"@, "SR"@])
    } else if layout == "5.1"@ {
        Some(seq!["FL"@, "FR"@, "FC"@, "LFE"@, "BL"@, "BR"@])
    } else if layout == "5.1(side)"@ {
        Some(seq!["FL"@, "FR"@, "FC"@, "LFE"@, "SL"@, "SR"@])
    } else if layout == "6.0"@ {
        Some(seq!["FL"@, "FR"@, "FC"@, "BC"@, "SL"@, "SR"@])
    } else if layout == "6.0(front)"@ {
        Some(seq!["FL"@, "FR"@, "FLC"@, "FRC"@, "SL"@, "SR"@])
    } else if layout == "hexagonal"@ {
        Some(seq!["FL"@, "FR"@, "FC"@, "BL"@, "BR"@, "BC"@])
    } else if layout == "6.1"@ {
        Some(seq!["FL"@, "FR"@, "FC"@, "LFE"@, "BC"@, "SL"@, "SR"@])
    } else if layout == "6.1(back)"@ {
        Some(seq!["FL"@, "FR"@, "FC"@, "LFE"@, "BL"@, "BR"@, "BC"@])
    } else if layout == "6.1(front)"@ {
        Some(seq!["FL"@, "FR"@, "LFE"@, "FLC"@, "FRC"@, "SL"@, "SR"@])
    } else if layout == "7.0"@ {
        Some(seq!["FL"@, "FR"@, "FC"@, "BL"@, "BR"@, "SL"@, "SR"@])
    } else if layout == "7.0(front)"@ {
        Some(seq!["FL"@, "FR"@, "FC"@, "FLC"@, "FRC"@, "SL"@, "SR"@])
    } else if layout == "7.1"@ {
        Some(seq!["FL"@, "FR"@, "FC"@, "LFE"@, "BL"@, "BR"@, "SL"@, "SR"@])
    } else if layout == "7.1(wide)"@ {
        Some(seq!["FL"@, "FR"@, "FC"@, "LFE"@, "BL"@, "BR"@, "FLC"@, "FRC"@])
    } else if layout == "7.1(wide-side)"@ {
        Some(seq!["FL"@, "FR"@, "FC"@, "LFE"@, "FLC"@, "FRC"@, "SL"@, "SR"@])
    } else if layout == "octagonal"@ {
        Some(seq!["FL"@, "FR"@, "FC"@, "BL"@, "BR"@, "BC"@, "SL"@, "SR"@])
    } else {
        None
    }
}

/// The channels of `layout` when the table holds it with `count` channels.
pub open spec fn table_channels(layout: Seq<char>, count: u32) -> Option<Seq<Seq<char>>> {
    match known_layout_channels(layout) {
        Some(ch) => if ch.len() == count {
            Some(ch)
        } else {
            None
        },
        None => None,
    }
}

/// ffmpeg's channel names for a layout: from the table when it has the
/// layout with `count` channels, else those of the standard layout for the
/// count, else none.
pub open spec fn layout_channels_of(layout: Seq<char>, count: u32) -> Seq<Seq<char>> {
    match table_channels(layout, count) {
        Some(ch) => ch,
        None => {
            let fallback = layout_for_count_of(count);
            if fallback == layout {
                Seq::empty()
            } else {
                match table_channels(fallback, count) {
                    Some(ch) => ch,
                    None => Seq::empty(),
                }
            }
        },
    }
}

fn known_layout_exec(layout: &str) -> (r: Option<Vec<&'static str>>)
    ensures
        match r {
            Some(v) => known_layout_channels(layout@) == Some(v@.map_values(|s: &str| s@)),
            None => known_layout_channels(layout@) is None,
        },
{
    let r: Option<Vec<&'static str>> =     if str_eq(layout, "mono") {
        Some(vec!["FC"])
    } else if str_eq(layout, "stereo") {
        Some(vec!["FL", "FR"])
    } else if str_eq(layout, "2.1") {
        Some(vec!["FL", "FR", "LFE"])
    } else if str_eq(layout, "3.0") {
        Some(vec!["FL", "FR", "FC"])
    } else if str_eq(layout, "3.0(back)") {
        Some(vec!["FL", "FR", "BC"])
    } else if str_eq(layout, "3.1") {
        Some(vec!["FL", "FR", "FC", "LFE"])
    } else if str_eq(layout, "4.0") {
        Some(vec!["FL", "FR", "FC", "BC"])
    } else if str_eq(layout, "quad") {
        Some(vec!["FL", "FR", "BL", "BR"])
    } else if str_eq(layout, "quad(side)") {
        Some(vec!["FL", "FR", "SL", "SR"])
    } else if str_eq(layout, "4.1") {
        Some(vec!["FL", "FR", "FC", "LFE", "BC"])
    } else if str_eq(layout, "5.0") {
        Some(vec!["FL", "FR", "FC", "BL", "BR"])
    } else if str_eq(layout, "5.0(side)") {
        Some(vec!["FL", "FR", "FC", "SL", "SR"])
    } else if str_eq(layout, "5.1") {
        Some(vec!["FL", "FR", "FC", "LFE", "BL", "BR"])
    } else if str_eq(layout, "5.1(side)") {
        Some(vec!["FL", "FR", "FC", "LFE", "SL", "SR"])
    } else if str_eq(layout, "6.0") {
        Some(vec!["FL", "FR", "FC", "BC", "SL", "SR"])
    } else if str_eq(layout, "6.0(front)") {
        Some(vec!["FL", "FR", "FLC", "FRC", "SL", "SR"])
    } else if str_eq(layout, "hexagonal") {
        Some(vec!["FL", "FR", "FC", "BL", "BR", "BC"])
    } else if str_eq(layout, "6.1") {
        Some(vec!["FL", "FR", "FC", "LFE", "BC", "SL", "SR"])
    } else if str_eq(layout, "6.1(back)") {
        Some(vec!["FL", "FR", "FC", "LFE", "BL", "BR", "BC"])
    } else if str_eq(layout, "6.1(front)") {
        Some(vec!["FL", "FR", "LFE", "FLC", "FRC", "SL", "SR"])
    } else if str_eq(layout, "7.0") {
        Some(vec!["FL", "FR", "FC", "BL", "BR", "SL", "SR"])
    } else if str_eq(layout, "7.0(front)") {
        Some(vec!["FL", "FR", "FC", "FLC", "FRC", "SL", "SR"])
    } else if str_eq(layout, "7.1") {
        Some(vec!["FL", "FR", "FC", "LFE", "BL", "BR", "SL", "SR"])
    } else if str_eq(layout, "7.1(wide)") {
        Some(vec!["FL", "FR", "FC", "LFE", "BL", "BR", "FLC", "FRC"])
    } else if str_eq(layout, "7.1(wide-side)") {
        Some(vec!["FL", "FR", "FC", "LFE", "FLC", "FRC", "SL", "SR"])
    } else if str_eq(layout, "octagonal") {
        Some(vec!["FL", "FR", "FC", "BL", "BR", "BC", "SL", "SR"])
    } else {
        None
    };
    proof {
        if r is Some {
            assert(known_layout_channels(layout@) =~= Some(r->0@.map_values(|s: &str| s@)));
        }
    }
    r
}

fn table_exec(layout: &str, count: u32) -> (r: Option<Vec<&'static str>>)
    ensures
        match r {
            Some(v) => table_channels(layout@, count) == Some(v@.map_values(|s: &str| s@)),
            None => table_channels(layout@, count) is None,
        },
{
    match known_layout_exec(layout) {
        Some(v) => if v.len() == count as usize {
            Some(v)
        } else {
            None
        },
        None => None,
    }
}

/// ffmpeg's channel names for a layout, in its channel order. Unknown layouts
/// fall back to the standard layout for the channel count.
pub fn layout_channels(layout: &str, count: u32) -> (r: Vec<&'static str>)
    ensures
        r@.map_values(|s: &str| s@) == layout_channels_of(layout@, count),
{
    match table_exec(layout, count) {
        Some(v) => v,
        None => {
            let fallback = layout_for_count(count);
            if str_eq(fallback, layout) {
                let r: Vec<&'static str> = Vec::new();
                assert(r@.map_values(|s: &str| s@) =~= Seq::<Seq<char>>::empty());
                r
            } else {
                match table_exec(fallback, count) {
                    Some(v) => v,
                    None => {
                        let r: Vec<&'static str> = Vec::new();
                        assert(r@.map_values(|s: &str| s@) =~= Seq::<Seq<char>>::empty());
                        r
                    },
                }
            }
        },
    }
}


/// Contribution of one source channel to a Lo/Ro stereo fold-down, in
/// thousandths: (left gain, right gain). ITU-style: centre and surrounds at
/// −3 dB (0.707), back centre at 0.5 to each side, LFE dropped.
pub open spec fn stereo_weights(ch: Seq<char>) -> (nat, nat) {
    if ch == "FL"@ {
        (1000, 0)
    } else if ch == "FR"@ {
        (0, 1000)
    } else if ch == "FC"@ {
        (707, 707)
    } else if ch == "BC"@ {
        (500, 500)
    } else if ch == "BL"@ || ch == "SL"@ || ch == "FLC"@ {
        (707, 0)
    } else if ch == "BR"@ || ch == "SR"@ || ch == "FRC"@ {
        (0, 707)
    } else {
        (0, 0)
    }
}

fn stereo_weights_exec(ch: &str) -> (r: (u32, u32))
    ensures
        r.0 as nat == stereo_weights(ch@).0,
        r.1 as nat == stereo_weights(ch@).1,
{
    if str_eq(ch, "FL") {
        (1000, 0)
    } else if str_eq(ch, "FR") {
        (0, 1000)
    } else if str_eq(ch, "FC") {
        (707, 707)
    } else if str_eq(ch, "BC") {
        (500, 500)
    } else if str_eq(ch, "BL") || str_eq(ch, "SL") || str_eq(ch, "FLC") {
        (707, 0)
    } else if str_eq(ch, "BR") || str_eq(ch, "SR") || str_eq(ch, "FRC") {
        (0, 707)
    } else {
        (0, 0)
    }
}

/// The terms of one side of a stereo fold: the channels with a gain on that
/// side, with that gain.
pub open spec fn side_terms(chans: Seq<Seq<char>>, right: bool) -> Seq<(nat, Seq<char>)>
    decreases chans.len(),
{
    if chans.len() == 0 {
        Seq::empty()
    } else {
        let rest = side_terms(chans.drop_last(), right);
        let w = stereo_weights(chans.last());
        let g = if right {
            w.1
        } else {
            w.0
        };
        if g > 0 {
            rest.push((g, chans.last()))
        } else {
            rest
        }
    }
}

/// The terms of a mono fold: each channel at the larger of its two gains,
/// when that is not zero.
pub open spec fn mono_terms(chans: Seq<Seq<char>>) -> Seq<(nat, Seq<char>)>
    decreases chans.len(),
{
    if chans.len() == 0 {
        Seq::empty()
    } else {
        let rest = mono_terms(chans.drop_last());
        let w = stereo_weights(chans.last());
        let g = if w.0 >= w.1 {
            w.0
        } else {
            w.1
        };
        if g > 0 {
            rest.push((g, chans.last()))
        } else {
            rest
        }
    }
}

/// One `pan` term: the channel alone at unity gain, else "<gain>*<channel>"
/// with the gain as `Display` prints it.
pub open spec fn term_text(t: (nat, Seq<char>)) -> Seq<char> {
    if t.0 == 1000 {
        t.1
    } else {
        thousandths_text(t.0) + "*"@ + t.1
    }
}

/// The terms of a `pan` output channel, joined with '+'.
pub open spec fn pan_text(terms: Seq<(nat, Seq<char>)>) -> Seq<char> {
    join(terms.map_values(|t: (nat, Seq<char>)| term_text(t)), "+"@)
}

/// The `pan` expression folding a layout to Lo/Ro stereo, or why not.
pub open spec fn fold_stereo_of(layout: Seq<char>, count: u32) -> Result<Seq<char>, Seq<char>> {
    let chans = layout_channels_of(layout, count);
    if chans.len() < 3 {
        Err(layout + " is already stereo or mono"@)
    } else {
        let l = side_terms(chans, false);
        let r = side_terms(chans, true);
        if l.len() == 0 || r.len() == 0 {
            Err("Don't know how to fold a "@ + layout + " file to stereo"@)
        } else {
            Ok("pan=stereo|FL="@ + pan_text(l) + "|FR="@ + pan_text(r))
        }
    }
}

/// The `pan` expression folding a layout to mono, or why not.
pub open spec fn fold_mono_of(layout: Seq<char>, count: u32) -> Result<Seq<char>, Seq<char>> {
    let chans = layout_channels_of(layout, count);
    if chans.len() < 2 {
        Err(layout + " is already mono"@)
    } else {
        Ok("pan=mono|FC<"@ + pan_text(mono_terms(chans)))
    }
}

/// A string result as characters.
pub open spec fn result_view(r: Result<String, String>) -> Result<Seq<char>, Seq<char>> {
    match r {
        Ok(s) => Ok(s@),
        Err(e) => Err(e@),
    }
}

/// The text of one term.
fn term_exec(g: u32, ch: &str) -> (r: Vec<char>)
    requires
        g <= 1000,
    ensures
        r@ == term_text((g as nat, ch@)),
{
    if g == 1000 {
        chars_of(ch)
    } else {
        let mut v: Vec<char> = Vec::new();
        crate::namer::push_thousandths(&mut v, g);
        push_str(&mut v, "*");
        push_str(&mut v, ch);
        v
    }
}

/// Channels, with their gains, that pass a filter, in order.
fn terms_exec(chans: &Vec<&'static str>, mode: u8) -> (r: Vec<Vec<char>>)
    requires
        mode <= 2,
    ensures
        r@.map_values(|p: Vec<char>| p@) == (if mode == 0 {
            side_terms(chans@.map_values(|s: &str| s@), false)
        } else if mode == 1 {
            side_terms(chans@.map_values(|s: &str| s@), true)
        } else {
            mono_terms(chans@.map_values(|s: &str| s@))
        }).map_values(|t: (nat, Seq<char>)| term_text(t)),
{
    let ghost cm = chans@.map_values(|s: &str| s@);
    let mut out: Vec<Vec<char>> = Vec::new();
    let mut i: usize = 0;
    while i < chans.len()
        invariant
            i <= chans.len(),
            mode <= 2,
            cm == chans@.map_values(|s: &str| s@),
            out@.map_values(|p: Vec<char>| p@) == (if mode == 0 {
                side_terms(cm.take(i as int), false)
            } else if mode == 1 {
                side_terms(cm.take(i as int), true)
            } else {
                mono_terms(cm.take(i as int))
            }).map_values(|t: (nat, Seq<char>)| term_text(t)),
        decreases chans.len() - i,
    {
        let ch = chans[i];
        let (l, r) = stereo_weights_exec(ch);
        let g = if mode == 0 {
            l
        } else if mode == 1 {
            r
        } else if l >= r {
            l
        } else {
            r
        };
        let ghost before = out@.map_values(|p: Vec<char>| p@);
        let ghost t = cm.take(i + 1);
        assert(t.drop_last() =~= cm.take(i as int));
        assert(t.last() == ch@);
        if g > 0 {
            let term = term_exec(g, ch);
            out.push(term);
            assert(out@.map_values(|p: Vec<char>| p@) =~= before.push(term@));
        }
        proof {
            let want = (if mode == 0 {
                side_terms(t, false)
            } else if mode == 1 {
                side_terms(t, true)
            } else {
                mono_terms(t)
            });
            let prev = (if mode == 0 {
                side_terms(cm.take(i as int), false)
            } else if mode == 1 {
                side_terms(cm.take(i as int), true)
            } else {
                mono_terms(cm.take(i as int))
            });
            if g > 0 {
                assert(want == prev.push((g as nat, ch@)));
                assert(want.map_values(|t: (nat, Seq<char>)| term_text(t)) =~= prev.map_values(
                    |t: (nat, Seq<char>)| term_text(t),
                ).push(term_text((g as nat, ch@))));
            } else {
                assert(want == prev);
            }
        }
        i += 1;
    }
    assert(cm.take(i as int) =~= cm);
    out
}

/// `pan` expression folding a multichannel layout to Lo/Ro stereo. Uses the
/// real ITU coefficients (no renormalising, so levels are honest); the chain
/// follows it with a limiter so a hot centre can't clip the sum.
pub fn fold_stereo_expr(layout: &str, count: u32) -> (r: Result<String, String>)
    ensures
        result_view(r) == fold_stereo_of(layout@, count),
{
    let chans = layout_channels(layout, count);
    if chans.len() < 3 {
        let mut e = chars_of(layout);
        push_str(&mut e, " is already stereo or mono");
        return Err(string_of(&e));
    }
    let left = terms_exec(&chans, 0);
    let right = terms_exec(&chans, 1);
    if left.len() == 0 || right.len() == 0 {
        let mut e = chars_of("Don't know how to fold a ");
        push_str(&mut e, layout);
        push_str(&mut e, " file to stereo");
        return Err(string_of(&e));
    }
    let mut v = chars_of("pan=stereo|FL=");
    let l = join_chars(&left, "+");
    crate::text::push_chars(&mut v, &l);
    push_str(&mut v, "|FR=");
    let r = join_chars(&right, "+");
    crate::text::push_chars(&mut v, &r);
    Ok(string_of(&v))
}

/// `pan` expression folding any layout to mono. Gains are renormalised (the
/// `<` form) so the sum can't clip: a dual-mono stereo file comes out at the
/// same level it went in at.
pub fn fold_mono_expr(layout: &str, count: u32) -> (r: Result<String, String>)
    ensures
        result_view(r) == fold_mono_of(layout@, count),
{
    let chans = layout_channels(layout, count);
    if chans.len() < 2 {
        let mut e = chars_of(layout);
        push_str(&mut e, " is already mono");
        return Err(string_of(&e));
    }
    let terms = terms_exec(&chans, 2);
    let mut v = chars_of("pan=mono|FC<");
    let t = join_chars(&terms, "+");
    crate::text::push_chars(&mut v, &t);
    Ok(string_of(&v))
}


/// Trim silence below `threshold` dB from the head and tail, keeping 10 ms
/// of it either side. The tail is done by reversing the file (`areverse`) so
/// a pause mid-programme can never be mistaken for the end.
pub open spec fn trim_expr_of(threshold: Seq<char>) -> Seq<char> {
    let sr = "silenceremove=start_periods=1:start_threshold="@ + threshold + "dB:start_silence=0.01"@;
    sr + ",areverse,"@ + sr + ",areverse"@
}

/// The silence-trim filter for a threshold (its text as `Display` prints the
/// dB value).
pub fn trim_expr(threshold_db: &str) -> (r: String)
    ensures
        r@ == trim_expr_of(threshold_db@),
{
    let mut sr = chars_of("silenceremove=start_periods=1:start_threshold=");
    push_str(&mut sr, threshold_db);
    push_str(&mut sr, "dB:start_silence=0.01");
    let mut v: Vec<char> = Vec::new();
    crate::text::push_chars(&mut v, &sr);
    push_str(&mut v, ",areverse,");
    crate::text::push_chars(&mut v, &sr);
    push_str(&mut v, ",areverse");
    string_of(&v)
}

/// One ffmpeg run: source → `-af` chain → 24-bit WAV.
pub open spec fn process_command_of(path: Seq<char>, output: Seq<char>, filter: Seq<char>) -> Seq<
    Seq<char>,
> {
    seq!["-y"@, "-i"@, path, "-vn"@, "-af"@, filter, "-c:a"@, "pcm_s24le"@, output]
}

/// One ffmpeg run: source → `-af` chain → 24-bit WAV.
pub fn build_process_command(path: &str, output: &str, filter: &str) -> (r: Vec<String>)
    ensures
        views(r@) == process_command_of(path@, output@, filter@),
{
    let mut args: Vec<String> = Vec::new();
    push_arg(&mut args, "-y");
    push_arg(&mut args, "-i");
    push_arg(&mut args, path);
    push_arg(&mut args, "-vn");
    push_arg(&mut args, "-af");
    push_arg(&mut args, filter);
    push_arg(&mut args, "-c:a");
    push_arg(&mut args, "pcm_s24le");
    push_arg(&mut args, output);
    assert(views(args@) =~= process_command_of(path@, output@, filter@));
    args
}

/// Output path beside the source: "<dir>/<stem>_<suffix>.wav".
pub open spec fn output_beside_of(path: Seq<char>, suffix: Seq<char>) -> Seq<char> {
    beside_dir(path) + "/"@ + stem_or(path, "audio"@) + "_"@ + suffix + ".wav"@
}

/// Output path beside the source: "<stem>_<suffix>.wav".
pub fn output_beside(path: &str, suffix: &str) -> (r: String)
    ensures
        r@ == output_beside_of(path@, suffix@),
{
    let dir = dir_beside(path);
    let stem = stem_or_default(path, "audio");
    let mut v = chars_of(dir.as_str());
    push_str(&mut v, "/");
    push_str(&mut v, stem.as_str());
    push_str(&mut v, "_");
    push_str(&mut v, suffix);
    push_str(&mut v, ".wav");
    string_of(&v)
}

/// The filter and output suffix of a processing op, or why it can't run.
/// `fade` is the fade filter (its times computed from the file's duration)
/// and `threshold` the trim threshold's text.
pub open spec fn process_filter_of(
    op: Seq<char>,
    layout: Seq<char>,
    channels: u32,
    fade: Seq<char>,
    threshold: Seq<char>,
) -> Result<(Seq<char>, Seq<char>), Seq<char>> {
    if op == "fold_stereo"@ {
        match fold_stereo_of(layout, channels) {
            Ok(e) => Ok((e + ",alimiter=limit=0.98:level=false"@, "stereo"@)),
            Err(e) => Err(e),
        }
    } else if op == "fold_mono"@ {
        match fold_mono_of(layout, channels) {
            Ok(e) => Ok((e, "mono"@)),
            Err(e) => Err(e),
        }
    } else if op == "fade"@ {
        Ok((fade, "faded"@))
    } else if op == "trim"@ {
        Ok((trim_expr_of(threshold), "trimmed"@))
    } else {
        Err("Unknown processing op: "@ + op)
    }
}

/// A processing run: the file it writes and the ffmpeg arguments.
pub struct ProcessPlan {
    pub output: String,
    pub args: Vec<String>,
}

/// An optional string as characters.
pub open spec fn opt_str_view(o: Option<&str>) -> Option<Seq<char>> {
    match o {
        Some(s) => Some(s@),
        None => None,
    }
}

/// Plan one processing op on a file: `op` is one of "fold_stereo",
/// "fold_mono", "fade" or "trim". The output goes to `output` when given,
/// else beside the source as "<stem>_<suffix>.wav".
pub fn process_audio_to(
    op: &str,
    path: &str,
    layout: Option<&str>,
    channels: u32,
    fade_filter: &str,
    threshold_db: &str,
    output: Option<&str>,
) -> (r: Result<ProcessPlan, String>)
    ensures
        ({
            let f = process_filter_of(
                op@,
                crate::channels::effective_layout(opt_str_view(layout), channels),
                channels,
                fade_filter@,
                threshold_db@,
            );
            &&& (r is Err <==> f is Err)
            &&& r matches Err(e) ==> f == Err::<(Seq<char>, Seq<char>), Seq<char>>(e@)
            &&& r matches Ok(plan) ==> {
                let out = match output {
                    Some(o) => o@,
                    None => output_beside_of(path@, f->Ok_0.1),
                };
                &&& plan.output@ == out
                &&& views(plan.args@) == process_command_of(path@, out, f->Ok_0.0)
            }
        }),
{
    let l = crate::channels::choose_layout(layout, channels);
    let ghost f = process_filter_of(op@, l@, channels, fade_filter@, threshold_db@);
    let filter: String;
    let suffix: &str;
    if str_eq(op, "fold_stereo") {
        match fold_stereo_expr(l.as_str(), channels) {
            Ok(e) => {
                let mut v = chars_of(e.as_str());
                push_str(&mut v, ",alimiter=limit=0.98:level=false");
                filter = string_of(&v);
                suffix = "stereo";
            },
            Err(e) => {
                return Err(e);
            },
        }
    } else if str_eq(op, "fold_mono") {
        match fold_mono_expr(l.as_str(), channels) {
            Ok(e) => {
                filter = e;
                suffix = "mono";
            },
            Err(e) => {
                return Err(e);
            },
        }
    } else if str_eq(op, "fade") {
        filter = owned(fade_filter);
        suffix = "faded";
    } else if str_eq(op, "trim") {
        filter = trim_expr(threshold_db);
        suffix = "trimmed";
    } else {
        let mut e = chars_of("Unknown processing op: ");
        push_str(&mut e, op);
        return Err(string_of(&e));
    }
    assert(f is Ok && f->Ok_0.0 == filter@ && f->Ok_0.1 == suffix@);
    let out = match output {
        Some(o) => owned(o),
        None => output_beside(path, suffix),
    };
    let args = build_process_command(path, out.as_str(), filter.as_str());
    Ok(ProcessPlan { output: out, args })
}

/// Plan one processing op, writing the new file beside the source.
pub fn process_audio(
    op: &str,
    path: &str,
    layout: Option<&str>,
    channels: u32,
    fade_filter: &str,
    threshold_db: &str,
) -> (r: Result<ProcessPlan, String>)
    ensures
        ({
            let f = process_filter_of(
                op@,
                crate::channels::effective_layout(opt_str_view(layout), channels),
                channels,
                fade_filter@,
                threshold_db@,
            );
            &&& (r is Err <==> f is Err)
            &&& r matches Err(e) ==> f == Err::<(Seq<char>, Seq<char>), Seq<char>>(e@)
            &&& r matches Ok(plan) ==> {
                &&& plan.output@ == output_beside_of(path@, f->Ok_0.1)
                &&& views(plan.args@) == process_command_of(path@, plan.output@, f->Ok_0.0)
            }
        }),
{
    process_audio_to(op, path, layout, channels, fade_filter, threshold_db, None)
}

/// Does a shaping op make sense on a file with `channels` channels?
pub open spec fn op_applies_of(kind: Seq<char>, channels: u32) -> bool {
    if kind == "fold_stereo"@ {
        channels >= 3
    } else if kind == "fold_mono"@ || kind == "split"@ {
        channels >= 2
    } else {
        true
    }
}

/// Does this op make sense on a file with `channels` channels?
pub fn op_applies(kind: &str, channels: u32) -> (r: bool)
    ensures
        r == op_applies_of(kind@, channels),
{
    if str_eq(kind, "fold_stereo") {
        channels >= 3
    } else if str_eq(kind, "fold_mono") || str_eq(kind, "split") {
        channels >= 2
    } else {
        true
    }
}

/// What the shaping stage did: the file(s) to carry on with, and which steps
/// actually ran — a fold-to-stereo on a stereo file, or a split on a mono
/// file, is skipped quietly rather than failing the run.
#[derive(Debug, Clone, Default)]
pub struct ShapeResult {
    pub files: Vec<String>,
    pub applied: Vec<String>,
    pub skipped: Vec<String>,
}

/// A shaping result as plain values: files, applied steps, skipped steps.
pub open spec fn shape_result_view(r: ShapeResult) -> (Seq<Seq<char>>, Seq<Seq<char>>, Seq<Seq<char>>) {
    (views(r.files@), views(r.applied@), views(r.skipped@))
}

/// Where the shaping stage of one file stands.
pub struct Shaping {
    /// The source's stem ("audio" when it has none): every step's output
    /// keeps it, so the final name never picks up "_faded" or the like.
    pub stem: String,
    pub work_dir: String,
    /// How many of the ops have been dealt with.
    pub next: usize,
    /// The file the next step reads.
    pub current: String,
    /// A split was asked for; it runs after every other step.
    pub split_pending: bool,
    pub result: ShapeResult,
}

/// What the shaping stage needs done next.
pub enum ShapeAction {
    /// Inspect the state's current file and hand its channel count to
    /// `shape_inspected`.
    Inspect,
    /// Create `dir`, run op `kind` on `input` writing `output`, then
    /// inspect `output` (the state's current file now) and hand its channel
    /// count to `shape_inspected`.
    Process { kind: String, input: String, dir: String, output: String },
    /// Create `dir`, split `input` into mono files there and hand them to
    /// `shape_split`.
    Split { input: String, dir: String },
    /// Finished: the state's result is final.
    Done,
}

/// The folder of step `k` (counting from 1): "<work_dir>/step<k>".
pub open spec fn step_dir_of(work_dir: Seq<char>, k: nat) -> Seq<char> {
    path_join(work_dir, "step"@ + decimal(k))
}

/// Step `k`'s output: "<stem>.wav" in its folder.
pub open spec fn step_output_of(work_dir: Seq<char>, k: nat, stem: Seq<char>) -> Seq<char> {
    path_join(step_dir_of(work_dir, k), stem + ".wav"@)
}

/// From op `i` on, on a file with `ch` channels: pass over the ops that do
/// not apply (adding them to `skipped`) and the split (noting it as
/// pending) up to the next op to run. Gives that op's index (the number of
/// ops when none is left), the skipped ops and whether a split is pending.
pub open spec fn scan_ops(ops: Seq<Seq<char>>, i: nat, ch: u32, skipped: Seq<Seq<char>>, pending: bool) -> (
    nat,
    Seq<Seq<char>>,
    bool,
)
    decreases ops.len() - i,
{
    if i >= ops.len() {
        (i, skipped, pending)
    } else if !op_applies_of(ops[i as int], ch) {
        scan_ops(ops, i + 1, ch, skipped.push(ops[i as int]), pending)
    } else if ops[i as int] == "split"@ {
        scan_ops(ops, i + 1, ch, skipped, true)
    } else {
        (i, skipped, pending)
    }
}

/// Start shaping `path` with the ops `ops` (each "fold_stereo",
/// "fold_mono", "trim", "fade" or "split"), in order, under `work_dir`.
/// With no ops the source itself is the result, untouched; otherwise the
/// source is inspected first.
pub fn shape_start(path: &str, ops: &Vec<String>, work_dir: &str) -> (r: (Shaping, ShapeAction))
    ensures
        shape_result_view(r.0.result) == (seq![path@], Seq::<Seq<char>>::empty(), Seq::<Seq<char>>::empty()),
        ops.len() == 0 ==> r.1 is Done,
        ops.len() > 0 ==> {
            &&& r.1 is Inspect
            &&& r.0.stem@ == stem_or(path@, "audio"@)
            &&& r.0.work_dir@ == work_dir@
            &&& r.0.next == 0
            &&& r.0.current@ == path@
            &&& !r.0.split_pending
        },
{
    let mut files: Vec<String> = Vec::new();
    push_arg(&mut files, path);
    let result = ShapeResult { files, applied: Vec::new(), skipped: Vec::new() };
    assert(views(result.files@) =~= seq![path@]);
    assert(views(result.applied@) =~= Seq::<Seq<char>>::empty());
    let state = Shaping {
        stem: stem_or_default(path, "audio"),
        work_dir: owned(work_dir),
        next: 0,
        current: owned(path),
        split_pending: false,
        result,
    };
    if ops.len() == 0 {
        (state, ShapeAction::Done)
    } else {
        (state, ShapeAction::Inspect)
    }
}

/// The current file has `channels` channels (none when unknown, taken as
/// one). Skips the ops that do not apply from `state.next` on, notes a
/// split for the end, and either runs the next op — into step folder
/// "step<k>" (k its position counting from 1) as "<stem>.wav" — or, when
/// none is left, ends with the current file: split into a "split" folder
/// when one is pending and the file has two channels or more, else done
/// (a pending split on a mono file is skipped).
pub fn shape_inspected(state: Shaping, ops: &Vec<String>, channels: Option<u32>) -> (r: (Shaping, ShapeAction))
    ensures
        ({
            let ch: u32 = match channels {
                Some(c) => c,
                None => 1,
            };
            let sc = scan_ops(views(ops@), state.next as nat, ch, views(state.result.skipped@), state.split_pending);
            let j = sc.0;
            &&& r.0.stem@ == state.stem@
            &&& r.0.work_dir@ == state.work_dir@
            &&& r.0.next <= ops.len()
            &&& j < ops.len() ==> {
                &&& r.1 matches ShapeAction::Process { kind, input, dir, output } && {
                    &&& kind@ == ops@[j as int]@
                    &&& input@ == state.current@
                    &&& dir@ == step_dir_of(state.work_dir@, j + 1)
                    &&& output@ == step_output_of(state.work_dir@, j + 1, state.stem@)
                }
                &&& r.0.next == j + 1
                &&& r.0.current@ == step_output_of(state.work_dir@, j + 1, state.stem@)
                &&& r.0.split_pending == sc.2
                &&& shape_result_view(r.0.result) == (
                    views(state.result.files@),
                    views(state.result.applied@).push(ops@[j as int]@),
                    sc.1,
                )
            }
            &&& j >= ops.len() ==> {
                &&& r.0.next == ops.len()
                &&& r.0.current@ == state.current@
                &&& (sc.2 && ch >= 2) ==> {
                    &&& r.1 matches ShapeAction::Split { input, dir } && input@ == state.current@ && dir@
                        == path_join(state.work_dir@, "split"@)
                    &&& shape_result_view(r.0.result) == (seq![state.current@], views(state.result.applied@), sc.1)
                }
                &&& !(sc.2 && ch >= 2) ==> {
                    &&& r.1 is Done
                    &&& shape_result_view(r.0.result) == (
                        seq![state.current@],
                        views(state.result.applied@),
                        if sc.2 {
                            sc.1.push("split"@)
                        } else {
                            sc.1
                        },
                    )
                }
            }
        }),
{
    let ch: u32 = match channels {
        Some(c) => c,
        None => 1,
    };
    let mut st = state;
    let ghost target = scan_ops(views(ops@), st.next as nat, ch, views(st.result.skipped@), st.split_pending);
    let ghost applied0 = views(st.result.applied@);
    let ghost files0 = views(st.result.files@);
    let ghost cur0 = st.current@;
    let mut i = st.next;
    while i < ops.len()
        invariant
            st.next <= i,
            i <= ops.len() || i == st.next,
            ch == match channels {
                Some(c) => c,
                None => 1u32,
            },
            target == scan_ops(
                views(ops@),
                state.next as nat,
                ch,
                views(state.result.skipped@),
                state.split_pending,
            ),
            applied0 == views(state.result.applied@),
            files0 == views(state.result.files@),
            cur0 == state.current@,
            scan_ops(views(ops@), i as nat, ch, views(st.result.skipped@), st.split_pending) == target,
            views(st.result.applied@) == applied0,
            views(st.result.files@) == files0,
            st.current@ == cur0,
            st.stem@ == state.stem@,
            st.work_dir@ == state.work_dir@,
        decreases ops.len() - i,
    {
        let kind = &ops[i];
        if !op_applies(kind.as_str(), ch) {
            let ghost sk = views(st.result.skipped@);
            st.result.skipped.push(owned(kind.as_str()));
            assert(views(st.result.skipped@) =~= sk.push(views(ops@)[i as int]));
            i += 1;
        } else if str_eq(kind.as_str(), "split") {
            st.split_pending = true;
            i += 1;
        } else {
            let mut name = chars_of("step");
            push_decimal(&mut name, (i as u64) + 1);
            let sname = string_of(&name);
            let dir = join_path(st.work_dir.as_str(), sname.as_str());
            let mut file = chars_of(st.stem.as_str());
            push_str(&mut file, ".wav");
            let sfile = string_of(&file);
            let output = join_path(dir.as_str(), sfile.as_str());
            let input = owned(st.current.as_str());
            st.current = owned(output.as_str());
            let ghost ap = views(st.result.applied@);
            st.result.applied.push(owned(kind.as_str()));
            st.next = i + 1;
            proof {
                assert(views(ops@)[i as int] == kind@);
                assert(target == (i as nat, views(st.result.skipped@), st.split_pending));
                assert(views(st.result.applied@) =~= ap.push(kind@));
                assert(name@ == "step"@ + decimal((i + 1) as nat));
                assert(file@ == st.stem@ + ".wav"@);
            }
            return (st, ShapeAction::Process { kind: owned(kind.as_str()), input, dir, output });
        }
    }
    st.next = ops.len();
    let mut files: Vec<String> = Vec::new();
    push_arg(&mut files, st.current.as_str());
    st.result.files = files;
    if st.split_pending {
        if ch < 2 {
            push_arg(&mut st.result.skipped, "split");
            (st, ShapeAction::Done)
        } else {
            let input = owned(st.current.as_str());
            let dir = join_path(st.work_dir.as_str(), "split");
            (st, ShapeAction::Split { input, dir })
        }
    } else {
        (st, ShapeAction::Done)
    }
}

/// The split wrote `files`: they are the result, and the split has run.
pub fn shape_split(state: Shaping, files: Vec<String>) -> (r: Shaping)
    ensures
        shape_result_view(r.result) == (
            views(files@),
            views(state.result.applied@).push("split"@),
            views(state.result.skipped@),
        ),
        r.current@ == state.current@,
        r.next == state.next,
{
    let mut st = state;
    st.result.files = files;
    push_arg(&mut st.result.applied, "split");
    st
}

/// A path separator ('/', or '\\' as Windows also takes).
pub open spec fn is_separator(c: char) -> bool {
    c == '/' || c == '\\'
}

/// The part of `p` after its last separator (all of `p` when it has none).
pub open spec fn current_part(p: Seq<char>) -> Seq<char>
    decreases p.len(),
{
    if p.len() == 0 || is_separator(p.last()) {
        Seq::empty()
    } else {
        current_part(p.drop_last()).push(p.last())
    }
}

/// The parts of `p` ended by a separator, in order (empty ones included).
pub open spec fn finished_parts(p: Seq<char>) -> Seq<Seq<char>>
    decreases p.len(),
{
    if p.len() == 0 {
        Seq::empty()
    } else if is_separator(p.last()) {
        finished_parts(p.drop_last()).push(current_part(p.drop_last()))
    } else {
        finished_parts(p.drop_last())
    }
}

/// The parts of `p` between separators, in order (empty ones included).
pub open spec fn path_parts(p: Seq<char>) -> Seq<Seq<char>> {
    finished_parts(p).push(current_part(p))
}

/// The components left once ".." steps are resolved, without touching the
/// disk: empty and "." parts are dropped, and ".." takes back the component
/// before it; with nothing to take back it is dropped at the root of a
/// rooted path and kept in a relative one.
pub open spec fn resolve_parts(ps: Seq<Seq<char>>, rooted: bool) -> Seq<Seq<char>>
    decreases ps.len(),
{
    if ps.len() == 0 {
        Seq::empty()
    } else {
        let r = resolve_parts(ps.drop_last(), rooted);
        let c = ps.last();
        if c.len() == 0 || c == "."@ {
            r
        } else if c == ".."@ {
            if r.len() > 0 && r.last() != ".."@ {
                r.drop_last()
            } else if rooted {
                r
            } else {
                r.push(c)
            }
        } else {
            r.push(c)
        }
    }
}

/// Does `p` start at the root (with a separator)?
pub open spec fn is_rooted(p: Seq<char>) -> bool {
    p.len() > 0 && is_separator(p[0])
}

/// `p` with its ".." steps resolved: "/" for a rooted path, then the
/// remaining components joined with "/".
pub open spec fn resolved_path(p: Seq<char>) -> Seq<char> {
    (if is_rooted(p) {
        "/"@
    } else {
        Seq::empty()
    }) + join(resolve_parts(path_parts(p), is_rooted(p)), "/"@)
}

/// Is `path` one of the chain's work folders: named "laybacker-chain-…",
/// and, once its ".." steps are resolved, inside the system's temporary
/// folder `temp_dir`?
pub open spec fn is_chain_workdir(path: Seq<char>, temp_dir: Seq<char>) -> bool {
    let name = match path_file_name(path) {
        Some(n) => n,
        None => Seq::empty(),
    };
    &&& starts_with(name, "laybacker-chain-"@)
    &&& path_has_prefix(resolved_path(path), temp_dir)
}

/// The views of a list of character vectors.
pub open spec fn part_views(v: Seq<Vec<char>>) -> Seq<Seq<char>> {
    v.map_values(|x: Vec<char>| x@)
}

/// Is `v` "." (`n` = 1) or ".." (`n` = 2)?
fn is_dots(v: &Vec<char>, n: usize) -> (r: bool)
    requires
        n == 1 || n == 2,
    ensures
        r == (v@ == (if n == 1 {
            "."@
        } else {
            ".."@
        })),
{
    proof {
        reveal_strlit(".");
        reveal_strlit("..");
    }
    if v.len() != n {
        return false;
    }
    let r = v[0] == '.' && (n == 1 || v[1] == '.');
    proof {
        if r {
            if n == 1 {
                assert(v@ =~= "."@);
            } else {
                assert(v@ =~= ".."@);
            }
        }
    }
    r
}

/// `path` with its ".." steps resolved without touching the disk:
/// "/tmp/a/../b" is "/tmp/b".
pub fn resolve_parent_steps(path: &str) -> (r: String)
    ensures
        r@ == resolved_path(path@),
{
    let v = chars_of(path);
    // Split into parts.
    let mut done: Vec<Vec<char>> = Vec::new();
    let mut cur: Vec<char> = Vec::new();
    let mut i: usize = 0;
    while i < v.len()
        invariant
            i <= v.len(),
            part_views(done@) == finished_parts(v@.take(i as int)),
            cur@ == current_part(v@.take(i as int)),
        decreases v.len() - i,
    {
        let c = v[i];
        assert(v@.take(i + 1).drop_last() =~= v@.take(i as int));
        assert(v@.take(i + 1).last() == c);
        if c == '/' || c == '\\' {
            let ghost before = part_views(done@);
            done.push(cur);
            assert(part_views(done@) =~= before.push(current_part(v@.take(i as int))));
            cur = Vec::new();
            assert(cur@ =~= current_part(v@.take(i + 1)));
        } else {
            cur.push(c);
        }
        i += 1;
    }
    assert(v@.take(v.len() as int) =~= v@);
    let ghost before = part_views(done@);
    done.push(cur);
    assert(part_views(done@) =~= path_parts(v@));
    let rooted = v.len() > 0 && (v[0] == '/' || v[0] == '\\');
    let ghost ps = path_parts(v@);
    // Resolve the ".." steps.
    let mut stack: Vec<Vec<char>> = Vec::new();
    let mut j: usize = 0;
    while j < done.len()
        invariant
            j <= done.len(),
            part_views(done@) == ps,
            rooted == is_rooted(v@),
            part_views(stack@) == resolve_parts(ps.take(j as int), rooted),
        decreases done.len() - j,
    {
        assert(ps.take(j + 1).drop_last() =~= ps.take(j as int));
        assert(ps.take(j + 1).last() == done[j as int]@);
        let ghost r = part_views(stack@);
        let part = crate::text::slice_chars(&done[j], 0, done[j].len());
        assert(part@ =~= done[j as int]@);
        if part.len() == 0 || is_dots(&part, 1) {
        } else if is_dots(&part, 2) {
            let n = stack.len();
            if n > 0 && !is_dots(&stack[n - 1], 2) {
                assert(r.last() == stack[n - 1]@);
                stack.pop();
                assert(part_views(stack@) =~= r.drop_last());
            } else if !rooted {
                stack.push(part);
                assert(part_views(stack@) =~= r.push(done[j as int]@));
            }
        } else {
            stack.push(part);
            assert(part_views(stack@) =~= r.push(done[j as int]@));
        }
        j += 1;
    }
    assert(ps.take(done.len() as int) =~= ps);
    let mut out: Vec<char> = if rooted {
        chars_of("/")
    } else {
        Vec::new()
    };
    proof {
        reveal_strlit("/");
    }
    let joined = join_chars(&stack, "/");
    assert(stack@.map_values(|p: Vec<char>| p@) == part_views(stack@));
    crate::text::push_chars(&mut out, &joined);
    assert(out@ =~= resolved_path(path@));
    string_of(&out)
}

/// Before a work folder is removed: refuse anything that isn't one of the
/// chain's own ("Not a Laybacker work folder").
pub fn check_workdir(path: &str, temp_dir: &str) -> (r: Result<(), String>)
    ensures
        r is Ok <==> is_chain_workdir(path@, temp_dir@),
        r matches Err(e) ==> e@ == "Not a Laybacker work folder"@,
{
    let name = match file_name_of(path) {
        Some(n) => chars_of(n.as_str()),
        None => Vec::new(),
    };
    let resolved = resolve_parent_steps(path);
    if !starts_with_exec(&name, "laybacker-chain-") || !path_starts_with(resolved.as_str(), temp_dir) {
        return Err(owned("Not a Laybacker work folder"));
    }
    Ok(())
}

// ── Laws of the fold ───────────────────────────────────────────────────────

/// Is `c` one of the speakers ffmpeg's layouts in the table name?
pub open spec fn is_table_speaker(c: Seq<char>) -> bool {
    c == "FL"@ || c == "FR"@ || c == "FC"@ || c == "LFE"@ || c == "BC"@ || c == "BL"@ || c == "BR"@
        || c == "SL"@ || c == "SR"@ || c == "FLC"@ || c == "FRC"@
}

/// Every channel of a layout in the table is one of its speakers.
proof fn lemma_table_speakers(layout: Seq<char>, i: int)
    requires
        known_layout_channels(layout) is Some,
        0 <= i < known_layout_channels(layout).unwrap().len(),
    ensures
        is_table_speaker(known_layout_channels(layout).unwrap()[i]),
{
}

/// The gain a channel gets on one side of the fold.
pub open spec fn side_gain(ch: Seq<char>, right: bool) -> nat {
    if right {
        stereo_weights(ch).1
    } else {
        stereo_weights(ch).0
    }
}

/// A channel with a gain on a side is among that side's terms, at that gain.
proof fn lemma_side_terms_has(chans: Seq<Seq<char>>, right: bool, i: int)
    requires
        0 <= i < chans.len(),
        side_gain(chans[i], right) > 0,
    ensures
        exists|k: int|
            0 <= k < side_terms(chans, right).len() && #[trigger] side_terms(chans, right)[k] == (
                side_gain(chans[i], right),
                chans[i],
            ),
    decreases chans.len(),
{
    let rest = side_terms(chans.drop_last(), right);
    if i == chans.len() - 1 {
        assert(side_terms(chans, right)[rest.len() as int] == (side_gain(chans[i], right), chans[i]));
    } else {
        lemma_side_terms_has(chans.drop_last(), right, i);
        let k = choose|k: int|
            0 <= k < rest.len() && #[trigger] rest[k] == (
                side_gain(chans.drop_last()[i], right),
                chans.drop_last()[i],
            );
        assert(side_terms(chans, right)[k] == rest[k]);
    }
}

/// A channel with a gain on either side is among the mono fold's terms, at
/// the larger of its gains.
proof fn lemma_mono_terms_has(chans: Seq<Seq<char>>, i: int)
    requires
        0 <= i < chans.len(),
        stereo_weights(chans[i]).0 + stereo_weights(chans[i]).1 > 0,
    ensures
        exists|k: int|
            0 <= k < mono_terms(chans).len() && #[trigger] mono_terms(chans)[k] == (
                if stereo_weights(chans[i]).0 >= stereo_weights(chans[i]).1 {
                    stereo_weights(chans[i]).0
                } else {
                    stereo_weights(chans[i]).1
                },
                chans[i],
            ),
    decreases chans.len(),
{
    let rest = mono_terms(chans.drop_last());
    if i == chans.len() - 1 {
        assert(mono_terms(chans)[rest.len() as int].1 == chans[i]);
    } else {
        lemma_mono_terms_has(chans.drop_last(), i);
        let w = stereo_weights(chans[i]);
        let g = if w.0 >= w.1 {
            w.0
        } else {
            w.1
        };
        let k = choose|k: int| 0 <= k < rest.len() && #[trigger] rest[k] == (g, chans.drop_last()[i]);
        assert(mono_terms(chans)[k] == rest[k]);
    }
}

/// Folding a known layout keeps every speaker but the LFE: each other
/// channel has a gain above zero on the left or the right, enters that side
/// of the stereo fold at that gain, and enters the mono fold.
pub proof fn lemma_fold_keeps_every_channel(layout: Seq<char>, count: u32, i: int)
    requires
        table_channels(layout, count) is Some,
        0 <= i < count,
        layout_channels_of(layout, count)[i] != "LFE"@,
    ensures
        ({
            let chans = layout_channels_of(layout, count);
            let c = chans[i];
            &&& stereo_weights(c).0 > 0 || stereo_weights(c).1 > 0
            &&& stereo_weights(c).0 > 0 ==> exists|k: int|
                0 <= k < side_terms(chans, false).len() && #[trigger] side_terms(chans, false)[k] == (
                    stereo_weights(c).0,
                    c,
                )
            &&& stereo_weights(c).1 > 0 ==> exists|k: int|
                0 <= k < side_terms(chans, true).len() && #[trigger] side_terms(chans, true)[k] == (
                    stereo_weights(c).1,
                    c,
                )
            &&& exists|k: int| 0 <= k < mono_terms(chans).len() && #[trigger] mono_terms(chans)[k].1 == c
        }),
{
    let chans = layout_channels_of(layout, count);
    assert(chans == known_layout_channels(layout).unwrap());
    lemma_table_speakers(layout, i);
    crate::channels::lemma_speaker_names_differ();
    let c = chans[i];
    assert(stereo_weights(c).0 > 0 || stereo_weights(c).1 > 0);
    if stereo_weights(c).0 > 0 {
        lemma_side_terms_has(chans, false, i);
    }
    if stereo_weights(c).1 > 0 {
        lemma_side_terms_has(chans, true, i);
    }
    lemma_mono_terms_has(chans, i);
    let w = stereo_weights(c);
    let g = if w.0 >= w.1 {
        w.0
    } else {
        w.1
    };
    let k = choose|k: int| 0 <= k < mono_terms(chans).len() && #[trigger] mono_terms(chans)[k] == (g, c);
    assert(mono_terms(chans)[k].1 == c);
}

/// The back centre is split evenly: it enters both sides of the stereo
/// fold at half gain (0.5), and the mono fold at 0.5.
pub proof fn lemma_back_centre_half_each_side(chans: Seq<Seq<char>>, i: int)
    requires
        0 <= i < chans.len(),
        chans[i] == "BC"@,
    ensures
        exists|k: int|
            0 <= k < side_terms(chans, false).len() && #[trigger] side_terms(chans, false)[k] == (
                500nat,
                "BC"@,
            ),
        exists|k: int|
            0 <= k < side_terms(chans, true).len() && #[trigger] side_terms(chans, true)[k] == (
                500nat,
                "BC"@,
            ),
        exists|k: int| 0 <= k < mono_terms(chans).len() && #[trigger] mono_terms(chans)[k] == (500nat, "BC"@),
{
    crate::channels::lemma_speaker_names_differ();
    assert(stereo_weights("BC"@) == (500nat, 500nat));
    lemma_side_terms_has(chans, false, i);
    lemma_side_terms_has(chans, true, i);
    lemma_mono_terms_has(chans, i);
}

/// The speaker mirroring `c` left for right: FL/FR, BL/BR, SL/SR, FLC/FRC;
/// a centre speaker (and the LFE) mirrors itself.
pub open spec fn mirror_speaker(c: Seq<char>) -> Seq<char> {
    if c == "FL"@ {
        "FR"@
    } else if c == "FR"@ {
        "FL"@
    } else if c == "BL"@ {
        "BR"@
    } else if c == "BR"@ {
        "BL"@
    } else if c == "SL"@ {
        "SR"@
    } else if c == "SR"@ {
        "SL"@
    } else if c == "FLC"@ {
        "FRC"@
    } else if c == "FRC"@ {
        "FLC"@
    } else {
        c
    }
}

/// The stereo fold is left–right symmetric: a speaker's mirror image gets
/// its gains with the sides swapped, so a centre speaker feeds both sides
/// equally.
pub proof fn lemma_fold_is_symmetric(c: Seq<char>)
    requires
        is_table_speaker(c),
    ensures
        stereo_weights(mirror_speaker(c)) == (stereo_weights(c).1, stereo_weights(c).0),
        mirror_speaker(c) == c ==> stereo_weights(c).0 == stereo_weights(c).1,
{
    crate::channels::lemma_speaker_names_differ();
}
} // verus!
