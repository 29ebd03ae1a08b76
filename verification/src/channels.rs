//! Channel tools for the Audio Only page: channel naming, and the ffmpeg
//! commands that split a multichannel file into mono stems or join mono
//! stems into one file.

use vstd::prelude::*;

use crate::text::{
    chars_of, decimal, file_stem_of, parent_of, path_file_stem, path_parent, push_arg,
    push_arg_chars, push_decimal, push_str, str_eq, views,
};

verus! {

/// ffmpeg's own layout name for a channel count.
pub open spec fn layout_for_count_of(count: u32) -> Seq<char> {
    if count == 1 {
        "mono"@
    } else if count == 2 {
        "stereo"@
    } else if count == 3 {
        "2.1"@
    } else if count == 4 {
        "quad"@
    } else if count == 5 {
        "5.0"@
    } else if count == 6 {
        "5.1"@
    } else if count == 7 {
        "6.1"@
    } else if count == 8 {
        "7.1"@
    } else {
        "stereo"@
    }
}

/// ffmpeg's own layout name for a channel count when the probe gave none.
pub fn layout_for_count(count: u32) -> (r: &'static str)
    ensures
        r@ == layout_for_count_of(count),
{
    match count {
        1 => "mono",
        2 => "stereo",
        3 => "2.1",
        4 => "quad",
        5 => "5.0",
        6 => "5.1",
        7 => "6.1",
        8 => "7.1",
        _ => "stereo",
    }
}

/// Human channel names of the layouts this app knows, in ffmpeg's order.
pub open spec fn known_channel_names(layout: Seq<char>) -> Option<Seq<Seq<char>>> {
    if layout == "mono"@ {
        Some(seq!["M"@])
    } else if layout == "stereo"@ {
        Some(seq!["L"@, "R"@])
    } else if layout == "2.1"@ {
        Some(seq!["L"@, "R"@, "LFE"@])
    } else if layout == "3.0"@ {
        Some(seq!["L"@, "R"@, "C"@])
    } else if layout == "quad"@ {
        Some(seq!["L"@, "R"@, "Ls"@, "Rs"@])
    } else if layout == "5.0"@ || layout == "5.0(side)"@ {
        Some(seq!["L"@, "R"@, "C"@, "Ls"@, "Rs"@])
    } else if layout == "5.1"@ || layout == "5.1(side)"@ {
        Some(seq!["L"@, "R"@, "C"@, "LFE"@, "Ls"@, "Rs"@])
    } else if layout == "6.1"@ {
        Some(seq!["L"@, "R"@, "C"@, "LFE"@, "Cs"@, "Ls"@, "Rs"@])
    } else if layout == "7.1"@ {
        Some(seq!["L"@, "R"@, "C"@, "LFE"@, "Lsr"@, "Rsr"@, "Lss"@, "Rss"@])
    } else {
        None
    }
}

/// "ch1" … "chN".
pub open spec fn numbered_channels(count: nat) -> Seq<Seq<char>> {
    Seq::new(count, |i: int| "ch"@ + decimal((i + 1) as nat))
}

/// The names of a layout's channels: its known names when they number
/// `count`, else ch1…chN, so nothing is ever mislabelled.
pub open spec fn channel_names_of(layout: Seq<char>, count: u32) -> Seq<Seq<char>> {
    match known_channel_names(layout) {
        Some(names) => if names.len() == count {
            names
        } else {
            numbered_channels(count as nat)
        },
        None => numbered_channels(count as nat),
    }
}

fn known_names_exec(layout: &str) -> (r: Option<Vec<&'static str>>)
    ensures
        match r {
            Some(v) => known_channel_names(layout@) == Some(v@.map_values(|s: &str| s@)),
            None => known_channel_names(layout@) is None,
        },
{
    let r: Option<Vec<&'static str>> = if str_eq(layout, "mono") {
        Some(vec!["M"])
    } else if str_eq(layout, "stereo") {
        Some(vec!["L", "R"])
    } else if str_eq(layout, "2.1") {
        Some(vec!["L", "R", "LFE"])
    } else if str_eq(layout, "3.0") {
        Some(vec!["L", "R", "C"])
    } else if str_eq(layout, "quad") {
        Some(vec!["L", "R", "Ls", "Rs"])
    } else if str_eq(layout, "5.0") || str_eq(layout, "5.0(side)") {
        Some(vec!["L", "R", "C", "Ls", "Rs"])
    } else if str_eq(layout, "5.1") || str_eq(layout, "5.1(side)") {
        Some(vec!["L", "R", "C", "LFE", "Ls", "Rs"])
    } else if str_eq(layout, "6.1") {
        Some(vec!["L", "R", "C", "LFE", "Cs", "Ls", "Rs"])
    } else if str_eq(layout, "7.1") {
        Some(vec!["L", "R", "C", "LFE", "Lsr", "Rsr", "Lss", "Rss"])
    } else {
        None
    };
    proof {
        if r is Some {
            assert(known_channel_names(layout@) =~= Some(r->0@.map_values(|s: &str| s@)));
        }
    }
    r
}

/// Human channel names for a layout, in ffmpeg's channel order. Unknown
/// layouts fall back to ch1…chN so nothing is ever mislabelled.
pub fn channel_names(layout: &str, count: u32) -> (r: Vec<String>)
    ensures
        views(r@) == channel_names_of(layout@, count),
{
    let mut out: Vec<String> = Vec::new();
    if let Some(names) = known_names_exec(layout) {
        if names.len() == count as usize {
            let mut i: usize = 0;
            while i < names.len()
                invariant
                    i <= names.len(),
                    views(out@) == names@.map_values(|s: &str| s@).take(i as int),
                decreases names.len() - i,
            {
                push_arg(&mut out, names[i]);
                assert(names@.map_values(|s: &str| s@).take(i + 1) =~= names@.map_values(
                    |s: &str| s@,
                ).take(i as int).push(names@[i as int]@));
                i += 1;
            }
            assert(names@.map_values(|s: &str| s@).take(i as int) =~= names@.map_values(
                |s: &str| s@,
            ));
            return out;
        }
    }
    let mut i: u32 = 0;
    while i < count
        invariant
            i <= count,
            views(out@) == numbered_channels(count as nat).take(i as int),
        decreases count - i,
    {
        let mut v = chars_of("ch");
        push_decimal(&mut v, (i + 1) as u64);
        push_arg_chars(&mut out, &v);
        assert(numbered_channels(count as nat).take(i + 1) =~= numbered_channels(count as nat).take(
            i as int,
        ).push(v@));
        i += 1;
    }
    assert(numbered_channels(count as nat).take(count as int) =~= numbered_channels(count as nat));
    out
}

/// The label of split output `i`: "[c<i>]".
pub open spec fn split_label(i: nat) -> Seq<char> {
    "[c"@ + decimal(i) + "]"@
}

/// The labels "[c0]" … "[c<n-1>]" run together.
pub open spec fn split_labels(n: nat) -> Seq<char>
    decreases n,
{
    if n == 0 {
        Seq::empty()
    } else {
        split_labels((n - 1) as nat) + split_label((n - 1) as nat)
    }
}

/// The per-output arguments of a split: map each label to its file as
/// 24-bit PCM.
pub open spec fn split_outputs(outputs: Seq<Seq<char>>) -> Seq<Seq<char>>
    decreases outputs.len(),
{
    if outputs.len() == 0 {
        Seq::empty()
    } else {
        split_outputs(outputs.drop_last()) + seq![
            "-map"@,
            split_label((outputs.len() - 1) as nat),
            "-c:a"@,
            "pcm_s24le"@,
            outputs.last(),
        ]
    }
}

/// The arguments of one ffmpeg run: channelsplit → one mono output per
/// channel.
pub open spec fn split_command_of(path: Seq<char>, layout: Seq<char>, outputs: Seq<Seq<char>>) -> Seq<
    Seq<char>,
> {
    seq![
        "-y"@,
        "-i"@,
        path,
        "-filter_complex"@,
        "[0:a]channelsplit=channel_layout="@ + layout + split_labels(outputs.len()),
    ] + split_outputs(outputs)
}

fn push_label(v: &mut Vec<char>, i: usize)
    ensures
        final(v)@ == old(v)@ + split_label(i as nat),
{
    push_str(v, "[c");
    push_decimal(v, i as u64);
    push_str(v, "]");
}

/// One ffmpeg run: channelsplit → one mono output per channel.
pub fn build_split_command(path: &str, layout: &str, outputs: &Vec<String>) -> (r: Vec<String>)
    ensures
        views(r@) == split_command_of(path@, layout@, views(outputs@)),
{
    let n = outputs.len();
    let mut args: Vec<String> = Vec::new();
    push_arg(&mut args, "-y");
    push_arg(&mut args, "-i");
    push_arg(&mut args, path);
    push_arg(&mut args, "-filter_complex");
    let mut graph = chars_of("[0:a]channelsplit=channel_layout=");
    push_str(&mut graph, layout);
    let mut i: usize = 0;
    let ghost head = graph@;
    while i < n
        invariant
            i <= n,
            graph@ == head + split_labels(i as nat),
        decreases n - i,
    {
        push_label(&mut graph, i);
        i += 1;
    }
    push_arg_chars(&mut args, &graph);
    let ghost first = views(args@);
    let mut i: usize = 0;
    while i < n
        invariant
            i <= n == outputs.len(),
            views(args@) == first + split_outputs(views(outputs@).take(i as int)),
        decreases n - i,
    {
        push_arg(&mut args, "-map");
        let mut label: Vec<char> = Vec::new();
        push_label(&mut label, i);
        push_arg_chars(&mut args, &label);
        push_arg(&mut args, "-c:a");
        push_arg(&mut args, "pcm_s24le");
        push_arg(&mut args, outputs[i].as_str());
        proof {
            let t = views(outputs@).take(i + 1);
            assert(t.drop_last() =~= views(outputs@).take(i as int));
            assert(views(args@) =~= first + split_outputs(t));
        }
        i += 1;
    }
    assert(views(outputs@).take(n as int) =~= views(outputs@));
    assert(views(args@) =~= split_command_of(path@, layout@, views(outputs@)));
    args
}

/// A split to run: the mono files it writes (in channel order) and the
/// ffmpeg arguments that write them.
pub struct SplitPlan {
    pub outputs: Vec<String>,
    pub args: Vec<String>,
}

/// The directory outputs beside `path` go to: its parent, or "." (the
/// current directory) when it has none or an empty one, as a bare file name does.
pub open spec fn beside_dir(path: Seq<char>) -> Seq<char> {
    match path_parent(path) {
        Some(d) => if d.len() > 0 {
            d
        } else {
            "."@
        },
        None => "."@,
    }
}

/// The stem of `path`, or `fallback` when it has none.
pub open spec fn stem_or(path: Seq<char>, fallback: Seq<char>) -> Seq<char> {
    match path_file_stem(path) {
        Some(s) => s,
        None => fallback,
    }
}

/// The layout to use: the probed one when given and not empty, else the
/// standard layout for the channel count.
pub open spec fn effective_layout(layout: Option<Seq<char>>, channels: u32) -> Seq<char> {
    match layout {
        Some(l) => if l.len() > 0 {
            l
        } else {
            layout_for_count_of(channels)
        },
        None => layout_for_count_of(channels),
    }
}

/// The mono files a split of `path` writes into `dir`:
/// "<dir>/<stem>_<name>.wav".
pub open spec fn split_paths_in(dir: Seq<char>, path: Seq<char>, names: Seq<Seq<char>>) -> Seq<Seq<char>> {
    names.map_values(|n: Seq<char>| dir + "/"@ + stem_or(path, "audio"@) + "_"@ + n + ".wav"@)
}

/// The mono files a split writes beside `path`.
pub open spec fn split_paths(path: Seq<char>, names: Seq<Seq<char>>) -> Seq<Seq<char>> {
    split_paths_in(beside_dir(path), path, names)
}

/// The directory beside `path`.
pub fn dir_beside(path: &str) -> (r: String)
    ensures
        r@ == beside_dir(path@),
{
    match parent_of(path) {
        Some(d) => {
            let dv = crate::text::chars_of(d.as_str());
            if dv.len() > 0 {
                d
            } else {
                crate::text::owned(".")
            }
        },
        None => crate::text::owned("."),
    }
}

/// The stem of `path`, or `fallback`.
pub fn stem_or_default(path: &str, fallback: &str) -> (r: String)
    ensures
        r@ == stem_or(path@, fallback@),
{
    match file_stem_of(path) {
        Some(s) => s,
        None => crate::text::owned(fallback),
    }
}

/// The layout to use for a file with `channels` channels.
pub fn choose_layout(layout: Option<&str>, channels: u32) -> (r: String)
    ensures
        r@ == effective_layout(
            match layout {
                Some(l) => Some(l@),
                None => None,
            },
            channels,
        ),
{
    match layout {
        Some(l) => {
            let v = chars_of(l);
            if v.len() > 0 {
                crate::text::owned(l)
            } else {
                crate::text::owned(layout_for_count(channels))
            }
        },
        None => crate::text::owned(layout_for_count(channels)),
    }
}

/// Split a multichannel file into mono files in `out_dir` (beside it when
/// none is given): "<stem>_L.wav" … Returns the output paths in channel
/// order with the ffmpeg run that writes them; a file with fewer than two
/// channels is refused.
pub fn split_channels_to(path: &str, layout: Option<&str>, channels: u32, out_dir: Option<&str>) -> (r: Result<
    SplitPlan,
    String,
>)
    ensures
        channels < 2 <==> r is Err,
        r matches Err(e) ==> e@ == "That file is already mono"@,
        r matches Ok(plan) ==> {
            let l = effective_layout(
                match layout {
                    Some(l) => Some(l@),
                    None => None,
                },
                channels,
            );
            let dir = match out_dir {
                Some(d) => d@,
                None => beside_dir(path@),
            };
            &&& views(plan.outputs@) == split_paths_in(dir, path@, channel_names_of(l, channels))
            &&& views(plan.args@) == split_command_of(path@, l, views(plan.outputs@))
        },
{
    if channels < 2 {
        return Err(crate::text::owned("That file is already mono"));
    }
    let l = choose_layout(layout, channels);
    let names = channel_names(l.as_str(), channels);
    let dir = match out_dir {
        Some(d) => crate::text::owned(d),
        None => dir_beside(path),
    };
    let stem = stem_or_default(path, "audio");
    let ghost target = split_paths_in(dir@, path@, views(names@));
    let mut outputs: Vec<String> = Vec::new();
    let mut i: usize = 0;
    while i < names.len()
        invariant
            i <= names.len(),
            stem@ == stem_or(path@, "audio"@),
            target == split_paths_in(dir@, path@, views(names@)),
            views(outputs@) == target.take(i as int),
        decreases names.len() - i,
    {
        let mut v = chars_of(dir.as_str());
        push_str(&mut v, "/");
        push_str(&mut v, stem.as_str());
        push_str(&mut v, "_");
        push_str(&mut v, names[i].as_str());
        push_str(&mut v, ".wav");
        push_arg_chars(&mut outputs, &v);
        assert(target.take(i + 1) =~= target.take(i as int).push(v@));
        i += 1;
    }
    assert(target.take(i as int) =~= target);
    let args = build_split_command(path, l.as_str(), &outputs);
    Ok(SplitPlan { outputs, args })
}

/// Split a multichannel file into mono files beside it: "<stem>_L.wav" …
/// Returns the output paths in channel order with the ffmpeg run that writes
/// them; a file with fewer than two channels is refused.
pub fn split_channels(path: &str, layout: Option<&str>, channels: u32) -> (r: Result<SplitPlan, String>)
    ensures
        channels < 2 <==> r is Err,
        r matches Err(e) ==> e@ == "That file is already mono"@,
        r matches Ok(plan) ==> {
            let l = effective_layout(
                match layout {
                    Some(l) => Some(l@),
                    None => None,
                },
                channels,
            );
            &&& views(plan.outputs@) == split_paths(path@, channel_names_of(l, channels))
            &&& views(plan.args@) == split_command_of(path@, l, views(plan.outputs@))
        },
{
    split_channels_to(path, layout, channels, None)
}

/// The per-input arguments of a join.
pub open spec fn join_inputs(inputs: Seq<Seq<char>>) -> Seq<Seq<char>>
    decreases inputs.len(),
{
    if inputs.len() == 0 {
        Seq::empty()
    } else {
        join_inputs(inputs.drop_last()) + seq!["-i"@, inputs.last()]
    }
}

/// The arguments of one ffmpeg run: N mono inputs → one file in `layout`,
/// in input order, as 24-bit PCM.
pub open spec fn join_command_of(inputs: Seq<Seq<char>>, layout: Seq<char>, output: Seq<char>) -> Seq<
    Seq<char>,
> {
    seq!["-y"@] + join_inputs(inputs) + seq![
        "-filter_complex"@,
        "join=inputs="@ + decimal(inputs.len()) + ":channel_layout="@ + layout + "[out]"@,
        "-map"@,
        "[out]"@,
        "-c:a"@,
        "pcm_s24le"@,
        output,
    ]
}

/// One ffmpeg run: N mono inputs → one file in `layout`, in input order.
pub fn build_join_command(inputs: &Vec<String>, layout: &str, output: &str) -> (r: Vec<String>)
    ensures
        views(r@) == join_command_of(views(inputs@), layout@, output@),
{
    let mut args: Vec<String> = Vec::new();
    push_arg(&mut args, "-y");
    let ghost first = views(args@);
    let mut i: usize = 0;
    while i < inputs.len()
        invariant
            i <= inputs.len(),
            views(args@) == first + join_inputs(views(inputs@).take(i as int)),
        decreases inputs.len() - i,
    {
        push_arg(&mut args, "-i");
        push_arg(&mut args, inputs[i].as_str());
        proof {
            let t = views(inputs@).take(i + 1);
            assert(t.drop_last() =~= views(inputs@).take(i as int));
            assert(views(args@) =~= first + join_inputs(t));
        }
        i += 1;
    }
    assert(views(inputs@).take(inputs.len() as int) =~= views(inputs@));
    push_arg(&mut args, "-filter_complex");
    let mut g = chars_of("join=inputs=");
    push_decimal(&mut g, inputs.len() as u64);
    push_str(&mut g, ":channel_layout=");
    push_str(&mut g, layout);
    push_str(&mut g, "[out]");
    push_arg_chars(&mut args, &g);
    push_arg(&mut args, "-map");
    push_arg(&mut args, "[out]");
    push_arg(&mut args, "-c:a");
    push_arg(&mut args, "pcm_s24le");
    push_arg(&mut args, output);
    assert(views(args@) =~= join_command_of(views(inputs@), layout@, output@));
    args
}

/// Join mono files (already in channel order) into one multichannel file:
/// the ffmpeg arguments to run, or an error when fewer than two are given.
pub fn join_channels(inputs: &Vec<String>, layout: &str, output: &str) -> (r: Result<Vec<String>, String>)
    ensures
        inputs.len() < 2 <==> r is Err,
        r matches Err(e) ==> e@ == "Need at least two mono files to join"@,
        r matches Ok(args) ==> views(args@) == join_command_of(views(inputs@), layout@, output@),
{
    if inputs.len() < 2 {
        return Err(crate::text::owned("Need at least two mono files to join"));
    }
    Ok(build_join_command(inputs, layout, output))
}

// ── Laws ────────────────────────────────────────────────────────────────────

/// The conventional name of ffmpeg's speaker `c` within a layout whose
/// speakers are `chans`: a lone centre is "M"; the back centre is "Cs";
/// back and side pairs are both "Ls"/"Rs", unless the layout has both, when
/// the back pair is the rear surround ("Lsr"/"Rsr") and the side pair the
/// side surround ("Lss"/"Rss").
pub open spec fn speaker_name(c: Seq<char>, chans: Seq<Seq<char>>) -> Seq<char> {
    let both = chans.contains("BL"@) && chans.contains("SL"@);
    if c == "FL"@ {
        "L"@
    } else if c == "FR"@ {
        "R"@
    } else if c == "FC"@ {
        if chans.len() == 1 {
            "M"@
        } else {
            "C"@
        }
    } else if c == "LFE"@ {
        "LFE"@
    } else if c == "BC"@ {
        "Cs"@
    } else if c == "BL"@ {
        if both {
            "Lsr"@
        } else {
            "Ls"@
        }
    } else if c == "BR"@ {
        if both {
            "Rsr"@
        } else {
            "Rs"@
        }
    } else if c == "SL"@ {
        if both {
            "Lss"@
        } else {
            "Ls"@
        }
    } else if c == "SR"@ {
        if both {
            "Rss"@
        } else {
            "Rs"@
        }
    } else {
        c
    }
}

/// A known layout's channel names label ffmpeg's channels of that layout,
/// one for one and in ffmpeg's order: the i-th name is the name of the
/// i-th speaker (for 7.1, FL FR FC LFE BL BR SL SR: the back pair is
/// Lsr/Rsr and the side pair Lss/Rss).
#[verifier::rlimit(50)]
pub proof fn lemma_names_follow_ffmpeg_order(layout: Seq<char>, count: u32, i: int)
    requires
        known_channel_names(layout) is Some,
        known_channel_names(layout).unwrap().len() == count,
        0 <= i < count,
    ensures
        ({
            let chans = crate::processing::layout_channels_of(layout, count);
            &&& chans.len() == count
            &&& channel_names_of(layout, count)[i] == speaker_name(chans[i], chans)
        }),
{
    lemma_layout_names_distinct(layout);
    lemma_speaker_names_differ();
    let chans = crate::processing::known_layout_channels(layout).unwrap();
    assert(crate::processing::layout_channels_of(layout, count) == chans);
    if layout == "mono"@ {
        assert(!(chans.contains("BL"@) && chans.contains("SL"@))) by {
            if chans.contains("BL"@) && chans.contains("SL"@) {
                let a = choose|k: int| 0 <= k < chans.len() && chans[k] == "BL"@;
                let b = choose|k: int| 0 <= k < chans.len() && chans[k] == "SL"@;
                assert(chans[a] == "BL"@ && chans[b] == "SL"@);
            }
        }
    }
    if layout == "stereo"@ {
        assert(!(chans.contains("BL"@) && chans.contains("SL"@))) by {
            if chans.contains("BL"@) && chans.contains("SL"@) {
                let a = choose|k: int| 0 <= k < chans.len() && chans[k] == "BL"@;
                let b = choose|k: int| 0 <= k < chans.len() && chans[k] == "SL"@;
                assert(chans[a] == "BL"@ && chans[b] == "SL"@);
            }
        }
    }
    if layout == "2.1"@ {
        assert(!(chans.contains("BL"@) && chans.contains("SL"@))) by {
            if chans.contains("BL"@) && chans.contains("SL"@) {
                let a = choose|k: int| 0 <= k < chans.len() && chans[k] == "BL"@;
                let b = choose|k: int| 0 <= k < chans.len() && chans[k] == "SL"@;
                assert(chans[a] == "BL"@ && chans[b] == "SL"@);
            }
        }
    }
    if layout == "3.0"@ {
        assert(!(chans.contains("BL"@) && chans.contains("SL"@))) by {
            if chans.contains("BL"@) && chans.contains("SL"@) {
                let a = choose|k: int| 0 <= k < chans.len() && chans[k] == "BL"@;
                let b = choose|k: int| 0 <= k < chans.len() && chans[k] == "SL"@;
                assert(chans[a] == "BL"@ && chans[b] == "SL"@);
            }
        }
    }
    if layout == "quad"@ {
        assert(!(chans.contains("BL"@) && chans.contains("SL"@))) by {
            if chans.contains("BL"@) && chans.contains("SL"@) {
                let a = choose|k: int| 0 <= k < chans.len() && chans[k] == "BL"@;
                let b = choose|k: int| 0 <= k < chans.len() && chans[k] == "SL"@;
                assert(chans[a] == "BL"@ && chans[b] == "SL"@);
            }
        }
    }
    if layout == "5.0"@ {
        assert(!(chans.contains("BL"@) && chans.contains("SL"@))) by {
            if chans.contains("BL"@) && chans.contains("SL"@) {
                let a = choose|k: int| 0 <= k < chans.len() && chans[k] == "BL"@;
                let b = choose|k: int| 0 <= k < chans.len() && chans[k] == "SL"@;
                assert(chans[a] == "BL"@ && chans[b] == "SL"@);
            }
        }
    }
    if layout == "5.0(side)"@ {
        assert(!(chans.contains("BL"@) && chans.contains("SL"@))) by {
            if chans.contains("BL"@) && chans.contains("SL"@) {
                let a = choose|k: int| 0 <= k < chans.len() && chans[k] == "BL"@;
                let b = choose|k: int| 0 <= k < chans.len() && chans[k] == "SL"@;
                assert(chans[a] == "BL"@ && chans[b] == "SL"@);
            }
        }
    }
    if layout == "5.1"@ {
        assert(!(chans.contains("BL"@) && chans.contains("SL"@))) by {
            if chans.contains("BL"@) && chans.contains("SL"@) {
                let a = choose|k: int| 0 <= k < chans.len() && chans[k] == "BL"@;
                let b = choose|k: int| 0 <= k < chans.len() && chans[k] == "SL"@;
                assert(chans[a] == "BL"@ && chans[b] == "SL"@);
            }
        }
    }
    if layout == "5.1(side)"@ {
        assert(!(chans.contains("BL"@) && chans.contains("SL"@))) by {
            if chans.contains("BL"@) && chans.contains("SL"@) {
                let a = choose|k: int| 0 <= k < chans.len() && chans[k] == "BL"@;
                let b = choose|k: int| 0 <= k < chans.len() && chans[k] == "SL"@;
                assert(chans[a] == "BL"@ && chans[b] == "SL"@);
            }
        }
    }
    if layout == "6.1"@ {
        assert(!(chans.contains("BL"@) && chans.contains("SL"@))) by {
            if chans.contains("BL"@) && chans.contains("SL"@) {
                let a = choose|k: int| 0 <= k < chans.len() && chans[k] == "BL"@;
                let b = choose|k: int| 0 <= k < chans.len() && chans[k] == "SL"@;
                assert(chans[a] == "BL"@ && chans[b] == "SL"@);
            }
        }
    }
    if layout == "7.1"@ {
        assert(chans[4] == "BL"@ && chans[6] == "SL"@);
    }
}

/// The layouts the tables know are told apart by their names.
proof fn lemma_layout_names_distinct(layout: Seq<char>)
    ensures
        layout == "mono"@ ==> crate::processing::known_layout_channels(layout) == Some(seq!["FC"@]),
        layout == "stereo"@ ==> crate::processing::known_layout_channels(layout) == Some(seq!["FL"@, "FR"@]),
        layout == "2.1"@ ==> crate::processing::known_layout_channels(layout) == Some(seq!["FL"@, "FR"@, "LFE"@]),
        layout == "3.0"@ ==> crate::processing::known_layout_channels(layout) == Some(seq!["FL"@, "FR"@, "FC"@]),
        layout == "quad"@ ==> crate::processing::known_layout_channels(layout) == Some(seq!["FL"@, "FR"@, "BL"@, "BR"@]),
        layout == "5.0"@ ==> crate::processing::known_layout_channels(layout) == Some(seq!["FL"@, "FR"@, "FC"@, "BL"@, "BR"@]),
        layout == "5.0(side)"@ ==> crate::processing::known_layout_channels(layout) == Some(seq!["FL"@, "FR"@, "FC"@, "SL"@, "SR"@]),
        layout == "5.1"@ ==> crate::processing::known_layout_channels(layout) == Some(seq!["FL"@, "FR"@, "FC"@, "LFE"@, "BL"@, "BR"@]),
        layout == "5.1(side)"@ ==> crate::processing::known_layout_channels(layout) == Some(seq!["FL"@, "FR"@, "FC"@, "LFE"@, "SL"@, "SR"@]),
        layout == "6.1"@ ==> crate::processing::known_layout_channels(layout) == Some(seq!["FL"@, "FR"@, "FC"@, "LFE"@, "BC"@, "SL"@, "SR"@]),
        layout == "7.1"@ ==> crate::processing::known_layout_channels(layout) == Some(seq!["FL"@, "FR"@, "FC"@, "LFE"@, "BL"@, "BR"@, "SL"@, "SR"@]),
        layout == "mono"@ ==> known_channel_names(layout) == Some(seq!["M"@]),
        layout == "stereo"@ ==> known_channel_names(layout) == Some(seq!["L"@, "R"@]),
        layout == "2.1"@ ==> known_channel_names(layout) == Some(seq!["L"@, "R"@, "LFE"@]),
        layout == "3.0"@ ==> known_channel_names(layout) == Some(seq!["L"@, "R"@, "C"@]),
        layout == "quad"@ ==> known_channel_names(layout) == Some(seq!["L"@, "R"@, "Ls"@, "Rs"@]),
        layout == "5.0"@ ==> known_channel_names(layout) == Some(seq!["L"@, "R"@, "C"@, "Ls"@, "Rs"@]),
        layout == "5.0(side)"@ ==> known_channel_names(layout) == Some(seq!["L"@, "R"@, "C"@, "Ls"@, "Rs"@]),
        layout == "5.1"@ ==> known_channel_names(layout) == Some(seq!["L"@, "R"@, "C"@, "LFE"@, "Ls"@, "Rs"@]),
        layout == "5.1(side)"@ ==> known_channel_names(layout) == Some(seq!["L"@, "R"@, "C"@, "LFE"@, "Ls"@, "Rs"@]),
        layout == "6.1"@ ==> known_channel_names(layout) == Some(seq!["L"@, "R"@, "C"@, "LFE"@, "Cs"@, "Ls"@, "Rs"@]),
        layout == "7.1"@ ==> known_channel_names(layout) == Some(seq!["L"@, "R"@, "C"@, "LFE"@, "Lsr"@, "Rsr"@, "Lss"@, "Rss"@]),
        known_channel_names(layout) is Some ==> (layout == "mono"@ || layout == "stereo"@ || layout == "2.1"@ || layout == "3.0"@ || layout == "quad"@ || layout == "5.0"@ || layout == "5.0(side)"@ || layout == "5.1"@ || layout == "5.1(side)"@ || layout == "6.1"@ || layout == "7.1"@),
{
    if layout == "mono"@ {
        reveal_strlit("mono");
    }
    if layout == "stereo"@ {
        reveal_strlit("stereo");
        reveal_strlit("mono");
        assert("stereo"@.len() == 6 && "mono"@.len() == 4);
    }
    if layout == "2.1"@ {
        reveal_strlit("2.1");
        reveal_strlit("mono");
        assert("2.1"@.len() == 3 && "mono"@.len() == 4);
        reveal_strlit("stereo");
        assert("2.1"@.len() == 3 && "stereo"@.len() == 6);
    }
    if layout == "3.0"@ {
        reveal_strlit("3.0");
        reveal_strlit("mono");
        assert("3.0"@.len() == 3 && "mono"@.len() == 4);
        reveal_strlit("stereo");
        assert("3.0"@.len() == 3 && "stereo"@.len() == 6);
        reveal_strlit("2.1");
        assert("3.0"@[0] == '3' && "2.1"@[0] == '2');
    }
    if layout == "quad"@ {
        reveal_strlit("quad");
        reveal_strlit("mono");
        assert("quad"@[0] == 'q' && "mono"@[0] == 'm');
        reveal_strlit("stereo");
        assert("quad"@.len() == 4 && "stereo"@.len() == 6);
        reveal_strlit("2.1");
        assert("quad"@.len() == 4 && "2.1"@.len() == 3);
        reveal_strlit("3.0");
        assert("quad"@.len() == 4 && "3.0"@.len() == 3);
        reveal_strlit("3.0(back)");
        assert("quad"@.len() == 4 && "3.0(back)"@.len() == 9);
        reveal_strlit("3.1");
        assert("quad"@.len() == 4 && "3.1"@.len() == 3);
        reveal_strlit("4.0");
        assert("quad"@.len() == 4 && "4.0"@.len() == 3);
    }
    if layout == "5.0"@ {
        reveal_strlit("5.0");
        reveal_strlit("mono");
        assert("5.0"@.len() == 3 && "mono"@.len() == 4);
        reveal_strlit("stereo");
        assert("5.0"@.len() == 3 && "stereo"@.len() == 6);
        reveal_strlit("2.1");
        assert("5.0"@[0] == '5' && "2.1"@[0] == '2');
        reveal_strlit("3.0");
        assert("5.0"@[0] == '5' && "3.0"@[0] == '3');
        reveal_strlit("3.0(back)");
        assert("5.0"@.len() == 3 && "3.0(back)"@.len() == 9);
        reveal_strlit("3.1");
        assert("5.0"@[0] == '5' && "3.1"@[0] == '3');
        reveal_strlit("4.0");
        assert("5.0"@[0] == '5' && "4.0"@[0] == '4');
        reveal_strlit("quad");
        assert("5.0"@.len() == 3 && "quad"@.len() == 4);
        reveal_strlit("quad(side)");
        assert("5.0"@.len() == 3 && "quad(side)"@.len() == 10);
        reveal_strlit("4.1");
        assert("5.0"@[0] == '5' && "4.1"@[0] == '4');
    }
    if layout == "5.0(side)"@ {
        reveal_strlit("5.0(side)");
        reveal_strlit("mono");
        assert("5.0(side)"@.len() == 9 && "mono"@.len() == 4);
        reveal_strlit("stereo");
        assert("5.0(side)"@.len() == 9 && "stereo"@.len() == 6);
        reveal_strlit("2.1");
        assert("5.0(side)"@.len() == 9 && "2.1"@.len() == 3);
        reveal_strlit("3.0");
        assert("5.0(side)"@.len() == 9 && "3.0"@.len() == 3);
        reveal_strlit("3.0(back)");
        assert("5.0(side)"@[0] == '5' && "3.0(back)"@[0] == '3');
        reveal_strlit("3.1");
        assert("5.0(side)"@.len() == 9 && "3.1"@.len() == 3);
        reveal_strlit("4.0");
        assert("5.0(side)"@.len() == 9 && "4.0"@.len() == 3);
        reveal_strlit("quad");
        assert("5.0(side)"@.len() == 9 && "quad"@.len() == 4);
        reveal_strlit("quad(side)");
        assert("5.0(side)"@.len() == 9 && "quad(side)"@.len() == 10);
        reveal_strlit("4.1");
        assert("5.0(side)"@.len() == 9 && "4.1"@.len() == 3);
        reveal_strlit("5.0");
        assert("5.0(side)"@.len() == 9 && "5.0"@.len() == 3);
    }
    if layout == "5.1"@ {
        reveal_strlit("5.1");
        reveal_strlit("mono");
        assert("5.1"@.len() == 3 && "mono"@.len() == 4);
        reveal_strlit("stereo");
        assert("5.1"@.len() == 3 && "stereo"@.len() == 6);
        reveal_strlit("2.1");
        assert("5.1"@[0] == '5' && "2.1"@[0] == '2');
        reveal_strlit("3.0");
        assert("5.1"@[0] == '5' && "3.0"@[0] == '3');
        reveal_strlit("3.0(back)");
        assert("5.1"@.len() == 3 && "3.0(back)"@.len() == 9);
        reveal_strlit("3.1");
        assert("5.1"@[0] == '5' && "3.1"@[0] == '3');
        reveal_strlit("4.0");
        assert("5.1"@[0] == '5' && "4.0"@[0] == '4');
        reveal_strlit("quad");
        assert("5.1"@.len() == 3 && "quad"@.len() == 4);
        reveal_strlit("quad(side)");
        assert("5.1"@.len() == 3 && "quad(side)"@.len() == 10);
        reveal_strlit("4.1");
        assert("5.1"@[0] == '5' && "4.1"@[0] == '4');
        reveal_strlit("5.0");
        assert("5.1"@[2] == '1' && "5.0"@[2] == '0');
        reveal_strlit("5.0(side)");
        assert("5.1"@.len() == 3 && "5.0(side)"@.len() == 9);
    }
    if layout == "5.1(side)"@ {
        reveal_strlit("5.1(side)");
        reveal_strlit("mono");
        assert("5.1(side)"@.len() == 9 && "mono"@.len() == 4);
        reveal_strlit("stereo");
        assert("5.1(side)"@.len() == 9 && "stereo"@.len() == 6);
        reveal_strlit("2.1");
        assert("5.1(side)"@.len() == 9 && "2.1"@.len() == 3);
        reveal_strlit("3.0");
        assert("5.1(side)"@.len() == 9 && "3.0"@.len() == 3);
        reveal_strlit("3.0(back)");
        assert("5.1(side)"@[0] == '5' && "3.0(back)"@[0] == '3');
        reveal_strlit("3.1");
        assert("5.1(side)"@.len() == 9 && "3.1"@.len() == 3);
        reveal_strlit("4.0");
        assert("5.1(side)"@.len() == 9 && "4.0"@.len() == 3);
        reveal_strlit("quad");
        assert("5.1(side)"@.len() == 9 && "quad"@.len() == 4);
        reveal_strlit("quad(side)");
        assert("5.1(side)"@.len() == 9 && "quad(side)"@.len() == 10);
        reveal_strlit("4.1");
        assert("5.1(side)"@.len() == 9 && "4.1"@.len() == 3);
        reveal_strlit("5.0");
        assert("5.1(side)"@.len() == 9 && "5.0"@.len() == 3);
        reveal_strlit("5.0(side)");
        assert("5.1(side)"@[2] == '1' && "5.0(side)"@[2] == '0');
        reveal_strlit("5.1");
        assert("5.1(side)"@.len() == 9 && "5.1"@.len() == 3);
    }
    if layout == "6.1"@ {
        reveal_strlit("6.1");
        reveal_strlit("mono");
        assert("6.1"@.len() == 3 && "mono"@.len() == 4);
        reveal_strlit("stereo");
        assert("6.1"@.len() == 3 && "stereo"@.len() == 6);
        reveal_strlit("2.1");
        assert("6.1"@[0] == '6' && "2.1"@[0] == '2');
        reveal_strlit("3.0");
        assert("6.1"@[0] == '6' && "3.0"@[0] == '3');
        reveal_strlit("3.0(back)");
        assert("6.1"@.len() == 3 && "3.0(back)"@.len() == 9);
        reveal_strlit("3.1");
        assert("6.1"@[0] == '6' && "3.1"@[0] == '3');
        reveal_strlit("4.0");
        assert("6.1"@[0] == '6' && "4.0"@[0] == '4');
        reveal_strlit("quad");
        assert("6.1"@.len() == 3 && "quad"@.len() == 4);
        reveal_strlit("quad(side)");
        assert("6.1"@.len() == 3 && "quad(side)"@.len() == 10);
        reveal_strlit("4.1");
        assert("6.1"@[0] == '6' && "4.1"@[0] == '4');
        reveal_strlit("5.0");
        assert("6.1"@[0] == '6' && "5.0"@[0] == '5');
        reveal_strlit("5.0(side)");
        assert("6.1"@.len() == 3 && "5.0(side)"@.len() == 9);
        reveal_strlit("5.1");
        assert("6.1"@[0] == '6' && "5.1"@[0] == '5');
        reveal_strlit("5.1(side)");
        assert("6.1"@.len() == 3 && "5.1(side)"@.len() == 9);
        reveal_strlit("6.0");
        assert("6.1"@[2] == '1' && "6.0"@[2] == '0');
        reveal_strlit("6.0(front)");
        assert("6.1"@.len() == 3 && "6.0(front)"@.len() == 10);
        reveal_strlit("hexagonal");
        assert("6.1"@.len() == 3 && "hexagonal"@.len() == 9);
    }
    if layout == "7.1"@ {
        reveal_strlit("7.1");
        reveal_strlit("mono");
        assert("7.1"@.len() == 3 && "mono"@.len() == 4);
        reveal_strlit("stereo");
        assert("7.1"@.len() == 3 && "stereo"@.len() == 6);
        reveal_strlit("2.1");
        assert("7.1"@[0] == '7' && "2.1"@[0] == '2');
        reveal_strlit("3.0");
        assert("7.1"@[0] == '7' && "3.0"@[0] == '3');
        reveal_strlit("3.0(back)");
        assert("7.1"@.len() == 3 && "3.0(back)"@.len() == 9);
        reveal_strlit("3.1");
        assert("7.1"@[0] == '7' && "3.1"@[0] == '3');
        reveal_strlit("4.0");
        assert("7.1"@[0] == '7' && "4.0"@[0] == '4');
        reveal_strlit("quad");
        assert("7.1"@.len() == 3 && "quad"@.len() == 4);
        reveal_strlit("quad(side)");
        assert("7.1"@.len() == 3 && "quad(side)"@.len() == 10);
        reveal_strlit("4.1");
        assert("7.1"@[0] == '7' && "4.1"@[0] == '4');
        reveal_strlit("5.0");
        assert("7.1"@[0] == '7' && "5.0"@[0] == '5');
        reveal_strlit("5.0(side)");
        assert("7.1"@.len() == 3 && "5.0(side)"@.len() == 9);
        reveal_strlit("5.1");
        assert("7.1"@[0] == '7' && "5.1"@[0] == '5');
        reveal_strlit("5.1(side)");
        assert("7.1"@.len() == 3 && "5.1(side)"@.len() == 9);
        reveal_strlit("6.0");
        assert("7.1"@[0] == '7' && "6.0"@[0] == '6');
        reveal_strlit("6.0(front)");
        assert("7.1"@.len() == 3 && "6.0(front)"@.len() == 10);
        reveal_strlit("hexagonal");
        assert("7.1"@.len() == 3 && "hexagonal"@.len() == 9);
        reveal_strlit("6.1");
        assert("7.1"@[0] == '7' && "6.1"@[0] == '6');
        reveal_strlit("6.1(back)");
        assert("7.1"@.len() == 3 && "6.1(back)"@.len() == 9);
        reveal_strlit("6.1(front)");
        assert("7.1"@.len() == 3 && "6.1(front)"@.len() == 10);
        reveal_strlit("7.0");
        assert("7.1"@[2] == '1' && "7.0"@[2] == '0');
        reveal_strlit("7.0(front)");
        assert("7.1"@.len() == 3 && "7.0(front)"@.len() == 10);
    }
}

/// ffmpeg's speaker names are told apart.
pub(crate) proof fn lemma_speaker_names_differ()
    ensures
        "FL"@ != "FR"@,
        "FL"@ != "FC"@,
        "FL"@ != "LFE"@,
        "FL"@ != "BC"@,
        "FL"@ != "BL"@,
        "FL"@ != "BR"@,
        "FL"@ != "SL"@,
        "FL"@ != "SR"@,
        "FL"@ != "FLC"@,
        "FL"@ != "FRC"@,
        "FR"@ != "FC"@,
        "FR"@ != "LFE"@,
        "FR"@ != "BC"@,
        "FR"@ != "BL"@,
        "FR"@ != "BR"@,
        "FR"@ != "SL"@,
        "FR"@ != "SR"@,
        "FR"@ != "FLC"@,
        "FR"@ != "FRC"@,
        "FC"@ != "LFE"@,
        "FC"@ != "BC"@,
        "FC"@ != "BL"@,
        "FC"@ != "BR"@,
        "FC"@ != "SL"@,
        "FC"@ != "SR"@,
        "FC"@ != "FLC"@,
        "FC"@ != "FRC"@,
        "LFE"@ != "BC"@,
        "LFE"@ != "BL"@,
        "LFE"@ != "BR"@,
        "LFE"@ != "SL"@,
        "LFE"@ != "SR"@,
        "LFE"@ != "FLC"@,
        "LFE"@ != "FRC"@,
        "BC"@ != "BL"@,
        "BC"@ != "BR"@,
        "BC"@ != "SL"@,
        "BC"@ != "SR"@,
        "BC"@ != "FLC"@,
        "BC"@ != "FRC"@,
        "BL"@ != "BR"@,
        "BL"@ != "SL"@,
        "BL"@ != "SR"@,
        "BL"@ != "FLC"@,
        "BL"@ != "FRC"@,
        "BR"@ != "SL"@,
        "BR"@ != "SR"@,
        "BR"@ != "FLC"@,
        "BR"@ != "FRC"@,
        "SL"@ != "SR"@,
        "SL"@ != "FLC"@,
        "SL"@ != "FRC"@,
        "SR"@ != "FLC"@,
        "SR"@ != "FRC"@,
        "FLC"@ != "FRC"@,
{
    reveal_strlit("FL");
    reveal_strlit("FR");
    reveal_strlit("FC");
    reveal_strlit("LFE");
    reveal_strlit("BC");
    reveal_strlit("BL");
    reveal_strlit("BR");
    reveal_strlit("SL");
    reveal_strlit("SR");
    reveal_strlit("FLC");
    reveal_strlit("FRC");
    assert("FL"@[1] == 'L' && "FR"@[1] == 'R');
    assert("FL"@[1] == 'L' && "FC"@[1] == 'C');
    assert("FL"@.len() == 2 && "LFE"@.len() == 3);
    assert("FL"@[0] == 'F' && "BC"@[0] == 'B');
    assert("FL"@[0] == 'F' && "BL"@[0] == 'B');
    assert("FL"@[0] == 'F' && "BR"@[0] == 'B');
    assert("FL"@[0] == 'F' && "SL"@[0] == 'S');
    assert("FL"@[0] == 'F' && "SR"@[0] == 'S');
    assert("FL"@.len() == 2 && "FLC"@.len() == 3);
    assert("FL"@.len() == 2 && "FRC"@.len() == 3);
    assert("FR"@[1] == 'R' && "FC"@[1] == 'C');
    assert("FR"@.len() == 2 && "LFE"@.len() == 3);
    assert("FR"@[0] == 'F' && "BC"@[0] == 'B');
    assert("FR"@[0] == 'F' && "BL"@[0] == 'B');
    assert("FR"@[0] == 'F' && "BR"@[0] == 'B');
    assert("FR"@[0] == 'F' && "SL"@[0] == 'S');
    assert("FR"@[0] == 'F' && "SR"@[0] == 'S');
    assert("FR"@.len() == 2 && "FLC"@.len() == 3);
    assert("FR"@.len() == 2 && "FRC"@.len() == 3);
    assert("FC"@.len() == 2 && "LFE"@.len() == 3);
    assert("FC"@[0] == 'F' && "BC"@[0] == 'B');
    assert("FC"@[0] == 'F' && "BL"@[0] == 'B');
    assert("FC"@[0] == 'F' && "BR"@[0] == 'B');
    assert("FC"@[0] == 'F' && "SL"@[0] == 'S');
    assert("FC"@[0] == 'F' && "SR"@[0] == 'S');
    assert("FC"@.len() == 2 && "FLC"@.len() == 3);
    assert("FC"@.len() == 2 && "FRC"@.len() == 3);
    assert("LFE"@.len() == 3 && "BC"@.len() == 2);
    assert("LFE"@.len() == 3 && "BL"@.len() == 2);
    assert("LFE"@.len() == 3 && "BR"@.len() == 2);
    assert("LFE"@.len() == 3 && "SL"@.len() == 2);
    assert("LFE"@.len() == 3 && "SR"@.len() == 2);
    assert("LFE"@[0] == 'L' && "FLC"@[0] == 'F');
    assert("LFE"@[0] == 'L' && "FRC"@[0] == 'F');
    assert("BC"@[1] == 'C' && "BL"@[1] == 'L');
    assert("BC"@[1] == 'C' && "BR"@[1] == 'R');
    assert("BC"@[0] == 'B' && "SL"@[0] == 'S');
    assert("BC"@[0] == 'B' && "SR"@[0] == 'S');
    assert("BC"@.len() == 2 && "FLC"@.len() == 3);
    assert("BC"@.len() == 2 && "FRC"@.len() == 3);
    assert("BL"@[1] == 'L' && "BR"@[1] == 'R');
    assert("BL"@[0] == 'B' && "SL"@[0] == 'S');
    assert("BL"@[0] == 'B' && "SR"@[0] == 'S');
    assert("BL"@.len() == 2 && "FLC"@.len() == 3);
    assert("BL"@.len() == 2 && "FRC"@.len() == 3);
    assert("BR"@[0] == 'B' && "SL"@[0] == 'S');
    assert("BR"@[0] == 'B' && "SR"@[0] == 'S');
    assert("BR"@.len() == 2 && "FLC"@.len() == 3);
    assert("BR"@.len() == 2 && "FRC"@.len() == 3);
    assert("SL"@[1] == 'L' && "SR"@[1] == 'R');
    assert("SL"@.len() == 2 && "FLC"@.len() == 3);
    assert("SL"@.len() == 2 && "FRC"@.len() == 3);
    assert("SR"@.len() == 2 && "FLC"@.len() == 3);
    assert("SR"@.len() == 2 && "FRC"@.len() == 3);
    assert("FLC"@[1] == 'L' && "FRC"@[1] == 'R');
}

} // verus!
