//! Processing a matched pair: where its output goes, which ffmpeg run makes
//! it, and what the run reports.

use vstd::prelude::*;

use crate::channels::{beside_dir, dir_beside};
use crate::ffmpeg::{
    audio_only_command_of, build_audio_only_command, build_mux_command, mux_command_of,
    slate_view, timing_view, MuxTiming, SlateInput,
};
use crate::models::{layback_extension, ExportSettings, LengthFix};
use crate::text::{
    chars_of, decimal, extension_of, file_name_of, file_stem_of, join_path, lowercase, owned,
    parent_of, path_extension, path_file_name, path_file_stem, path_join, path_parent, push_decimal,
    push_str, string_of, to_lowercase, views,
};

verus! {

/// The loudness target of a normalised audio-only output, as text: the
/// integrated-loudness target (none in peak-only mode) and the true-peak
/// ceiling.
pub struct TargetText {
    pub lufs: Option<String>,
    pub peak: String,
}

/// What the output path of a pair is made from.
pub struct OutputRequest {
    /// The audio file's path.
    pub audio_path: String,
    /// The audio file's name without its extension.
    pub audio_stem: String,
    /// The video's name without its extension, for a layback.
    pub video_stem: Option<String>,
    /// The name chosen for the output; empty to have one made.
    pub output_filename: String,
    /// The loudness target, when the audio is normalised.
    pub target: Option<TargetText>,
}

/// A target as characters.
pub open spec fn target_view(t: Option<TargetText>) -> Option<(Option<Seq<char>>, Seq<char>)> {
    match t {
        Some(t) => Some(
            (
                match t.lufs {
                    Some(l) => Some(l@),
                    None => None,
                },
                t.peak@,
            ),
        ),
        None => None,
    }
}

/// The folder an output goes to: beside the audio, unless a custom folder
/// is chosen and the audio's location is not asked for.
pub open spec fn output_dir_of(audio: Seq<char>, use_audio_location: bool, custom: Option<Seq<char>>) -> Seq<
    char,
> {
    if use_audio_location {
        beside_dir(audio)
    } else {
        match custom {
            Some(d) => d,
            None => beside_dir(audio),
        }
    }
}

/// "<lufs>LUFS_<peak>dBTP", or "<peak>dBTP" in peak-only mode.
pub open spec fn target_tag(lufs: Option<Seq<char>>, peak: Seq<char>) -> Seq<char> {
    match lufs {
        Some(l) => l + "LUFS_"@ + peak + "dBTP"@,
        None => peak + "dBTP"@,
    }
}

/// The output's file name: the chosen one, else "<video>_with audio.<ext>"
/// for a layback, "<audio>_normalised_<target>.wav" for normalised audio
/// and "<audio>.wav" for the rest.
pub open spec fn output_name_of(
    given: Seq<char>,
    video_stem: Option<Seq<char>>,
    audio_stem: Seq<char>,
    ext: Seq<char>,
    target: Option<(Option<Seq<char>>, Seq<char>)>,
) -> Seq<char> {
    if given.len() > 0 {
        given
    } else {
        match video_stem {
            Some(v) => v + "_with audio."@ + ext,
            None => match target {
                Some((l, p)) => audio_stem + "_normalised_"@ + target_tag(l, p) + ".wav"@,
                None => audio_stem + ".wav"@,
            },
        }
    }
}

/// "<folder>/<name>" for a pair, before any clash with its sources is
/// resolved.
pub open spec fn output_candidate_of(req: OutputRequest, settings: ExportSettings) -> Seq<char> {
    output_dir_of(
        req.audio_path@,
        settings.use_audio_file_location,
        match settings.output_directory {
            Some(d) => Some(d@),
            None => None,
        },
    ) + "/"@ + output_name_of(
        req.output_filename@,
        match req.video_stem {
            Some(v) => Some(v@),
            None => None,
        },
        req.audio_stem@,
        layback_extension(settings.audio_format),
        target_view(req.target),
    )
}

/// The path a pair's output is written to, before any clash with its
/// sources is resolved.
pub fn output_candidate(req: &OutputRequest, settings: &ExportSettings) -> (r: String)
    ensures
        r@ == output_candidate_of(*req, *settings),
{
    let dir = if settings.use_audio_file_location {
        dir_beside(req.audio_path.as_str())
    } else {
        match &settings.output_directory {
            Some(d) => owned(d.as_str()),
            None => dir_beside(req.audio_path.as_str()),
        }
    };
    let mut v = chars_of(dir.as_str());
    push_str(&mut v, "/");
    let given = chars_of(req.output_filename.as_str());
    if given.len() > 0 {
        push_str(&mut v, req.output_filename.as_str());
    } else {
        match &req.video_stem {
            Some(s) => {
                push_str(&mut v, s.as_str());
                push_str(&mut v, "_with audio.");
                push_str(&mut v, settings.output_extension());
            },
            None => {
                push_str(&mut v, req.audio_stem.as_str());
                match &req.target {
                    Some(t) => {
                        push_str(&mut v, "_normalised_");
                        match &t.lufs {
                            Some(l) => {
                                push_str(&mut v, l.as_str());
                                push_str(&mut v, "LUFS_");
                            },
                            None => {},
                        }
                        push_str(&mut v, t.peak.as_str());
                        push_str(&mut v, "dBTP");
                    },
                    None => {},
                }
                push_str(&mut v, ".wav");
            },
        }
    }
    assert(v@ =~= output_candidate_of(*req, *settings));
    string_of(&v)
}

/// The `n`th name tried for an output that would land on one of its own
/// sources: the path itself first, then "<stem>_<n>.<ext>" in the same
/// folder ("output" when the path has no stem).
pub open spec fn collision_candidate_of(path: Seq<char>, n: nat) -> Seq<char> {
    if n == 0 {
        path
    } else {
        let stem = match path_file_stem(path) {
            Some(s) => s,
            None => "output"@,
        };
        let name = match path_extension(path) {
            Some(e) => stem + "_"@ + decimal(n) + "."@ + e,
            None => stem + "_"@ + decimal(n),
        };
        match path_parent(path) {
            Some(d) => if d.len() > 0 {
                d + "/"@ + name
            } else {
                name
            },
            None => name,
        }
    }
}

/// The `n`th name to try for an output path that clashes with one of the
/// pair's sources (the 0th is the path itself).
pub fn collision_candidate(path: &str, n: u64) -> (r: String)
    ensures
        r@ == collision_candidate_of(path@, n as nat),
{
    if n == 0 {
        return owned(path);
    }
    let mut name: Vec<char> = match file_stem_of(path) {
        Some(s) => chars_of(s.as_str()),
        None => chars_of("output"),
    };
    push_str(&mut name, "_");
    push_decimal(&mut name, n);
    match extension_of(path) {
        Some(e) => {
            push_str(&mut name, ".");
            push_str(&mut name, e.as_str());
        },
        None => {},
    }
    let mut v: Vec<char> = Vec::new();
    match parent_of(path) {
        Some(d) => {
            let dv = chars_of(d.as_str());
            if dv.len() > 0 {
                v = dv;
                push_str(&mut v, "/");
            }
        },
        None => {},
    }
    let ghost before = v@;
    for i in 0..name.len()
        invariant
            v@ == before + name@.take(i as int),
    {
        v.push(name[i]);
        proof {
            assert(name@.take(i + 1) =~= name@.take(i as int).push(name@[i as int]));
        }
    }
    assert(name@.take(name@.len() as int) =~= name@);
    assert(v@ =~= collision_candidate_of(path@, n as nat));
    string_of(&v)
}

/// Two different renames of one path are different names, so the search
/// for a free name never tries the same name twice.
pub proof fn lemma_collision_candidates_differ(path: Seq<char>, n: nat, m: nat)
    requires
        1 <= n,
        1 <= m,
        n != m,
    ensures
        collision_candidate_of(path, n) != collision_candidate_of(path, m),
{
    let stem = match path_file_stem(path) {
        Some(s) => s,
        None => "output"@,
    };
    let pre0 = stem + "_"@;
    let pre = match path_parent(path) {
        Some(d) => if d.len() > 0 {
            d + "/"@ + pre0
        } else {
            pre0
        },
        None => pre0,
    };
    let post = match path_extension(path) {
        Some(e) => "."@ + e,
        None => Seq::<char>::empty(),
    };
    assert(collision_candidate_of(path, n) =~= pre + decimal(n) + post);
    assert(collision_candidate_of(path, m) =~= pre + decimal(m) + post);
    if collision_candidate_of(path, n) == collision_candidate_of(path, m) {
        let a = pre + decimal(n) + post;
        let b = pre + decimal(m) + post;
        assert(decimal(n).len() == decimal(m).len());
        assert(decimal(n) =~= a.subrange(pre.len() as int, (pre.len() + decimal(n).len()) as int));
        assert(decimal(m) =~= b.subrange(pre.len() as int, (pre.len() + decimal(m).len()) as int));
        crate::namer::lemma_decimal_injective(n, m);
    }
}

/// A path as compared with a pair's sources: its file name joined to its
/// parent folder as resolved on disk (`canonical_parent`, when it could be),
/// the whole lowercased — file systems that ignore case see one file.
pub open spec fn normalized_path_of(path: Seq<char>, canonical_parent: Option<Seq<char>>) -> Seq<char> {
    match canonical_parent {
        Some(d) => lowercase(
            path_join(
                d,
                match path_file_name(path) {
                    Some(n) => n,
                    None => Seq::empty(),
                },
            ),
        ),
        None => lowercase(path),
    }
}

/// A path as compared with a pair's sources (`canonical_parent` is its
/// parent folder resolved on disk, when that worked).
pub fn normalized_path(path: &str, canonical_parent: Option<&str>) -> (r: String)
    ensures
        r@ == normalized_path_of(
            path@,
            match canonical_parent {
                Some(d) => Some(d@),
                None => None,
            },
        ),
{
    match canonical_parent {
        Some(d) => {
            let name = match file_name_of(path) {
                Some(n) => n,
                None => String::new(),
            };
            let joined = join_path(d, name.as_str());
            to_lowercase(joined.as_str())
        },
        None => to_lowercase(path),
    }
}

/// Does the `n`th rename of `path` land on one of the pair's sources: is
/// its normalised form (under `canonical_parent`, the path's folder as
/// resolved on disk) among the sources' normalised forms?
pub open spec fn candidate_taken(
    path: Seq<char>,
    canonical_parent: Option<Seq<char>>,
    sources: Seq<Seq<char>>,
    n: nat,
) -> bool {
    sources.contains(normalized_path_of(collision_candidate_of(path, n), canonical_parent))
}

/// The first rename of `path` from the `n`th on that lands on no source
/// (renames stop at the `u64::MAX`th, which is taken as it is).
pub open spec fn settled_index(
    path: Seq<char>,
    canonical_parent: Option<Seq<char>>,
    sources: Seq<Seq<char>>,
    n: nat,
) -> nat
    decreases u64::MAX - n,
{
    if n >= u64::MAX || !candidate_taken(path, canonical_parent, sources, n) {
        n
    } else {
        settled_index(path, canonical_parent, sources, n + 1)
    }
}

/// Where an output goes so that it never lands on one of the pair's own
/// sources (ffmpeg can't write a file it reads): `path` itself when it is
/// clear of them, else the first clear "<stem>_<n>.<ext>" beside it.
/// `sources` are the sources' normalised paths; `canonical_parent` is
/// `path`'s folder as resolved on disk (every rename lies in that folder).
pub fn settle_output(path: &str, canonical_parent: Option<&str>, sources: &Vec<String>) -> (r: String)
    ensures
        r@ == collision_candidate_of(
            path@,
            settled_index(
                path@,
                match canonical_parent {
                    Some(d) => Some(d@),
                    None => None,
                },
                views(sources@),
                0,
            ),
        ),
{
    let ghost cp = match canonical_parent {
        Some(d) => Some(d@),
        None => None,
    };
    let ghost target = settled_index(path@, cp, views(sources@), 0);
    let mut n: u64 = 0;
    loop
        invariant
            cp == match canonical_parent {
                Some(d) => Some(d@),
                None => None,
            },
            target == settled_index(path@, cp, views(sources@), 0),
            settled_index(path@, cp, views(sources@), n as nat) == target,
        decreases u64::MAX - n,
    {
        let c = collision_candidate(path, n);
        let norm = normalized_path(c.as_str(), canonical_parent);
        if n == u64::MAX || !crate::text::contains_string(sources, &norm) {
            return c;
        }
        n += 1;
    }
}

/// A clear output path is never one of the sources: unless every rename
/// up to the `u64::MAX`th is taken, the settled path lands on no source.
pub proof fn lemma_settled_is_clear(
    path: Seq<char>,
    canonical_parent: Option<Seq<char>>,
    sources: Seq<Seq<char>>,
    n: nat,
)
    requires
        n <= u64::MAX,
    ensures
        n <= settled_index(path, canonical_parent, sources, n) <= u64::MAX,
        settled_index(path, canonical_parent, sources, n) < u64::MAX ==> !candidate_taken(
            path,
            canonical_parent,
            sources,
            settled_index(path, canonical_parent, sources, n),
        ),
        forall|m: nat|
            n <= m < settled_index(path, canonical_parent, sources, n) ==> #[trigger] candidate_taken(
                path,
                canonical_parent,
                sources,
                m,
            ),
    decreases u64::MAX - n,
{
    if n < u64::MAX && candidate_taken(path, canonical_parent, sources, n) {
        lemma_settled_is_clear(path, canonical_parent, sources, n + 1);
    }
}

/// A pair's render with everything worked out but the normalisation gain:
/// the files, the output path (clear of the pair's own sources), the
/// silence-compliance filters and, for a layback, the length fix, timing
/// and slate.
pub struct PairJob {
    pub pair_id: String,
    pub audio_path: String,
    /// The video, for a layback; none for an audio-only render.
    pub video_path: Option<String>,
    pub output_path: String,
    /// Measure the audio first and apply the gain that reaches the target.
    pub normalize: bool,
    pub compliance: Vec<String>,
    /// Audio-only renders: add the silent clock handles.
    pub clock: bool,
    pub length_fix: LengthFix,
    pub timing: MuxTiming,
    pub slate: Option<SlateInput>,
}

/// How a pair's processing ended.
pub struct PairOutcome {
    pub pair_id: String,
    pub success: bool,
    /// The file written, on success.
    pub output_path: Option<String>,
    /// Why it failed, on failure.
    pub error: Option<String>,
}

/// The next thing to do for a pair.
pub enum PairStep {
    /// Measure the audio's loudness; the gain (or the failure) comes back
    /// to `pair_measured`.
    Measure,
    /// Report `message` and run ffmpeg with `args`; the result comes back
    /// to `pair_ran`.
    Run { message: String, args: Vec<String> },
    /// Done.
    Finish(PairOutcome),
}

/// An outcome as plain values: id, success, output path, error.
pub open spec fn outcome_view(o: PairOutcome) -> (Seq<char>, bool, Option<Seq<char>>, Option<Seq<char>>) {
    (
        o.pair_id@,
        o.success,
        match o.output_path {
            Some(p) => Some(p@),
            None => None,
        },
        match o.error {
            Some(e) => Some(e@),
            None => None,
        },
    )
}

/// The progress message of the render.
pub open spec fn run_message_of(audio_only: bool) -> Seq<char> {
    if audio_only {
        "Processing audio..."@
    } else {
        "Muxing video and audio..."@
    }
}

/// The ffmpeg arguments that render a pair with gain text `gain`: the
/// layback mux when there is a video, else the audio-only render.
pub open spec fn run_args_of(job: PairJob, settings: ExportSettings, gain: Option<Seq<char>>) -> Seq<
    Seq<char>,
> {
    match job.video_path {
        Some(v) => mux_command_of(
            v@,
            job.audio_path@,
            job.output_path@,
            settings.video_codec,
            settings.audio_format,
            settings.aac_bitrate,
            gain,
            views(job.compliance@),
            job.length_fix,
            timing_view(job.timing),
            match job.slate {
                Some(s) => slate_view(Some(&s)),
                None => slate_view(None),
            },
        ),
        None => audio_only_command_of(
            job.audio_path@,
            job.output_path@,
            settings.audio_format,
            settings.aac_bitrate,
            gain,
            views(job.compliance@),
            job.clock,
        ),
    }
}

/// The step that renders the pair with normalisation gain `gain_db` (its
/// text, when a gain is applied).
pub open spec fn is_run_step(step: PairStep, job: PairJob, settings: ExportSettings, gain: Option<Seq<char>>) -> bool {
    &&& step matches PairStep::Run { message, args }
    &&& message@ == run_message_of(job.video_path is None)
    &&& views(args@) == run_args_of(job, settings, gain)
}

/// Render the pair with normalisation gain `gain_db` (its text, when a gain
/// is applied).
pub fn pair_run(job: &PairJob, settings: &ExportSettings, gain_db: Option<&str>) -> (r: PairStep)
    ensures
        is_run_step(
            r,
            *job,
            *settings,
            match gain_db {
                Some(g) => Some(g@),
                None => None,
            },
        ),
{
    match &job.video_path {
        Some(v) => {
            let args = match &job.slate {
                Some(s) => build_mux_command(
                    v.as_str(),
                    job.audio_path.as_str(),
                    job.output_path.as_str(),
                    settings,
                    gain_db,
                    &job.compliance,
                    job.length_fix,
                    &job.timing,
                    Some(s),
                ),
                None => build_mux_command(
                    v.as_str(),
                    job.audio_path.as_str(),
                    job.output_path.as_str(),
                    settings,
                    gain_db,
                    &job.compliance,
                    job.length_fix,
                    &job.timing,
                    None,
                ),
            };
            PairStep::Run { message: owned("Muxing video and audio..."), args }
        },
        None => {
            let args = build_audio_only_command(
                job.audio_path.as_str(),
                job.output_path.as_str(),
                settings,
                gain_db,
                &job.compliance,
                job.clock,
            );
            PairStep::Run { message: owned("Processing audio..."), args }
        },
    }
}

/// The first step for a pair: measure its loudness when it is normalised,
/// else render it straight away with no gain.
pub fn pair_begin(job: &PairJob, settings: &ExportSettings) -> (r: PairStep)
    ensures
        job.normalize ==> r is Measure,
        !job.normalize ==> is_run_step(r, *job, *settings, None),
{
    if job.normalize {
        PairStep::Measure
    } else {
        pair_run(job, settings, None)
    }
}

/// A failure outcome for a pair.
fn failed(pair_id: &String, error: Vec<char>) -> (r: PairOutcome)
    ensures
        outcome_view(r) == (pair_id@, false, None::<Seq<char>>, Some(error@)),
{
    PairOutcome { pair_id: owned(pair_id.as_str()), success: false, output_path: None, error: Some(string_of(&error)) }
}

/// After measuring: `measured` is the gain's text (none when the gain is
/// too small to apply), or why the measurement failed. A failed measurement
/// ends the pair with "Loudness measurement failed: <why>" and renders
/// nothing; otherwise the pair is rendered with that gain.
pub fn pair_measured(job: &PairJob, settings: &ExportSettings, measured: Result<Option<String>, String>) -> (r:
    PairStep)
    ensures
        measured matches Err(e) ==> r matches PairStep::Finish(o) && outcome_view(o) == (
            job.pair_id@,
            false,
            None::<Seq<char>>,
            Some("Loudness measurement failed: "@ + e@),
        ),
        measured matches Ok(g) ==> is_run_step(
            r,
            *job,
            *settings,
            match g {
                Some(g) => Some(g@),
                None => None,
            },
        ),
{
    match measured {
        Ok(Some(g)) => pair_run(job, settings, Some(g.as_str())),
        Ok(None) => pair_run(job, settings, None),
        Err(e) => {
            let mut v = chars_of("Loudness measurement failed: ");
            push_str(&mut v, e.as_str());
            PairStep::Finish(failed(&job.pair_id, v))
        },
    }
}

/// After the render: success with the output path when ffmpeg succeeded,
/// else failure with ffmpeg's error.
pub fn pair_ran(job: &PairJob, ran: Result<(), String>) -> (r: PairOutcome)
    ensures
        ran is Ok ==> outcome_view(r) == (job.pair_id@, true, Some(job.output_path@), None::<Seq<char>>),
        ran matches Err(e) ==> outcome_view(r) == (job.pair_id@, false, None::<Seq<char>>, Some(e@)),
{
    match ran {
        Ok(()) => PairOutcome {
            pair_id: owned(job.pair_id.as_str()),
            success: true,
            output_path: Some(owned(job.output_path.as_str())),
            error: None,
        },
        Err(e) => failed(&job.pair_id, chars_of(e.as_str())),
    }
}

/// The output folder could not be made: "Failed to create output
/// directory: <why>".
pub fn pair_dir_failed(job: &PairJob, why: &str) -> (r: PairOutcome)
    ensures
        outcome_view(r) == (
            job.pair_id@,
            false,
            None::<Seq<char>>,
            Some("Failed to create output directory: "@ + why@),
        ),
{
    let mut v = chars_of("Failed to create output directory: ");
    push_str(&mut v, why);
    failed(&job.pair_id, v)
}

/// A pair skipped because the batch was cancelled: "Cancelled".
pub fn pair_cancelled(pair_id: &String) -> (r: PairOutcome)
    ensures
        outcome_view(r) == (pair_id@, false, None::<Seq<char>>, Some("Cancelled"@)),
{
    let v = chars_of("Cancelled");
    failed(pair_id, v)
}

} // verus!
