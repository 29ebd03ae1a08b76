use laybacker::ffmpeg::MuxTiming;
use laybacker::models::{ExportSettings, LengthFix};
use laybacker::processor::{
    collision_candidate, normalized_path, output_candidate, settle_output, pair_begin, pair_cancelled, pair_dir_failed, pair_measured, pair_ran,
    OutputRequest, PairJob, PairStep, TargetText,
};

fn request(video: Option<(&str, &str)>, audio: (&str, &str), output_filename: &str) -> OutputRequest {
    OutputRequest {
        audio_path: audio.1.to_string(),
        audio_stem: audio.0.to_string(),
        video_stem: video.map(|v| v.0.to_string()),
        output_filename: output_filename.to_string(),
        target: None,
    }
}

/// The output path settled clear of the pair's sources. These paths don't
/// exist, so none of their folders resolves on disk.
fn resolve(req: &OutputRequest, video_path: Option<&str>, settings: &ExportSettings) -> String {
    let mut sources = vec![normalized_path(&req.audio_path, None)];
    if let Some(v) = video_path {
        sources.push(normalized_path(v, None));
    }
    settle_output(&output_candidate(req, settings), None, &sources)
}

#[test]
fn test_output_path_uses_audio_directory() {
    let req = request(Some(("Video", "/projects/Video.mov")), ("Audio", "/projects/Audio.wav"), "Output.mov");
    let settings = ExportSettings { use_audio_file_location: true, ..ExportSettings::default() };
    assert_eq!(resolve(&req, Some("/projects/Video.mov"), &settings), "/projects/Output.mov");
}

#[test]
fn test_output_path_uses_custom_directory() {
    let req = request(Some(("Video", "/projects/Video.mov")), ("Audio", "/projects/Audio.wav"), "Output.mov");
    let settings = ExportSettings {
        use_audio_file_location: false,
        output_directory: Some("/custom/output".to_string()),
        ..ExportSettings::default()
    };
    assert_eq!(resolve(&req, Some("/projects/Video.mov"), &settings), "/custom/output/Output.mov");
}

#[test]
fn test_output_path_fallback_when_no_custom_dir() {
    let req = request(Some(("Video", "/projects/Video.mov")), ("Audio", "/projects/Audio.wav"), "Output.mov");
    let settings = ExportSettings { use_audio_file_location: false, output_directory: None, ..ExportSettings::default() };
    assert_eq!(resolve(&req, Some("/projects/Video.mov"), &settings), "/projects/Output.mov");
}

#[test]
fn test_output_path_generates_name_when_empty() {
    let req = request(Some(("MyVideo", "/projects/MyVideo.mov")), ("Audio", "/projects/Audio.wav"), "");
    let path = resolve(&req, Some("/projects/MyVideo.mov"), &ExportSettings::default());
    assert!(path.contains("MyVideo_with audio.mov"));
}

#[test]
fn test_output_path_audio_only_no_norm() {
    let req = request(None, ("MyMix", "/projects/MyMix.wav"), "");
    assert_eq!(resolve(&req, None, &ExportSettings::default()), "/projects/MyMix_1.wav");
}

#[test]
fn test_output_path_never_overwrites_own_audio_source() {
    let req = request(
        None,
        ("MyMix_normalised_-1dBTP", "/projects/MyMix_normalised_-1dBTP.wav"),
        "MyMix_normalised_-1dBTP.wav",
    );
    assert_eq!(resolve(&req, None, &ExportSettings::default()), "/projects/MyMix_normalised_-1dBTP_1.wav");
}

#[test]
fn test_output_path_never_overwrites_video_source() {
    let req = request(Some(("Clip", "/projects/Clip.mov")), ("Mix", "/projects/Mix.wav"), "Clip.mov");
    assert_eq!(resolve(&req, Some("/projects/Clip.mov"), &ExportSettings::default()), "/projects/Clip_1.mov");
}

#[test]
fn test_output_path_no_collision_passes_through() {
    let req = request(Some(("Clip", "/projects/Clip.mov")), ("Mix", "/projects/Mix.wav"), "Clip_with audio.mov");
    assert_eq!(
        resolve(&req, Some("/projects/Clip.mov"), &ExportSettings::default()),
        "/projects/Clip_with audio.mov"
    );
}

#[test]
fn test_output_path_audio_only_with_norm() {
    let mut req = request(None, ("MyMix", "/projects/MyMix.wav"), "");
    req.target = Some(TargetText { lufs: Some("-23".to_string()), peak: "-1".to_string() });
    assert_eq!(resolve(&req, None, &ExportSettings::default()), "/projects/MyMix_normalised_-23LUFS_-1dBTP.wav");
}

#[test]
fn peak_only_target_and_aac_layback_names() {
    let mut req = request(None, ("MyMix", "/projects/MyMix.wav"), "");
    req.target = Some(TargetText { lufs: None, peak: "-2".to_string() });
    assert_eq!(output_candidate(&req, &ExportSettings::default()), "/projects/MyMix_normalised_-2dBTP.wav");
    let req = request(Some(("Clip", "/p/Clip.mov")), ("Mix", "/p/Mix.wav"), "");
    let aac = ExportSettings { audio_format: laybacker::models::AudioFormatOption::Aac, ..ExportSettings::default() };
    assert_eq!(output_candidate(&req, &aac), "/p/Clip_with audio.mp4");
}

#[test]
fn collision_candidates_count_up() {
    assert_eq!(collision_candidate("/p/Clip.mov", 0), "/p/Clip.mov");
    assert_eq!(collision_candidate("/p/Clip.mov", 1), "/p/Clip_1.mov");
    assert_eq!(collision_candidate("/p/Clip.mov", 12), "/p/Clip_12.mov");
    assert_eq!(collision_candidate("Clip", 2), "Clip_2");
}

fn job(video: Option<&str>, normalize: bool) -> PairJob {
    PairJob {
        pair_id: "p1".to_string(),
        audio_path: "/p/Mix.wav".to_string(),
        video_path: video.map(|v| v.to_string()),
        output_path: "/p/Out.mov".to_string(),
        normalize,
        compliance: Vec::new(),
        clock: false,
        length_fix: LengthFix::Cut,
        timing: MuxTiming {
            audio_longer: false,
            fps: "25.00000".to_string(),
            freeze_pad: "0.0000".to_string(),
            fade_out: String::new(),
            offset_ms: None,
        },
        slate: None,
    }
}

#[test]
fn pair_without_normalisation_renders_at_once() {
    let settings = ExportSettings::default();
    match pair_begin(&job(Some("/p/Clip.mov"), false), &settings) {
        PairStep::Run { message, args } => {
            assert_eq!(message, "Muxing video and audio...");
            assert_eq!(args.last().unwrap(), "/p/Out.mov");
            assert!(!args.contains(&"-af".to_string()));
        }
        _ => panic!("expected a render"),
    }
    match pair_begin(&job(None, false), &settings) {
        PairStep::Run { message, args } => {
            assert_eq!(message, "Processing audio...");
            assert!(args.contains(&"-vn".to_string()));
        }
        _ => panic!("expected a render"),
    }
}

#[test]
fn pair_with_normalisation_measures_first() {
    let settings = ExportSettings::default();
    let j = job(None, true);
    assert!(matches!(pair_begin(&j, &settings), PairStep::Measure));
    match pair_measured(&j, &settings, Ok(Some("-4.2".to_string()))) {
        PairStep::Run { args, .. } => {
            let af = args.iter().position(|a| a == "-af").unwrap();
            assert_eq!(args[af + 1], "volume=-4.2dB");
        }
        _ => panic!("expected a render"),
    }
    match pair_measured(&j, &settings, Ok(None)) {
        PairStep::Run { args, .. } => assert!(!args.contains(&"-af".to_string())),
        _ => panic!("expected a render"),
    }
    match pair_measured(&j, &settings, Err("no summary".to_string())) {
        PairStep::Finish(o) => {
            assert!(!o.success);
            assert_eq!(o.error, Some("Loudness measurement failed: no summary".to_string()));
            assert!(o.output_path.is_none());
        }
        _ => panic!("expected the end"),
    }
}

#[test]
fn pair_outcomes() {
    let j = job(Some("/p/Clip.mov"), false);
    let ok = pair_ran(&j, Ok(()));
    assert!(ok.success);
    assert_eq!(ok.pair_id, "p1");
    assert_eq!(ok.output_path, Some("/p/Out.mov".to_string()));
    assert!(ok.error.is_none());
    let bad = pair_ran(&j, Err("ffmpeg exited with 1".to_string()));
    assert!(!bad.success);
    assert_eq!(bad.error, Some("ffmpeg exited with 1".to_string()));
    let dir = pair_dir_failed(&j, "permission denied");
    assert_eq!(dir.error, Some("Failed to create output directory: permission denied".to_string()));
    let c = pair_cancelled(&"p9".to_string());
    assert_eq!(c.pair_id, "p9");
    assert_eq!(c.error, Some("Cancelled".to_string()));
}

#[test]
fn normalized_paths_ignore_case() {
    assert_eq!(normalized_path("/Projects/Mix.WAV", None), "/projects/mix.wav");
    assert_eq!(normalized_path("/link/Mix.WAV", Some("/Volumes/Real")), "/volumes/real/mix.wav");
}

#[test]
fn settling_skips_every_taken_rename() {
    let sources = vec!["/p/clip.mov".to_string(), "/p/clip_1.mov".to_string()];
    assert_eq!(settle_output("/p/Clip.mov", None, &sources), "/p/Clip_2.mov");
    assert_eq!(settle_output("/p/Other.mov", None, &sources), "/p/Other.mov");
    assert_eq!(settle_output("/link/Clip.mov", Some("/p"), &sources), "/link/Clip_2.mov");
}
