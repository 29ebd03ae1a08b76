use laybacker::processing::{
    build_process_command, check_workdir, fold_mono_expr, fold_stereo_expr, layout_channels, op_applies,
    output_beside, process_audio, process_audio_to, resolve_parent_steps, shape_inspected, shape_split, shape_start, trim_expr,
    ShapeAction,
};

#[test]
fn test_fold_stereo_5_1_uses_itu_coefficients_and_drops_lfe() {
    let e = fold_stereo_expr("5.1", 6).unwrap();
    assert_eq!(e, "pan=stereo|FL=FL+0.707*FC+0.707*BL|FR=FR+0.707*FC+0.707*BR");
    assert!(!e.contains("LFE"));
}

#[test]
fn test_fold_stereo_side_layout_and_7_1() {
    assert_eq!(
        fold_stereo_expr("5.1(side)", 6).unwrap(),
        "pan=stereo|FL=FL+0.707*FC+0.707*SL|FR=FR+0.707*FC+0.707*SR"
    );
    assert_eq!(
        fold_stereo_expr("7.1", 8).unwrap(),
        "pan=stereo|FL=FL+0.707*FC+0.707*BL+0.707*SL|FR=FR+0.707*FC+0.707*BR+0.707*SR"
    );
}

#[test]
fn test_fold_stereo_refuses_stereo_and_unknown_count_falls_back() {
    assert!(fold_stereo_expr("stereo", 2).is_err());
    // Unknown layout name, 6 channels → treated as 5.1
    assert_eq!(fold_stereo_expr("weird", 6).unwrap(), fold_stereo_expr("5.1", 6).unwrap());
}

#[test]
fn test_fold_mono_renormalises() {
    assert_eq!(fold_mono_expr("stereo", 2).unwrap(), "pan=mono|FC<FL+FR");
    assert_eq!(fold_mono_expr("5.1", 6).unwrap(), "pan=mono|FC<FL+FR+0.707*FC+0.707*BL+0.707*BR");
    assert!(fold_mono_expr("mono", 1).is_err());
}

#[test]
fn test_trim_expr_reverses_for_the_tail() {
    let e = trim_expr("-60");
    assert_eq!(e.matches("silenceremove").count(), 2);
    assert_eq!(e.matches("areverse").count(), 2);
    assert!(e.contains("start_threshold=-60dB"));
}

#[test]
fn test_output_beside_and_command_shape() {
    assert_eq!(output_beside("/a/b/Mix.aif", "faded"), "/a/b/Mix_faded.wav");
    let args = build_process_command("/a/in.wav", "/a/out.wav", "afade=t=in:d=1");
    assert_eq!(args[args.len() - 1], "/a/out.wav");
    assert!(args.contains(&"pcm_s24le".to_string()));
    assert!(args.contains(&"-vn".to_string()));
}

#[test]
fn test_workdir_guard_refuses_foreign_paths() {
    assert!(check_workdir("/Users/someone/Music", "/tmp").is_err());
    assert!(check_workdir("/tmp/not-ours", "/tmp").is_err());
    assert!(check_workdir("/tmp/laybacker-chain-1234", "/tmp").is_ok());
    assert_eq!(
        check_workdir("/var/laybacker-chain-1234", "/tmp"),
        Err("Not a Laybacker work folder".to_string())
    );
    // ".." steps are resolved first: they can't lead out of the temporary folder.
    assert!(check_workdir("/tmp/../home/u/laybacker-chain-x", "/tmp").is_err());
    assert!(check_workdir("/tmp/laybacker-chain-x/..", "/tmp").is_err());
    assert!(check_workdir("/tmp/..laybacker-chain-x", "/tmp").is_err());
    assert!(check_workdir("/tmp/laybacker-chain-x..y", "/tmp").is_ok());
    assert!(check_workdir("/tmp/a/../laybacker-chain-1", "/tmp").is_ok());
    assert!(check_workdir("/tmp/a/b/../../laybacker-chain-1", "/tmp").is_ok());
    assert!(check_workdir("/tmp/a/../../laybacker-chain-1", "/tmp").is_err());
}

#[test]
fn parent_steps_resolve_without_the_disk() {
    assert_eq!(resolve_parent_steps("/tmp/a/../b"), "/tmp/b");
    assert_eq!(resolve_parent_steps("/tmp/../../etc/./x"), "/etc/x");
    assert_eq!(resolve_parent_steps("a/../../b"), "../b");
    assert_eq!(resolve_parent_steps("/tmp//x/"), "/tmp/x");
    assert_eq!(resolve_parent_steps("/"), "/");
    assert_eq!(resolve_parent_steps("..x/y"), "..x/y");
}

#[test]
fn outputs_of_a_bare_file_name_stay_beside_it() {
    assert_eq!(output_beside("Mix.aif", "faded"), "./Mix_faded.wav");
    let p = process_audio("trim", "Mix.aif", None, 2, "", "-60").unwrap();
    assert_eq!(p.output, "./Mix_trimmed.wav");
}

#[test]
fn test_shape_file_with_no_ops_returns_source() {
    let (state, action) = shape_start("/x/Mix.wav", &vec![], "/tmp");
    assert!(matches!(action, ShapeAction::Done));
    assert_eq!(state.result.files, vec!["/x/Mix.wav".to_string()]);
    assert!(state.result.applied.is_empty() && state.result.skipped.is_empty());
}

#[test]
fn test_op_applies_by_channel_count() {
    assert!(!op_applies("fold_stereo", 2));
    assert!(op_applies("fold_stereo", 6));
    assert!(!op_applies("fold_mono", 1));
    assert!(op_applies("fold_mono", 2));
    assert!(!op_applies("split", 1));
    assert!(op_applies("fade", 1));
    assert!(op_applies("trim", 1));
}

#[test]
fn test_process_audio_rejects_unknown_op() {
    let err = process_audio("wibble", "/x.wav", None, 2, "", "-60").err().unwrap();
    assert!(err.contains("Unknown processing op"));
    assert_eq!(err, "Unknown processing op: wibble");
}

#[test]
fn process_audio_plans_each_op() {
    let p = process_audio("fold_stereo", "/m/Mix.wav", Some("5.1"), 6, "", "-60").unwrap();
    assert_eq!(p.output, "/m/Mix_stereo.wav");
    let f = p.args.iter().position(|a| a == "-af").map(|i| p.args[i + 1].clone());
    let all = p.args.join(" ");
    assert!(all.contains("pan=stereo|FL=FL+0.707*FC+0.707*BL|FR=FR+0.707*FC+0.707*BR,alimiter=limit=0.98:level=false"), "{all} {f:?}");
    let p = process_audio("fold_mono", "/m/Mix.wav", None, 2, "", "-60").unwrap();
    assert_eq!(p.output, "/m/Mix_mono.wav");
    let p = process_audio("fade", "/m/Mix.wav", None, 2, "afade=t=in:st=0:d=0.5", "-60").unwrap();
    assert_eq!(p.output, "/m/Mix_faded.wav");
    assert!(p.args.contains(&"afade=t=in:st=0:d=0.5".to_string()));
    let p = process_audio("trim", "/m/Mix.wav", None, 2, "", "-50").unwrap();
    assert_eq!(p.output, "/m/Mix_trimmed.wav");
    assert!(p.args.join(" ").contains("start_threshold=-50dB"));
    let p = process_audio_to("trim", "/m/Mix.wav", None, 2, "", "-50", Some("/w/step1/Mix.wav")).unwrap();
    assert_eq!(p.output, "/w/step1/Mix.wav");
    assert_eq!(p.args.last().unwrap(), "/w/step1/Mix.wav");
    assert_eq!(process_audio("fold_stereo", "/m/Mix.wav", None, 2, "", "-60").err(), fold_stereo_expr("stereo", 2).err());
}

#[test]
fn layout_channel_table() {
    assert_eq!(layout_channels("5.1", 6), vec!["FL", "FR", "FC", "LFE", "BL", "BR"]);
    assert_eq!(layout_channels("strange", 2), vec!["FL", "FR"]);
}

#[test]
fn shaping_runs_steps_in_numbered_folders_and_splits_last() {
    let ops = vec!["split".to_string(), "fold_stereo".to_string(), "fade".to_string()];
    let (state, action) = shape_start("/src/Mix.wav", &ops, "/w");
    assert!(matches!(action, ShapeAction::Inspect));
    // The source has six channels: the split waits, the fold runs first.
    let (state, action) = shape_inspected(state, &ops, Some(6));
    match &action {
        ShapeAction::Process { kind, input, dir, output } => {
            assert_eq!(kind, "fold_stereo");
            assert_eq!(input, "/src/Mix.wav");
            assert_eq!(dir, "/w/step2");
            assert_eq!(output, "/w/step2/Mix.wav");
        }
        _ => panic!("expected a step"),
    }
    let (state, action) = shape_inspected(state, &ops, Some(2));
    match &action {
        ShapeAction::Process { kind, input, output, .. } => {
            assert_eq!(kind, "fade");
            assert_eq!(input, "/w/step2/Mix.wav");
            assert_eq!(output, "/w/step3/Mix.wav");
        }
        _ => panic!("expected a step"),
    }
    let (state, action) = shape_inspected(state, &ops, Some(2));
    match &action {
        ShapeAction::Split { input, dir } => {
            assert_eq!(input, "/w/step3/Mix.wav");
            assert_eq!(dir, "/w/split");
        }
        _ => panic!("expected the split"),
    }
    let state = shape_split(state, vec!["/w/split/Mix_L.wav".to_string(), "/w/split/Mix_R.wav".to_string()]);
    assert_eq!(state.result.files, vec!["/w/split/Mix_L.wav", "/w/split/Mix_R.wav"]);
    assert_eq!(state.result.applied, vec!["fold_stereo", "fade", "split"]);
    assert!(state.result.skipped.is_empty());
}

#[test]
fn shaping_skips_what_does_not_apply() {
    let ops = vec!["fold_stereo".to_string(), "split".to_string()];
    let (state, _) = shape_start("/src/Mix.wav", &ops, "/w");
    // A stereo file: no fold to stereo; after that, a stereo file can split.
    let (state, action) = shape_inspected(state, &ops, Some(2));
    assert!(matches!(action, ShapeAction::Split { .. }));
    assert_eq!(state.result.skipped, vec!["fold_stereo"]);
    assert_eq!(state.result.files, vec!["/src/Mix.wav"]);
    // A mono file: both are skipped, the source is the result.
    let (state, _) = shape_start("/src/Mono.wav", &ops, "/w");
    let (state, action) = shape_inspected(state, &ops, None);
    assert!(matches!(action, ShapeAction::Done));
    assert_eq!(state.result.skipped, vec!["fold_stereo", "split"]);
    assert_eq!(state.result.files, vec!["/src/Mono.wav"]);
    assert!(state.result.applied.is_empty());
}
