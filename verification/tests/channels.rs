use laybacker::channels::{
    build_join_command, build_split_command, channel_names, join_channels, layout_for_count, split_channels,
    split_channels_to,
};

#[test]
fn test_channel_names_known_and_fallback() {
    assert_eq!(channel_names("stereo", 2), vec!["L", "R"]);
    assert_eq!(channel_names("5.1", 6), vec!["L", "R", "C", "LFE", "Ls", "Rs"]);
    assert_eq!(channel_names("5.1(side)", 6), vec!["L", "R", "C", "LFE", "Ls", "Rs"]);
    // Layout/count mismatch or unknown layout → numbered, never mislabelled.
    assert_eq!(channel_names("stereo", 3), vec!["ch1", "ch2", "ch3"]);
    assert_eq!(channel_names("hexagonal", 6).len(), 6);
}

#[test]
fn test_split_and_join_commands() {
    let outs = vec!["/a_L.wav".to_string(), "/a_R.wav".to_string()];
    let s = build_split_command("/a.wav", "stereo", &outs);
    let fc = s.iter().position(|a| a == "-filter_complex").unwrap();
    assert_eq!(s[fc + 1], "[0:a]channelsplit=channel_layout=stereo[c0][c1]");
    assert!(s.windows(2).any(|w| w[0] == "-map" && w[1] == "[c1]"));
    assert_eq!(s.last().unwrap(), "/a_R.wav");

    let j = build_join_command(&outs, "stereo", "/a_stereo.wav");
    let fc = j.iter().position(|a| a == "-filter_complex").unwrap();
    assert_eq!(j[fc + 1], "join=inputs=2:channel_layout=stereo[out]");
    assert_eq!(j.last().unwrap(), "/a_stereo.wav");
}

#[test]
fn layouts_by_count() {
    assert_eq!(layout_for_count(1), "mono");
    assert_eq!(layout_for_count(2), "stereo");
    assert_eq!(layout_for_count(6), "5.1");
    assert_eq!(layout_for_count(8), "7.1");
}

#[test]
fn split_plans_files_beside_the_source() {
    let plan = split_channels("/mix/Final.wav", Some("5.1"), 6).unwrap();
    assert_eq!(
        plan.outputs,
        vec![
            "/mix/Final_L.wav",
            "/mix/Final_R.wav",
            "/mix/Final_C.wav",
            "/mix/Final_LFE.wav",
            "/mix/Final_Ls.wav",
            "/mix/Final_Rs.wav"
        ]
    );
    assert_eq!(plan.args.last().unwrap(), "/mix/Final_Rs.wav");
    // An empty layout falls back to the standard one for the count.
    let plan = split_channels("/mix/Final.wav", Some(""), 2).unwrap();
    assert_eq!(plan.outputs, vec!["/mix/Final_L.wav", "/mix/Final_R.wav"]);
    let plan = split_channels("Final.wav", None, 2).unwrap();
    assert_eq!(plan.outputs, vec!["./Final_L.wav", "./Final_R.wav"]);
    let plan = split_channels_to("/mix/Final.wav", None, 2, Some("/work/split")).unwrap();
    assert_eq!(plan.outputs, vec!["/work/split/Final_L.wav", "/work/split/Final_R.wav"]);
}

#[test]
fn split_and_join_refusals() {
    assert_eq!(split_channels("/mix/Final.wav", None, 1).err(), Some("That file is already mono".to_string()));
    assert_eq!(
        join_channels(&vec!["/a_L.wav".to_string()], "stereo", "/a.wav").err(),
        Some("Need at least two mono files to join".to_string())
    );
    let args = join_channels(&vec!["/a_L.wav".to_string(), "/a_R.wav".to_string()], "stereo", "/a.wav").unwrap();
    assert_eq!(args, build_join_command(&vec!["/a_L.wav".to_string(), "/a_R.wav".to_string()], "stereo", "/a.wav"));
}
