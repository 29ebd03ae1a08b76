use laybacker::fastslate::{
    build_join_command, build_tail_command, cut_point, decode_verdict, eligible, segment_list, splice_cut, splice_verdict,
    x264_profile, SourceVideo,
};

fn src() -> SourceVideo {
    SourceVideo {
        codec: "h264".into(),
        profile: "High".into(),
        level: 40,
        pix_fmt: "yuv420p".into(),
        width: 1920,
        height: 1080,
        fps_num: 25,
        fps_den: 1,
        sar: "1:1".into(),
        keyframes_us: vec![0, 9_960_000, 19_920_000],
        packets: 750,
    }
}

#[test]
fn test_eligibility() {
    assert!(eligible(&src()).is_ok());
    let mut v = src();
    v.codec = "prores".into();
    assert!(eligible(&v).unwrap_err().contains("not H.264"));
    let mut v = src();
    v.profile = "High 10".into();
    assert!(eligible(&v).unwrap_err().contains("profile"));
    let mut v = src();
    v.pix_fmt = "yuv422p".into();
    assert!(eligible(&v).unwrap_err().contains("pixel format"));
}

#[test]
fn eligibility_reasons_exactly() {
    let mut v = src();
    v.codec = "hevc".into();
    assert_eq!(eligible(&v), Err("source is hevc, not H.264".to_string()));
    let mut v = src();
    v.profile = "High 4:2:2".into();
    assert_eq!(eligible(&v), Err("H.264 profile High 4:2:2 can't be matched".to_string()));
    let mut v = src();
    v.fps_den = 0;
    assert_eq!(eligible(&v), Err("incomplete stream details".to_string()));
    let mut v = src();
    v.pix_fmt = "".into();
    assert_eq!(eligible(&v), Err("incomplete stream details".to_string()));
    let mut v = src();
    v.pix_fmt = "yuvj420p".into();
    assert!(eligible(&v).is_ok());
    let mut v = src();
    v.keyframes_us = vec![];
    assert_eq!(eligible(&v), Err("no frames".to_string()));
}

#[test]
fn x264_profile_names() {
    assert_eq!(x264_profile("High"), Some("high"));
    assert_eq!(x264_profile("  Main\n"), Some("main"));
    assert_eq!(x264_profile("Constrained Baseline"), Some("baseline"));
    assert_eq!(x264_profile("Baseline"), Some("baseline"));
    assert_eq!(x264_profile("High 10"), None);
    assert_eq!(x264_profile("high"), None);
}

#[test]
fn test_cut_point_is_first_keyframe_at_or_after() {
    assert_eq!(cut_point(&vec![0, 9_960_000, 19_920_000], 5_000_000), Some(9_960_000));
    assert_eq!(cut_point(&vec![0, 9_960_000, 19_920_000], 9_960_000), Some(9_960_000));
    assert_eq!(cut_point(&vec![0, 9_960_000, 19_920_000], 25_000_000), None);
}

#[test]
fn cut_point_allows_half_a_millisecond() {
    assert_eq!(cut_point(&vec![1_000_000, 2_000_000], 1_000_500), Some(1_000_000));
    assert_eq!(cut_point(&vec![1_000_000, 2_000_000], 1_000_501), Some(2_000_000));
}

#[test]
fn splice_cut_for_card_and_overlay() {
    assert_eq!(splice_cut(&src(), None), Ok(None));
    assert_eq!(splice_cut(&src(), Some(3_000_000)), Ok(Some(9_960_000)));
    assert_eq!(
        splice_cut(&src(), Some(30_000_000)),
        Err("no keyframe after the overlay — nothing to copy".to_string())
    );
}

#[test]
fn test_tail_and_join_commands_copy() {
    let t = build_tail_command("/v.mov", Some("9.9600"), "/w/tail.ts").join(" ");
    assert!(t.starts_with("-y -ss 9.9600 -i /v.mov") && t.contains("-c:v copy") && t.contains("h264_mp4toannexb"));
    let t0 = build_tail_command("/v.mov", None, "/w/tail.ts").join(" ");
    assert!(!t0.contains("-ss"));
    let jn = build_join_command("/w/segments.txt", "/w/spliced.mov").join(" ");
    assert!(jn.contains("-f concat -safe 0 -i /w/segments.txt") && jn.contains("-c:v copy"));
}

#[test]
fn segment_list_escapes_quotes() {
    assert_eq!(segment_list("/w/head.ts", "/w/tail.ts"), "file '/w/head.ts'\nfile '/w/tail.ts'\n");
    assert_eq!(segment_list("/w/it's/head.ts", "/t.ts"), "file '/w/it'\\''s/head.ts'\nfile '/t.ts'\n");
}

#[test]
fn splice_counts_must_add_up() {
    assert_eq!(splice_verdict(100, 650, 750, None), Ok(()));
    assert_eq!(splice_verdict(100, 650, 749, None), Err("frame count 749 ≠ expected 750".to_string()));
    assert_eq!(splice_verdict(250, 500, 750, Some((750, "9.960"))), Ok(()));
    assert_eq!(
        splice_verdict(250, 499, 749, Some((750, "9.960"))),
        Err("overlay join has 749 frames, source has 750 (cut at 9.960s)".to_string())
    );
}

#[test]
fn decode_check_needs_silence_and_success() {
    assert_eq!(decode_verdict(true, "  \n"), Ok(()));
    assert_eq!(decode_verdict(true, "[h264] error while decoding\n"), Err("decode check: [h264] error while decoding".to_string()));
    assert_eq!(decode_verdict(false, ""), Err("decode check: ".to_string()));
}
