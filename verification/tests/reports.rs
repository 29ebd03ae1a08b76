use laybacker::reports::{astats_peak, astats_rms, clock_parts, ebur128_summary, packet_count, phase_values};

/// Seconds of an ffmpeg clock time, from the library's pieces.
fn parse_ffmpeg_time(s: &str) -> Option<f64> {
    let (h, m, sec) = clock_parts(s)?;
    Some(h.parse::<f64>().unwrap() * 3600.0 + m.parse::<f64>().unwrap() * 60.0 + sec.parse::<f64>().unwrap())
}

fn parse_ebur128_output(s: &str) -> Option<(f64, f64)> {
    let (l, p) = ebur128_summary(s)?;
    Some((l.parse().unwrap(), p.parse().unwrap()))
}

fn parse_peak_from_astats(s: &str) -> Option<f64> {
    let v = astats_peak(s)?;
    if v == "-inf" {
        Some(-120.0)
    } else {
        v.parse().ok()
    }
}

#[test]
fn test_parse_ffmpeg_time() {
    assert_eq!(parse_ffmpeg_time("00:00:00.000000"), Some(0.0));
    assert_eq!(parse_ffmpeg_time("00:01:30.500000"), Some(90.5));
    assert_eq!(parse_ffmpeg_time("01:00:00.000000"), Some(3600.0));
    assert_eq!(parse_ffmpeg_time("N/A"), None);
    assert_eq!(parse_ffmpeg_time(""), None);
    assert_eq!(parse_ffmpeg_time("nonsense"), None);
}

#[test]
fn clock_parts_pieces() {
    assert_eq!(
        clock_parts(" 00:01:30.5\n"),
        Some(("00".to_string(), "01".to_string(), "30.5".to_string()))
    );
    assert_eq!(clock_parts("1:2"), None);
    assert_eq!(clock_parts("1:2:"), None);
    assert_eq!(clock_parts("1:2:3:4"), Some(("1".to_string(), "2".to_string(), "3".to_string())));
}

#[test]
fn test_parse_ebur128_output_normal() {
    let stderr = r#"
[Parsed_ebur128_0 @ 0x600001234] t: 0.0  M: -120.7  S: -120.7
[Parsed_ebur128_0 @ 0x600001234] t: 0.4  M:  -25.3  S:  -25.3

Summary:

  Integrated loudness:
    I:         -23.0 LUFS
    Threshold: -33.0 LUFS

  Loudness range:
    LRA:         8.5 LU
    Threshold:  -43.0 LUFS
    LRA low:   -28.0 LUFS
    LRA high:  -19.5 LUFS

  True peak:
    Peak:       -1.5 dBFS
"#;
    let result = parse_ebur128_output(stderr);
    assert!(result.is_some());
    let (lufs, tp) = result.unwrap();
    assert!((lufs - (-23.0)).abs() < 0.01);
    assert!((tp - (-1.5)).abs() < 0.01);
    assert_eq!(ebur128_summary(stderr), Some(("-23.0".to_string(), "-1.5".to_string())));
}

#[test]
fn test_parse_ebur128_output_no_summary() {
    let stderr = "some random ffmpeg output without summary";
    assert!(parse_ebur128_output(stderr).is_none());
}

#[test]
fn test_parse_ebur128_output_missing_peak() {
    let stderr = "Summary:\n  Integrated loudness:\n    I: -23.0 LUFS\n";
    assert!(parse_ebur128_output(stderr).is_none());
}

#[test]
fn ebur128_running_values_before_the_summary_are_ignored() {
    let s = "I: -40.0 LUFS\nPeak: -9.0 dBFS\r\nSummary:\r\n  I: -18.2 LUFS\r\n  Peak: -0.4 dBFS\r\n";
    assert_eq!(ebur128_summary(s), Some(("-18.2".to_string(), "-0.4".to_string())));
}

#[test]
fn test_parse_peak_from_astats_normal() {
    let stderr = "Peak level dB:   -12.5\n";
    assert!((parse_peak_from_astats(stderr).unwrap() - (-12.5)).abs() < 0.01);
}

#[test]
fn test_parse_peak_from_astats_silence() {
    let stderr = "Peak level dB: -inf\n";
    assert!((parse_peak_from_astats(stderr).unwrap() - (-120.0)).abs() < 0.01);
}

#[test]
fn test_parse_peak_from_astats_missing() {
    assert!(parse_peak_from_astats("no peak info here").is_none());
}

#[test]
fn test_parse_astats_rms_per_channel() {
    let s = "[x] Channel: 1\n[x] RMS level dB: -17.08\n[x] Channel: 2\n[x] RMS level dB: -inf\n[x] Overall\n[x] RMS level dB: -3.0\n";
    assert_eq!(astats_rms(s), vec!["-17.08", "-inf"]);
    let levels: Vec<f64> = astats_rms(s)
        .iter()
        .map(|t| t.parse::<f64>().unwrap())
        .map(|v| if v.is_finite() { v } else { -120.0 })
        .collect();
    assert_eq!(levels, vec![-17.08, -120.0]);
}

#[test]
fn test_parse_phase_mean() {
    let s = "frame:0 pts:0\nlavfi.aphasemeter.phase=1.0\nframe:1\nlavfi.aphasemeter.phase=0.5\n";
    assert_eq!(phase_values(s), vec!["1.0", "0.5"]);
    let v: Vec<f64> = phase_values(s).iter().map(|t| t.parse::<f64>().unwrap()).collect();
    assert_eq!(v.iter().sum::<f64>() / v.len() as f64, 0.75);
    assert!(phase_values("nothing").is_empty());
}

#[test]
fn packet_counts() {
    assert_eq!(packet_count("750\n"), Ok(750));
    assert_eq!(packet_count("\n  \n 750 \n750\n"), Ok(750));
    assert_eq!(packet_count("+12"), Ok(12));
    assert_eq!(packet_count("18446744073709551615"), Ok(u64::MAX));
    assert_eq!(packet_count("18446744073709551616"), Err("could not count packets".to_string()));
    assert_eq!(packet_count("N/A\n750"), Err("could not count packets".to_string()));
    assert_eq!(packet_count(""), Err("could not count packets".to_string()));
}
