use laybacker::ffmpeg::{
    binary_candidates, build_audio_only_command, build_mux_command, build_prores_command, get_ffmpeg_version,
    MuxTiming, SlateInput,
};
use laybacker::models::{AudioFormatOption, ExportSettings, LengthFix, VideoCodecOption};

fn default_settings() -> ExportSettings {
    ExportSettings::default()
}

fn aac_settings() -> ExportSettings {
    ExportSettings { audio_format: AudioFormatOption::Aac, aac_bitrate: 320000, ..ExportSettings::default() }
}

/// 30 s of video and 30 s of audio at 25 fps, no offset.
fn even() -> MuxTiming {
    MuxTiming {
        audio_longer: false,
        fps: "25.00000".to_string(),
        freeze_pad: "0.0000".to_string(),
        fade_out: "afade=t=out:st=29.5200:d=0.4800".to_string(),
        offset_ms: None,
    }
}

/// 20 s of video under 30 s of audio at 25 fps.
fn audio_longer() -> MuxTiming {
    MuxTiming {
        audio_longer: true,
        fps: "25.00000".to_string(),
        freeze_pad: "10.0000".to_string(),
        fade_out: "afade=t=out:st=19.5200:d=0.4800".to_string(),
        offset_ms: None,
    }
}

fn none() -> Vec<String> {
    Vec::new()
}

#[test]
fn test_mux_command_basic_copy() {
    let args = build_mux_command(
        "/video.mov", "/audio.wav", "/out.mov", &default_settings(), None, &none(), LengthFix::Cut, &even(), None,
    );
    assert!(args.contains(&"-y".to_string()));
    assert!(args.contains(&"/video.mov".to_string()));
    assert!(args.contains(&"/audio.wav".to_string()));
    assert!(args.contains(&"copy".to_string())); // video copy
    assert!(args.contains(&"-shortest".to_string()));
    assert_eq!(args.last().unwrap(), "/out.mov");
    // No -af when no filters
    assert!(!args.contains(&"-af".to_string()));
}

#[test]
fn test_mux_command_with_gain() {
    let args = build_mux_command(
        "/video.mov", "/audio.wav", "/out.mov", &default_settings(), Some("3.5"), &none(), LengthFix::Cut, &even(),
        None,
    );
    assert!(args.contains(&"-af".to_string()));
    let af_idx = args.iter().position(|a| a == "-af").unwrap();
    assert_eq!(args[af_idx + 1], "volume=3.5dB");
    // With filters, codec should be pcm_s24le not copy
    assert!(args.contains(&"pcm_s24le".to_string()));
}

#[test]
fn test_mux_command_with_timecode_offset() {
    let t = MuxTiming { offset_ms: Some(500), ..even() };
    let args = build_mux_command(
        "/video.mov", "/audio.wav", "/out.mov", &default_settings(), None, &none(), LengthFix::Cut, &t, None,
    );
    let af_idx = args.iter().position(|a| a == "-af").unwrap();
    assert!(args[af_idx + 1].contains("adelay=500|500"));
}

#[test]
fn test_mux_command_h264_encoding() {
    let settings = ExportSettings { video_codec: VideoCodecOption::H264, ..ExportSettings::default() };
    let args =
        build_mux_command("/video.mov", "/audio.wav", "/out.mov", &settings, None, &none(), LengthFix::Cut, &even(), None);
    assert!(args.contains(&"libx264".to_string()));
    assert!(args.contains(&"yuv420p".to_string()));
}

#[test]
fn test_mux_command_aac_audio() {
    let args = build_mux_command(
        "/video.mov", "/audio.wav", "/out.mp4", &aac_settings(), None, &none(), LengthFix::Cut, &even(), None,
    );
    assert!(args.contains(&"aac".to_string()));
    assert!(args.contains(&"320000".to_string()));
}

#[test]
fn test_mux_command_with_compliance() {
    // The compliance filters of a 30 s programme with 240 ms of silence and 5 ms fades.
    let compliance = vec![
        "volume=enable='lt(t,0.2400)':volume=0".to_string(),
        "volume=enable='gt(t,29.7600)':volume=0".to_string(),
        "afade=t=in:st=0.2400:d=0.0050".to_string(),
        "afade=t=out:st=29.7550:d=0.0050".to_string(),
    ];
    let args = build_mux_command(
        "/video.mov", "/audio.wav", "/out.mov", &default_settings(), None, &compliance, LengthFix::Cut, &even(), None,
    );
    let af_idx = args.iter().position(|a| a == "-af").unwrap();
    let filters = &args[af_idx + 1];
    assert!(filters.contains("volume=enable="));
    assert!(filters.contains("afade=t=in"));
    assert!(filters.contains("afade=t=out"));
    assert_eq!(filters, &compliance.join(","));
}

#[test]
fn test_length_fix_cut_is_plain_shortest() {
    let args = build_mux_command(
        "/video.mov", "/audio.wav", "/out.mov", &default_settings(), None, &none(), LengthFix::Cut, &audio_longer(),
        None,
    );
    assert!(args.contains(&"-shortest".to_string()));
    assert!(args.contains(&"copy".to_string()));
    assert!(!args.contains(&"-af".to_string()), "cut adds no audio filter");
    assert!(!args.contains(&"-vf".to_string()), "cut adds no video filter");
}

#[test]
fn test_length_fix_fade_adds_afade_out() {
    let args = build_mux_command(
        "/video.mov", "/audio.wav", "/out.mov", &default_settings(), None, &none(), LengthFix::Fade, &audio_longer(),
        None,
    );
    let af_idx = args.iter().position(|a| a == "-af").unwrap();
    let filters = &args[af_idx + 1];
    assert!(filters.contains("afade=t=out:st=19.5200:d=0.4800"), "got {filters}");
    assert!(args.contains(&"-shortest".to_string()), "fade keeps video length");
    assert!(args.contains(&"pcm_s24le".to_string()));
}

#[test]
fn test_length_fix_freeze_pads_video_and_reencodes() {
    let args = build_mux_command(
        "/video.mov", "/audio.wav", "/out.mov", &default_settings(), None, &none(), LengthFix::Freeze,
        &audio_longer(), None,
    );
    let vf_idx = args.iter().position(|a| a == "-vf").expect("freeze sets -vf");
    assert!(
        args[vf_idx + 1].contains("tpad=stop_mode=clone:stop_duration=10.0000"),
        "got {}",
        args[vf_idx + 1]
    );
    assert!(args.contains(&"libx264".to_string()), "freeze must re-encode video");
    assert!(!args.contains(&"-shortest".to_string()), "freeze runs to audio length");
}

#[test]
fn test_length_fix_ignored_when_audio_not_longer() {
    let args = build_mux_command(
        "/video.mov", "/audio.wav", "/out.mov", &default_settings(), None, &none(), LengthFix::Freeze, &even(), None,
    );
    assert!(args.contains(&"copy".to_string()), "no re-encode when not longer");
    assert!(!args.contains(&"-vf".to_string()));
    assert!(args.contains(&"-shortest".to_string()));
}

#[test]
fn test_slate_concats_delays_audio_and_reencodes() {
    let slate = SlateInput { image_path: "/tmp/slate.png".into(), duration: "5.0000".into(), delay_ms: 5000 };
    let args = build_mux_command(
        "/video.mov", "/audio.wav", "/out.mov", &default_settings(), None, &none(), LengthFix::Cut, &even(),
        Some(&slate),
    );
    assert!(args.contains(&"/tmp/slate.png".to_string()));
    assert!(args.contains(&"-loop".to_string()));
    let fc_idx = args.iter().position(|a| a == "-filter_complex").expect("slate uses filter_complex");
    assert!(args[fc_idx + 1].contains("concat=n=2:v=1:a=0"), "got {}", args[fc_idx + 1]);
    assert!(args.contains(&"libx264".to_string()));
    let af_idx = args.iter().position(|a| a == "-af").expect("slate delays audio");
    assert!(args[af_idx + 1].contains("adelay=5000|5000"), "got {}", args[af_idx + 1]);
    assert!(args.contains(&"[v]".to_string()));
    assert!(!args.contains(&"0:v:0".to_string()));
}

#[test]
fn test_slate_with_freeze_folds_tpad_into_graph() {
    let slate = SlateInput { image_path: "/tmp/slate.png".into(), duration: "3.0000".into(), delay_ms: 3000 };
    let args = build_mux_command(
        "/video.mov", "/audio.wav", "/out.mov", &default_settings(), None, &none(), LengthFix::Freeze,
        &audio_longer(), Some(&slate),
    );
    assert!(!args.contains(&"-vf".to_string()));
    let fc_idx = args.iter().position(|a| a == "-filter_complex").unwrap();
    assert!(
        args[fc_idx + 1].contains("tpad=stop_mode=clone:stop_duration=10.0000"),
        "got {}",
        args[fc_idx + 1]
    );
    assert!(!args.contains(&"-shortest".to_string()));
}

#[test]
fn mux_slate_inputs_in_order() {
    let slate = SlateInput { image_path: "/tmp/slate.png".into(), duration: "5.0000".into(), delay_ms: 5000 };
    let args = build_mux_command(
        "/video.mov", "/audio.wav", "/out.mov", &default_settings(), Some("-1.5"), &none(), LengthFix::Cut, &even(),
        Some(&slate),
    );
    let expect_head = ["-y", "-i", "/video.mov", "-i", "/audio.wav", "-loop", "1", "-framerate", "25.00000", "-t", "5.0000", "-i", "/tmp/slate.png"];
    assert_eq!(&args[..expect_head.len()], &expect_head.map(|s| s.to_string())[..]);
    let af_idx = args.iter().position(|a| a == "-af").unwrap();
    assert_eq!(args[af_idx + 1], "volume=-1.5dB,adelay=5000|5000");
}

#[test]
fn test_audio_only_basic() {
    let args = build_audio_only_command("/audio.wav", "/out.wav", &default_settings(), None, &none(), false);
    assert!(args.contains(&"-vn".to_string())); // strip video
    assert!(args.contains(&"copy".to_string())); // no filters = copy
    assert!(!args.contains(&"-af".to_string()));
}

#[test]
fn test_audio_only_with_gain_wav() {
    let args = build_audio_only_command("/audio.wav", "/out.wav", &default_settings(), Some("-2.5"), &none(), false);
    let af_idx = args.iter().position(|a| a == "-af").unwrap();
    assert_eq!(args[af_idx + 1], "volume=-2.5dB");
    assert!(args.contains(&"pcm_s24le".to_string()));
}

#[test]
fn test_audio_only_with_gain_aiff() {
    let args = build_audio_only_command("/audio.aiff", "/out.aiff", &default_settings(), Some("1"), &none(), false);
    assert!(args.contains(&"pcm_s24be".to_string()));
}

#[test]
fn test_audio_only_aac_setting_never_breaks_wav() {
    let no_gain = build_audio_only_command("/audio.wav", "/out.wav", &aac_settings(), None, &none(), false);
    assert!(!no_gain.contains(&"aac".to_string()), "must not put AAC in a .wav");
    assert!(no_gain.contains(&"copy".to_string()), "no filters -> stream copy");

    let with_gain = build_audio_only_command("/audio.wav", "/out.wav", &aac_settings(), Some("-3"), &none(), false);
    assert!(!with_gain.contains(&"aac".to_string()));
    assert!(with_gain.contains(&"pcm_s24le".to_string()), "filtered .wav -> PCM");
}

#[test]
fn test_audio_only_aac_to_m4a_still_uses_aac() {
    let args = build_audio_only_command("/audio.m4a", "/out.m4a", &aac_settings(), None, &none(), false);
    assert!(args.contains(&"aac".to_string()), "m4a supports AAC");
    assert!(args.contains(&"320000".to_string()));
}

#[test]
fn test_audio_only_clock_adds_handles() {
    let args = build_audio_only_command("/audio.wav", "/out.wav", &default_settings(), None, &none(), true);
    let af_idx = args.iter().position(|a| a == "-af").unwrap();
    let filters = &args[af_idx + 1];
    assert!(filters.contains("adelay=10000:all=1"), "10s head silence");
    assert!(filters.contains("apad=pad_dur=5"), "5s tail silence");
    assert!(!args.contains(&"copy".to_string()));
}

#[test]
fn audio_only_lossless_codecs_by_container() {
    let g = Some("2");
    let flac = build_audio_only_command("/a.wav", "/o.FLAC", &default_settings(), g, &none(), false);
    assert!(flac.contains(&"flac".to_string()));
    let alac = build_audio_only_command("/a.wav", "/o.m4a", &default_settings(), g, &none(), false);
    assert!(alac.contains(&"alac".to_string()));
    let aif = build_audio_only_command("/a.wav", "/o.aif", &default_settings(), g, &none(), false);
    assert!(aif.contains(&"pcm_s24be".to_string()));
}

#[test]
fn test_prores_command() {
    let args = build_prores_command("/clip.mp4", "/clip_ProRes_LT.mov", 1);
    assert!(args.contains(&"prores_ks".to_string()));
    let p = args.iter().position(|a| a == "-profile:v").unwrap();
    assert_eq!(args[p + 1], "1");
    assert!(args.contains(&"yuv422p10le".to_string()));
    assert!(args.contains(&"pcm_s16le".to_string()));
    assert_eq!(args.last().unwrap(), "/clip_ProRes_LT.mov");
}

#[test]
fn ffmpeg_version_is_the_first_line() {
    assert_eq!(
        get_ffmpeg_version("ffmpeg version 6.1.1 Copyright (c) 2000-2023\r\nbuilt with gcc"),
        Some("ffmpeg version 6.1.1 Copyright (c) 2000-2023".to_string())
    );
    assert_eq!(get_ffmpeg_version("ffmpeg version 7.0"), Some("ffmpeg version 7.0".to_string()));
    assert_eq!(get_ffmpeg_version("\nrest"), Some("".to_string()));
    assert_eq!(get_ffmpeg_version(""), None);
}

#[test]
fn binary_candidates_by_platform() {
    assert_eq!(
        binary_candidates("ffmpeg", false),
        vec!["ffmpeg", "/usr/local/bin/ffmpeg", "/opt/homebrew/bin/ffmpeg", "/usr/bin/ffmpeg"]
    );
    assert_eq!(binary_candidates("ffprobe", true), vec!["ffprobe", "C:\\ffmpeg\\bin\\ffprobe.exe"]);
}
