use laybacker::models::{AudioContainer, AudioOutputSpec};
use laybacker::namer::{
    audio_output_ext, conversion_tag, generate_name, generate_names, generate_names_with_audio, is_lossy_ext,
    remove_duplicate_info, strip_spec_suffix, LevelTag, PairNaming,
};

/// A pair as naming reads it: the normalisation target is the peak ceiling
/// in full-scale mode (a target of 0 LUFS or more), else the LUFS target.
fn make_pair(video_name: Option<&str>, audio_name: &str, norm_enabled: bool, target_lufs: f64, tp_limit: f64) -> PairNaming {
    let level = if !norm_enabled {
        None
    } else if target_lufs >= 0.0 {
        Some(LevelTag::Peak(format!("{}", tp_limit)))
    } else {
        Some(LevelTag::Lufs(format!("{}", target_lufs)))
    };
    PairNaming {
        video_name: video_name.map(|v| v.to_string()),
        audio_name: audio_name.to_string(),
        audio_ext: "wav".to_string(),
        level,
        silence_compliance: false,
        clock_enabled: false,
    }
}

fn spec(container: AudioContainer, rate: Option<u32>, depth: Option<u32>) -> AudioOutputSpec {
    AudioOutputSpec { container, sample_rate: rate, bit_depth: depth }
}

#[test]
fn test_similar_names_preserve_unique_part() {
    let name = generate_name("ITV_TheNeighbourhood_50_240326_1445", "ITV_TheNeighbourhood_50_240326_1530", true, "mov");
    assert!(name.contains("1530"), "Expected unique part '1530' in name, got: {}", name);
}

#[test]
fn test_identical_names_get_with_audio() {
    let name = generate_name("ITV_TheNeighbourhood_50_240326_1445", "ITV_TheNeighbourhood_50_240326_1445", true, "mov");
    assert!(name.contains("with audio"), "Expected 'with audio' suffix, got: {}", name);
}

#[test]
fn test_jam_milwaukee_scenario() {
    let name = generate_name("Jam_Milwaukee_15_v3_9x16_0500226", "Jam_Milwaukee_15_v3_050226", true, "mov");
    assert!(name.contains("with audio"), "Expected 'with audio' in name, got: {}", name);
}

#[test]
fn test_itv_unique_parts() {
    let unique = remove_duplicate_info("ITV_TheNeighbourhood_50_240326_1445", "ITV_TheNeighbourhood_50_240326_1530");
    assert_eq!(unique, "1530", "Expected '1530', got: '{}'", unique);
}

#[test]
fn layback_names_exactly() {
    assert_eq!(
        generate_name("ITV_TheNeighbourhood_50_240326_1445", "ITV_TheNeighbourhood_50_240326_1530", true, "mov"),
        "ITV_TheNeighbourhood_50_240326_1445_with audio_1530.mov"
    );
    assert_eq!(generate_name("Clip", "Clip", true, "mp4"), "Clip_with audio.mp4");
    assert_eq!(generate_name("Clip", "Mix", false, "mov"), "Clip_Mix.mov");
    assert_eq!(generate_name("Promo_v1", "Totally_Different", true, "mov"), "Promo_v1_Totally_Different.mov");
}

#[test]
fn test_audio_only_no_norm() {
    let pairs = vec![make_pair(None, "MyMix_Final", false, 0.0, -1.0)];
    let names = generate_names(&pairs, true, "wav");
    assert_eq!(names[0], "MyMix_Final.wav");
}

#[test]
fn test_audio_only_lufs_norm() {
    let pairs = vec![make_pair(None, "MyMix_Final", true, -23.0, -1.0)];
    let names = generate_names(&pairs, true, "wav");
    assert_eq!(names[0], "MyMix_Final_-23LUFS.wav");
    assert!(!names[0].contains("normalised"));
}

#[test]
fn test_audio_only_fullscale_norm() {
    let pairs = vec![make_pair(None, "MyMix_Final", true, 0.0, -1.0)];
    let names = generate_names(&pairs, true, "wav");
    assert_eq!(names[0], "MyMix_Final_-1dBTP.wav");
    assert!(!names[0].contains("normalised"));
}

#[test]
fn test_audio_only_strips_existing_spec_suffix() {
    let pairs = vec![make_pair(None, "MyMix_Final_-23LUFS_-1dBTP", true, -16.0, -1.0)];
    let names = generate_names(&pairs, true, "wav");
    assert_eq!(names[0], "MyMix_Final_-16LUFS.wav");
    assert!(!names[0].contains("-23"));
}

#[test]
fn test_audio_only_strips_legacy_normalised_suffix() {
    let pairs = vec![make_pair(None, "MyMix_Final_normalised_-23LUFS_-1dBTP", true, -16.0, -1.0)];
    let names = generate_names(&pairs, true, "wav");
    assert_eq!(names[0], "MyMix_Final_-16LUFS.wav");
    assert!(!names[0].contains("normalised"));
}

#[test]
fn test_audio_only_strips_fullscale_spec_suffix() {
    let pairs = vec![make_pair(None, "MyMix_-1dBTP", true, -23.0, -1.0)];
    let names = generate_names(&pairs, true, "wav");
    assert_eq!(names[0], "MyMix_-23LUFS.wav");
}

#[test]
fn test_audio_only_passthrough_keeps_the_files_real_name() {
    let peak = vec![make_pair(None, "MyMix_-1dBTP", false, 0.0, -1.0)];
    assert_eq!(generate_names(&peak, true, "wav")[0], "MyMix_-1dBTP.wav");
    let lufs = vec![make_pair(None, "MyMix_-23LUFS", false, -23.0, -1.0)];
    assert_eq!(generate_names(&lufs, true, "wav")[0], "MyMix_-23LUFS.wav");
}

#[test]
fn test_audio_only_renormalise_still_strips_and_doesnt_stack() {
    let pairs = vec![make_pair(None, "MyMix_-1dBTP", true, 0.0, -2.0)];
    assert_eq!(generate_names(&pairs, true, "wav")[0], "MyMix_-2dBTP.wav");
}

#[test]
fn test_audio_only_clocked_name() {
    let mut pairs = vec![make_pair(None, "MyMix", false, -23.0, -1.0)];
    pairs[0].clock_enabled = true;
    assert_eq!(generate_names(&pairs, true, "wav")[0], "MyMix_Clocked.wav");
}

#[test]
fn test_audio_only_clocked_strips_previous_spec_and_doesnt_stack() {
    let mut pairs = vec![make_pair(None, "MyMix_-23LUFS_-1dBTP", false, -23.0, -1.0)];
    pairs[0].clock_enabled = true;
    assert_eq!(generate_names(&pairs, true, "wav")[0], "MyMix_Clocked.wav");

    let mut again = vec![make_pair(None, "MyMix_Clocked", false, -23.0, -1.0)];
    again[0].clock_enabled = true;
    assert_eq!(generate_names(&again, true, "wav")[0], "MyMix_Clocked.wav");
}

#[test]
fn test_audio_only_norm_and_clock_compose() {
    let mut pairs = vec![make_pair(None, "MyMix", true, -23.0, -1.0)];
    pairs[0].clock_enabled = true;
    assert_eq!(generate_names(&pairs, true, "wav")[0], "MyMix_-23LUFS_Clocked.wav");

    let mut again = vec![make_pair(None, "MyMix_-23LUFS_Clocked", true, -23.0, -1.0)];
    again[0].clock_enabled = true;
    assert_eq!(generate_names(&again, true, "wav")[0], "MyMix_-23LUFS_Clocked.wav");
}

#[test]
fn test_audio_only_6fr_name() {
    let mut pairs = vec![make_pair(None, "MyMix", false, -23.0, -1.0)];
    pairs[0].silence_compliance = true;
    assert_eq!(generate_names(&pairs, true, "wav")[0], "MyMix_6Fr.wav");
}

#[test]
fn test_audio_only_norm_6fr_clock_compose_and_dont_stack() {
    let mut pairs = vec![make_pair(None, "MyMix", true, -23.0, -1.0)];
    pairs[0].silence_compliance = true;
    pairs[0].clock_enabled = true;
    assert_eq!(generate_names(&pairs, true, "wav")[0], "MyMix_-23LUFS_6Fr_Clocked.wav");

    let mut again = vec![make_pair(None, "MyMix_-23LUFS_6Fr_Clocked", true, -23.0, -1.0)];
    again[0].silence_compliance = true;
    again[0].clock_enabled = true;
    assert_eq!(generate_names(&again, true, "wav")[0], "MyMix_-23LUFS_6Fr_Clocked.wav");
}

#[test]
fn test_audio_only_keeps_unrelated_name_parts() {
    let pairs = vec![make_pair(None, "Spot_v2_Mix", true, -23.0, -1.0)];
    assert_eq!(generate_names(&pairs, true, "wav")[0], "Spot_v2_Mix_-23LUFS.wav");
}

#[test]
fn test_duplicate_filenames_get_disambiguated() {
    let pairs = vec![
        make_pair(Some("Commercial_30s"), "Mix_A", false, 0.0, -1.0),
        make_pair(Some("Commercial_30s"), "Mix_B", false, 0.0, -1.0),
    ];
    let names = generate_names(&pairs, false, "mov");
    assert_ne!(names[0], names[1]);
}

#[test]
fn duplicate_names_are_numbered() {
    let pairs = vec![
        make_pair(Some("Spot"), "Spot", false, 0.0, -1.0),
        make_pair(Some("Spot"), "Spot", false, 0.0, -1.0),
        make_pair(Some("Spot"), "Spot", false, 0.0, -1.0),
    ];
    let names = generate_names(&pairs, true, "mov");
    assert_eq!(names, vec!["Spot_with audio_1.mov", "Spot_with audio_2.mov", "Spot_with audio_3.mov"]);
}

#[test]
fn test_audio_only_preserves_original_extension() {
    let mut pair = make_pair(None, "MyTrack", true, -23.0, -1.0);
    pair.audio_ext = "aiff".to_string();
    let names = generate_names(&vec![pair], true, "mov");
    assert!(names[0].ends_with(".aiff"));
}

#[test]
fn test_conversion_tags() {
    assert_eq!(conversion_tag(&spec(AudioContainer::Original, None, None)), "");
    assert_eq!(conversion_tag(&spec(AudioContainer::Wav, Some(48000), None)), "_48k");
    assert_eq!(conversion_tag(&spec(AudioContainer::Wav, Some(44100), Some(16))), "_44.1k_16bit");
    assert_eq!(conversion_tag(&spec(AudioContainer::Wav, None, Some(32))), "_32f");
    assert_eq!(conversion_tag(&spec(AudioContainer::Flac, Some(96000), Some(24))), "_96k_24bit");
}

#[test]
fn test_audio_only_container_sets_extension_and_conversion_tags_name() {
    let mut pairs = vec![make_pair(None, "MyMix", false, -23.0, -1.0)];
    let sp = spec(AudioContainer::Flac, Some(44100), Some(16));
    let names = generate_names_with_audio(&pairs, true, "mov", Some(&sp));
    assert_eq!(names[0], "MyMix_44.1k_16bit.flac");

    pairs[0].audio_name = "MyMix_44.1k_16bit".to_string();
    let sp2 = spec(AudioContainer::Wav, Some(48000), None);
    let names = generate_names_with_audio(&pairs, true, "mov", Some(&sp2));
    assert_eq!(names[0], "MyMix_48k.wav");
}

#[test]
fn test_audio_only_norm_then_conversion_order() {
    let pairs = vec![make_pair(None, "MyMix", true, -23.0, -1.0)];
    let sp = spec(AudioContainer::Original, Some(48000), Some(24));
    let names = generate_names_with_audio(&pairs, true, "mov", Some(&sp));
    assert_eq!(names[0], "MyMix_-23LUFS_48k_24bit.wav");
    assert_eq!(strip_spec_suffix("MyMix_-23LUFS_6Fr_48k_24bit"), "MyMix");
    assert_eq!(strip_spec_suffix("MyMix_32f"), "MyMix");
}

#[test]
fn test_audio_only_lossy_source_reencode_becomes_wav() {
    let mut pair = make_pair(None, "Podcast", false, -23.0, -1.0);
    pair.audio_ext = "mp3".to_string();
    let mut pairs = vec![pair];
    let names = generate_names_with_audio(&pairs, true, "mov", Some(&spec(AudioContainer::Original, None, None)));
    assert_eq!(names[0], "Podcast.mp3");
    pairs[0].level = Some(LevelTag::Lufs("-23".to_string()));
    let names = generate_names_with_audio(&pairs, true, "mov", Some(&spec(AudioContainer::Original, None, None)));
    assert_eq!(names[0], "Podcast_-23LUFS.wav");
    let names = generate_names_with_audio(&pairs, true, "mov", Some(&spec(AudioContainer::Aac, None, None)));
    assert_eq!(names[0], "Podcast_-23LUFS.m4a");
}

#[test]
fn lossy_extensions_and_output_ext() {
    assert!(is_lossy_ext("MP3"));
    assert!(is_lossy_ext("ogg"));
    assert!(!is_lossy_ext("m4a"));
    assert!(!is_lossy_ext("wav"));
    assert_eq!(audio_output_ext("wav", None, false), "wav");
    assert_eq!(audio_output_ext("mp3", None, true), "wav");
    assert_eq!(audio_output_ext("mp3", Some(&spec(AudioContainer::Flac, None, None)), false), "flac");
}

#[test]
fn strip_spec_suffix_takes_tags_off_the_end_only() {
    assert_eq!(strip_spec_suffix("Spot_v2_Mix"), "Spot_v2_Mix");
    assert_eq!(strip_spec_suffix("Mix_normalised_-23LUFS_-1dBTP"), "Mix");
    assert_eq!(strip_spec_suffix("Mix_-1dBTP_Clocked"), "Mix");
}

#[test]
fn every_output_name_is_unique() {
    let pairs = vec![
        make_pair(None, "Mix", false, 0.0, -1.0),
        make_pair(None, "Mix", false, 0.0, -1.0),
        make_pair(None, "Mix_1", false, 0.0, -1.0),
    ];
    let names = generate_names(&pairs, true, "wav");
    assert_eq!(names, vec!["Mix_2.wav", "Mix_3.wav", "Mix_1.wav"]);
}

#[test]
fn repeated_names_are_numbered_by_occurrence() {
    let pairs = vec![
        make_pair(None, "a", false, 0.0, -1.0),
        make_pair(None, "a", false, 0.0, -1.0),
        make_pair(None, "a_1", false, 0.0, -1.0),
        make_pair(None, "a_1", false, 0.0, -1.0),
    ];
    let names = generate_names_with_audio(&pairs, true, "mov", None);
    assert_eq!(names, vec!["a_1.wav", "a_2.wav", "a_1_1.wav", "a_1_2.wav"]);
}
