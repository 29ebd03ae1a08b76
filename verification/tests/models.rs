use laybacker::models::{
    is_audio_extension, is_supported_extension, is_video_extension, AudioContainer, AudioFormatOption,
    AudioOutputSpec, ExportSettings, VideoCodecOption,
};

#[test]
fn test_extension_helpers() {
    assert!(is_video_extension("mp4"));
    assert!(is_video_extension("MOV")); // case-insensitive
    assert!(!is_video_extension("wav"));
    assert!(is_audio_extension("wav"));
    assert!(is_audio_extension("AIFF"));
    assert!(!is_audio_extension("mp4"));
    assert!(is_supported_extension("mov"));
    assert!(is_supported_extension("flac"));
    assert!(!is_supported_extension("txt"));
}

#[test]
fn test_output_extension() {
    let mut s = ExportSettings::default();
    assert_eq!(s.output_extension(), "mov"); // Original
    s.audio_format = AudioFormatOption::Aac;
    assert_eq!(s.output_extension(), "mp4");
}

#[test]
fn export_defaults() {
    let e = ExportSettings::default();
    assert!(e.use_audio_file_location);
    assert_eq!(e.aac_bitrate, 320000);
    assert_eq!(e.video_codec, VideoCodecOption::Original);
    assert_eq!(e.audio_container, AudioContainer::Original);
    assert!(e.output_directory.is_none());
}

#[test]
fn audio_output_spec_flags() {
    let plain = AudioOutputSpec::default();
    assert!(!plain.converts());
    assert!(!plain.is_set());
    let flac = AudioOutputSpec { container: AudioContainer::Flac, sample_rate: None, bit_depth: None };
    assert!(!flac.converts());
    assert!(flac.is_set());
    let rate = AudioOutputSpec { container: AudioContainer::Original, sample_rate: Some(48000), bit_depth: None };
    assert!(rate.converts());
    assert!(rate.is_set());
    assert_eq!(AudioContainer::Flac.extension(), Some("flac"));
    assert!(AudioContainer::Aac.is_lossy());
    assert!(!AudioContainer::Wav.is_lossy());
    let s = ExportSettings { sample_rate: Some(44100), bit_depth: Some(16), ..ExportSettings::default() };
    let spec = s.audio_output_spec();
    assert_eq!(spec.sample_rate, Some(44100));
    assert_eq!(spec.bit_depth, Some(16));
}
