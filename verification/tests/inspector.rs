use laybacker::inspector::{media_identity, pick_streams, ProbeStream};
use laybacker::models::MediaType;

#[test]
fn media_identity_by_extension() {
    let m = media_identity("/media/Spot_v2.MOV").ok().unwrap();
    assert_eq!(m.extension, "mov");
    assert_eq!(m.media_type, MediaType::Video);
    assert_eq!(m.filename, "Spot_v2.MOV");
    assert_eq!(m.filename_no_ext, "Spot_v2");
    let a = media_identity("/media/Mix.flac").ok().unwrap();
    assert_eq!(a.media_type, MediaType::Audio);
    assert_eq!(media_identity("/media/notes.txt").err(), Some("Unsupported file type: txt".to_string()));
    assert_eq!(media_identity("/media/README").err(), Some("Unsupported file type: ".to_string()));
}

fn stream(t: &str, codec: Option<&str>) -> ProbeStream {
    ProbeStream {
        codec_type: t.to_string(),
        codec_name: codec.map(|c| c.to_string()),
        sample_rate: None,
        channels: None,
        avg_rate_ok: false,
        r_rate_ok: false,
    }
}

#[test]
fn video_details_come_from_the_video_stream() {
    let mut v = stream("video", Some("h264"));
    v.avg_rate_ok = false;
    v.r_rate_ok = true;
    let mut a = stream("audio", Some("pcm_s24le"));
    a.sample_rate = Some("48000".to_string());
    a.channels = Some(2);
    let pick = pick_streams(&vec![a, v]);
    assert_eq!(pick.codec_name, Some("h264".to_string()));
    assert_eq!(pick.sample_rate_from, Some(0));
    assert_eq!(pick.channels, Some(2));
    assert_eq!(pick.frame_rate_from, Some((1, false)));
}

#[test]
fn audio_only_file_takes_the_audio_codec() {
    let mut a = stream("audio", Some("flac"));
    a.sample_rate = Some("not a rate".to_string());
    let mut b = stream("audio", Some("aac"));
    b.sample_rate = Some("44100".to_string());
    b.channels = Some(6);
    let pick = pick_streams(&vec![stream("data", Some("bin")), a, b]);
    assert_eq!(pick.codec_name, Some("flac".to_string()));
    assert_eq!(pick.sample_rate_from, Some(2));
    assert_eq!(pick.channels, Some(6));
    assert_eq!(pick.frame_rate_from, None);
    let none = pick_streams(&vec![]);
    assert!(none.codec_name.is_none() && none.channels.is_none());
}

#[test]
fn media_identity_splits_at_the_last_dot() {
    let m = media_identity("/media/Spot.final.v3.mp4").ok().unwrap();
    assert_eq!(m.extension, "mp4");
    assert_eq!(m.filename_no_ext, "Spot.final.v3");
    assert_eq!(media_identity("/media/.wav").err(), Some("Unsupported file type: ".to_string()));
    assert_eq!(media_identity("Mix.").err(), Some("Unsupported file type: ".to_string()));
}
