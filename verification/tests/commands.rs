use laybacker::commands::{
    ffmpeg_status, image_data_url, prores_job, prores_profile, slated_output_path, sound_script, validate_url_scheme,
};

#[test]
fn test_url_https_allowed() {
    assert!(validate_url_scheme("https://example.com").is_ok());
}

#[test]
fn test_url_http_allowed() {
    assert!(validate_url_scheme("http://example.com").is_ok());
}

#[test]
fn test_url_mailto_allowed() {
    assert!(validate_url_scheme("mailto:user@example.com").is_ok());
}

#[test]
fn test_url_case_insensitive() {
    assert!(validate_url_scheme("HTTPS://Example.COM").is_ok());
    assert!(validate_url_scheme("Http://example.com").is_ok());
}

#[test]
fn test_url_file_blocked() {
    assert!(validate_url_scheme("file:///etc/passwd").is_err());
}

#[test]
fn test_url_javascript_blocked() {
    assert!(validate_url_scheme("javascript:alert(1)").is_err());
}

#[test]
fn test_url_shell_injection_blocked() {
    assert!(validate_url_scheme("calc.exe").is_err());
    assert!(validate_url_scheme("& calc.exe").is_err());
    assert!(validate_url_scheme("| rm -rf /").is_err());
}

#[test]
fn test_url_data_uri_blocked() {
    assert!(validate_url_scheme("data:text/html,<script>alert(1)</script>").is_err());
}

#[test]
fn url_refusal_names_the_url() {
    assert_eq!(
        validate_url_scheme("ftp://host/x"),
        Err("Unsupported URL scheme: ftp://host/x".to_string())
    );
    // A scheme must be at the very start.
    assert!(validate_url_scheme(" https://example.com").is_err());
}

#[test]
fn ffmpeg_status_reads_bundled_or_system() {
    assert_eq!(
        ffmpeg_status(true, Some("7.1".to_string()), "/Apps/Laybacker/ffmpeg", Some("/Apps/Laybacker")),
        Ok("7.1 (bundled)".to_string())
    );
    assert_eq!(
        ffmpeg_status(true, Some("6.0".to_string()), "/usr/bin/ffmpeg", Some("/Apps/Laybacker")),
        Ok("6.0 (system)".to_string())
    );
    assert_eq!(ffmpeg_status(true, None, "/usr/bin/ffmpeg", None), Ok("unknown (system)".to_string()));
    assert_eq!(
        ffmpeg_status(false, None, "ffmpeg", None),
        Err("FFmpeg not found. Please install FFmpeg to use Laybacker.".to_string())
    );
}

#[test]
fn prores_profiles_and_output_name() {
    assert_eq!(prores_profile("proxy"), (0, "Proxy"));
    assert_eq!(prores_profile("422"), (2, "422"));
    assert_eq!(prores_profile("hq"), (3, "HQ"));
    assert_eq!(prores_profile("lt"), (1, "LT"));
    assert_eq!(prores_profile("anything"), (1, "LT"));
    let job = prores_job("/clips/Spot.mp4", "hq");
    assert_eq!(job.output, "/clips/Spot_ProRes_HQ.mov");
    let p = job.args.iter().position(|a| a == "-profile:v").unwrap();
    assert_eq!(job.args[p + 1], "3");
    assert_eq!(job.args.last().unwrap(), "/clips/Spot_ProRes_HQ.mov");
    assert_eq!(job.args[2], "/clips/Spot.mp4");
}

#[test]
fn slated_copy_goes_beside_the_video() {
    assert_eq!(slated_output_path("/clips/Spot.mov"), "/clips/Spot_Slated.mov");
    assert_eq!(slated_output_path("Spot.mov"), "./Spot_Slated.mov");
}

#[test]
fn image_data_url_encodes_known_types() {
    assert_eq!(
        image_data_url("/img/card.PNG", &vec![1u8, 2, 3]),
        Ok("data:image/png;base64,AQID".to_string())
    );
    assert_eq!(image_data_url("/img/card.jpeg", &b"hi".to_vec()), Ok("data:image/jpeg;base64,aGk=".to_string()));
    assert_eq!(image_data_url("/img/card.Gif", &vec![]), Ok("data:image/gif;base64,".to_string()));
    assert_eq!(image_data_url("/img/card.bmp", &vec![255u8]), Ok("data:image/bmp;base64,/w==".to_string()));
    assert_eq!(
        image_data_url("/img/card.webp", &vec![251u8, 255, 191, 0]),
        Ok("data:image/webp;base64,+/+/AA==".to_string())
    );
}

#[test]
fn image_data_url_refuses_other_types_and_big_files() {
    assert_eq!(
        image_data_url("/img/card.tiff", &vec![0u8]),
        Err("Unsupported image type .tiff — use PNG, JPEG, WebP, GIF or BMP".to_string())
    );
    assert_eq!(
        image_data_url("/img/card", &vec![0u8]),
        Err("Unsupported image type . — use PNG, JPEG, WebP, GIF or BMP".to_string())
    );
    let big = vec![0u8; 40 * 1024 * 1024 + 1];
    assert_eq!(
        image_data_url("/img/card.tiff", &big),
        Err("That image is over 40 MB — please use a smaller one".to_string())
    );
    let limit = vec![0u8; 40 * 1024 * 1024];
    assert!(image_data_url("/img/card.bmp", &limit).is_ok());
}

#[test]
fn sound_script_doubles_quotes() {
    assert_eq!(sound_script("C:\\chime.wav"), "(New-Object Media.SoundPlayer 'C:\\chime.wav').PlaySync()");
    assert_eq!(
        sound_script("C:\\it's'; rm x; '.wav"),
        "(New-Object Media.SoundPlayer 'C:\\it''s''; rm x; ''.wav').PlaySync()"
    );
}
