//! Settings, the encoder's command line, devices, previews.

use streamaid::capture::parse_avfoundation_audio;
use streamaid::config::{
    apply_quality_preset, apply_unattended_password, cloudflare_endpoint_changed, quality_preset,
    redact_access, take_access_password, unattended_secret, Config, Scale,
};
use streamaid::device::{
    capture_targets, default_input, device_from_ffmpeg_screen, enumerate_audio_devices,
    enumerate_devices, resolve_input, Device,
};
use streamaid::encoder::{
    build_ffmpeg_argv, capture_wants_audio, have_videotoolbox, scale_filter, sysname,
};
use streamaid::files::encode_b64;
use streamaid::input::DisplayInfo;
use streamaid::json::Json;
use streamaid::thumbs::{
    can_preview, inactive_devices, merge_thumbs_latest, preview_wait, thumb_ffmpeg_args,
    thumbs_json, THUMB_FPS,
};

fn j(text: &str) -> Json {
    Json::parse(text).unwrap()
}

fn scale(x: f64, text: &str) -> Scale {
    Scale { bits: x.to_bits(), text: text.to_string() }
}

fn flag_after<'a>(argv: &'a [String], flag: &str) -> Option<&'a str> {
    argv.iter().position(|a| a == flag).and_then(|i| argv.get(i + 1)).map(|s| s.as_str())
}

#[test]
fn defaults_are_twitch_class_h264() {
    let cfg = Config::default();
    assert_eq!(cfg.host, "127.0.0.1");
    assert_eq!(cfg.port, 8080);
    assert_eq!(cfg.token, "");
    assert_eq!(cfg.capture.driver, "ffmpeg");
    assert_eq!(cfg.capture.fps, 30);
    assert_eq!(f64::from_bits(cfg.capture.scale.bits), 1.0);
    assert_eq!(cfg.capture.jpeg_quality, 95);
    assert!(!cfg.capture.audio, "mic audio is off until the host enables it");
    assert_eq!(cfg.capture.audio_input, "0");
    assert_eq!(cfg.encoder.mode, "ffmpeg");
    assert_eq!(cfg.encoder.bitrate_kbps, 20000);
    assert_eq!(cfg.encoder.gop_frames, 15);
    assert_eq!(cfg.encoder.max_width, 3840);
    assert_eq!(cfg.encoder.max_height, 4320);
    assert_eq!(cfg.cloudflare.publish_url, "");
    assert!(!cfg.llm.enabled);
    assert!(!cfg.access.unattended);
    assert!(cfg.access.password_hash.is_empty());
}

#[test]
fn clamps_low_and_high_bounds() {
    let low = Config::from_value(&j(r#"{
        "capture": {"fps": 0, "scale": 0.1, "jpeg_quality": 10, "audio_input": "../mic"},
        "encoder": {"bitrate_kbps": 100, "gop_frames": 1},
        "llm": {"interval_sec": 1}
    }"#));
    assert_eq!(low.capture.audio_input, "0");
    assert_eq!(low.capture.fps, 1);
    assert_eq!(f64::from_bits(low.capture.scale.bits), 0.25);
    assert_eq!(low.capture.jpeg_quality, 30);
    assert_eq!(low.encoder.bitrate_kbps, 2000);
    assert_eq!(low.encoder.gop_frames, 6);
    assert_eq!(low.llm.interval_sec, 2);

    let high = Config::from_value(&j(r#"{
        "capture": {"fps": 999, "scale": 3.0, "jpeg_quality": 100},
        "encoder": {"bitrate_kbps": 99999, "gop_frames": 999, "max_width": 8000},
        "llm": {"interval_sec": 99999}
    }"#));
    assert_eq!(high.capture.fps, 60);
    assert_eq!(f64::from_bits(high.capture.scale.bits), 1.0);
    assert_eq!(high.capture.jpeg_quality, 95);
    assert_eq!(high.encoder.bitrate_kbps, 50000);
    assert_eq!(high.encoder.gop_frames, 60);
    assert_eq!(high.encoder.max_width, 7680);
    assert_eq!(high.llm.interval_sec, 3600);
}

#[test]
fn invalid_mode_resets_to_mjpeg() {
    let cfg = Config::from_value(&j(r#"{"encoder": {"mode": "webp"}}"#));
    assert_eq!(cfg.encoder.mode, "mjpeg");
    let cfg = Config::from_value(&j(r#"{"encoder": {"mode": "hevc"}}"#));
    assert_eq!(cfg.encoder.mode, "hevc");
    let cfg = Config::from_value(&j(r#"{"encoder": {"mode": "ffmpeg"}}"#));
    assert_eq!(cfg.encoder.mode, "ffmpeg");
}

#[test]
fn unknown_keys_ignored_and_roundtrip() {
    let cfg = Config::from_value(&j(r#"{
        "bogus": 1,
        "capture": {"nope": 2, "fps": 24},
        "encoder": {"weird": true, "mode": "ffmpeg", "gop_frames": 12},
        "cloudflare": {"publish_url": "wss://stream.example.com/publish", "watch_url": "wss://stream.example.com/watch"},
        "llm": {"x": "y", "model": "m"}
    }"#));
    assert_eq!(cfg.capture.fps, 24);
    assert_eq!(cfg.encoder.gop_frames, 12);
    assert_eq!(cfg.llm.model, "m");
    assert_eq!(cfg.port, 8080);
    assert_eq!(cfg.cloudflare.publish_url, "wss://stream.example.com/publish");
    let cfg2 = Config::from_value(&cfg.to_value());
    assert_eq!(cfg.to_value().print(), cfg2.to_value().print());
}

#[test]
fn a_wrong_type_gives_the_defaults() {
    let cfg = Config::from_value(&j(r#"{"port": "many", "token": "t"}"#));
    assert_eq!(cfg.port, 8080);
    assert_eq!(cfg.token, "");
    let cfg = Config::from_value(&j("[]"));
    assert_eq!(cfg.encoder.bitrate_kbps, 20000);
}

#[test]
fn a_patch_leaves_the_rest_alone() {
    let mut old = Config::default();
    old.token = "t".to_string();
    old.capture.fps = 24;
    let new = old.merge_patch(j(r#"{"encoder": {"gop_frames": 12}, "llm": {"model": "x"}}"#));
    assert_eq!(new.encoder.gop_frames, 12);
    assert_eq!(new.llm.model, "x");
    assert_eq!(new.token, "t");
    assert_eq!(new.capture.fps, 24);
    assert_eq!(new.encoder.bitrate_kbps, old.encoder.bitrate_kbps);
}

#[test]
fn clearing_publish_url_is_an_endpoint_change() {
    let mut old = Config::default();
    old.cloudflare.publish_url = "wss://edge.example/publish".into();
    let new = Config::default();
    assert!(cloudflare_endpoint_changed(&old, &new));
    assert!(!cloudflare_endpoint_changed(&new, &new));
}

#[test]
fn unattended_password_is_hashed_and_redacted() {
    let mut cfg = Config::default();
    cfg.access.unattended = true;
    apply_unattended_password(&mut cfg, Some("short".into())).unwrap_err();
    apply_unattended_password(&mut cfg, Some("s3cret!!".into())).unwrap();
    assert_eq!(cfg.access.password_hash.len(), 64);
    let hash = cfg.access.password_hash.clone();
    apply_unattended_password(&mut cfg, Some("".into())).unwrap();
    assert_eq!(cfg.access.password_hash, hash, "blank password must keep the hash");
    let v = redact_access(&cfg);
    let access = v.get("access").unwrap();
    assert_eq!(access.truth_at("unattended"), Some(true));
    assert_eq!(access.truth_at("password_set"), Some(true));
    assert!(access.get("password_hash").is_none());
    assert_eq!(unattended_secret(&cfg), hash);
    cfg.access.unattended = false;
    apply_unattended_password(&mut cfg, None).unwrap();
    assert!(cfg.access.password_hash.is_empty());
    assert_eq!(unattended_secret(&cfg), "");
    let mut patch = j(r#"{"access": {"unattended": true, "password": "leave-me-out"}}"#);
    assert_eq!(take_access_password(&mut patch).as_deref(), Some("leave-me-out"));
    assert!(patch.get("access").unwrap().get("password").is_none());
}

#[test]
fn presets_are_recognised() {
    let mut cfg = Config::default();
    for p in ["speed", "balanced", "quality"] {
        assert!(apply_quality_preset(&mut cfg, p));
        assert_eq!(quality_preset(&cfg), p);
    }
    cfg.encoder.bitrate_kbps = 12345;
    assert_eq!(quality_preset(&cfg), "custom");
    assert!(!apply_quality_preset(&mut cfg, "nope"));
    assert_eq!(cfg.encoder.bitrate_kbps, 12345);
}

#[test]
fn scale_never_upscales_uses_lanczos_and_fps() {
    let vf = scale_filter(&Config::default(), 30);
    assert!(vf.contains("lanczos"), "{vf}");
    assert!(vf.contains("min(3840\\,iw"), "{vf}");
    assert!(vf.contains("min(4320\\,ih"), "{vf}");
    assert!(vf.contains("fps=30"), "{vf}");
    assert!(!vf.contains("select="), "{vf}");
}

#[test]
fn scale_respects_custom_max_and_capture_scale() {
    let mut c = Config::default();
    c.encoder.max_width = 1280;
    c.encoder.max_height = 720;
    c.capture.scale = scale(0.5, "0.5");
    let vf = scale_filter(&c, 30);
    assert!(vf.contains("min(1280\\,iw*0.5)"), "{vf}");
    assert!(vf.contains("min(720\\,ih*0.5)"), "{vf}");
}

#[test]
fn a_scale_is_written_without_an_exponent() {
    let mut c = Config::default();
    let cases = [
        (1e-7, "1e-7", "*0.0000001)"),
        (1.25e-3, "1.25e-3", "*0.00125)"),
        (1.5e17, "1.5e17", "*150000000000000000)"),
        (-2.5e16, "-2.5e16", "*-25000000000000000)"),
        (123.5, "1.235e2", "*123.5)"),
        (2.0, "2.0", "*2)"),
        (0.75, "0.75", "*0.75)"),
    ];
    for (x, text, want) in cases {
        assert_eq!(format!("*{x})"), want);
        c.capture.scale = scale(x, text);
        let vf = scale_filter(&c, 30);
        assert!(vf.contains(want), "{vf}");
    }
}

#[test]
fn keys_that_are_no_settings_change_nothing() {
    let plain = j(r#"{"port": 9000, "capture": {"fps": 24}, "control": {"voice": true}}"#);
    let more = j(
        r#"{"colour": {"port": 1}, "port": 9000, "capture": {"x": [1], "fps": 24, "y": null},
            "control": {"zoom": 3, "voice": true}, "last": "z"}"#,
    );
    let a = Config::from_value(&plain);
    assert_eq!(a.port, 9000);
    assert_eq!(a.capture.fps, 24);
    assert!(a.control.voice);
    assert_eq!(format!("{:?}", a), format!("{:?}", Config::from_value(&more)));
}

#[test]
fn a_password_is_kept_as_a_digest() {
    let mut cfg = Config::default();
    cfg.access.unattended = true;
    apply_unattended_password(&mut cfg, Some("  long enough ".to_string())).unwrap();
    let hash = cfg.access.password_hash.clone();
    assert_eq!(hash.len(), 64);
    assert_eq!(hash, streamaid::otp::sha256_hex("long enough"));
    assert_eq!(streamaid::config::normalize_password_hash(&hash), hash);
}

#[test]
fn darwin_videotoolbox_low_latency_1080p30() {
    let c = Config::default();
    let argv = build_ffmpeg_argv(&c, "3:", "Darwin", true);
    let joined = argv.join(" ");
    assert_eq!(argv[0], "ffmpeg");
    assert!(joined.contains("h264_videotoolbox"), "{joined}");
    assert_eq!(flag_after(&argv, "-realtime"), Some("1"));
    assert_eq!(flag_after(&argv, "-profile:v"), Some("high"));
    assert_eq!(flag_after(&argv, "-bf"), Some("0"));
    assert_eq!(flag_after(&argv, "-g"), Some("15"));
    assert_eq!(flag_after(&argv, "-keyint_min"), Some("15"));
    assert_eq!(flag_after(&argv, "-bufsize"), Some("10000k"));
    assert_eq!(flag_after(&argv, "-b:v"), Some("20000k"));
    assert!(joined.contains("flush_packets"), "{joined}");
    assert!(joined.contains("low_delay"), "{joined}");
    assert!(joined.contains("lanczos"), "{joined}");
    assert!(joined.contains("min(3840\\,iw"), "{joined}");
    assert!(!joined.contains("40000k"), "2s VBV must not appear: {joined}");
    assert!(!joined.contains("libx264"), "{joined}");
    let vf = flag_after(&argv, "-vf").unwrap();
    assert!(vf.contains("fps=30"), "{vf}");
    assert_eq!(flag_after(&argv, "-pix_fmt"), Some("yuv420p"));
}

#[test]
fn libx264_veryfast_zerolatency_off_mac() {
    let mut c = Config::default();
    c.encoder.bitrate_kbps = 8000;
    c.encoder.gop_frames = 30;
    let argv = build_ffmpeg_argv(&c, "desktop", "Linux", false);
    let joined = argv.join(" ");
    assert!(joined.contains("libx264"), "{joined}");
    assert_eq!(flag_after(&argv, "-preset"), Some("veryfast"));
    assert_eq!(flag_after(&argv, "-tune"), Some("zerolatency"));
    assert_eq!(flag_after(&argv, "-g"), Some("30"));
    assert_eq!(flag_after(&argv, "-bufsize"), Some("4000k"));
    assert!(joined.contains("nal-hrd=cbr"), "{joined}");
    assert_eq!(flag_after(&argv, "-bf"), Some("0"));
}

#[test]
fn hevc_uses_same_vbv_and_gop() {
    let mut c = Config::default();
    c.encoder.mode = "hevc".into();
    let argv = build_ffmpeg_argv(&c, "3:", "Darwin", true);
    assert!(argv.iter().any(|a| a == "hevc_videotoolbox"));
    assert_eq!(flag_after(&argv, "-bufsize"), Some("10000k"));
    assert_eq!(flag_after(&argv, "-g"), Some("15"));
    assert_eq!(flag_after(&argv, "-bf"), Some("0"));
    assert_eq!(flag_after(&argv, "-realtime"), Some("1"));
}

#[test]
fn mjpeg_still_never_upscales() {
    let mut c = Config::default();
    c.encoder.mode = "mjpeg".into();
    let argv = build_ffmpeg_argv(&c, "3:", "Darwin", true);
    let vf = flag_after(&argv, "-vf").unwrap();
    assert!(vf.contains("lanczos"), "{vf}");
    assert!(vf.contains("min(3840\\,iw"), "{vf}");
    assert!(argv.iter().any(|a| a == "mjpeg"));
}

#[test]
fn audio_is_muxed_only_where_it_can_be() {
    let mut c = Config::default();
    assert!(!capture_wants_audio(&c, "Darwin"));
    let silent = build_ffmpeg_argv(&c, "3:", "Darwin", true);
    assert!(silent.iter().any(|a| a == "-an"));
    c.capture.audio = true;
    assert!(capture_wants_audio(&c, "Darwin"));
    assert!(!capture_wants_audio(&c, "Linux"));
    let loud = build_ffmpeg_argv(&c, "3:", "Darwin", true);
    assert!(!loud.iter().any(|a| a == "-an"));
    assert_eq!(flag_after(&loud, "-c:a"), Some("aac"));
    assert_eq!(flag_after(&loud, "-i"), Some("3:0"));
    c.encoder.mode = "mjpeg".into();
    assert!(!capture_wants_audio(&c, "Darwin"));
}

#[test]
fn the_system_is_named_as_ffmpeg_knows_it() {
    assert_eq!(sysname("macos"), "Darwin");
    assert_eq!(sysname("linux"), "Linux");
    assert!(have_videotoolbox(b" V..... h264_videotoolbox"));
    assert!(!have_videotoolbox(b" V..... libx264"));
}

fn two_displays() -> Vec<DisplayInfo> {
    vec![
        DisplayInfo {
            id: "cg0".into(),
            name: "main".into(),
            x: 0,
            y: 0,
            width: 1440,
            height: 900,
            main: true,
        },
        DisplayInfo {
            id: "cg1".into(),
            name: "ext".into(),
            x: 1440,
            y: -200,
            width: 2560,
            height: 1440,
            main: false,
        },
    ]
}

#[test]
fn ffmpeg_screen_1_gets_second_display_bounds_not_main() {
    let cg = two_displays();
    let d0 = device_from_ffmpeg_screen("2", 0, "Capture screen 0", &cg);
    let d1 = device_from_ffmpeg_screen("3", 1, "Capture screen 1", &cg);
    assert_eq!(d0.id, "2:");
    assert!(d0.main);
    assert_eq!((d0.x, d0.y, d0.width, d0.height), (0, 0, 1440, 900));
    assert_eq!(d1.id, "3:");
    assert!(!d1.main);
    assert_eq!((d1.x, d1.y, d1.width, d1.height), (1440, -200, 2560, 1440));
    assert!(d1.name.contains("2560×1440"));
}

#[test]
fn avfoundation_screen_regex_captures_index() {
    let sample = "[AVFoundation] [3] Capture screen 0\n[AVFoundation] [4] Capture screen 1";
    let got: Vec<String> = enumerate_devices("Darwin", &two_displays(), sample.as_bytes())
        .iter()
        .map(|d| d.id.clone())
        .collect();
    assert_eq!(got, vec!["3:".to_string(), "4:".to_string()]);
    let listed = vec![("3".to_string(), 0usize, "Capture screen 0".to_string())];
    let ds = capture_targets("Darwin", &two_displays(), &listed);
    assert_eq!(ds[0].id, "3:");
}

#[test]
fn parse_avfoundation_audio_lists_mic_and_loopback() {
    let sample = "\
AVFoundation video devices:\n\
[0] FaceTime HD Camera\n\
[1] Capture screen 0\n\
AVFoundation audio devices:\n\
[0] MacBook Pro Microphone\n\
[1] BlackHole 2ch\n\
[2] ZoomAudioDevice\n";
    let got = parse_avfoundation_audio(sample);
    assert_eq!(got.len(), 3);
    assert_eq!(got[0].id, "0");
    assert_eq!(got[0].name, "MacBook Pro Microphone");
    assert_eq!(got[1].id, "1");
    assert!(got[1].name.contains("BlackHole"));
    assert!(parse_avfoundation_audio("video only").is_empty());
    assert_eq!(enumerate_audio_devices("Darwin", sample.as_bytes()).len(), 3);
}

#[test]
fn enumerate_devices_returns_named_screens() {
    let ds = enumerate_devices("Linux", &Vec::new(), b"");
    assert!(!ds.is_empty(), "must list at least one capture target");
    assert!(ds.iter().any(|d| !d.id.is_empty() && !d.name.is_empty()));
}

#[test]
fn an_input_that_is_named_is_taken() {
    let found = enumerate_devices("Linux", &Vec::new(), b"");
    assert_eq!(resolve_input("7:", "Darwin", &found, None), "7:");
    let d = default_input("Linux", &found, Some(":1".to_string()));
    assert!(!d.is_empty());
}

fn dev(id: &str, main: bool) -> Device {
    Device { id: id.into(), name: id.into(), x: 0, y: 0, width: 100, height: 80, main }
}

#[test]
fn inactive_devices_skips_current_colon_variants() {
    let ds = vec![dev("2:", true), dev("3:", false)];
    let rest = inactive_devices(&ds, "2");
    assert_eq!(rest.len(), 1);
    assert_eq!(rest[0].id, "3:");
    assert!(inactive_devices(&ds, "3:").iter().all(|d| d.id == "2:"));
    assert!(inactive_devices(&ds, "2:").iter().all(|d| d.id == "3:"));
}

#[test]
fn thumbs_json_drops_non_jpeg_and_encodes_ids() {
    let jpeg = b"\xff\xd8\xff\xd9".to_vec();
    let msg = thumbs_json(&vec![("2:".into(), jpeg), ("3:".into(), b"nope".to_vec())]);
    assert!(msg.contains("\"thumbs\""));
    assert!(msg.contains("2:"));
    assert!(!msg.contains("nope"));
    assert!(msg.contains(&encode_b64(b"\xff\xd8\xff\xd9")));
}

#[test]
fn live_thumb_args_are_continuous_mjpeg() {
    let joined = thumb_ffmpeg_args("2:", false).join(" ");
    assert!(joined.contains(&format!("-framerate {THUMB_FPS}")));
    assert!(!joined.contains("-frames:v"));
    assert!(joined.contains("mjpeg"));
    assert!(joined.contains("2:"));
    assert!(joined.contains("low_delay"));
    assert!(THUMB_FPS >= 10, "inactive map tiles must feel live, not ~3s stills");
}

#[test]
fn oneshot_thumb_args_grab_one_frame() {
    let joined = thumb_ffmpeg_args("3:", true).join(" ");
    assert!(joined.contains("-frames:v 1"));
    assert!(joined.contains("-framerate 1"));
}

#[test]
fn merge_thumbs_latest_unions_display_ids() {
    let a = b"\xff\xd8\xff\xd9".to_vec();
    let mut latest = Vec::new();
    assert!(merge_thumbs_latest(&mut latest, &thumbs_json(&vec![("2:".into(), a.clone())])));
    assert!(merge_thumbs_latest(&mut latest, &thumbs_json(&vec![("3:".into(), a)])));
    assert_eq!(latest.len(), 1);
    assert!(latest[0].contains("2:"));
    assert!(latest[0].contains("3:"));
    assert!(!merge_thumbs_latest(&mut latest, r#"{"type":"flags"}"#));
}

#[test]
fn previews_are_for_macs() {
    assert!(can_preview("3:", "Darwin"));
    assert!(!can_preview("3:", "Linux"));
    assert!(!can_preview("", "Darwin"));
    assert!(preview_wait(true) < preview_wait(false));
}
