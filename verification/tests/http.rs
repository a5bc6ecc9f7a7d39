//! The host's HTTP interface.

use bytes::Bytes;
use streamaid::access::{
    cookie_named, is_public, percent_decode, percent_encode_cookie, query_value, request_session,
    request_token, token_ok,
};
use streamaid::api::{
    devices_json, disposition, download_name, files_json, files_put_request, json_err, kept_json,
    needs_of, pane_request, recordings_json, request_keys, sse_pack, sse_parts, wol_request,
    Granted, Needs,
};
use streamaid::capture::CaptureStatus;
use streamaid::computer_use::{production_model, ActionModel};
use streamaid::config::{redact_access, Config};
use streamaid::device::{enumerate_devices, AudioDevice};
use streamaid::files::{encode_b64, put_check, FileEntry};
use streamaid::frame::mp4_box;
use streamaid::headers::stream_header_map;
use streamaid::hub::Hub;
use streamaid::json::Json;
use streamaid::otp::{FakeClock, Reading, FAIL_LIMIT, PIN_TTL};
use streamaid::protocol::TYPE_FRAG;
use streamaid::server::{App, Effect};
use streamaid::status::{analysis_json, quality_json, served_elsewhere, Elsewhere, Vitals};
use streamaid::watch::{mp4_check, mp4_part};

const SECOND: u64 = 1_000_000_000;

fn j(text: &str) -> Json {
    Json::parse(text).unwrap()
}

fn app_with(cfg: Config) -> App {
    let mut out = Vec::new();
    App::new(cfg, enumerate_devices("Linux", &Vec::new(), b""), &mut out)
}

fn token_app() -> App {
    let mut cfg = Config::default();
    cfg.token = "s3cret".into();
    app_with(cfg)
}

/// Whether a request with these headers may use the host's interface.
fn host_may(app: &App, auth: Option<&str>, query: &str, cookie: Option<&str>) -> bool {
    app.host_ok(&request_keys(auth, query, cookie).0)
}

fn viewer_may(app: &mut App, query: &str, cookie: Option<&str>, now: u64) -> bool {
    let (token, session) = request_keys(None, query, cookie);
    app.viewer_ok(&token, &session, now)
}

fn mint(app: &mut App, at: Reading) -> String {
    let mut out: Vec<Effect> = Vec::new();
    let body = j(&app.otp_mint(at, &mut out));
    assert_eq!(out.len(), 1);
    body.text_at("pin").unwrap().to_string()
}

fn redeem(app: &mut App, pin: &str, now: u64) -> Result<Granted, u16> {
    let body = format!(r#"{{"pin":"{pin}"}}"#);
    app.otp_redeem(body.as_bytes(), now).map_err(|e| e.status)
}

fn flip_pin(pin: &str) -> String {
    let mut c: Vec<char> = pin.chars().collect();
    let last = c.len() - 1;
    c[last] = if c[last] == '0' { '1' } else { '0' };
    c.into_iter().collect()
}

fn session_of(g: &Granted) -> String {
    j(&g.body).text_at("session").unwrap().to_string()
}

#[test]
fn empty_expected_token_allows_any() {
    assert!(token_ok("anything", ""));
    assert!(!token_ok("a", "b"));
    assert!(token_ok("secret", "secret"));
}

#[test]
fn percent_decode_matches_js_encode_uri_component() {
    assert_eq!(percent_decode("s3cret"), "s3cret");
    assert_eq!(percent_decode("p%40ss%2Fw%20d%2B"), "p@ss/w d+");
    assert_eq!(percent_encode_cookie("p@ss/w d+"), "p%40ss%2Fw%20d%2B");
}

#[test]
fn stream_headers_on_media_response() {
    let h = stream_header_map();
    let cc = h.get("Cache-Control").unwrap();
    assert!(cc.contains("no-store"));
    assert!(cc.contains("no-transform"));
    assert_eq!(h.get("Transfer-Encoding").unwrap(), "chunked");
    assert!(h.get("Content-Type").is_none());
}

#[test]
fn wol_rejects_bad_mac() {
    assert_eq!(wol_request(br#"{"mac":"nope"}"#).unwrap_err().status, 400);
    assert_eq!(wol_request(b"{").unwrap_err().status, 400);
    assert_eq!(wol_request(br#"{"mac":"01:02:03:04:05:06"}"#).unwrap(), [1, 2, 3, 4, 5, 6]);
}

#[test]
fn permissions_open_rejects_unknown_pane() {
    assert_eq!(pane_request(br#"{"which":"nope"}"#, true).unwrap_err().status, 400);
    assert_eq!(pane_request(br#"{"which":"screen"}"#, false).unwrap_err().reason, "macos only");
    assert!(pane_request(br#"{"which":"screen"}"#, true).is_ok());
}

#[test]
fn config_post_clamps_and_round_trips() {
    let mut app = app_with(Config::default());
    let cfg = app.config_change(br#"{"encoder":{"bitrate_kbps":50,"gop_frames":12}}"#).unwrap();
    let mut out = Vec::new();
    let v = j(&app.apply_config(cfg, &mut out));
    assert_eq!(v.truth_at("applied"), Some(true));
    assert_eq!(v.truth_at("restart_required"), Some(false));
    assert!(out.iter().any(|e| matches!(e, Effect::Recapture)));
    let shown = redact_access(&app.cfg);
    let enc = shown.get("encoder").unwrap();
    assert_eq!(enc.whole_at("bitrate_kbps"), Some(2000)); // clamped from 50
    assert_eq!(enc.whole_at("gop_frames"), Some(12));
    assert_eq!(enc.text_at("mode"), Some("ffmpeg"));
    let cfg = app.config_change(br#"{"port":9090}"#).unwrap();
    let mut out = Vec::new();
    let v = j(&app.apply_config(cfg, &mut out));
    assert_eq!(v.truth_at("restart_required"), Some(true));
    assert!(v.text_at("note").unwrap().contains("restart"));
    assert!(!out.iter().any(|e| matches!(e, Effect::Recapture)));
}

#[test]
fn token_rejects_unauthorized_and_accepts_bearer() {
    let app = token_app();
    assert!(!host_may(&app, None, "", None));
    assert!(host_may(&app, Some("Bearer s3cret"), "", None));
    assert!(host_may(&app, None, "token=s3cret", None));
    assert!(host_may(&app, None, "", Some("streamaid_token=s3cret")));
    assert!(!host_may(&app, Some("Bearer nope"), "", None));
}

#[test]
fn public_ui_does_not_need_token() {
    assert!(is_public("/"));
    assert!(is_public("/api/login"));
    assert!(!is_public("/api/config"));
}

#[test]
fn mp4_stream_is_chunked_no_transform_and_starts_with_init() {
    let mut init = mp4_box(b"ftyp", b"isom");
    init.extend_from_slice(&mp4_box(b"moov", b"trak"));
    let mut frag = mp4_box(b"moof", b"mfhd");
    frag.extend_from_slice(&mp4_box(b"mdat", b"mdat-bytes"));
    let mut hub = Hub::new();
    hub.publish_init(Bytes::from(init.clone()), 1920, 1080, 0);
    hub.publish_unit(TYPE_FRAG, Bytes::from(frag.clone()), 0, 0, 0);
    assert!(mp4_check(&Config::default().encoder.mode).is_ok());
    let mut buf = hub.init_segment().unwrap().to_vec();
    buf.extend_from_slice(&mp4_part(&hub.latest().unwrap()).unwrap());
    assert!(buf.len() >= init.len(), "got {} bytes", buf.len());
    assert_eq!(&buf[..init.len()], init.as_slice());
    let cc = stream_header_map().get("Cache-Control").unwrap().to_lowercase();
    assert!(cc.contains("no-store"), "{cc}");
    assert!(cc.contains("no-transform"), "{cc}");
}

#[test]
fn pin_mint_redeem_session_gates_watch_not_stream_token() {
    let clock = FakeClock::new();
    let now = clock.read().now;
    let mut app = token_app();
    assert!(!viewer_may(&mut app, "", None, now));
    assert!(viewer_may(&mut app, "token=s3cret", None, now));
    let pin = mint(&mut app, clock.read());
    assert_eq!(pin.len(), 6);
    assert!(pin.chars().all(|c| c.is_ascii_digit()));
    let mut out = Vec::new();
    let shown = j(&app.otp_get(clock.read(), &mut out));
    assert_eq!(shown.text_at("pin"), Some(pin.as_str()));
    assert_eq!(shown.whole_at("expires_in_s"), Some(300));
    assert!(out.is_empty());
    assert_eq!(redeem(&mut app, &flip_pin(&pin), now).unwrap_err(), 401);
    let ok = redeem(&mut app, &pin, now).unwrap();
    let set_cookie = ok.cookies.join("; ");
    assert!(set_cookie.contains("streamaid_session="));
    assert!(
        set_cookie.contains("Max-Age=86400"),
        "session cookie must last a day, got {set_cookie}"
    );
    let session = session_of(&ok);
    assert!(!session.is_empty());
    assert_eq!(
        j(&ok.body).whole_at("expires_in_s").unwrap_or(0),
        86400,
        "redeemed session must last a day"
    );
    assert!(viewer_may(&mut app, "", Some(&format!("streamaid_session={session}")), now));
}

#[test]
fn pin_regenerate_invalidates_previous() {
    let clock = FakeClock::new();
    let now = clock.read().now;
    let mut app = token_app();
    let pin_a = mint(&mut app, clock.read());
    let mut pin_b = mint(&mut app, clock.read());
    while pin_b == pin_a {
        pin_b = mint(&mut app, clock.read());
    }
    assert_ne!(pin_a, pin_b);
    assert_eq!(redeem(&mut app, &pin_a, now).unwrap_err(), 401);
    assert!(redeem(&mut app, &pin_b, now).is_ok());
}

#[test]
fn pin_rate_limit_and_expire() {
    let clock = FakeClock::new();
    let now = clock.read().now;
    let mut app = token_app();
    let pin = mint(&mut app, clock.read());
    let wrong = flip_pin(&pin);
    for _ in 0..FAIL_LIMIT {
        assert_eq!(redeem(&mut app, &wrong, now).unwrap_err(), 401);
    }
    assert_eq!(redeem(&mut app, &wrong, now).unwrap_err(), 429);

    let mut clock2 = FakeClock::new();
    let mut app2 = token_app();
    let pin2 = mint(&mut app2, clock2.read());
    clock2.advance(PIN_TTL + SECOND);
    assert_eq!(redeem(&mut app2, &pin2, clock2.read().now).unwrap_err(), 401);
}

#[test]
fn production_app_wires_llm_model() {
    assert_eq!(production_model(&Config::default().llm).kind(), "llm");
}

#[test]
fn percent_encoded_token_cookie_authorizes() {
    let mut cfg = Config::default();
    cfg.token = "p@ss/w d+".into();
    let app = app_with(cfg);
    assert!(host_may(&app, None, "", Some("streamaid_token=p%40ss%2Fw%20d%2B")));
}

#[test]
fn host_login_sets_token_cookie_and_rejects_bad_input() {
    let app = token_app();
    assert_eq!(app.login(b"{").unwrap_err().status, 400);
    for body in [r#"{}"#, r#"{"token":""}"#, r#"{"token":"   "}"#, r#"{"token":1}"#] {
        let e = app.login(body.as_bytes()).unwrap_err();
        assert_eq!(e.status, 400, "body={body} err={}", e.reason);
        assert!(!e.reason.is_empty());
    }
    assert_eq!(app.login(br#"{"token":"nope"}"#).unwrap_err().status, 401);
    let ok = app.login(br#"{"token":"s3cret"}"#).unwrap();
    assert!(
        ok.cookies.join("; ").contains("streamaid_token="),
        "login must set host token cookie, got {:?}",
        ok.cookies
    );
    assert_eq!(j(&ok.body).truth_at("ok"), Some(true));
    assert!(host_may(&app, None, "", Some("streamaid_token=s3cret")));
}

#[test]
fn otp_redeem_rejects_malformed_empty_and_non_string_pin() {
    let clock = FakeClock::new();
    let now = clock.read().now;
    let mut app = token_app();
    let pin = mint(&mut app, clock.read());
    assert_eq!(pin.len(), 6);
    assert_eq!(app.otp_redeem(b"{", now).unwrap_err().status, 400);
    for body in [
        r#"{}"#,
        r#"{"pin":""}"#,
        r#"{"pin":"   "}"#,
        r#"{"pin":123456}"#,
        r#"{"pin":true}"#,
        r#"{"pin":null}"#,
    ] {
        let e = app.otp_redeem(body.as_bytes(), now).unwrap_err();
        assert_eq!(e.status, 400, "body={body} err={}", e.reason);
        assert!(!json_err(e.reason).is_empty());
    }
    let ok = redeem(&mut app, &pin, now).unwrap();
    assert!(
        ok.cookies.join("; ").contains("streamaid_session="),
        "valid redeem must set session cookie, got {:?}",
        ok.cookies
    );
    assert!(!session_of(&ok).is_empty());
}

#[test]
fn unattended_password_redeems_after_pin_expires() {
    let mut clock = FakeClock::new();
    let mut app = app_with(Config::default());
    let short = app.config_change(br#"{"access":{"unattended":true,"password":"short"}}"#);
    assert_eq!(short.unwrap_err().status, 400);
    let cfg =
        app.config_change(br#"{"access":{"unattended":true,"password":"s3cret!!"}}"#).unwrap();
    let mut out = Vec::new();
    app.apply_config(cfg, &mut out);
    let shown = redact_access(&app.cfg);
    let access = shown.get("access").unwrap();
    assert_eq!(access.truth_at("unattended"), Some(true));
    assert_eq!(access.truth_at("password_set"), Some(true));
    assert!(access.get("password_hash").is_none());
    let pin = mint(&mut app, clock.read());
    clock.advance(PIN_TTL + SECOND);
    assert_eq!(redeem(&mut app, &pin, clock.read().now).unwrap_err(), 401);
    let ok = redeem(&mut app, "s3cret!!", clock.read().now).unwrap();
    assert!(
        !session_of(&ok).is_empty(),
        "unattended password must issue a session after the PIN expires, got {}",
        ok.body
    );
}

#[test]
fn config_post_rejects_malformed_non_object_and_unauthorized() {
    let app = token_app();
    assert!(!host_may(&app, None, "", None));
    assert_eq!(app.config_change(b"{").unwrap_err().status, 400);
    assert_eq!(app.config_change(b"[1,2,3]").unwrap_err().status, 400);
    assert_eq!(app.config_change(b"\xff").unwrap_err().reason, "invalid JSON body");
}

#[test]
fn computer_use_rejects_unauthorized_malformed_missing_task_and_ai_off() {
    let clock = FakeClock::new();
    let now = clock.read().now;
    let mut app = token_app();
    assert!(!viewer_may(&mut app, "", None, now));
    let pin = mint(&mut app, clock.read());
    let session = session_of(&redeem(&mut app, &pin, now).unwrap());
    let cookie = format!("streamaid_session={session}");
    assert!(viewer_may(&mut app, "", Some(&cookie), now));
    let e = app.task_request(br#"{"task":"type hello"}"#).unwrap_err();
    assert_eq!(e.status, 403);
    assert!(e.reason.contains("disabled"));
    app.cfg.control.ai_enabled = true;
    assert_eq!(app.task_request(b"{").unwrap_err().status, 400);
    for body in [r#"{}"#, r#"{"task":""}"#, r#"{"task":"   "}"#, r#"{"task":1}"#] {
        let e = app.task_request(body.as_bytes()).unwrap_err();
        assert_eq!(e.status, 400, "body={body} err={}", e.reason);
    }
    assert_eq!(app.task_request(br#"{"task":" type hello "}"#).unwrap(), "type hello");
}

#[test]
fn files_put_and_download_are_checked() {
    let mut app = token_app();
    assert_eq!(app.files_ok("", "", 0).unwrap_err().status, 401);
    assert!(app.files_ok("s3cret", "", 0).is_ok());
    let body = format!(r#"{{"name":"hello.txt","data":"{}"}}"#, encode_b64(b"hello-inbox"));
    let (name, data) = files_put_request(body.as_bytes()).unwrap();
    assert_eq!(name, "hello.txt");
    assert_eq!(data, b"hello-inbox");
    let entry = FileEntry::file(name, data.len() as u64);
    assert_eq!(kept_json(&entry), r#"{"name":"hello.txt","ok":true,"size":11}"#);
    let body = format!(r#"{{"name":"../evil.txt","data":"{}"}}"#, encode_b64(b"no"));
    let (name, data) = files_put_request(body.as_bytes()).unwrap();
    assert!(put_check(&name, data.len() as u64).is_err());
    assert_eq!(files_put_request(br#"{"data":""}"#).unwrap_err().reason, "missing name");
    assert_eq!(files_put_request(br#"{"name":"a"}"#).unwrap_err().reason, "missing data");
    assert_eq!(
        files_put_request(br#"{"name":"a","data":"@@"}"#).unwrap_err().reason,
        "invalid base64"
    );
    let big = encode_b64(&vec![0u8; 8_388_609]);
    let body = format!(r#"{{"name":"a","data":"{big}"}}"#);
    assert!(files_put_request(body.as_bytes()).unwrap_err().reason.contains("too large"));
    assert!(files_json(&vec![entry], "/inbox").contains("hello.txt"));
    assert_eq!(download_name("name=a&name=hello%20there.txt").unwrap(), "hello there.txt");
    assert_eq!(download_name("x=1").unwrap_err().status, 400);
    assert_eq!(disposition("a\"b.txt"), "attachment; filename=\"ab.txt\"");
}

#[test]
fn viewer_files_forbidden_until_control_enabled() {
    let clock = FakeClock::new();
    let now = clock.read().now;
    let mut app = token_app();
    let pin = mint(&mut app, clock.read());
    let session = session_of(&redeem(&mut app, &pin, now).unwrap());
    assert_eq!(app.files_ok("", &session, now).unwrap_err().status, 403);
    app.cfg.control.enabled = true;
    assert!(app.files_ok("", &session, now).is_ok());
}

#[test]
fn every_path_asks_for_its_key() {
    let clock = FakeClock::new();
    let now = clock.read().now;
    let mut app = token_app();
    let pin = mint(&mut app, clock.read());
    let session = session_of(&redeem(&mut app, &pin, now).unwrap());
    let paths = [
        ("/", Needs::Nothing),
        ("/api/login", Needs::Nothing),
        ("/stream.ws", Needs::Watch),
        ("/stream.mp4", Needs::Watch),
        ("/stream.mjpeg", Needs::Watch),
        ("/api/computer-use", Needs::Watch),
        ("/api/files", Needs::Files),
        ("/api/files/download", Needs::Files),
        ("/api/files/mkdir", Needs::Files),
        ("/api/files/rename", Needs::Files),
        ("/api/files/copy", Needs::Files),
        ("/api/status", Needs::Host),
        ("/api/config", Needs::Host),
        ("/api/otp", Needs::Host),
        ("/api/computer-use/cancel", Needs::Host),
        ("/api/recordings/download", Needs::Host),
    ];
    for (path, needs) in paths {
        assert_eq!(needs_of(path), needs, "{path}");
        assert!(app.let_in(path, "s3cret", "", now).is_ok(), "{path}");
        assert_eq!(app.let_in(path, "x", "y", now).is_ok(), needs == Needs::Nothing, "{path}");
        let seen = app.let_in(path, "", &session, now).map_err(|e| e.status);
        let expected = match needs {
            Needs::Nothing | Needs::Watch => Ok(()),
            Needs::Files => Err(403),
            Needs::Host => Err(401),
        };
        assert_eq!(seen, expected, "{path}");
    }
    app.cfg.control.enabled = true;
    assert!(app.let_in("/api/files", "", &session, now).is_ok());
}

#[test]
fn tokens_and_sessions_are_found_where_they_may_stand() {
    assert_eq!(request_token(Some("Bearer  a "), "token=b", None), "a");
    assert_eq!(request_token(Some("Basic x"), "token=b", None), "b");
    assert_eq!(request_token(None, "token=", Some("x=1; streamaid_token=c")), "c");
    assert_eq!(request_session(None, "session=s", Some("streamaid_session=t")), "s");
    assert_eq!(request_session(Some("Bearer u"), "", Some("streamaid_session=t")), "t");
    assert_eq!(request_session(Some("Bearer u"), "", None), "u");
    assert_eq!(query_value("a=1&a=2", "a"), "2");
    assert_eq!(cookie_named(Some("a=1;b=%20"), "b"), " ");
    assert_eq!(cookie_named(None, "b"), "");
}

#[test]
fn lists_are_json() {
    let e = FileEntry::file("session-1.mp4".to_string(), 3);
    let on = j(&recordings_json(&vec![e], Some("session-2.mp4"), "/rec"));
    assert_eq!(on.truth_at("recording"), Some(true));
    assert_eq!(on.text_at("name"), Some("session-2.mp4"));
    let off = j(&recordings_json(&Vec::new(), None, "/rec"));
    assert_eq!(off.truth_at("recording"), Some(false));
    assert_eq!(off.text_at("name"), None);
    let mic = AudioDevice { id: "0".to_string(), name: "Mic".to_string() };
    let d = j(&devices_json(&enumerate_devices("Linux", &Vec::new(), b""), &vec![mic]));
    assert_eq!(d.items_at("audio").unwrap()[0].text_at("name"), Some("Mic"));
    assert!(!d.items_at("displays").unwrap().is_empty());
}

#[test]
fn events_are_read_as_written() {
    let s = sse_pack("status", r#"{"a":1}"#);
    assert_eq!(s, "event: status\ndata: {\"a\":1}\n\n");
    let (name, data) = sse_parts(&s).unwrap();
    assert_eq!((name.as_str(), data.as_str()), ("status", r#"{"a":1}"#));
    assert!(sse_parts("status").is_none());
    assert_eq!(sse_parts("event: x").unwrap().1, "{}");
}

#[test]
fn the_status_has_every_part() {
    let app = token_app();
    let v = Vitals {
        version: "1.2".to_string(),
        uptime_s: "3.25".to_string(),
        fps_actual: "29.5".to_string(),
        last_media_age_s: "0.1".to_string(),
        size: (640, 480),
        clients: 2,
        recording: false,
        ducking: false,
        awake: true,
        files: 7,
        sysname: "Linux".to_string(),
    };
    let st = j(&app.status_json(&CaptureStatus::default(), &v, 0));
    assert_eq!(st.text_at("version"), Some("1.2"));
    let cap = st.get("capture").unwrap();
    assert_eq!(cap.whole_at("width"), Some(640));
    assert_eq!(cap.whole_at("height"), Some(480));
    assert_eq!(cap.whole_at("fps_target"), Some(30));
    assert_eq!(st.get("stream").unwrap().whole_at("clients"), Some(2));
    assert_eq!(st.get("control").unwrap().whole_at("files"), Some(7));
    assert_eq!(st.get("otp").unwrap().truth_at("has_pin"), Some(false));
    assert_eq!(st.get("access").unwrap().truth_at("password_set"), Some(false));
    assert!(st.get("quality").is_some() && st.get("llm").is_some());
    assert!(j(&quality_json()).get("last").is_some());
    assert!(j(&analysis_json()).get("llm").is_some());
}

#[test]
fn what_is_served_elsewhere_says_so() {
    assert_eq!(served_elsewhere(Elsewhere::Ask).status, 503);
    assert_eq!(served_elsewhere(Elsewhere::Analyze).status, 503);
    assert_eq!(served_elsewhere(Elsewhere::QualityCheck).status, 502);
    assert_eq!(json_err("no \"way\""), r#"{"error":"no \"way\""}"#);
}
