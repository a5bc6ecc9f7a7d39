//! PINs, chat, the publisher, and the host's machine.

use bytes::Bytes;
use streamaid::chat::{
    already_attributed, chat_from, chat_json, clamp_chat, history_json, push_history,
    CHAT_HISTORY, CHAT_MAX_CHARS,
};
use streamaid::config::Config;
use streamaid::hub::Hub;
use streamaid::otp::{
    hash_eq, hex_encode, pin_from, sha256_hex, FakeClock, OtpGate, RedeemError, FAIL_LIMIT,
    LOCKOUT, PIN_TTL, SESSION_TTL,
};
use streamaid::perm::{
    accessibility_ok, input_ok, open_privacy_pane, pane_opened, privacy_pane_url, screen_ok,
};
use streamaid::power::{should_keep_awake, FakePower, NullPower, PowerGuard};
use streamaid::protocol::{pack_media, TYPE_FRAG, TYPE_INIT};
use streamaid::clips::png_of_script;
use streamaid::inject::takes_machine_back;
use streamaid::link::pair_fits;
use streamaid::thumbs::reconcile;
use streamaid::watch::mp4_goes_on;
use streamaid::publisher::{
    answer, goes_on_after_text, has_token, next_backoff, opening, publish_url_with_token,
    skip_on_send_timeout, Answer, Incoming, Publisher,
};
use streamaid::voice::{
    accept_pcm, clamp_rate, ffmpeg_audiotoolbox_argv, ffplay_voice_argv, plays_alone, should_duck_mic,
    voice_player_candidates, wav_from_pcm_s16le, Ducking, FakeDuck, FakeVoice, MicDuck, VoiceSink,
    Volume, VOICE_MAX, VOICE_RATE,
};
use streamaid::wol::{format_mac, keep_iface, list_macs, magic_packet, parse_mac, Link};

const SECOND: u64 = 1_000_000_000;

#[test]
fn mint_is_six_digits() {
    let clock = FakeClock::new();
    let mut g = OtpGate::new();
    let st = g.mint(clock.read());
    assert_eq!(st.pin.len(), 6);
    assert!(st.pin.chars().all(|c| c.is_ascii_digit()));
    assert_eq!(st.hash, sha256_hex(&st.pin));
    assert_eq!(g.current_pin(clock.read().now).unwrap().pin, st.pin);
}

#[test]
fn redeem_issues_session_and_rejects_wrong_pin() {
    let clock = FakeClock::new();
    let now = clock.read().now;
    let mut g = OtpGate::new();
    let st = g.mint(clock.read());
    assert_eq!(g.redeem("00000x", now).unwrap_err(), RedeemError::Unauthorized);
    let sess = g.redeem(&st.pin, now).unwrap();
    assert!(g.session_ok(&sess.token, now));
    assert!(!g.session_ok("nope", now));
    assert!(!g.session_ok("", now));
}

#[test]
fn regenerate_invalidates_previous_pin() {
    let clock = FakeClock::new();
    let now = clock.read().now;
    let mut g = OtpGate::new();
    let a = g.mint(clock.read());
    let mut b = g.mint(clock.read());
    while b.pin == a.pin {
        b = g.mint(clock.read());
    }
    assert_ne!(a.pin, b.pin);
    assert_eq!(g.redeem(&a.pin, now).unwrap_err(), RedeemError::Unauthorized);
    assert!(g.redeem(&b.pin, now).is_ok());
}

#[test]
fn expire_after_five_minutes() {
    let mut clock = FakeClock::new();
    let mut g = OtpGate::new();
    let st = g.mint(clock.read());
    clock.advance(PIN_TTL + SECOND);
    let now = clock.read().now;
    assert!(g.current_pin(now).is_none());
    assert_eq!(g.redeem(&st.pin, now).unwrap_err(), RedeemError::Unauthorized);
}

#[test]
fn rate_limits_repeated_wrong_pin() {
    let mut clock = FakeClock::new();
    let now = clock.read().now;
    let mut g = OtpGate::new();
    let st = g.mint(clock.read());
    let wrong = if st.pin.ends_with('0') { "000001" } else { "000000" };
    for _ in 0..FAIL_LIMIT {
        assert_eq!(g.redeem(wrong, now).unwrap_err(), RedeemError::Unauthorized);
    }
    assert_eq!(g.redeem(wrong, now).unwrap_err(), RedeemError::RateLimited);
    assert_eq!(g.redeem(&st.pin, now).unwrap_err(), RedeemError::RateLimited);
    clock.advance(LOCKOUT + SECOND);
    assert!(g.redeem(&st.pin, clock.read().now).is_ok());
}

#[test]
fn session_expires() {
    let mut clock = FakeClock::new();
    let mut g = OtpGate::new();
    let st = g.mint(clock.read());
    let sess = g.redeem(&st.pin, clock.read().now).unwrap();
    clock.advance(SESSION_TTL + SECOND);
    assert!(!g.session_ok(&sess.token, clock.read().now));
}

#[test]
fn ensure_current_remints_after_pin_expires() {
    let mut clock = FakeClock::new();
    let mut g = OtpGate::new();
    let a = g.mint(clock.read());
    clock.advance(PIN_TTL + SECOND);
    assert!(g.current_pin(clock.read().now).is_none());
    let mut b = g.ensure_current(clock.read());
    assert_ne!(a.exp, b.exp);
    while a.pin == b.pin {
        b = g.mint(clock.read());
    }
    assert_ne!(a.pin, b.pin);
    assert_eq!(g.current_pin(clock.read().now).unwrap().pin, b.pin);
    assert_eq!(g.ensure_current(clock.read()).pin, b.pin);
}

#[test]
fn session_lasts_almost_a_day_after_redeem() {
    let mut clock = FakeClock::new();
    let mut g = OtpGate::new();
    let st = g.mint(clock.read());
    let sess = g.redeem(&st.pin, clock.read().now).unwrap();
    clock.advance(23 * 3600 * SECOND);
    assert!(
        g.session_ok(&sess.token, clock.read().now),
        "redeemed PIN session must still be valid ~23h later"
    );
    clock.advance(2 * 3600 * SECOND);
    assert!(!g.session_ok(&sess.token, clock.read().now));
}

#[test]
fn the_unattended_password_opens_without_a_pin() {
    let mut g = OtpGate::new();
    g.set_unattended(sha256_hex("s3cret!!"));
    assert!(g.redeem_with("s3cret!!", 0, "tok".to_string()).is_ok());
    assert!(g.session_ok("tok", 1));
    assert_eq!(g.redeem("other", 0).unwrap_err(), RedeemError::Unauthorized);
}

#[test]
fn digests_are_exact() {
    assert_eq!(
        sha256_hex("abc"),
        "ba7816bf8f01cfea414140de5dae2223b00361a396177a9cb410ff61f20015ad"
    );
    assert_eq!(hex_encode(&[0, 15, 255]), "000fff");
    assert!(hash_eq("ab", "ab"));
    assert!(!hash_eq("ab", "ac"));
    assert_eq!(pin_from(&[7, 0, 0, 0]), "000007");
}

#[test]
fn clamp_trims_and_caps_chars() {
    assert_eq!(clamp_chat("  hi  "), "hi");
    assert!(clamp_chat("   ").is_empty());
    let long: String = "é".repeat(CHAT_MAX_CHARS + 40);
    let out = clamp_chat(&long);
    assert_eq!(out.chars().count(), CHAT_MAX_CHARS);
    assert!(out.chars().all(|c| c == 'é'));
}

#[test]
fn from_ignores_spoof_when_unattributed_and_uses_session() {
    assert_eq!(chat_from(None, ""), "host");
    assert_eq!(chat_from(Some("nope"), "sess"), "viewer");
    assert_eq!(chat_from(Some("host"), "sess"), "host");
    assert_eq!(chat_from(Some("VIEWER"), ""), "viewer");
    assert!(already_attributed(Some("host")));
    assert!(!already_attributed(Some("ai")));
}

#[test]
fn history_caps_at_forty_and_wraps_json() {
    let mut log = Vec::new();
    for i in 0..45 {
        push_history(&mut log, chat_json(&format!("m{i}"), "host", i as u64));
    }
    assert_eq!(log.len(), CHAT_HISTORY);
    assert!(log[0].contains("m5"));
    let hist = history_json(&log);
    assert!(hist.contains("chat-history"));
    assert!(hist.contains("m44"));
    assert!(!hist.contains("\"m0\""));
}

#[test]
fn pane_urls_for_screen_and_accessibility() {
    assert!(privacy_pane_url("screen").unwrap().contains("Privacy_ScreenCapture"));
    assert!(privacy_pane_url("CAPTURE").unwrap().contains("Privacy_ScreenCapture"));
    assert!(privacy_pane_url("ax").unwrap().contains("Privacy_Accessibility"));
    assert!(privacy_pane_url("input").unwrap().contains("Privacy_ListenEvent"));
    assert!(privacy_pane_url("hid").unwrap().contains("Privacy_ListenEvent"));
    assert!(privacy_pane_url("nope").is_none());
    assert!(privacy_pane_url("").is_none());
}

#[test]
fn unknown_pane_does_not_open() {
    assert_eq!(open_privacy_pane("nope", false), Err("unknown pane"));
    assert_eq!(open_privacy_pane("nope", true), Err("unknown pane"));
}

#[test]
fn non_mac_permissions_are_ok() {
    assert!(screen_ok(None));
    assert!(accessibility_ok(None));
    assert!(input_ok(None));
    assert_eq!(open_privacy_pane("screen", false), Err("macos only"));
}

#[test]
fn a_mac_is_asked_for_permissions() {
    assert!(!screen_ok(Some(false)));
    assert!(!accessibility_ok(Some(false)));
    assert!(input_ok(Some(0)));
    assert!(!input_ok(Some(1)));
    assert!(open_privacy_pane("screen", true).unwrap().contains("Privacy_ScreenCapture"));
    assert_eq!(pane_opened(Some(true)), Ok(()));
    assert_eq!(pane_opened(Some(false)), Err("open failed"));
    assert_eq!(pane_opened(None), Err("open failed"));
}

#[test]
fn keep_awake_during_session_even_without_setting() {
    assert!(should_keep_awake(false, true, false, true));
    assert!(!should_keep_awake(false, true, false, false));
}

#[test]
fn keep_awake_setting_needs_control_or_unattended() {
    assert!(!should_keep_awake(true, false, false, false));
    assert!(should_keep_awake(true, true, false, false));
    assert!(should_keep_awake(true, false, true, false));
    assert!(should_keep_awake(true, true, true, false));
}

#[test]
fn fake_power_flag_and_wake() {
    let mut p = FakePower::new();
    assert!(!p.is_awake());
    assert!(!p.take_wake());
    p.set_keep_awake(true);
    assert!(p.is_awake());
    p.wake = true;
    assert!(p.take_wake());
    assert!(!p.take_wake());
    p.set_keep_awake(false);
    assert!(!p.is_awake());
    let mut none = NullPower;
    none.set_keep_awake(true);
    assert!(!none.is_awake());
}

#[test]
fn backoff_caps_at_30s() {
    let mut d = SECOND;
    d = next_backoff(d);
    assert_eq!(d, 2 * SECOND);
    for _ in 0..10 {
        d = next_backoff(d);
    }
    assert_eq!(d, 30 * SECOND);
}

#[test]
fn appends_token_query() {
    let u = publish_url_with_token("wss://example.com/publish", "secret").unwrap();
    assert!(u.as_str().contains("token=secret"));
    let u = publish_url_with_token("wss://example.com/publish?token=secret", "other").unwrap();
    let parsed = url::Url::parse(&u).unwrap();
    assert_eq!(parsed.query_pairs().filter(|(k, _)| k == "token").count(), 1);
}

#[test]
fn a_url_that_is_none_is_refused() {
    assert_eq!(publish_url_with_token("not a url", "t").unwrap_err(), "relative URL without a base");
    assert_eq!(publish_url_with_token("wss://a:x/", "t").unwrap_err(), "invalid port number");
    assert_eq!(
        publish_url_with_token("wss://a/p?x=1#f", "q w/é").unwrap(),
        "wss://a/p?x=1&token=q+w%2F%C3%A9#f"
    );
    assert_eq!(publish_url_with_token("wss://a", "").unwrap(), "wss://a/");
    assert!(pair_fits("wss://a/", "token", "t"));
    assert!(has_token(&vec![("token".to_string(), "x".to_string())]));
    assert!(!has_token(&vec![("a".to_string(), "token".to_string())]));
}

#[test]
fn send_timeout_does_not_drop_session() {
    assert!(
        skip_on_send_timeout("publisher send timeout"),
        "a slow Durable Object ACK must skip a fragment, not reconnect the publisher"
    );
    assert!(!skip_on_send_timeout("publisher websocket closed"));
}

#[test]
fn a_publisher_keeps_the_last_of_each_kind() {
    let mut cfg = Config::default();
    cfg.cloudflare.publish_url = "wss://example.com/publish".into();
    cfg.token = "secret".into();
    let mut p = Publisher::new(&cfg);
    assert!(p.target().unwrap().unwrap().contains("token=secret"));
    p.push_wire(r#"{"type":"otp","hash":"a"}"#);
    p.push_wire(r#"{"type":"otp","hash":"b"}"#);
    let pending = p.begin_session();
    assert_eq!(pending, vec![r#"{"type":"otp","hash":"b"}"#.to_string()]);
    assert!(p.media_sent(TYPE_FRAG, None));
    assert!(p.media_sent(TYPE_FRAG, Some("publisher send timeout")));
    assert!(!p.media_sent(TYPE_INIT, Some("publisher send timeout")));
    assert!(!p.media_sent(TYPE_FRAG, Some("closed")));
    let wait = p.session_ended(true);
    assert!(p.session_ended(true) >= wait);
    p.set_config(&Config::default());
    assert!(p.target().is_none());
}

#[test]
fn a_session_opens_with_the_init_segment() {
    let mut hub = Hub::new();
    assert!(opening(&hub).is_empty());
    hub.publish_init(Bytes::from_static(b"init"), 1, 1, 0);
    hub.publish_unit(TYPE_FRAG, Bytes::from_static(b"f"), 1, 1, 0);
    assert_eq!(opening(&hub), vec![pack_media(TYPE_INIT, b"init"), pack_media(TYPE_FRAG, b"f")]);
}

#[test]
fn incoming_messages_are_answered() {
    assert!(matches!(answer(Incoming::Ended), Answer::Fail(_)));
    assert!(matches!(answer(Incoming::Close), Answer::Fail(_)));
    assert!(matches!(answer(Incoming::Failed("x".to_string())), Answer::Fail(_)));
    match answer(Incoming::Ping(vec![1, 2])) {
        Answer::Pong(b) => assert_eq!(b, vec![1, 2]),
        other => panic!("{other:?}"),
    }
    match answer(Incoming::Text("{}".to_string())) {
        Answer::Forward(s) => assert_eq!(s, "{}"),
        other => panic!("{other:?}"),
    }
    assert!(matches!(answer(Incoming::Other), Answer::Nothing));
    assert!(goes_on_after_text("{}", None));
    assert!(!goes_on_after_text(r#"{"type":"otp"}"#, Some("closed")));
}

#[test]
fn wav_header_is_44_bytes_and_pcm_follows() {
    let pcm = vec![0u8, 1, 2, 3];
    let wav = wav_from_pcm_s16le(&pcm, 16_000);
    assert_eq!(&wav[..4], b"RIFF");
    assert_eq!(&wav[8..12], b"WAVE");
    assert_eq!(&wav[36..40], b"data");
    assert_eq!(&wav[44..], pcm);
    assert_eq!(u32::from_le_bytes(wav[24..28].try_into().unwrap()), 16_000);
}

#[test]
fn accept_pcm_rejects_empty_odd_and_huge() {
    assert!(accept_pcm(vec![]).is_none());
    assert!(accept_pcm(vec![1]).is_none());
    assert!(accept_pcm(vec![1, 2]).is_some());
    assert!(accept_pcm(vec![0; VOICE_MAX + 2]).is_none());
    assert_eq!(clamp_rate(48_000), VOICE_RATE);
    assert_eq!(clamp_rate(8_000), 8_000);
}

#[test]
fn fake_voice_records_play_calls() {
    let mut v = FakeVoice::new();
    v.play_pcm(&[9, 8], 16_000);
    let rec = v.recorded();
    assert_eq!(rec.len(), 1);
    assert_eq!(rec[0].0, 16_000);
    assert_eq!(rec[0].1, vec![9, 8]);
}

#[test]
fn duck_mic_only_when_capture_audio_is_on() {
    assert!(!should_duck_mic(false));
    assert!(should_duck_mic(true));
    let mut d = FakeDuck::new();
    assert!(!d.is_ducked());
    d.set_ducked(true);
    assert!(d.is_ducked());
    d.set_ducked(false);
    assert!(!d.is_ducked());
}

#[test]
fn ducking_sets_the_volume_back() {
    let mut d = Ducking::new();
    assert_eq!(d.set_ducked(true), Volume::Silence);
    d.silenced(Some(77), true);
    assert_eq!(d.set_ducked(true), Volume::Keep);
    assert_eq!(d.set_ducked(false), Volume::Restore(77));
    assert_eq!(d.set_ducked(false), Volume::Keep);
}

#[test]
fn voice_player_argv_is_raw_s16le_on_stdin() {
    let ff = ffmpeg_audiotoolbox_argv(16_000);
    assert!(ff.windows(2).any(|w| w[0] == "-f" && w[1] == "s16le"));
    assert!(ff.windows(2).any(|w| w[0] == "-i" && w[1] == "pipe:0"));
    assert!(ff.windows(2).any(|w| w[0] == "-f" && w[1] == "audiotoolbox"));
    let play = ffplay_voice_argv(16_000);
    assert!(play.iter().any(|a| a == "-nodisp"));
    assert!(play.windows(2).any(|w| w[0] == "-f" && w[1] == "s16le"));
    assert!(play.windows(2).any(|w| w[0] == "-i" && w[1] == "pipe:0"));
    let cands = voice_player_candidates(16_000, false);
    assert!(cands.iter().any(|(bin, _)| *bin == "ffplay"));
}

#[test]
fn parse_mac_accepts_colon_dash_and_bare() {
    let want = [0xaa, 0xbb, 0xcc, 0xdd, 0xee, 0xff];
    assert_eq!(parse_mac("aa:bb:cc:dd:ee:ff").unwrap(), want);
    assert_eq!(parse_mac("AA-BB-CC-DD-EE-FF").unwrap(), want);
    assert_eq!(parse_mac("aabbccddeeff").unwrap(), want);
    assert!(parse_mac("").is_err());
    assert!(parse_mac("aa:bb").is_err());
    assert!(parse_mac("00:00:00:00:00:00").is_err());
    assert_eq!(format_mac(&want), "aa:bb:cc:dd:ee:ff");
}

#[test]
fn magic_packet_is_sync_plus_sixteen_macs() {
    let mac = parse_mac("01:23:45:67:89:ab").unwrap();
    let pkt = magic_packet(mac);
    assert_eq!(pkt.len(), 102);
    assert_eq!(&pkt[..6], &[0xff; 6]);
    for i in 0..16 {
        assert_eq!(&pkt[6 + i * 6..12 + i * 6], &mac);
    }
}

#[test]
fn only_links_that_can_wake_are_listed() {
    assert!(keep_iface("en0"));
    assert!(!keep_iface("utun3"));
    let link = |name: &str, flags: u32| Link {
        name: name.to_string(),
        flags,
        family: 18,
        nlen: 3,
        alen: 6,
        data: vec![b'e', b'n', b'0', 1, 2, 3, 4, 5, 6, 0, 0, 0],
    };
    let got = list_macs(&vec![link("en0", 1), link("en0", 1), link("lo0", 1), link("en1", 8)]);
    assert_eq!(got, vec!["01:02:03:04:05:06".to_string()]);
}

#[test]
fn small_rules_of_the_host() {
    assert!(mp4_goes_on(None, 4, 4));
    assert!(mp4_goes_on(Some(true), 4, 4));
    assert!(!mp4_goes_on(Some(false), 4, 4));
    assert!(!mp4_goes_on(Some(true), 4, 5));
    assert!(plays_alone(2, 10));
    assert!(!plays_alone(3, 10));
    let flags = 0x12_0000u64;
    assert!(takes_machine_back(10, 53, flags | 1));
    assert!(!takes_machine_back(10, 53, 0x10_0000));
    assert!(!takes_machine_back(11, 53, flags));
    assert!(!takes_machine_back(10, 54, flags));
    let list = |v: &[&str]| -> Vec<String> { v.iter().map(|s| s.to_string()).collect() };
    let (end, start) = reconcile(&list(&["1", "2"]), &list(&["2", "3"]));
    assert_eq!(end, list(&["1"]));
    assert_eq!(start, list(&["3"]));
    assert_eq!(png_of_script("«data PNGf89504E47»\n").unwrap(), vec![0x89, 0x50, 0x4e, 0x47]);
    assert!(png_of_script("«data PNGf895»").is_none());
    assert!(png_of_script("«data PNGf89xx»").is_none());
    assert!(png_of_script("«data TIFF89»").is_none());
}
