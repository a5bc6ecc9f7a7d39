//! The origin as a whole: messages from watchers, and what comes of them.

use bytes::Bytes;
use std::collections::BTreeMap;
use streamaid::capture::CaptureStatus;
use streamaid::computer_use::{grab_jpeg, ActionModel, StubClickTypeModel, TaskRun, Todo, MAX_STEPS};
use streamaid::config::Config;
use streamaid::device::{enumerate_devices, Device};
use streamaid::files::{
    begin_reply, blob_replies, chunk_reply, encode_b64, err_json, list_at_json, listing,
    ok_json_at, put_check, put_reply, FileEntry, FileRequest, Inbox, Listing, RawEntry, MAX_CHUNK,
};
use streamaid::float::Real;
use streamaid::hub::Hub;
use streamaid::inject::{FakeInjector, Injected, Injector};
use streamaid::input::{Action, MouseButton, CLIP_PNG_MAX};
use streamaid::json::Json;
use streamaid::otp::{FakeClock, Reading, PIN_TTL};
use streamaid::panel::{rename_check, PanelOp};
use streamaid::power::{FakePower, PowerGuard};
use streamaid::protocol::{unpack_media, TYPE_FRAG, TYPE_INIT, TYPE_JPEG, TYPE_SNAP};
use streamaid::record::Recorder;
use streamaid::server::{png_replies, App, Effect};
use streamaid::snapshot::Snapshot;
use streamaid::status::Vitals;
use streamaid::transfer::finished;
use streamaid::voice::{FakeDuck, FakeVoice, MicDuck, VoiceSink};
use streamaid::watch::{
    media_frame, mjpeg_check, mjpeg_opening, mjpeg_part, mjpeg_unit, mp4_check, mp4_part,
    text_frame, upgrade_check, Watch, WatchEvent,
};
use streamaid::ws::{decode_frame, encode_frame, OP_BIN, OP_CLOSE, OP_PING, OP_PONG, OP_TEXT};

const SECOND: u64 = 1_000_000_000;

const TINY_PNG: &[u8] = &[
    0x89, 0x50, 0x4E, 0x47, 0x0D, 0x0A, 0x1A, 0x0A, 0x00, 0x00, 0x00, 0x0D, 0x49, 0x48, 0x44, 0x52,
    0x00, 0x00, 0x00, 0x01, 0x00, 0x00, 0x00, 0x01, 0x08, 0x02, 0x00, 0x00, 0x00, 0x90, 0x77, 0x53,
    0xDE, 0x00, 0x00, 0x00, 0x0C, 0x49, 0x44, 0x41, 0x54, 0x08, 0xD7, 0x63, 0xF8, 0xCF, 0xC0, 0x00,
    0x00, 0x00, 0x03, 0x00, 0x01, 0x00, 0x05, 0xFE, 0xD4, 0xEF, 0x00, 0x00, 0x00, 0x00, 0x49, 0x45,
    0x4E, 0x44, 0xAE, 0x42, 0x60, 0x82,
];

fn r(x: f64) -> Real {
    Real { bits: x.to_bits() }
}

fn j(text: &str) -> Json {
    Json::parse(text).unwrap()
}

/// An origin whose effects are carried out on fakes.
struct Host {
    app: App,
    fake: FakeInjector,
    power: FakePower,
    duck: FakeDuck,
    voice: FakeVoice,
    rec: Recorder,
    recorded: Vec<u8>,
    recordings: usize,
    hub: Hub,
    inbox: Inbox,
    files: BTreeMap<String, Vec<u8>>,
    told: Vec<String>,
    wired: Vec<String>,
    tasks: Vec<String>,
    log: Vec<String>,
    saves: usize,
    managed: Vec<PanelOp>,
    recaptures: usize,
    now: u64,
}

fn host(cfg: Config) -> Host {
    let mut out = Vec::new();
    let app = App::new(cfg, enumerate_devices("Linux", &Vec::new(), b""), &mut out);
    let mut h = Host {
        app,
        fake: FakeInjector::new(),
        power: FakePower::new(),
        duck: FakeDuck::new(),
        voice: FakeVoice::new(),
        rec: Recorder::new(),
        recorded: Vec::new(),
        recordings: 0,
        hub: Hub::new(),
        inbox: Inbox::new(),
        files: BTreeMap::new(),
        told: Vec::new(),
        wired: Vec::new(),
        tasks: Vec::new(),
        log: Vec::new(),
        saves: 0,
        managed: Vec::new(),
        recaptures: 0,
        now: SECOND,
    };
    h.carry_out(out);
    h
}

impl Host {
    fn carry_out(&mut self, out: Vec<Effect>) {
        for e in out {
            self.log.push(format!("{e:?}"));
            let mut more = Vec::new();
            match e {
                Effect::Inject(a) => self.fake.apply(&a),
                Effect::BlockLocal(on) => self.fake.block_local = on,
                Effect::BlankScreen(on) => self.fake.blank_screen = on,
                Effect::KeepAwake(on) => self.power.set_keep_awake(on),
                Effect::Duck(on) => self.duck.set_ducked(on),
                Effect::Play { pcm, rate } => self.voice.play_pcm(&pcm, rate),
                Effect::Wire(s) => self.wired.push(s),
                Effect::Tell(s) => self.told.push(s),
                Effect::StartRecording => {
                    if !self.rec.is_active() {
                        self.rec.start("session-1.mp4".to_string());
                        self.recordings += 1;
                        if let Some(i) = self.hub.init_segment() {
                            self.recorded.extend_from_slice(&i);
                        }
                    }
                }
                Effect::StopRecording => {
                    self.rec.stop();
                }
                Effect::RunTask(t) => self.tasks.push(t),
                Effect::SendFile(name) => {
                    let msgs = match self.files.get(&name) {
                        Some(d) => blob_replies(&name, d),
                        None => vec![err_json("file not found")],
                    };
                    self.app.share_all(msgs, &mut more);
                }
                Effect::File(req) => {
                    let replies = self.file(req);
                    self.app.send_file_replies(&replies, &mut more);
                }
                Effect::Offer(name) => {
                    if self.files.contains_key(&name) {
                        self.app.offer_incoming_file(&format!("/inbox/{name}"), &mut more);
                    }
                }
                Effect::PutFiles(paths) => self.fake.clip_files = paths,
                Effect::Keep { name, data } => {
                    if let Ok(n) = put_check(&name, data.len() as u64) {
                        self.files.insert(n.clone(), data);
                        self.app.offer_incoming_file(&format!("/inbox/{n}"), &mut more);
                    }
                }
                Effect::Manage(op) => self.managed.push(op),
                Effect::SaveConfig => self.saves += 1,
                Effect::ApplyDisplay(id) => {
                    let found = enumerate_devices("Linux", &Vec::new(), b"");
                    self.app.apply_display(&id, found);
                }
                Effect::Recapture => self.recaptures += 1,
                Effect::Announce => self.app.push_otp_wire(self.now, "Linux", &mut more),
                Effect::Status
                | Effect::PollClipboard
                | Effect::CancelTask
                | Effect::Capture
                | Effect::RestartPublisher => {}
            }
            self.carry_out(more);
        }
    }

    fn listing(&self) -> Listing {
        let raw: Vec<RawEntry> = self
            .files
            .iter()
            .map(|(n, d)| RawEntry {
                name: n.clone(),
                dir: false,
                file: true,
                size: Some(d.len() as u64),
            })
            .collect();
        Listing { root: "inbox".to_string(), path: String::new(), files: listing(&raw) }
    }

    fn file(&mut self, req: FileRequest) -> Vec<String> {
        match req {
            FileRequest::List { .. } => vec![list_at_json(&Ok(self.listing()))],
            FileRequest::Put { root, rel, name, data } => {
                let r = match put_check(&name, data.len() as u64) {
                    Ok(n) => {
                        let e = FileEntry::file(n.clone(), data.len() as u64);
                        self.files.insert(n, data);
                        Ok(e)
                    }
                    Err(e) => Err(e),
                };
                vec![put_reply(&root, &rel, &r)]
            }
            FileRequest::Begin { id, name, size, root, rel } => {
                let (r, _) = self.inbox.begin_at(&id, &name, size, &root, &rel, None);
                vec![begin_reply(&id, size, &r)]
            }
            FileRequest::Chunk { id, data } => {
                let r = match self.inbox.chunk_check(&id, data.len()) {
                    Ok(t) => {
                        self.files
                            .entry(format!("{}.part", t.name))
                            .or_default()
                            .extend_from_slice(&data);
                        self.inbox.chunk(&id, data.len())
                    }
                    Err(e) => Err(e),
                };
                chunk_reply(&r)
            }
            FileRequest::End { id } => {
                let t = self.inbox.end(&id).unwrap();
                let data = self.files.remove(&format!("{}.part", t.name)).unwrap();
                let e = finished(&t, data.len() as u64).unwrap();
                self.files.insert(t.name.clone(), data);
                vec![ok_json_at(&e, &t.root, &t.rel)]
            }
            other => vec![err_json(&format!("{other:?}"))],
        }
    }

    fn say(&mut self, msg: &str) {
        let mut out = Vec::new();
        self.app.handle_inbound_json(msg, self.now, 77, &mut out);
        self.carry_out(out);
    }

    fn hear(&mut self, w: &Watch, payload: &[u8]) {
        let mut out = Vec::new();
        self.app.hear(w, payload, self.now, 77, &mut out);
        self.carry_out(out);
    }

    fn end(&mut self) {
        let mut out = Vec::new();
        self.app.end_remote_session(&mut out);
        self.carry_out(out);
    }

    fn release(&mut self) {
        let mut out = Vec::new();
        self.app.release_controller(&mut out);
        self.carry_out(out);
    }

    fn sync(&mut self) {
        let mut out = Vec::new();
        self.app.sync_session_privacy(&mut out);
        self.carry_out(out);
    }

    fn poll(&mut self) -> bool {
        let mut out = Vec::new();
        let paths = self.fake.clip_files.clone();
        if let Some(take) = self.app.take_clipboard_files(&paths) {
            let mut got = Vec::new();
            for p in &take {
                let name = p.rsplit('/').next().unwrap().to_string();
                if let Some(d) = self.files.get(&format!("host:{p}")).cloned() {
                    got.push(FileEntry::file(name.clone(), d.len() as u64));
                    self.files.insert(name, d);
                }
            }
            let list = list_at_json(&Ok(self.listing()));
            let any = self.app.push_clipboard_files(&got, list, &mut out);
            if any {
                self.carry_out(out);
                return true;
            }
        }
        let png = self.fake.clipboard_get_png();
        let text = self.fake.clipboard_get();
        let any = self.app.poll_clipboard(png.as_deref(), text.as_deref(), &mut out);
        self.carry_out(out);
        any
    }

    fn publish(&mut self, data: &'static [u8]) {
        if self.rec.write_unit(TYPE_FRAG, data.len()) {
            self.recorded.extend_from_slice(data);
        }
        self.hub.publish_unit(TYPE_FRAG, Bytes::from_static(data), 64, 64, self.now);
    }

    fn status(&self) -> Json {
        let v = Vitals {
            version: "0".to_string(),
            uptime_s: "1.5".to_string(),
            fps_actual: "0.0".to_string(),
            last_media_age_s: "null".to_string(),
            size: self.hub.size(),
            clients: self.hub.clients(),
            recording: self.rec.is_active(),
            ducking: self.duck.is_ducked(),
            awake: self.power.is_awake(),
            files: self.files.len(),
            sysname: "Linux".to_string(),
        };
        j(&self.app.status_json(&CaptureStatus::default(), &v, self.now))
    }

    fn control(&self, key: &str) -> bool {
        self.status().get("control").unwrap().truth_at(key).unwrap()
    }

    fn run(&mut self, task: &str, plans: &[Vec<Action>]) -> Vec<Action> {
        let text = self.app.task_text(task).unwrap();
        let mut run = TaskRun::new(&text, MAX_STEPS);
        loop {
            match run.next(false) {
                Todo::Plan { step } => {
                    let plan = match plans.get(step as usize) {
                        Some(p) => p.iter().map(|a| a.copy()).collect(),
                        None => vec![Action::Done],
                    };
                    run.plan(plan);
                }
                Todo::Inject { action, .. } => {
                    let mut out = Vec::new();
                    self.app.hook(&action, &mut out);
                    self.carry_out(out);
                }
                Todo::Pause { .. } => {}
                Todo::Finished => break,
            }
        }
        run.applied().iter().map(|a| a.copy()).collect()
    }
}

fn controlled() -> Config {
    let mut cfg = Config::default();
    cfg.control.enabled = true;
    cfg
}

fn is_q(e: &Injected) -> bool {
    match e {
        Injected::Key { key, .. } => key == "q",
        _ => false,
    }
}

#[test]
fn origin_does_not_push_encoder_hub_size_into_hid_mapping() {
    let mut h = host(controlled());
    h.hub.publish_init(Bytes::from_static(b"ftyp-init"), 1920, 1080, 0);
    h.say(r#"{"type":"control","session":"abc","action":"click","x":0.5,"y":0.25}"#);
    let forbidden_fn = format!("refresh_{}", "injector_size");
    let forbidden_call = format!("set_{}", "screen_size");
    assert!(
        !h.log.iter().any(|e| e.contains(&forbidden_fn)),
        "hub.size() must not overwrite CGDisplayBounds before inject"
    );
    assert!(
        !h.log.iter().any(|e| e.contains(&forbidden_call) || e.contains("1920")),
        "production inject path must not set encoder/hub size on the injector"
    );
    assert_eq!(*h.fake.recorded(), vec![Injected::click(r(0.5), r(0.25))]);
}

#[test]
fn websocket_delivers_typed_init_then_fragment() {
    let h = host(Config::default());
    let mut hub = Hub::new();
    hub.publish_init(Bytes::from_static(b"ftyp-init"), 1920, 1080, 0);
    hub.publish_unit(TYPE_FRAG, Bytes::from_static(b"moof-frag"), 0, 0, 0);
    let accept = upgrade_check(Some("WebSocket"), Some("dGhlIHNhbXBsZSBub25jZQ==")).unwrap();
    assert_eq!(accept, "s3pPLMBiTxaQ9kYGzzhZRbK+xOo=");
    let mut kinds = Vec::new();
    for frame in h.app.greet(&hub) {
        let (op, bin, n) = decode_frame(&frame);
        assert_eq!(op, Some(OP_BIN));
        assert_eq!(n, frame.len());
        let (k, rest) = unpack_media(&bin).expect("envelope");
        kinds.push(k);
        assert!(!rest.is_empty());
    }
    assert_eq!(kinds, vec![TYPE_INIT, TYPE_FRAG]);
}

fn sent(text: &str) -> Vec<u8> {
    encode_frame(text.as_bytes(), OP_TEXT, true)
}

/// Feeds frames to a connection, and its messages to the origin.
fn over_socket(h: &mut Host, w: &mut Watch, payloads: &[&str]) {
    for p in payloads {
        let (events, closed) = w.feed(&sent(p));
        assert!(!closed);
        for e in events {
            if let WatchEvent::Message(m) = e {
                h.hear(w, &m);
            }
        }
    }
}

#[test]
fn authorized_viewer_control_reaches_fake_injector() {
    let mut cfg = controlled();
    cfg.token = "s3cret".into();
    let mut h = host(cfg);
    let clock = FakeClock::new();
    let pin = h.app.otp.mint(clock.read()).pin;
    let sess = h.app.otp.redeem(&pin, clock.read().now).unwrap();
    assert!(h.app.viewer_ok("", &sess.token, clock.read().now));
    let mut w = Watch::new(sess.token.clone());
    over_socket(
        &mut h,
        &mut w,
        &[
            r#"{"type":"control","action":"click","x":0.5,"y":0.25}"#,
            r#"{"type":"control","action":"type","text":"hi"}"#,
        ],
    );
    assert_eq!(
        *h.fake.recorded(),
        vec![Injected::click(r(0.5), r(0.25)), Injected::Type { text: "hi".into() }]
    );
    assert_eq!(h.app.controller.as_deref(), Some(sess.token.as_str()));
}

#[test]
fn viewer_right_click_drag_paste_and_clipboard_sync() {
    let mut h = host(controlled());
    let mut w = Watch::new("abc".to_string());
    over_socket(
        &mut h,
        &mut w,
        &[
            r#"{"type":"control","action":"click","x":0.2,"y":0.3,"button":"right"}"#,
            r#"{"type":"control","action":"down","x":0.1,"y":0.1,"button":0}"#,
            r#"{"type":"control","action":"move","x":0.8,"y":0.8,"button":0}"#,
            r#"{"type":"control","action":"up","x":0.8,"y":0.8,"button":0}"#,
            r#"{"type":"control","action":"keydown","key":"c","modifiers":["Meta"]}"#,
            r#"{"type":"control","action":"paste","text":"from-viewer"}"#,
        ],
    );
    let rec = h.fake.recorded();
    assert!(
        rec.iter().any(|e| matches!(e, Injected::Click { button: MouseButton::Right, .. })),
        "right-click must inject, got {rec:?}"
    );
    assert!(rec.iter().any(|e| matches!(e, Injected::Down { .. })));
    assert!(rec.iter().any(|e| matches!(e, Injected::Move { .. })));
    assert!(rec.iter().any(|e| matches!(e, Injected::Up { .. })));
    assert!(rec.iter().any(|e| match e {
        Injected::Key { key, modifiers, .. } => key == "c" && modifiers.iter().any(|m| m == "Meta"),
        _ => false,
    }));
    assert!(rec.contains(&Injected::Paste { text: "from-viewer".into() }));
    assert_eq!(h.fake.clipboard_get().as_deref(), Some("from-viewer"));
    assert!(h.log.iter().any(|e| e == "PollClipboard"));
    assert!(
        h.told.iter().any(|t| t.contains("from-viewer") && t.contains("clipboard")),
        "origin must fan clipboard JSON back to the watcher"
    );
}

#[test]
fn viewer_file_put_lists_and_gets_over_websocket() {
    let mut h = host(controlled());
    let mut w = Watch::new("abc".to_string());
    let payload = encode_b64(b"inbox-bytes");
    let put = format!(r#"{{"type":"file","action":"put","name":"note.txt","data":"{payload}"}}"#);
    over_socket(&mut h, &mut w, &[&put]);
    assert!(
        h.told.iter().any(|t| t.contains("note.txt") && t.contains("\"ok\"")),
        "put must ack over the watch socket"
    );
    assert!(
        h.fake.clip_files.iter().any(|p| p.ends_with("note.txt")),
        "incoming file must land on the host pasteboard as a Finder file"
    );
    over_socket(
        &mut h,
        &mut w,
        &[
            r#"{"type":"file","action":"list"}"#,
            r#"{"type":"file","action":"get","name":"note.txt"}"#,
        ],
    );
    assert!(
        h.told.iter().any(|t| t.contains("note.txt") && t.contains("list")),
        "list must include the uploaded file"
    );
    assert!(
        h.told.iter().any(|t| t.contains("blob") && t.contains(&payload)),
        "get must return the file bytes"
    );
}

#[test]
fn viewer_chunked_file_put_over_websocket() {
    let mut h = host(controlled());
    let mut w = Watch::new("abc".to_string());
    let a = encode_b64(b"AAAA");
    let b = encode_b64(b"BBBB");
    over_socket(
        &mut h,
        &mut w,
        &[
            r#"{"type":"file","action":"begin","id":"xfer1","name":"part.bin","size":8}"#,
            &format!(r#"{{"type":"file","action":"chunk","id":"xfer1","data":"{a}"}}"#),
            &format!(r#"{{"type":"file","action":"chunk","id":"xfer1","data":"{b}"}}"#),
            r#"{"type":"file","action":"end","id":"xfer1"}"#,
        ],
    );
    assert!(
        h.told.iter().any(|t| t.contains("part.bin") && t.contains("\"ok\"")),
        "chunked put must ack"
    );
    assert_eq!(h.files["part.bin"], b"AAAABBBB");
}

#[test]
fn disabled_control_does_not_inject() {
    let mut h = host(Config::default());
    h.say(r#"{"type":"control","action":"click","x":0.5,"y":0.5}"#);
    h.say(r#"{"type":"file","action":"list"}"#);
    h.say(r#"{"type":"display","id":"9:"}"#);
    assert!(h.fake.recorded().is_empty());
    assert!(h.app.controller.is_none());
    assert!(h.told.is_empty());
    assert_eq!(h.saves, 0);
}

#[test]
fn viewer_display_switch_updates_injector_rect() {
    let mut h = host(controlled());
    h.say(r#"{"type":"display","id":"9:"}"#);
    assert_eq!(h.app.cfg.capture.input, "9:");
    assert_eq!(h.saves, 1);
    assert_eq!(h.recaptures, 1);
    h.say(r#"{"type":"display","input":" 9: "}"#);
    assert_eq!(h.recaptures, 1, "the same display is not captured anew");
    let d = Device {
        id: "9:".into(),
        name: "nine".into(),
        x: 5,
        y: 6,
        width: 70,
        height: 80,
        main: false,
    };
    let got = h.app.apply_display("9:", vec![d]).unwrap();
    assert_eq!((got.x, got.y, got.width, got.height), (5, 6, 70, 80));
    assert!(h.wired.iter().any(|m| m.contains("\"display\":\"9:\"")));
}

#[test]
fn poll_clipboard_fans_host_copy_when_control_on() {
    let mut h = host(Config::default());
    h.fake.clipboard_set("host-copied");
    assert!(!h.poll(), "kill switch off must not leak the pasteboard");
    h.app.cfg.control.enabled = true;
    assert!(h.poll(), "first host copy must fan out");
    let msg = h.told[0].clone();
    assert!(msg.contains("host-copied"), "{msg}");
    assert!(msg.contains("clipboard"), "{msg}");
    assert!(!h.poll(), "unchanged pasteboard must not resend");
    h.fake.clipboard_set("second-copy");
    assert!(h.poll());
    assert!(h.told[1].contains("second-copy"), "{}", h.told[1]);
}

#[test]
fn poll_clipboard_fans_host_png() {
    let mut h = host(controlled());
    h.fake.clipboard_set_png(TINY_PNG);
    assert!(h.poll());
    let msg = h.told[0].clone();
    assert!(msg.contains("image/png"), "{msg}");
    assert!(msg.contains(&encode_b64(TINY_PNG)), "{msg}");
    assert!(!h.poll(), "same png must not resend");
}

#[test]
fn poll_clipboard_fans_large_png_in_chunks() {
    let mut h = host(controlled());
    let mut png = TINY_PNG.to_vec();
    png.resize(MAX_CHUNK + 16, 0);
    h.fake.clipboard_set_png(&png);
    assert!(h.poll());
    let joined = h.told.join("\n");
    assert!(joined.contains("\"action\":\"begin\""), "{joined}");
    assert!(joined.contains("\"action\":\"chunk\""), "{joined}");
    assert!(joined.contains("\"action\":\"end\""), "{joined}");
    assert_eq!(png_replies(&png).len(), 4);
    assert_eq!(h.told, png_replies(&png));
}

fn phases(h: &mut Host, size: usize, data: &[u8]) {
    let b64 = encode_b64(data);
    h.say(&format!(
        r#"{{"type":"control","action":"clipboard","mime":"image/png","phase":"begin","size":{size}}}"#
    ));
    h.say(&format!(
        r#"{{"type":"control","action":"clipboard","mime":"image/png","phase":"chunk","data":"{b64}"}}"#
    ));
    h.say(r#"{"type":"control","action":"clipboard","mime":"image/png","phase":"end"}"#);
}

#[test]
fn ingest_chunked_clipboard_png_from_viewer() {
    let mut h = host(controlled());
    phases(&mut h, TINY_PNG.len(), TINY_PNG);
    assert_eq!(h.fake.clipboard_get_png().as_deref(), Some(TINY_PNG));
}

#[test]
fn ingest_rejects_clipboard_png_over_cap() {
    let mut h = host(controlled());
    phases(&mut h, CLIP_PNG_MAX + 1, TINY_PNG);
    assert!(
        h.fake.clipboard_get_png().is_none(),
        "oversize begin must drop the PNG instead of truncating it"
    );
    phases(&mut h, TINY_PNG.len() - 1, TINY_PNG);
    assert!(h.fake.clipboard_get_png().is_none());
}

#[test]
fn poll_clipboard_imports_host_finder_files() {
    let mut h = host(controlled());
    h.fake.clip_files = vec!["/tmp/from-finder.txt".to_string()];
    h.files.insert("host:/tmp/from-finder.txt".to_string(), b"finder-bytes".to_vec());
    assert!(h.poll(), "first Finder copy must land in inbox");
    assert_eq!(h.files["from-finder.txt"], b"finder-bytes");
    assert!(
        h.told.iter().any(|m| m.contains("from-finder.txt")
            && m.contains("\"ok\"")
            && m.contains("\"offer\":true")),
        "origin must fan a Finder-file offer to the watcher"
    );
    assert!(
        h.told.iter().any(|m| m.contains("\"list\"") && m.contains("from-finder.txt")),
        "origin must refresh the inbox list"
    );
    assert!(!h.poll(), "unchanged Finder selection must not resend");
}

#[test]
fn incoming_file_offer_does_not_echo_to_watcher() {
    let mut h = host(controlled());
    h.files.insert("pasted.txt".to_string(), b"hello".to_vec());
    let mut out = Vec::new();
    h.app.offer_incoming_file("/inbox/pasted.txt", &mut out);
    h.carry_out(out);
    assert!(h.fake.clip_files.iter().any(|p| p.ends_with("pasted.txt")));
    assert!(
        !h.poll(),
        "offering a Finder paste must not echo the same file back to the watcher"
    );
}

#[test]
fn host_releases_remote_controller() {
    let mut cfg = controlled();
    cfg.control.block_local = true;
    let mut h = host(cfg);
    assert!(!h.control("controller"));
    assert!(!h.fake.block_local);
    h.say(r#"{"type":"control","session":"abc","action":"click","x":0.1,"y":0.2}"#);
    assert!(h.control("controller"));
    assert!(h.control("blocking"));
    assert!(h.fake.block_local);
    h.fake.unlock = true;
    assert!(h.fake.take_local_unlock());
    h.release();
    assert!(!h.control("controller"));
    assert!(!h.fake.block_local);
    assert!(
        h.fake.recorded().iter().all(|e| !is_q(e)),
        "⌘⇧Esc reclaim must not lock the Mac"
    );
}

#[test]
fn ending_session_locks_when_configured() {
    let mut cfg = controlled();
    cfg.control.lock_on_end = true;
    let mut h = host(cfg);
    h.say(r#"{"type":"control","session":"abc","action":"click","x":0.1,"y":0.2}"#);
    assert!(h.control("controller"));
    h.end();
    assert!(!h.control("controller"));
    let rec = h.fake.recorded();
    assert!(
        rec.iter().any(|e| match e {
            Injected::Key { key, modifiers, .. } =>
                key == "q"
                    && modifiers.iter().any(|m| m == "Control")
                    && modifiers.iter().any(|m| m == "Meta"),
            _ => false,
        }),
        "End with lock-on-end must inject Control+Command+Q, got {rec:?}"
    );
    h.end();
    let n = h.fake.recorded().iter().filter(|e| is_q(e)).count();
    assert_eq!(n, 1, "a second End with no controller must not lock again");
}

#[test]
fn blanks_host_screen_while_remote_session_active() {
    let mut cfg = controlled();
    cfg.control.blank_screen = true;
    let mut h = host(cfg);
    assert!(!h.fake.blank_screen);
    assert!(!h.control("blanking"));
    h.say(r#"{"type":"control","session":"abc","action":"click","x":0.1,"y":0.2}"#);
    assert!(h.control("controller"));
    assert!(h.control("blanking"));
    assert!(h.fake.blank_screen);
    h.end();
    assert!(!h.control("blanking"));
    assert!(!h.fake.blank_screen);

    h.say(r#"{"type":"control","session":"abc","action":"click","x":0.1,"y":0.2}"#);
    assert!(h.fake.blank_screen);
    h.app.cfg.control.blank_screen = false;
    h.sync();
    assert!(!h.fake.blank_screen, "turning the setting off mid-session must unblank");
    assert!(h.control("controller"));
    h.fake.unlock = true;
    assert!(h.fake.take_local_unlock());
    h.release();
    assert!(!h.fake.blank_screen);
}

#[test]
fn keeps_host_awake_during_session_and_when_configured() {
    let mut h = host(controlled());
    assert!(!h.power.is_awake());
    assert!(!h.control("keeping_awake"));
    h.say(r#"{"type":"control","session":"abc","action":"click","x":0.1,"y":0.2}"#);
    assert!(h.power.is_awake(), "a live remote session must prevent idle sleep");
    assert!(h.control("keeping_awake"));
    h.end();
    assert!(
        !h.power.is_awake(),
        "ending the session without keep_awake must release the assertion"
    );
    h.app.cfg.control.keep_awake = true;
    h.sync();
    assert!(h.power.is_awake(), "keep_awake + remote control must hold while idle");
    assert!(h.control("keep_awake"));
    h.power.wake = true;
    assert!(h.power.take_wake());
    assert!(!h.power.take_wake());
}

#[test]
fn records_live_fmp4_during_remote_session() {
    let mut cfg = controlled();
    cfg.control.record_sessions = true;
    let mut h = host(cfg);
    h.hub.publish_init(Bytes::from_static(b"ftyp-init"), 64, 64, 0);
    assert!(!h.control("recording"));
    h.say(r#"{"type":"control","session":"rec","action":"click","x":0.1,"y":0.2}"#);
    assert!(h.control("recording"));
    h.publish(b"mdat-frag");
    h.end();
    assert!(!h.control("recording"));
    h.publish(b"too-late!");
    assert_eq!(h.recordings, 1, "one session file");
    assert!(
        h.recorded.starts_with(b"ftyp-init"),
        "recording must start with the fMP4 init, got {} bytes",
        h.recorded.len()
    );
    assert!(
        h.recorded.windows(9).any(|w| w == b"mdat-frag"),
        "recording must append live fragments, got {:?}",
        h.recorded
    );
    assert!(!h.recorded.windows(9).any(|w| w == b"too-late!"));
}

#[test]
fn watcher_quality_preset_retunes_encode() {
    let mut h = host(Config::default());
    let preset = |h: &Host| {
        h.status().get("stream").unwrap().text_at("preset").unwrap().to_string()
    };
    assert_eq!(preset(&h), "quality");
    h.say(r#"{"type":"quality","preset":"speed"}"#);
    assert_eq!(h.app.cfg.encoder.bitrate_kbps, 4000);
    assert_eq!(f64::from_bits(h.app.cfg.capture.scale.bits), 0.5);
    assert_eq!(preset(&h), "speed");
    h.say(r#"{"type":"quality","preset":"balanced"}"#);
    assert_eq!(h.app.cfg.encoder.bitrate_kbps, 8000);
    assert_eq!(f64::from_bits(h.app.cfg.capture.scale.bits), 1.0);
    h.say(r#"{"type":"quality","preset":"nope"}"#);
    assert_eq!(h.app.cfg.encoder.bitrate_kbps, 8000);
    assert_eq!(h.recaptures, 2);
}

#[test]
fn watcher_voice_plays_when_enabled_and_ignores_when_off() {
    let mut h = host(Config::default());
    let pcm = vec![1u8, 2, 3, 4];
    let msg = format!(r#"{{"type":"voice","pcm":"{}","rate":16000}}"#, encode_b64(&pcm));
    h.say(&msg);
    assert!(h.voice.recorded().is_empty(), "voice off must not play");
    h.app.cfg.control.voice = true;
    h.say(&msg);
    let rec = h.voice.recorded();
    assert_eq!(rec.len(), 1);
    assert_eq!(rec[0].0, 16000);
    assert_eq!(rec[0].1, pcm);
    h.say(r#"{"type":"voice","pcm":"@@@","rate":16000}"#);
    assert_eq!(h.voice.recorded().len(), 1, "bad pcm must not play");
    assert!(!h.duck.is_ducked(), "capture audio off must not duck the host mic");
    h.app.cfg.capture.audio = true;
    h.say(&msg);
    assert!(h.duck.is_ducked(), "Talk + Capture audio must mute the host mic");
    assert!(h.control("ducking_mic"));
    let mut out = Vec::new();
    h.app.maybe_unduck_mic(h.now + SECOND / 2, &mut out);
    assert!(out.is_empty());
    h.app.maybe_unduck_mic(h.now + 2 * SECOND, &mut out);
    h.carry_out(out);
    assert!(!h.duck.is_ducked(), "mic must unmute after Talk goes idle");
}

#[test]
fn session_chat_fans_and_ignores_empty() {
    let mut h = host(Config::default());
    h.say(r#"{"type":"chat","text":"  hello host  "}"#);
    let msg = h.told[0].clone();
    assert!(msg.contains("hello host"), "{msg}");
    assert!(msg.contains("\"from\":\"host\""), "{msg}");
    h.say(r#"{"type":"chat","text":"hi","from":"viewer","session":"abc"}"#);
    let msg2 = h.told[1].clone();
    assert!(msg2.contains("\"from\":\"viewer\""), "{msg2}");
    assert!(msg2.contains("hi"), "{msg2}");
    h.say(r#"{"type":"chat","text":"   "}"#);
    h.say(r#"{"type":"chat"}"#);
    assert_eq!(h.app.chat_log.len(), 2, "empty chat must not land in history");
    assert_eq!(h.wired.len(), 1, "a message that names its sender was handed on before");
    assert!(h.fake.recorded().is_empty());
}

#[test]
fn ai_display_action_switches_capture() {
    let mut cfg = Config::default();
    cfg.control.ai_enabled = true;
    let mut h = host(cfg);
    let plans = vec![vec![Action::Display { id: "9:".into() }, Action::Done]];
    let applied = h.run("look at the other monitor", &plans);
    assert!(applied.contains(&Action::Display { id: "9:".into() }), "{applied:?}");
    assert_eq!(h.app.cfg.capture.input, "9:");
    assert!(h.fake.recorded().contains(&Injected::Display { id: "9:".into() }));
}

#[test]
fn ai_file_action_lands_in_inbox() {
    let mut cfg = Config::default();
    cfg.control.ai_enabled = true;
    let mut h = host(cfg);
    let file = Action::File { name: "from-ai.txt".into(), data: b"dropped".to_vec() };
    let plans = vec![vec![file.copy(), Action::Done]];
    let applied = h.run("save a note", &plans);
    assert!(applied.contains(&file), "{applied:?}");
    assert_eq!(h.files["from-ai.txt"], b"dropped");
    assert!(
        h.fake.clip_files.iter().any(|p| p.ends_with("from-ai.txt")),
        "AI file drop must be a Finder paste on the host pasteboard"
    );
}

#[test]
fn computer_use_file_panel_ops_hit_real_handlers() {
    let mut cfg = Config::default();
    cfg.control.ai_enabled = true;
    let mut h = host(cfg);
    let op = |op: &str, name: &str, to: &str| Action::FileManage {
        op: op.into(),
        name: name.into(),
        names: vec![name.into()],
        root: "inbox".into(),
        path: String::new(),
        to: to.into(),
        to_root: String::new(),
        to_path: String::new(),
    };
    let plans = vec![
        vec![op("mkdir", "FromHttp", "")],
        vec![op("rename", "FromHttp", "RenamedHttp"), op("paint", "FromHttp", ""), Action::Done],
    ];
    let applied = h.run("make a folder", &plans);
    assert_eq!(applied.len(), 4);
    assert!(h.fake.recorded().is_empty());
    let mut dirs: Vec<String> = Vec::new();
    for m in &h.managed {
        match m {
            PanelOp::Mkdir { root, path, name } => {
                assert_eq!((root.as_str(), path.as_str()), ("inbox", ""));
                dirs.push(name.clone());
            }
            PanelOp::Rename { name, to, .. } => {
                let to = rename_check(to, dirs.contains(name), dirs.contains(to)).unwrap();
                dirs.retain(|d| d != name);
                dirs.push(to);
            }
            other => panic!("{other:?}"),
        }
    }
    assert_eq!(h.managed.len(), 2);
    assert_eq!(dirs, vec!["RenamedHttp".to_string()]);
}

#[test]
fn computer_use_grabs_snap_jpeg_not_fragment() {
    let mut h = host(Config::default());
    h.hub.publish_unit(TYPE_FRAG, Bytes::from_static(b"moof-not-a-jpeg"), 1920, 1080, 0);
    h.hub.publish_unit(TYPE_SNAP, Bytes::from_static(b"\xff\xd8SNAP"), 0, 0, 0);
    h.app.cfg.control.ai_enabled = true;
    let mut frames = Vec::new();
    let mut run = TaskRun::new(&h.app.task_text("do it").unwrap(), MAX_STEPS);
    loop {
        match run.next(false) {
            Todo::Plan { .. } => {
                match grab_jpeg(&h.hub) {
                    Snapshot::Ready(f) => frames.push(f),
                    other => panic!("{other:?}"),
                }
                run.plan(vec![Action::Done]);
            }
            Todo::Finished => break,
            other => panic!("{other:?}"),
        }
    }
    assert_eq!(*run.applied(), vec![Action::Done]);
    assert!(!frames.is_empty());
    assert_eq!(frames[0], b"\xff\xd8SNAP");
}

#[test]
fn host_cancel_stops_running_ai_loop() {
    let mut cfg = controlled();
    cfg.control.ai_enabled = true;
    let mut h = host(cfg);
    h.say(r#"{"type":"control","session":"abc","action":"move","x":0.1,"y":0.2}"#);
    let mut run = TaskRun::new(&h.app.task_text("slow").unwrap(), MAX_STEPS);
    assert!(matches!(run.next(false), Todo::Plan { step: 0 }));
    run.plan(vec![Action::Wait { ms: 4000 }, Action::click(r(0.1), r(0.1))]);
    assert!(matches!(run.next(false), Todo::Pause { ms: 4000 }));
    let mut out = Vec::new();
    h.app.cancel_computer_use(&mut out);
    let cancelled = out.iter().any(|e| matches!(e, Effect::CancelTask));
    h.carry_out(out);
    assert!(cancelled);
    assert!(h.app.controller.is_none());
    assert!(matches!(run.next(cancelled), Todo::Finished));
    assert!(
        !run.applied().iter().any(|a| matches!(a, Action::Click { .. })),
        "cancel must stop before click"
    );
}

#[test]
fn a_task_runs_only_with_permission() {
    let mut h = host(Config::default());
    h.say(r#"{"type":"computer-use","task":"open notes"}"#);
    assert!(h.tasks.is_empty());
    assert!(h.app.task_text("x").is_none());
    h.app.cfg.control.ai_enabled = true;
    h.say(r#"{"type":"computer-use","task":"open notes"}"#);
    assert_eq!(h.tasks, vec!["open notes".to_string()]);
    let text = h.app.task_text("open notes").unwrap();
    assert!(text.starts_with("open notes\n[displays]=[{\"id\":"), "{text}");
    let mut inj = FakeInjector::new();
    for a in StubClickTypeModel::default().plan(&text, 0, b"") {
        inj.apply(&a);
    }
    assert_eq!(inj.recorded().len(), 1);
}

#[test]
fn one_session_drives_at_a_time() {
    let mut h = host(controlled());
    h.say(r#"{"type":"control","session":"a","action":"type","text":"1"}"#);
    h.say(r#"{"type":"control","session":"b","action":"type","text":"2"}"#);
    assert_eq!(*h.fake.recorded(), vec![Injected::Type { text: "1".into() }]);
    let mut out = Vec::new();
    h.app.release_if_controller("b", &mut out);
    assert!(out.is_empty());
    h.app.release_if_controller("a", &mut out);
    h.carry_out(out);
    assert!(h.app.controller.is_none());
    h.say(r#"{"type":"control","session":"b","action":"type","text":"3"}"#);
    assert_eq!(h.app.controller.as_deref(), Some("b"));
    h.say(r#"{"type":"revoke"}"#);
    assert!(h.app.controller.is_none());
    h.say(r#"{"type":"control","action":"type","text":"4"}"#);
    assert_eq!(h.app.controller.as_deref(), Some("anon"));
}

#[test]
fn the_kill_switch_works_at_once() {
    let mut h = host(controlled());
    h.say(r#"{"type":"control","session":"a","action":"type","text":"1"}"#);
    assert_eq!(h.fake.recorded().len(), 1);
    let cfg = h.app.config_change(br#"{"control":{"enabled":false}}"#).unwrap();
    let mut out = Vec::new();
    h.app.apply_config(cfg, &mut out);
    h.carry_out(out);
    assert_eq!(h.app.controller.as_deref(), Some("a"));
    let before = h.log.len();
    h.say(r#"{"type":"control","session":"a","action":"type","text":"2"}"#);
    h.say(r#"{"type":"file","action":"list"}"#);
    h.say(r#"{"type":"display","id":"desktop"}"#);
    assert_eq!(h.log.len(), before);
    assert_eq!(h.fake.recorded().len(), 1);
}

#[test]
fn a_frame_is_heard_as_it_was_sent() {
    let mut w = Watch::new("s1".to_string());
    let mut wire = encode_frame(br#"{"type":"chat","text":"hi"}"#, OP_TEXT, true);
    wire.extend(encode_frame(b"ping", OP_PING, true));
    wire.extend(encode_frame(b"", OP_CLOSE, true));
    let (heard, closed) = w.feed(&wire);
    assert!(closed);
    assert_eq!(heard.len(), 2);
    match &heard[0] {
        WatchEvent::Message(b) => {
            assert_eq!(b.as_slice(), br#"{"type":"chat","text":"hi"}"#);
        }
        other => panic!("{other:?}"),
    }
    match &heard[1] {
        WatchEvent::Reply(b) => {
            assert_eq!(decode_frame(b), (Some(OP_PONG), b"ping".to_vec(), 6));
        }
        other => panic!("{other:?}"),
    }
}

#[test]
fn pins_and_flags_are_announced() {
    let mut h = host(Config::default());
    let mut out = Vec::new();
    let at = Reading { now: SECOND, unix_ms: 5_000 };
    h.app.start_background(at, &mut out);
    h.carry_out(out);
    assert!(h.wired[0].contains("\"type\":\"otp\""), "{}", h.wired[0]);
    assert!(h.wired[0].contains("\"exp\":305000"));
    assert!(h.wired[1].contains("\"type\":\"flags\""));
    assert!(h.wired[1].contains("\"preset\":\"quality\""));
    assert!(h.wired[1].contains("\"scale\":1.0"));
    let mut out = Vec::new();
    h.app.tick_pin(Reading { now: 2 * SECOND, unix_ms: 6_000 }, &mut out);
    assert!(out.is_empty(), "a live PIN is kept");
    h.app.tick_pin(Reading { now: PIN_TTL + 2 * SECOND, unix_ms: 400_000 }, &mut out);
    assert_eq!(out.len(), 1);
}

#[test]
fn a_wake_restarts_a_stale_stream() {
    let mut h = host(controlled());
    let mut out = Vec::new();
    h.app.handle_system_wake(Some(SECOND), &mut out);
    assert!(out.is_empty());
    h.app.handle_system_wake(None, &mut out);
    assert_eq!(out.len(), 3);
    h.say(r#"{"type":"control","session":"a","action":"type","text":"1"}"#);
    let mut out = Vec::new();
    h.app.tick(true, false, Some(0), h.now, &mut out);
    h.carry_out(out);
    assert!(h.app.controller.is_none());
    assert!(h.fake.recorded().iter().all(|e| !is_q(e)));
}

#[test]
fn a_connection_is_read_however_it_is_cut() {
    let mut bytes = sent(r#"{"type":"chat","text":"hi"}"#);
    bytes.extend_from_slice(&encode_frame(b"yo", OP_PING, true));
    bytes.extend_from_slice(&sent("not json"));
    bytes.extend_from_slice(&encode_frame(b"", OP_CLOSE, true));
    for cut in 0..bytes.len() {
        let mut w = Watch::new("s1".to_string());
        let (mut events, closed) = w.feed(&bytes[..cut]);
        assert!(!closed);
        let (rest, closed) = w.feed(&bytes[cut..]);
        events.extend(rest);
        assert!(closed);
        assert_eq!(events.len(), 3, "cut at {cut}");
        match &events[0] {
            WatchEvent::Message(b) => {
                assert_eq!(b.as_slice(), br#"{"type":"chat","text":"hi"}"#)
            }
            other => panic!("{other:?}"),
        }
        match &events[1] {
            WatchEvent::Reply(b) => assert_eq!(*b, encode_frame(b"yo", OP_PONG, false)),
            other => panic!("{other:?}"),
        }
        match &events[2] {
            WatchEvent::Message(b) => assert_eq!(b.as_slice(), b"not json"),
            other => panic!("{other:?}"),
        }
    }
}

#[test]
fn a_message_counts_for_the_session_of_its_connection() {
    let click = r#"{"type":"control","action":"click","x":0.5,"y":0.25}"#;
    let mut h = host(controlled());
    let mut w = Watch::new("s1".to_string());
    over_socket(&mut h, &mut w, &["not json", "[1]", "{"]);
    assert!(h.app.controller.is_none());
    h.hear(&w, &[0xff, 0xfe]);
    assert!(h.app.controller.is_none());
    over_socket(&mut h, &mut w, &[click]);
    assert_eq!(h.app.controller.as_deref(), Some("s1"));
    let mut other = Watch::new("s2".to_string());
    over_socket(&mut h, &mut other, &[click]);
    assert_eq!(h.fake.recorded().len(), 1, "one controller at a time");
    let mut h = host(controlled());
    let named = r#"{"type":"control","session":"s9","action":"click","x":0.5,"y":0.25}"#;
    over_socket(&mut h, &mut w, &[named]);
    assert_eq!(h.app.controller.as_deref(), Some("s9"));
}

#[test]
fn a_restart_of_publishing_forgets_the_wait() {
    let mut cfg = controlled();
    cfg.cloudflare.publish_url = "wss://example.com/publish".into();
    let mut h = host(cfg);
    let tire = |h: &mut Host| {
        for _ in 0..5 {
            h.app.publisher.session_ended(true);
        }
    };
    tire(&mut h);
    assert_eq!(h.app.publisher.session_ended(true), 30 * SECOND);
    let mut out = Vec::new();
    h.app.handle_system_wake(Some(SECOND), &mut out);
    assert_eq!(h.app.publisher.session_ended(true), 30 * SECOND, "no restart, no reset");
    h.app.handle_system_wake(None, &mut out);
    assert_eq!(h.app.publisher.session_ended(true), SECOND);
    assert_eq!(h.app.publisher.session_ended(true), 2 * SECOND);
    tire(&mut h);
    let mut same = h.app.cfg.copy();
    same.capture.fps = 12;
    h.app.apply_config(same, &mut out);
    assert_eq!(h.app.publisher.session_ended(true), 30 * SECOND);
    let mut moved = h.app.cfg.copy();
    moved.cloudflare.publish_url = "wss://example.org/publish".into();
    h.app.apply_config(moved, &mut out);
    assert_eq!(h.app.publisher.session_ended(true), SECOND);
}

#[test]
fn snapshots_are_not_for_watchers() {
    let mut hub = Hub::new();
    hub.publish_unit(TYPE_JPEG, Bytes::from_static(b"\xff\xd8"), 1, 1, 0);
    let m = hub.latest().unwrap();
    assert!(media_frame(&m).is_some());
    hub.publish_unit(TYPE_SNAP, Bytes::from_static(b"\xff\xd8"), 1, 1, 0);
    assert!(media_frame(&hub.last_snap().unwrap()).is_none());
    assert!(mp4_part(&m).is_none());
    assert_eq!(mjpeg_unit(&m).unwrap(), mjpeg_part(b"\xff\xd8"));
    assert_eq!(mjpeg_opening(&hub).unwrap(), mjpeg_part(b"\xff\xd8"));
    assert_eq!(
        mjpeg_part(b"ab"),
        b"--frame\r\nContent-Type: image/jpeg\r\nContent-Length: 2\r\n\r\nab\r\n"
    );
    assert_eq!(text_frame("hi"), encode_frame(b"hi", OP_TEXT, false));
}

#[test]
fn a_new_watcher_is_sent_the_chat() {
    let mut h = host(Config::default());
    h.say(r#"{"type":"chat","text":"hello"}"#);
    let frames = h.app.greet(&h.hub);
    assert_eq!(frames.len(), 1);
    let (op, data, _) = decode_frame(&frames[0]);
    assert_eq!(op, Some(OP_TEXT));
    let text = String::from_utf8(data).unwrap();
    assert!(text.contains("chat-history") && text.contains("hello"), "{text}");
}

#[test]
fn streams_follow_the_encoder() {
    assert!(mp4_check("ffmpeg").is_ok());
    assert_eq!(mp4_check("mjpeg").unwrap_err().status, 409);
    assert!(mjpeg_check("mjpeg").is_ok());
    assert_eq!(mjpeg_check("hevc").unwrap_err().status, 409);
    assert_eq!(upgrade_check(None, Some("k")).unwrap_err().status, 426);
    assert_eq!(upgrade_check(Some("websocket"), None).unwrap_err().status, 400);
}
