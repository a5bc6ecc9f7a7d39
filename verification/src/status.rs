//! What the host's pages are told about the origin.

use crate::access::Refusal;
use crate::capture::{CaptureStatus, StatusFacts};
use crate::config::{preset_of, quality_preset, ConfigFacts};
use crate::encoder::{capture_wants_audio, wants_audio};
use crate::inbound::{displays_json, screen_texts};
use crate::input::Screen;
use crate::json::{
    array_text, object, object_shows, object_text, pairs, quote, quoted, shown, tells, truth,
    truth_text,
};
use crate::server::{App, AppState};
use crate::text::{byte_len, decimal, decimal_text, has_part, part_of_part};
use vstd::prelude::*;

verus! {

/// What the machine and the other parts say of themselves. Numbers that are
/// not whole come as their JSON text.
pub struct Vitals {
    pub version: String,
    pub uptime_s: String,
    pub fps_actual: String,
    pub last_media_age_s: String,
    /// The size of the latest unit.
    pub size: (u32, u32),
    pub clients: usize,
    pub recording: bool,
    pub ducking: bool,
    pub awake: bool,
    /// How many files the inbox holds.
    pub files: usize,
    pub sysname: String,
}

#[verifier::ext_equal]
pub ghost struct VitalFacts {
    pub version: Seq<char>,
    pub uptime_s: Seq<char>,
    pub fps_actual: Seq<char>,
    pub last_media_age_s: Seq<char>,
    pub size: (u32, u32),
    pub clients: nat,
    pub recording: bool,
    pub ducking: bool,
    pub awake: bool,
    pub files: nat,
    pub sysname: Seq<char>,
}

impl View for Vitals {
    type V = VitalFacts;

    open spec fn view(&self) -> VitalFacts {
        VitalFacts {
            version: self.version@,
            uptime_s: self.uptime_s@,
            fps_actual: self.fps_actual@,
            last_media_age_s: self.last_media_age_s@,
            size: self.size,
            clients: self.clients as nat,
            recording: self.recording,
            ducking: self.ducking,
            awake: self.awake,
            files: self.files as nat,
            sysname: self.sysname@,
        }
    }
}

/// Who may join, without the secret itself.
pub open spec fn access_part(c: ConfigFacts) -> Seq<(Seq<char>, Seq<char>)> {
    seq![
        ("password_set"@, truth_text(byte_len(c.access.password_hash) == 64)),
        ("unattended"@, truth_text(c.access.unattended)),
    ]
}

/// The first size that is known.
pub open spec fn known(a: u32, b: u32) -> u32 {
    if a > 0 {
        a
    } else {
        b
    }
}

pub open spec fn capture_part(c: ConfigFacts, cap: StatusFacts, shown: Seq<Screen>, v: VitalFacts) -> Seq<
    (Seq<char>, Seq<char>),
> {
    seq![
        ("audio"@, truth_text(wants_audio(c, v.sysname))),
        ("displays"@, array_text(screen_texts(shown))),
        ("error"@, quoted(cap.error)),
        ("fps_actual"@, v.fps_actual),
        ("fps_target"@, decimal(c.capture.fps as nat)),
        ("height"@, decimal(known(cap.height, v.size.1) as nat)),
        (
            "input"@,
            quoted(
                if cap.input.len() == 0 {
                    c.capture.input
                } else {
                    cap.input
                },
            ),
        ),
        ("last_media_age_s"@, v.last_media_age_s),
        ("running"@, truth_text(cap.running)),
        ("width"@, decimal(known(cap.width, v.size.0) as nat)),
    ]
}

pub open spec fn control_part(c: ConfigFacts, driving: bool, v: VitalFacts) -> Seq<
    (Seq<char>, Seq<char>),
> {
    seq![
        ("ai_enabled"@, truth_text(c.control.ai_enabled)),
        ("blank_screen"@, truth_text(c.control.blank_screen)),
        ("blanking"@, truth_text(c.control.blank_screen && driving)),
        ("block_local"@, truth_text(c.control.block_local)),
        ("blocking"@, truth_text(c.control.block_local && driving)),
        ("controller"@, truth_text(driving)),
        ("ducking_mic"@, truth_text(v.ducking)),
        ("enabled"@, truth_text(c.control.enabled)),
        ("files"@, decimal(v.files)),
        ("keep_awake"@, truth_text(c.control.keep_awake)),
        ("keeping_awake"@, truth_text(v.awake)),
        ("lock_on_end"@, truth_text(c.control.lock_on_end)),
        ("record_sessions"@, truth_text(c.control.record_sessions)),
        ("recording"@, truth_text(v.recording)),
        ("voice"@, truth_text(c.control.voice)),
    ]
}

pub open spec fn llm_part(c: ConfigFacts) -> Seq<(Seq<char>, Seq<char>)> {
    seq![
        ("active"@, truth_text(false)),
        ("enabled"@, truth_text(c.llm.enabled)),
        ("interval_sec"@, decimal(c.llm.interval_sec as nat)),
        ("last_error"@, quoted(""@)),
        ("last_run_at"@, quoted(""@)),
        ("model"@, quoted(c.llm.model)),
    ]
}

/// The quality monitor is not part of the origin; this is what it says.
pub open spec fn quality_part() -> Seq<(Seq<char>, Seq<char>)> {
    seq![
        ("error"@, quoted(""@)),
        ("last_check_at"@, quoted(""@)),
        ("ocr_confidence"@, "null"@),
        ("ocr_words"@, decimal(0)),
        ("ok"@, truth_text(false)),
        ("readability"@, decimal(0)),
        ("score"@, decimal(0)),
        ("sharpness"@, decimal(0)),
    ]
}

pub open spec fn stream_part(c: ConfigFacts, v: VitalFacts) -> Seq<(Seq<char>, Seq<char>)> {
    seq![
        ("bitrate_kbps"@, decimal(c.encoder.bitrate_kbps as nat)),
        ("clients"@, decimal(v.clients)),
        ("gop_frames"@, decimal(c.encoder.gop_frames as nat)),
        ("jpeg_quality"@, decimal(c.capture.jpeg_quality as nat)),
        ("mode"@, quoted(c.encoder.mode)),
        ("preset"@, quoted(preset_of(c))),
        ("scale"@, c.capture.scale.text),
        ("transport"@, quoted("websocket"@)),
    ]
}

impl AppState {
    pub open spec fn status_text(self, cap: StatusFacts, v: VitalFacts, now: u64) -> Seq<char> {
        object_text(
            seq![
                ("access"@, object_text(access_part(self.cfg))),
                ("capture"@, object_text(capture_part(self.cfg, cap, self.displays, v))),
                ("control"@, object_text(control_part(self.cfg, self.controller is Some, v))),
                ("llm"@, object_text(llm_part(self.cfg))),
                (
                    "otp"@,
                    object_text(
                        seq![("has_pin"@, truth_text(self.otp.live_pin(now as int) is Some))],
                    ),
                ),
                ("quality"@, object_text(quality_part())),
                ("stream"@, object_text(stream_part(self.cfg, v))),
                ("uptime_s"@, v.uptime_s),
                ("version"@, quoted(v.version)),
            ],
        )
    }
}

fn quality_object() -> (s: String)
    ensures
        s@ == object_text(quality_part()),
{
    let v: Vec<(&str, String)> = vec![
        ("error", quote("")),
        ("last_check_at", quote("")),
        ("ocr_confidence", "null".to_owned()),
        ("ocr_words", decimal_text(0)),
        ("ok", truth(false)),
        ("readability", decimal_text(0)),
        ("score", decimal_text(0)),
        ("sharpness", decimal_text(0)),
    ];
    assert(pairs(v@) =~= quality_part());
    object(&v)
}

impl App {
    fn access_object(&self) -> (s: String)
        ensures
            s@ == object_text(access_part(self@.cfg)),
    {
        let set = self.cfg.access.password_hash.as_str().as_bytes().len() == 64;
        let v: Vec<(&str, String)> = vec![
            ("password_set", truth(set)),
            ("unattended", truth(self.cfg.access.unattended)),
        ];
        assert(pairs(v@) =~= access_part(self@.cfg));
        object(&v)
    }

    fn capture_object(&self, cap: &CaptureStatus, a: &Vitals) -> (s: String)
        ensures
            s@ == object_text(capture_part(self@.cfg, cap@, self@.displays, a@)),
    {
        let width: u32 = if cap.width > 0 {
            cap.width
        } else {
            a.size.0
        };
        let height: u32 = if cap.height > 0 {
            cap.height
        } else {
            a.size.1
        };
        let input = if cap.input.as_str().is_empty() {
            self.cfg.capture.input.as_str()
        } else {
            cap.input.as_str()
        };
        let v: Vec<(&str, String)> = vec![
            ("audio", truth(capture_wants_audio(&self.cfg, a.sysname.as_str()))),
            ("displays", displays_json(&self.displays)),
            ("error", quote(cap.error.as_str())),
            ("fps_actual", a.fps_actual.clone()),
            ("fps_target", decimal_text(self.cfg.capture.fps as u64)),
            ("height", decimal_text(height as u64)),
            ("input", quote(input)),
            ("last_media_age_s", a.last_media_age_s.clone()),
            ("running", truth(cap.running)),
            ("width", decimal_text(width as u64)),
        ];
        assert(pairs(v@) =~= capture_part(self@.cfg, cap@, self@.displays, a@));
        object(&v)
    }

    fn control_object(&self, a: &Vitals) -> (s: String)
        ensures
            s@ == object_text(control_part(self@.cfg, self@.controller is Some, a@)),
    {
        let c = self.cfg.control;
        let driving = self.controller.is_some();
        let v: Vec<(&str, String)> = vec![
            ("ai_enabled", truth(c.ai_enabled)),
            ("blank_screen", truth(c.blank_screen)),
            ("blanking", truth(c.blank_screen && driving)),
            ("block_local", truth(c.block_local)),
            ("blocking", truth(c.block_local && driving)),
            ("controller", truth(driving)),
            ("ducking_mic", truth(a.ducking)),
            ("enabled", truth(c.enabled)),
            ("files", decimal_text(a.files as u64)),
            ("keep_awake", truth(c.keep_awake)),
            ("keeping_awake", truth(a.awake)),
            ("lock_on_end", truth(c.lock_on_end)),
            ("record_sessions", truth(c.record_sessions)),
            ("recording", truth(a.recording)),
            ("voice", truth(c.voice)),
        ];
        assert(pairs(v@) =~= control_part(self@.cfg, self@.controller is Some, a@));
        object(&v)
    }

    fn llm_object(&self) -> (s: String)
        ensures
            s@ == object_text(llm_part(self@.cfg)),
    {
        let v: Vec<(&str, String)> = vec![
            ("active", truth(false)),
            ("enabled", truth(self.cfg.llm.enabled)),
            ("interval_sec", decimal_text(self.cfg.llm.interval_sec as u64)),
            ("last_error", quote("")),
            ("last_run_at", quote("")),
            ("model", quote(self.cfg.llm.model.as_str())),
        ];
        assert(pairs(v@) =~= llm_part(self@.cfg));
        object(&v)
    }

    fn otp_object(&self, now: u64) -> (s: String)
        ensures
            s@ == object_text(
                seq![("has_pin"@, truth_text(self@.otp.live_pin(now as int) is Some))],
            ),
    {
        let has = self.otp.current_pin(now).is_some();
        let v: Vec<(&str, String)> = vec![("has_pin", truth(has))];
        assert(pairs(v@) =~= seq![("has_pin"@, truth_text(has))]);
        object(&v)
    }

    fn stream_object(&self, a: &Vitals) -> (s: String)
        ensures
            s@ == object_text(stream_part(self@.cfg, a@)),
    {
        let v: Vec<(&str, String)> = vec![
            ("bitrate_kbps", decimal_text(self.cfg.encoder.bitrate_kbps as u64)),
            ("clients", decimal_text(a.clients as u64)),
            ("gop_frames", decimal_text(self.cfg.encoder.gop_frames as u64)),
            ("jpeg_quality", decimal_text(self.cfg.capture.jpeg_quality as u64)),
            ("mode", quote(self.cfg.encoder.mode.as_str())),
            ("preset", quote(quality_preset(&self.cfg))),
            ("scale", self.cfg.capture.scale.text.clone()),
            ("transport", quote("websocket")),
        ];
        assert(pairs(v@) =~= stream_part(self@.cfg, a@));
        object(&v)
    }

    /// The status, as JSON.
    pub fn status_json(&self, cap: &CaptureStatus, a: &Vitals, now: u64) -> (s: String)
        ensures
            s@ == self@.status_text(cap@, a@, now),
    {
        let access = self.access_object();
        let capture = self.capture_object(cap, a);
        let control = self.control_object(a);
        let llm = self.llm_object();
        let otp = self.otp_object(now);
        let quality = quality_object();
        let stream = self.stream_object(a);
        let v: Vec<(&str, String)> = vec![
            ("access", access),
            ("capture", capture),
            ("control", control),
            ("llm", llm),
            ("otp", otp),
            ("quality", quality),
            ("stream", stream),
            ("uptime_s", a.uptime_s.clone()),
            ("version", quote(a.version.as_str())),
        ];
        assert(pairs(v@) =~= seq![
            ("access"@, object_text(access_part(self@.cfg))),
            ("capture"@, object_text(capture_part(self@.cfg, cap@, self@.displays, a@))),
            ("control"@, object_text(control_part(self@.cfg, self@.controller is Some, a@))),
            ("llm"@, object_text(llm_part(self@.cfg))),
            (
                "otp"@,
                object_text(
                    seq![("has_pin"@, truth_text(self@.otp.live_pin(now as int) is Some))],
                ),
            ),
            ("quality"@, object_text(quality_part())),
            ("stream"@, object_text(stream_part(self@.cfg, a@))),
            ("uptime_s"@, a@.uptime_s),
            ("version"@, quoted(a@.version)),
        ]);
        object(&v)
    }
}

/// What the quality monitor is said to have found.
pub fn quality_json() -> (s: String)
    ensures
        s@ == object_text(seq![("history"@, "[]"@), ("last"@, object_text(quality_part()))]),
{
    let v: Vec<(&str, String)> = vec![("history", "[]".to_owned()), ("last", quality_object())];
    assert(pairs(v@) =~= seq![("history"@, "[]"@), ("last"@, object_text(quality_part()))]);
    object(&v)
}

pub open spec fn analysis_llm() -> Seq<(Seq<char>, Seq<char>)> {
    seq![
        ("analyzing"@, truth_text(false)),
        ("configured"@, truth_text(false)),
        ("has_snapshot"@, truth_text(false)),
        (
            "note"@,
            quoted(
                "Screen analysis and Q&A run on the Cloudflare Worker watch page. Set wrangler secret DEEPSEEK_API_KEY."@,
            ),
        ),
    ]
}

/// Screen analysis is done elsewhere; this says where.
pub fn analysis_json() -> (s: String)
    ensures
        s@ == object_text(
            seq![
                ("history"@, "[]"@),
                ("last"@, "null"@),
                ("llm"@, object_text(analysis_llm())),
            ],
        ),
{
    let l: Vec<(&str, String)> = vec![
        ("analyzing", truth(false)),
        ("configured", truth(false)),
        ("has_snapshot", truth(false)),
        (
            "note",
            quote(
                "Screen analysis and Q&A run on the Cloudflare Worker watch page. Set wrangler secret DEEPSEEK_API_KEY.",
            ),
        ),
    ];
    assert(pairs(l@) =~= analysis_llm());
    let v: Vec<(&str, String)> = vec![
        ("history", "[]".to_owned()),
        ("last", "null".to_owned()),
        ("llm", object(&l)),
    ];
    assert(pairs(v@) =~= seq![
        ("history"@, "[]"@),
        ("last"@, "null"@),
        ("llm"@, object_text(analysis_llm())),
    ]);
    object(&v)
}

/// Requests that the origin does not serve itself.
#[derive(Clone, Copy, Debug)]
pub enum Elsewhere {
    Ask,
    Analyze,
    QualityCheck,
}

/// What such a request is answered.
pub fn served_elsewhere(r: Elsewhere) -> (e: Refusal)
    ensures
        match r {
            Elsewhere::Ask => e.status == 503 && e.reason@
                == "Ask the screen on the Cloudflare watch page after DEEPSEEK_API_KEY is set"@,
            Elsewhere::Analyze => e.status == 503 && e.reason@
                == "Analyze-now lives on the Cloudflare Worker"@,
            Elsewhere::QualityCheck => e.status == 502 && e.reason@
                == "quality monitor not enabled"@,
        },
{
    match r {
        Elsewhere::Ask => Refusal {
            status: 503,
            reason: "Ask the screen on the Cloudflare watch page after DEEPSEEK_API_KEY is set",
        },
        Elsewhere::Analyze => Refusal {
            status: 503,
            reason: "Analyze-now lives on the Cloudflare Worker",
        },
        Elsewhere::QualityCheck => Refusal { status: 502, reason: "quality monitor not enabled" },
    }
}

/// The status tells whether unattended access is on and a password is set, and
/// never the password or its digest.
pub proof fn access_is_told(c: ConfigFacts)
    ensures
        ({
            let t = object_text(access_part(c));
            &&& tells(t, "password_set"@, byte_len(c.access.password_hash) == 64)
            &&& tells(t, "unattended"@, c.access.unattended)
        }),
{
    let m = access_part(c);
    object_shows(m, 0);
    object_shows(m, 1);
}

/// The status tells what is captured, how, and whether it runs.
pub proof fn capture_is_told(c: ConfigFacts, cap: StatusFacts, screens: Seq<Screen>, v: VitalFacts)
    ensures
        ({
            let t = object_text(capture_part(c, cap, screens, v));
            &&& tells(t, "audio"@, wants_audio(c, v.sysname))
            &&& has_part(t, shown("displays"@, array_text(screen_texts(screens))))
            &&& has_part(t, shown("error"@, quoted(cap.error)))
            &&& has_part(t, shown("fps_actual"@, v.fps_actual))
            &&& has_part(t, shown("fps_target"@, decimal(c.capture.fps as nat)))
            &&& has_part(t, shown("height"@, decimal((if cap.height > 0 { cap.height } else { v.size.1 }) as nat)))
            &&& has_part(t, shown("input"@, quoted(if cap.input.len() == 0 { c.capture.input } else { cap.input })))
            &&& has_part(t, shown("last_media_age_s"@, v.last_media_age_s))
            &&& tells(t, "running"@, cap.running)
            &&& has_part(t, shown("width"@, decimal((if cap.width > 0 { cap.width } else { v.size.0 }) as nat)))
        }),
{
    let m = capture_part(c, cap, screens, v);
    object_shows(m, 0);
    object_shows(m, 1);
    object_shows(m, 2);
    object_shows(m, 3);
    object_shows(m, 4);
    object_shows(m, 5);
    object_shows(m, 6);
    object_shows(m, 7);
    object_shows(m, 8);
    object_shows(m, 9);
}

/// The status tells every switch of the remote control and what it does now.
pub proof fn control_is_told(c: ConfigFacts, driving: bool, v: VitalFacts)
    ensures
        ({
            let t = object_text(control_part(c, driving, v));
            &&& tells(t, "ai_enabled"@, c.control.ai_enabled)
            &&& tells(t, "blank_screen"@, c.control.blank_screen)
            &&& tells(t, "blanking"@, c.control.blank_screen && driving)
            &&& tells(t, "block_local"@, c.control.block_local)
            &&& tells(t, "blocking"@, c.control.block_local && driving)
            &&& tells(t, "controller"@, driving)
            &&& tells(t, "ducking_mic"@, v.ducking)
            &&& tells(t, "enabled"@, c.control.enabled)
            &&& has_part(t, shown("files"@, decimal(v.files)))
            &&& tells(t, "keep_awake"@, c.control.keep_awake)
            &&& tells(t, "keeping_awake"@, v.awake)
            &&& tells(t, "lock_on_end"@, c.control.lock_on_end)
            &&& tells(t, "record_sessions"@, c.control.record_sessions)
            &&& tells(t, "recording"@, v.recording)
            &&& tells(t, "voice"@, c.control.voice)
        }),
{
    let m = control_part(c, driving, v);
    object_shows(m, 0);
    object_shows(m, 1);
    object_shows(m, 2);
    object_shows(m, 3);
    object_shows(m, 4);
    object_shows(m, 5);
    object_shows(m, 6);
    object_shows(m, 7);
    object_shows(m, 8);
    object_shows(m, 9);
    object_shows(m, 10);
    object_shows(m, 11);
    object_shows(m, 12);
    object_shows(m, 13);
    object_shows(m, 14);
}

/// The status tells whether a model is asked, which and how often.
pub proof fn analysis_is_told(c: ConfigFacts)
    ensures
        ({
            let t = object_text(llm_part(c));
            &&& tells(t, "active"@, false)
            &&& tells(t, "enabled"@, c.llm.enabled)
            &&& has_part(t, shown("interval_sec"@, decimal(c.llm.interval_sec as nat)))
            &&& has_part(t, shown("last_error"@, quoted(""@)))
            &&& has_part(t, shown("last_run_at"@, quoted(""@)))
            &&& has_part(t, shown("model"@, quoted(c.llm.model)))
        }),
{
    let m = llm_part(c);
    object_shows(m, 0);
    object_shows(m, 1);
    object_shows(m, 2);
    object_shows(m, 3);
    object_shows(m, 4);
    object_shows(m, 5);
}

/// The status tells that no picture was rated.
pub proof fn quality_is_told()
    ensures
        ({
            let t = object_text(quality_part());
            &&& has_part(t, shown("error"@, quoted(""@)))
            &&& has_part(t, shown("last_check_at"@, quoted(""@)))
            &&& has_part(t, shown("ocr_confidence"@, "null"@))
            &&& has_part(t, shown("ocr_words"@, decimal(0)))
            &&& tells(t, "ok"@, false)
            &&& has_part(t, shown("readability"@, decimal(0)))
            &&& has_part(t, shown("score"@, decimal(0)))
            &&& has_part(t, shown("sharpness"@, decimal(0)))
        }),
{
    let m = quality_part();
    object_shows(m, 0);
    object_shows(m, 1);
    object_shows(m, 2);
    object_shows(m, 3);
    object_shows(m, 4);
    object_shows(m, 5);
    object_shows(m, 6);
    object_shows(m, 7);
}

/// The status tells how the stream is made and who watches.
pub proof fn stream_is_told(c: ConfigFacts, v: VitalFacts)
    ensures
        ({
            let t = object_text(stream_part(c, v));
            &&& has_part(t, shown("bitrate_kbps"@, decimal(c.encoder.bitrate_kbps as nat)))
            &&& has_part(t, shown("clients"@, decimal(v.clients)))
            &&& has_part(t, shown("gop_frames"@, decimal(c.encoder.gop_frames as nat)))
            &&& has_part(t, shown("jpeg_quality"@, decimal(c.capture.jpeg_quality as nat)))
            &&& has_part(t, shown("mode"@, quoted(c.encoder.mode)))
            &&& has_part(t, shown("preset"@, quoted(preset_of(c))))
            &&& has_part(t, shown("scale"@, c.capture.scale.text))
            &&& has_part(t, shown("transport"@, quoted("websocket"@)))
        }),
{
    let m = stream_part(c, v);
    object_shows(m, 0);
    object_shows(m, 1);
    object_shows(m, 2);
    object_shows(m, 3);
    object_shows(m, 4);
    object_shows(m, 5);
    object_shows(m, 6);
    object_shows(m, 7);
}

/// The whole status holds each of its parts under its name.
pub proof fn status_holds_its_parts(s: AppState, cap: StatusFacts, v: VitalFacts, now: u64)
    ensures
        ({
            let t = s.status_text(cap, v, now);
            &&& has_part(t, shown("access"@, object_text(access_part(s.cfg))))
            &&& has_part(t, shown("capture"@, object_text(capture_part(s.cfg, cap, s.displays, v))))
            &&& has_part(
                t,
                shown("control"@, object_text(control_part(s.cfg, s.controller is Some, v))),
            )
            &&& has_part(t, shown("llm"@, object_text(llm_part(s.cfg))))
            &&& has_part(t, shown("quality"@, object_text(quality_part())))
            &&& has_part(t, shown("stream"@, object_text(stream_part(s.cfg, v))))
            &&& has_part(t, shown("uptime_s"@, v.uptime_s))
            &&& has_part(t, shown("version"@, quoted(v.version)))
            &&& has_part(
                t,
                shown(
                    "has_pin"@,
                    if s.otp.pin is Some && now < s.otp.pin->Some_0.exp {
                        "true"@
                    } else {
                        "false"@
                    },
                ),
            )
        }),
{
    let otp = seq![("has_pin"@, truth_text(s.otp.live_pin(now as int) is Some))];
    let m = seq![
        ("access"@, object_text(access_part(s.cfg))),
        ("capture"@, object_text(capture_part(s.cfg, cap, s.displays, v))),
        ("control"@, object_text(control_part(s.cfg, s.controller is Some, v))),
        ("llm"@, object_text(llm_part(s.cfg))),
        ("otp"@, object_text(otp)),
        ("quality"@, object_text(quality_part())),
        ("stream"@, object_text(stream_part(s.cfg, v))),
        ("uptime_s"@, v.uptime_s),
        ("version"@, quoted(v.version)),
    ];
    let t = s.status_text(cap, v, now);
    assert(t == object_text(m));
    object_shows(m, 0);
    object_shows(m, 1);
    object_shows(m, 2);
    object_shows(m, 3);
    object_shows(m, 4);
    object_shows(m, 5);
    object_shows(m, 6);
    object_shows(m, 7);
    object_shows(m, 8);
    object_shows(otp, 0);
    part_of_part(t, object_text(otp), shown(otp[0].0, otp[0].1));
}

} // verus!
