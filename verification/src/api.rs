//! The host's HTTP interface: who may ask for what, and what is answered.

use crate::access::{
    form_of, is_public, last_value, may_watch, open_path, opens, query_value, request_session,
    request_token, session_cookie, session_cookie_text, session_in, token_auth_cookie,
    token_cookie_text, token_in, token_ok, viewer_cookie_text, viewer_flag_cookie, Refusal,
};
use crate::b64::{base64_bytes, decode_b64};
use crate::capture::SECOND;
use crate::chat::opt;
use crate::config::{
    apply_unattended_password, capture_agrees, cloudflare_endpoint_changed, same_capture,
    same_encoder, unattended_secret, with_password, Config, ConfigFacts,
};
use crate::device::{audio_names, AudioDevice, Device};
use crate::files::{entries_of, entry_text, entry_texts, EntryFacts, FileEntry, HTTP_PUT_MAX};
use crate::inbound::{
    displays_json, drives_host, kill_switch_stops_everything, screen_texts,
};
use crate::json::{
    array, array_text, object, object_shows, object_text, pairs, parsed, quote, quoted, shown, tells,
    text_or, truth, truth_text, Json, Tree,
};
use crate::otp::{
    is_pin, is_token, GateState, PinFacts, PinState, Reading, RedeemError, SESSION_TTL,
};
use crate::patch::{config_tree, password_taken, patched, settings, take_access_password};
use crate::perm::{open_privacy_pane, pane};
use crate::server::{emit, fxs, App, AppState, Effect, Fx};
use crate::text::{
    append, begins, chars_of, concat2, decimal, decimal_text, find_from, first_at, has_part, push_text,
    same, slice_text, starts_with, texts, trim, trimmed, utf8_text,
};
use crate::wol::{mac_of, parse_mac};
use vstd::prelude::*;
use vstd::utf8::{
    decode_utf8, encode_utf8, encode_utf8_decode_utf8, encode_utf8_valid_utf8, valid_utf8,
};

verus! {

pub open spec fn error_body(reason: Seq<char>) -> Seq<char> {
    object_text(seq![("error"@, quoted(reason))])
}

/// What a refused request is answered.
pub fn json_err(reason: &str) -> (s: String)
    ensures
        s@ == error_body(reason@),
{
    let v: Vec<(&str, String)> = vec![("error", quote(reason))];
    assert(pairs(v@) =~= seq![("error"@, quoted(reason@))]);
    object(&v)
}

/// The JSON value that a body holds, if it holds one.
pub open spec fn body_tree(body: Seq<u8>) -> Option<Tree> {
    if valid_utf8(body) {
        parsed(decode_utf8(body))
    } else {
        None
    }
}

fn body_json(body: &[u8]) -> (r: Option<Json>)
    ensures
        match r {
            Some(v) => body_tree(body@) == Some(v.tree()),
            None => body_tree(body@) is None,
        },
{
    match utf8_text(body) {
        Some(s) => Json::parse(s.as_str()),
        None => None,
    }
}

/// Why a body that must hold an object is refused.
pub open spec fn object_refused(body: Option<Tree>) -> Option<Seq<char>> {
    match body {
        None => Some("invalid JSON body"@),
        Some(v) => if v is Obj {
            None
        } else {
            Some("expected JSON object"@)
        },
    }
}

pub(crate) fn body_object(body: &[u8]) -> (r: Result<Json, Refusal>)
    ensures
        match r {
            Ok(v) => body_tree(body@) == Some(v.tree()) && v.tree() is Obj,
            Err(e) => e.status == 400 && object_refused(body_tree(body@)) == Some(e.reason@),
        },
{
    match body_json(body) {
        None => Err(Refusal { status: 400, reason: "invalid JSON body" }),
        Some(v) => match &v {
            Json::Obj(_) => Ok(v),
            _ => Err(Refusal { status: 400, reason: "expected JSON object" }),
        },
    }
}

impl AppState {
    /// Whether a request with this token is the host's.
    pub open spec fn is_host(self, token: Seq<char>) -> bool {
        opens(token, self.cfg.token)
    }

    /// Whether a request may watch, and what is known of its session after.
    pub open spec fn lets_watch(self, token: Seq<char>, session: Seq<char>, now: u64) -> bool {
        may_watch(self.cfg.token, token, self.otp.admits(session, now as int))
    }

    pub open spec fn after_watch_check(self, token: Seq<char>, session: Seq<char>, now: u64) -> AppState {
        if self.is_host(token) {
            self
        } else {
            AppState { otp: self.otp.after_check(session, now as int), ..self }
        }
    }

    /// Whether a request may use files: the host always, a viewer where remote
    /// control is on.
    pub open spec fn lets_use_files(self, token: Seq<char>, session: Seq<char>, now: u64) -> bool {
        self.is_host(token) || (self.otp.admits(session, now as int) && self.cfg.control.enabled)
    }
}

impl App {
    /// Whether a request is the host's.
    pub fn host_ok(&self, token: &str) -> (r: bool)
        ensures
            r == self@.is_host(token@),
    {
        token_ok(token, self.cfg.token.as_str())
    }

    /// Origin watch/stream: host STREAM_TOKEN (this machine's UI) or PIN session.
    /// Empty host token keeps the open local-dev mode.
    /// The public Worker watch URL still rejects STREAM_TOKEN (session only).
    pub fn viewer_ok(&mut self, token: &str, session: &str, now: u64) -> (r: bool)
        ensures
            r == old(self)@.lets_watch(token@, session@, now),
            final(self)@ == old(self)@.after_watch_check(token@, session@, now),
    {
        if self.host_ok(token) {
            return true;
        }
        let r = self.otp.session_ok(session, now);
        assert(self@ =~= old(self)@.after_watch_check(token@, session@, now));
        r
    }

    pub fn files_ok(&mut self, token: &str, session: &str, now: u64) -> (r: Result<(), Refusal>)
        ensures
            match r {
                Ok(_) => old(self)@.lets_use_files(token@, session@, now),
                Err(e) => !old(self)@.lets_use_files(token@, session@, now) && if old(
                    self,
                )@.lets_watch(token@, session@, now) {
                    e.status == 403 && e.reason@ == "remote control disabled"@
                } else {
                    e.status == 401 && e.reason@ == "unauthorized"@
                },
            },
            final(self)@ == old(self)@.after_watch_check(token@, session@, now),
    {
        if self.host_ok(token) {
            return Ok(());
        }
        if !self.viewer_ok(token, session, now) {
            return Err(Refusal { status: 401, reason: "unauthorized" });
        }
        if !self.cfg.control.enabled {
            return Err(Refusal { status: 403, reason: "remote control disabled" });
        }
        Ok(())
    }
}

/// What a path asks of whoever wants it.
#[derive(Clone, Copy, Debug, PartialEq, Eq, Structural)]
pub enum Needs {
    Nothing,
    /// The host's token.
    Host,
    /// The host's token, or the session of a viewer.
    Watch,
    /// The host's token, or the session of a viewer while remote control is on.
    Files,
}

/// The stream and a model's tasks are for viewers, the inbox for those who may
/// drive, and all that is not public is the host's.
pub open spec fn needed(path: Seq<char>) -> Needs {
    if open_path(path) {
        Needs::Nothing
    } else if path == "/stream.ws"@ || path == "/stream.mp4"@ || path == "/stream.mjpeg"@ || path
        == "/api/computer-use"@ {
        Needs::Watch
    } else if path == "/api/files"@ || path == "/api/files/download"@ || path
        == "/api/files/mkdir"@ || path == "/api/files/rename"@ || path == "/api/files/copy"@ {
        Needs::Files
    } else {
        Needs::Host
    }
}

pub fn needs_of(path: &str) -> (n: Needs)
    ensures
        n == needed(path@),
{
    if is_public(path) {
        Needs::Nothing
    } else if same(path, "/stream.ws") || same(path, "/stream.mp4") || same(path, "/stream.mjpeg")
        || same(path, "/api/computer-use") {
        Needs::Watch
    } else if same(path, "/api/files") || same(path, "/api/files/download") || same(
        path,
        "/api/files/mkdir",
    ) || same(path, "/api/files/rename") || same(path, "/api/files/copy") {
        Needs::Files
    } else {
        Needs::Host
    }
}

impl AppState {
    /// Whether a request for a path is let through.
    pub open spec fn admits_to(
        self,
        path: Seq<char>,
        token: Seq<char>,
        session: Seq<char>,
        now: u64,
    ) -> bool {
        match needed(path) {
            Needs::Nothing => true,
            Needs::Host => self.is_host(token),
            Needs::Watch => self.lets_watch(token, session, now),
            Needs::Files => self.lets_use_files(token, session, now),
        }
    }

    pub open spec fn after_admission(
        self,
        path: Seq<char>,
        token: Seq<char>,
        session: Seq<char>,
        now: u64,
    ) -> AppState {
        match needed(path) {
            Needs::Nothing => self,
            Needs::Host => self,
            _ => self.after_watch_check(token, session, now),
        }
    }
}

impl App {
    /// Lets a request for a path through, or says why not.
    pub fn let_in(&mut self, path: &str, token: &str, session: &str, now: u64) -> (r: Result<
        (),
        Refusal,
    >)
        ensures
            match r {
                Ok(_) => old(self)@.admits_to(path@, token@, session@, now),
                Err(e) => !old(self)@.admits_to(path@, token@, session@, now) && if needed(path@)
                    == Needs::Files && old(self)@.lets_watch(token@, session@, now) {
                    e.status == 403 && e.reason@ == "remote control disabled"@
                } else {
                    e.status == 401 && e.reason@ == "unauthorized"@
                },
            },
            final(self)@ == old(self)@.after_admission(path@, token@, session@, now),
    {
        let ok = match needs_of(path) {
            Needs::Nothing => true,
            Needs::Host => self.host_ok(token),
            Needs::Watch => self.viewer_ok(token, session, now),
            Needs::Files => {
                return self.files_ok(token, session, now);
            },
        };
        if ok {
            Ok(())
        } else {
            Err(Refusal { status: 401, reason: "unauthorized" })
        }
    }
}

/// The host token of a request and its viewer session.
pub fn request_keys(auth: Option<&str>, query: &str, cookie: Option<&str>) -> (r: (String, String))
    ensures
        r.0@ == token_in(opt(auth), form_of(query@), opt(cookie)),
        r.1@ == session_in(opt(auth), form_of(query@), opt(cookie)),
{
    (request_token(auth, query, cookie), request_session(auth, query, cookie))
}

/// A viewer who redeemed a PIN may watch until the session ends.
pub proof fn redeemed_session_watches(s: AppState, secret: Seq<char>, at: u64, token: Seq<char>, now: u64)
    requires
        !s.otp.locked(at as int),
        s.otp.opens(secret, at as int),
        token.len() > 0,
        at <= now < at + SESSION_TTL <= u64::MAX,
    ensures
        (AppState { otp: s.otp.after_attempt(secret, at as int, token), ..s }).lets_watch(
            Seq::empty(),
            token,
            now,
        ),
{
}

/// A wrong host token opens nothing but the public pages, and neither does a
/// session that was never given out.
pub proof fn strangers_are_refused(
    s: AppState,
    path: Seq<char>,
    token: Seq<char>,
    session: Seq<char>,
    now: u64,
)
    requires
        !opens(token, s.cfg.token),
        !s.otp.sessions.contains_key(crate::otp::digest_text(session)),
    ensures
        s.admits_to(path, token, session, now) <==> open_path(path),
{
}

/// A viewer's session never opens what is the host's, and it opens the inbox
/// only while remote control is on.
pub proof fn viewers_are_not_the_host(
    s: AppState,
    path: Seq<char>,
    token: Seq<char>,
    session: Seq<char>,
    now: u64,
)
    requires
        !opens(token, s.cfg.token),
    ensures
        needed(path) == Needs::Host ==> !s.admits_to(path, token, session, now),
        needed(path) == Needs::Files && !s.cfg.control.enabled ==> !s.admits_to(
            path,
            token,
            session,
            now,
        ),
{
}

/// The settings after a patch was handed in, unless its password is refused.
pub open spec fn asked(c: ConfigFacts, patch: Tree) -> Option<ConfigFacts> {
    let t = password_taken(patch);
    with_password(settings(patched(config_tree(c), t.0)), t.1)
}

pub open spec fn applied_text(restart: bool) -> Seq<char> {
    object_text(
        seq![
            ("applied"@, truth_text(true)),
            (
                "note"@,
                quoted(
                    if restart {
                        "host/port/token changes take effect on restart"@
                    } else {
                        Seq::empty()
                    },
                ),
            ),
            ("restart_required"@, truth_text(restart)),
        ],
    )
}

/// Whether a change takes effect only on a restart.
pub open spec fn binds_anew(old: ConfigFacts, new: ConfigFacts) -> bool {
    old.host != new.host || old.port != new.port || old.token != new.token
}

pub open spec fn captures_anew(old: ConfigFacts, new: ConfigFacts) -> bool {
    !capture_agrees(old.capture, new.capture) || old.encoder != new.encoder
}

pub open spec fn publishes_anew(old: ConfigFacts, new: ConfigFacts) -> bool {
    old.cloudflare.publish_url != new.cloudflare.publish_url || old.cloudflare.watch_url
        != new.cloudflare.watch_url
}

pub open spec fn only_if(b: bool, f: Fx) -> Seq<Fx> {
    if b {
        seq![f]
    } else {
        Seq::empty()
    }
}

impl AppState {
    /// The state under new settings. At another endpoint publishing begins anew.
    pub open spec fn settled(self, c: ConfigFacts) -> AppState {
        AppState {
            cfg: c,
            publisher: if publishes_anew(self.cfg, c) {
                self.publisher.configured(c).started()
            } else {
                self.publisher.configured(c)
            },
            last_voice: if c.capture.audio && c.control.voice {
                self.last_voice
            } else {
                None
            },
            otp: GateState {
                unattended: if c.access.unattended {
                    c.access.password_hash
                } else {
                    Seq::empty()
                },
                ..self.otp
            },
            ..self
        }
    }

    /// What is done once new settings are in force.
    pub open spec fn settling(self, endpoint: bool, recapture: bool) -> Seq<Fx> {
        let c = self.cfg;
        only_if(endpoint, Fx::RestartPublisher) + seq![Fx::ApplyDisplay(c.capture.input)]
            + self.privacy() + only_if(!c.capture.audio || !c.control.voice, Fx::Duck(false))
            + only_if(!c.control.record_sessions, Fx::StopRecording) + only_if(
            c.control.record_sessions && self.controller is Some,
            Fx::StartRecording,
        ) + seq![Fx::Announce] + only_if(recapture, Fx::Recapture)
    }

    /// New settings are put in force.
    pub open spec fn reconfigured(self, c: ConfigFacts) -> (AppState, Seq<Fx>) {
        let s = self.settled(c);
        (s, s.settling(publishes_anew(self.cfg, c), captures_anew(self.cfg, c)))
    }
}

impl App {
    /// The settings that a body asks for.
    pub fn config_change(&self, body: &[u8]) -> (r: Result<Config, Refusal>)
        ensures
            match object_refused(body_tree(body@)) {
                Some(why) => r is Err && r->Err_0.status == 400 && r->Err_0.reason@ == why,
                None => match asked(self@.cfg, body_tree(body@)->Some_0) {
                    Some(c) => r is Ok && r->Ok_0@ == c,
                    None => r is Err && r->Err_0.status == 400 && r->Err_0.reason@
                        == "unattended password must be 8–128 characters"@,
                },
            },
    {
        let mut patch = match body_object(body) {
            Ok(v) => v,
            Err(e) => {
                return Err(e);
            },
        };
        let password = take_access_password(&mut patch);
        let mut cfg = self.cfg.merge_patch(patch);
        match apply_unattended_password(&mut cfg, password) {
            Ok(_) => Ok(cfg),
            Err(reason) => Err(Refusal { status: 400, reason }),
        }
    }

    /// Puts settings in force that were saved, and says what comes of it.
    pub fn apply_config(&mut self, cfg: Config, out: &mut Vec<Effect>) -> (s: String)
        ensures
            s@ == applied_text(binds_anew(old(self)@.cfg, cfg@)),
            final(self)@ == old(self)@.reconfigured(cfg@).0,
            fxs(final(out)@) == fxs(old(out)@) + old(self)@.reconfigured(cfg@).1,
    {
        let restart = !same(self.cfg.host.as_str(), cfg.host.as_str()) || self.cfg.port != cfg.port
            || !same(self.cfg.token.as_str(), cfg.token.as_str());
        let recapture = !same_capture(&self.cfg.capture, &cfg.capture) || !same_encoder(
            &self.cfg.encoder,
            &cfg.encoder,
        );
        let endpoint = cloudflare_endpoint_changed(&self.cfg, &cfg);
        self.settle(cfg);
        self.emit_settling(endpoint, recapture, out);
        applied_json(restart)
    }

    fn settle(&mut self, cfg: Config)
        ensures
            final(self)@ == old(self)@.settled(cfg@),
    {
        let endpoint = cloudflare_endpoint_changed(&self.cfg, &cfg);
        self.publisher.set_config(&cfg);
        if endpoint {
            self.publisher.start();
        }
        if !cfg.capture.audio || !cfg.control.voice {
            self.last_voice = None;
        }
        self.otp.set_unattended(unattended_secret(&cfg));
        self.cfg = cfg;
        assert(self@ =~= old(self)@.settled(cfg@));
    }

    fn emit_settling(&self, endpoint: bool, recapture: bool, out: &mut Vec<Effect>)
        ensures
            fxs(final(out)@) == fxs(old(out)@) + self@.settling(endpoint, recapture),
    {
        let ghost before = fxs(out@);
        let input = self.cfg.capture.input.clone();
        let quiet = !self.cfg.capture.audio || !self.cfg.control.voice;
        let stop = !self.cfg.control.record_sessions;
        let start = self.cfg.control.record_sessions && self.controller.is_some();
        emit_if(out, endpoint, Effect::RestartPublisher);
        emit(out, Effect::ApplyDisplay(input));
        self.sync_session_privacy(out);
        emit_if(out, quiet, Effect::Duck(false));
        emit_if(out, stop, Effect::StopRecording);
        emit_if(out, start, Effect::StartRecording);
        emit(out, Effect::Announce);
        emit_if(out, recapture, Effect::Recapture);
        proof {
            let e1 = only_if(endpoint, Fx::RestartPublisher);
            let e2 = e1 + seq![Fx::ApplyDisplay(input@)];
            let e3 = e2 + self@.privacy();
            let e4 = e3 + only_if(quiet, Fx::Duck(false));
            let e5 = e4 + only_if(stop, Fx::StopRecording);
            let e6 = e5 + only_if(start, Fx::StartRecording);
            let e7 = e6 + seq![Fx::Announce];
            assert((before + e1).push(Fx::ApplyDisplay(input@)) =~= before + e2);
            joins(before, e2, self@.privacy());
            joins(before, e3, only_if(quiet, Fx::Duck(false)));
            joins(before, e4, only_if(stop, Fx::StopRecording));
            joins(before, e5, only_if(start, Fx::StartRecording));
            assert((before + e6).push(Fx::Announce) =~= before + e7);
            joins(before, e7, only_if(recapture, Fx::Recapture));
        }
    }
}

proof fn joins(a: Seq<Fx>, b: Seq<Fx>, c: Seq<Fx>)
    ensures
        (a + b) + c == a + (b + c),
{
    assert((a + b) + c =~= a + (b + c));
}

fn emit_if(out: &mut Vec<Effect>, b: bool, e: Effect)
    ensures
        fxs(final(out)@) == fxs(old(out)@) + only_if(b, e@),
{
    if b {
        emit(out, e);
    }
    assert(fxs(out@) =~= fxs(old(out)@) + only_if(b, e@));
}

fn applied_json(restart: bool) -> (s: String)
    ensures
        s@ == applied_text(restart),
{
    let note = if restart {
        "host/port/token changes take effect on restart"
    } else {
        ""
    };
    proof {
        reveal_strlit("");
        assert(""@ =~= Seq::<char>::empty());
    }
    let v: Vec<(&str, String)> = vec![
        ("applied", truth(true)),
        ("note", quote(note)),
        ("restart_required", truth(restart)),
    ];
    assert(pairs(v@) =~= seq![
        ("applied"@, truth_text(true)),
        ("note"@, quoted(note@)),
        ("restart_required"@, truth_text(restart)),
    ]);
    object(&v)
}

/// The kill switch works at once: after settings that turn remote control off,
/// no message but one that ends the session touches the host.
pub proof fn kill_switch_works_at_once(
    s: AppState,
    c: ConfigFacts,
    v: Tree,
    now: u64,
    now_ms: u64,
)
    requires
        !c.control.enabled,
        text_or(v.text_at("type"@), Seq::empty()) != "revoke"@,
    ensures
        ({
            let off = s.reconfigured(c).0;
            let r = off.received(v, now, now_ms);
            &&& r.0.controller == off.controller
            &&& forall|i: int| 0 <= i < r.1.len() ==> !drives_host(#[trigger] r.1[i])
        }),
{
    kill_switch_stops_everything(s.reconfigured(c).0, v, now, now_ms);
}

/// New settings leave who drives, the chat, the sessions and the PIN as they
/// are.
pub proof fn settings_keep_the_controller(s: AppState, c: ConfigFacts)
    ensures
        s.reconfigured(c).0.controller == s.controller,
        s.reconfigured(c).0.chat == s.chat,
        s.reconfigured(c).0.cfg == c,
        s.reconfigured(c).0.otp.sessions == s.otp.sessions,
        s.reconfigured(c).0.otp.pin == s.otp.pin,
{
}

/// A PIN with its digest and how long it is good.
pub open spec fn pin_text(p: PinFacts, unix_ms: int) -> Seq<char> {
    let left = if p.exp_unix_ms > unix_ms {
        p.exp_unix_ms - unix_ms
    } else {
        0
    };
    object_text(
        seq![
            ("exp"@, decimal(p.exp_unix_ms as nat)),
            ("expires_in_s"@, decimal((left / 1000) as nat)),
            ("hash"@, quoted(p.hash)),
            ("pin"@, quoted(p.pin)),
        ],
    )
}

pub fn otp_json(st: &PinState, unix_ms: u64) -> (s: String)
    ensures
        s@ == pin_text(st@, unix_ms as int),
{
    let left: u64 = if st.exp_unix_ms > unix_ms {
        st.exp_unix_ms - unix_ms
    } else {
        0
    };
    let v: Vec<(&str, String)> = vec![
        ("exp", decimal_text(st.exp_unix_ms)),
        ("expires_in_s", decimal_text(left / 1000)),
        ("hash", quote(st.hash.as_str())),
        ("pin", quote(st.pin.as_str())),
    ];
    assert(pairs(v@) =~= seq![
        ("exp"@, decimal(st@.exp_unix_ms as nat)),
        ("expires_in_s"@, decimal((left / 1000) as nat)),
        ("hash"@, quoted(st@.hash)),
        ("pin"@, quoted(st@.pin)),
    ]);
    object(&v)
}

impl App {
    /// The PIN that is in force; a new one where there is none.
    pub fn otp_get(&mut self, at: Reading, out: &mut Vec<Effect>) -> (s: String)
        requires
            at.in_range(),
        ensures
            match old(self)@.otp.live_pin(at.now as int) {
                Some(p) => s@ == pin_text(p, at.unix_ms as int) && final(self)@ == old(self)@
                    && fxs(final(out)@) == fxs(old(out)@),
                None => {
                    &&& final(self)@.otp.pin is Some && is_pin(final(self)@.otp.pin->Some_0.pin)
                    &&& final(self)@ == (AppState {
                        otp: old(self)@.otp.with_pin(final(self)@.otp.pin->Some_0.pin, at),
                        ..old(self)@
                    })
                    &&& s@ == pin_text(final(self)@.otp.pin->Some_0, at.unix_ms as int)
                    &&& fxs(final(out)@) == fxs(old(out)@).push(Fx::Announce)
                },
            },
    {
        match self.otp.current_pin(at.now) {
            Some(st) => otp_json(&st, at.unix_ms),
            None => self.otp_mint(at, out),
        }
    }

    /// A new PIN takes the place of the one in force.
    pub fn otp_mint(&mut self, at: Reading, out: &mut Vec<Effect>) -> (s: String)
        requires
            at.in_range(),
        ensures
            final(self)@.otp.pin is Some && is_pin(final(self)@.otp.pin->Some_0.pin),
            final(self)@ == (AppState {
                otp: old(self)@.otp.with_pin(final(self)@.otp.pin->Some_0.pin, at),
                ..old(self)@
            }),
            s@ == pin_text(final(self)@.otp.pin->Some_0, at.unix_ms as int),
            fxs(final(out)@) == fxs(old(out)@).push(Fx::Announce),
    {
        let st = self.otp.mint(at);
        emit(out, Effect::Announce);
        otp_json(&st, at.unix_ms)
    }
}

/// A text that a body must hold under a name, or why it is refused.
pub open spec fn wanted(body: Seq<u8>, name: Seq<char>, missing: Seq<char>, no_text: Seq<char>) -> Result<
    Seq<char>,
    Seq<char>,
> {
    match object_refused(body_tree(body)) {
        Some(why) => Err(why),
        None => match body_tree(body)->Some_0.get(name) {
            None => Err(missing),
            Some(v) => match v.text() {
                None => Err(no_text),
                Some(s) => if trimmed(s).len() == 0 {
                    Err(missing)
                } else {
                    Ok(trimmed(s))
                },
            },
        },
    }
}

fn body_text(body: &[u8], name: &str, missing: &'static str, no_text: &'static str) -> (r: Result<
    String,
    Refusal,
>)
    ensures
        match wanted(body@, name@, missing@, no_text@) {
            Ok(s) => r is Ok && r->Ok_0@ == s,
            Err(why) => r is Err && r->Err_0.status == 400 && r->Err_0.reason@ == why,
        },
{
    let v = match body_object(body) {
        Ok(v) => v,
        Err(e) => {
            return Err(e);
        },
    };
    let s = match v.get(name) {
        None => {
            return Err(Refusal { status: 400, reason: missing });
        },
        Some(x) => match x.as_text() {
            None => {
                return Err(Refusal { status: 400, reason: no_text });
            },
            Some(s) => trim(s),
        },
    };
    if s.as_str().is_empty() {
        return Err(Refusal { status: 400, reason: missing });
    }
    Ok(s)
}

/// A granted request: the body of the answer and the cookies it sets.
#[derive(Debug)]
pub struct Granted {
    pub body: String,
    pub cookies: Vec<String>,
}

pub open spec fn session_body(token: Seq<char>) -> Seq<char> {
    object_text(
        seq![
            ("expires_in_s"@, decimal((SESSION_TTL / 1_000_000_000) as nat)),
            ("session"@, quoted(token)),
        ],
    )
}

/// What a redeemed PIN is answered, whose session has that token.
pub fn session_granted(token: &str) -> (g: Granted)
    ensures
        g.body@ == session_body(token@),
        texts(g.cookies@) == seq![session_cookie_text(token@), viewer_cookie_text()],
{
    let v: Vec<(&str, String)> = vec![
        ("expires_in_s", decimal_text(SESSION_TTL / 1_000_000_000)),
        ("session", quote(token)),
    ];
    assert(pairs(v@) =~= seq![
        ("expires_in_s"@, decimal((SESSION_TTL / 1_000_000_000) as nat)),
        ("session"@, quoted(token@)),
    ]);
    let cookies: Vec<String> = vec![session_cookie(token), viewer_flag_cookie()];
    assert(texts(cookies@) =~= seq![session_cookie_text(token@), viewer_cookie_text()]);
    Granted { body: object(&v), cookies }
}

pub open spec fn pin_wanted(body: Seq<u8>) -> Result<Seq<char>, Seq<char>> {
    wanted(body, "pin"@, "missing pin"@, "pin must be a string"@)
}

impl App {
    /// An attempt to redeem the PIN in a body. A success gives out a random
    /// token.
    pub fn otp_redeem(&mut self, body: &[u8], now: u64) -> (r: Result<Granted, Refusal>)
        requires
            now + SESSION_TTL <= u64::MAX,
        ensures
            match pin_wanted(body@) {
                Err(why) => r is Err && r->Err_0.status == 400 && r->Err_0.reason@ == why && final(self)@ == old(self)@,
                Ok(pin) => {
                    let g = old(self)@.otp;
                    if g.locked(now as int) {
                        r is Err && r->Err_0.status == 429 && r->Err_0.reason@ == "rate limited"@
                            && final(self)@ == old(self)@
                    } else if !g.opens(pin, now as int) {
                        r is Err && r->Err_0.status == 401 && r->Err_0.reason@ == "unauthorized"@
                            && final(self)@ == (AppState {
                            otp: g.unlocked().failed(now as int),
                            ..old(self)@
                        })
                    } else {
                        r is Ok && exists|token: Seq<char>|
                            #![trigger session_body(token)]
                            is_token(token) && r->Ok_0.body@ == session_body(token) && texts(
                                r->Ok_0.cookies@,
                            ) == seq![session_cookie_text(token), viewer_cookie_text()] && final(self)@ == (AppState {
                                otp: g.after_attempt(pin, now as int, token),
                                ..old(self)@
                            })
                    }
                },
            },
    {
        let pin = match body_text(body, "pin", "missing pin", "pin must be a string") {
            Ok(p) => p,
            Err(e) => {
                return Err(e);
            },
        };
        match self.otp.redeem(pin.as_str(), now) {
            Ok(sess) => {
                let g = session_granted(sess.token.as_str());
                assert(self@ =~= (AppState {
                    otp: old(self)@.otp.after_attempt(pin@, now as int, sess.token@),
                    ..old(self)@
                }));
                assert(g.body@ == session_body(sess.token@));
                Ok(g)
            },
            Err(RedeemError::RateLimited) => {
                assert(self@ =~= old(self)@);
                Err(Refusal { status: 429, reason: "rate limited" })
            },
            Err(RedeemError::Unauthorized) => {
                assert(self@ =~= (AppState {
                    otp: old(self)@.otp.unlocked().failed(now as int),
                    ..old(self)@
                }));
                Err(Refusal { status: 401, reason: "unauthorized" })
            },
        }
    }

    /// The host's page shows its token; it is kept in a cookie.
    pub fn login(&self, body: &[u8]) -> (r: Result<Granted, Refusal>)
        ensures
            match wanted(body@, "token"@, "missing token"@, "token must be a string"@) {
                Err(why) => r is Err && r->Err_0.status == 400 && r->Err_0.reason@ == why,
                Ok(token) => if self@.is_host(token) {
                    r is Ok && r->Ok_0.body@ == object_text(seq![("ok"@, truth_text(true))])
                        && texts(r->Ok_0.cookies@) == seq![token_cookie_text(token)]
                } else {
                    r is Err && r->Err_0.status == 401 && r->Err_0.reason@ == "unauthorized"@
                },
            },
    {
        let token = match body_text(body, "token", "missing token", "token must be a string") {
            Ok(t) => t,
            Err(e) => {
                return Err(e);
            },
        };
        if !self.host_ok(token.as_str()) {
            return Err(Refusal { status: 401, reason: "unauthorized" });
        }
        let v: Vec<(&str, String)> = vec![("ok", truth(true))];
        assert(pairs(v@) =~= seq![("ok"@, truth_text(true))]);
        let cookies: Vec<String> = vec![token_auth_cookie(token.as_str())];
        assert(texts(cookies@) =~= seq![token_cookie_text(token@)]);
        Ok(Granted { body: object(&v), cookies })
    }

    /// The task that a viewer asks a model to do.
    pub fn task_request(&self, body: &[u8]) -> (r: Result<String, Refusal>)
        ensures
            match r {
                Ok(t) => {
                    &&& self@.cfg.control.ai_enabled
                    &&& body_tree(body@) is Some
                    &&& t@ == trimmed(
                        text_or(body_tree(body@)->Some_0.text_at("task"@), Seq::empty()),
                    )
                    &&& t@.len() > 0
                },
                Err(e) => if !self@.cfg.control.ai_enabled {
                    e.status == 403 && e.reason@ == "ai control disabled"@
                } else if body_tree(body@) is None {
                    e.status == 400 && e.reason@ == "invalid JSON body"@
                } else {
                    e.status == 400 && e.reason@ == "missing task"@ && trimmed(
                        text_or(body_tree(body@)->Some_0.text_at("task"@), Seq::empty()),
                    ).len() == 0
                },
            },
    {
        if !self.cfg.control.ai_enabled {
            return Err(Refusal { status: 403, reason: "ai control disabled" });
        }
        let v = match body_json(body) {
            Some(v) => v,
            None => {
                return Err(Refusal { status: 400, reason: "invalid JSON body" });
            },
        };
        let task = trim(v.text_or_empty("task").as_str());
        if task.as_str().is_empty() {
            return Err(Refusal { status: 400, reason: "missing task" });
        }
        Ok(task)
    }
}

/// The machine that a body asks to wake.
pub fn wol_request(body: &[u8]) -> (r: Result<[u8; 6], Refusal>)
    ensures
        match object_refused(body_tree(body@)) {
            Some(why) => r is Err && r->Err_0.status == 400 && r->Err_0.reason@ == why,
            None => match mac_of(
                text_or(body_tree(body@)->Some_0.text_at("mac"@), Seq::empty()),
            ) {
                Some(mac) => r is Ok && r->Ok_0@ == mac,
                None => r is Err && r->Err_0.status == 400 && r->Err_0.reason@
                    == "MAC must be 6 bytes"@,
            },
        },
{
    let v = match body_object(body) {
        Ok(v) => v,
        Err(e) => {
            return Err(e);
        },
    };
    match parse_mac(v.text_or_empty("mac").as_str()) {
        Ok(mac) => Ok(mac),
        Err(reason) => Err(Refusal { status: 400, reason }),
    }
}

/// The page of the system's settings that a body asks to open.
pub fn pane_request(body: &[u8], macos: bool) -> (r: Result<&'static str, Refusal>)
    ensures
        match object_refused(body_tree(body@)) {
            Some(why) => r is Err && r->Err_0.status == 400 && r->Err_0.reason@ == why,
            None => match (
                pane(text_or(body_tree(body@)->Some_0.text_at("which"@), Seq::empty())),
                r,
            ) {
                (None, Err(e)) => e.status == 400 && e.reason@ == "unknown pane"@,
                (Some(url), Ok(u)) => macos && u@ == url,
                (Some(_), Err(e)) => !macos && e.status == 400 && e.reason@ == "macos only"@,
                _ => false,
            },
        },
{
    let v = match body_object(body) {
        Ok(v) => v,
        Err(e) => {
            return Err(e);
        },
    };
    match open_privacy_pane(v.text_or_empty("which").as_str(), macos) {
        Ok(url) => Ok(url),
        Err(reason) => Err(Refusal { status: 400, reason }),
    }
}

/// A file that is put over HTTP: its name and what it holds, or why it is
/// refused.
pub open spec fn put_asked(body: Seq<u8>) -> Result<(Seq<char>, Seq<u8>), Seq<char>> {
    match object_refused(body_tree(body)) {
        Some(why) => Err(why),
        None => {
            let v = body_tree(body)->Some_0;
            let name = trimmed(text_or(v.text_at("name"@), Seq::empty()));
            if name.len() == 0 {
                Err("missing name"@)
            } else {
                match v.text_at("data"@) {
                    None => Err("missing data"@),
                    Some(d) => match base64_bytes(trimmed(d)) {
                        None => Err("invalid base64"@),
                        Some(b) => if b.len() > HTTP_PUT_MAX {
                            Err("file too large for HTTP; drop it on the live session instead"@)
                        } else {
                            Ok((name, b))
                        },
                    },
                }
            }
        },
    }
}

pub fn files_put_request(body: &[u8]) -> (r: Result<(String, Vec<u8>), Refusal>)
    ensures
        match put_asked(body@) {
            Ok(f) => r is Ok && r->Ok_0.0@ == f.0 && r->Ok_0.1@ == f.1,
            Err(why) => r is Err && r->Err_0.status == 400 && r->Err_0.reason@ == why,
        },
{
    let v = match body_object(body) {
        Ok(v) => v,
        Err(e) => {
            return Err(e);
        },
    };
    let name = trim(v.text_or_empty("name").as_str());
    if name.as_str().is_empty() {
        return Err(Refusal { status: 400, reason: "missing name" });
    }
    let data = match v.text_at("data") {
        None => {
            return Err(Refusal { status: 400, reason: "missing data" });
        },
        Some(d) => match decode_b64(d) {
            Ok(b) => b,
            Err(_) => {
                return Err(Refusal { status: 400, reason: "invalid base64" });
            },
        },
    };
    if data.len() as u64 > HTTP_PUT_MAX {
        return Err(
            Refusal {
                status: 400,
                reason: "file too large for HTTP; drop it on the live session instead",
            },
        );
    }
    Ok((name, data))
}

pub open spec fn kept_text(e: EntryFacts) -> Seq<char> {
    object_text(
        seq![
            ("name"@, quoted(e.name)),
            ("ok"@, truth_text(true)),
            ("size"@, decimal(e.size as nat)),
        ],
    )
}

/// What a file that was put is answered.
pub fn kept_json(e: &FileEntry) -> (s: String)
    ensures
        s@ == kept_text(e@),
{
    let v: Vec<(&str, String)> = vec![
        ("name", quote(e.name.as_str())),
        ("ok", truth(true)),
        ("size", decimal_text(e.size)),
    ];
    assert(pairs(v@) =~= seq![
        ("name"@, quoted(e@.name)),
        ("ok"@, truth_text(true)),
        ("size"@, decimal(e@.size as nat)),
    ]);
    object(&v)
}

/// The name of the file that a query asks to download.
pub fn download_name(query: &str) -> (r: Result<String, Refusal>)
    ensures
        match r {
            Ok(n) => n@ == last_value(form_of(query@), "name"@) && n@.len() > 0,
            Err(e) => last_value(form_of(query@), "name"@).len() == 0 && e.status == 400
                && e.reason@ == "missing name"@,
        },
{
    let name = query_value(query, "name");
    if name.as_str().is_empty() {
        return Err(Refusal { status: 400, reason: "missing name" });
    }
    Ok(name)
}

/// A text without its double quotes.
pub open spec fn unquoted(s: Seq<char>) -> Seq<char>
    decreases s.len(),
{
    if s.len() == 0 {
        Seq::empty()
    } else if s.last() == '"' {
        unquoted(s.drop_last())
    } else {
        unquoted(s.drop_last()).push(s.last())
    }
}

/// The header by which a browser saves a file under its name.
pub fn disposition(name: &str) -> (s: String)
    ensures
        s@ == "attachment; filename=\""@ + unquoted(name@) + "\""@,
{
    let v = chars_of(name);
    let mut s = "attachment; filename=\"".to_owned();
    let ghost head = s@;
    let mut i: usize = 0;
    assert(head + unquoted(name@.take(0)) =~= head);
    while i < v.len()
        invariant
            i <= v@.len(),
            v@ == name@,
            s@ == head + unquoted(name@.take(i as int)),
        decreases v@.len() - i,
    {
        assert(name@.take(i + 1).drop_last() =~= name@.take(i as int));
        if v[i] != '"' {
            s.push(v[i]);
        }
        assert(s@ =~= head + unquoted(name@.take(i + 1)));
        i += 1;
    }
    assert(name@.take(name@.len() as int) =~= name@);
    append(&mut s, "\"");
    s
}

pub open spec fn files_text(entries: Seq<EntryFacts>, dir: Seq<char>) -> Seq<char> {
    object_text(
        seq![
            ("dir"@, quoted(dir)),
            ("files"@, array_text(Seq::new(entries.len(), |i: int| entry_text(entries[i])))),
        ],
    )
}

/// The files of the inbox and where it is.
pub fn files_json(entries: &Vec<FileEntry>, dir: &str) -> (s: String)
    ensures
        s@ == files_text(entries_of(entries@), dir@),
{
    let items = entry_texts(entries);
    let v: Vec<(&str, String)> = vec![("dir", quote(dir)), ("files", array(&items))];
    let ghost e = entries_of(entries@);
    assert(texts(items@) =~= Seq::new(e.len(), |i: int| entry_text(e[i])));
    assert(pairs(v@) =~= seq![
        ("dir"@, quoted(dir@)),
        ("files"@, array_text(Seq::new(e.len(), |i: int| entry_text(e[i])))),
    ]);
    object(&v)
}

pub open spec fn text_or_null(s: Option<Seq<char>>) -> Seq<char> {
    match s {
        Some(t) => quoted(t),
        None => "null"@,
    }
}

fn quote_or_null(s: Option<&str>) -> (r: String)
    ensures
        r@ == text_or_null(opt(s)),
{
    match s {
        Some(t) => quote(t),
        None => "null".to_owned(),
    }
}

pub open spec fn recordings_text(entries: Seq<EntryFacts>, name: Option<Seq<char>>, dir: Seq<char>) -> Seq<
    char,
> {
    object_text(
        seq![
            ("dir"@, quoted(dir)),
            ("files"@, array_text(Seq::new(entries.len(), |i: int| entry_text(entries[i])))),
            ("name"@, text_or_null(name)),
            ("recording"@, truth_text(name is Some)),
        ],
    )
}

/// The recordings, the one under way, and where they are.
pub fn recordings_json(entries: &Vec<FileEntry>, name: Option<&str>, dir: &str) -> (s: String)
    ensures
        s@ == recordings_text(entries_of(entries@), opt(name), dir@),
{
    let items = entry_texts(entries);
    let v: Vec<(&str, String)> = vec![
        ("dir", quote(dir)),
        ("files", array(&items)),
        ("name", quote_or_null(name)),
        ("recording", truth(name.is_some())),
    ];
    let ghost e = entries_of(entries@);
    assert(texts(items@) =~= Seq::new(e.len(), |i: int| entry_text(e[i])));
    assert(pairs(v@) =~= seq![
        ("dir"@, quoted(dir@)),
        ("files"@, array_text(Seq::new(e.len(), |i: int| entry_text(e[i])))),
        ("name"@, text_or_null(opt(name))),
        ("recording"@, truth_text(opt(name) is Some)),
    ]);
    object(&v)
}

pub open spec fn audio_text(d: (Seq<char>, Seq<char>)) -> Seq<char> {
    object_text(seq![("id"@, quoted(d.0)), ("name"@, quoted(d.1))])
}

pub open spec fn audio_texts(ds: Seq<(Seq<char>, Seq<char>)>) -> Seq<Seq<char>> {
    Seq::new(ds.len(), |i: int| audio_text(ds[i]))
}

fn audio_json(d: &AudioDevice) -> (s: String)
    ensures
        s@ == audio_text((d.id@, d.name@)),
{
    let v: Vec<(&str, String)> = vec![
        ("id", quote(d.id.as_str())),
        ("name", quote(d.name.as_str())),
    ];
    assert(pairs(v@) =~= seq![("id"@, quoted(d.id@)), ("name"@, quoted(d.name@))]);
    object(&v)
}

/// The displays and the audio devices that were found.
pub fn devices_json(displays: &Vec<Device>, audio: &Vec<AudioDevice>) -> (s: String)
    ensures
        s@ == object_text(
            seq![
                ("audio"@, array_text(audio_texts(audio_names(audio@)))),
                ("displays"@, array_text(screen_texts(crate::device::devices(displays@)))),
            ],
        ),
{
    let ghost all = audio_texts(audio_names(audio@));
    let mut items: Vec<String> = Vec::new();
    let mut i: usize = 0;
    assert(texts(items@) =~= all.take(0));
    while i < audio.len()
        invariant
            i <= audio@.len() == all.len(),
            all == audio_texts(audio_names(audio@)),
            texts(items@) == all.take(i as int),
        decreases audio@.len() - i,
    {
        push_text(&mut items, audio_json(&audio[i]).as_str());
        assert(all.take(i + 1) =~= all.take(i as int).push(all[i as int]));
        i += 1;
    }
    assert(all.take(all.len() as int) =~= all);
    let v: Vec<(&str, String)> = vec![
        ("audio", array(&items)),
        ("displays", displays_json(displays)),
    ];
    assert(pairs(v@) =~= seq![
        ("audio"@, array_text(all)),
        ("displays"@, array_text(screen_texts(crate::device::devices(displays@)))),
    ]);
    object(&v)
}

pub open spec fn event_text(name: Seq<char>, data: Seq<char>) -> Seq<char> {
    "event: "@ + name + "\ndata: "@ + data + "\n\n"@
}

/// An event for the host's pages.
pub fn sse_pack(name: &str, data: &str) -> (s: String)
    ensures
        s@ == event_text(name@, data@),
{
    let mut s = concat2("event: ", name);
    append(&mut s, "\ndata: ");
    append(&mut s, data);
    append(&mut s, "\n\n");
    s
}

/// The name and the data of an event.
pub open spec fn event_parts(s: Seq<char>) -> Option<(Seq<char>, Seq<char>)> {
    if !begins(s, "event: "@) {
        None
    } else {
        let rest = s.skip(7);
        match first_at(rest, "\ndata: "@, 0) {
            Some(i) => Some((trimmed(rest.take(i)), trimmed(rest.skip(i + 7)))),
            None => Some((trimmed(rest), "{}"@)),
        }
    }
}

pub fn sse_parts(s: &str) -> (r: Option<(String, String)>)
    ensures
        match r {
            Some(p) => event_parts(s@) == Some((p.0@, p.1@)),
            None => event_parts(s@) is None,
        },
{
    if !starts_with(s, "event: ") {
        return None;
    }
    proof {
        reveal_strlit("event: ");
        reveal_strlit("\ndata: ");
        assert("event: "@.len() == 7 && "\ndata: "@.len() == 7);
    }
    let all = chars_of(s);
    let rest = slice_text(&all, 7, all.len());
    assert(rest@ =~= s@.skip(7));
    let chars = chars_of(rest.as_str());
    let mark = chars_of("\ndata: ");
    match find_from(chars.as_slice(), mark.as_slice(), 0) {
        Some(i) => {
            let name = slice_text(&chars, 0, i);
            let data = slice_text(&chars, i + 7, chars.len());
            assert(name@ =~= rest@.take(i as int));
            assert(data@ =~= rest@.skip(i + 7));
            Some((trim(name.as_str()), trim(data.as_str())))
        },
        None => Some((trim(rest.as_str()), "{}".to_owned())),
    }
}

proof fn mark_is_first(name: Seq<char>, tail: Seq<char>, from: int)
    requires
        0 <= from <= name.len(),
        forall|i: int| 0 <= i < name.len() ==> name[i] != '\n',
    ensures
        first_at(name + "\ndata: "@ + tail, "\ndata: "@, from) == Some(name.len() as int),
    decreases name.len() - from,
{
    reveal_strlit("\ndata: ");
    let p = "\ndata: "@;
    let s = name + p + tail;
    assert(p.len() == 7);
    if from < name.len() {
        assert(s.subrange(from, from + p.len())[0] == name[from]);
        assert(p[0] == '\n');
        mark_is_first(name, tail, from + 1);
    } else {
        assert(s.subrange(from, from + p.len()) =~= p);
    }
}

/// An event is read as it was written.
pub proof fn events_read_back(name: Seq<char>, data: Seq<char>)
    requires
        forall|i: int| 0 <= i < name.len() ==> name[i] != '\n',
        trimmed(name) == name,
        trimmed(data) == data,
    ensures
        event_parts(event_text(name, data)) == Some((name, data)),
{
    reveal_strlit("event: ");
    reveal_strlit("\ndata: ");
    reveal_strlit("\n\n");
    let tail = data + "\n\n"@;
    let s = event_text(name, data);
    assert(s.take(7) =~= "event: "@);
    let rest = name + "\ndata: "@ + tail;
    assert(s.skip(7) =~= rest);
    mark_is_first(name, tail, 0);
    assert(rest.take(name.len() as int) =~= name);
    assert(rest.skip(name.len() as int + 7) =~= tail);
    crate::text::trimmed_tail(data, '\n');
    crate::text::trimmed_tail(data.push('\n'), '\n');
    assert(tail =~= data.push('\n').push('\n'));
}

/// Publishing that begins anew, after a wake or at another endpoint, does not
/// wait for what failed before; new settings for the same endpoint leave the
/// wait as it is.
pub proof fn restart_forgets_the_wait(s: AppState, age: Option<u64>, c: ConfigFacts)
    ensures
        s.woken(age).1.len() > 0 ==> s.woken(age).0.publisher.backoff == SECOND,
        s.reconfigured(c).0.publisher.backoff == if publishes_anew(s.cfg, c) {
            SECOND as int
        } else {
            s.publisher.backoff
        },
{
}

proof fn paths_are_spelled()
    ensures
        "/stream.ws"@.len() == 10 && "/stream.mp4"@.len() == 11 && "/stream.mjpeg"@.len() == 13,
        "/api/computer-use"@.len() == 17,
        "/api/files"@.len() == 10 && "/api/files"@[5] == 'f',
        "/api/files/download"@.len() == 19,
        "/api/files/mkdir"@.len() == 16,
        "/api/files/rename"@.len() == 17 && "/api/files/rename"@[5] == 'f',
        "/api/files/copy"@.len() == 15 && "/api/files/copy"@[5] == 'f',
        "/api/computer-use"@[5] == 'c',
        "/stream.ws"@[1] == 's',
        "/stream.mp4"@[1] == 's',
        "/stream.mjpeg"@[1] == 's',
        "/"@.len() == 1,
        "/app.js"@.len() == 7,
        "/style.css"@.len() == 10 && "/style.css"@[1] == 's' && "/style.css"@[3] == 'y',
        "/stream.ws"@[3] == 'r',
        "/api/files"@[1] == 'a',
        "/api/otp/redeem"@.len() == 15 && "/api/otp/redeem"@[5] == 'o',
        "/api/login"@.len() == 10 && "/api/login"@[5] == 'l' && "/api/login"@[1] == 'a',
        "/api/config"@.len() == 11 && "/api/config"@[1] == 'a',
        "/api/status"@.len() == 11 && "/api/status"@[1] == 'a',
        "/api/otp"@.len() == 8,
{
    reveal_strlit("/stream.ws");
    reveal_strlit("/stream.mp4");
    reveal_strlit("/stream.mjpeg");
    reveal_strlit("/api/computer-use");
    reveal_strlit("/api/files");
    reveal_strlit("/api/files/download");
    reveal_strlit("/api/files/mkdir");
    reveal_strlit("/api/files/rename");
    reveal_strlit("/api/files/copy");
    reveal_strlit("/");
    reveal_strlit("/app.js");
    reveal_strlit("/style.css");
    reveal_strlit("/api/otp/redeem");
    reveal_strlit("/api/login");
    reveal_strlit("/api/config");
    reveal_strlit("/api/status");
    reveal_strlit("/api/otp");
}

/// Streams and tasks are for those who may watch, files for those who may while
/// control is on, and everything else for the host alone, but for the way in.
pub proof fn paths_have_their_keepers(path: Seq<char>)
    ensures
        path == "/stream.ws"@ || path == "/stream.mp4"@ || path == "/stream.mjpeg"@ || path
            == "/api/computer-use"@ ==> needed(path) is Watch,
        path == "/api/files"@ || path == "/api/files/download"@ || path == "/api/files/mkdir"@ || path
            == "/api/files/rename"@ || path == "/api/files/copy"@ ==> needed(path) is Files,
        path == "/api/config"@ || path == "/api/status"@ || path == "/api/otp"@ ==> needed(path) is Host,
        path == "/"@ || path == "/app.js"@ || path == "/style.css"@ || path == "/api/otp/redeem"@
            || path == "/api/login"@ ==> needed(path) is Nothing,
{
    paths_are_spelled();
}

/// The host's token opens every path; a live session opens those for watchers,
/// and those for files while control is on.
pub proof fn tokens_and_sessions_open_paths(
    s: AppState,
    path: Seq<char>,
    token: Seq<char>,
    session: Seq<char>,
    now: u64,
)
    ensures
        opens(token, s.cfg.token) ==> s.admits_to(path, token, session, now),
        s.otp.admits(session, now as int) && needed(path) is Watch ==> s.admits_to(
            path,
            token,
            session,
            now,
        ),
        s.otp.admits(session, now as int) && needed(path) is Files && s.cfg.control.enabled
            ==> s.admits_to(path, token, session, now),
        opens(token, s.cfg.token) ==> s.after_admission(path, token, session, now) == s,
{
}

/// Settings that are changed take hold at once: what is published to, captured,
/// allowed and told is as they say.
pub proof fn changed_settings_take_hold(s: AppState, c: ConfigFacts)
    ensures
        ({
            let (r, fx) = s.reconfigured(c);
            let moved = s.cfg.cloudflare.publish_url != c.cloudflare.publish_url
                || s.cfg.cloudflare.watch_url != c.cloudflare.watch_url;
            &&& r.cfg == c
            &&& r.publisher.url == c.cloudflare.publish_url && r.publisher.token == c.token
            &&& r.publisher.latest == s.publisher.latest
            &&& moved ==> fx.len() > 0 && fx[0] is RestartPublisher && r.publisher.backoff
                == 1_000_000_000
            &&& !moved ==> fx.len() > 0 && fx[0] == Fx::ApplyDisplay(c.capture.input)
            &&& c.access.unattended ==> r.otp.unattended == c.access.password_hash
            &&& !c.access.unattended ==> r.otp.unattended.len() == 0
            &&& c.capture.audio && c.control.voice ==> r.last_voice == s.last_voice
            &&& !(c.capture.audio && c.control.voice) ==> r.last_voice is None
            &&& fx.contains(Fx::ApplyDisplay(c.capture.input))
            &&& fx.contains(Fx::BlockLocal(c.control.block_local && s.controller is Some))
            &&& fx.contains(Fx::BlankScreen(c.control.blank_screen && s.controller is Some))
            &&& fx.contains(
                Fx::KeepAwake(
                    s.controller is Some || (c.control.keep_awake && (c.control.enabled
                        || c.access.unattended)),
                ),
            )
            &&& fx.contains(Fx::Announce)
            &&& !c.control.record_sessions ==> fx.contains(Fx::StopRecording)
            &&& c.control.record_sessions && s.controller is Some ==> fx.contains(Fx::StartRecording)
            &&& !(c.capture.audio && c.control.voice) ==> fx.contains(Fx::Duck(false))
            &&& s.cfg.encoder != c.encoder || !capture_agrees(s.cfg.capture, c.capture) ==> fx.last()
                is Recapture
            &&& s.cfg.encoder == c.encoder && capture_agrees(s.cfg.capture, c.capture) ==> fx.last()
                is Announce
        }),
{
    let (r, fx) = s.reconfigured(c);
    let e = publishes_anew(s.cfg, c);
    let n: int = if e {
        1
    } else {
        0
    };
    assert(fx[n] == Fx::ApplyDisplay(c.capture.input));
    assert(fx[n + 1] == Fx::BlockLocal(c.control.block_local && s.controller is Some));
    assert(fx[n + 2] == Fx::BlankScreen(c.control.blank_screen && s.controller is Some));
    assert(fx[n + 3] == Fx::KeepAwake(
        s.controller is Some || (c.control.keep_awake && (c.control.enabled
            || c.access.unattended)),
    ));
    let d: int = if !c.capture.audio || !c.control.voice {
        1
    } else {
        0
    };
    if d == 1 {
        assert(fx[n + 4] == Fx::Duck(false));
    }
    let k: int = if !c.control.record_sessions || s.controller is Some {
        1
    } else {
        0
    };
    if !c.control.record_sessions {
        assert(fx[n + 4 + d] is StopRecording);
    } else if s.controller is Some {
        assert(fx[n + 4 + d] is StartRecording);
    }
    assert(fx[n + 4 + d + k] is Announce);
}

/// A change of where it listens, or of the token, takes a restart; the answer
/// says so.
pub proof fn restarts_are_told(restart: bool)
    ensures
        tells(applied_text(restart), "applied"@, true),
        tells(applied_text(restart), "restart_required"@, restart),
        restart ==> has_part(
            applied_text(restart),
            shown("note"@, quoted("host/port/token changes take effect on restart"@)),
        ),
        !restart ==> has_part(applied_text(restart), shown("note"@, quoted(Seq::empty()))),
{
    let m = seq![
        ("applied"@, truth_text(true)),
        (
            "note"@,
            quoted(
                if restart {
                    "host/port/token changes take effect on restart"@
                } else {
                    Seq::empty()
                },
            ),
        ),
        ("restart_required"@, truth_text(restart)),
    ];
    object_shows(m, 0);
    object_shows(m, 1);
    object_shows(m, 2);
}

/// A restart is needed exactly where the host, the port or the token changes.
pub proof fn what_takes_a_restart(a: ConfigFacts, b: ConfigFacts)
    ensures
        a.host != b.host || a.port != b.port || a.token != b.token ==> binds_anew(a, b),
        !binds_anew(a, a),
        binds_anew(a, b) == binds_anew(b, a),
        a.host == b.host && a.port == b.port && a.token == b.token ==> !binds_anew(a, b),
{
}

/// The host is told the PIN, its digest, when it ends and in how many seconds.
pub proof fn the_host_is_told_the_pin(p: PinFacts, unix_ms: int)
    ensures
        ({
            let t = pin_text(p, unix_ms);
            &&& has_part(t, shown("pin"@, quoted(p.pin)))
            &&& has_part(t, shown("hash"@, quoted(p.hash)))
            &&& has_part(t, shown("exp"@, decimal(p.exp_unix_ms as nat)))
            &&& p.exp_unix_ms > unix_ms ==> has_part(
                t,
                shown("expires_in_s"@, decimal(((p.exp_unix_ms - unix_ms) / 1000) as nat)),
            )
            &&& p.exp_unix_ms <= unix_ms ==> has_part(t, shown("expires_in_s"@, seq!['0']))
        }),
{
    let left = if p.exp_unix_ms > unix_ms {
        p.exp_unix_ms - unix_ms
    } else {
        0
    };
    let m = seq![
        ("exp"@, decimal(p.exp_unix_ms as nat)),
        ("expires_in_s"@, decimal((left / 1000) as nat)),
        ("hash"@, quoted(p.hash)),
        ("pin"@, quoted(p.pin)),
    ];
    object_shows(m, 0);
    object_shows(m, 1);
    object_shows(m, 2);
    object_shows(m, 3);
    assert(decimal(0) =~= seq!['0']);
}

/// A text that a request must name is taken without white space around it;
/// without it, or where it is no text, the request is refused with the reason.
pub proof fn named_texts_are_taken(
    body: Seq<u8>,
    v: Tree,
    name: Seq<char>,
    t: Seq<char>,
    missing: Seq<char>,
    no_text: Seq<char>,
)
    requires
        body_tree(body) == Some(v),
        v is Obj,
    ensures
        v.get(name) == Some(Tree::Str(t)) && trimmed(t).len() > 0 ==> wanted(
            body,
            name,
            missing,
            no_text,
        ) == Ok::<Seq<char>, Seq<char>>(trimmed(t)),
        v.get(name) == Some(Tree::Str(t)) && trimmed(t).len() == 0 ==> wanted(
            body,
            name,
            missing,
            no_text,
        ) == Err::<Seq<char>, Seq<char>>(missing),
        v.get(name) is None ==> wanted(body, name, missing, no_text) == Err::<
            Seq<char>,
            Seq<char>,
        >(missing),
        v.get(name) == Some(Tree::Null) ==> wanted(body, name, missing, no_text) == Err::<
            Seq<char>,
            Seq<char>,
        >(no_text),
{
}

/// A body is read as UTF-8 and as JSON; one that is no object is refused.
pub proof fn bodies_are_read(text: Seq<char>, v: Tree)
    ensures
        body_tree(encode_utf8(text)) == parsed(text),
        v is Obj ==> object_refused(Some(v)) is None,
        !(v is Obj) ==> object_refused(Some(v)) == Some("expected JSON object"@),
        object_refused(None) == Some("invalid JSON body"@),
{
    encode_utf8_valid_utf8(text);
    encode_utf8_decode_utf8(text);
}

/// A session is granted for a day, under its token.
pub proof fn sessions_are_granted_for_a_day(token: Seq<char>)
    ensures
        has_part(session_body(token), shown("session"@, quoted(token))),
        has_part(session_body(token), shown("expires_in_s"@, seq!['8', '6', '4', '0', '0'])),
{
    reveal_with_fuel(decimal, 6);
    assert(decimal(86400) =~= seq!['8', '6', '4', '0', '0']);
    let m = seq![
        ("expires_in_s"@, decimal((SESSION_TTL / 1_000_000_000) as nat)),
        ("session"@, quoted(token)),
    ];
    object_shows(m, 0);
    object_shows(m, 1);
}

/// A file that is uploaded is taken under its name with the bytes that it
/// spells, up to eight mebibytes.
pub proof fn uploads_are_taken(body: Seq<u8>, v: Tree, name: Seq<char>, data: Seq<char>, b: Seq<u8>)
    requires
        body_tree(body) == Some(v),
        v is Obj,
        v.get("name"@) == Some(Tree::Str(name)),
        trimmed(name).len() > 0,
    ensures
        v.get("data"@) == Some(Tree::Str(data)) && base64_bytes(trimmed(data)) == Some(b) && b.len()
            <= 8_388_608 ==> put_asked(body) == Ok::<(Seq<char>, Seq<u8>), Seq<char>>(
            (trimmed(name), b),
        ),
        v.get("data"@) == Some(Tree::Str(data)) && base64_bytes(trimmed(data)) == Some(b) && b.len()
            > 8_388_608 ==> put_asked(body) is Err,
        v.get("data"@) is None ==> put_asked(body) == Err::<(Seq<char>, Seq<u8>), Seq<char>>(
            "missing data"@,
        ),
        v.get("data"@) == Some(Tree::Str(data)) && base64_bytes(trimmed(data)) is None ==> put_asked(
            body,
        ) == Err::<(Seq<char>, Seq<u8>), Seq<char>>("invalid base64"@),
{
}

/// Answers about files, recordings, sound devices and errors hold what they are
/// about.
pub proof fn answers_hold_what_they_are_about(
    e: EntryFacts,
    entries: Seq<EntryFacts>,
    name: Option<Seq<char>>,
    dir: Seq<char>,
    d: (Seq<char>, Seq<char>),
    reason: Seq<char>,
)
    ensures
        ({
            let k = kept_text(e);
            let f = files_text(entries, dir);
            let r = recordings_text(entries, name, dir);
            let list = array_text(Seq::new(entries.len(), |i: int| entry_text(entries[i])));
            &&& has_part(k, shown("name"@, quoted(e.name))) && tells(k, "ok"@, true) && has_part(
                k,
                shown("size"@, decimal(e.size as nat)),
            )
            &&& has_part(f, shown("dir"@, quoted(dir))) && has_part(f, shown("files"@, list))
            &&& has_part(r, shown("dir"@, quoted(dir))) && has_part(r, shown("files"@, list))
            &&& tells(r, "recording"@, name is Some)
            &&& name matches Some(n) ==> has_part(r, shown("name"@, quoted(n)))
            &&& name is None ==> has_part(r, shown("name"@, "null"@))
            &&& has_part(audio_text(d), shown("id"@, quoted(d.0))) && has_part(
                audio_text(d),
                shown("name"@, quoted(d.1)),
            )
            &&& has_part(error_body(reason), shown("error"@, quoted(reason)))
        }),
{
    let list = array_text(Seq::new(entries.len(), |i: int| entry_text(entries[i])));
    let k = seq![
        ("name"@, quoted(e.name)),
        ("ok"@, truth_text(true)),
        ("size"@, decimal(e.size as nat)),
    ];
    object_shows(k, 0);
    object_shows(k, 1);
    object_shows(k, 2);
    let f = seq![("dir"@, quoted(dir)), ("files"@, list)];
    object_shows(f, 0);
    object_shows(f, 1);
    let r = seq![
        ("dir"@, quoted(dir)),
        ("files"@, list),
        ("name"@, text_or_null(name)),
        ("recording"@, truth_text(name is Some)),
    ];
    object_shows(r, 0);
    object_shows(r, 1);
    object_shows(r, 2);
    object_shows(r, 3);
    let a = seq![("id"@, quoted(d.0)), ("name"@, quoted(d.1))];
    object_shows(a, 0);
    object_shows(a, 1);
    let x = seq![("error"@, quoted(reason))];
    object_shows(x, 0);
}

/// A name in a header loses its quotes and nothing else.
pub proof fn quotes_are_left_out(s: Seq<char>, c: char)
    ensures
        c == '"' ==> unquoted(s.push(c)) == unquoted(s),
        c != '"' ==> unquoted(s.push(c)) == unquoted(s).push(c),
        unquoted(Seq::empty()) == Seq::<char>::empty(),
{
    assert(s.push(c).drop_last() =~= s);
}

/// An event names itself on one line and holds its data on the next, and an
/// empty line ends it.
pub proof fn events_stand_on_two_lines(name: Seq<char>, data: Seq<char>)
    ensures
        event_text(name, data) == "event: "@ + name + seq!['\n'] + "data: "@ + data + seq!['\n', '\n'],
{
    reveal_strlit("\ndata: ");
    reveal_strlit("data: ");
    reveal_strlit("\n\n");
    assert("\ndata: "@ =~= seq!['\n'] + "data: "@);
    assert("\n\n"@ =~= seq!['\n', '\n']);
    assert(event_text(name, data) =~= "event: "@ + name + seq!['\n'] + "data: "@ + data + seq![
        '\n',
        '\n',
    ]);
}

} // verus!
