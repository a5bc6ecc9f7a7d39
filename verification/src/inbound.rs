//! What each message from a watcher leads to.

use crate::b64::{base64_bytes, decode_b64};
use crate::chat::{
    already_attributed, attributed, chat_from, chat_json, chat_text, clamp_chat, clamped, newest,
    push_history, sender,
};
use crate::config::{
    apply_quality_preset, preset_of, quality_preset, under_preset, ConfigFacts,
};
use crate::device::Device;
use crate::encoder::{capture_wants_audio, wants_audio};
use crate::files::{ask_of, handle_message};
use crate::input::{control_act, parse_control_json, Act, Action, Screen};
use crate::json::{
    array, array_text, object, object_shows, object_text, or, pairs, parsed, quote, quoted, shown,
    tells, text_or, truth, truth_text, Json, Tree,
};
use crate::server::{emit, fxs, png_step, App, AppState, Effect, Fx};
use crate::text::{
    decimal, decimal_text, has_part, push_text, same, signed_decimal, signed_text, texts, trim,
    trimmed,
};
use crate::voice::{accept_pcm, clamp_rate, playable, rate_of, should_duck_mic};
use vstd::prelude::*;

verus! {

pub open spec fn otp_text(hash: Seq<char>, exp: nat, unattended: Seq<char>) -> Seq<char> {
    object_text(
        seq![
            ("exp"@, decimal(exp)),
            ("hash"@, quoted(hash)),
            ("type"@, quoted("otp"@)),
            ("unattended"@, quoted(unattended)),
        ],
    )
}

fn otp_wire(hash: &str, exp: u64, unattended: &str) -> (s: String)
    ensures
        s@ == otp_text(hash@, exp as nat, unattended@),
{
    let v: Vec<(&str, String)> = vec![
        ("exp", decimal_text(exp)),
        ("hash", quote(hash)),
        ("type", quote("otp")),
        ("unattended", quote(unattended)),
    ];
    assert(pairs(v@) =~= seq![
        ("exp"@, decimal(exp as nat)),
        ("hash"@, quoted(hash@)),
        ("type"@, quoted("otp"@)),
        ("unattended"@, quoted(unattended@)),
    ]);
    object(&v)
}

/// A display with its members in alphabetical order.
pub open spec fn screen_text(d: Screen) -> Seq<char> {
    object_text(
        seq![
            ("height"@, decimal(d.height as nat)),
            ("id"@, quoted(d.id)),
            ("main"@, truth_text(d.main)),
            ("name"@, quoted(d.name)),
            ("width"@, decimal(d.width as nat)),
            ("x"@, signed_decimal(d.x as int)),
            ("y"@, signed_decimal(d.y as int)),
        ],
    )
}

fn screen_json(d: &Device) -> (s: String)
    ensures
        s@ == screen_text(d@),
{
    let v: Vec<(&str, String)> = vec![
        ("height", decimal_text(d.height as u64)),
        ("id", quote(d.id.as_str())),
        ("main", truth(d.main)),
        ("name", quote(d.name.as_str())),
        ("width", decimal_text(d.width as u64)),
        ("x", signed_text(d.x as i64)),
        ("y", signed_text(d.y as i64)),
    ];
    assert(pairs(v@) =~= seq![
        ("height"@, decimal(d@.height as nat)),
        ("id"@, quoted(d@.id)),
        ("main"@, truth_text(d@.main)),
        ("name"@, quoted(d@.name)),
        ("width"@, decimal(d@.width as nat)),
        ("x"@, signed_decimal(d@.x as int)),
        ("y"@, signed_decimal(d@.y as int)),
    ]);
    object(&v)
}

/// A display with its members in the order in which it is declared.
pub open spec fn catalog_entry(d: Screen) -> Seq<char> {
    object_text(
        seq![
            ("id"@, quoted(d.id)),
            ("name"@, quoted(d.name)),
            ("x"@, signed_decimal(d.x as int)),
            ("y"@, signed_decimal(d.y as int)),
            ("width"@, decimal(d.width as nat)),
            ("height"@, decimal(d.height as nat)),
            ("main"@, truth_text(d.main)),
        ],
    )
}

fn catalog_json(d: &Device) -> (s: String)
    ensures
        s@ == catalog_entry(d@),
{
    let v: Vec<(&str, String)> = vec![
        ("id", quote(d.id.as_str())),
        ("name", quote(d.name.as_str())),
        ("x", signed_text(d.x as i64)),
        ("y", signed_text(d.y as i64)),
        ("width", decimal_text(d.width as u64)),
        ("height", decimal_text(d.height as u64)),
        ("main", truth(d.main)),
    ];
    assert(pairs(v@) =~= seq![
        ("id"@, quoted(d@.id)),
        ("name"@, quoted(d@.name)),
        ("x"@, signed_decimal(d@.x as int)),
        ("y"@, signed_decimal(d@.y as int)),
        ("width"@, decimal(d@.width as nat)),
        ("height"@, decimal(d@.height as nat)),
        ("main"@, truth_text(d@.main)),
    ]);
    object(&v)
}

pub open spec fn screen_texts(ds: Seq<Screen>) -> Seq<Seq<char>> {
    Seq::new(ds.len(), |i: int| screen_text(ds[i]))
}

pub open spec fn catalog(ds: Seq<Screen>) -> Seq<Seq<char>> {
    Seq::new(ds.len(), |i: int| catalog_entry(ds[i]))
}

/// The displays as JSON.
pub fn displays_json(ds: &Vec<Device>) -> (s: String)
    ensures
        s@ == array_text(screen_texts(crate::device::devices(ds@))),
{
    let ghost all = screen_texts(crate::device::devices(ds@));
    let mut items: Vec<String> = Vec::new();
    let mut i: usize = 0;
    assert(texts(items@) =~= all.take(0));
    while i < ds.len()
        invariant
            i <= ds@.len() == all.len(),
            all == screen_texts(crate::device::devices(ds@)),
            texts(items@) == all.take(i as int),
        decreases ds@.len() - i,
    {
        push_text(&mut items, screen_json(&ds[i]).as_str());
        assert(all.take(i + 1) =~= all.take(i as int).push(all[i as int]));
        i += 1;
    }
    assert(all.take(all.len() as int) =~= all);
    array(&items)
}

pub(crate) fn catalog_text(ds: &Vec<Device>) -> (s: String)
    ensures
        s@ == array_text(catalog(crate::device::devices(ds@))),
{
    let ghost all = catalog(crate::device::devices(ds@));
    let mut items: Vec<String> = Vec::new();
    let mut i: usize = 0;
    assert(texts(items@) =~= all.take(0));
    while i < ds.len()
        invariant
            i <= ds@.len() == all.len(),
            all == catalog(crate::device::devices(ds@)),
            texts(items@) == all.take(i as int),
        decreases ds@.len() - i,
    {
        push_text(&mut items, catalog_json(&ds[i]).as_str());
        assert(all.take(i + 1) =~= all.take(i as int).push(all[i as int]));
        i += 1;
    }
    assert(all.take(all.len() as int) =~= all);
    array(&items)
}

/// What the other end is told about what is allowed and shown.
pub open spec fn flags_text(c: ConfigFacts, audio: bool, ds: Seq<Screen>) -> Seq<char> {
    object_text(
        seq![
            ("ai"@, truth_text(c.control.ai_enabled)),
            ("audio"@, truth_text(audio)),
            ("bitrate_kbps"@, decimal(c.encoder.bitrate_kbps as nat)),
            ("control"@, truth_text(c.control.enabled)),
            ("display"@, quoted(c.capture.input)),
            ("displays"@, array_text(screen_texts(ds))),
            ("preset"@, quoted(preset_of(c))),
            ("scale"@, c.capture.scale.text),
            ("type"@, quoted("flags"@)),
            ("voice"@, truth_text(c.control.voice)),
        ],
    )
}

impl AppState {
    /// The messages that say which PIN is in force, if any is.
    pub open spec fn pin_messages(self, now: int) -> Seq<Seq<char>> {
        match self.otp.live_pin(now) {
            Some(p) => seq![otp_text(p.hash, p.exp_unix_ms as nat, self.otp.unattended)],
            None => if self.otp.unattended.len() > 0 {
                seq![otp_text(Seq::empty(), 0, self.otp.unattended)]
            } else {
                Seq::empty()
            },
        }
    }

    pub open spec fn wired_all(self, msgs: Seq<Seq<char>>) -> (AppState, Seq<Fx>)
        decreases msgs.len(),
    {
        if msgs.len() == 0 {
            (self, Seq::empty())
        } else {
            let r = self.wired_all(msgs.drop_last());
            (r.0.wired(msgs.last()), r.1.push(Fx::Wire(msgs.last())))
        }
    }

    /// The PIN and the flags are published.
    pub open spec fn announced(self, now: int, sysname: Seq<char>) -> (AppState, Seq<Fx>) {
        self.wired_all(
            self.pin_messages(now).push(
                flags_text(self.cfg, wants_audio(self.cfg, sysname), self.displays),
            ),
        )
    }

    /// A chat message is kept, shown, and handed on unless it was handed on
    /// before.
    pub open spec fn chatted(self, v: Tree, now_ms: u64) -> (AppState, Seq<Fx>) {
        let text = clamped(text_or(v.text_at("text"@), Seq::empty()));
        let from = v.text_at("from"@);
        let session = text_or(v.text_at("session"@), Seq::empty());
        let msg = chat_text(text, sender(from, session), or(v.whole_at("ts"@), now_ms));
        if text.len() == 0 {
            (self, Seq::empty())
        } else {
            let s = AppState { chat: newest(self.chat.push(msg)), ..self };
            if attributed(from) {
                (s, seq![Fx::Tell(msg)])
            } else {
                (s.wired(msg), seq![Fx::Tell(msg), Fx::Wire(msg)])
            }
        }
    }

    /// A watcher speaks: the sound is played, and the microphone muted while
    /// it is, where it would be heard again.
    pub open spec fn spoken(self, v: Tree, now: u64) -> (AppState, Seq<Fx>) {
        let t = match v.get("pcm"@) {
            Some(x) => x.text(),
            None => v.text_at("data"@),
        };
        let raw = base64_bytes(trimmed(text_or(t, Seq::empty())));
        let rate = rate_of(or(v.whole_at("rate"@), 0) as u32);
        if !self.cfg.control.voice {
            (self, Seq::empty())
        } else {
            match raw {
                Some(pcm) => if playable(pcm) {
                    if self.cfg.capture.audio {
                        (
                            AppState { last_voice: Some(now), ..self },
                            seq![Fx::Duck(true), Fx::Play { pcm, rate }],
                        )
                    } else {
                        (self, seq![Fx::Play { pcm, rate }])
                    }
                } else {
                    (self, Seq::empty())
                },
                None => (self, Seq::empty()),
            }
        }
    }

    /// A quality preset is put in force.
    pub open spec fn tuned_to(self, preset: Seq<char>) -> (AppState, Seq<Fx>) {
        match under_preset(self.cfg, preset) {
            Some(c) => (
                AppState { cfg: c, ..self },
                seq![Fx::Recapture, Fx::Announce, Fx::Status],
            ),
            None => (self, Seq::empty()),
        }
    }

    /// Another display is captured.
    pub open spec fn shown_on(self, raw: Seq<char>) -> (AppState, Seq<Fx>) {
        let id = trimmed(raw);
        if id.len() == 0 {
            (self, Seq::empty())
        } else if self.cfg.capture.input == id {
            (self, seq![Fx::ApplyDisplay(id), Fx::Announce])
        } else {
            (
                AppState {
                    cfg: ConfigFacts {
                        capture: crate::config::CaptureFacts { input: id, ..self.cfg.capture },
                        ..self.cfg
                    },
                    ..self
                },
                seq![Fx::SaveConfig, Fx::ApplyDisplay(id), Fx::Recapture, Fx::Announce],
            )
        }
    }

    /// An action is injected, and what it puts on the clipboard is shared.
    pub open spec fn acted(self, a: Act) -> (AppState, Seq<Fx>) {
        let r = self.clipped(a);
        (r.0, seq![Fx::Inject(a)] + r.1)
    }

    /// A control message from the session that drives.
    pub open spec fn controlled(self, v: Tree) -> (AppState, Seq<Fx>) {
        let step = png_step(self.png, v);
        let s = AppState { png: step.0, ..self };
        match step.1 {
            Some(Some(png)) => s.acted(Act::ClipboardPng { png }),
            Some(None) => (s, Seq::empty()),
            None => match control_act(v) {
                Some(a) => {
                    let r = s.acted(a);
                    (
                        r.0,
                        r.1 + (if a.copies() {
                            seq![Fx::PollClipboard]
                        } else {
                            Seq::empty()
                        }),
                    )
                },
                None => (s, Seq::empty()),
            },
        }
    }

    /// What a message from a watcher leads to. Without the permission that it
    /// needs, nothing.
    pub open spec fn received(self, v: Tree, now: u64, now_ms: u64) -> (AppState, Seq<Fx>) {
        let kind = text_or(v.text_at("type"@), Seq::empty());
        let control = self.cfg.control.enabled;
        if kind == "control"@ {
            let session = text_or(v.text_at("session"@), Seq::empty());
            if !control {
                (self, Seq::empty())
            } else {
                let t = self.taken(session);
                if self.may_drive(session) {
                    let r = t.0.controlled(v);
                    (r.0, t.1 + r.1)
                } else {
                    t
                }
            }
        } else if kind == "computer-use"@ {
            if self.cfg.control.ai_enabled {
                (self, seq![Fx::RunTask(text_or(v.text_at("task"@), Seq::empty()))])
            } else {
                (self, Seq::empty())
            }
        } else if kind == "file"@ {
            if !control {
                (self, Seq::empty())
            } else if text_or(v.text_at("action"@), Seq::empty()) == "get"@ {
                (self, seq![Fx::SendFile(text_or(v.text_at("name"@), Seq::empty()))])
            } else {
                (self, seq![Fx::File(ask_of(v))])
            }
        } else if kind == "display"@ {
            if control {
                let id = match v.text_at("id"@) {
                    Some(s) => s,
                    None => text_or(v.text_at("input"@), Seq::empty()),
                };
                self.shown_on(id)
            } else {
                (self, Seq::empty())
            }
        } else if kind == "revoke"@ {
            self.ended(true)
        } else if kind == "quality"@ {
            self.tuned_to(text_or(v.text_at("preset"@), Seq::empty()))
        } else if kind == "voice"@ {
            self.spoken(v, now)
        } else if kind == "chat"@ {
            self.chatted(v, now_ms)
        } else {
            (self, Seq::empty())
        }
    }
}

impl App {
    /// Publishes the PIN and the flags as they are.
    pub fn push_otp_wire(&mut self, now: u64, sysname: &str, out: &mut Vec<Effect>)
        ensures
            final(self)@ == old(self)@.announced(now as int, sysname@).0,
            fxs(final(out)@) == fxs(old(out)@) + old(self)@.announced(now as int, sysname@).1,
    {
        let ghost st = self@;
        let ghost before = fxs(out@);
        let ghost pins = st.pin_messages(now as int);
        let unattended = self.otp.unattended_hash();
        match self.otp.wire_payload(now) {
            Some((hash, exp)) => {
                self.wire(otp_wire(hash.as_str(), exp, unattended.as_str()), out);
            },
            None => {
                if !unattended.as_str().is_empty() {
                    proof {
                        reveal_strlit("");
                        assert(""@ =~= Seq::<char>::empty());
                    }
                    self.wire(otp_wire("", 0, unattended.as_str()), out);
                }
            },
        }
        proof {
            let none = Seq::<Seq<char>>::empty();
            assert(st.wired_all(none) == (st, Seq::<Fx>::empty()));
            if pins.len() == 1 {
                assert(pins.drop_last() =~= none);
                assert(st.wired_all(pins).1 =~= seq![Fx::Wire(pins[0])]);
                assert(fxs(out@) =~= before + st.wired_all(pins).1);
            } else {
                assert(pins =~= none);
                assert(fxs(out@) =~= before + st.wired_all(pins).1);
            }
            assert(self@ == st.wired_all(pins).0);
        }
        let audio = capture_wants_audio(&self.cfg, sysname);
        let v: Vec<(&str, String)> = vec![
            ("ai", truth(self.cfg.control.ai_enabled)),
            ("audio", truth(audio)),
            ("bitrate_kbps", decimal_text(self.cfg.encoder.bitrate_kbps as u64)),
            ("control", truth(self.cfg.control.enabled)),
            ("display", quote(self.cfg.capture.input.as_str())),
            ("displays", displays_json(&self.displays)),
            ("preset", quote(quality_preset(&self.cfg))),
            ("scale", self.cfg.capture.scale.text.clone()),
            ("type", quote("flags")),
            ("voice", truth(self.cfg.control.voice)),
        ];
        proof {
            assert(self@.cfg == st.cfg && self@.displays == st.displays);
            assert(pairs(v@) =~= seq![
                ("ai"@, truth_text(st.cfg.control.ai_enabled)),
                ("audio"@, truth_text(wants_audio(st.cfg, sysname@))),
                ("bitrate_kbps"@, decimal(st.cfg.encoder.bitrate_kbps as nat)),
                ("control"@, truth_text(st.cfg.control.enabled)),
                ("display"@, quoted(st.cfg.capture.input)),
                ("displays"@, array_text(screen_texts(st.displays))),
                ("preset"@, quoted(preset_of(st.cfg))),
                ("scale"@, st.cfg.capture.scale.text),
                ("type"@, quoted("flags"@)),
                ("voice"@, truth_text(st.cfg.control.voice)),
            ]);
        }
        let flags = object(&v);
        self.wire(flags, out);
        proof {
            let all = pins.push(flags@);
            assert(all.drop_last() =~= pins);
            assert(fxs(out@) =~= before + st.wired_all(all).1);
        }
    }

    pub fn handle_chat(&mut self, v: &Json, now_ms: u64, out: &mut Vec<Effect>)
        ensures
            final(self)@ == old(self)@.chatted(v.tree(), now_ms).0,
            fxs(final(out)@) == fxs(old(out)@) + old(self)@.chatted(v.tree(), now_ms).1,
    {
        let ghost st = self@;
        let ghost before = fxs(out@);
        let text = clamp_chat(v.text_or_empty("text").as_str());
        if text.as_str().is_empty() {
            assert(before + Seq::<Fx>::empty() =~= before);
            return;
        }
        let claimed = v.text_at("from");
        let session = v.text_or_empty("session");
        let from = chat_from(claimed, session.as_str());
        let relay = !already_attributed(claimed);
        let ts: u64 = match v.whole_at("ts") {
            Some(n) => n,
            None => now_ms,
        };
        let msg = chat_json(text.as_str(), from, ts);
        push_history(&mut self.chat_log, msg.clone());
        assert(self@ =~= (AppState { chat: newest(st.chat.push(msg@)), ..st }));
        emit(out, Effect::Tell(msg.clone()));
        if relay {
            self.wire(msg, out);
            assert(fxs(out@) =~= before + seq![Fx::Tell(msg@), Fx::Wire(msg@)]);
        } else {
            assert(fxs(out@) =~= before + seq![Fx::Tell(msg@)]);
        }
    }

    fn handle_voice(&mut self, v: &Json, now: u64, out: &mut Vec<Effect>)
        ensures
            final(self)@ == old(self)@.spoken(v.tree(), now).0,
            fxs(final(out)@) == fxs(old(out)@) + old(self)@.spoken(v.tree(), now).1,
    {
        let ghost st = self@;
        let ghost before = fxs(out@);
        assert(before + Seq::<Fx>::empty() =~= before);
        if !self.cfg.control.voice {
            return;
        }
        let b64 = match v.get("pcm") {
            Some(x) => match x.as_text() {
                Some(s) => s.to_owned(),
                None => String::new(),
            },
            None => v.text_or_empty("data"),
        };
        let raw = match decode_b64(b64.as_str()) {
            Ok(b) => b,
            Err(_) => {
                return;
            },
        };
        let pcm = match accept_pcm(raw) {
            Some(p) => p,
            None => {
                return;
            },
        };
        let rate: u64 = match v.whole_at("rate") {
            Some(n) => n,
            None => 0,
        };
        let ghost sound = pcm@;
        let played = clamp_rate(rate as u32);
        if should_duck_mic(self.cfg.capture.audio) {
            emit(out, Effect::Duck(true));
            self.last_voice = Some(now);
            emit(out, Effect::Play { pcm, rate: played });
            assert(fxs(out@) =~= before + seq![
                Fx::Duck(true),
                Fx::Play { pcm: sound, rate: played },
            ]);
            assert(self@ =~= (AppState { last_voice: Some(now), ..st }));
        } else {
            emit(out, Effect::Play { pcm, rate: played });
            assert(fxs(out@) =~= before + seq![Fx::Play { pcm: sound, rate: played }]);
        }
    }

    pub fn apply_quality(&mut self, preset: &str, out: &mut Vec<Effect>)
        ensures
            final(self)@ == old(self)@.tuned_to(preset@).0,
            fxs(final(out)@) == fxs(old(out)@) + old(self)@.tuned_to(preset@).1,
    {
        let ghost before = fxs(out@);
        if !apply_quality_preset(&mut self.cfg, preset) {
            assert(before + Seq::<Fx>::empty() =~= before);
            assert(self@ =~= old(self)@);
            return;
        }
        emit(out, Effect::Recapture);
        emit(out, Effect::Announce);
        emit(out, Effect::Status);
        assert(fxs(out@) =~= before + seq![Fx::Recapture, Fx::Announce, Fx::Status]);
        assert(self@ =~= old(self)@.tuned_to(preset@).0);
    }

    pub fn select_display(&mut self, id: &str, out: &mut Vec<Effect>)
        ensures
            final(self)@ == old(self)@.shown_on(id@).0,
            fxs(final(out)@) == fxs(old(out)@) + old(self)@.shown_on(id@).1,
    {
        let ghost before = fxs(out@);
        let ghost raw = id@;
        let id = trim(id);
        if id.as_str().is_empty() {
            assert(before + Seq::<Fx>::empty() =~= before);
            return;
        }
        if same(self.cfg.capture.input.as_str(), id.as_str()) {
            emit(out, Effect::ApplyDisplay(id.clone()));
            emit(out, Effect::Announce);
            assert(fxs(out@) =~= before + seq![Fx::ApplyDisplay(id@), Fx::Announce]);
            return;
        }
        self.cfg.capture.input = id.clone();
        emit(out, Effect::SaveConfig);
        emit(out, Effect::ApplyDisplay(id));
        emit(out, Effect::Recapture);
        emit(out, Effect::Announce);
        assert(fxs(out@) =~= before + seq![
            Fx::SaveConfig,
            Fx::ApplyDisplay(id@),
            Fx::Recapture,
            Fx::Announce,
        ]);
        assert(self@ =~= old(self)@.shown_on(raw).0);
    }

    fn act(&mut self, a: Action, out: &mut Vec<Effect>)
        ensures
            final(self)@ == old(self)@.acted(a@).0,
            fxs(final(out)@) == fxs(old(out)@) + old(self)@.acted(a@).1,
    {
        let ghost before = fxs(out@);
        emit(out, Effect::Inject(a.copy()));
        self.fanout_clipboard_action(&a, out);
        assert(fxs(out@) =~= before + old(self)@.acted(a@).1);
    }

    fn handle_control(&mut self, v: &Json, out: &mut Vec<Effect>)
        ensures
            final(self)@ == old(self)@.controlled(v.tree()).0,
            fxs(final(out)@) == fxs(old(out)@) + old(self)@.controlled(v.tree()).1,
    {
        let ghost before = fxs(out@);
        assert(before + Seq::<Fx>::empty() =~= before);
        match self.ingest_clip_png(v) {
            Some(Some(png)) => {
                self.act(Action::ClipboardPng { png }, out);
            },
            Some(None) => {},
            None => {
                match parse_control_json(v) {
                    Some(a) => {
                        let copies = a.requests_clipboard_read();
                        self.act(a, out);
                        if copies {
                            let ghost there = fxs(out@);
                            emit(out, Effect::PollClipboard);
                            assert(fxs(out@) =~= there + seq![Fx::PollClipboard]);
                        }
                        assert(fxs(out@) =~= before + old(self)@.controlled(v.tree()).1);
                    },
                    None => {},
                }
            },
        }
    }

    /// A message from a watcher, as a JSON value.
    pub fn handle_inbound(&mut self, v: &Json, now: u64, now_ms: u64, out: &mut Vec<Effect>)
        ensures
            final(self)@ == old(self)@.received(v.tree(), now, now_ms).0,
            fxs(final(out)@) == fxs(old(out)@) + old(self)@.received(v.tree(), now, now_ms).1,
    {
        let ghost before = fxs(out@);
        let ghost st = self@;
        assert(before + Seq::<Fx>::empty() =~= before);
        let word = v.text_or_empty("type");
        let ty = word.as_str();
        let control = self.cfg.control.enabled;
        if same(ty, "control") {
            if !control {
                return;
            }
            let session = v.text_or_empty("session");
            let ok = self.take_controller(session.as_str(), out);
            if !ok {
                return;
            }
            self.handle_control(v, out);
            assert(fxs(out@) =~= before + st.received(v.tree(), now, now_ms).1);
        } else if same(ty, "computer-use") {
            if !self.cfg.control.ai_enabled {
                return;
            }
            let task = v.text_or_empty("task");
            emit(out, Effect::RunTask(task));
            assert(fxs(out@) =~= before + seq![Fx::RunTask(task@)]);
        } else if same(ty, "file") {
            if !control {
                return;
            }
            if same(v.text_or_empty("action").as_str(), "get") {
                let name = v.text_or_empty("name");
                emit(out, Effect::SendFile(name));
                assert(fxs(out@) =~= before + seq![Fx::SendFile(name@)]);
            } else {
                emit(out, Effect::File(handle_message(v)));
                assert(fxs(out@) =~= before + seq![Fx::File(ask_of(v.tree()))]);
            }
        } else if same(ty, "display") {
            if !control {
                return;
            }
            let id = match v.text_at("id") {
                Some(s) => s.to_owned(),
                None => v.text_or_empty("input"),
            };
            self.select_display(id.as_str(), out);
        } else if same(ty, "revoke") {
            self.end_remote_session(out);
        } else if same(ty, "quality") {
            self.apply_quality(v.text_or_empty("preset").as_str(), out);
        } else if same(ty, "voice") {
            self.handle_voice(v, now, out);
        } else if same(ty, "chat") {
            self.handle_chat(v, now_ms, out);
        }
    }

    /// A message from a watcher; one that is no JSON leads to nothing.
    pub fn handle_inbound_json(&mut self, msg: &str, now: u64, now_ms: u64, out: &mut Vec<Effect>)
        ensures
            ({
                let r = match parsed(msg@) {
                    Some(v) => old(self)@.received(v, now, now_ms),
                    None => (old(self)@, Seq::empty()),
                };
                &&& final(self)@ == r.0
                &&& fxs(final(out)@) == fxs(old(out)@) + r.1
            }),
    {
        match Json::parse(msg) {
            Some(v) => self.handle_inbound(&v, now, now_ms, out),
            None => {
                assert(fxs(out@) + Seq::<Fx>::empty() =~= fxs(out@));
            },
        }
    }
}

/// Whether an effect touches the host's machine: its input, its files, its
/// display.
pub open spec fn drives_host(f: Fx) -> bool {
    f is Inject || f is File || f is SendFile || f is SaveConfig || f is ApplyDisplay || f is PutFiles
        || f is Offer || f is Keep || f is Manage || f is BlockLocal || f is BlankScreen
}

/// The kill switch: with remote control off, no control, file or display
/// message does anything, and nobody comes to drive.
pub proof fn kill_switch_stops_everything(s: AppState, v: Tree, now: u64, now_ms: u64)
    requires
        !s.cfg.control.enabled,
        text_or(v.text_at("type"@), Seq::empty()) != "revoke"@,
    ensures
        ({
            let kind = text_or(v.text_at("type"@), Seq::empty());
            kind == "control"@ || kind == "file"@ || kind == "display"@ ==> s.received(
                v,
                now,
                now_ms,
            ) == (s, Seq::<Fx>::empty())
        }),
        s.received(v, now, now_ms).0.controller == s.controller,
        forall|i: int|
            0 <= i < s.received(v, now, now_ms).1.len() ==> !drives_host(
                #[trigger] s.received(v, now, now_ms).1[i],
            ),
{
    reveal_strlit("control");
    reveal_strlit("computer-use");
    reveal_strlit("file");
    reveal_strlit("display");
    let kind = text_or(v.text_at("type"@), Seq::empty());
    assert("display"@[0] == 'd' && "control"@[0] == 'c' && "file"@[0] == 'f');
    assert("computer-use"@.len() == 12);
}

/// Without permission for a model to act, no task is run.
pub proof fn no_task_without_permission(s: AppState, v: Tree, now: u64, now_ms: u64)
    requires
        !s.cfg.control.ai_enabled,
        text_or(v.text_at("type"@), Seq::empty()) == "computer-use"@,
    ensures
        s.received(v, now, now_ms) == (s, Seq::<Fx>::empty()),
{
    reveal_strlit("computer-use");
    reveal_strlit("control");
    assert("computer-use"@.len() == 12 && "control"@.len() == 7);
}

/// A control message from a session that does not drive does nothing.
pub proof fn other_sessions_do_not_drive(s: AppState, v: Tree, now: u64, now_ms: u64)
    requires
        text_or(v.text_at("type"@), Seq::empty()) == "control"@,
        s.controller is Some,
        !s.may_drive(text_or(v.text_at("session"@), Seq::empty())),
    ensures
        s.received(v, now, now_ms) == (s, Seq::<Fx>::empty()),
{
    assert(s.taken(text_or(v.text_at("session"@), Seq::empty())).0 =~= s);
}

/// A chat message stays chat: it is never typed into the host.
pub proof fn chat_is_never_injected(s: AppState, v: Tree, now: u64, now_ms: u64)
    requires
        text_or(v.text_at("type"@), Seq::empty()) == "chat"@,
    ensures
        forall|i: int|
            0 <= i < s.received(v, now, now_ms).1.len() ==> !((#[trigger] s.received(
                v,
                now,
                now_ms,
            ).1[i]) is Inject),
        s.received(v, now, now_ms).0.controller == s.controller,
{
    reveal_strlit("chat");
    reveal_strlit("control");
    reveal_strlit("computer-use");
    reveal_strlit("file");
    reveal_strlit("display");
    reveal_strlit("revoke");
    reveal_strlit("quality");
    reveal_strlit("voice");
    assert("chat"@.len() == 4 && "file"@.len() == 4 && "control"@.len() == 7 && "computer-use"@.len()
        == 12 && "display"@.len() == 7 && "revoke"@.len() == 6 && "quality"@.len() == 7
        && "voice"@.len() == 5);
    assert("chat"@[0] != "file"@[0]);
}

proof fn message_kinds_are_spelled()
    ensures
        "control"@.len() == 7 && "control"@[0] == 'c',
        "computer-use"@.len() == 12 && "computer-use"@[0] == 'c',
        "file"@.len() == 4 && "file"@[0] == 'f',
        "display"@.len() == 7 && "display"@[0] == 'd',
        "revoke"@.len() == 6 && "revoke"@[0] == 'r',
        "quality"@.len() == 7 && "quality"@[0] == 'q',
        "voice"@.len() == 5 && "voice"@[0] == 'v',
        "chat"@.len() == 4 && "chat"@[0] == 'c',
{
    reveal_strlit("control");
    reveal_strlit("computer-use");
    reveal_strlit("file");
    reveal_strlit("display");
    reveal_strlit("revoke");
    reveal_strlit("quality");
    reveal_strlit("voice");
    reveal_strlit("chat");
}

/// Whether a message is of that kind.
pub open spec fn is_kind(v: Tree, kind: Seq<char>) -> bool {
    v.get("type"@) == Some(Tree::Str(kind))
}

/// Each kind of message leads to what it asks for: a task is run where that is
/// allowed, a file is sent or handled, a screen is shown, the session is ended,
/// a preset is set, speech is played and a message is passed on.
pub proof fn messages_do_as_they_ask(s: AppState, v: Tree, t: Seq<char>, now: u64, now_ms: u64)
    ensures
        ({
            let r = s.received(v, now, now_ms);
            &&& is_kind(v, "computer-use"@) && s.cfg.control.ai_enabled && v.get("task"@) == Some(
                Tree::Str(t),
            ) ==> r == (s, seq![Fx::RunTask(t)])
            &&& is_kind(v, "file"@) && s.cfg.control.enabled && v.get("action"@) == Some(
                Tree::Str("get"@),
            ) && v.get("name"@) == Some(Tree::Str(t)) ==> r == (s, seq![Fx::SendFile(t)])
            &&& is_kind(v, "file"@) && s.cfg.control.enabled && v.get("action"@) == Some(
                Tree::Str(t),
            ) && t != "get"@ ==> r == (s, seq![Fx::File(ask_of(v))])
            &&& is_kind(v, "display"@) && s.cfg.control.enabled && v.get("id"@) == Some(Tree::Str(t))
                ==> r == s.shown_on(t)
            &&& is_kind(v, "display"@) && s.cfg.control.enabled && v.get("id"@) is None && v.get(
                "input"@,
            ) == Some(Tree::Str(t)) ==> r == s.shown_on(t)
            &&& is_kind(v, "revoke"@) ==> r == s.ended(true)
            &&& is_kind(v, "quality"@) && v.get("preset"@) == Some(Tree::Str(t)) ==> r == s.tuned_to(t)
            &&& is_kind(v, "voice"@) ==> r == s.spoken(v, now)
            &&& is_kind(v, "chat"@) ==> r == s.chatted(v, now_ms)
            &&& v.get("type"@) is None ==> r == (s, Seq::<Fx>::empty())
        }),
{
    message_kinds_are_spelled();
    let none = Seq::<char>::empty();
    assert(none.len() == 0);
}

/// Input from the one who drives is handed to the host as it is, and takes
/// control where nobody has it.
pub proof fn input_is_handed_on(s: AppState, v: Tree, session: Seq<char>, a: Act, now: u64, now_ms: u64)
    requires
        is_kind(v, "control"@),
        s.cfg.control.enabled,
        v.get("session"@) == Some(Tree::Str(session)),
        s.controller is None || s.controller == Some(session),
        v.text_at("phase"@) is None,
        control_act(v) == Some(a),
    ensures
        s.received(v, now, now_ms).1.contains(Fx::Inject(a)),
        session.len() > 0 ==> s.received(v, now, now_ms).0.controller == Some(session),
        a.copies() ==> s.received(v, now, now_ms).1.last() is PollClipboard,
        s.controller == Some(session) ==> s.received(v, now, now_ms).1[0] == Fx::Inject(a),
{
    message_kinds_are_spelled();
    let t = s.taken(session);
    let c = AppState { png: t.0.png, ..t.0 };
    let r = t.0.controlled(v);
    let at = t.1.len() as int;
    assert(png_step(t.0.png, v) == (t.0.png, None::<Option<Seq<u8>>>));
    assert(c == t.0);
    assert(r.1[0] == Fx::Inject(a));
    assert((t.1 + r.1)[at] == Fx::Inject(a));
    crate::server::clipboard_actions_are_shared(t.0, a);
    acting_keeps_the_controller(t.0, a);
}

proof fn acting_keeps_the_controller(s: AppState, a: Act)
    ensures
        s.clipped(a).0.controller == s.controller,
{
    match a {
        Act::Clipboard { text } => {
            crate::server::shared_keeps(
                (AppState { last_clip: text, ..s }),
                crate::server::one(crate::server::clip_text(text)),
            );
        },
        Act::Paste { text } => {
            crate::server::shared_keeps(
                (AppState { last_clip: text, ..s }),
                crate::server::one(crate::server::clip_text(text)),
            );
        },
        Act::ClipboardPng { png } => {
            crate::server::shared_keeps(
                (AppState { last_clip: crate::server::png_key(png), ..s }),
                crate::server::png_messages(png),
            );
        },
        _ => {},
    }
}

/// A screen that is asked for is captured from then on and kept in the settings;
/// asking for the one that is shown only maps the pointer to it again.
pub proof fn screens_are_switched(s: AppState, raw: Seq<char>)
    ensures
        ({
            let id = trimmed(raw);
            let (r, fx) = s.shown_on(raw);
            &&& id.len() == 0 ==> r == s && fx.len() == 0
            &&& id.len() > 0 && id == s.cfg.capture.input ==> r == s && fx == seq![
                Fx::ApplyDisplay(id),
                Fx::Announce,
            ]
            &&& id.len() > 0 && id != s.cfg.capture.input ==> r.cfg.capture.input == id && fx == seq![
                Fx::SaveConfig,
                Fx::ApplyDisplay(id),
                Fx::Recapture,
                Fx::Announce,
            ]
            &&& r.controller == s.controller && r.cfg.control == s.cfg.control
        }),
{
}

/// A preset that is known is set, captured with and told; others change nothing.
pub proof fn presets_are_set(s: AppState, preset: Seq<char>)
    ensures
        ({
            let (r, fx) = s.tuned_to(preset);
            let known = preset == "quality"@ || preset == "balanced"@ || preset == "speed"@;
            &&& known ==> preset_of(r.cfg) == preset && fx == seq![
                Fx::Recapture,
                Fx::Announce,
                Fx::Status,
            ]
            &&& !known ==> r == s && fx.len() == 0
        }),
{
    crate::config::presets_set_rate_and_scale(s.cfg, preset);
    if under_preset(s.cfg, preset) is Some {
        crate::config::preset_is_recognised(s.cfg, preset);
    }
}

/// Speech is played where that is allowed and it can be, at its rate; the
/// microphone is ducked where sound is captured.
pub proof fn speech_is_played(s: AppState, v: Tree, data: Seq<char>, pcm: Seq<u8>, rate: u64, now: u64)
    requires
        v.get("pcm"@) == Some(Tree::Str(data)),
        base64_bytes(trimmed(data)) == Some(pcm),
        v.whole_at("rate"@) == Some(rate),
        rate <= u32::MAX,
    ensures
        ({
            let (r, fx) = s.spoken(v, now);
            let play = Fx::Play { pcm, rate: rate_of(rate as u32) };
            let heard = s.cfg.control.voice && playable(pcm);
            &&& heard && s.cfg.capture.audio ==> fx == seq![Fx::Duck(true), play] && r == (AppState {
                last_voice: Some(now),
                ..s
            })
            &&& heard && !s.cfg.capture.audio ==> fx == seq![play] && r == s
            &&& !heard ==> fx.len() == 0 && r == s
        }),
{
}

/// A message is kept and passed on, with its sender and time; one that comes
/// back from the other side, which names its sender, is not sent there again.
pub proof fn chat_is_passed_on(s: AppState, v: Tree, raw: Seq<char>, now_ms: u64)
    requires
        v.get("text"@) == Some(Tree::Str(raw)),
        trimmed(raw).len() > 0,
        v.get("ts"@) is None,
    ensures
        ({
            let (r, fx) = s.chatted(v, now_ms);
            let session = text_or(v.text_at("session"@), Seq::empty());
            let msg = chat_text(clamped(raw), sender(v.text_at("from"@), session), now_ms);
            &&& r.chat == newest(s.chat.push(msg)) && r.controller == s.controller
            &&& fx[0] == Fx::Tell(msg)
            &&& attributed(v.text_at("from"@)) ==> fx.len() == 1 && r.publisher == s.publisher
            &&& !attributed(v.text_at("from"@)) ==> fx == seq![Fx::Tell(msg), Fx::Wire(msg)]
        }),
        s.chatted(Tree::Null, now_ms) == (s, Seq::<Fx>::empty()),
{
    let none = Seq::<char>::empty();
    assert(trimmed(none) == none);
}

/// The other end is told the PIN's digest and end while it lives, or else the
/// password's digest where there is one, and never the PIN itself.
pub proof fn pin_messages_by_state(s: AppState, p: crate::otp::PinFacts, now: int)
    ensures
        s.otp.pin == Some(p) && now < p.exp ==> s.pin_messages(now) == seq![
            otp_text(p.hash, p.exp_unix_ms as nat, s.otp.unattended),
        ],
        (s.otp.pin is None || now >= s.otp.pin->Some_0.exp) && s.otp.unattended.len() > 0
            ==> s.pin_messages(now) == seq![otp_text(Seq::empty(), 0, s.otp.unattended)],
        (s.otp.pin is None || now >= s.otp.pin->Some_0.exp) && s.otp.unattended.len() == 0
            ==> s.pin_messages(now).len() == 0,
{
}

/// The message about the PIN says what it is.
pub proof fn pin_message_says_what_it_is(hash: Seq<char>, exp: nat, unattended: Seq<char>)
    ensures
        ({
            let t = otp_text(hash, exp, unattended);
            &&& has_part(t, shown("hash"@, quoted(hash)))
            &&& has_part(t, shown("exp"@, decimal(exp)))
            &&& has_part(t, shown("unattended"@, quoted(unattended)))
            &&& has_part(t, shown("type"@, quoted("otp"@)))
        }),
{
    let m = seq![
        ("exp"@, decimal(exp)),
        ("hash"@, quoted(hash)),
        ("type"@, quoted("otp"@)),
        ("unattended"@, quoted(unattended)),
    ];
    object_shows(m, 0);
    object_shows(m, 1);
    object_shows(m, 2);
    object_shows(m, 3);
}

/// Both lists of screens tell a screen's name, place and size.
pub proof fn screens_are_told(d: Screen)
    ensures
        ({
            let t = screen_text(d);
            let c = catalog_entry(d);
            &&& has_part(t, shown("id"@, quoted(d.id))) && has_part(c, shown("id"@, quoted(d.id)))
            &&& has_part(t, shown("name"@, quoted(d.name))) && has_part(
                c,
                shown("name"@, quoted(d.name)),
            )
            &&& has_part(t, shown("x"@, signed_decimal(d.x as int))) && has_part(
                c,
                shown("x"@, signed_decimal(d.x as int)),
            )
            &&& has_part(t, shown("y"@, signed_decimal(d.y as int))) && has_part(
                c,
                shown("y"@, signed_decimal(d.y as int)),
            )
            &&& has_part(t, shown("width"@, decimal(d.width as nat))) && has_part(
                c,
                shown("width"@, decimal(d.width as nat)),
            )
            &&& has_part(t, shown("height"@, decimal(d.height as nat))) && has_part(
                c,
                shown("height"@, decimal(d.height as nat)),
            )
            &&& tells(t, "main"@, d.main) && tells(c, "main"@, d.main)
        }),
{
    let m = seq![
        ("height"@, decimal(d.height as nat)),
        ("id"@, quoted(d.id)),
        ("main"@, truth_text(d.main)),
        ("name"@, quoted(d.name)),
        ("width"@, decimal(d.width as nat)),
        ("x"@, signed_decimal(d.x as int)),
        ("y"@, signed_decimal(d.y as int)),
    ];
    object_shows(m, 0);
    object_shows(m, 1);
    object_shows(m, 2);
    object_shows(m, 3);
    object_shows(m, 4);
    object_shows(m, 5);
    object_shows(m, 6);
    let n = seq![
        ("id"@, quoted(d.id)),
        ("name"@, quoted(d.name)),
        ("x"@, signed_decimal(d.x as int)),
        ("y"@, signed_decimal(d.y as int)),
        ("width"@, decimal(d.width as nat)),
        ("height"@, decimal(d.height as nat)),
        ("main"@, truth_text(d.main)),
    ];
    object_shows(n, 0);
    object_shows(n, 1);
    object_shows(n, 2);
    object_shows(n, 3);
    object_shows(n, 4);
    object_shows(n, 5);
    object_shows(n, 6);
}

/// The flags tell a watcher what is allowed and how the stream is made.
pub proof fn flags_are_told(c: ConfigFacts, audio: bool, ds: Seq<Screen>)
    ensures
        ({
            let t = flags_text(c, audio, ds);
            &&& tells(t, "ai"@, c.control.ai_enabled)
            &&& tells(t, "audio"@, audio)
            &&& tells(t, "control"@, c.control.enabled)
            &&& tells(t, "voice"@, c.control.voice)
            &&& has_part(t, shown("bitrate_kbps"@, decimal(c.encoder.bitrate_kbps as nat)))
            &&& has_part(t, shown("display"@, quoted(c.capture.input)))
            &&& has_part(t, shown("displays"@, array_text(screen_texts(ds))))
            &&& has_part(t, shown("preset"@, quoted(preset_of(c))))
            &&& has_part(t, shown("scale"@, c.capture.scale.text))
            &&& has_part(t, shown("type"@, quoted("flags"@)))
        }),
        screen_texts(ds).len() == ds.len(),
        forall|i: int| 0 <= i < ds.len() ==> #[trigger] screen_texts(ds)[i] == screen_text(ds[i]),
        catalog(ds).len() == ds.len(),
        forall|i: int| 0 <= i < ds.len() ==> #[trigger] catalog(ds)[i] == catalog_entry(ds[i]),
{
    let m = seq![
        ("ai"@, truth_text(c.control.ai_enabled)),
        ("audio"@, truth_text(audio)),
        ("bitrate_kbps"@, decimal(c.encoder.bitrate_kbps as nat)),
        ("control"@, truth_text(c.control.enabled)),
        ("display"@, quoted(c.capture.input)),
        ("displays"@, array_text(screen_texts(ds))),
        ("preset"@, quoted(preset_of(c))),
        ("scale"@, c.capture.scale.text),
        ("type"@, quoted("flags"@)),
        ("voice"@, truth_text(c.control.voice)),
    ];
    object_shows(m, 0);
    object_shows(m, 1);
    object_shows(m, 2);
    object_shows(m, 3);
    object_shows(m, 4);
    object_shows(m, 5);
    object_shows(m, 6);
    object_shows(m, 7);
    object_shows(m, 8);
    object_shows(m, 9);
}

/// An announcement sends the PIN's message and then the flags, and keeps both
/// for those who come later.
pub proof fn announcements_end_with_the_flags(s: AppState, now: int, sysname: Seq<char>)
    ensures
        ({
            let flags = flags_text(s.cfg, wants_audio(s.cfg, sysname), s.displays);
            let (r, fx) = s.announced(now, sysname);
            let pins = s.pin_messages(now);
            &&& fx.len() == pins.len() + 1
            &&& fx.last() == Fx::Wire(flags)
            &&& forall|i: int| 0 <= i < pins.len() ==> #[trigger] fx[i] == Fx::Wire(pins[i])
            &&& r == s.wired_all(pins).0.wired(flags)
        }),
{
    let flags = flags_text(s.cfg, wants_audio(s.cfg, sysname), s.displays);
    let pins = s.pin_messages(now);
    assert(pins.push(flags).drop_last() =~= pins);
    wires_go_in_order(s, pins);
}

proof fn wires_go_in_order(s: AppState, msgs: Seq<Seq<char>>)
    ensures
        s.wired_all(msgs).1.len() == msgs.len(),
        forall|i: int|
            0 <= i < msgs.len() ==> #[trigger] s.wired_all(msgs).1[i] == Fx::Wire(msgs[i]),
    decreases msgs.len(),
{
    if msgs.len() > 0 {
        wires_go_in_order(s, msgs.drop_last());
    }
}

} // verus!
