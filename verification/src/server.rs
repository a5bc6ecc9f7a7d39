//! The origin's state: settings, who is in control, what was shared, and what
//! each message from a watcher leads to.
//!
//! Instants are nanoseconds on a clock that never goes back.

use crate::b64::{base64_bytes, base64_of, decode_b64, encode_b64};
use crate::config::{Config, ConfigFacts, ControlConfig};
use crate::device::{devices, Device};
use crate::files::{pieces, FileAsk, FileRequest, MAX_CHUNK};
use crate::input::{accept_png, is_png, looks_png, png_fits, Act, Action, Screen, CLIP_PNG_MAX};
use crate::json::{
    object, object_shows, object_text, or, pairs, quote, quoted, shown, text_or, Json, Tree,
};
use crate::octets::extend;
use crate::otp::{hex_encode, hex_text, sha256_digest, sha256_of, GateState, OtpGate};
use crate::panel::{PanelAsk, PanelOp};
use crate::power::should_keep_awake;
use crate::publisher::{wire_after, Publisher, PublisherState};
use crate::text::{
    concat2, contains, decimal, decimal_text, has_part, opt_text, push_text, same, texts, trimmed,
};
use vstd::prelude::*;

verus! {

/// Something to be done outside, in the order in which it is asked for.
#[derive(Debug)]
pub enum Effect {
    Inject(Action),
    BlockLocal(bool),
    BlankScreen(bool),
    KeepAwake(bool),
    Duck(bool),
    Play { pcm: Vec<u8>, rate: u32 },
    /// Send to the publisher.
    Wire(String),
    /// Send to the watchers that are connected here.
    Tell(String),
    /// Tell the host's pages the new status.
    Status,
    StartRecording,
    StopRecording,
    /// Look at the clipboard a moment later.
    PollClipboard,
    RunTask(String),
    CancelTask,
    /// Send a file of the inbox, piece by piece.
    SendFile(String),
    File(FileRequest),
    /// Offer a file that came in on the host's pasteboard.
    Offer(String),
    /// Put files on the host's pasteboard.
    PutFiles(Vec<String>),
    /// Keep a file in the inbox, and offer it.
    Keep { name: String, data: Vec<u8> },
    /// Do something in the file panel.
    Manage(PanelOp),
    SaveConfig,
    /// Look up the displays, and map the injector to this one.
    ApplyDisplay(String),
    /// Start the capture with the settings as they are.
    Capture,
    /// Start the capture anew with the settings as they are.
    Recapture,
    /// Publish the PIN and the flags as they are.
    Announce,
    RestartPublisher,
}

#[verifier::ext_equal]
pub ghost enum Fx {
    Inject(Act),
    BlockLocal(bool),
    BlankScreen(bool),
    KeepAwake(bool),
    Duck(bool),
    Play { pcm: Seq<u8>, rate: u32 },
    Wire(Seq<char>),
    Tell(Seq<char>),
    Status,
    StartRecording,
    StopRecording,
    PollClipboard,
    RunTask(Seq<char>),
    CancelTask,
    SendFile(Seq<char>),
    File(FileAsk),
    Offer(Seq<char>),
    PutFiles(Seq<Seq<char>>),
    Keep { name: Seq<char>, data: Seq<u8> },
    Manage(PanelAsk),
    SaveConfig,
    ApplyDisplay(Seq<char>),
    Capture,
    Recapture,
    Announce,
    RestartPublisher,
}

impl View for Effect {
    type V = Fx;

    open spec fn view(&self) -> Fx {
        match self {
            Effect::Inject(a) => Fx::Inject(a@),
            Effect::BlockLocal(on) => Fx::BlockLocal(*on),
            Effect::BlankScreen(on) => Fx::BlankScreen(*on),
            Effect::KeepAwake(on) => Fx::KeepAwake(*on),
            Effect::Duck(on) => Fx::Duck(*on),
            Effect::Play { pcm, rate } => Fx::Play { pcm: pcm@, rate: *rate },
            Effect::Wire(s) => Fx::Wire(s@),
            Effect::Tell(s) => Fx::Tell(s@),
            Effect::Status => Fx::Status,
            Effect::StartRecording => Fx::StartRecording,
            Effect::StopRecording => Fx::StopRecording,
            Effect::PollClipboard => Fx::PollClipboard,
            Effect::RunTask(s) => Fx::RunTask(s@),
            Effect::CancelTask => Fx::CancelTask,
            Effect::SendFile(s) => Fx::SendFile(s@),
            Effect::File(r) => Fx::File(r@),
            Effect::Offer(s) => Fx::Offer(s@),
            Effect::PutFiles(v) => Fx::PutFiles(texts(v@)),
            Effect::Keep { name, data } => Fx::Keep { name: name@, data: data@ },
            Effect::Manage(op) => Fx::Manage(op@),
            Effect::SaveConfig => Fx::SaveConfig,
            Effect::ApplyDisplay(s) => Fx::ApplyDisplay(s@),
            Effect::Capture => Fx::Capture,
            Effect::Recapture => Fx::Recapture,
            Effect::Announce => Fx::Announce,
            Effect::RestartPublisher => Fx::RestartPublisher,
        }
    }
}

pub open spec fn fxs(v: Seq<Effect>) -> Seq<Fx> {
    Seq::new(v.len(), |i: int| v[i]@)
}

/// What the origin knows.
#[verifier::ext_equal]
pub ghost struct AppState {
    pub cfg: ConfigFacts,
    /// The session that drives the host, if one does.
    pub controller: Option<Seq<char>>,
    /// An image that comes in pieces: how long it will be, and what is there.
    pub png: Option<(u64, Seq<u8>)>,
    /// What the clipboard held when it was last shared.
    pub last_clip: Seq<char>,
    pub chat: Seq<Seq<char>>,
    /// When a watcher was last heard while the microphone is muted.
    pub last_voice: Option<u64>,
    pub displays: Seq<Screen>,
    pub publisher: PublisherState,
    pub otp: GateState,
}

pub struct App {
    pub cfg: Config,
    pub controller: Option<String>,
    pub incoming_png: Option<(u64, Vec<u8>)>,
    pub last_clip: String,
    pub chat_log: Vec<String>,
    pub last_voice: Option<u64>,
    pub displays: Vec<Device>,
    pub publisher: Publisher,
    pub otp: OtpGate,
}

pub open spec fn image(p: Option<(u64, Vec<u8>)>) -> Option<(u64, Seq<u8>)> {
    match p {
        Some(x) => Some((x.0, x.1@)),
        None => None,
    }
}

impl View for App {
    type V = AppState;

    open spec fn view(&self) -> AppState {
        AppState {
            cfg: self.cfg@,
            controller: opt_text(self.controller),
            png: image(self.incoming_png),
            last_clip: self.last_clip@,
            chat: texts(self.chat_log@),
            last_voice: self.last_voice,
            displays: devices(self.displays@),
            publisher: self.publisher@,
            otp: self.otp@,
        }
    }
}

pub(crate) fn emit(out: &mut Vec<Effect>, e: Effect)
    ensures
        fxs(final(out)@) == fxs(old(out)@).push(e@),
{
    let ghost before = fxs(out@);
    out.push(e);
    assert(fxs(out@) =~= before.push(e@));
}

impl AppState {
    /// A message is noted for watchers who come later.
    pub open spec fn wired(self, msg: Seq<char>) -> AppState {
        AppState {
            publisher: PublisherState {
                latest: wire_after(self.publisher.latest, msg),
                ..self.publisher
            },
            ..self
        }
    }

    /// Messages go to the publisher and to the watchers here.
    pub open spec fn shared(self, msgs: Seq<Seq<char>>) -> (AppState, Seq<Fx>)
        decreases msgs.len(),
    {
        if msgs.len() == 0 {
            (self, Seq::empty())
        } else {
            let r = self.shared(msgs.drop_last());
            (r.0.wired(msgs.last()), r.1.push(Fx::Wire(msgs.last())).push(Fx::Tell(msgs.last())))
        }
    }
}

pub open spec fn one(msg: Seq<char>) -> Seq<Seq<char>> {
    seq![msg]
}

proof fn shared_one(s: AppState, msg: Seq<char>)
    ensures
        s.shared(one(msg)) == (s.wired(msg), seq![Fx::Wire(msg), Fx::Tell(msg)]),
{
    let m = one(msg);
    assert(m.drop_last() =~= Seq::<Seq<char>>::empty());
    assert(s.shared(m.drop_last()) == (s, Seq::<Fx>::empty()));
    assert(s.shared(m).1 =~= seq![Fx::Wire(msg), Fx::Tell(msg)]);
}

/// What the host's machine is told about a session: whether local input is
/// blocked, the screen darkened, and sleep held off.
pub open spec fn privacy(c: ControlConfig, unattended: bool, driving: bool) -> Seq<Fx> {
    seq![
        Fx::BlockLocal(c.block_local && driving),
        Fx::BlankScreen(c.blank_screen && driving),
        Fx::KeepAwake(driving || (c.keep_awake && (c.enabled || unattended))),
    ]
}

impl AppState {
    pub open spec fn privacy(self) -> Seq<Fx> {
        privacy(self.cfg.control, self.cfg.access.unattended, self.controller is Some)
    }

    /// Who drives after a session asked to. The first one does; a request
    /// without a session counts as the one that drives.
    pub open spec fn driver(self, session: Seq<char>) -> Option<Seq<char>> {
        match self.controller {
            None => Some(
                if session.len() == 0 {
                    "anon"@
                } else {
                    session
                },
            ),
            Some(c) => Some(c),
        }
    }

    /// Whether a session may drive.
    pub open spec fn may_drive(self, session: Seq<char>) -> bool {
        match self.controller {
            None => true,
            Some(c) => session.len() == 0 || c == session,
        }
    }

    /// A session asks to drive.
    pub open spec fn taken(self, session: Seq<char>) -> (AppState, Seq<Fx>) {
        let s = AppState { controller: self.driver(session), ..self };
        if self.controller is None {
            (
                s,
                s.privacy() + (if self.cfg.control.record_sessions {
                    seq![Fx::StartRecording]
                } else {
                    Seq::empty()
                }) + seq![Fx::Status],
            )
        } else {
            (s, Seq::empty())
        }
    }

    /// The session ends. The host is locked only if one was driving.
    pub open spec fn ended(self, lock: bool) -> (AppState, Seq<Fx>) {
        let had = self.controller is Some;
        let s = AppState { controller: None, ..self };
        (
            s,
            (if had {
                seq![Fx::StopRecording]
            } else {
                Seq::empty()
            }) + s.privacy() + seq![Fx::Status] + (if lock && had && self.cfg.control.lock_on_end {
                seq![Fx::Inject(lock_keys())]
            } else {
                Seq::empty()
            }),
        )
    }

    /// Whether a session is the one that drives.
    pub open spec fn drives(self, session: Seq<char>) -> bool {
        match self.controller {
            None => false,
            Some(c) => c == session || (session.len() == 0 && c == "anon"@),
        }
    }
}

/// The shortcut that locks the screen.
pub open spec fn lock_keys() -> Act {
    Act::Key { key: "q"@, down: None, modifiers: seq!["Control"@, "Meta"@] }
}

impl App {
    pub(crate) fn wire(&mut self, msg: String, out: &mut Vec<Effect>)
        ensures
            final(self)@ == old(self)@.wired(msg@),
            fxs(final(out)@) == fxs(old(out)@).push(Fx::Wire(msg@)),
    {
        self.publisher.push_wire(msg.as_str());
        emit(out, Effect::Wire(msg));
        assert(self@ =~= old(self)@.wired(msg@));
    }

    /// A message goes to the publisher and to the watchers here.
    pub fn share(&mut self, msg: String, out: &mut Vec<Effect>)
        ensures
            final(self)@ == old(self)@.shared(one(msg@)).0,
            fxs(final(out)@) == fxs(old(out)@) + old(self)@.shared(one(msg@)).1,
    {
        let ghost before = fxs(out@);
        proof {
            shared_one(self@, msg@);
        }
        let copy = msg.clone();
        self.wire(copy, out);
        emit(out, Effect::Tell(msg));
        assert(fxs(out@) =~= before + seq![Fx::Wire(msg@), Fx::Tell(msg@)]);
    }

    /// Messages go to the publisher and to the watchers here, in their order.
    pub fn share_all(&mut self, msgs: Vec<String>, out: &mut Vec<Effect>)
        ensures
            final(self)@ == old(self)@.shared(texts(msgs@)).0,
            fxs(final(out)@) == fxs(old(out)@) + old(self)@.shared(texts(msgs@)).1,
    {
        let ghost start = self@;
        let ghost before = fxs(out@);
        let ghost all = texts(msgs@);
        let mut i: usize = 0;
        assert(all.take(0) =~= Seq::<Seq<char>>::empty());
        assert(before + start.shared(all.take(0)).1 =~= before);
        while i < msgs.len()
            invariant
                i <= msgs@.len(),
                all == texts(msgs@),
                self@ == start.shared(all.take(i as int)).0,
                fxs(out@) == before + start.shared(all.take(i as int)).1,
            decreases msgs@.len() - i,
        {
            let ghost here = self@;
            let ghost there = fxs(out@);
            proof {
                assert(all.take(i + 1).drop_last() =~= all.take(i as int));
                assert(all.take(i + 1).last() == msgs@[i as int]@);
                shared_one(here, msgs@[i as int]@);
            }
            self.share(msgs[i].clone(), out);
            proof {
                let m = msgs@[i as int]@;
                assert(there + seq![Fx::Wire(m), Fx::Tell(m)] =~= before + start.shared(
                    all.take(i + 1),
                ).1);
            }
            i += 1;
        }
        assert(all.take(all.len() as int) =~= all);
    }

    /// Tells the host's machine how private the session is.
    pub fn sync_session_privacy(&self, out: &mut Vec<Effect>)
        ensures
            fxs(final(out)@) == fxs(old(out)@) + self@.privacy(),
    {
        let ghost before = fxs(out@);
        let driving = self.controller.is_some();
        let c = self.cfg.control;
        emit(out, Effect::BlockLocal(c.block_local && driving));
        emit(out, Effect::BlankScreen(c.blank_screen && driving));
        let keep = should_keep_awake(
            c.keep_awake,
            c.enabled,
            self.cfg.access.unattended,
            driving,
        );
        emit(out, Effect::KeepAwake(keep));
        assert(fxs(out@) =~= before + self@.privacy());
    }

    /// One remote controller at a time: whether this session drives now.
    pub fn take_controller(&mut self, session: &str, out: &mut Vec<Effect>) -> (ok: bool)
        ensures
            ok == old(self)@.may_drive(session@),
            final(self)@ == old(self)@.taken(session@).0,
            fxs(final(out)@) == fxs(old(out)@) + old(self)@.taken(session@).1,
    {
        let ghost before = fxs(out@);
        match &self.controller {
            Some(cur) => {
                assert(self@ =~= old(self)@.taken(session@).0);
                assert(fxs(out@) =~= before + old(self)@.taken(session@).1);
                session.is_empty() || same(cur.as_str(), session)
            },
            None => {
                self.controller = Some(
                    if session.is_empty() {
                        "anon".to_owned()
                    } else {
                        session.to_owned()
                    },
                );
                assert(self@ =~= old(self)@.taken(session@).0);
                self.sync_session_privacy(out);
                if self.cfg.control.record_sessions {
                    emit(out, Effect::StartRecording);
                }
                emit(out, Effect::Status);
                assert(fxs(out@) =~= before + old(self)@.taken(session@).1);
                true
            },
        }
    }

    fn end_session(&mut self, lock: bool, out: &mut Vec<Effect>)
        ensures
            final(self)@ == old(self)@.ended(lock).0,
            fxs(final(out)@) == fxs(old(out)@) + old(self)@.ended(lock).1,
    {
        let ghost before = fxs(out@);
        let had = self.controller.is_some();
        self.controller = None;
        if had {
            emit(out, Effect::StopRecording);
        }
        assert(self@ =~= old(self)@.ended(lock).0);
        self.sync_session_privacy(out);
        emit(out, Effect::Status);
        if lock && had && self.cfg.control.lock_on_end {
            let modifiers = vec!["Control".to_owned(), "Meta".to_owned()];
            assert(texts(modifiers@) =~= seq!["Control"@, "Meta"@]);
            let keys = Action::Key { key: "q".to_owned(), down: None, modifiers };
            emit(out, Effect::Inject(keys));
        }
        assert(fxs(out@) =~= before + old(self)@.ended(lock).1);
    }

    pub fn release_controller(&mut self, out: &mut Vec<Effect>)
        ensures
            final(self)@ == old(self)@.ended(false).0,
            fxs(final(out)@) == fxs(old(out)@) + old(self)@.ended(false).1,
    {
        self.end_session(false, out);
    }

    /// Watcher hung up or host pressed End — optionally lock the Mac.
    pub fn end_remote_session(&mut self, out: &mut Vec<Effect>)
        ensures
            final(self)@ == old(self)@.ended(true).0,
            fxs(final(out)@) == fxs(old(out)@) + old(self)@.ended(true).1,
    {
        self.end_session(true, out);
    }

    /// A watcher hung up: the session ends if it was the one that drives.
    pub fn release_if_controller(&mut self, session: &str, out: &mut Vec<Effect>)
        ensures
            ({
                let r = if old(self)@.drives(session@) {
                    old(self)@.ended(true)
                } else {
                    (old(self)@, Seq::empty())
                };
                &&& final(self)@ == r.0
                &&& fxs(final(out)@) == fxs(old(out)@) + r.1
            }),
    {
        let mine = match &self.controller {
            None => false,
            Some(c) => same(c.as_str(), session) || (session.is_empty() && same(
                c.as_str(),
                "anon",
            )),
        };
        if mine {
            self.end_remote_session(out);
        } else {
            assert(fxs(out@) + Seq::<Fx>::empty() =~= fxs(out@));
        }
    }

    /// The host stops a running task; whoever drove no longer does.
    pub fn cancel_computer_use(&mut self, out: &mut Vec<Effect>)
        ensures
            final(self)@ == old(self)@.ended(false).0,
            fxs(final(out)@) == fxs(old(out)@).push(Fx::CancelTask) + old(self)@.ended(false).1,
    {
        emit(out, Effect::CancelTask);
        self.release_controller(out);
    }
}

/// One remote controller at a time: while a session drives, no other may, and
/// asking to does not change who does.
pub proof fn one_controller_at_a_time(s: AppState, mine: Seq<char>, other: Seq<char>)
    requires
        mine.len() > 0,
        other.len() > 0,
        mine != other,
        s.controller is None,
    ensures
        s.may_drive(mine),
        s.taken(mine).0.may_drive(mine),
        !s.taken(mine).0.may_drive(other),
        s.taken(mine).0.taken(other).0 == s.taken(mine).0,
        s.taken(mine).0.taken(other).1 == Seq::<Fx>::empty(),
        !s.taken(mine).0.drives(other),
{
}

/// Ending a session that has ended does not lock the host again.
pub proof fn ending_twice_locks_once(s: AppState)
    ensures
        s.ended(true).0.ended(true).0 == s.ended(true).0,
        !s.ended(true).0.ended(true).1.contains(Fx::Inject(lock_keys())),
{
    let e = s.ended(true).0;
    assert(e.ended(true).0 =~= e);
    let f = e.ended(true).1;
    assert forall|i: int| 0 <= i < f.len() implies f[i] != Fx::Inject(lock_keys()) by {}
}

/// While nobody drives, the host's own input is not blocked and its screen is
/// not dark.
pub proof fn host_is_free_without_a_controller(s: AppState)
    ensures
        s.ended(false).1.contains(Fx::BlockLocal(false)),
        s.ended(false).1.contains(Fx::BlankScreen(false)),
        !s.ended(false).1.contains(Fx::BlockLocal(true)),
        !s.ended(false).1.contains(Fx::BlankScreen(true)),
{
    let f = s.ended(false).1;
    let k: int = if s.controller is Some {
        1
    } else {
        0
    };
    assert(f[k] == Fx::BlockLocal(false));
    assert(f[k + 1] == Fx::BlankScreen(false));
}

pub open spec fn clip_text(text: Seq<char>) -> Seq<char> {
    object_text(seq![("text"@, quoted(text)), ("type"@, quoted("clipboard"@))])
}

fn clip_json(text: &str) -> (s: String)
    ensures
        s@ == clip_text(text@),
{
    let v: Vec<(&str, String)> = vec![("text", quote(text)), ("type", quote("clipboard"))];
    assert(pairs(v@) =~= seq![("text"@, quoted(text@)), ("type"@, quoted("clipboard"@))]);
    object(&v)
}

/// A message about an image on the clipboard.
pub open spec fn png_text(head: Seq<(Seq<char>, Seq<char>)>, tail: Seq<(Seq<char>, Seq<char>)>) -> Seq<
    char,
> {
    object_text(
        head + seq![("mime"@, quoted("image/png"@))] + tail + seq![
            ("type"@, quoted("clipboard"@)),
        ],
    )
}

pub open spec fn png_whole(png: Seq<u8>) -> Seq<char> {
    png_text(seq![("data"@, quoted(base64_of(png)))], Seq::empty())
}

pub open spec fn png_begin(size: nat) -> Seq<char> {
    png_text(seq![("action"@, quoted("begin"@))], seq![("size"@, decimal(size))])
}

pub open spec fn png_piece(piece: Seq<u8>) -> Seq<char> {
    png_text(
        seq![("action"@, quoted("chunk"@)), ("data"@, quoted(base64_of(piece)))],
        Seq::empty(),
    )
}

pub open spec fn png_end() -> Seq<char> {
    png_text(seq![("action"@, quoted("end"@))], Seq::empty())
}

/// The messages that carry an image: one, or as many as it takes.
pub open spec fn png_messages(png: Seq<u8>) -> Seq<Seq<char>> {
    if png.len() <= MAX_CHUNK {
        seq![png_whole(png)]
    } else {
        seq![png_begin(png.len())] + Seq::new(
            pieces(png).len(),
            |i: int| png_piece(pieces(png)[i]),
        ) + seq![png_end()]
    }
}

fn png_whole_json(png: &[u8]) -> (s: String)
    ensures
        s@ == png_whole(png@),
{
    let v: Vec<(&str, String)> = vec![
        ("data", quote(encode_b64(png).as_str())),
        ("mime", quote("image/png")),
        ("type", quote("clipboard")),
    ];
    assert(pairs(v@) =~= seq![("data"@, quoted(base64_of(png@)))] + seq![
        ("mime"@, quoted("image/png"@)),
    ] + Seq::empty() + seq![("type"@, quoted("clipboard"@))]);
    object(&v)
}

fn png_begin_json(size: usize) -> (s: String)
    ensures
        s@ == png_begin(size as nat),
{
    let v: Vec<(&str, String)> = vec![
        ("action", quote("begin")),
        ("mime", quote("image/png")),
        ("size", decimal_text(size as u64)),
        ("type", quote("clipboard")),
    ];
    assert(pairs(v@) =~= seq![("action"@, quoted("begin"@))] + seq![
        ("mime"@, quoted("image/png"@)),
    ] + seq![("size"@, decimal(size as nat))] + seq![("type"@, quoted("clipboard"@))]);
    object(&v)
}

fn png_piece_json(piece: &[u8]) -> (s: String)
    ensures
        s@ == png_piece(piece@),
{
    let v: Vec<(&str, String)> = vec![
        ("action", quote("chunk")),
        ("data", quote(encode_b64(piece).as_str())),
        ("mime", quote("image/png")),
        ("type", quote("clipboard")),
    ];
    assert(pairs(v@) =~= seq![
        ("action"@, quoted("chunk"@)),
        ("data"@, quoted(base64_of(piece@))),
    ] + seq![("mime"@, quoted("image/png"@))] + Seq::empty() + seq![
        ("type"@, quoted("clipboard"@)),
    ]);
    object(&v)
}

fn png_end_json() -> (s: String)
    ensures
        s@ == png_end(),
{
    let v: Vec<(&str, String)> = vec![
        ("action", quote("end")),
        ("mime", quote("image/png")),
        ("type", quote("clipboard")),
    ];
    assert(pairs(v@) =~= seq![("action"@, quoted("end"@))] + seq![
        ("mime"@, quoted("image/png"@)),
    ] + Seq::empty() + seq![("type"@, quoted("clipboard"@))]);
    object(&v)
}

pub open spec fn piece_texts(ps: Seq<Seq<u8>>) -> Seq<Seq<char>> {
    Seq::new(ps.len(), |i: int| png_piece(ps[i]))
}

/// The messages that carry an image to the watchers.
pub fn png_replies(png: &[u8]) -> (out: Vec<String>)
    ensures
        texts(out@) == png_messages(png@),
{
    let mut out: Vec<String> = Vec::new();
    if png.len() <= MAX_CHUNK {
        push_text(&mut out, png_whole_json(png).as_str());
        assert(texts(out@) =~= png_messages(png@));
        return out;
    }
    push_text(&mut out, png_begin_json(png.len()).as_str());
    let ghost head = texts(out@);
    assert(head =~= seq![png_begin(png@.len())]);
    let mut at: usize = 0;
    assert(png@.skip(0) =~= png@);
    while at < png.len()
        invariant
            at <= png@.len(),
            texts(out@) + piece_texts(pieces(png@.skip(at as int))) == head + piece_texts(
                pieces(png@),
            ),
        decreases png@.len() - at,
    {
        let ghost before = texts(out@);
        let ghost rest = png@.skip(at as int);
        let end: usize = if png.len() - at <= MAX_CHUNK {
            png.len()
        } else {
            at + MAX_CHUNK
        };
        let piece = vstd::slice::slice_subrange(png, at, end);
        push_text(&mut out, png_piece_json(piece).as_str());
        proof {
            let tail = png@.skip(end as int);
            if rest.len() <= MAX_CHUNK {
                assert(piece@ =~= rest);
                assert(tail =~= Seq::<u8>::empty());
                assert(pieces(rest) =~= seq![piece@] + pieces(tail));
            } else {
                assert(piece@ =~= rest.take(MAX_CHUNK as int));
                assert(rest.skip(MAX_CHUNK as int) =~= tail);
            }
            assert(piece_texts(pieces(rest)) =~= seq![png_piece(piece@)] + piece_texts(
                pieces(tail),
            ));
            assert(texts(out@) + piece_texts(pieces(tail)) =~= before + piece_texts(pieces(rest)));
        }
        at = end;
    }
    assert(png@.skip(at as int) =~= Seq::<u8>::empty());
    assert(texts(out@) =~= head + piece_texts(pieces(png@)));
    push_text(&mut out, png_end_json().as_str());
    assert(texts(out@) =~= png_messages(png@));
    out
}

pub open spec fn png_key(png: Seq<u8>) -> Seq<char> {
    "png:"@ + hex_text(sha256_of(png))
}

impl AppState {
    /// Text from the clipboard is shared, unless it is what was shared last.
    pub open spec fn text_clipped(self, text: Seq<char>) -> (AppState, Seq<Fx>) {
        if text.len() == 0 || self.last_clip == text {
            (self, Seq::empty())
        } else {
            AppState { last_clip: text, ..self }.shared(one(clip_text(text)))
        }
    }

    pub open spec fn clips_text(self, text: Seq<char>) -> bool {
        text.len() > 0 && self.last_clip != text
    }

    /// Whether an image is shared: one that fits, and not what was shared last.
    pub open spec fn clips_png(self, png: Seq<u8>) -> bool {
        looks_png(png) && png.len() <= CLIP_PNG_MAX && self.last_clip != png_key(png)
    }

    pub open spec fn png_clipped(self, png: Seq<u8>) -> (AppState, Seq<Fx>) {
        if self.clips_png(png) {
            AppState { last_clip: png_key(png), ..self }.shared(png_messages(png))
        } else {
            (self, Seq::empty())
        }
    }

    /// What an action puts on the clipboard is shared.
    pub open spec fn clipped(self, a: Act) -> (AppState, Seq<Fx>) {
        match a {
            Act::Clipboard { text } => self.text_clipped(text),
            Act::Paste { text } => self.text_clipped(text),
            Act::ClipboardPng { png } => self.png_clipped(png),
            _ => (self, Seq::empty()),
        }
    }
}

/// The same content is not shared twice in a row.
pub proof fn same_clip_is_not_shared_again(s: AppState, text: Seq<char>, png: Seq<u8>)
    ensures
        s.text_clipped(text).0.text_clipped(text) == (s.text_clipped(text).0, Seq::<Fx>::empty()),
        s.png_clipped(png).0.png_clipped(png) == (s.png_clipped(png).0, Seq::<Fx>::empty()),
{
    shared_keeps(AppState { last_clip: text, ..s }, one(clip_text(text)));
    shared_keeps(AppState { last_clip: png_key(png), ..s }, png_messages(png));
}

/// Sharing messages changes nothing but what the publisher keeps.
pub proof fn shared_keeps(s: AppState, msgs: Seq<Seq<char>>)
    ensures
        s.shared(msgs).0 == (AppState { publisher: s.shared(msgs).0.publisher, ..s }),
    decreases msgs.len(),
{
    if msgs.len() > 0 {
        shared_keeps(s, msgs.drop_last());
    }
}

/// The image that comes in pieces after a message about it, and what came of
/// it: nothing where the message is about something else, nothing yet, or the
/// whole image.
pub open spec fn png_step(png: Option<(u64, Seq<u8>)>, v: Tree) -> (
    Option<(u64, Seq<u8>)>,
    Option<Option<Seq<u8>>>,
) {
    let mime = text_or(v.text_at("mime"@), Seq::empty());
    let phase = text_or(v.text_at("phase"@), Seq::empty());
    if v.text_at("action"@) != Some("clipboard"@) || !has_part(mime, "png"@) || phase.len() == 0 {
        (png, None)
    } else if phase == "begin"@ {
        let size = or(v.whole_at("size"@), 0);
        (
            if size <= CLIP_PNG_MAX {
                Some((size, Seq::empty()))
            } else {
                None
            },
            Some(None),
        )
    } else if phase == "chunk"@ {
        let data = base64_bytes(trimmed(text_or(v.text_at("data"@), Seq::empty())));
        (
            match (data, png) {
                (Some(b), Some(p)) => if p.1.len() + b.len() <= p.0 && p.1.len() + b.len()
                    <= CLIP_PNG_MAX {
                    Some((p.0, p.1 + b))
                } else {
                    None
                },
                _ => None,
            },
            Some(None),
        )
    } else if phase == "end"@ {
        (
            None,
            Some(
                match png {
                    Some(p) => if p.1.len() == p.0 && looks_png(p.1) && p.1.len() <= CLIP_PNG_MAX {
                        Some(p.1)
                    } else {
                        None
                    },
                    None => None,
                },
            ),
        )
    } else {
        (png, Some(None))
    }
}

pub open spec fn found(r: Option<Option<Vec<u8>>>) -> Option<Option<Seq<u8>>> {
    match r {
        None => None,
        Some(None) => Some(None),
        Some(Some(p)) => Some(Some(p@)),
    }
}

impl App {
    pub(crate) fn push_clipboard_text(&mut self, text: &str, out: &mut Vec<Effect>) -> (r: bool)
        ensures
            r == old(self)@.clips_text(text@),
            final(self)@ == old(self)@.text_clipped(text@).0,
            fxs(final(out)@) == fxs(old(out)@) + old(self)@.text_clipped(text@).1,
    {
        if text.is_empty() || same(self.last_clip.as_str(), text) {
            assert(fxs(out@) + Seq::<Fx>::empty() =~= fxs(out@));
            return false;
        }
        self.last_clip = text.to_owned();
        assert(self@ =~= (AppState { last_clip: text@, ..old(self)@ }));
        self.share(clip_json(text), out);
        true
    }

    pub(crate) fn push_clipboard_png(&mut self, png: &[u8], out: &mut Vec<Effect>) -> (r: bool)
        ensures
            r == old(self)@.clips_png(png@),
            final(self)@ == old(self)@.png_clipped(png@).0,
            fxs(final(out)@) == fxs(old(out)@) + old(self)@.png_clipped(png@).1,
    {
        if !is_png(png) || !png_fits(png.len()) {
            assert(fxs(out@) + Seq::<Fx>::empty() =~= fxs(out@));
            return false;
        }
        let key = concat2("png:", hex_encode(sha256_digest(png).as_slice()).as_str());
        if same(self.last_clip.as_str(), key.as_str()) {
            assert(fxs(out@) + Seq::<Fx>::empty() =~= fxs(out@));
            return false;
        }
        self.last_clip = key;
        assert(self@ =~= (AppState { last_clip: png_key(png@), ..old(self)@ }));
        self.share_all(png_replies(png), out);
        true
    }

    pub(crate) fn fanout_clipboard_action(&mut self, action: &Action, out: &mut Vec<Effect>)
        ensures
            final(self)@ == old(self)@.clipped(action@).0,
            fxs(final(out)@) == fxs(old(out)@) + old(self)@.clipped(action@).1,
    {
        match action {
            Action::Clipboard { text } => {
                let _ = self.push_clipboard_text(text.as_str(), out);
            },
            Action::Paste { text } => {
                let _ = self.push_clipboard_text(text.as_str(), out);
            },
            Action::ClipboardPng { png } => {
                let _ = self.push_clipboard_png(png.as_slice(), out);
            },
            _ => {
                assert(fxs(out@) + Seq::<Fx>::empty() =~= fxs(out@));
            },
        }
    }

    /// Phased PNG clipboard (`phase` begin/chunk/end). `None` = not this protocol;
    /// `Some(None)` = consumed but incomplete; `Some(Some(png))` = ready.
    pub fn ingest_clip_png(&mut self, v: &Json) -> (r: Option<Option<Vec<u8>>>)
        ensures
            found(r) == png_step(old(self)@.png, v.tree()).1,
            final(self)@ == (AppState { png: png_step(old(self)@.png, v.tree()).0, ..old(self)@ }),
    {
        let ghost st = self@;
        let about_clip = match v.text_at("action") {
            Some(a) => same(a, "clipboard"),
            None => false,
        };
        if !about_clip {
            return None;
        }
        if !contains(v.text_or_empty("mime").as_str(), "png") {
            return None;
        }
        let phase = v.text_or_empty("phase");
        if phase.as_str().is_empty() {
            return None;
        }
        if same(phase.as_str(), "begin") {
            let size: u64 = match v.whole_at("size") {
                Some(n) => n,
                None => 0,
            };
            if size <= CLIP_PNG_MAX as u64 {
                let buf: Vec<u8> = Vec::new();
                assert(buf@ =~= Seq::<u8>::empty());
                self.incoming_png = Some((size, buf));
            } else {
                self.incoming_png = None;
            }
            assert(self@ =~= (AppState { png: png_step(st.png, v.tree()).0, ..st }));
            Some(None)
        } else if same(phase.as_str(), "chunk") {
            let mut held: Option<(u64, Vec<u8>)> = None;
            std::mem::swap(&mut held, &mut self.incoming_png);
            match (decode_b64(v.text_or_empty("data").as_str()), held) {
                (Ok(b), Some((size, buf))) => {
                    let mut buf = buf;
                    if buf.len() <= CLIP_PNG_MAX && b.len() <= CLIP_PNG_MAX - buf.len() && (
                    buf.len() + b.len()) as u64 <= size {
                        extend(&mut buf, b.as_slice());
                        self.incoming_png = Some((size, buf));
                    }
                },
                _ => {},
            }
            assert(self@ =~= (AppState { png: png_step(st.png, v.tree()).0, ..st }));
            Some(None)
        } else if same(phase.as_str(), "end") {
            let mut held: Option<(u64, Vec<u8>)> = None;
            std::mem::swap(&mut held, &mut self.incoming_png);
            let ready = match held {
                Some((size, buf)) => if buf.len() as u64 == size {
                    accept_png(buf)
                } else {
                    None
                },
                None => None,
            };
            assert(self@ =~= (AppState { png: png_step(st.png, v.tree()).0, ..st }));
            Some(ready)
        } else {
            Some(None)
        }
    }
}

/// An image in pieces, one message for each.
pub open spec fn fed_pieces(png: Option<(u64, Seq<u8>)>, msgs: Seq<Tree>) -> Option<(u64, Seq<u8>)>
    decreases msgs.len(),
{
    if msgs.len() == 0 {
        png
    } else {
        png_step(fed_pieces(png, msgs.drop_last()), msgs.last()).0
    }
}

/// A message that carries a piece of an image.
pub open spec fn carries(v: Tree, piece: Seq<u8>) -> bool {
    &&& v.text_at("action"@) == Some("clipboard"@)
    &&& v.text_at("mime"@) is Some && has_part(v.text_at("mime"@)->Some_0, "png"@)
    &&& v.text_at("phase"@) == Some("chunk"@)
    &&& v.text_at("data"@) is Some && base64_bytes(trimmed(v.text_at("data"@)->Some_0)) == Some(
        piece,
    )
}

/// The pieces of an image put together.
pub open spec fn collected(ps: Seq<Seq<u8>>) -> Seq<u8>
    decreases ps.len(),
{
    if ps.len() == 0 {
        Seq::empty()
    } else {
        collected(ps.drop_last()) + ps.last()
    }
}

proof fn collected_grows(ps: Seq<Seq<u8>>, n: int)
    requires
        0 <= n <= ps.len(),
    ensures
        collected(ps.take(n)).len() <= collected(ps).len(),
    decreases ps.len() - n,
{
    if n < ps.len() {
        collected_grows(ps, n + 1);
        assert(ps.take(n + 1).drop_last() =~= ps.take(n));
    } else {
        assert(ps.take(n) =~= ps);
    }
}

/// A message about an image in pieces that stands at this point of the row.
pub open spec fn marks(v: Tree, phase: Seq<char>) -> bool {
    &&& v.text_at("action"@) == Some("clipboard"@)
    &&& v.text_at("mime"@) is Some && has_part(v.text_at("mime"@)->Some_0, "png"@)
    &&& v.text_at("phase"@) == Some(phase)
}

/// An image that was announced with its size, sent in pieces and ended arrives
/// whole, whatever was there before; nothing is left of it then.
pub proof fn pieces_make_the_image(
    before: Option<(u64, Seq<u8>)>,
    first: Tree,
    msgs: Seq<Tree>,
    last: Tree,
    ps: Seq<Seq<u8>>,
)
    requires
        marks(first, "begin"@),
        first.whole_at("size"@) == Some(collected(ps).len() as u64),
        msgs.len() == ps.len(),
        forall|i: int| 0 <= i < ps.len() ==> carries(#[trigger] msgs[i], ps[i]),
        marks(last, "end"@),
        collected(ps).len() <= CLIP_PNG_MAX,
        looks_png(collected(ps)),
    ensures
        ({
            let begun = png_step(before, first).0;
            let there = fed_pieces(begun, msgs);
            &&& there == Some((collected(ps).len() as u64, collected(ps)))
            &&& png_step(there, last) == (None::<(u64, Seq<u8>)>, Some(Some(collected(ps))))
        }),
{
    let size = collected(ps).len() as u64;
    reveal_strlit("begin");
    reveal_strlit("chunk");
    reveal_strlit("end");
    assert("begin"@.len() == 5 && "end"@.len() == 3 && "chunk"@.len() == 5);
    assert("begin"@[0] == 'b' && "chunk"@[0] == 'c' && "end"@[0] == 'e');
    pieces_so_far(size, msgs, ps, msgs.len() as int);
    assert(msgs.take(msgs.len() as int) =~= msgs);
    assert(ps.take(ps.len() as int) =~= ps);
}

proof fn pieces_so_far(size: u64, msgs: Seq<Tree>, ps: Seq<Seq<u8>>, n: int)
    requires
        msgs.len() == ps.len(),
        0 <= n <= ps.len(),
        forall|i: int| 0 <= i < ps.len() ==> carries(#[trigger] msgs[i], ps[i]),
        collected(ps).len() == size <= CLIP_PNG_MAX,
    ensures
        fed_pieces(Some((size, Seq::empty())), msgs.take(n)) == Some((size, collected(ps.take(n)))),
    decreases n,
{
    reveal_strlit("begin");
    reveal_strlit("chunk");
    if n == 0 {
        assert(collected(ps.take(0)) =~= Seq::<u8>::empty());
    } else {
        pieces_so_far(size, msgs, ps, n - 1);
        assert(msgs.take(n).drop_last() =~= msgs.take(n - 1));
        assert(ps.take(n).drop_last() =~= ps.take(n - 1));
        collected_grows(ps, n);
        assert(carries(msgs[n - 1], ps[n - 1]));
        assert("begin"@[0] != "chunk"@[0]);
    }
}

/// Who comes first takes the machine: the host's own input and screen are shut
/// as set, it is kept awake and recorded, and the pages are told. Nobody takes
/// it from them.
pub proof fn taking_control(s: AppState, session: Seq<char>)
    ensures
        ({
            let (r, fx) = s.taken(session);
            &&& r == (AppState { controller: r.controller, ..s })
            &&& s.controller is None && session.len() > 0 ==> r.controller == Some(session)
            &&& s.controller is None && session.len() == 0 ==> r.controller == Some("anon"@)
            &&& s.controller is Some ==> r == s && fx.len() == 0
            &&& s.controller is None ==> {
                &&& fx.len() >= 4
                &&& fx[0] == Fx::BlockLocal(s.cfg.control.block_local)
                &&& fx[1] == Fx::BlankScreen(s.cfg.control.blank_screen)
                &&& fx[2] == Fx::KeepAwake(true)
                &&& s.cfg.control.record_sessions ==> fx.len() == 5 && fx[3] is StartRecording
                &&& !s.cfg.control.record_sessions ==> fx.len() == 4
                &&& fx.last() is Status
            }
        }),
{
}

/// When control ends the host is given back: recording stops, its input and
/// screen are free, it sleeps unless it is to be kept awake, and it is locked
/// where that is set.
pub proof fn giving_control_back(s: AppState, lock: bool)
    ensures
        ({
            let (r, fx) = s.ended(lock);
            let awake = s.cfg.control.keep_awake && (s.cfg.control.enabled
                || s.cfg.access.unattended);
            let n: int = if s.controller is Some {
                1
            } else {
                0
            };
            let locks = lock && s.controller is Some && s.cfg.control.lock_on_end;
            &&& r == (AppState { controller: None, ..s })
            &&& s.controller is Some ==> fx[0] is StopRecording
            &&& fx[n] == Fx::BlockLocal(false)
            &&& fx[n + 1] == Fx::BlankScreen(false)
            &&& fx[n + 2] == Fx::KeepAwake(awake)
            &&& fx[n + 3] is Status
            &&& locks ==> fx.len() == n + 5 && fx[n + 4] == Fx::Inject(
                Act::Key { key: "q"@, down: None, modifiers: seq!["Control"@, "Meta"@] },
            )
            &&& !locks ==> fx.len() == n + 4
        }),
{
}

/// One drives where nobody does, or where one is the one who does; a message
/// without a session counts as from the one who does.
pub proof fn who_may_drive(s: AppState, c: Seq<char>, session: Seq<char>)
    ensures
        s.controller is None ==> s.may_drive(session) && !s.drives(session),
        s.controller == Some(c) ==> (s.may_drive(session) <==> session == c || session.len() == 0),
        s.controller == Some(c) && session.len() > 0 ==> (s.drives(session) <==> session == c),
        s.controller == Some(c) && session.len() == 0 && c.len() > 0 ==> (s.drives(session) <==> c
            == "anon"@),
{
}

/// What is shared goes to the publisher and to those that are connected, message
/// by message, in order.
pub proof fn sharing_goes_both_ways(s: AppState, msgs: Seq<Seq<char>>, m: Seq<char>)
    ensures
        s.shared(msgs.push(m)).1 == s.shared(msgs).1 + seq![Fx::Wire(m), Fx::Tell(m)],
        s.shared(msgs.push(m)).0 == s.shared(msgs).0.wired(m),
        s.shared(Seq::empty()) == (s, Seq::<Fx>::empty()),
{
    assert(msgs.push(m).drop_last() =~= msgs);
    assert(s.shared(msgs.push(m)).1 =~= s.shared(msgs).1 + seq![Fx::Wire(m), Fx::Tell(m)]);
}

/// Text on the clipboard is shared once, as it is; nothing is shared of an empty
/// one.
pub proof fn copied_text_is_shared(s: AppState, text: Seq<char>)
    ensures
        text.len() == 0 || text == s.last_clip ==> s.text_clipped(text) == (s, Seq::<Fx>::empty()),
        text.len() > 0 && text != s.last_clip ==> s.text_clipped(text).1 == seq![
            Fx::Wire(clip_text(text)),
            Fx::Tell(clip_text(text)),
        ] && s.text_clipped(text).0.last_clip == text,
        has_part(clip_text(text), shown("text"@, quoted(text))),
        has_part(clip_text(text), shown("type"@, quoted("clipboard"@))),
{
    let m = seq![("text"@, quoted(text)), ("type"@, quoted("clipboard"@))];
    object_shows(m, 0);
    object_shows(m, 1);
    if text.len() > 0 && text != s.last_clip {
        let t = AppState { last_clip: text, ..s };
        let none = Seq::<Seq<char>>::empty();
        sharing_goes_both_ways(t, none, clip_text(text));
        assert(none.push(clip_text(text)) =~= one(clip_text(text)));
        shared_keeps(t, one(clip_text(text)));
        assert(s.text_clipped(text).1 =~= seq![
            Fx::Wire(clip_text(text)),
            Fx::Tell(clip_text(text)),
        ]);
    }
}

/// What the messages of an image say: whole, or its length, its pieces and its
/// end.
pub proof fn image_messages_say_what_they_are(png: Seq<u8>, n: nat)
    ensures
        has_part(png_whole(png), shown("data"@, quoted(base64_of(png)))),
        has_part(png_whole(png), shown("mime"@, quoted("image/png"@))),
        has_part(png_whole(png), shown("type"@, quoted("clipboard"@))),
        has_part(png_begin(n), shown("action"@, quoted("begin"@))),
        has_part(png_begin(n), shown("size"@, decimal(n))),
        has_part(png_begin(n), shown("mime"@, quoted("image/png"@))),
        has_part(png_begin(n), shown("type"@, quoted("clipboard"@))),
        has_part(png_piece(png), shown("action"@, quoted("chunk"@))),
        has_part(png_piece(png), shown("data"@, quoted(base64_of(png)))),
        has_part(png_piece(png), shown("mime"@, quoted("image/png"@))),
        has_part(png_end(), shown("action"@, quoted("end"@))),
        has_part(png_end(), shown("mime"@, quoted("image/png"@))),
        has_part(png_end(), shown("type"@, quoted("clipboard"@))),
{
    let none = Seq::<(Seq<char>, Seq<char>)>::empty();
    let kind = seq![("type"@, quoted("clipboard"@))];
    let mime = seq![("mime"@, quoted("image/png"@))];
    let a = seq![("data"@, quoted(base64_of(png)))] + mime + none + kind;
    object_shows(a, 0);
    object_shows(a, 1);
    object_shows(a, 2);
    let b = seq![("action"@, quoted("begin"@))] + mime + seq![("size"@, decimal(n))] + kind;
    object_shows(b, 0);
    object_shows(b, 1);
    object_shows(b, 2);
    object_shows(b, 3);
    let c = seq![("action"@, quoted("chunk"@)), ("data"@, quoted(base64_of(png)))] + mime + none
        + kind;
    object_shows(c, 0);
    object_shows(c, 1);
    object_shows(c, 2);
    let d = seq![("action"@, quoted("end"@))] + mime + none + kind;
    object_shows(d, 0);
    object_shows(d, 1);
    object_shows(d, 2);
}

/// A small image goes out in one message; a larger one with its length first,
/// then every piece of it, then its end.
pub proof fn images_go_out_whole(png: Seq<u8>)
    ensures
        ({
            let m = png_messages(png);
            &&& png.len() <= 24_576 ==> m == seq![png_whole(png)]
            &&& png.len() > 24_576 ==> m.len() == pieces(png).len() + 2 && m[0] == png_begin(
                png.len(),
            ) && m.last() == png_end() && forall|i: int|
                0 <= i < pieces(png).len() ==> #[trigger] m[i + 1] == png_piece(pieces(png)[i])
        }),
{
}

/// An image is shared where it is a PNG that fits and was not the last thing
/// shared, and is known again by its digest.
pub proof fn copied_images_are_shared(s: AppState, png: Seq<u8>)
    ensures
        !looks_png(png) || png.len() > 134_217_728 ==> s.png_clipped(png) == (
            s,
            Seq::<Fx>::empty(),
        ),
        looks_png(png) && png.len() <= 134_217_728 && s.last_clip != "png:"@ + hex_text(
            sha256_of(png),
        ) ==> s.png_clipped(png) == (AppState {
            last_clip: "png:"@ + hex_text(sha256_of(png)),
            ..s
        }).shared(png_messages(png)),
        s.last_clip == "png:"@ + hex_text(sha256_of(png)) ==> s.png_clipped(png) == (
            s,
            Seq::<Fx>::empty(),
        ),
{
}

/// A clipboard, a paste and an image are shared with the others; no other action
/// is.
pub proof fn clipboard_actions_are_shared(s: AppState, a: Act)
    ensures
        a matches Act::Clipboard { text } ==> s.clipped(a) == s.text_clipped(text),
        a matches Act::Paste { text } ==> s.clipped(a) == s.text_clipped(text),
        a matches Act::ClipboardPng { png } ==> s.clipped(a) == s.png_clipped(png),
        !(a is Clipboard) && !(a is Paste) && !(a is ClipboardPng) ==> s.clipped(a) == (
            s,
            Seq::<Fx>::empty(),
        ),
{
}

/// An image that comes in pieces is dropped where it is too large, where more
/// comes than was announced, or where a piece is missing at the end.
pub proof fn bad_images_are_dropped(size: u64, got: Seq<u8>, v: Tree, piece: Seq<u8>)
    ensures
        marks(v, "begin"@) && v.whole_at("size"@) == Some(size) && size > 134_217_728 ==> png_step(
            Some((size, got)),
            v,
        ) == (None::<(u64, Seq<u8>)>, Some(None::<Seq<u8>>)),
        carries(v, piece) && got.len() + piece.len() > size ==> png_step(Some((size, got)), v) == (
            None::<(u64, Seq<u8>)>,
            Some(None::<Seq<u8>>),
        ),
        carries(v, piece) ==> png_step(None, v) == (
            None::<(u64, Seq<u8>)>,
            Some(None::<Seq<u8>>),
        ),
        marks(v, "end"@) && (got.len() != size || !looks_png(got)) ==> png_step(
            Some((size, got)),
            v,
        ) == (None::<(u64, Seq<u8>)>, Some(None::<Seq<u8>>)),
        v.text_at("phase"@) is None ==> png_step(Some((size, got)), v) == (
            Some((size, got)),
            None::<Option<Seq<u8>>>,
        ),
{
    reveal_strlit("begin");
    reveal_strlit("chunk");
    reveal_strlit("end");
    assert("begin"@[0] == 'b' && "begin"@.len() == 5 && "chunk"@[0] == 'c' && "chunk"@.len() == 5
        && "end"@.len() == 3);
}

} // verus!
