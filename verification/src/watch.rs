//! A watcher's connection: what it is sent, and what is read from it.

use crate::access::Refusal;
use crate::chat::{history_json, history_text};
use crate::frame::frames_of;
use crate::hub::{buffer_slice, Hub, HubState, Media};
use crate::json::{member, parsed, Json, Tree};
use crate::octets::extend;
use crate::patch::members;
use crate::protocol::{
    envelope, pack_media, unpack_undoes_pack, TYPE_FRAG, TYPE_INIT, TYPE_JPEG, TYPE_SNAP,
};
use crate::server::{fxs, App, Effect, Fx};
use crate::text::{comes_before, decimal, decimal_text, lower, lowercase, precedes, same, utf8_text};
use crate::ws::{
    accept_key, accept_text, decode_frame, decode_undoes_encode, encode_frame, frame_bytes,
    frame_parts, OP_BIN, OP_CLOSE, OP_PING, OP_PONG, OP_TEXT,
};
use vstd::prelude::*;
use vstd::utf8::*;

verus! {

/// What was read from a watcher and calls for something.
#[derive(Debug)]
pub enum WatchEvent {
    /// A frame to send back.
    Reply(Vec<u8>),
    /// What a message holds, to be handed to the origin.
    Message(Vec<u8>),
}

#[verifier::ext_equal]
pub ghost enum Heard {
    Reply(Seq<u8>),
    Message(Seq<u8>),
}

impl View for WatchEvent {
    type V = Heard;

    open spec fn view(&self) -> Heard {
        match self {
            WatchEvent::Reply(b) => Heard::Reply(b@),
            WatchEvent::Message(b) => Heard::Message(b@),
        }
    }
}

pub open spec fn heard_all(v: Seq<WatchEvent>) -> Seq<Heard> {
    Seq::new(v.len(), |i: int| v[i]@)
}

/// Where a member of that name goes in an object that is in order.
pub open spec fn slot(m: Seq<(Seq<char>, Tree)>, k: Seq<char>) -> int
    decreases m.len(),
{
    if m.len() == 0 || precedes(k, m[0].0) {
        0
    } else {
        1 + slot(m.drop_first(), k)
    }
}

proof fn slot_fits(m: Seq<(Seq<char>, Tree)>, k: Seq<char>)
    ensures
        0 <= slot(m, k) <= m.len(),
    decreases m.len(),
{
    if m.len() > 0 && !precedes(k, m[0].0) {
        slot_fits(m.drop_first(), k);
    }
}

/// A message with the session it came from, unless it names one itself.
pub open spec fn signed(v: Tree, session: Seq<char>) -> Tree {
    match v {
        Tree::Obj(m) => if member(m, "session"@) is None {
            Tree::Obj(m.insert(slot(m, "session"@), ("session"@, Tree::Str(session))))
        } else {
            v
        },
        _ => v,
    }
}

fn sign(v: Json, session: &str) -> (r: Json)
    ensures
        r.tree() == signed(v.tree(), session@),
{
    if v.get("session").is_some() {
        return v;
    }
    match v {
        Json::Obj(map) => {
            let mut map = map;
            let ghost m = members(map@);
            proof {
                crate::patch::object_tree(map);
            }
            let mut at: usize = 0;
            assert(m.skip(0) =~= m);
            while at < map.len() && !comes_before("session", map[at].0.as_str())
                invariant
                    at <= map@.len() == m.len(),
                    m == members(map@),
                    at + slot(m.skip(at as int), "session"@) == slot(m, "session"@),
                decreases map@.len() - at,
            {
                assert(m.skip(at as int)[0] == m[at as int]);
                assert(m.skip(at as int).drop_first() =~= m.skip(at + 1));
                at += 1;
            }
            proof {
                if at < m.len() {
                    assert(m.skip(at as int)[0] == m[at as int]);
                }
                assert(at == slot(m, "session"@));
            }
            map.insert(at, ("session".to_owned(), Json::Str(session.to_owned())));
            proof {
                crate::patch::object_tree(map);
                assert(members(map@) =~= m.insert(
                    at as int,
                    ("session"@, Tree::Str(session@)),
                ));
            }
            Json::Obj(map)
        },
        other => other,
    }
}

/// The JSON value in a payload, if it holds one.
pub open spec fn message_in(payload: Seq<u8>) -> Option<Tree> {
    if valid_utf8(payload) {
        parsed(decode_utf8(payload))
    } else {
        None
    }
}

/// What a frame from a watcher calls for.
pub open spec fn heard(op: u8, payload: Seq<u8>) -> Seq<Heard> {
    if op == OP_PING {
        seq![Heard::Reply(frame_bytes(payload, OP_PONG, None))]
    } else if op == OP_TEXT || op == OP_BIN {
        seq![Heard::Message(payload)]
    } else {
        Seq::empty()
    }
}

proof fn frames_are_long(buf: Seq<u8>)
    ensures
        match frame_parts(buf) {
            Some(f) => 2 <= f.2 <= buf.len(),
            None => true,
        },
{
}

/// The frames in what was read: what they call for, what is left over, and
/// whether the watcher closed.
pub open spec fn read_frames(buf: Seq<u8>) -> (Seq<Heard>, Seq<u8>, bool)
    decreases buf.len(),
{
    match frame_parts(buf) {
        None => (Seq::empty(), buf, false),
        Some(f) => if f.0 == OP_CLOSE {
            (Seq::empty(), buf.skip(f.2), true)
        } else if 2 <= f.2 <= buf.len() {
            let r = read_frames(buf.skip(f.2));
            (heard(f.0, f.1) + r.0, r.1, r.2)
        } else {
            (Seq::empty(), buf, false)
        },
    }
}

/// A watcher's connection.
pub struct Watch {
    session: String,
    buf: Vec<u8>,
}

#[verifier::ext_equal]
pub ghost struct WatchState {
    pub session: Seq<char>,
    /// What was read and is no whole frame yet.
    pub buf: Seq<u8>,
}

impl View for Watch {
    type V = WatchState;

    closed spec fn view(&self) -> WatchState {
        WatchState { session: self.session@, buf: self.buf@ }
    }
}

impl Watch {
    pub fn new(session: String) -> (w: Self)
        ensures
            w@ == (WatchState { session: session@, buf: Seq::empty() }),
    {
        let w = Watch { session, buf: Vec::new() };
        assert(w.buf@ =~= Seq::empty());
        w
    }

    /// Takes what was read; says what to do, and whether the watcher closed.
    pub fn feed(&mut self, chunk: &[u8]) -> (r: (Vec<WatchEvent>, bool))
        ensures
            ({
                let all = read_frames(old(self)@.buf + chunk@);
                &&& heard_all(r.0@) == all.0
                &&& r.1 == all.2
                &&& final(self)@ == (WatchState { buf: all.1, ..old(self)@ })
            }),
    {
        extend(&mut self.buf, chunk);
        let ghost all = read_frames(self.buf@);
        let mut out: Vec<WatchEvent> = Vec::new();
        assert(heard_all(out@) + all.0 =~= all.0);
        loop
            invariant
                self.session@ == old(self)@.session,
                all == read_frames(old(self)@.buf + chunk@),
                ({
                    let r = read_frames(self.buf@);
                    all == (heard_all(out@) + r.0, r.1, r.2)
                }),
            ensures
                self.session@ == old(self)@.session,
                all == (heard_all(out@), self.buf@, false),
            decreases self.buf@.len(),
        {
            let ghost here = self.buf@;
            let ghost before = heard_all(out@);
            proof {
                frames_are_long(here);
            }
            let (op, data, n) = decode_frame(self.buf.as_slice());
            let op: u8 = match op {
                Some(o) => o,
                None => {
                    assert(before + Seq::<Heard>::empty() =~= before);
                    break ;
                },
            };
            let rest = vstd::slice::slice_to_vec(
                vstd::slice::slice_subrange(self.buf.as_slice(), n, self.buf.len()),
            );
            assert(rest@ =~= here.skip(n as int));
            self.buf = rest;
            if op == OP_CLOSE {
                assert(before + Seq::<Heard>::empty() =~= before);
                return (out, true);
            }
            if op == OP_PING {
                out.push(WatchEvent::Reply(encode_frame(data.as_slice(), OP_PONG, false)));
            } else if op == OP_TEXT || op == OP_BIN {
                out.push(WatchEvent::Message(data));
            }
            assert(heard_all(out@) =~= before + heard(op, data@));
            proof {
                let r = read_frames(self.buf@);
                assert(before + (heard(op, data@) + r.0) =~= heard_all(out@) + r.0);
            }
        }
        (out, false)
    }
}

impl App {
    /// A message from a watcher, as its frame held it. It counts as coming from
    /// the session of the connection, unless it names one itself.
    pub fn hear(
        &mut self,
        watch: &Watch,
        payload: &[u8],
        now: u64,
        now_ms: u64,
        out: &mut Vec<Effect>,
    )
        ensures
            ({
                let r = match message_in(payload@) {
                    Some(v) => old(self)@.received(signed(v, watch@.session), now, now_ms),
                    None => (old(self)@, Seq::empty()),
                };
                &&& final(self)@ == r.0
                &&& fxs(final(out)@) == fxs(old(out)@) + r.1
            }),
    {
        assert(fxs(out@) + Seq::<Fx>::empty() =~= fxs(out@));
        if let Some(s) = utf8_text(payload) {
            if let Some(v) = Json::parse(s.as_str()) {
                self.handle_inbound(&sign(v, watch.session.as_str()), now, now_ms, out);
            }
        }
    }
}

/// However the bytes of a connection are cut into reads, the same is read.
pub proof fn reads_join(buf: Seq<u8>, a: Seq<u8>)
    ensures
        ({
            let first = read_frames(buf);
            let more = read_frames(first.1 + a);
            !first.2 ==> read_frames(buf + a) == (first.0 + more.0, more.1, more.2)
        }),
    decreases buf.len(),
{
    frames_are_long(buf);
    match frame_parts(buf) {
        None => {
            assert(Seq::<Heard>::empty() + read_frames(buf + a).0 =~= read_frames(buf + a).0);
        },
        Some(f) => {
            frame_stays(buf, a);
            assert((buf + a).skip(f.2) =~= buf.skip(f.2) + a);
            if f.0 != OP_CLOSE {
                reads_join(buf.skip(f.2), a);
                let first = read_frames(buf.skip(f.2));
                let more = read_frames(first.1 + a);
                assert(heard(f.0, f.1) + (first.0 + more.0) =~= (heard(f.0, f.1)
                    + first.0) + more.0);
            }
        },
    }
}

proof fn frame_stays(buf: Seq<u8>, a: Seq<u8>)
    requires
        frame_parts(buf) is Some,
    ensures
        frame_parts(buf + a) == frame_parts(buf),
{
    let h = crate::ws::frame_head(buf)->Some_0;
    let all = buf + a;
    assert(crate::ws::frame_head(all) == crate::ws::frame_head(buf)) by {
        if buf[1] as int % 128 == 126 {
            assert(all.subrange(2, 4) =~= buf.subrange(2, 4));
        } else if buf[1] as int % 128 == 127 {
            assert(all.subrange(2, 10) =~= buf.subrange(2, 10));
        }
    }
    assert(all.subrange(h.0, h.0 + h.1) =~= buf.subrange(h.0, h.0 + h.1));
    if buf[1] >= 0x80 {
        assert(all.subrange(h.0 - 4, h.0) =~= buf.subrange(h.0 - 4, h.0));
    }
}

/// What a watcher sends is heard as it was sent, masked or not, whatever comes
/// behind it; a frame that closes is the last that is heard.
pub proof fn sent_frames_are_heard(
    payload: Seq<u8>,
    op: u8,
    key: Option<Seq<u8>>,
    tail: Seq<u8>,
)
    requires
        payload.len() <= usize::MAX,
        op < 16,
        key matches Some(k) ==> k.len() == 4,
    ensures
        read_frames(frame_bytes(payload, op, key) + tail) == if op == OP_CLOSE {
            (Seq::<Heard>::empty(), tail, true)
        } else {
            let r = read_frames(tail);
            (heard(op, payload) + r.0, r.1, r.2)
        },
{
    let wire = frame_bytes(payload, op, key);
    decode_undoes_encode(payload, op, key, tail);
    frames_are_long(wire + tail);
    assert((wire + tail).skip(wire.len() as int) =~= tail);
}

/// A message that a watcher sends is heard whole, and it is the JSON value of
/// the text that was sent.
pub proof fn sent_message_is_heard(text: Seq<char>, key: Option<Seq<u8>>, tail: Seq<u8>)
    requires
        encode_utf8(text).len() <= usize::MAX,
        key matches Some(k) ==> k.len() == 4,
    ensures
        read_frames(frame_bytes(encode_utf8(text), OP_TEXT, key) + tail).0 == seq![
            Heard::Message(encode_utf8(text)),
        ] + read_frames(tail).0,
        message_in(encode_utf8(text)) == parsed(text),
{
    sent_frames_are_heard(encode_utf8(text), OP_TEXT, key, tail);
    encode_utf8_valid_utf8(text);
    encode_utf8_decode_utf8(text);
}

/// A packed unit in a frame.
pub open spec fn unit_frame(kind: u8, data: Seq<u8>) -> Seq<u8> {
    frame_bytes(envelope(kind, data), OP_BIN, None)
}

/// A watcher reads each unit out of its frame with its type and its payload.
pub proof fn units_arrive_typed(kind: u8, data: Seq<u8>, tail: Seq<u8>)
    requires
        data.len() < usize::MAX,
    ensures
        frame_parts(unit_frame(kind, data) + tail) matches Some(f) && f.0 == OP_BIN && f.1.len() > 0
            && f.1[0] == kind && f.1.skip(1) == data && f.2 == unit_frame(kind, data).len(),
{
    decode_undoes_encode(envelope(kind, data), OP_BIN, None, tail);
    unpack_undoes_pack(kind, data);
}

/// A message in a frame.
pub open spec fn text_frame_bytes(msg: Seq<char>) -> Seq<u8> {
    frame_bytes(encode_utf8(msg), OP_TEXT, None)
}

pub fn text_frame(msg: &str) -> (b: Vec<u8>)
    ensures
        b@ == text_frame_bytes(msg@),
{
    encode_frame(msg.as_bytes(), OP_TEXT, false)
}

/// The frame of a unit; snapshots are not for watchers.
pub fn media_frame(m: &Media) -> (r: Option<Vec<u8>>)
    ensures
        match r {
            Some(b) => m.kind != TYPE_SNAP && b@ == unit_frame(m.kind, m@.data),
            None => m.kind == TYPE_SNAP,
        },
{
    if m.kind == TYPE_SNAP {
        return None;
    }
    Some(encode_frame(pack_media(m.kind, buffer_slice(&m.data)).as_slice(), OP_BIN, false))
}

/// What a watcher is sent first: the init segment, the latest picture or
/// fragment, and the chat so far.
pub open spec fn greeting(h: HubState, chat: Seq<Seq<char>>) -> Seq<Seq<u8>> {
    (match h.init {
        Some(i) => seq![unit_frame(TYPE_INIT, i)],
        None => Seq::empty(),
    }) + (match h.latest {
        Some(m) => if m.kind == TYPE_JPEG || (m.kind == TYPE_FRAG && h.init is Some) {
            seq![unit_frame(m.kind, m.data)]
        } else {
            Seq::empty()
        },
        None => Seq::empty(),
    }) + (if chat.len() > 0 {
        seq![text_frame_bytes(history_text(chat))]
    } else {
        Seq::empty()
    })
}

impl App {
    /// The frames that a watcher is sent first.
    pub fn greet(&self, hub: &Hub) -> (out: Vec<Vec<u8>>)
        ensures
            frames_of(out@) == greeting(hub@, self@.chat),
    {
        let mut out: Vec<Vec<u8>> = Vec::new();
        let init = hub.init_segment();
        let has_init = init.is_some();
        if let Some(i) = init {
            out.push(
                encode_frame(pack_media(TYPE_INIT, buffer_slice(&i)).as_slice(), OP_BIN, false),
            );
        }
        if let Some(m) = hub.latest() {
            if m.kind == TYPE_JPEG || (m.kind == TYPE_FRAG && has_init) {
                if let Some(b) = media_frame(&m) {
                    out.push(b);
                }
            }
        }
        if self.chat_log.len() > 0 {
            out.push(text_frame(history_json(&self.chat_log).as_str()));
        }
        assert(frames_of(out@) =~= greeting(hub@, self@.chat));
        out
    }
}

/// Whether a request may become a WebSocket; if so, the key that accepts it.
pub fn upgrade_check(upgrade: Option<&str>, key: Option<&str>) -> (r: Result<String, Refusal>)
    ensures
        match r {
            Ok(a) => {
                &&& upgrade is Some && lower(upgrade->Some_0@) == "websocket"@
                &&& key is Some && a@ == accept_text(key->Some_0@)
            },
            Err(e) => if upgrade is Some && lower(upgrade->Some_0@) == "websocket"@ {
                key is None && e.status == 400 && e.reason@ == "missing Sec-WebSocket-Key"@
            } else {
                e.status == 426 && e.reason@ == "expected websocket"@
            },
        },
{
    let ok = match upgrade {
        Some(u) => same(lowercase(u).as_str(), "websocket"),
        None => false,
    };
    if !ok {
        return Err(Refusal { status: 426, reason: "expected websocket" });
    }
    match key {
        Some(k) => Ok(accept_key(k)),
        None => Err(Refusal { status: 400, reason: "missing Sec-WebSocket-Key" }),
    }
}

/// Whether fragmented MP4 is served, which takes an encoder that makes it.
pub fn mp4_check(mode: &str) -> (r: Result<(), Refusal>)
    ensures
        match r {
            Ok(_) => mode@ != "mjpeg"@,
            Err(e) => mode@ == "mjpeg"@ && e.status == 409 && e.reason@
                == "encoder mode is mjpeg; use /stream.mjpeg"@,
        },
{
    if same(mode, "mjpeg") {
        Err(Refusal { status: 409, reason: "encoder mode is mjpeg; use /stream.mjpeg" })
    } else {
        Ok(())
    }
}

/// Whether a stream of pictures is served, which takes an encoder that makes it.
pub fn mjpeg_check(mode: &str) -> (r: Result<(), Refusal>)
    ensures
        match r {
            Ok(_) => mode@ == "mjpeg"@,
            Err(e) => mode@ != "mjpeg"@ && e.status == 409 && e.reason@
                == "encoder mode is not mjpeg; use /stream.mp4"@,
        },
{
    if same(mode, "mjpeg") {
        Ok(())
    } else {
        Err(Refusal { status: 409, reason: "encoder mode is not mjpeg; use /stream.mp4" })
    }
}

/// What a unit adds to a stream of fragmented MP4.
pub fn mp4_part(m: &Media) -> (r: Option<bytes::Bytes>)
    ensures
        match r {
            Some(b) => (m.kind == TYPE_INIT || m.kind == TYPE_FRAG) && crate::hub::bytes_in(b)
                == m@.data,
            None => m.kind != TYPE_INIT && m.kind != TYPE_FRAG,
        },
{
    if m.kind == TYPE_INIT || m.kind == TYPE_FRAG {
        Some(m.data.clone())
    } else {
        None
    }
}

/// One picture of a stream of pictures.
pub open spec fn picture_part(jpeg: Seq<u8>) -> Seq<u8> {
    encode_utf8("--frame\r\nContent-Type: image/jpeg\r\nContent-Length: "@) + encode_utf8(
        decimal(jpeg.len()),
    ) + encode_utf8("\r\n\r\n"@) + jpeg + encode_utf8("\r\n"@)
}

pub fn mjpeg_part(jpeg: &[u8]) -> (v: Vec<u8>)
    ensures
        v@ == picture_part(jpeg@),
{
    let mut v: Vec<u8> = Vec::new();
    extend(&mut v, "--frame\r\nContent-Type: image/jpeg\r\nContent-Length: ".as_bytes());
    extend(&mut v, decimal_text(jpeg.len() as u64).as_str().as_bytes());
    extend(&mut v, "\r\n\r\n".as_bytes());
    extend(&mut v, jpeg);
    extend(&mut v, "\r\n".as_bytes());
    v
}

/// What a unit adds to a stream of pictures.
pub fn mjpeg_unit(m: &Media) -> (r: Option<Vec<u8>>)
    ensures
        match r {
            Some(v) => m.kind == TYPE_JPEG && v@ == picture_part(m@.data),
            None => m.kind != TYPE_JPEG,
        },
{
    if m.kind == TYPE_JPEG {
        Some(mjpeg_part(buffer_slice(&m.data)))
    } else {
        None
    }
}

/// The picture that a stream of pictures begins with.
pub fn mjpeg_opening(hub: &Hub) -> (r: Option<Vec<u8>>)
    ensures
        match r {
            Some(v) => hub@.latest is Some && hub@.latest->Some_0.kind == TYPE_JPEG && v@
                == picture_part(hub@.latest->Some_0.data),
            None => hub@.latest is None || hub@.latest->Some_0.kind != TYPE_JPEG,
        },
{
    match hub.latest() {
        Some(m) => mjpeg_unit(&m),
        None => None,
    }
}

/// Whether an MP4 stream goes on: the capture that it began with must still be
/// the one that is shown, and where it was looked whether it runs, it must run.
pub fn mp4_goes_on(running: Option<bool>, begun: u64, now: u64) -> (r: bool)
    ensures
        r == (begun == now && running != Some(false)),
{
    begun == now && match running {
        Some(on) => on,
        None => true,
    }
}

/// What a watcher sends is answered by its kind: a ping with a pong of the same
/// payload, texts and bytes as messages; a close ends the reading, and other
/// frames call for nothing.
pub proof fn frames_are_heard_by_kind(
    payload: Seq<u8>,
    op: u8,
    key: Option<Seq<u8>>,
    tail: Seq<u8>,
)
    requires
        payload.len() <= usize::MAX,
        op < 16,
        key matches Some(k) ==> k.len() == 4,
    ensures
        ({
            let r = read_frames(frame_bytes(payload, op, key) + tail);
            let rest = read_frames(tail);
            &&& op == 9 ==> r == (
                seq![Heard::Reply(frame_bytes(payload, 10, None))] + rest.0,
                rest.1,
                rest.2,
            )
            &&& op == 1 || op == 2 ==> r == (
                seq![Heard::Message(payload)] + rest.0,
                rest.1,
                rest.2,
            )
            &&& op == 8 ==> r == (Seq::<Heard>::empty(), tail, true)
            &&& op == 0 || op == 10 || 3 <= op <= 7 || 11 <= op <= 15 ==> r == rest
        }),
{
    sent_frames_are_heard(payload, op, key, tail);
    let rest = read_frames(tail);
    assert(Seq::<Heard>::empty() + rest.0 =~= rest.0);
}

/// Text goes out as a text frame and units as byte frames.
pub proof fn frames_say_what_they_hold(msg: Seq<char>, kind: u8, data: Seq<u8>)
    requires
        encode_utf8(msg).len() <= usize::MAX,
        data.len() < usize::MAX,
    ensures
        text_frame_bytes(msg)[0] == 129,
        unit_frame(kind, data)[0] == 130,
        frame_parts(text_frame_bytes(msg)) == Some(
            (1u8, encode_utf8(msg), text_frame_bytes(msg).len() as int),
        ),
        frame_parts(unit_frame(kind, data)) == Some(
            (2u8, seq![kind] + data, unit_frame(kind, data).len() as int),
        ),
{
    let none = Seq::<u8>::empty();
    decode_undoes_encode(encode_utf8(msg), 1, None, none);
    assert(text_frame_bytes(msg) + none =~= text_frame_bytes(msg));
    decode_undoes_encode(seq![kind] + data, 2, None, none);
    assert(unit_frame(kind, data) + none =~= unit_frame(kind, data));
}

proof fn member_of_inserted(m: Seq<(Seq<char>, Tree)>, at: int, new: (Seq<char>, Tree), k: Seq<char>)
    requires
        0 <= at <= m.len(),
        member(m, new.0) is None,
    ensures
        member(m.insert(at, new), k) == if k == new.0 {
            Some(new.1)
        } else {
            member(m, k)
        },
    decreases m.len(),
{
    let r = m.insert(at, new);
    if at == 0 {
        assert(r[0] == new);
        assert(r.drop_first() =~= m);
    } else {
        assert(r[0] == m[0]);
        assert(r.drop_first() =~= m.drop_first().insert(at - 1, new));
        member_of_inserted(m.drop_first(), at - 1, new, k);
    }
}

/// A message counts for the session that it came in on: one that names none is
/// given it, with every other member kept, and one that names another keeps
/// what it names.
pub proof fn messages_are_signed(v: Tree, session: Seq<char>, k: Seq<char>)
    ensures
        v is Obj && v.get("session"@) is None ==> signed(v, session).get("session"@) == Some(
            Tree::Str(session),
        ),
        v.get("session"@) is Some ==> signed(v, session) == v,
        k != "session"@ ==> signed(v, session).get(k) == v.get(k),
        !(v is Obj) ==> signed(v, session) == v,
{
    if let Tree::Obj(m) = v {
        if member(m, "session"@) is None {
            slot_fits(m, "session"@);
            let new = ("session"@, Tree::Str(session));
            member_of_inserted(m, slot(m, "session"@), new, k);
            member_of_inserted(m, slot(m, "session"@), new, "session"@);
        }
    }
}

/// A watcher who joins late is sent what it takes to go on at once: the init
/// segment first, then the latest unit, but no fragment without an init
/// segment; and last what was said so far.
pub proof fn late_joiners_are_brought_up(h: HubState, chat: Seq<Seq<char>>)
    ensures
        ({
            let g = greeting(h, chat);
            &&& h.init matches Some(i) ==> g.len() > 0 && g[0] == unit_frame(1, i)
            &&& h.init is None && h.latest is None && chat.len() == 0 ==> g.len() == 0
            &&& chat.len() > 0 ==> g.len() > 0 && g.last() == text_frame_bytes(history_text(chat))
            &&& h.latest matches Some(m) ==> (m.kind == 3 ==> g.len() > (if h.init is Some {
                1int
            } else {
                0
            }) && g[if h.init is Some {
                1int
            } else {
                0
            }] == unit_frame(3, m.data))
            &&& h.latest matches Some(m) ==> (m.kind == 2 && h.init is Some ==> g.len() > 1 && g[1]
                == unit_frame(2, m.data))
            &&& h.latest matches Some(m) ==> (m.kind == 2 && h.init is None ==> g.len() == if chat.len()
                > 0 {
                1int
            } else {
                0
            })
            &&& g.len() <= 3
        }),
{
}

/// A picture in a stream of pictures stands whole behind a head that names its
/// kind and its length.
pub proof fn picture_parts_name_their_length(jpeg: Seq<u8>)
    ensures
        ({
            let p = picture_part(jpeg);
            let head = encode_utf8("--frame\r\nContent-Type: image/jpeg\r\nContent-Length: "@);
            let digits = encode_utf8(decimal(jpeg.len()));
            let k = (head.len() + digits.len()) as int;
            &&& p.take(head.len() as int) == head
            &&& p.subrange(head.len() as int, k) == digits
            &&& p.subrange(k, k + 4) == seq![13u8, 10, 13, 10]
            &&& p.subrange(k + 4, k + 4 + jpeg.len()) == jpeg
            &&& p.skip(k + 4 + jpeg.len()) == seq![13u8, 10]
        }),
{
    let p = picture_part(jpeg);
    let head = encode_utf8("--frame\r\nContent-Type: image/jpeg\r\nContent-Length: "@);
    let digits = encode_utf8(decimal(jpeg.len()));
    let k = (head.len() + digits.len()) as int;
    reveal_strlit("\r\n\r\n");
    reveal_strlit("\r\n");
    let a = "\r\n\r\n"@;
    let b = "\r\n"@;
    is_ascii_chars_encode_utf8(a);
    is_ascii_chars_encode_utf8(b);
    assert(b[0] == '\r' && b[1] == '\n');
    assert(a[0] == '\r' && a[1] == '\n' && a[2] == '\r' && a[3] == '\n');
    assert(encode_utf8(b) =~= seq![13u8, 10]);
    assert(encode_utf8(a) =~= seq![13u8, 10, 13, 10]);
    assert(p.take(head.len() as int) =~= head);
    assert(p.subrange(head.len() as int, k) =~= digits);
    assert(p.subrange(k, k + 4) =~= seq![13u8, 10, 13, 10]);
    assert(p.subrange(k + 4, k + 4 + jpeg.len()) =~= jpeg);
    assert(p.skip(k + 4 + jpeg.len()) =~= seq![13u8, 10]);
}

} // verus!
