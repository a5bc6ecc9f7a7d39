//! Outbound WebSocket publisher: bitstream plus JSON wire (PIN hash, flags, inbound control).
//!
//! Durations are nanoseconds.

use crate::capture::SECOND;
use crate::config::{Config, ConfigFacts};
use crate::hub::{buffer_slice, Hub, HubState};
use crate::link::{
    append_pair, has_room, pair_fits, parse_url, query_of, query_pairs, text_pairs, url_of, with_pair,
};
use crate::protocol::{envelope, pack_media, TYPE_FRAG, TYPE_INIT};
use crate::text::{
    begins, contains, copy_texts, has_part, part_at, part_between, part_of_part, push_text, same,
    starts_with, texts, utf8_text,
};
use crate::thumbs::{merge_thumbs_latest, merged};
use vstd::prelude::*;
use vstd::utf8::*;

verus! {

/// How long one send may take.
pub const SEND_TIMEOUT: u64 = 2_000_000_000;

/// How often a ping goes out.
pub const PING_EVERY: u64 = 10_000_000_000;

/// How many units may wait for the publisher.
pub const PUBLISH_QUEUE: usize = 32;

/// How many fragments in a row may be skipped before the session is given up.
pub const MAX_SKIPS: u32 = 8;

pub const URL_TOO_LONG: &'static str = "publish url too long";

pub const SEND_TIMED_OUT: &'static str = "publisher send timeout";

pub const TEXT_TIMED_OUT: &'static str = "publisher text timeout";

pub const PING_TIMED_OUT: &'static str = "publisher ping timeout";

/// Whether an error is a send that took too long.
pub open spec fn timed_out(err: Seq<char>) -> bool {
    has_part(err, SEND_TIMED_OUT@) || has_part(err, TEXT_TIMED_OUT@) || has_part(
        err,
        PING_TIMED_OUT@,
    )
}

/// Timeouts are transient backpressure from the Durable Object. Reconnect
/// on those used to stall the watch page for ~30s at a time.
pub fn skip_on_send_timeout(err: &str) -> (r: bool)
    ensures
        r == timed_out(err@),
{
    contains(err, SEND_TIMED_OUT) || contains(err, TEXT_TIMED_OUT) || contains(err, PING_TIMED_OUT)
}

/// Twice the wait before, between one and thirty seconds.
pub open spec fn doubled(prev: u64) -> int {
    if 2 * prev < SECOND {
        SECOND as int
    } else if 2 * prev > 30 * SECOND {
        30 * SECOND
    } else {
        2 * prev
    }
}

pub fn next_backoff(prev: u64) -> (d: u64)
    ensures
        d == doubled(prev),
{
    if prev > 15 * SECOND {
        30 * SECOND
    } else if prev * 2 < SECOND {
        SECOND
    } else {
        prev * 2
    }
}

/// A wait is never shorter than a second and never longer than thirty, and it
/// never shrinks on the way there.
pub proof fn backoff_stays_in_bounds(prev: u64)
    ensures
        SECOND <= doubled(prev) <= 30 * SECOND,
        prev <= 30 * SECOND ==> doubled(prev) >= prev,
        prev >= 15 * SECOND ==> doubled(prev) == 30 * SECOND,
{
}

pub open spec fn names_token(q: Seq<(Seq<char>, Seq<char>)>) -> bool {
    exists|i: int| 0 <= i < q.len() && (#[trigger] q[i]).0 == "token"@
}

/// Whether the token is added to a URL with these pairs in its query: unless
/// one of them is a token.
pub open spec fn adds_token(q: Seq<(Seq<char>, Seq<char>)>, token: Seq<char>) -> bool {
    token.len() > 0 && !names_token(q)
}

/// The URL to publish to, where `base` is the URL `url` with the pairs `q` in
/// its query; or why there is none.
pub open spec fn publish_url(
    base: Seq<char>,
    url: Result<Seq<char>, Seq<char>>,
    q: Seq<(Seq<char>, Seq<char>)>,
    token: Seq<char>,
) -> Result<Seq<char>, Seq<char>> {
    match url {
        Err(e) => Err(e),
        Ok(u) => if !adds_token(q, token) {
            Ok(u)
        } else if has_room(u, "token"@, token) {
            Ok(with_pair(base, "token"@, token))
        } else {
            Err(URL_TOO_LONG@)
        },
    }
}

/// Whether one of the pairs of a query is the token.
pub fn has_token(q: &Vec<(String, String)>) -> (r: bool)
    ensures
        r == names_token(text_pairs(q@)),
{
    let mut i: usize = 0;
    while i < q.len()
        invariant
            i <= q@.len(),
            forall|k: int| 0 <= k < i ==> (#[trigger] text_pairs(q@)[k]).0 != "token"@,
        decreases q@.len() - i,
    {
        if same(q[i].0.as_str(), "token") {
            assert(text_pairs(q@)[i as int].0 == "token"@);
            return true;
        }
        i += 1;
    }
    false
}

pub open spec fn res_text(r: Result<String, String>) -> Result<Seq<char>, Seq<char>> {
    match r {
        Ok(s) => Ok(s@),
        Err(e) => Err(e@),
    }
}

/// The URL to publish to. A token that the URL does not name yet is added.
pub fn publish_url_with_token(base: &str, token: &str) -> (r: Result<String, String>)
    ensures
        res_text(r) == publish_url(base@, url_of(base@), query_of(base@), token@),
        r matches Ok(u) ==> (url_of(base@) matches Ok(v) ==> (url_of(v) == Ok::<
            Seq<char>,
            Seq<char>,
        >(v) && adds_token(query_of(base@), token@) ==> query_of(u@) == query_of(base@).push(
            ("token"@, token@),
        ))),
{
    match parse_url(base) {
        Err(e) => Err(e),
        Ok(u) => if token.is_empty() || has_token(&query_pairs(base)) {
            Ok(u)
        } else if pair_fits(u.as_str(), "token", token) {
            Ok(append_pair(base, "token", token))
        } else {
            Err(URL_TOO_LONG.to_owned())
        },
    }
}

/// The messages without those that hold a text.
pub open spec fn without(v: Seq<Seq<char>>, part: Seq<char>) -> Seq<Seq<char>>
    decreases v.len(),
{
    if v.len() == 0 {
        Seq::empty()
    } else if has_part(v.last(), part) {
        without(v.drop_last(), part)
    } else {
        without(v.drop_last(), part).push(v.last())
    }
}

fn retain_without(v: &mut Vec<String>, part: &str)
    ensures
        texts(final(v)@) == without(texts(old(v)@), part@),
{
    let ghost all = texts(v@);
    let mut out: Vec<String> = Vec::new();
    let mut i: usize = 0;
    assert(texts(out@) =~= without(all.take(0), part@));
    while i < v.len()
        invariant
            i <= v@.len(),
            all == texts(v@),
            texts(out@) == without(all.take(i as int), part@),
        decreases v@.len() - i,
    {
        assert(all.take(i + 1).drop_last() =~= all.take(i as int));
        assert(all.take(i + 1).last() == v@[i as int]@);
        if !contains(v[i].as_str(), part) {
            push_text(&mut out, v[i].as_str());
        }
        i += 1;
    }
    assert(all.take(all.len() as int) =~= all);
    *v = out;
}

/// The messages without those that a new one replaces: those of the kind
/// `part`, if it is of that kind.
pub open spec fn replaced(v: Seq<Seq<char>>, msg: Seq<char>, part: Seq<char>) -> Seq<Seq<char>> {
    if has_part(msg, part) {
        without(v, part)
    } else {
        v
    }
}

fn replace_kind(v: &mut Vec<String>, msg: &str, part: &str)
    ensures
        texts(final(v)@) == replaced(texts(old(v)@), msg@, part@),
{
    if contains(msg, part) {
        retain_without(v, part);
    }
}

/// File blobs and chunked clipboard PNGs are not kept.
pub open spec fn transient(msg: Seq<char>) -> bool {
    has_part(msg, "\"type\":\"file\""@) || (has_part(msg, "\"clipboard\""@) && (has_part(
        msg,
        "\"action\":\"begin\""@,
    ) || has_part(msg, "\"action\":\"chunk\""@) || has_part(msg, "\"action\":\"end\""@)))
}

/// The messages that a watcher who comes later is told, after one more: the
/// last PIN, the last flags, the last clipboard, and a tile of every display.
pub open spec fn wire_after(latest: Seq<Seq<char>>, msg: Seq<char>) -> Seq<Seq<char>> {
    if has_part(msg, "\"thumbs\""@) && merged(latest, msg) is Some {
        merged(latest, msg)->Some_0
    } else {
        let a = replaced(latest, msg, "\"otp\""@);
        let b = replaced(a, msg, "\"flags\""@);
        let c = replaced(b, msg, "\"clipboard\""@);
        let d = replaced(c, msg, "\"thumbs\""@);
        if transient(msg) {
            d
        } else {
            d.push(msg)
        }
    }
}

fn is_transient(msg: &str) -> (r: bool)
    ensures
        r == transient(msg@),
{
    contains(msg, "\"type\":\"file\"") || (contains(msg, "\"clipboard\"") && (contains(
        msg,
        "\"action\":\"begin\"",
    ) || contains(msg, "\"action\":\"chunk\"") || contains(msg, "\"action\":\"end\"")))
}

proof fn without_has_none(v: Seq<Seq<char>>, part: Seq<char>)
    ensures
        forall|i: int|
            0 <= i < without(v, part).len() ==> !has_part(#[trigger] without(v, part)[i], part),
    decreases v.len(),
{
    if v.len() > 0 {
        without_has_none(v.drop_last(), part);
        let w = without(v, part);
        let d = without(v.drop_last(), part);
        assert forall|i: int| 0 <= i < w.len() implies !has_part(#[trigger] w[i], part) by {
            if i < d.len() {
                assert(w[i] == d[i]);
            }
        }
    }
}

proof fn without_keeps_none(v: Seq<Seq<char>>, part: Seq<char>, other: Seq<char>)
    requires
        forall|i: int| 0 <= i < v.len() ==> !has_part(#[trigger] v[i], other),
    ensures
        forall|i: int|
            0 <= i < without(v, part).len() ==> !has_part(#[trigger] without(v, part)[i], other),
    decreases v.len(),
{
    if v.len() > 0 {
        assert forall|i: int| 0 <= i < v.drop_last().len() implies !has_part(
            #[trigger] v.drop_last()[i],
            other,
        ) by {
            assert(v.drop_last()[i] == v[i]);
        }
        without_keeps_none(v.drop_last(), part, other);
        let w = without(v, part);
        let d = without(v.drop_last(), part);
        assert forall|i: int| 0 <= i < w.len() implies !has_part(#[trigger] w[i], other) by {
            if i < d.len() {
                assert(w[i] == d[i]);
            } else {
                assert(w[i] == v.last());
                assert(v[v.len() - 1] == v.last());
            }
        }
    }
}

/// A watcher who comes later is told one PIN and one set of flags: the last.
pub proof fn last_pin_and_flags_are_kept(latest: Seq<Seq<char>>, msg: Seq<char>, kind: Seq<char>)
    requires
        kind == "\"otp\""@ || kind == "\"flags\""@,
        has_part(msg, kind),
        !has_part(msg, "\"thumbs\""@),
        !transient(msg),
    ensures
        wire_after(latest, msg).last() == msg,
        forall|i: int|
            0 <= i < wire_after(latest, msg).len() - 1 ==> !has_part(
                #[trigger] wire_after(latest, msg)[i],
                kind,
            ),
{
    let a = replaced(latest, msg, "\"otp\""@);
    let b = replaced(a, msg, "\"flags\""@);
    let c = replaced(b, msg, "\"clipboard\""@);
    let d = replaced(c, msg, "\"thumbs\""@);
    if kind == "\"otp\""@ {
        without_has_none(latest, kind);
        without_keeps_none(a, "\"flags\""@, kind);
    } else {
        without_has_none(a, kind);
    }
    without_keeps_none(b, "\"clipboard\""@, kind);
    assert(forall|i: int| 0 <= i < d.len() ==> !has_part(#[trigger] d[i], kind));
    assert(wire_after(latest, msg) == d.push(msg));
}

/// What came from the other end.
#[derive(Debug)]
pub enum Incoming {
    Ended,
    Failed(String),
    Close,
    Ping(Vec<u8>),
    Text(String),
    Binary(Vec<u8>),
    Other,
}

/// What to do about it.
#[derive(Debug)]
pub enum Answer {
    /// Give the session up, for this reason.
    Fail(String),
    Pong(Vec<u8>),
    /// Hand the message on.
    Forward(String),
    Nothing,
}

#[verifier::ext_equal]
pub ghost enum Reply {
    Fail(Seq<char>),
    Pong(Seq<u8>),
    Forward(Seq<char>),
    Nothing,
}

impl View for Answer {
    type V = Reply;

    open spec fn view(&self) -> Reply {
        match self {
            Answer::Fail(s) => Reply::Fail(s@),
            Answer::Pong(b) => Reply::Pong(b@),
            Answer::Forward(s) => Reply::Forward(s@),
            Answer::Nothing => Reply::Nothing,
        }
    }
}

/// Text is handed on, and so are bytes that are the text of an object.
pub open spec fn reply_to(m: Incoming) -> Reply {
    match m {
        Incoming::Ended => Reply::Fail("publisher websocket closed"@),
        Incoming::Failed(e) => Reply::Fail(e@),
        Incoming::Close => Reply::Fail("publisher websocket close"@),
        Incoming::Ping(p) => Reply::Pong(p@),
        Incoming::Text(t) => Reply::Forward(t@),
        Incoming::Binary(b) => if valid_utf8(b@) && begins(decode_utf8(b@), "{"@) {
            Reply::Forward(decode_utf8(b@))
        } else {
            Reply::Nothing
        },
        Incoming::Other => Reply::Nothing,
    }
}

pub fn answer(m: Incoming) -> (a: Answer)
    ensures
        a@ == reply_to(m),
{
    match m {
        Incoming::Ended => Answer::Fail("publisher websocket closed".to_owned()),
        Incoming::Failed(e) => Answer::Fail(e),
        Incoming::Close => Answer::Fail("publisher websocket close".to_owned()),
        Incoming::Ping(p) => Answer::Pong(p),
        Incoming::Text(t) => Answer::Forward(t),
        Incoming::Binary(b) => match utf8_text(b.as_slice()) {
            Some(s) => if starts_with(s.as_str(), "{") {
                Answer::Forward(s)
            } else {
                Answer::Nothing
            },
            None => Answer::Nothing,
        },
        Incoming::Other => Answer::Nothing,
    }
}

/// Whether a message must arrive: a PIN or flags that are lost would leave the
/// other end with the wrong ones.
pub open spec fn must_arrive(msg: Seq<char>) -> bool {
    has_part(msg, "\"otp\""@) || has_part(msg, "\"flags\""@)
}

/// Whether the session goes on after a text message was sent, or was not.
pub fn goes_on_after_text(msg: &str, error: Option<&str>) -> (r: bool)
    ensures
        r == match error {
            None => true,
            Some(e) => !must_arrive(msg@) && timed_out(e@),
        },
{
    match error {
        None => true,
        Some(e) => {
            let auth_wire = contains(msg, "\"otp\"") || contains(msg, "\"flags\"");
            !auth_wire && skip_on_send_timeout(e)
        },
    }
}

/// What the publisher knows.
#[verifier::ext_equal]
pub ghost struct PublisherState {
    pub url: Seq<char>,
    pub token: Seq<char>,
    /// The messages that a watcher who comes later is told.
    pub latest: Seq<Seq<char>>,
    pub backoff: int,
    /// Fragments skipped in a row.
    pub skips: int,
}

pub struct Publisher {
    url: String,
    token: String,
    latest: Vec<String>,
    backoff: u64,
    skips: u32,
}

impl View for Publisher {
    type V = PublisherState;

    closed spec fn view(&self) -> PublisherState {
        PublisherState {
            url: self.url@,
            token: self.token@,
            latest: texts(self.latest@),
            backoff: self.backoff as int,
            skips: self.skips as int,
        }
    }
}

impl PublisherState {
    pub open spec fn configured(self, c: ConfigFacts) -> PublisherState {
        PublisherState { url: c.cloudflare.publish_url, token: c.token, ..self }
    }

    /// Publishing begins anew: whatever failed before, the first wait is the
    /// shortest.
    pub open spec fn started(self) -> PublisherState {
        PublisherState { backoff: SECOND as int, ..self }
    }

    /// Whether the session goes on after a unit was sent, or was not: only a
    /// fragment that took too long may be skipped, and not too many in a row.
    pub open spec fn goes_on(self, kind: u8, error: Option<Seq<char>>) -> bool {
        match error {
            None => true,
            Some(e) => kind != TYPE_INIT && timed_out(e) && self.skips + 1 < MAX_SKIPS,
        }
    }

    pub open spec fn after_media(self, kind: u8, error: Option<Seq<char>>) -> PublisherState {
        match error {
            None => PublisherState { skips: 0, ..self },
            Some(e) => if kind != TYPE_INIT && timed_out(e) {
                PublisherState {
                    skips: if self.skips < u32::MAX {
                        self.skips + 1
                    } else {
                        self.skips
                    },
                    ..self
                }
            } else {
                self
            },
        }
    }
}

/// What a session begins with: the init segment and the latest fragment.
pub open spec fn opening_units(h: HubState) -> Seq<Seq<u8>> {
    (match h.init {
        Some(i) => seq![envelope(TYPE_INIT, i)],
        None => Seq::empty(),
    }) + (match h.latest {
        Some(m) => if m.kind == TYPE_FRAG {
            seq![envelope(TYPE_FRAG, m.data)]
        } else {
            Seq::empty()
        },
        None => Seq::empty(),
    })
}

pub open spec fn opt(e: Option<&str>) -> Option<Seq<char>> {
    match e {
        Some(s) => Some(s@),
        None => None,
    }
}

/// The packed units that a session begins with.
pub fn opening(hub: &Hub) -> (out: Vec<Vec<u8>>)
    ensures
        crate::frame::frames_of(out@) == opening_units(hub@),
{
    let mut out: Vec<Vec<u8>> = Vec::new();
    match hub.init_segment() {
        Some(init) => {
            out.push(pack_media(TYPE_INIT, buffer_slice(&init)));
        },
        None => {},
    }
    match hub.latest() {
        Some(lat) => if lat.kind == TYPE_FRAG {
            out.push(pack_media(TYPE_FRAG, buffer_slice(&lat.data)));
        },
        None => {},
    }
    assert(crate::frame::frames_of(out@) =~= opening_units(hub@));
    out
}

impl Publisher {
    pub fn new(cfg: &Config) -> (p: Self)
        ensures
            p@ == (PublisherState {
                url: cfg@.cloudflare.publish_url,
                token: cfg@.token,
                latest: Seq::empty(),
                backoff: SECOND as int,
                skips: 0,
            }),
    {
        let p = Publisher {
            url: cfg.cloudflare.publish_url.clone(),
            token: cfg.token.clone(),
            latest: Vec::new(),
            backoff: SECOND,
            skips: 0,
        };
        assert(texts(p.latest@) =~= Seq::empty());
        p
    }

    pub fn set_config(&mut self, cfg: &Config)
        ensures
            final(self)@ == old(self)@.configured(cfg@),
    {
        self.url = cfg.cloudflare.publish_url.clone();
        self.token = cfg.token.clone();
        assert(self@ =~= old(self)@.configured(cfg@));
    }

    /// Publishing begins anew; the caller runs the sessions.
    pub fn start(&mut self)
        ensures
            final(self)@ == old(self)@.started(),
    {
        self.backoff = SECOND;
        assert(self@ =~= old(self)@.started());
    }

    /// Notes a message for watchers who come later; the caller sends it to
    /// those that are there.
    pub fn push_wire(&mut self, msg: &str)
        ensures
            final(self)@ == (PublisherState {
                latest: wire_after(old(self)@.latest, msg@),
                ..old(self)@
            }),
    {
        if contains(msg, "\"thumbs\"") && merge_thumbs_latest(&mut self.latest, msg) {
            assert(self@ =~= (PublisherState {
                latest: wire_after(old(self)@.latest, msg@),
                ..old(self)@
            }));
            return;
        }
        assert(texts(self.latest@) =~= old(self)@.latest);
        replace_kind(&mut self.latest, msg, "\"otp\"");
        replace_kind(&mut self.latest, msg, "\"flags\"");
        replace_kind(&mut self.latest, msg, "\"clipboard\"");
        replace_kind(&mut self.latest, msg, "\"thumbs\"");
        if !is_transient(msg) {
            push_text(&mut self.latest, msg);
        }
        assert(self@ =~= (PublisherState {
            latest: wire_after(old(self)@.latest, msg@),
            ..old(self)@
        }));
    }

    /// Where to publish to: nowhere where no URL is set.
    pub fn target(&self) -> (r: Option<Result<String, String>>)
        ensures
            match r {
                None => self@.url.len() == 0,
                Some(t) => self@.url.len() > 0 && res_text(t) == publish_url(
                    self@.url,
                    url_of(self@.url),
                    query_of(self@.url),
                    self@.token,
                ),
            },
    {
        if self.url.as_str().is_empty() {
            None
        } else {
            Some(publish_url_with_token(self.url.as_str(), self.token.as_str()))
        }
    }

    /// The messages that a session begins with, after the units.
    pub fn begin_session(&mut self) -> (pending: Vec<String>)
        ensures
            texts(pending@) == old(self)@.latest,
            final(self)@ == (PublisherState { skips: 0, ..old(self)@ }),
    {
        self.skips = 0;
        assert(self@ =~= (PublisherState { skips: 0, ..old(self)@ }));
        copy_texts(&self.latest)
    }

    /// Whether the session goes on after a unit was sent, or was not.
    pub fn media_sent(&mut self, kind: u8, error: Option<&str>) -> (r: bool)
        ensures
            r == old(self)@.goes_on(kind, opt(error)),
            final(self)@ == old(self)@.after_media(kind, opt(error)),
    {
        let r = match error {
            None => {
                self.skips = 0;
                true
            },
            Some(e) => {
                if kind == TYPE_INIT || !skip_on_send_timeout(e) {
                    false
                } else {
                    if self.skips < u32::MAX {
                        self.skips = self.skips + 1;
                    }
                    self.skips < MAX_SKIPS
                }
            },
        };
        assert(self@ =~= old(self)@.after_media(kind, opt(error)));
        r
    }

    /// A session ended: how long to wait before the next.
    pub fn session_ended(&mut self, failed: bool) -> (wait: u64)
        ensures
            wait == if failed {
                old(self)@.backoff
            } else {
                0
            },
            final(self)@ == (PublisherState {
                backoff: if failed {
                    doubled(old(self)@.backoff as u64)
                } else {
                    SECOND as int
                },
                ..old(self)@
            }),
    {
        let wait: u64 = if failed {
            self.backoff
        } else {
            0
        };
        self.backoff = if failed {
            next_backoff(self.backoff)
        } else {
            SECOND
        };
        assert(self@ =~= (PublisherState {
            backoff: if failed {
                doubled(old(self)@.backoff as u64)
            } else {
                SECOND as int
            },
            ..old(self)@
        }));
        wait
    }
}

/// A slow other end costs fragments, not the session: as long as one in eight
/// arrives, no timeout ends it.
pub proof fn timeouts_do_not_end_the_session(p: PublisherState, error: Seq<char>)
    requires
        timed_out(error),
        0 <= p.skips,
        p.skips + 1 < MAX_SKIPS,
    ensures
        p.goes_on(TYPE_FRAG, Some(error)),
        p.after_media(TYPE_FRAG, None).skips == 0,
        !p.goes_on(TYPE_INIT, Some(error)),
{
}

/// A token that is added can be read from the URL, and one that is there is
/// not added again.
pub proof fn token_is_named_once(
    url: Seq<char>,
    normal: Result<Seq<char>, Seq<char>>,
    q: Seq<(Seq<char>, Seq<char>)>,
    token: Seq<char>,
    other: Seq<char>,
)
    requires
        token.len() > 0,
    ensures
        names_token(q.push(("token"@, token))),
        publish_url(url, normal, q.push(("token"@, token)), other) == normal,
{
    let after = q.push(("token"@, token));
    assert(after[q.len() as int].0 == "token"@);
}

/// An error counts as a timeout where it says that sending a unit, a text or a
/// ping took too long, whatever else it says; an error that speaks of no timeout
/// is none.
pub proof fn timeouts_say_so(a: Seq<char>, b: Seq<char>, e: Seq<char>)
    ensures
        timed_out(a + "publisher send timeout"@ + b),
        timed_out(a + "publisher text timeout"@ + b),
        timed_out(a + "publisher ping timeout"@ + b),
        timed_out(e) ==> has_part(e, "timeout"@) && has_part(e, "publisher"@),
{
    part_between(a, "publisher send timeout"@, b);
    part_between(a, "publisher text timeout"@, b);
    part_between(a, "publisher ping timeout"@, b);
    reveal_strlit("publisher send timeout");
    reveal_strlit("publisher text timeout");
    reveal_strlit("publisher ping timeout");
    reveal_strlit("timeout");
    reveal_strlit("publisher");
    part_at("publisher send timeout"@, "timeout"@, 15);
    part_at("publisher text timeout"@, "timeout"@, 15);
    part_at("publisher ping timeout"@, "timeout"@, 15);
    part_at("publisher send timeout"@, "publisher"@, 0);
    part_at("publisher text timeout"@, "publisher"@, 0);
    part_at("publisher ping timeout"@, "publisher"@, 0);
    if timed_out(e) {
        let p = if has_part(e, "publisher send timeout"@) {
            "publisher send timeout"@
        } else if has_part(e, "publisher text timeout"@) {
            "publisher text timeout"@
        } else {
            "publisher ping timeout"@
        };
        part_of_part(e, p, "timeout"@);
        part_of_part(e, p, "publisher"@);
    }
}

/// The state after timeouts of fragments in a row.
pub open spec fn after_timeouts(p: PublisherState, errors: Seq<Seq<char>>) -> PublisherState
    decreases errors.len(),
{
    if errors.len() == 0 {
        p
    } else {
        after_timeouts(p, errors.drop_last()).after_media(2, Some(errors.last()))
    }
}

/// From one unit that arrived to the next, seven fragments may time out; the
/// eighth ends the session. An init segment may not, and no other error may.
pub proof fn the_eighth_timeout_ends_the_session(
    p: PublisherState,
    errors: Seq<Seq<char>>,
    e: Seq<char>,
    kind: u8,
)
    requires
        p.skips == 0,
        errors.len() < 8,
        forall|i: int| 0 <= i < errors.len() ==> timed_out(#[trigger] errors[i]),
        kind != 1,
    ensures
        after_timeouts(p, errors).skips == errors.len(),
        after_timeouts(p, errors).goes_on(kind, Some(e)) <==> timed_out(e) && errors.len() < 7,
        !after_timeouts(p, errors).goes_on(1, Some(e)),
        after_timeouts(p, errors).goes_on(kind, None),
        after_timeouts(p, errors).after_media(kind, None) == p,
    decreases errors.len(),
{
    if errors.len() > 0 {
        let d = errors.drop_last();
        assert forall|i: int| 0 <= i < d.len() implies timed_out(#[trigger] d[i]) by {
            assert(d[i] == errors[i]);
        }
        the_eighth_timeout_ends_the_session(p, d, e, kind);
        assert(timed_out(errors[errors.len() - 1]));
    }
}

/// Waits double from one second to half a minute.
pub proof fn waits_double(prev: u64)
    ensures
        500_000_000 <= prev <= 15_000_000_000 ==> doubled(prev) == 2 * prev,
        prev < 500_000_000 ==> doubled(prev) == 1_000_000_000,
        prev > 15_000_000_000 ==> doubled(prev) == 30_000_000_000,
{
}

/// Only messages of the kind that is replaced are dropped; the others keep
/// their order.
pub proof fn only_that_kind_is_dropped(v: Seq<Seq<char>>, m: Seq<char>, part: Seq<char>)
    ensures
        has_part(m, part) ==> without(v.push(m), part) == without(v, part),
        !has_part(m, part) ==> without(v.push(m), part) == without(v, part).push(m),
        without(Seq::empty(), part) == Seq::<Seq<char>>::empty(),
{
    assert(v.push(m).drop_last() =~= v);
}

/// A message of a kind that is not replaced is kept behind the others, and
/// drops none of them.
pub proof fn other_messages_are_kept(latest: Seq<Seq<char>>, msg: Seq<char>)
    requires
        !has_part(msg, "\"otp\""@),
        !has_part(msg, "\"flags\""@),
        !has_part(msg, "\"clipboard\""@),
        !has_part(msg, "\"thumbs\""@),
    ensures
        has_part(msg, "\"type\":\"file\""@) ==> wire_after(latest, msg) == latest,
        !has_part(msg, "\"type\":\"file\""@) ==> wire_after(latest, msg) == latest.push(msg),
{
}

/// Of the clipboard the last whole message is kept; the pieces of one that comes
/// in pieces are passed on and not kept.
pub proof fn last_clipboard_is_kept(latest: Seq<Seq<char>>, msg: Seq<char>)
    requires
        has_part(msg, "\"clipboard\""@),
        !has_part(msg, "\"otp\""@),
        !has_part(msg, "\"flags\""@),
        !has_part(msg, "\"thumbs\""@),
    ensures
        ({
            let piece = has_part(msg, "\"type\":\"file\""@) || has_part(
                msg,
                "\"action\":\"begin\""@,
            ) || has_part(msg, "\"action\":\"chunk\""@) || has_part(msg, "\"action\":\"end\""@);
            &&& piece ==> wire_after(latest, msg) == without(latest, "\"clipboard\""@)
            &&& !piece ==> wire_after(latest, msg) == without(latest, "\"clipboard\""@).push(msg)
        }),
        forall|i: int|
            0 <= i < wire_after(latest, msg).len() - 1 ==> !has_part(
                #[trigger] wire_after(latest, msg)[i],
                "\"clipboard\""@,
            ),
{
    without_has_none(latest, "\"clipboard\""@);
}

/// A ping is answered with its own payload, a text is handed on as it is, and
/// the end of the connection ends the session.
pub proof fn incoming_is_answered(m: Incoming)
    ensures
        m matches Incoming::Ping(p) ==> reply_to(m) == Reply::Pong(p@),
        m matches Incoming::Text(t) ==> reply_to(m) == Reply::Forward(t@),
        m matches Incoming::Failed(e) ==> reply_to(m) == Reply::Fail(e@),
        m is Ended || m is Close ==> reply_to(m) is Fail,
        m is Other ==> reply_to(m) is Nothing,
        m matches Incoming::Binary(b) ==> (reply_to(m) is Nothing || reply_to(m) == Reply::Forward(
            decode_utf8(b@),
        )),
{
}

/// An object that comes as bytes is handed on like a text.
pub proof fn objects_in_bytes_are_handed_on(b: Vec<u8>, text: Seq<char>)
    requires
        b@ == encode_utf8(text),
        text.len() > 0,
    ensures
        text[0] == '{' ==> reply_to(Incoming::Binary(b)) == Reply::Forward(text),
        text[0] != '{' ==> reply_to(Incoming::Binary(b)) is Nothing,
{
    encode_utf8_valid_utf8(text);
    encode_utf8_decode_utf8(text);
    reveal_strlit("{");
    if text[0] == '{' {
        assert(text.take(1) =~= "{"@);
    } else {
        assert(text.take(1)[0] != "{"@[0]);
    }
}

/// A message that names the PIN or the flags must arrive, wherever it names
/// them.
pub proof fn pin_and_flags_must_arrive(a: Seq<char>, b: Seq<char>)
    ensures
        must_arrive(a + "\"otp\""@ + b),
        must_arrive(a + "\"flags\""@ + b),
{
    part_between(a, "\"otp\""@, b);
    part_between(a, "\"flags\""@, b);
}

/// A session begins with the init segment and then the latest fragment, each
/// behind its type.
pub proof fn a_session_opens_with_init(h: HubState)
    ensures
        ({
            let u = opening_units(h);
            let n: int = if h.init is Some {
                1
            } else {
                0
            };
            &&& h.init matches Some(i) ==> u.len() > 0 && u[0] == seq![1u8] + i
            &&& h.latest matches Some(m) ==> (m.kind == 2 ==> u.len() == n + 1 && u[n] == seq![2u8]
                + m.data)
            &&& h.latest is None || h.latest->Some_0.kind != 2 ==> u.len() == n
        }),
{
}

/// The token goes to the other end exactly once: it is added where one is set
/// and the URL names none, and then the URL has it in its query.
pub proof fn token_is_added_where_it_is_missing(
    base: Seq<char>,
    u: Seq<char>,
    q: Seq<(Seq<char>, Seq<char>)>,
    token: Seq<char>,
)
    ensures
        token.len() == 0 ==> publish_url(base, Ok(u), q, token) == Ok::<Seq<char>, Seq<char>>(u),
        (exists|i: int| 0 <= i < q.len() && (#[trigger] q[i]).0 == "token"@) ==> publish_url(
            base,
            Ok(u),
            q,
            token,
        ) == Ok::<Seq<char>, Seq<char>>(u),
        token.len() > 0 && (forall|i: int|
            0 <= i < q.len() ==> (#[trigger] q[i]).0 != "token"@) && has_room(u, "token"@, token)
            ==> publish_url(base, Ok(u), q, token) == Ok::<Seq<char>, Seq<char>>(
            with_pair(base, "token"@, token),
        ),
{
}

} // verus!
