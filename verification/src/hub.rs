//! One encode, N subscribers. Drop-oldest when a client queue is full.
//!
//! Instants are nanoseconds on a clock that never goes back.

use crate::protocol::{TYPE_FRAG, TYPE_INIT, TYPE_JPEG, TYPE_SNAP};
use crate::text::same;
use std::collections::VecDeque;
use vstd::prelude::*;

verus! {

/// `bytes::Bytes`, a shared buffer of bytes.
#[verifier::external_type_specification]
#[verifier::external_body]
pub struct ExBytes(bytes::Bytes);

/// The bytes that a shared buffer holds.
pub uninterp spec fn bytes_in(b: bytes::Bytes) -> Seq<u8>;

/// `bytes::Bytes::clone`: another handle to the same bytes.
pub assume_specification[ <bytes::Bytes as Clone>::clone ](b: &bytes::Bytes) -> (r: bytes::Bytes)
    ensures
        bytes_in(r) == bytes_in(*b),
;

/// `bytes::Bytes::from` on a vector: a buffer that holds the vector's bytes.
#[verifier::external_body]
pub(crate) fn buffer_of(v: Vec<u8>) -> (r: bytes::Bytes)
    ensures
        bytes_in(r) == v@,
{
    bytes::Bytes::from(v)
}

/// `bytes::Bytes::deref`: the bytes as a slice.
#[verifier::external_body]
pub(crate) fn buffer_slice(b: &bytes::Bytes) -> (r: &[u8])
    ensures
        r@ == bytes_in(*b),
{
    b
}

#[derive(Clone, Debug)]
pub struct Media {
    pub kind: u8,
    pub data: bytes::Bytes,
    pub width: u32,
    pub height: u32,
}

#[verifier::ext_equal]
pub ghost struct MediaFacts {
    pub kind: u8,
    pub data: Seq<u8>,
    pub width: u32,
    pub height: u32,
}

impl View for Media {
    type V = MediaFacts;

    open spec fn view(&self) -> MediaFacts {
        MediaFacts {
            kind: self.kind,
            data: bytes_in(self.data),
            width: self.width,
            height: self.height,
        }
    }
}

impl Media {
    pub fn share(&self) -> (m: Media)
        ensures
            m@ == self@,
    {
        Media {
            kind: self.kind,
            data: self.data.clone(),
            width: self.width,
            height: self.height,
        }
    }
}

struct Client {
    id: u64,
    cap: usize,
    q: VecDeque<Media>,
}

/// A subscriber: its number, how much it may have waiting, what is waiting.
#[verifier::ext_equal]
pub ghost struct Queue {
    pub id: u64,
    pub cap: int,
    pub waiting: Seq<MediaFacts>,
}

impl Queue {
    /// One more unit. A full queue drops its oldest first.
    pub open spec fn given(self, m: MediaFacts) -> Queue {
        Queue {
            waiting: if self.waiting.len() >= self.cap {
                self.waiting.drop_first().push(m)
            } else {
                self.waiting.push(m)
            },
            ..self
        }
    }
}

spec fn media_of(q: Seq<Media>) -> Seq<MediaFacts> {
    Seq::new(q.len(), |i: int| q[i]@)
}

impl View for Client {
    type V = Queue;

    closed spec fn view(&self) -> Queue {
        Queue { id: self.id, cap: self.cap as int, waiting: media_of(self.q@) }
    }
}

impl Client {
    fn give(&mut self, m: &Media)
        requires
            old(self).cap >= 1,
        ensures
            final(self)@ == old(self)@.given(m@),
    {
        if self.q.len() >= self.cap {
            let _ = self.q.pop_front();
        }
        self.q.push_back(m.share());
        assert(self@ =~= old(self)@.given(m@));
    }
}

/// What the hub knows.
#[verifier::ext_equal]
pub ghost struct HubState {
    pub latest: Option<MediaFacts>,
    /// The last analysis snapshot.
    pub snap: Option<MediaFacts>,
    pub init: Option<Seq<u8>>,
    pub width: u32,
    pub height: u32,
    /// Subscribers, the longest subscribed first.
    pub subs: Seq<Queue>,
    pub next_id: int,
    pub gen: int,
    /// When the live units of the last two seconds came.
    pub times: Seq<u64>,
    pub last_at: Option<u64>,
}

/// Two seconds.
pub const RATE_WINDOW: u64 = 2_000_000_000;

/// The instants that are at most two seconds old, in a row of instants that
/// never goes back.
pub open spec fn recent(times: Seq<u64>, now: u64) -> Seq<u64>
    decreases times.len(),
{
    if times.len() > 0 && now > times[0] && now - times[0] > RATE_WINDOW {
        recent(times.drop_first(), now)
    } else {
        times
    }
}

impl HubState {
    pub open spec fn fanned_out(self, m: MediaFacts) -> HubState {
        HubState { subs: Seq::new(self.subs.len(), |i: int| self.subs[i].given(m)), ..self }
    }

    /// An init segment is kept and goes to every subscriber.
    pub open spec fn with_init(self, data: Seq<u8>, w: u32, h: u32, now: u64) -> HubState {
        HubState { init: Some(data), width: w, height: h, last_at: Some(now), ..self }.fanned_out(
            MediaFacts { kind: TYPE_INIT, data, width: w, height: h },
        )
    }

    /// Whether a unit is live video. Init segments are not, and neither are
    /// snapshots: one taken for the live fragment would leave a late joiner
    /// with a black screen.
    pub open spec fn is_live(kind: u8) -> bool {
        kind != TYPE_INIT && kind != TYPE_SNAP
    }

    /// A unit goes to every subscriber; a live one becomes the latest.
    pub open spec fn with_unit(self, m: MediaFacts, now: u64) -> HubState {
        let noted = if HubState::is_live(m.kind) {
            HubState {
                last_at: Some(now),
                times: recent(self.times.push(now), now),
                width: if m.width > 0 {
                    m.width
                } else {
                    self.width
                },
                height: if m.width > 0 {
                    m.height
                } else {
                    self.height
                },
                latest: Some(m),
                ..self
            }
        } else if m.kind == TYPE_SNAP {
            HubState { snap: Some(m), ..self }
        } else {
            self
        };
        noted.fanned_out(m)
    }

    pub open spec fn cleared(self) -> HubState {
        HubState {
            latest: None,
            snap: None,
            init: None,
            times: Seq::empty(),
            last_at: None,
            gen: self.gen + 1,
            subs: Seq::new(
                self.subs.len(),
                |i: int| Queue { waiting: Seq::empty(), ..self.subs[i] },
            ),
            ..self
        }
    }

    /// Where a subscriber stands.
    pub open spec fn index_of(self, id: u64) -> Option<int> {
        if exists|i: int| 0 <= i < self.subs.len() && (#[trigger] self.subs[i]).id == id {
            Some(choose|i: int| 0 <= i < self.subs.len() && (#[trigger] self.subs[i]).id == id)
        } else {
            None
        }
    }

    /// Numbers are given out once, and no queue holds more than it may.
    pub open spec fn wf(self) -> bool {
        &&& forall|i: int|
            0 <= i < self.subs.len() ==> {
                let s = #[trigger] self.subs[i];
                s.id < self.next_id && 1 <= s.cap && s.waiting.len() <= s.cap
            }
        &&& forall|i: int, j: int|
            0 <= i < j < self.subs.len() ==> (#[trigger] self.subs[i]).id != (
            #[trigger] self.subs[j]).id
    }
}

/// A hub that has seen nothing yet.
pub open spec fn empty_hub() -> HubState {
    HubState {
        latest: None,
        snap: None,
        init: None,
        width: 0,
        height: 0,
        subs: Seq::empty(),
        next_id: 1,
        gen: 0,
        times: Seq::empty(),
        last_at: None,
    }
}

pub struct Hub {
    latest: Option<Media>,
    snap: Option<Media>,
    init: Option<bytes::Bytes>,
    width: u32,
    height: u32,
    subs: Vec<Client>,
    next_id: u64,
    gen: u64,
    times: VecDeque<u64>,
    last_at: Option<u64>,
}

/// A place in the hub's fan-out.
#[derive(Debug)]
pub struct Subscriber {
    id: u64,
}

impl Subscriber {
    pub closed spec fn number(self) -> u64 {
        self.id
    }
}

spec fn facts(m: Option<Media>) -> Option<MediaFacts> {
    match m {
        Some(m) => Some(m@),
        None => None,
    }
}

spec fn queues(s: Seq<Client>) -> Seq<Queue> {
    Seq::new(s.len(), |i: int| s[i]@)
}

impl View for Hub {
    type V = HubState;

    closed spec fn view(&self) -> HubState {
        HubState {
            latest: facts(self.latest),
            snap: facts(self.snap),
            init: match self.init {
                Some(b) => Some(bytes_in(b)),
                None => None,
            },
            width: self.width,
            height: self.height,
            subs: queues(self.subs@),
            next_id: self.next_id as int,
            gen: self.gen as int,
            times: self.times@,
            last_at: self.last_at,
        }
    }
}

fn drop_old(times: &mut VecDeque<u64>, now: u64)
    ensures
        final(times)@ == recent(old(times)@, now),
{
    let ghost start = times@;
    while times.len() > 0 && now > times[0] && now - times[0] > RATE_WINDOW
        invariant
            recent(times@, now) == recent(start, now),
        decreases times@.len(),
    {
        let ghost here = times@;
        let _ = times.pop_front();
        assert(times@ =~= here.drop_first());
    }
}

impl Hub {
    #[verifier::type_invariant]
    spec fn inv(self) -> bool {
        self@.wf()
    }

    pub fn new() -> (h: Self)
        ensures
            h@ == empty_hub(),
            h@.wf(),
    {
        let h = Hub {
            latest: None,
            snap: None,
            init: None,
            width: 0,
            height: 0,
            subs: Vec::new(),
            next_id: 1,
            gen: 0,
            times: VecDeque::new(),
            last_at: None,
        };
        assert(h@.subs =~= Seq::<Queue>::empty());
        h
    }

    fn fanout(&mut self, m: &Media)
        ensures
            final(self)@ == old(self)@.fanned_out(m@),
            final(self)@.wf(),
    {
        proof {
            use_type_invariant(&*self);
        }
        let ghost before = self@;
        let mut subs: Vec<Client> = Vec::new();
        std::mem::swap(&mut subs, &mut self.subs);
        let n: usize = subs.len();
        let mut i: usize = 0;
        while i < n
            invariant
                i <= n == subs@.len(),
                n == before.subs.len(),
                before.wf(),
                forall|k: int|
                    0 <= k < n ==> #[trigger] queues(subs@)[k] == if k < i {
                        before.subs[k].given(m@)
                    } else {
                        before.subs[k]
                    },
            decreases n - i,
        {
            let ghost here = queues(subs@);
            assert(here[i as int] == before.subs[i as int]);
            assert(subs@[i as int]@.cap >= 1);
            subs[i].give(m);
            assert forall|k: int| 0 <= k < n implies #[trigger] queues(subs@)[k] == if k < i + 1 {
                before.subs[k].given(m@)
            } else {
                before.subs[k]
            } by {
                if k != i {
                    assert(queues(subs@)[k] == here[k]);
                }
            }
            i += 1;
        }
        assert(queues(subs@) =~= before.fanned_out(m@).subs);
        self.subs = subs;
        assert(self@ =~= before.fanned_out(m@));
    }

    pub fn publish_init(&mut self, data: bytes::Bytes, w: u32, h: u32, now: u64)
        ensures
            final(self)@ == old(self)@.with_init(bytes_in(data), w, h, now),
            final(self)@.wf(),
    {
        proof {
            use_type_invariant(&*self);
        }
        let media = Media { kind: TYPE_INIT, data: data.clone(), width: w, height: h };
        self.init = Some(data);
        self.width = w;
        self.height = h;
        self.last_at = Some(now);
        assert(self@.subs == old(self)@.subs);
        self.fanout(&media);
    }

    pub fn publish_unit(&mut self, kind: u8, data: bytes::Bytes, w: u32, h: u32, now: u64)
        ensures
            final(self)@ == old(self)@.with_unit(
                (MediaFacts { kind, data: bytes_in(data), width: w, height: h }),
                now,
            ),
            final(self)@.wf(),
    {
        proof {
            use_type_invariant(&*self);
        }
        let media = Media { kind, data, width: w, height: h };
        if kind != TYPE_INIT && kind != TYPE_SNAP {
            self.last_at = Some(now);
            let mut times: VecDeque<u64> = VecDeque::new();
            std::mem::swap(&mut times, &mut self.times);
            times.push_back(now);
            drop_old(&mut times, now);
            self.times = times;
            if w > 0 {
                self.width = w;
                self.height = h;
            }
            self.latest = Some(media.share());
        } else if kind == TYPE_SNAP {
            self.snap = Some(media.share());
        }
        assert(self@.subs == old(self)@.subs);
        self.fanout(&media);
    }

    /// A queue holds at least one unit, whatever was asked for.
    pub fn subscribe(&mut self, cap: usize) -> (s: Subscriber)
        requires
            old(self)@.next_id < u64::MAX,
        ensures
            s.number() == old(self)@.next_id,
            final(self)@ == (HubState {
                subs: old(self)@.subs.push(
                    (Queue {
                        id: s.number(),
                        cap: if cap > 1 {
                            cap as int
                        } else {
                            1
                        },
                        waiting: Seq::empty(),
                    }),
                ),
                next_id: old(self)@.next_id + 1,
                ..old(self)@
            }),
            final(self)@.wf(),
    {
        proof {
            use_type_invariant(&*self);
        }
        let id: u64 = self.next_id;
        self.next_id = id + 1;
        let cap: usize = if cap > 1 {
            cap
        } else {
            1
        };
        let c = Client { id, cap, q: VecDeque::new() };
        let ghost before = queues(self.subs@);
        assert(c@.waiting =~= Seq::<MediaFacts>::empty());
        let mut subs: Vec<Client> = Vec::new();
        std::mem::swap(&mut subs, &mut self.subs);
        subs.push(c);
        assert(queues(subs@) =~= before.push(c@));
        self.subs = subs;
        Subscriber { id }
    }

    pub fn unsubscribe(&mut self, s: &Subscriber)
        ensures
            match old(self)@.index_of(s.number()) {
                Some(i) => final(self)@ == (HubState {
                    subs: old(self)@.subs.remove(i),
                    ..old(self)@
                }),
                None => final(self)@ == old(self)@,
            },
            final(self)@.wf(),
    {
        proof {
            use_type_invariant(&*self);
        }
        match self.position(s.id) {
            Some(i) => {
                let ghost before = queues(self.subs@);
                let mut subs: Vec<Client> = Vec::new();
                std::mem::swap(&mut subs, &mut self.subs);
                let _ = subs.remove(i);
                assert(queues(subs@) =~= before.remove(i as int));
                self.subs = subs;
            },
            None => {},
        }
    }

    fn position(&self, id: u64) -> (r: Option<usize>)
        ensures
            match r {
                Some(i) => self@.index_of(id) == Some(i as int) && i < self.subs@.len()
                    && self@.subs[i as int].id == id,
                None => self@.index_of(id) is None,
            },
    {
        proof {
            use_type_invariant(self);
        }
        let mut i: usize = 0;
        while i < self.subs.len()
            invariant
                i <= self.subs@.len() == self@.subs.len(),
                self@.wf(),
                forall|k: int| 0 <= k < i ==> (#[trigger] self@.subs[k]).id != id,
            decreases self.subs@.len() - i,
        {
            assert(self@.subs[i as int] == self.subs@[i as int]@);
            if self.subs[i].id == id {
                proof {
                    let j = choose|j: int|
                        0 <= j < self@.subs.len() && (#[trigger] self@.subs[j]).id == id;
                    assert(self@.subs[i as int].id == id);
                    assert(0 <= j < self@.subs.len() && self@.subs[j].id == id);
                    assert(j == i);
                }
                return Some(i);
            }
            i += 1;
        }
        None
    }

    pub fn init_segment(&self) -> (r: Option<bytes::Bytes>)
        ensures
            match r {
                Some(b) => self@.init == Some(bytes_in(b)),
                None => self@.init is None,
            },
    {
        match &self.init {
            Some(b) => Some(b.clone()),
            None => None,
        }
    }

    pub fn latest(&self) -> (r: Option<Media>)
        ensures
            match r {
                Some(m) => self@.latest == Some(m@),
                None => self@.latest is None,
            },
    {
        match &self.latest {
            Some(m) => Some(m.share()),
            None => None,
        }
    }

    /// The last analysis snapshot.
    pub fn last_snap(&self) -> (r: Option<Media>)
        ensures
            match r {
                Some(m) => self@.snap == Some(m@),
                None => self@.snap is None,
            },
    {
        match &self.snap {
            Some(m) => Some(m.share()),
            None => None,
        }
    }

    pub fn size(&self) -> (r: (u32, u32))
        ensures
            r == (self@.width, self@.height),
    {
        (self.width, self.height)
    }

    /// Nanoseconds since the last live unit or init segment.
    pub fn last_media_age(&self, now: u64) -> (r: Option<u64>)
        ensures
            match r {
                Some(a) => self@.last_at matches Some(t) && a == if now >= t {
                    now - t
                } else {
                    0
                },
                None => self@.last_at is None,
            },
    {
        match self.last_at {
            Some(t) => Some(
                if now >= t {
                    now - t
                } else {
                    0
                },
            ),
            None => None,
        }
    }

    /// How many live units came in the last two seconds: twice the frame rate.
    pub fn units_in_window(&mut self, now: u64) -> (n: usize)
        ensures
            final(self)@ == (HubState { times: recent(old(self)@.times, now), ..old(self)@ }),
            n == recent(old(self)@.times, now).len(),
    {
        proof {
            use_type_invariant(&*self);
        }
        let mut times: VecDeque<u64> = VecDeque::new();
        std::mem::swap(&mut times, &mut self.times);
        drop_old(&mut times, now);
        self.times = times;
        assert(self@ =~= HubState { times: recent(old(self)@.times, now), ..old(self)@ });
        self.times.len()
    }

    pub fn clients(&self) -> (n: usize)
        ensures
            n == self@.subs.len(),
    {
        self.subs.len()
    }

    pub fn generation(&self) -> (g: u64)
        ensures
            g == self@.gen,
    {
        self.gen
    }

    pub fn clear(&mut self)
        requires
            old(self)@.gen < u64::MAX,
        ensures
            final(self)@ == old(self)@.cleared(),
            final(self)@.wf(),
    {
        proof {
            use_type_invariant(&*self);
        }
        self.latest = None;
        self.snap = None;
        self.init = None;
        self.times = VecDeque::new();
        self.last_at = None;
        self.gen = self.gen + 1;
        let ghost before = old(self)@.subs;
        let mut subs: Vec<Client> = Vec::new();
        std::mem::swap(&mut subs, &mut self.subs);
        let n: usize = subs.len();
        let mut i: usize = 0;
        while i < n
            invariant
                i <= n == subs@.len(),
                n == before.len(),
                forall|k: int|
                    0 <= k < n ==> #[trigger] queues(subs@)[k] == if k < i {
                        Queue { waiting: Seq::empty(), ..before[k] }
                    } else {
                        before[k]
                    },
            decreases n - i,
        {
            let ghost here = queues(subs@);
            assert(here[i as int] == before[i as int]);
            subs[i].q.clear();
            assert(subs@[i as int]@.waiting =~= Seq::<MediaFacts>::empty());
            assert forall|k: int| 0 <= k < n implies #[trigger] queues(subs@)[k] == if k < i + 1 {
                Queue { waiting: Seq::empty(), ..before[k] }
            } else {
                before[k]
            } by {
                if k != i {
                    assert(queues(subs@)[k] == here[k]);
                }
            }
            i += 1;
        }
        assert(queues(subs@) =~= old(self)@.cleared().subs);
        self.subs = subs;
        assert(self@ =~= old(self)@.cleared());
    }
}

impl Default for Hub {
    fn default() -> (h: Self)
        ensures
            h@ == empty_hub(),
            h@.wf(),
    {
        Hub::new()
    }
}

impl Subscriber {
    /// Takes the oldest waiting unit, if there is one.
    pub fn try_recv(&self, hub: &mut Hub) -> (r: Option<Media>)
        ensures
            match old(hub)@.index_of(self.number()) {
                Some(i) => {
                    let q = old(hub)@.subs[i];
                    if q.waiting.len() > 0 {
                        &&& r matches Some(m) && m@ == q.waiting[0]
                        &&& final(hub)@ == (HubState {
                            subs: old(hub)@.subs.update(
                                i,
                                (Queue { waiting: q.waiting.drop_first(), ..q }),
                            ),
                            ..old(hub)@
                        })
                    } else {
                        r is None && final(hub)@ == old(hub)@
                    }
                },
                None => r is None && final(hub)@ == old(hub)@,
            },
            final(hub)@.wf(),
    {
        proof {
            use_type_invariant(&*hub);
        }
        match hub.position(self.id) {
            Some(i) => {
                let ghost before = hub@;
                let mut subs: Vec<Client> = Vec::new();
                std::mem::swap(&mut subs, &mut hub.subs);
                assert(before.subs[i as int] == subs@[i as int]@);
                let r = subs[i].q.pop_front();
                proof {
                    let q = before.subs[i as int];
                    let now = subs@[i as int]@;
                    if q.waiting.len() > 0 {
                        assert(now.waiting =~= q.waiting.drop_first());
                        assert(queues(subs@) =~= before.subs.update(i as int, now));
                    } else {
                        assert(now.waiting =~= q.waiting);
                        assert(queues(subs@) =~= before.subs);
                    }
                }
                hub.subs = subs;
                r
            },
            None => None,
        }
    }
}

pub fn kind_for_mode(mode: &str, is_init: bool) -> (k: u8)
    ensures
        k == if mode@ == "mjpeg"@ {
            TYPE_JPEG
        } else if is_init {
            TYPE_INIT
        } else {
            TYPE_FRAG
        },
{
    if same(mode, "mjpeg") {
        TYPE_JPEG
    } else if is_init {
        TYPE_INIT
    } else {
        TYPE_FRAG
    }
}

/// A queue that was given a row of units.
pub open spec fn given_all(q: Queue, ms: Seq<MediaFacts>) -> Queue
    decreases ms.len(),
{
    if ms.len() == 0 {
        q
    } else {
        given_all(q, ms.drop_last()).given(ms.last())
    }
}

/// A slow subscriber loses the oldest units and keeps the newest: after any row
/// of units its queue holds the last ones of what it had and was given, as many
/// as it may hold.
pub proof fn queue_keeps_the_newest(q: Queue, ms: Seq<MediaFacts>)
    requires
        1 <= q.cap,
        q.waiting.len() <= q.cap,
    ensures
        ({
            let all = q.waiting + ms;
            let kept = given_all(q, ms);
            &&& kept.cap == q.cap
            &&& kept.id == q.id
            &&& kept.waiting == if all.len() > q.cap {
                all.skip(all.len() - q.cap)
            } else {
                all
            }
        }),
    decreases ms.len(),
{
    if ms.len() == 0 {
        assert(q.waiting + ms =~= q.waiting);
    } else {
        queue_keeps_the_newest(q, ms.drop_last());
        let all = q.waiting + ms;
        let some = q.waiting + ms.drop_last();
        assert(all =~= some.push(ms.last()));
        let kept = given_all(q, ms);
        if all.len() > q.cap {
            assert(kept.waiting =~= all.skip(all.len() - q.cap));
        } else {
            assert(kept.waiting =~= all);
        }
    }
}

/// A snapshot reaches the subscribers but never stands for live video.
pub proof fn snapshot_is_never_latest(h: HubState, m: MediaFacts, now: u64)
    requires
        m.kind == TYPE_SNAP,
    ensures
        h.with_unit(m, now).latest == h.latest,
        h.with_unit(m, now).init == h.init,
        h.with_unit(m, now).last_at == h.last_at,
        h.with_unit(m, now).subs == h.fanned_out(m).subs,
{
}

/// The hub after publications one after the other, each with its instant: an
/// init segment where the kind says so, a unit otherwise.
pub open spec fn after_all(h: HubState, ps: Seq<(MediaFacts, u64)>) -> HubState
    decreases ps.len(),
{
    if ps.len() == 0 {
        h
    } else {
        let before = after_all(h, ps.drop_last());
        let (m, now) = ps.last();
        if m.kind == 1 {
            before.with_init(m.data, m.width, m.height, now)
        } else {
            before.with_unit(m, now)
        }
    }
}

/// Publications without their instants.
pub open spec fn media_published(ps: Seq<(MediaFacts, u64)>) -> Seq<MediaFacts> {
    Seq::new(ps.len(), |i: int| ps[i].0)
}

/// Whatever is published, init segments and units alike, reaches every
/// subscriber whole and in the order of publication: its queue holds what it
/// had and all that was published, or the newest of that where it is full.
pub proof fn publications_arrive_in_order(h: HubState, ps: Seq<(MediaFacts, u64)>, i: int)
    requires
        h.wf(),
        0 <= i < h.subs.len(),
    ensures
        ({
            let q = h.subs[i];
            let r = after_all(h, ps).subs[i];
            let all = q.waiting + media_published(ps);
            &&& after_all(h, ps).subs.len() == h.subs.len()
            &&& r.id == q.id && r.cap == q.cap
            &&& all.len() <= q.cap ==> r.waiting == all
            &&& all.len() > q.cap ==> r.waiting == all.skip(all.len() - q.cap)
            &&& ps.len() > 0 ==> r.waiting.last() == ps.last().0
        }),
    decreases ps.len(),
{
    let q = h.subs[i];
    let ms = media_published(ps);
    let all = q.waiting + ms;
    if ps.len() == 0 {
        assert(all =~= q.waiting);
    } else {
        let d = ps.drop_last();
        publications_arrive_in_order(h, d, i);
        let some = q.waiting + media_published(d);
        assert(all =~= some.push(ps.last().0));
        let r = after_all(h, ps).subs[i];
        if all.len() > q.cap {
            assert(r.waiting =~= all.skip(all.len() - q.cap));
        } else {
            assert(r.waiting =~= all);
        }
    }
}

/// An init segment is the last that waits at every subscriber, with its bytes
/// and its size, and is kept for those who come later; the video that came
/// before it is left as it was.
pub proof fn init_reaches_everyone(h: HubState, data: Seq<u8>, w: u32, height: u32, now: u64)
    requires
        h.wf(),
    ensures
        ({
            let r = h.with_init(data, w, height, now);
            &&& r.subs.len() == h.subs.len()
            &&& forall|i: int|
                0 <= i < h.subs.len() ==> (#[trigger] r.subs[i]).waiting.last() == (MediaFacts {
                    kind: 1,
                    data,
                    width: w,
                    height,
                }) && r.subs[i].id == h.subs[i].id
            &&& r.init == Some(data)
            &&& r.width == w && r.height == height
            &&& r.last_at == Some(now)
            &&& r.latest == h.latest && r.snap == h.snap && r.times == h.times
            &&& r.gen == h.gen && r.next_id == h.next_id
            &&& r.wf()
        }),
{
}

/// Fragments and frames are live: each becomes the latest, dates the hub and
/// counts for the rate. A snapshot is kept as the last snapshot and nothing
/// else; other kinds are passed on only. No unit touches the init segment.
pub proof fn live_units_become_latest(h: HubState, m: MediaFacts, now: u64)
    ensures
        ({
            let r = h.with_unit(m, now);
            &&& r.init == h.init && r.gen == h.gen && r.next_id == h.next_id
            &&& m.kind == 2 || m.kind == 3 ==> r.latest == Some(m) && r.last_at == Some(now)
                && r.snap == h.snap
            &&& m.kind == 4 ==> r.snap == Some(m) && r.latest == h.latest && r.last_at == h.last_at
                && r.times == h.times && (r.width, r.height) == (h.width, h.height)
            &&& m.kind == 1 ==> r.latest == h.latest && r.snap == h.snap && r.times == h.times
            &&& (m.kind == 2 || m.kind == 3) && m.width > 0 ==> (r.width, r.height) == (
                m.width,
                m.height,
            )
            &&& m.width == 0 ==> (r.width, r.height) == (h.width, h.height)
        }),
{
}

/// Whether instants never go back.
pub open spec fn in_order(times: Seq<u64>) -> bool {
    forall|i: int, j: int| 0 <= i < j < times.len() ==> times[i] <= times[j]
}

/// The units that count are those of the last two seconds, each of them and no
/// other.
pub proof fn two_seconds_count(times: Seq<u64>, now: u64)
    requires
        in_order(times),
    ensures
        recent(times, now).len() <= times.len(),
        recent(times, now) == times.skip(times.len() - recent(times, now).len()),
        forall|i: int|
            0 <= i < times.len() ==> (#[trigger] times[i] + 2_000_000_000 >= now <==> i
                >= times.len() - recent(times, now).len()),
    decreases times.len(),
{
    if times.len() > 0 && now > times[0] && now - times[0] > RATE_WINDOW {
        let d = times.drop_first();
        assert forall|i: int, j: int| 0 <= i < j < d.len() implies d[i] <= d[j] by {
            assert(d[i] == times[i + 1] && d[j] == times[j + 1]);
        }
        two_seconds_count(d, now);
        assert(recent(times, now) =~= times.skip(times.len() - recent(times, now).len()));
        assert forall|i: int| 0 <= i < times.len() implies (#[trigger] times[i] + 2_000_000_000
            >= now <==> i >= times.len() - recent(times, now).len()) by {
            if i > 0 {
                assert(times[i] == d[i - 1]);
            }
        }
    } else {
        assert(recent(times, now) =~= times.skip(0));
    }
}

/// A live unit counts for the rate from the instant at which it comes.
pub proof fn live_units_count(h: HubState, m: MediaFacts, now: u64)
    requires
        m.kind == 2 || m.kind == 3,
        in_order(h.times),
        h.times.len() > 0 ==> h.times.last() <= now,
    ensures
        h.with_unit(m, now).times.len() > 0,
        h.with_unit(m, now).times.last() == now,
        in_order(h.with_unit(m, now).times),
        h.with_unit(m, now).times.len() == recent(h.times, now).len() + 1,
{
    let t = h.times.push(now);
    assert forall|i: int, j: int| 0 <= i < j < t.len() implies t[i] <= t[j] by {
        if j == h.times.len() {
            assert(h.times[i] <= h.times.last());
        }
    }
    two_seconds_count(t, now);
    two_seconds_count(h.times, now);
    let n = t.len() - recent(t, now).len();
    let k = h.times.len() - recent(h.times, now).len();
    assert(t.last() == now);
    assert(n < t.len());
    if n < k {
        assert(t[n] == h.times[n]);
    } else if k < n {
        assert(t[k] == h.times[k]);
    }
    let r = t.skip(n);
    assert forall|i: int, j: int| 0 <= i < j < r.len() implies r[i] <= r[j] by {
        assert(r[i] == t[i + n] && r[j] == t[j + n]);
    }
}

/// Clearing forgets all media and counts one generation more; subscribers stay
/// subscribed, with nothing waiting.
pub proof fn clearing_keeps_subscribers(h: HubState)
    ensures
        ({
            let r = h.cleared();
            &&& r.latest is None && r.snap is None && r.init is None && r.last_at is None
            &&& r.times.len() == 0
            &&& r.gen == h.gen + 1 && r.next_id == h.next_id
            &&& (r.width, r.height) == (h.width, h.height)
            &&& r.subs.len() == h.subs.len()
            &&& forall|i: int|
                0 <= i < h.subs.len() ==> (#[trigger] r.subs[i]).id == h.subs[i].id
                    && r.subs[i].cap == h.subs[i].cap && r.subs[i].waiting.len() == 0
        }),
{
}

/// A subscriber is found by its number while it is subscribed, and not after.
pub proof fn subscribers_are_found_by_number(h: HubState, i: int, id: u64)
    requires
        h.wf(),
        0 <= i < h.subs.len(),
    ensures
        h.index_of(h.subs[i].id) == Some(i),
        (forall|j: int| 0 <= j < h.subs.len() ==> (#[trigger] h.subs[j]).id != id) ==> h.index_of(id)
            is None,
        h.subs[i].id < h.next_id,
        h.subs[i].waiting.len() <= h.subs[i].cap,
{
    let d = h.subs[i].id;
    let k = choose|k: int| 0 <= k < h.subs.len() && (#[trigger] h.subs[k]).id == d;
    assert(h.subs[i].id == d);
    assert(0 <= k < h.subs.len() && h.subs[k].id == d);
}

/// A hub begins with nobody subscribed, nothing seen and the first number free.
/// A queue with room for one unit is as good as any.
pub proof fn hubs_begin_empty(id: u64)
    ensures
        ({
            let h = empty_hub();
            &&& h.subs.len() == 0 && h.next_id == 1 && h.gen == 0
            &&& h.latest is None && h.snap is None && h.init is None && h.last_at is None
            &&& h.width == 0 && h.height == 0 && h.times.len() == 0
            &&& h.wf()
        }),
        id < 7 ==> (HubState {
            subs: seq![(Queue { id, cap: 1, waiting: Seq::empty() })],
            next_id: 7,
            ..empty_hub()
        }).wf(),
{
}

} // verus!
