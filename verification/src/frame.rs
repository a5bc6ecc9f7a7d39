//! Split ffmpeg stdout into complete JPEG frames or fMP4 init/fragments.

use crate::octets::{be_bytes, be_value, copy_of, extend, push_be, read_be};
use vstd::prelude::*;
use vstd::slice::slice_subrange;

verus! {

pub const MAX_BUF: usize = 20_971_520;

#[derive(Debug, Clone, PartialEq, Eq)]
pub enum Unit {
    Jpeg(Vec<u8>),
    Init(Vec<u8>),
    Fragment(Vec<u8>),
}

/// A unit with its bytes.
#[verifier::ext_equal]
pub ghost enum UnitBytes {
    Jpeg(Seq<u8>),
    Init(Seq<u8>),
    Fragment(Seq<u8>),
}

impl View for Unit {
    type V = UnitBytes;

    open spec fn view(&self) -> UnitBytes {
        match self {
            Unit::Jpeg(b) => UnitBytes::Jpeg(b@),
            Unit::Init(b) => UnitBytes::Init(b@),
            Unit::Fragment(b) => UnitBytes::Fragment(b@),
        }
    }
}

pub open spec fn units_of(v: Seq<Unit>) -> Seq<UnitBytes> {
    Seq::new(v.len(), |i: int| v[i]@)
}

pub open spec fn frames_of(v: Seq<Vec<u8>>) -> Seq<Seq<u8>> {
    Seq::new(v.len(), |i: int| v[i]@)
}

pub open spec fn be16(s: Seq<u8>, i: int) -> int {
    s[i] as int * 256 + s[i + 1] as int
}

/// RST0 to RST7.
pub open spec fn restart(m: u8) -> bool {
    0xd0 <= m <= 0xd7
}

/// Markers that carry no segment: SOI, TEM and the restarts.
pub open spec fn stand_alone(m: u8) -> bool {
    m == 0xd8 || m == 0x01 || restart(m)
}

/// Width and height from the first frame header that a walk over the markers
/// from `i` meets, or zeros.
pub open spec fn header_size(s: Seq<u8>, i: int) -> (int, int)
    decreases s.len() - i,
{
    if i + 9 > s.len() {
        (0, 0)
    } else if s[i] != 0xff {
        header_size(s, i + 1)
    } else if s[i + 1] == 0xc0 || s[i + 1] == 0xc2 {
        (be16(s, i + 7), be16(s, i + 5))
    } else if stand_alone(s[i + 1]) {
        header_size(s, i + 2)
    } else if be16(s, i + 2) < 2 || i + 2 + be16(s, i + 2) > s.len() {
        (0, 0)
    } else {
        header_size(s, i + 2 + be16(s, i + 2))
    }
}

/// Width and height of a JPEG, or zeros where the bytes name none.
pub open spec fn picture_size(s: Seq<u8>) -> (int, int) {
    if s.len() < 4 || s[0] != 0xff || s[1] != 0xd8 {
        (0, 0)
    } else {
        header_size(s, 2)
    }
}

fn read_be16(data: &[u8], i: usize) -> (n: usize)
    requires
        i + 1 < data@.len(),
    ensures
        n == be16(data@, i as int),
        n <= 0xffff,
{
    data[i] as usize * 256 + data[i + 1] as usize
}

fn is_restart(m: u8) -> (r: bool)
    ensures
        r == restart(m),
{
    0xd0 <= m && m <= 0xd7
}

pub fn jpeg_size(data: &[u8]) -> (r: (u32, u32))
    ensures
        r.0 == picture_size(data@).0,
        r.1 == picture_size(data@).1,
{
    let n: usize = data.len();
    if n < 4 || data[0] != 0xff || data[1] != 0xd8 {
        return (0, 0);
    }
    let mut i: usize = 2;
    while i < n && n - i >= 9
        invariant
            i <= n == data@.len(),
            header_size(data@, i as int) == picture_size(data@),
        decreases n - i,
    {
        if data[i] != 0xff {
            i += 1;
            continue;
        }
        let m: u8 = data[i + 1];
        if m == 0xc0 || m == 0xc2 {
            let h: usize = read_be16(data, i + 5);
            let w: usize = read_be16(data, i + 7);
            return (w as u32, h as u32);
        }
        if m == 0xd8 || m == 0x01 || is_restart(m) {
            i += 2;
            continue;
        }
        let seglen: usize = read_be16(data, i + 2);
        if seglen < 2 || seglen > n - i - 2 {
            return (0, 0);
        }
        i += 2 + seglen;
    }
    (0, 0)
}

/// A position held in a `usize`.
pub open spec fn capped(i: int) -> int {
    if i > usize::MAX {
        usize::MAX as int
    } else {
        i
    }
}

/// Walks over the markers from `i` to the end of the image. Gives where the
/// end marker stands, if it was met, where to go on, and whether that is
/// inside entropy-coded data. There a marker other than a restart or a stuffed
/// byte stops the walk just behind it.
pub open spec fn eoi_walk(s: Seq<u8>, i: int, in_scan: bool) -> (Option<int>, int, bool)
    decreases s.len() - i,
{
    if i + 1 >= s.len() {
        (None, i, in_scan)
    } else if s[i] != 0xff {
        eoi_walk(s, i + 1, in_scan)
    } else if s[i + 1] == 0xd9 {
        (Some(i), i + 2, false)
    } else if in_scan {
        if s[i + 1] == 0 || restart(s[i + 1]) {
            eoi_walk(s, i + 2, true)
        } else {
            (None, if i + 2 <= s.len() - 1 { i + 2 } else { s.len() - 1 }, true)
        }
    } else if stand_alone(s[i + 1]) {
        eoi_walk(s, i + 2, false)
    } else if s[i + 1] == 0xda {
        eoi_walk(s, i + 2, true)
    } else if i + 4 > s.len() || be16(s, i + 2) < 2 {
        (None, i, false)
    } else if i + 2 + be16(s, i + 2) + 1 >= s.len() {
        (None, capped(i + 2 + be16(s, i + 2)), false)
    } else {
        eoi_walk(s, i + 2 + be16(s, i + 2), false)
    }
}

fn scan_eoi(buf: &[u8], start: usize, in_scan: bool) -> (r: (Option<usize>, usize, bool))
    ensures
        match r.0 {
            Some(e) => eoi_walk(buf@, start as int, in_scan).0 == Some(e as int) && e + 2
                <= buf@.len() && buf@[e as int] == 0xff && buf@[e + 1] == 0xd9,
            None => eoi_walk(buf@, start as int, in_scan).0 is None,
        },
        r.1 == eoi_walk(buf@, start as int, in_scan).1,
        r.2 == eoi_walk(buf@, start as int, in_scan).2,
{
    let n: usize = buf.len();
    let mut i: usize = start;
    let mut scan = in_scan;
    while i < n && n - i > 1
        invariant
            n == buf@.len(),
            eoi_walk(buf@, i as int, scan) == eoi_walk(buf@, start as int, in_scan),
        decreases n - i,
    {
        if buf[i] != 0xff {
            i += 1;
            continue;
        }
        let m: u8 = buf[i + 1];
        if m == 0xd9 {
            return (Some(i), i + 2, false);
        }
        if scan {
            if m == 0x00 || is_restart(m) {
                i += 2;
                continue;
            }
            let resume: usize = if i + 2 <= n - 1 {
                i + 2
            } else {
                n - 1
            };
            return (None, resume, true);
        }
        if m == 0xd8 || m == 0x01 || is_restart(m) {
            i += 2;
            continue;
        }
        if m == 0xda {
            scan = true;
            i += 2;
            continue;
        }
        if n - i < 4 {
            return (None, i, false);
        }
        let seglen: usize = read_be16(buf, i + 2);
        if seglen < 2 {
            return (None, i, false);
        }
        if seglen >= n - i - 2 || seglen + 1 >= n - i - 2 {
            let resume: usize = if seglen > usize::MAX - i - 2 {
                usize::MAX
            } else {
                i + 2 + seglen
            };
            return (None, resume, false);
        }
        i += 2 + seglen;
    }
    (None, i, scan)
}

/// The first start-of-image marker at or after `from`.
pub open spec fn soi_at(s: Seq<u8>, from: int) -> Option<int>
    decreases s.len() - from,
{
    if from + 1 >= s.len() {
        None
    } else if s[from] == 0xff && s[from + 1] == 0xd8 {
        Some(from)
    } else {
        soi_at(s, from + 1)
    }
}

fn find_soi(buf: &[u8], start: usize) -> (r: Option<usize>)
    ensures
        match r {
            Some(k) => soi_at(buf@, start as int) == Some(k as int) && k + 2 <= buf@.len()
                && buf@[k as int] == 0xff && buf@[k + 1] == 0xd8,
            None => soi_at(buf@, start as int) is None,
        },
{
    let mut i: usize = start;
    while i < buf.len() && buf.len() - i > 1
        invariant
            soi_at(buf@, i as int) == soi_at(buf@, start as int),
        decreases buf@.len() - i,
    {
        if buf[i] == 0xff && buf[i + 1] == 0xd8 {
            return Some(i);
        }
        i += 1;
    }
    None
}

/// What a framer for JPEG streams holds between two pushes.
#[verifier::ext_equal]
pub ghost struct MjpegState {
    pub buf: Seq<u8>,
    /// Looking for the start of an image.
    pub scanning: bool,
    /// Where the look goes on.
    pub from: int,
    pub in_scan: bool,
}

pub open spec fn mjpeg_idle(buf: Seq<u8>) -> MjpegState {
    MjpegState { buf, scanning: true, from: 0, in_scan: false }
}

/// An image has begun at the start of the buffer.
pub open spec fn mjpeg_begun(buf: Seq<u8>) -> MjpegState {
    MjpegState { buf, scanning: false, from: 0, in_scan: false }
}

impl MjpegState {
    pub open spec fn fed(self, chunk: Seq<u8>) -> MjpegState {
        MjpegState { buf: self.buf + chunk, ..self }
    }

    /// Once an image has begun, the buffer begins with its first marker.
    pub open spec fn wf(self) -> bool {
        self.scanning || (self.buf.len() >= 2 && self.buf[0] == 0xff && self.buf[1] == 0xd8)
    }
}

pub proof fn eoi_walk_found(s: Seq<u8>, i: int, in_scan: bool)
    requires
        0 <= i,
    ensures
        eoi_walk(s, i, in_scan).0 matches Some(e) ==> i <= e && e + 2 <= s.len() && s[e] == 0xff
            && s[e + 1] == 0xd9,
    decreases s.len() - i,
{
    if i + 1 >= s.len() {
    } else if s[i] != 0xff {
        eoi_walk_found(s, i + 1, in_scan);
    } else if s[i + 1] == 0xd9 {
    } else if in_scan {
        if s[i + 1] == 0 || restart(s[i + 1]) {
            eoi_walk_found(s, i + 2, true);
        }
    } else if stand_alone(s[i + 1]) {
        eoi_walk_found(s, i + 2, false);
    } else if s[i + 1] == 0xda {
        eoi_walk_found(s, i + 2, true);
    } else if i + 4 > s.len() || be16(s, i + 2) < 2 {
    } else if i + 2 + be16(s, i + 2) + 1 >= s.len() {
    } else {
        eoi_walk_found(s, i + 2 + be16(s, i + 2), false);
    }
}

pub proof fn soi_at_found(s: Seq<u8>, from: int)
    requires
        0 <= from,
    ensures
        soi_at(s, from) matches Some(k) ==> from <= k && k + 2 <= s.len() && s[k] == 0xff && s[k
            + 1] == 0xd8,
    decreases s.len() - from,
{
    if from + 1 >= s.len() {
    } else if s[from] == 0xff && s[from + 1] == 0xd8 {
    } else {
        soi_at_found(s, from + 1);
    }
}

/// The images that a framer in state `st` gives out, and what it then holds.
pub open spec fn mjpeg_run(st: MjpegState) -> (Seq<Seq<u8>>, MjpegState)
    decreases
            st.buf.len(),
            if st.scanning {
                1int
            } else {
                0int
            },
    when 0 <= st.from
    via mjpeg_run_shrinks
{
    if st.scanning {
        match soi_at(st.buf, st.from) {
            None => (
                Seq::empty(),
                MjpegState {
                    from: if st.buf.len() > 0 {
                        st.buf.len() - 1
                    } else {
                        0
                    },
                    ..st
                },
            ),
            Some(k) => mjpeg_run(mjpeg_begun(st.buf.skip(k))),
        }
    } else {
        match eoi_walk(st.buf, st.from, st.in_scan) {
            (None, from, in_scan) => (
                Seq::empty(),
                if st.buf.len() > MAX_BUF {
                    mjpeg_idle(Seq::empty())
                } else {
                    MjpegState { from, in_scan, ..st }
                },
            ),
            (Some(e), _, _) => {
                let rest = mjpeg_run(mjpeg_idle(st.buf.skip(e + 2)));
                (seq![st.buf.take(e + 2)] + rest.0, rest.1)
            },
        }
    }
}

#[via_fn]
proof fn mjpeg_run_shrinks(st: MjpegState) {
    soi_at_found(st.buf, st.from);
    eoi_walk_found(st.buf, st.from, st.in_scan);
}

pub struct MjpegFramer {
    buf: Vec<u8>,
    scanning: bool,
    scan_from: usize,
    in_scan: bool,
}

impl View for MjpegFramer {
    type V = MjpegState;

    closed spec fn view(&self) -> MjpegState {
        MjpegState {
            buf: self.buf@,
            scanning: self.scanning,
            from: self.scan_from as int,
            in_scan: self.in_scan,
        }
    }
}

impl Default for MjpegFramer {
    fn default() -> (f: Self)
        ensures
            f@ == mjpeg_idle(Seq::empty()),
    {
        MjpegFramer { buf: Vec::new(), scanning: true, scan_from: 0, in_scan: false }
    }
}

impl MjpegFramer {
    pub fn new() -> (f: Self)
        ensures
            f@ == mjpeg_idle(Seq::empty()),
    {
        MjpegFramer { buf: Vec::new(), scanning: true, scan_from: 0, in_scan: false }
    }

    pub fn push(&mut self, chunk: &[u8]) -> (out: Vec<Vec<u8>>)
        ensures
            frames_of(out@) == mjpeg_run(old(self)@.fed(chunk@)).0,
            final(self)@ == mjpeg_run(old(self)@.fed(chunk@)).1,
    {
        let ghost start = self@.fed(chunk@);
        extend(&mut self.buf, chunk);
        let mut out: Vec<Vec<u8>> = Vec::new();
        assert(self@ =~= start);
        assert(frames_of(out@) + mjpeg_run(self@).0 =~= mjpeg_run(start).0);
        loop
            invariant_except_break
                frames_of(out@) + mjpeg_run(self@).0 == mjpeg_run(start).0,
                mjpeg_run(self@).1 == mjpeg_run(start).1,
            ensures
                frames_of(out@) == mjpeg_run(start).0,
                self@ == mjpeg_run(start).1,
            decreases
                    self@.buf.len(),
                    if self@.scanning {
                        1int
                    } else {
                        0int
                    },
        {
            let ghost here = self@;
            if self.scanning {
                match find_soi(self.buf.as_slice(), self.scan_from) {
                    None => {
                        self.scan_from = if self.buf.len() > 0 {
                            self.buf.len() - 1
                        } else {
                            0
                        };
                        assert(self@ =~= mjpeg_run(here).1);
                        assert(frames_of(out@) + Seq::<Seq<u8>>::empty() =~= frames_of(out@));
                        break;
                    },
                    Some(idx) => {
                        self.buf = self.buf.split_off(idx);
                        self.scanning = false;
                        self.scan_from = 0;
                        self.in_scan = false;
                        assert(self@ =~= mjpeg_begun(here.buf.skip(idx as int)));
                        continue;
                    },
                }
            }
            let (eoi, resume, in_scan) = scan_eoi(self.buf.as_slice(), self.scan_from, self.in_scan);
            match eoi {
                None => {
                    if self.buf.len() > MAX_BUF {
                        self.buf.clear();
                        self.scanning = true;
                        self.scan_from = 0;
                        self.in_scan = false;
                    } else {
                        self.scan_from = resume;
                        self.in_scan = in_scan;
                    }
                    assert(self@ =~= mjpeg_run(here).1);
                    assert(frames_of(out@) + Seq::<Seq<u8>>::empty() =~= frames_of(out@));
                    break;
                },
                Some(idx) => {
                    let n: usize = self.buf.len();
                    assert(idx + 2 <= n);
                    let rest = self.buf.split_off(idx + 2);
                    let frame = copy_of(&self.buf);
                    self.buf = rest;
                    self.scanning = true;
                    self.scan_from = 0;
                    self.in_scan = false;
                    assert(self@ =~= mjpeg_idle(here.buf.skip(idx + 2)));
                    assert(frame@ =~= here.buf.take(idx + 2));
                    let ghost before = frames_of(out@);
                    out.push(frame);
                    assert(frames_of(out@) =~= before.push(frame@));
                    assert(before.push(frame@) + mjpeg_run(self@).0 =~= before + (seq![frame@]
                        + mjpeg_run(self@).0));
                },
            }
        }
        out
    }
}

/// Every image given out is a whole one: it begins with the start marker and
/// ends with the end marker.
pub proof fn mjpeg_frames_are_whole(st: MjpegState)
    requires
        st.wf(),
        0 <= st.from,
    ensures
        mjpeg_run(st).1.wf(),
        forall|i: int|
            0 <= i < mjpeg_run(st).0.len() ==> {
                let f = #[trigger] mjpeg_run(st).0[i];
                &&& f.len() >= 3
                &&& f[0] == 0xff
                &&& f[1] == 0xd8
                &&& f[f.len() - 2] == 0xff
                &&& f[f.len() - 1] == 0xd9
            },
    decreases
            st.buf.len(),
            if st.scanning {
                1int
            } else {
                0int
            },
{
    soi_at_found(st.buf, st.from);
    eoi_walk_found(st.buf, st.from, st.in_scan);
    if st.scanning {
        match soi_at(st.buf, st.from) {
            None => {},
            Some(k) => {
                mjpeg_frames_are_whole(mjpeg_begun(st.buf.skip(k)));
            },
        }
    } else {
        match eoi_walk(st.buf, st.from, st.in_scan) {
            (None, from, in_scan) => {},
            (Some(e), _, _) => {
                mjpeg_frames_are_whole(mjpeg_idle(st.buf.skip(e + 2)));
            },
        }
    }
}


/// A JPEG whose markers lead to an end marker, and that marker is its end.
pub open spec fn clean_image(j: Seq<u8>) -> bool {
    &&& j.len() >= 4
    &&& j[0] == 0xff
    &&& j[1] == 0xd8
    &&& eoi_walk(j, 0, false).0 == Some(j.len() - 2)
}

/// The framer was idle and has since been fed the first `k` bytes of `j`.
pub open spec fn partway(st: MjpegState, j: Seq<u8>, k: int) -> bool {
    if k < 2 {
        st == mjpeg_idle(j.take(k))
    } else {
        &&& !st.scanning
        &&& st.buf == j.take(k)
        &&& 0 <= st.from
        &&& eoi_walk(j, st.from, st.in_scan) == eoi_walk(j, 0, false)
    }
}

proof fn eoi_walk_on_prefix(s: Seq<u8>, k: int, i: int, in_scan: bool)
    requires
        0 <= i,
        0 <= k <= s.len() <= usize::MAX,
        eoi_walk(s, i, in_scan).0 matches Some(e) && k < e + 2,
    ensures
        ({
            let w = eoi_walk(s.take(k), i, in_scan);
            &&& w.0 is None
            &&& 0 <= w.1
            &&& eoi_walk(s, w.1, w.2) == eoi_walk(s, i, in_scan)
        }),
    decreases s.len() - i,
{
    let p = s.take(k);
    if i + 1 >= k {
    } else if s[i] != 0xff {
        eoi_walk_on_prefix(s, k, i + 1, in_scan);
    } else if s[i + 1] == 0xd9 {
    } else if in_scan {
        if s[i + 1] == 0 || restart(s[i + 1]) {
            eoi_walk_on_prefix(s, k, i + 2, true);
        }
    } else if stand_alone(s[i + 1]) {
        eoi_walk_on_prefix(s, k, i + 2, false);
    } else if s[i + 1] == 0xda {
        eoi_walk_on_prefix(s, k, i + 2, true);
    } else if i + 4 > k {
    } else {
        assert(be16(p, i + 2) == be16(s, i + 2));
        if i + 2 + be16(s, i + 2) + 1 >= k {
        } else {
            eoi_walk_on_prefix(s, k, i + 2 + be16(s, i + 2), false);
        }
    }
}

proof fn eoi_walk_with_tail(s: Seq<u8>, t: Seq<u8>, i: int, in_scan: bool)
    requires
        0 <= i,
        eoi_walk(s, i, in_scan).0 is Some,
    ensures
        eoi_walk(s + t, i, in_scan) == eoi_walk(s, i, in_scan),
    decreases s.len() - i,
{
    let p = s + t;
    if i + 1 >= s.len() {
    } else if s[i] != 0xff {
        eoi_walk_with_tail(s, t, i + 1, in_scan);
    } else if s[i + 1] == 0xd9 {
    } else if in_scan {
        if s[i + 1] == 0 || restart(s[i + 1]) {
            eoi_walk_with_tail(s, t, i + 2, true);
        }
    } else if stand_alone(s[i + 1]) {
        eoi_walk_with_tail(s, t, i + 2, false);
    } else if s[i + 1] == 0xda {
        eoi_walk_with_tail(s, t, i + 2, true);
    } else if i + 4 > s.len() {
    } else {
        assert(be16(p, i + 2) == be16(s, i + 2));
        if i + 2 + be16(s, i + 2) + 1 >= s.len() {
        } else {
            eoi_walk_with_tail(s, t, i + 2 + be16(s, i + 2), false);
        }
    }
}

proof fn begun_or_partway(st: MjpegState, j: Seq<u8>, k: int, m: int) -> (on: MjpegState)
    requires
        clean_image(j),
        partway(st, j, k),
        0 <= k <= m,
        2 <= m <= j.len(),
    ensures
        on.buf == j.take(m),
        partway(on, j, m),
        forall|t: Seq<u8>| #[trigger]
            mjpeg_run(st.fed(j.subrange(k, m) + t)) == mjpeg_run(on.fed(t)),
{
    assert(j.take(k) + j.subrange(k, m) =~= j.take(m));
    let on = if k < 2 {
        mjpeg_begun(j.take(m))
    } else {
        MjpegState { buf: j.take(m), ..st }
    };
    assert forall|t: Seq<u8>| #[trigger]
        mjpeg_run(st.fed(j.subrange(k, m) + t)) == mjpeg_run(on.fed(t)) by {
        let fed = st.fed(j.subrange(k, m) + t);
        assert(fed.buf =~= j.take(m) + t);
        if k < 2 {
            assert(soi_at(fed.buf, 0) == Some(0int));
            assert(fed.buf.skip(0) =~= fed.buf);
            assert(mjpeg_begun(fed.buf) =~= on.fed(t));
        } else {
            assert(fed =~= on.fed(t));
        }
    }
    on
}

/// However a clean image is cut into chunks, the framer gives nothing out
/// before the chunk that completes the image.
pub proof fn mjpeg_waits_for_the_rest(st: MjpegState, j: Seq<u8>, k: int, m: int)
    requires
        clean_image(j),
        j.len() <= MAX_BUF,
        partway(st, j, k),
        0 <= k <= m < j.len(),
    ensures
        mjpeg_run(st.fed(j.subrange(k, m))).0.len() == 0,
        partway(mjpeg_run(st.fed(j.subrange(k, m))).1, j, m),
{
    let chunk = j.subrange(k, m);
    if m < 2 {
        let fed = st.fed(chunk);
        assert(fed.buf =~= j.take(m));
        assert(mjpeg_run(fed).1 =~= mjpeg_idle(j.take(m)));
    } else {
        let on = begun_or_partway(st, j, k, m);
        let t = Seq::<u8>::empty();
        assert(chunk + t =~= chunk);
        assert(mjpeg_run(st.fed(chunk + t)) == mjpeg_run(on.fed(t)));
        assert(on.fed(t).buf =~= on.buf);
        assert(on.fed(t) =~= on);
        eoi_walk_on_prefix(j, m, on.from, on.in_scan);
    }
}

/// The chunk that completes a clean image brings that image out, byte for
/// byte, and the bytes behind it are read as if the framer were new.
pub proof fn mjpeg_gives_the_image_back(st: MjpegState, j: Seq<u8>, k: int, tail: Seq<u8>)
    requires
        clean_image(j),
        partway(st, j, k),
        0 <= k < j.len(),
    ensures
        mjpeg_run(st.fed(j.skip(k) + tail)).0 == seq![j] + mjpeg_run(mjpeg_idle(tail)).0,
        mjpeg_run(st.fed(j.skip(k) + tail)).1 == mjpeg_run(mjpeg_idle(tail)).1,
{
    let n = j.len() as int;
    let on = begun_or_partway(st, j, k, n);
    assert(j.subrange(k, n) =~= j.skip(k));
    assert(mjpeg_run(st.fed(j.subrange(k, n) + tail)) == mjpeg_run(on.fed(tail)));
    assert(j.take(n) =~= j);
    eoi_walk_with_tail(j, tail, on.from, on.in_scan);
    let fed = on.fed(tail);
    assert(fed.buf =~= j + tail);
    assert((j + tail).take(n) =~= j);
    assert((j + tail).skip(n) =~= tail);
    assert(eoi_walk(fed.buf, fed.from, fed.in_scan).0 == Some(n - 2));
}

/// The images given out over several pushes, and the state after them.
pub open spec fn mjpeg_pushes(st: MjpegState, chunks: Seq<Seq<u8>>) -> (
    Seq<Seq<u8>>,
    MjpegState,
)
    decreases chunks.len(),
{
    if chunks.len() == 0 {
        (Seq::empty(), st)
    } else {
        let first = mjpeg_run(st.fed(chunks[0]));
        let rest = mjpeg_pushes(first.1, chunks.drop_first());
        (first.0 + rest.0, rest.1)
    }
}

/// A row of clean images, none too large to be held.
pub open spec fn clean_row(row: Seq<Seq<u8>>) -> bool {
    forall|i: int|
        0 <= i < row.len() ==> clean_image(#[trigger] row[i]) && row[i].len() <= MAX_BUF
}

/// The framer has been fed `k` bytes of the first image of the row.
spec fn waiting(st: MjpegState, row: Seq<Seq<u8>>, k: int) -> bool {
    if row.len() == 0 {
        k == 0 && st == mjpeg_idle(Seq::empty())
    } else {
        0 <= k < row[0].len() && partway(st, row[0], k)
    }
}

proof fn clean_row_rest(row: Seq<Seq<u8>>)
    requires
        clean_row(row),
        row.len() > 0,
    ensures
        clean_row(row.drop_first()),
        clean_image(row[0]),
        row[0].len() <= MAX_BUF,
        row.flatten() == row[0] + row.drop_first().flatten(),
        waiting(mjpeg_idle(Seq::empty()), row.drop_first(), 0),
{
    let rest = row.drop_first();
    assert forall|i: int| 0 <= i < rest.len() implies clean_image(#[trigger] rest[i])
        && rest[i].len() <= MAX_BUF by {
        assert(rest[i] == row[i + 1]);
    }
    if rest.len() > 0 {
        assert(clean_image(rest[0]));
        assert(rest[0].take(0) =~= Seq::<u8>::empty());
    }
}

proof fn one_push(st: MjpegState, row: Seq<Seq<u8>>, k: int, chunk: Seq<u8>) -> (at: (int, int))
    requires
        clean_row(row),
        waiting(st, row, k),
        k + chunk.len() <= row.flatten().len(),
        chunk == row.flatten().subrange(k, k + chunk.len()),
    ensures
        0 <= at.0 <= row.len(),
        mjpeg_run(st.fed(chunk)).0 == row.take(at.0),
        waiting(mjpeg_run(st.fed(chunk)).1, row.skip(at.0), at.1),
        row.flatten().skip(k + chunk.len()) == row.skip(at.0).flatten().skip(at.1),
    decreases row.len(),
{
    let fed = st.fed(chunk);
    if row.len() == 0 {
        assert(fed =~= st);
        assert(mjpeg_run(fed).1 =~= st);
        assert(row.take(0) =~= Seq::<Seq<u8>>::empty());
        assert(row.skip(0) =~= row);
        (0, 0)
    } else {
        clean_row_rest(row);
        let j = row[0];
        let rest = row.drop_first();
        let m = k + chunk.len();
        if m < j.len() {
            assert(chunk =~= j.subrange(k, m));
            mjpeg_waits_for_the_rest(st, j, k, m);
            assert(row.take(0) =~= mjpeg_run(fed).0);
            assert(row.skip(0) =~= row);
            (0, m)
        } else {
            let tail = row.flatten().subrange(j.len() as int, m);
            assert(chunk =~= j.skip(k) + tail);
            mjpeg_gives_the_image_back(st, j, k, tail);
            let idle = mjpeg_idle(Seq::<u8>::empty());
            assert(idle.fed(tail) =~= mjpeg_idle(tail));
            assert(tail =~= rest.flatten().subrange(0, tail.len() as int));
            let at = one_push(idle, rest, 0, tail);
            assert(row.take(at.0 + 1) =~= seq![j] + rest.take(at.0));
            assert(row.skip(at.0 + 1) =~= rest.skip(at.0));
            assert(row.flatten().skip(m) =~= rest.flatten().skip(tail.len() as int));
            (at.0 + 1, at.1)
        }
    }
}

proof fn all_pushes(st: MjpegState, row: Seq<Seq<u8>>, k: int, chunks: Seq<Seq<u8>>)
    requires
        clean_row(row),
        waiting(st, row, k),
        k <= row.flatten().len(),
        chunks.flatten() == row.flatten().skip(k),
    ensures
        mjpeg_pushes(st, chunks) == (row, mjpeg_idle(Seq::empty())),
    decreases chunks.len(),
{
    if chunks.len() == 0 {
        if row.len() > 0 {
            clean_row_rest(row);
            assert(row.flatten().skip(k).len() > 0);
        }
        assert(row =~= Seq::<Seq<u8>>::empty());
    } else {
        let c = chunks[0];
        let rest = chunks.drop_first();
        assert(chunks.flatten() == c + rest.flatten());
        assert(c =~= row.flatten().subrange(k, k + c.len()));
        let at = one_push(st, row, k, c);
        let left = row.skip(at.0);
        assert forall|i: int| 0 <= i < left.len() implies clean_image(#[trigger] left[i])
            && left[i].len() <= MAX_BUF by {
            assert(left[i] == row[i + at.0]);
        }
        if left.len() > 0 {
            clean_row_rest(left);
        }
        let all = row.flatten();
        assert((c + rest.flatten()).skip(c.len() as int) =~= rest.flatten());
        assert(all.skip(k).skip(c.len() as int) =~= all.skip(k + c.len()));
        all_pushes(mjpeg_run(st.fed(c)).1, left, at.1, rest);
        assert(row.take(at.0) + left =~= row);
    }
}

/// However a row of clean images is cut into chunks, a framer that was idle
/// gives out exactly these images, in their order, and is idle again.
pub proof fn mjpeg_images_come_back(chunks: Seq<Seq<u8>>, row: Seq<Seq<u8>>)
    requires
        clean_row(row),
        chunks.flatten() == row.flatten(),
    ensures
        mjpeg_pushes(mjpeg_idle(Seq::empty()), chunks) == (row, mjpeg_idle(Seq::empty())),
{
    let idle = mjpeg_idle(Seq::<u8>::empty());
    if row.len() > 0 {
        assert(clean_image(row[0]));
        assert(row[0].take(0) =~= Seq::<u8>::empty());
    }
    assert(row.flatten().skip(0) =~= row.flatten());
    all_pushes(idle, row, 0, chunks);
}

/// The bytes of a small grey JPEG around the given entropy-coded data.
pub open spec fn jpeg_bytes(w: u16, h: u16, entropy: Seq<u8>) -> Seq<u8> {
    seq![0xffu8, 0xd8, 0xff, 0xc0, 0x00, 0x0b, 0x08] + be_bytes(h as nat, 2) + be_bytes(
        w as nat,
        2,
    ) + seq![1u8, 1, 0x11, 0, 0xff, 0xda, 0x00, 0x08, 1, 1, 0x00, 0, 0x3f, 0] + entropy
        + seq![0xffu8, 0xd9]
}

pub fn make_jpeg(w: u16, h: u16, entropy: &[u8]) -> (v: Vec<u8>)
    ensures
        v@ == jpeg_bytes(w, h, entropy@),
{
    let mut v: Vec<u8> = vec![0xff, 0xd8, 0xff, 0xc0, 0x00, 0x0b, 0x08];
    push_be(&mut v, h as u64, 2);
    push_be(&mut v, w as u64, 2);
    let sos: [u8; 14] = [1u8, 1, 0x11, 0, 0xff, 0xda, 0x00, 0x08, 1, 1, 0x00, 0, 0x3f, 0];
    extend(&mut v, &sos);
    extend(&mut v, entropy);
    let eoi: [u8; 2] = [0xff, 0xd9];
    extend(&mut v, &eoi);
    assert(v@ =~= jpeg_bytes(w, h, entropy@));
    v
}

/// Entropy-coded data in which every marker is a stuffed byte or a restart.
pub open spec fn stuffed(e: Seq<u8>) -> bool {
    forall|i: int|
        0 <= i < e.len() && #[trigger] e[i] == 0xff ==> i + 1 < e.len() && (e[i + 1] == 0
            || restart(e[i + 1]))
}

proof fn eoi_walk_through_entropy(s: Seq<u8>, i: int)
    requires
        s.len() >= 2,
        0 <= i <= s.len() - 2,
        s[s.len() - 2] == 0xff,
        s[s.len() - 1] == 0xd9,
        forall|x: int|
            i <= x < s.len() - 2 && #[trigger] s[x] == 0xff ==> x + 1 < s.len() - 2 && (s[x + 1]
                == 0 || restart(s[x + 1])),
    ensures
        eoi_walk(s, i, true).0 == Some(s.len() - 2),
    decreases s.len() - i,
{
    if i == s.len() - 2 {
    } else if s[i] != 0xff {
        eoi_walk_through_entropy(s, i + 1);
    } else {
        eoi_walk_through_entropy(s, i + 2);
    }
}

/// A built JPEG has the size it was built with, and a framer takes it for one
/// whole image.
pub proof fn made_jpeg_is_clean(w: u16, h: u16, entropy: Seq<u8>)
    requires
        stuffed(entropy),
    ensures
        picture_size(jpeg_bytes(w, h, entropy)) == (w as int, h as int),
        clean_image(jpeg_bytes(w, h, entropy)),
{
    let j = jpeg_bytes(w, h, entropy);
    reveal_with_fuel(be_bytes, 3);
    assert(be_bytes(h as nat, 2) =~= seq![(h / 256) as u8, (h % 256) as u8]);
    assert(be_bytes(w as nat, 2) =~= seq![(w / 256) as u8, (w % 256) as u8]);
    assert(j.len() == 27 + entropy.len());
    assert(be16(j, 7) == h as int);
    assert(be16(j, 9) == w as int);
    assert(header_size(j, 2) == (be16(j, 9), be16(j, 7)));
    assert(be16(j, 4) == 11);
    assert(j[15] == 0xff && j[16] == 0xda);
    assert forall|x: int|
        17 <= x < j.len() - 2 && #[trigger] j[x] == 0xff implies x + 1 < j.len() - 2 && (j[x + 1]
        == 0 || restart(j[x + 1])) by {
        assert(x >= 25);
        assert(j[x] == entropy[x - 25]);
        assert(j[x + 1] == entropy[x - 25 + 1]);
    }
    eoi_walk_through_entropy(j, 17);
    assert(eoi_walk(j, 15, false) == eoi_walk(j, 17, true));
    assert(eoi_walk(j, 2, false) == eoi_walk(j, 15, false));
    assert(eoi_walk(j, 0, false) == eoi_walk(j, 2, false));
}

pub open spec fn be32(s: Seq<u8>, i: int) -> int {
    be_value(s.subrange(i, i + 4)) as int
}

/// The four characters that name a box, as bytes.
pub open spec fn box_name(s: Seq<u8>, i: int) -> Seq<u8> {
    s.subrange(i + 4, i + 8)
}

pub open spec fn ftyp() -> Seq<u8> {
    seq![0x66u8, 0x74, 0x79, 0x70]
}

pub open spec fn moov() -> Seq<u8> {
    seq![0x6du8, 0x6f, 0x6f, 0x76]
}

pub open spec fn moof() -> Seq<u8> {
    seq![0x6du8, 0x6f, 0x6f, 0x66]
}

pub open spec fn mdat() -> Seq<u8> {
    seq![0x6du8, 0x64, 0x61, 0x74]
}

/// Boxes that may stand between `ftyp` and `moov`: `free`, `skip`, `wide`.
pub open spec fn filler(name: Seq<u8>) -> bool {
    ||| name == seq![0x66u8, 0x72, 0x65, 0x65]
    ||| name == seq![0x73u8, 0x6b, 0x69, 0x70]
    ||| name == seq![0x77u8, 0x69, 0x64, 0x65]
}

/// Where the `moov` box ends, met from `pos` over filler boxes. `Err(0)` asks
/// for more bytes, `Err(-1)` says that this is no init segment.
pub open spec fn moov_walk(s: Seq<u8>, pos: int) -> Result<int, i32>
    decreases s.len() - pos,
{
    if pos + 8 > s.len() {
        Err(0)
    } else if be32(s, pos) < 8 {
        Err((-1) as i32)
    } else if box_name(s, pos) == moov() {
        if pos + be32(s, pos) <= s.len() {
            Ok(pos + be32(s, pos))
        } else {
            Err(0)
        }
    } else if filler(box_name(s, pos)) {
        if pos + be32(s, pos) <= s.len() {
            moov_walk(s, pos + be32(s, pos))
        } else {
            Err(0)
        }
    } else {
        Err((-1) as i32)
    }
}

/// Where the init segment at the start of the bytes ends.
pub open spec fn init_end(s: Seq<u8>) -> Result<int, i32> {
    if s.len() < 8 || box_name(s, 0) != ftyp() || be32(s, 0) < 8 {
        Err((-1) as i32)
    } else if be32(s, 0) > s.len() {
        Err(0)
    } else {
        moov_walk(s, be32(s, 0))
    }
}

fn read_be32(buf: &[u8], i: usize) -> (n: u32)
    requires
        i + 4 <= buf.len(),
    ensures
        n == be32(buf@, i as int),
{
    let s = slice_subrange(buf, i, i + 4);
    proof {
        crate::octets::be_value_bound(s@);
        crate::octets::pow256_small();
    }
    read_be(s) as u32
}

fn named(buf: &[u8], i: usize, name: [u8; 4]) -> (r: bool)
    requires
        i + 8 <= buf.len(),
    ensures
        r == (box_name(buf@, i as int) == name@),
{
    let r = buf[i + 4] == name[0] && buf[i + 5] == name[1] && buf[i + 6] == name[2] && buf[i + 7]
        == name[3];
    proof {
        let n = box_name(buf@, i as int);
        if r {
            assert(n =~= name@);
        } else {
            assert(n[0] == buf@[i + 4] && n[1] == buf@[i + 5] && n[2] == buf@[i + 6] && n[3]
                == buf@[i + 7]);
        }
    }
    r
}

fn mp4_init_end(buf: &[u8]) -> (r: Result<usize, i32>)
    ensures
        match r {
            Ok(e) => init_end(buf@) == Ok::<int, i32>(e as int) && e <= buf@.len(),
            Err(c) => init_end(buf@) == Err::<int, i32>(c),
        },
{
    assert([0x66u8, 0x74u8, 0x79u8, 0x70u8]@ =~= ftyp());
    if buf.len() < 8 || !named(buf, 0, [0x66, 0x74, 0x79, 0x70]) {
        return Err(-1);
    }
    let first: u32 = read_be32(buf, 0);
    if first < 8 {
        return Err(-1);
    }
    if first as usize > buf.len() {
        return Err(0);
    }
    let mut pos: usize = first as usize;
    loop
        invariant
            pos <= buf@.len(),
            moov_walk(buf@, pos as int) == init_end(buf@),
        decreases buf@.len() - pos,
    {
        if buf.len() - pos < 8 {
            return Err(0);
        }
        let size: usize = read_be32(buf, pos) as usize;
        if size < 8 {
            return Err(-1);
        }
        assert([0x6du8, 0x6fu8, 0x6fu8, 0x76u8]@ =~= moov());
        if named(buf, pos, [0x6d, 0x6f, 0x6f, 0x76]) {
            if size <= buf.len() - pos {
                return Ok(pos + size);
            }
            return Err(0);
        }
        assert([0x66u8, 0x72u8, 0x65u8, 0x65u8]@ =~= seq![0x66u8, 0x72, 0x65, 0x65]);
        assert([0x73u8, 0x6bu8, 0x69u8, 0x70u8]@ =~= seq![0x73u8, 0x6b, 0x69, 0x70]);
        assert([0x77u8, 0x69u8, 0x64u8, 0x65u8]@ =~= seq![0x77u8, 0x69, 0x64, 0x65]);
        if named(buf, pos, [0x66, 0x72, 0x65, 0x65]) || named(buf, pos, [0x73, 0x6b, 0x69, 0x70])
            || named(buf, pos, [0x77, 0x69, 0x64, 0x65]) {
            if size > buf.len() - pos {
                return Err(0);
            }
            pos += size;
            continue;
        }
        return Err(-1);
    }
}

/// Where the fragment at the start of the bytes ends: a `moof` box with the
/// `mdat` box behind it, or a `moof` box alone where another box follows.
pub open spec fn fragment_end(s: Seq<u8>) -> Option<int> {
    if s.len() < 8 || be32(s, 0) < 8 || box_name(s, 0) != moof() || s.len() < be32(s, 0) {
        None
    } else {
        let a = be32(s, 0);
        if a + 8 > s.len() || be32(s, a) < 8 {
            None
        } else if box_name(s, a) == mdat() {
            if s.len() < a + be32(s, a) {
                None
            } else {
                Some(a + be32(s, a))
            }
        } else {
            Some(a)
        }
    }
}

fn next_fragment(buf: &[u8]) -> (r: Option<usize>)
    ensures
        match r {
            Some(e) => fragment_end(buf@) == Some(e as int) && 8 <= e <= buf@.len(),
            None => fragment_end(buf@) is None,
        },
{
    if buf.len() < 8 {
        return None;
    }
    let size: usize = read_be32(buf, 0) as usize;
    assert([0x6du8, 0x6fu8, 0x6fu8, 0x66u8]@ =~= moof());
    if size < 8 || !named(buf, 0, [0x6d, 0x6f, 0x6f, 0x66]) || buf.len() < size {
        return None;
    }
    if buf.len() - size < 8 {
        return None;
    }
    let msize: usize = read_be32(buf, size) as usize;
    if msize < 8 {
        return None;
    }
    assert([0x6du8, 0x64u8, 0x61u8, 0x74u8]@ =~= mdat());
    if named(buf, size, [0x6d, 0x64, 0x61, 0x74]) {
        if buf.len() - size < msize {
            return None;
        }
        return Some(size + msize);
    }
    Some(size)
}

/// The fragments at the start of the bytes, and the bytes behind them.
pub open spec fn fragment_run(s: Seq<u8>) -> (Seq<UnitBytes>, Seq<u8>)
    decreases s.len(),
{
    match fragment_end(s) {
        Some(e) => {
            let rest = fragment_run(s.skip(e));
            (seq![UnitBytes::Fragment(s.take(e))] + rest.0, rest.1)
        },
        None => (Seq::empty(), s),
    }
}

/// What a framer for fMP4 streams holds between two pushes.
#[verifier::ext_equal]
pub ghost struct Mp4State {
    pub buf: Seq<u8>,
    pub seen_init: bool,
}

/// Fragments are taken off; a rest that has grown too large is dropped.
pub open spec fn mp4_fragments(s: Seq<u8>) -> (Seq<UnitBytes>, Mp4State) {
    let r = fragment_run(s);
    (
        r.0,
        Mp4State {
            buf: if r.1.len() > MAX_BUF {
                Seq::empty()
            } else {
                r.1
            },
            seen_init: true,
        },
    )
}

/// The units that a framer gives out when it is fed a chunk, and what it then
/// holds. Bytes that never become an init segment leave as one fragment.
pub open spec fn mp4_run(st: Mp4State, chunk: Seq<u8>) -> (Seq<UnitBytes>, Mp4State) {
    let s = st.buf + chunk;
    if st.seen_init {
        mp4_fragments(s)
    } else {
        match init_end(s) {
            Ok(e) => {
                let r = mp4_fragments(s.skip(e));
                (seq![UnitBytes::Init(s.take(e))] + r.0, r.1)
            },
            Err(_) => if s.len() > MAX_BUF {
                (
                    seq![UnitBytes::Fragment(s)],
                    Mp4State { buf: Seq::empty(), seen_init: true },
                )
            } else {
                (Seq::empty(), Mp4State { buf: s, seen_init: false })
            },
        }
    }
}

pub struct Mp4Framer {
    buf: Vec<u8>,
    seen_init: bool,
}

impl View for Mp4Framer {
    type V = Mp4State;

    closed spec fn view(&self) -> Mp4State {
        Mp4State { buf: self.buf@, seen_init: self.seen_init }
    }
}

impl Default for Mp4Framer {
    fn default() -> (f: Self)
        ensures
            f@ == (Mp4State { buf: Seq::empty(), seen_init: false }),
    {
        Mp4Framer { buf: Vec::new(), seen_init: false }
    }
}

impl Mp4Framer {
    pub fn new() -> (f: Self)
        ensures
            f@ == (Mp4State { buf: Seq::empty(), seen_init: false }),
    {
        Mp4Framer { buf: Vec::new(), seen_init: false }
    }

    pub fn push(&mut self, chunk: &[u8]) -> (out: Vec<Unit>)
        ensures
            units_of(out@) == mp4_run(old(self)@, chunk@).0,
            final(self)@ == mp4_run(old(self)@, chunk@).1,
    {
        let ghost s = self.buf@ + chunk@;
        let ghost seen = self.seen_init;
        extend(&mut self.buf, chunk);
        let mut out: Vec<Unit> = Vec::new();
        assert(units_of(out@) =~= Seq::<UnitBytes>::empty());
        if !self.seen_init {
            match mp4_init_end(self.buf.as_slice()) {
                Err(_) => {
                    if self.buf.len() > MAX_BUF {
                        out.push(Unit::Fragment(copy_of(&self.buf)));
                        self.buf.clear();
                        self.seen_init = true;
                        assert(units_of(out@) =~= seq![UnitBytes::Fragment(s)]);
                        return out;
                    }
                    return out;
                },
                Ok(end) => {
                    let rest = self.buf.split_off(end);
                    let init = copy_of(&self.buf);
                    assert(init@ =~= s.take(end as int));
                    assert(rest@ =~= s.skip(end as int));
                    self.buf = rest;
                    self.seen_init = true;
                    out.push(Unit::Init(init));
                    assert(units_of(out@) =~= seq![UnitBytes::Init(init@)]);
                },
            }
        }
        let ghost head = units_of(out@);
        let ghost body = self.buf@;
        assert(head + fragment_run(body).0 =~= units_of(out@) + fragment_run(self.buf@).0);
        loop
            invariant_except_break
                self.seen_init,
                units_of(out@) + fragment_run(self.buf@).0 == head + fragment_run(body).0,
                fragment_run(self.buf@).1 == fragment_run(body).1,
            ensures
                self.seen_init,
                units_of(out@) == head + fragment_run(body).0,
                self.buf@ == fragment_run(body).1,
            decreases self.buf@.len(),
        {
            match next_fragment(self.buf.as_slice()) {
                None => {
                    assert(units_of(out@) + Seq::<UnitBytes>::empty() =~= units_of(out@));
                    break;
                },
                Some(frag) => {
                    let ghost here = self.buf@;
                    let rest = self.buf.split_off(frag);
                    let f = copy_of(&self.buf);
                    assert(f@ =~= here.take(frag as int));
                    assert(rest@ =~= here.skip(frag as int));
                    self.buf = rest;
                    let ghost before = units_of(out@);
                    out.push(Unit::Fragment(f));
                    assert(units_of(out@) =~= before.push(UnitBytes::Fragment(f@)));
                    assert(before.push(UnitBytes::Fragment(f@)) + fragment_run(self.buf@).0
                        =~= before + (seq![UnitBytes::Fragment(f@)] + fragment_run(self.buf@).0));
                },
            }
        }
        if self.buf.len() > MAX_BUF {
            self.buf.clear();
        }
        proof {
            assert(Seq::<UnitBytes>::empty() + fragment_run(body).0 =~= fragment_run(body).0);
        }
        out
    }
}

proof fn header_in_prefix(x: Seq<u8>, y: Seq<u8>, i: int)
    requires
        0 <= i,
        i + 8 <= x.len(),
    ensures
        be32(x + y, i) == be32(x, i),
        box_name(x + y, i) == box_name(x, i),
        0 <= be32(x, i),
{
    assert((x + y).subrange(i, i + 4) =~= x.subrange(i, i + 4));
    assert((x + y).subrange(i + 4, i + 8) =~= x.subrange(i + 4, i + 8));
}

proof fn moov_walk_is_stable(x: Seq<u8>, y: Seq<u8>, pos: int)
    requires
        0 <= pos,
        moov_walk(x, pos) is Ok,
    ensures
        moov_walk(x + y, pos) == moov_walk(x, pos),
        moov_walk(x, pos)->Ok_0 <= x.len(),
    decreases x.len() - pos,
{
    header_in_prefix(x, y, pos);
    if box_name(x, pos) == moov() {
    } else {
        moov_walk_is_stable(x, y, pos + be32(x, pos));
    }
}

proof fn fragment_run_is_stable(x: Seq<u8>, y: Seq<u8>)
    ensures
        fragment_run(x + y).0 == fragment_run(x).0 + fragment_run(fragment_run(x).1 + y).0,
        fragment_run(x + y).1 == fragment_run(fragment_run(x).1 + y).1,
        fragment_run(x).1.len() <= x.len(),
    decreases x.len(),
{
    match fragment_end(x) {
        Some(e) => {
            header_in_prefix(x, y, 0);
            header_in_prefix(x, y, be32(x, 0));
            assert(fragment_end(x + y) == Some(e));
            assert((x + y).take(e) =~= x.take(e));
            assert((x + y).skip(e) =~= x.skip(e) + y);
            fragment_run_is_stable(x.skip(e), y);
            let u = seq![UnitBytes::Fragment(x.take(e))];
            assert(u + (fragment_run(x.skip(e)).0 + fragment_run(fragment_run(x).1 + y).0) =~= (u
                + fragment_run(x.skip(e)).0) + fragment_run(fragment_run(x).1 + y).0);
        },
        None => {
            assert(Seq::<UnitBytes>::empty() + fragment_run(x + y).0 =~= fragment_run(x + y).0);
        },
    }
}

/// What is left when the units at the start of the bytes are taken off.
pub open spec fn held(s: Seq<u8>, seen_init: bool) -> Seq<u8> {
    if seen_init {
        fragment_run(s).1
    } else {
        match init_end(s) {
            Ok(e) => fragment_run(s.skip(e)).1,
            Err(_) => s,
        }
    }
}

/// Cutting a stream into chunks changes nothing: two pushes give the units,
/// and leave the state, of one push of both chunks together. This holds while
/// what is left between the pushes stays within the limit at which it is
/// dropped.
pub proof fn mp4_chunks_do_not_matter(st: Mp4State, a: Seq<u8>, b: Seq<u8>)
    requires
        held(st.buf + a, st.seen_init).len() <= MAX_BUF,
    ensures
        ({
            let one = mp4_run(st, a);
            let two = mp4_run(one.1, b);
            let both = mp4_run(st, a + b);
            &&& both.0 == one.0 + two.0
            &&& both.1 == two.1
        }),
{
    let x = st.buf + a;
    assert(st.buf + (a + b) =~= x + b);
    let one = mp4_run(st, a);
    if st.seen_init {
        fragment_run_is_stable(x, b);
    } else {
        match init_end(x) {
            Ok(e) => {
                init_end_is_stable(x, b);
                assert((x + b).take(e) =~= x.take(e));
                assert((x + b).skip(e) =~= x.skip(e) + b);
                fragment_run_is_stable(x.skip(e), b);
                let u = seq![UnitBytes::Init(x.take(e))];
                let r = fragment_run(x.skip(e));
                assert(u + (r.0 + fragment_run(r.1 + b).0) =~= (u + r.0) + fragment_run(r.1 + b).0);
                assert(mp4_run(st, a + b).1 =~= mp4_run(one.1, b).1);
            },
            Err(_) => {
                assert(one.0 + mp4_run(one.1, b).0 =~= mp4_run(one.1, b).0);
            },
        }
    }
}

proof fn init_end_is_stable(x: Seq<u8>, y: Seq<u8>)
    requires
        init_end(x) is Ok,
    ensures
        init_end(x + y) == init_end(x),
        0 <= init_end(x)->Ok_0 <= x.len(),
{
    header_in_prefix(x, y, 0);
    moov_walk_is_stable(x, y, be32(x, 0));
    moov_walk_past(x, be32(x, 0));
}

proof fn fragment_end_is_stable(x: Seq<u8>, y: Seq<u8>)
    requires
        fragment_end(x) is Some,
    ensures
        fragment_end(x + y) == fragment_end(x),
        0 <= fragment_end(x)->Some_0 <= x.len(),
{
    header_in_prefix(x, y, 0);
    header_in_prefix(x, y, be32(x, 0));
}

proof fn moov_walk_past(x: Seq<u8>, pos: int)
    requires
        0 <= pos,
    ensures
        moov_walk(x, pos) matches Ok(e) ==> pos <= e <= x.len(),
    decreases x.len() - pos,
{
    if pos + 8 <= x.len() && be32(x, pos) >= 8 && box_name(x, pos) != moov() && filler(
        box_name(x, pos),
    ) && pos + be32(x, pos) <= x.len() {
        moov_walk_past(x, pos + be32(x, pos));
    }
}

/// An ISO-BMFF box: size, name, payload.
pub open spec fn box_bytes(name: Seq<u8>, payload: Seq<u8>) -> Seq<u8> {
    be_bytes((8 + payload.len() % 0x1_0000_0000) as nat, 4) + name + payload
}

/// Build a complete ISO-BMFF box (test helper used by tests and optional tools).
/// The size field holds the low 32 bits of the payload's length plus eight.
pub fn mp4_box(typ: &[u8; 4], payload: &[u8]) -> (v: Vec<u8>)
    requires
        payload@.len() % 0x1_0000_0000 + 8 < 0x1_0000_0000,
    ensures
        v@ == box_bytes(typ@, payload@),
{
    let size: u64 = 8 + payload.len() as u64 % 0x1_0000_0000;
    let mut v: Vec<u8> = Vec::new();
    push_be(&mut v, size, 4);
    extend(&mut v, typ);
    extend(&mut v, payload);
    assert(v@ =~= box_bytes(typ@, payload@));
    v
}

proof fn box_header(name: Seq<u8>, payload: Seq<u8>, before: Seq<u8>, after: Seq<u8>)
    requires
        name.len() == 4,
        payload.len() + 8 < 0x1_0000_0000,
    ensures
        ({
            let s = before + box_bytes(name, payload) + after;
            let i = before.len() as int;
            &&& be32(s, i) == 8 + payload.len()
            &&& box_name(s, i) == name
            &&& box_bytes(name, payload).len() == 8 + payload.len()
        }),
{
    let b = box_bytes(name, payload);
    let s = before + b + after;
    let i = before.len() as int;
    crate::octets::pow256_small();
    crate::octets::be_bytes_read_back((8 + payload.len()) as nat, 4);
    assert(s.subrange(i, i + 4) =~= be_bytes((8 + payload.len()) as nat, 4));
    assert(box_name(s, i) =~= name);
}

/// Boxes one after the other, each with its name.
pub open spec fn boxes_bytes(boxes: Seq<(Seq<u8>, Seq<u8>)>) -> Seq<u8>
    decreases boxes.len(),
{
    if boxes.len() == 0 {
        Seq::empty()
    } else {
        box_bytes(boxes[0].0, boxes[0].1) + boxes_bytes(boxes.drop_first())
    }
}

proof fn moov_walk_over_fillers(
    before: Seq<u8>,
    fills: Seq<(Seq<u8>, Seq<u8>)>,
    m: Seq<u8>,
    tail: Seq<u8>,
)
    requires
        m.len() + 8 < 0x1_0000_0000,
        forall|i: int|
            0 <= i < fills.len() ==> filler((#[trigger] fills[i]).0) && fills[i].1.len() + 8
                < 0x1_0000_0000,
    ensures
        ({
            let end = before + boxes_bytes(fills) + box_bytes(moov(), m);
            moov_walk(end + tail, before.len() as int) == Ok::<int, i32>(end.len() as int)
        }),
    decreases fills.len(),
{
    let mv = box_bytes(moov(), m);
    let end = before + boxes_bytes(fills) + mv;
    let s = end + tail;
    let i = before.len() as int;
    if fills.len() == 0 {
        box_header(moov(), m, before, tail);
        assert(before + mv + tail =~= s);
    } else {
        let f = fills[0];
        let b = box_bytes(f.0, f.1);
        let rest = fills.drop_first();
        assert forall|k: int| 0 <= k < rest.len() implies filler((#[trigger] rest[k]).0)
            && rest[k].1.len() + 8 < 0x1_0000_0000 by {
            assert(rest[k] == fills[k + 1]);
        }
        assert(filler(f.0));
        assert(f.0.len() == 4);
        let more = boxes_bytes(rest);
        moov_walk_over_fillers(before + b, rest, m, tail);
        concat_again(before, b, more, mv, tail);
        box_header(f.0, f.1, before, more + mv + tail);
        assert(f.0 != moov()) by {
            assert(f.0[0] != moov()[0]);
        }
        assert(moov_walk(s, i) == moov_walk(s, i + b.len()));
    }
}

proof fn concat_again(a: Seq<u8>, b: Seq<u8>, c: Seq<u8>, d: Seq<u8>, e: Seq<u8>)
    ensures
        a + (b + c) + d == a + b + c + d,
        a + (b + c) + d + e == a + b + (c + d + e),
{
    assert(a + (b + c) =~= a + b + c);
    assert(a + (b + c) + d + e =~= a + b + (c + d + e));
}

/// An init segment put together from `ftyp`, any filler boxes and `moov`, and
/// a fragment put together from `moof` and `mdat`, are taken off whole.
pub proof fn mp4_boxes_are_framed_back(
    f: Seq<u8>,
    fills: Seq<(Seq<u8>, Seq<u8>)>,
    m: Seq<u8>,
    h: Seq<u8>,
    d: Seq<u8>,
    tail: Seq<u8>,
)
    requires
        f.len() + 8 < 0x1_0000_0000,
        forall|i: int|
            0 <= i < fills.len() ==> filler((#[trigger] fills[i]).0) && fills[i].1.len() + 8
                < 0x1_0000_0000,
        m.len() + 8 < 0x1_0000_0000,
        h.len() + 8 < 0x1_0000_0000,
        d.len() + 8 < 0x1_0000_0000,
    ensures
        ({
            let init = box_bytes(ftyp(), f) + boxes_bytes(fills) + box_bytes(moov(), m);
            init_end(init + tail) == Ok::<int, i32>(init.len() as int)
        }),
        ({
            let frag = box_bytes(moof(), h) + box_bytes(mdat(), d);
            fragment_end(frag + tail) == Some(frag.len() as int)
        }),
{
    let e = Seq::<u8>::empty();
    let a = box_bytes(ftyp(), f);
    let more = boxes_bytes(fills) + box_bytes(moov(), m) + tail;
    let s = a + boxes_bytes(fills) + box_bytes(moov(), m) + tail;
    box_header(ftyp(), f, e, more);
    assert(e + a + more =~= s);
    moov_walk_over_fillers(a, fills, m, tail);
    let c = box_bytes(moof(), h);
    let g = box_bytes(mdat(), d);
    let t = c + g + tail;
    box_header(moof(), h, e, g + tail);
    assert(e + c + (g + tail) =~= t);
    box_header(mdat(), d, c, tail);
}

/// The units given out over several pushes, and the state after them.
pub open spec fn mp4_pushes(st: Mp4State, chunks: Seq<Seq<u8>>) -> (Seq<UnitBytes>, Mp4State)
    decreases chunks.len(),
{
    if chunks.len() == 0 {
        (Seq::empty(), st)
    } else {
        let before = mp4_pushes(st, chunks.drop_last());
        let last = mp4_run(before.1, chunks.last());
        (before.0 + last.0, last.1)
    }
}

/// A row of fragments, each one whole and none too large to be held.
pub open spec fn fragment_row(row: Seq<Seq<u8>>) -> bool {
    forall|i: int|
        0 <= i < row.len() ==> fragment_end(#[trigger] row[i]) == Some(row[i].len() as int)
            && row[i].len() <= MAX_BUF
}

pub open spec fn fragments_of(row: Seq<Seq<u8>>) -> Seq<UnitBytes> {
    Seq::new(row.len(), |i: int| UnitBytes::Fragment(row[i]))
}

proof fn fragment_row_runs(row: Seq<Seq<u8>>, n: int)
    requires
        fragment_row(row),
        0 <= n <= row.flatten().len(),
    ensures
        fragment_run(row.flatten().take(n)).1.len() <= MAX_BUF,
        n == row.flatten().len() ==> fragment_run(row.flatten().take(n)) == (
            fragments_of(row),
            Seq::<u8>::empty(),
        ),
    decreases row.len(),
{
    let s = row.flatten();
    let p = s.take(n);
    if row.len() == 0 {
        assert(p =~= Seq::<u8>::empty());
        assert(fragments_of(row) =~= Seq::<UnitBytes>::empty());
    } else {
        let f = row[0];
        let rest = row.drop_first();
        assert(fragment_end(f) == Some(f.len() as int));
        assert forall|i: int| 0 <= i < rest.len() implies fragment_end(#[trigger] rest[i]) == Some(
            rest[i].len() as int,
        ) && rest[i].len() <= MAX_BUF by {
            assert(rest[i] == row[i + 1]);
        }
        assert(s == f + rest.flatten());
        if n < f.len() {
            if fragment_end(p) is Some {
                fragment_end_is_stable(p, f.skip(n));
                assert(p + f.skip(n) =~= f);
            }
        } else {
            fragment_row_runs(rest, n - f.len());
            let q = rest.flatten().take(n - f.len());
            assert(p =~= f + q);
            fragment_end_is_stable(f, q);
            assert(p.take(f.len() as int) =~= f);
            assert(p.skip(f.len() as int) =~= q);
            if n == s.len() {
                assert(fragments_of(row) =~= seq![UnitBytes::Fragment(f)] + fragments_of(rest));
            }
        }
    }
}

proof fn stream_is_held(init: Seq<u8>, row: Seq<Seq<u8>>, n: int)
    requires
        init_end(init) == Ok::<int, i32>(init.len() as int),
        init.len() <= MAX_BUF,
        fragment_row(row),
        0 <= n <= init.len() + row.flatten().len(),
    ensures
        held((init + row.flatten()).take(n), false).len() <= MAX_BUF,
{
    let p = (init + row.flatten()).take(n);
    if n < init.len() {
        if init_end(p) is Ok {
            init_end_is_stable(p, init.skip(n));
            assert(p + init.skip(n) =~= init);
        }
    } else {
        let q = row.flatten().take(n - init.len());
        assert(p =~= init + q);
        init_end_is_stable(init, q);
        assert(p.skip(init.len() as int) =~= q);
        fragment_row_runs(row, n - init.len());
    }
}

proof fn flatten_last(chunks: Seq<Seq<u8>>)
    requires
        chunks.len() > 0,
    ensures
        chunks.flatten() == chunks.drop_last().flatten() + chunks.last(),
{
    chunks.lemma_flatten_and_flatten_alt_are_equivalent();
    chunks.drop_last().lemma_flatten_and_flatten_alt_are_equivalent();
}

proof fn pushes_are_one(init: Seq<u8>, row: Seq<Seq<u8>>, chunks: Seq<Seq<u8>>)
    requires
        init_end(init) == Ok::<int, i32>(init.len() as int),
        init.len() <= MAX_BUF,
        fragment_row(row),
        chunks.flatten().len() <= init.len() + row.flatten().len(),
        chunks.flatten() == (init + row.flatten()).take(chunks.flatten().len() as int),
    ensures
        ({
            let new = Mp4State { buf: Seq::empty(), seen_init: false };
            mp4_pushes(new, chunks) == mp4_run(new, chunks.flatten())
        }),
    decreases chunks.len(),
{
    let e = Seq::<u8>::empty();
    let new = Mp4State { buf: e, seen_init: false };
    if chunks.len() == 0 {
        assert(e + chunks.flatten() =~= e);
        assert(mp4_run(new, chunks.flatten()).1 =~= new);
    } else {
        flatten_last(chunks);
        let before = chunks.drop_last();
        let a = before.flatten();
        let whole = init + row.flatten();
        assert(a =~= whole.take(a.len() as int));
        pushes_are_one(init, row, before);
        stream_is_held(init, row, a.len() as int);
        assert(e + a =~= a);
        mp4_chunks_do_not_matter(new, a, chunks.last());
    }
}

/// However a stream of an init segment and of fragments is cut into chunks, a
/// new framer gives out exactly these, in their order, and holds nothing then.
pub proof fn mp4_units_come_back(chunks: Seq<Seq<u8>>, init: Seq<u8>, row: Seq<Seq<u8>>)
    requires
        init_end(init) == Ok::<int, i32>(init.len() as int),
        init.len() <= MAX_BUF,
        fragment_row(row),
        chunks.flatten() == init + row.flatten(),
    ensures
        ({
            let r = mp4_pushes(Mp4State { buf: Seq::empty(), seen_init: false }, chunks);
            &&& r.0 == seq![UnitBytes::Init(init)] + fragments_of(row)
            &&& r.1 == Mp4State { buf: Seq::empty(), seen_init: true }
        }),
{
    let e = Seq::<u8>::empty();
    let f = row.flatten();
    let s = chunks.flatten();
    assert(s.take(s.len() as int) =~= s);
    pushes_are_one(init, row, chunks);
    assert(e + s =~= s);
    init_end_is_stable(init, f);
    assert(s.take(init.len() as int) =~= init);
    assert(s.skip(init.len() as int) =~= f);
    assert(f.take(f.len() as int) =~= f);
    fragment_row_runs(row, f.len() as int);
}

/// A marker that a segment may follow: neither TEM nor a restart, nor one of
/// SOI, EOI and SOS.
pub open spec fn segment_marker(m: u8) -> bool {
    m != 0x01 && !(0xd0 <= m <= 0xda)
}

/// A segment of a JPEG: its marker, how long it is with the two bytes that say
/// so, and what it carries.
pub open spec fn segment(m: u8, payload: Seq<u8>) -> Seq<u8> {
    let n = payload.len() + 2;
    seq![0xffu8, m, (n / 256) as u8, (n % 256) as u8] + payload
}

/// Segments one after the other.
pub open spec fn segments(row: Seq<(u8, Seq<u8>)>) -> Seq<u8>
    decreases row.len(),
{
    if row.len() == 0 {
        Seq::empty()
    } else {
        segment(row[0].0, row[0].1) + segments(row.drop_first())
    }
}

/// Whether each is a segment whose length fits in its two bytes.
pub open spec fn segments_fit(row: Seq<(u8, Seq<u8>)>) -> bool {
    forall|i: int|
        0 <= i < row.len() ==> segment_marker((#[trigger] row[i]).0) && row[i].1.len() <= 65533
}

/// What stands behind SOS: every 0xff in it is stuffed with a zero or begins a
/// restart.
pub open spec fn coded(e: Seq<u8>) -> bool {
    forall|i: int|
        0 <= i < e.len() && #[trigger] e[i] == 0xff ==> i + 1 < e.len() && (e[i + 1] == 0 || 0xd0
            <= e[i + 1] <= 0xd7)
}

/// A JPEG as an encoder writes it: SOI, segments, SOS with what belongs to the
/// scan, EOI.
pub open spec fn jpeg(row: Seq<(u8, Seq<u8>)>, scan: Seq<u8>) -> Seq<u8> {
    seq![0xffu8, 0xd8] + segments(row) + (seq![0xffu8, 0xda] + scan + seq![0xffu8, 0xd9])
}

proof fn rest_fits(row: Seq<(u8, Seq<u8>)>)
    requires
        segments_fit(row),
        row.len() > 0,
    ensures
        segments_fit(row.drop_first()),
        segment_marker(row[0].0),
        row[0].1.len() <= 65533,
{
    let rest = row.drop_first();
    assert forall|i: int| 0 <= i < rest.len() implies segment_marker((#[trigger] rest[i]).0)
        && rest[i].1.len() <= 65533 by {
        assert(rest[i] == row[i + 1]);
    }
}

proof fn segment_in_place(before: Seq<u8>, m: u8, payload: Seq<u8>, after: Seq<u8>)
    requires
        payload.len() <= 65533,
    ensures
        ({
            let s = before + (segment(m, payload) + after);
            let i = before.len() as int;
            &&& s[i] == 0xff
            &&& s[i + 1] == m
            &&& be16(s, i + 2) == payload.len() + 2
            &&& s.len() == i + 4 + payload.len() + after.len()
            &&& s == before + segment(m, payload) + after
        }),
{
    let s = before + (segment(m, payload) + after);
    let i = before.len() as int;
    let n = payload.len() + 2;
    assert(s[i + 2] == (n / 256) as u8);
    assert(s[i + 3] == (n % 256) as u8);
    assert(s =~= before + segment(m, payload) + after);
}

proof fn walk_over_segments(before: Seq<u8>, row: Seq<(u8, Seq<u8>)>, scan: Seq<u8>)
    requires
        segments_fit(row),
        coded(scan),
    ensures
        ({
            let s = before + (segments(row) + (seq![0xffu8, 0xda] + scan + seq![0xffu8, 0xd9]));
            eoi_walk(s, before.len() as int, false).0 == Some(s.len() - 2)
        }),
    decreases row.len(),
{
    let last = seq![0xffu8, 0xda] + scan + seq![0xffu8, 0xd9];
    let s = before + (segments(row) + last);
    let i = before.len() as int;
    if row.len() == 0 {
        assert(segments(row) + last =~= last);
        assert(s[i] == 0xff && s[i + 1] == 0xda);
        assert forall|x: int|
            i + 2 <= x < s.len() - 2 && #[trigger] s[x] == 0xff implies x + 1 < s.len() - 2 && (s[x
            + 1] == 0 || restart(s[x + 1])) by {
            assert(s[x] == scan[x - i - 2]);
            assert(s[x + 1] == scan[x - i - 2 + 1]);
        }
        eoi_walk_through_entropy(s, i + 2);
    } else {
        rest_fits(row);
        let m = row[0].0;
        let p = row[0].1;
        let more = segments(row.drop_first()) + last;
        assert(segments(row) + last =~= segment(m, p) + more);
        segment_in_place(before, m, p, more);
        walk_over_segments(before + segment(m, p), row.drop_first(), scan);
        assert(eoi_walk(s, i, false) == eoi_walk(s, i + 4 + p.len(), false));
    }
}

/// What an encoder writes is one whole image to the framer, whatever segments
/// stand in front of the scan.
pub proof fn jpeg_is_one_image(row: Seq<(u8, Seq<u8>)>, scan: Seq<u8>)
    requires
        segments_fit(row),
        coded(scan),
    ensures
        clean_image(jpeg(row, scan)),
        mjpeg_run(mjpeg_idle(jpeg(row, scan))) == (
            seq![jpeg(row, scan)],
            mjpeg_idle(Seq::empty()),
        ),
{
    let soi = seq![0xffu8, 0xd8];
    let j = jpeg(row, scan);
    walk_over_segments(soi, row, scan);
    assert(j =~= soi + (segments(row) + (seq![0xffu8, 0xda] + scan + seq![0xffu8, 0xd9])));
    assert(eoi_walk(j, 0, false) == eoi_walk(j, 2, false));
    let none = Seq::<u8>::empty();
    let idle = mjpeg_idle(none);
    assert(j.take(0) =~= none);
    assert(j.skip(0) + none =~= j);
    assert(idle.fed(j) =~= mjpeg_idle(j));
    mjpeg_gives_the_image_back(idle, j, 0, none);
    assert(mjpeg_run(idle).1 =~= idle);
    assert(seq![j] + mjpeg_run(idle).0 =~= seq![j]);
}

/// However a row of JPEGs is cut into chunks, each comes out whole, in its
/// turn.
pub proof fn jpegs_come_back(
    chunks: Seq<Seq<u8>>,
    row: Seq<(Seq<(u8, Seq<u8>)>, Seq<u8>)>,
)
    requires
        forall|i: int|
            0 <= i < row.len() ==> segments_fit((#[trigger] row[i]).0) && coded(row[i].1) && jpeg(
                row[i].0,
                row[i].1,
            ).len() <= 20 * 1024 * 1024,
        chunks.flatten() == Seq::new(row.len(), |i: int| jpeg(row[i].0, row[i].1)).flatten(),
    ensures
        mjpeg_pushes(mjpeg_idle(Seq::empty()), chunks).0 == Seq::new(
            row.len(),
            |i: int| jpeg(row[i].0, row[i].1),
        ),
{
    let images = Seq::new(row.len(), |i: int| jpeg(row[i].0, row[i].1));
    assert forall|i: int| 0 <= i < images.len() implies clean_image(#[trigger] images[i])
        && images[i].len() <= MAX_BUF by {
        assert(segments_fit(row[i].0));
        jpeg_is_one_image(row[i].0, row[i].1);
    }
    mjpeg_images_come_back(chunks, images);
}

proof fn soi_behind(junk: Seq<u8>, j: Seq<u8>, from: int)
    requires
        0 <= from <= junk.len(),
        j.len() >= 2,
        j[0] == 0xff,
        j[1] == 0xd8,
        forall|i: int| 0 <= i < junk.len() - 1 && #[trigger] junk[i] == 0xff ==> junk[i + 1] != 0xd8,
    ensures
        soi_at(junk + j, from) == Some(junk.len() as int),
    decreases junk.len() - from,
{
    let s = junk + j;
    if from < junk.len() {
        if s[from] == 0xff {
            assert(junk[from] == 0xff);
            if from + 1 < junk.len() {
                assert(s[from + 1] == junk[from + 1]);
            }
        }
        soi_behind(junk, j, from + 1);
    }
}

/// Bytes in front of an image that begin no image are passed over.
pub proof fn junk_is_passed_over(junk: Seq<u8>, row: Seq<(u8, Seq<u8>)>, scan: Seq<u8>)
    requires
        segments_fit(row),
        coded(scan),
        forall|i: int| 0 <= i < junk.len() - 1 && #[trigger] junk[i] == 0xff ==> junk[i + 1] != 0xd8,
    ensures
        mjpeg_run(mjpeg_idle(junk + jpeg(row, scan))).0 == seq![jpeg(row, scan)],
{
    let j = jpeg(row, scan);
    jpeg_is_one_image(row, scan);
    soi_behind(junk, j, 0);
    soi_behind(Seq::empty(), j, 0);
    assert(Seq::<u8>::empty() + j =~= j);
    assert((junk + j).skip(junk.len() as int) =~= j);
    assert(j.skip(0) =~= j);
}

proof fn size_behind_segments(
    before: Seq<u8>,
    row: Seq<(u8, Seq<u8>)>,
    sof: u8,
    head: Seq<u8>,
    after: Seq<u8>,
)
    requires
        segments_fit(row),
        forall|i: int| 0 <= i < row.len() ==> (#[trigger] row[i]).0 != 0xc0 && row[i].0 != 0xc2,
        sof == 0xc0 || sof == 0xc2,
        5 <= head.len() <= 65533,
    ensures
        header_size(
            before + (segments(row) + (segment(sof, head) + after)),
            before.len() as int,
        ) == (head[3] as int * 256 + head[4] as int, head[1] as int * 256 + head[2] as int),
    decreases row.len(),
{
    let last = segment(sof, head) + after;
    let s = before + (segments(row) + last);
    let i = before.len() as int;
    if row.len() == 0 {
        assert(segments(row) + last =~= last);
        segment_in_place(before, sof, head, after);
        assert(s[i + 5] == head[1] && s[i + 6] == head[2]);
        assert(s[i + 7] == head[3] && s[i + 8] == head[4]);
    } else {
        rest_fits(row);
        let m = row[0].0;
        let p = row[0].1;
        let rest = row.drop_first();
        assert(row[0].0 != 0xc0);
        assert forall|k: int| 0 <= k < rest.len() implies (#[trigger] rest[k]).0 != 0xc0
            && rest[k].0 != 0xc2 by {
            assert(rest[k] == row[k + 1]);
        }
        let more = segments(rest) + last;
        assert(segments(row) + last =~= segment(m, p) + more);
        segment_in_place(before, m, p, more);
        size_behind_segments(before + segment(m, p), rest, sof, head, after);
        assert(last.len() >= 9);
        assert(header_size(s, i) == header_size(s, i + 4 + p.len()));
    }
}

/// The size of a JPEG is the one in its frame header, whatever stands before
/// and behind it.
pub proof fn jpeg_has_its_size(
    row: Seq<(u8, Seq<u8>)>,
    sof: u8,
    precision: u8,
    w: u16,
    h: u16,
    more: Seq<u8>,
    after: Seq<u8>,
)
    requires
        segments_fit(row),
        forall|i: int| 0 <= i < row.len() ==> (#[trigger] row[i]).0 != 0xc0 && row[i].0 != 0xc2,
        sof == 0xc0 || sof == 0xc2,
        more.len() <= 65528,
    ensures
        ({
            let head = seq![
                precision,
                (h / 256) as u8,
                (h % 256) as u8,
                (w / 256) as u8,
                (w % 256) as u8,
            ] + more;
            picture_size(seq![0xffu8, 0xd8] + (segments(row) + (segment(sof, head) + after))) == (
                w as int,
                h as int,
            )
        }),
{
    let head = seq![
        precision,
        (h / 256) as u8,
        (h % 256) as u8,
        (w / 256) as u8,
        (w % 256) as u8,
    ] + more;
    size_behind_segments(seq![0xffu8, 0xd8], row, sof, head, after);
}

/// A box of an MP4 stream: how long it is with its head, four letters, and
/// what it carries.
pub open spec fn mp4_piece(name: Seq<u8>, payload: Seq<u8>) -> Seq<u8> {
    let n = payload.len() + 8;
    seq![
        (n / 0x100_0000) as u8,
        (n / 0x1_0000 % 0x100) as u8,
        (n / 0x100 % 0x100) as u8,
        (n % 0x100) as u8,
    ] + name + payload
}

proof fn piece_is_box(name: Seq<u8>, payload: Seq<u8>)
    requires
        payload.len() + 8 < 0x1_0000_0000,
    ensures
        mp4_piece(name, payload) == box_bytes(name, payload),
{
    crate::octets::high_byte_first((payload.len() + 8) as nat);
}

/// Boxes one after the other.
pub open spec fn mp4_pieces(boxes: Seq<(Seq<u8>, Seq<u8>)>) -> Seq<u8>
    decreases boxes.len(),
{
    if boxes.len() == 0 {
        Seq::empty()
    } else {
        mp4_piece(boxes[0].0, boxes[0].1) + mp4_pieces(boxes.drop_first())
    }
}

/// Boxes named `free`, `skip` or `wide`.
pub open spec fn idle_boxes(boxes: Seq<(Seq<u8>, Seq<u8>)>) -> bool {
    forall|i: int|
        0 <= i < boxes.len() ==> ((#[trigger] boxes[i]).0 == seq![0x66u8, 0x72, 0x65, 0x65]
            || boxes[i].0 == seq![0x73u8, 0x6b, 0x69, 0x70] || boxes[i].0 == seq![
            0x77u8,
            0x69,
            0x64,
            0x65,
        ]) && boxes[i].1.len() + 8 < 0x1_0000_0000
}

proof fn pieces_are_boxes(boxes: Seq<(Seq<u8>, Seq<u8>)>)
    requires
        idle_boxes(boxes),
    ensures
        mp4_pieces(boxes) == boxes_bytes(boxes),
    decreases boxes.len(),
{
    if boxes.len() > 0 {
        let rest = boxes.drop_first();
        assert(boxes[0].1.len() + 8 < 0x1_0000_0000);
        piece_is_box(boxes[0].0, boxes[0].1);
        assert forall|i: int| 0 <= i < rest.len() implies ((#[trigger] rest[i]).0 == seq![
            0x66u8,
            0x72,
            0x65,
            0x65,
        ] || rest[i].0 == seq![0x73u8, 0x6b, 0x69, 0x70] || rest[i].0 == seq![
            0x77u8,
            0x69,
            0x64,
            0x65,
        ]) && rest[i].1.len() + 8 < 0x1_0000_0000 by {
            assert(rest[i] == boxes[i + 1]);
        }
        pieces_are_boxes(rest);
    }
}

/// A stream as ffmpeg writes it, `ftyp` and `moov` with anything idle between
/// them, then pairs of `moof` and `mdat`, comes out as one init segment and one
/// fragment for each pair, byte for byte, however it is cut into chunks.
pub proof fn mp4_stream_comes_back(
    chunks: Seq<Seq<u8>>,
    f: Seq<u8>,
    idle: Seq<(Seq<u8>, Seq<u8>)>,
    m: Seq<u8>,
    pairs: Seq<(Seq<u8>, Seq<u8>)>,
)
    requires
        idle_boxes(idle),
        ({
            let init = mp4_piece(seq![0x66u8, 0x74, 0x79, 0x70], f) + mp4_pieces(idle) + mp4_piece(
                seq![0x6du8, 0x6f, 0x6f, 0x76],
                m,
            );
            let frags = Seq::new(
                pairs.len(),
                |i: int|
                    mp4_piece(seq![0x6du8, 0x6f, 0x6f, 0x66], pairs[i].0) + mp4_piece(
                        seq![0x6du8, 0x64, 0x61, 0x74],
                        pairs[i].1,
                    ),
            );
            &&& init.len() <= 20 * 1024 * 1024
            &&& forall|i: int| 0 <= i < frags.len() ==> (#[trigger] frags[i]).len() <= 20 * 1024 * 1024
            &&& chunks.flatten() == init + frags.flatten()
        }),
    ensures
        ({
            let init = mp4_piece(seq![0x66u8, 0x74, 0x79, 0x70], f) + mp4_pieces(idle) + mp4_piece(
                seq![0x6du8, 0x6f, 0x6f, 0x76],
                m,
            );
            mp4_pushes(Mp4State { buf: Seq::empty(), seen_init: false }, chunks).0 == seq![
                UnitBytes::Init(init),
            ] + Seq::new(
                pairs.len(),
                |i: int|
                    UnitBytes::Fragment(
                        mp4_piece(seq![0x6du8, 0x6f, 0x6f, 0x66], pairs[i].0) + mp4_piece(
                            seq![0x6du8, 0x64, 0x61, 0x74],
                            pairs[i].1,
                        ),
                    ),
            )
        }),
{
    let init = mp4_piece(seq![0x66u8, 0x74, 0x79, 0x70], f) + mp4_pieces(idle) + mp4_piece(
        seq![0x6du8, 0x6f, 0x6f, 0x76],
        m,
    );
    let frags = Seq::new(
        pairs.len(),
        |i: int|
            mp4_piece(seq![0x6du8, 0x6f, 0x6f, 0x66], pairs[i].0) + mp4_piece(
                seq![0x6du8, 0x64, 0x61, 0x74],
                pairs[i].1,
            ),
    );
    let none = Seq::<u8>::empty();
    pieces_are_boxes(idle);
    piece_is_box(seq![0x66u8, 0x74, 0x79, 0x70], f);
    piece_is_box(seq![0x6du8, 0x6f, 0x6f, 0x76], m);
    assert forall|i: int| 0 <= i < idle.len() implies filler((#[trigger] idle[i]).0)
        && idle[i].1.len() + 8 < 0x1_0000_0000 by {}
    mp4_boxes_are_framed_back(f, idle, m, none, none, none);
    assert(init + none =~= init);
    assert forall|i: int| 0 <= i < frags.len() implies fragment_end(#[trigger] frags[i]) == Some(
        frags[i].len() as int,
    ) && frags[i].len() <= MAX_BUF by {
        piece_is_box(seq![0x6du8, 0x6f, 0x6f, 0x66], pairs[i].0);
        piece_is_box(seq![0x6du8, 0x64, 0x61, 0x74], pairs[i].1);
        mp4_boxes_are_framed_back(f, idle, m, pairs[i].0, pairs[i].1, none);
        assert(frags[i] + none =~= frags[i]);
    }
    mp4_units_come_back(chunks, init, frags);
    assert(fragments_of(frags) =~= Seq::new(
        pairs.len(),
        |i: int|
            UnitBytes::Fragment(
                mp4_piece(seq![0x6du8, 0x6f, 0x6f, 0x66], pairs[i].0) + mp4_piece(
                    seq![0x6du8, 0x64, 0x61, 0x74],
                    pairs[i].1,
                ),
            ),
    ));
}

/// A `moof` box without its `mdat` is a fragment of its own once another box is
/// seen behind it.
pub proof fn lone_moof_is_a_fragment(h: Seq<u8>, name: Seq<u8>, d: Seq<u8>, tail: Seq<u8>)
    requires
        h.len() + 8 < 0x1_0000_0000,
        d.len() + 8 < 0x1_0000_0000,
        name.len() == 4,
        name != seq![0x6du8, 0x64, 0x61, 0x74],
    ensures
        ({
            let moof = mp4_piece(seq![0x6du8, 0x6f, 0x6f, 0x66], h);
            fragment_run(moof + (mp4_piece(name, d) + tail)).0.len() > 0 && fragment_run(
                moof + (mp4_piece(name, d) + tail),
            ).0[0] == UnitBytes::Fragment(moof)
        }),
{
    let moof_box = mp4_piece(seq![0x6du8, 0x6f, 0x6f, 0x66], h);
    let next = mp4_piece(name, d);
    let none = Seq::<u8>::empty();
    let s = moof_box + (next + tail);
    piece_is_box(seq![0x6du8, 0x6f, 0x6f, 0x66], h);
    piece_is_box(name, d);
    box_header(moof(), h, none, next + tail);
    assert(none + moof_box + (next + tail) =~= s);
    box_header(name, d, moof_box, tail);
    assert(moof_box + next + tail =~= s);
    assert(s.take(moof_box.len() as int) =~= moof_box);
}

} // verus!
