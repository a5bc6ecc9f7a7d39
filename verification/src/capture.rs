//! ffmpeg output framed into the hub, and when it is started anew.
//!
//! Instants and durations are nanoseconds.

use crate::config::{Config, ConfigFacts};
use crate::frame::{
    frames_of, jpeg_size, mjpeg_idle, mjpeg_run, mp4_run, picture_size, units_of, MjpegFramer,
    MjpegState, Mp4Framer, Mp4State, Unit, UnitBytes,
};
use crate::hub::{after_all, buffer_of, Hub, HubState, MediaFacts};
use crate::octets::extend;
use crate::pattern::{all_groups, all_matches, group, group_text, groups, matches_of};
use crate::protocol::{TYPE_FRAG, TYPE_JPEG};
use crate::text::{
    append, concat2, decimal, decimal_text, lossy, lossy_text, number_in, parse_number, same,
    signed_decimal, signed_text,
};
use vstd::prelude::*;

pub use crate::device::{
    default_input, device_from_ffmpeg_screen, enumerate_audio_devices, enumerate_devices,
    parse_avfoundation_audio, resolve_input, AudioDevice, Device,
};

verus! {

pub const SECOND: u64 = 1_000_000_000;

/// How long ffmpeg may take until its first output.
pub const FIRST_FRAME_TIMEOUT: u64 = 12_000_000_000;

/// How long it may then be silent.
pub const STALL_TIMEOUT: u64 = 20_000_000_000;

/// Twice the wait before, between one and eight seconds.
pub open spec fn doubled(prev: u64) -> int {
    if 2 * prev < SECOND {
        SECOND as int
    } else if 2 * prev > 8 * SECOND {
        8 * SECOND
    } else {
        2 * prev
    }
}

pub fn capture_backoff(prev: u64) -> (d: u64)
    ensures
        d == doubled(prev),
{
    if prev > 4 * SECOND {
        8 * SECOND
    } else if prev * 2 < SECOND {
        SECOND
    } else {
        prev * 2
    }
}

/// After a capture that already produced frames (app switch / brief stall),
/// restart immediately. Cold failures still back off.
pub fn next_capture_backoff(prev: u64, had_media: bool) -> (d: u64)
    ensures
        d == if had_media {
            SECOND as int
        } else {
            doubled(prev)
        },
{
    if had_media {
        SECOND
    } else {
        capture_backoff(prev)
    }
}

/// A wait is never shorter than a second and never longer than eight, and
/// without a capture in between it never shrinks on the way there.
pub proof fn backoff_stays_in_bounds(prev: u64)
    ensures
        SECOND <= doubled(prev) <= 8 * SECOND,
        prev <= 8 * SECOND ==> doubled(prev) >= prev,
        prev >= 4 * SECOND ==> doubled(prev) == 8 * SECOND,
{
}

#[derive(Debug)]
pub struct CaptureStatus {
    pub running: bool,
    pub error: String,
    pub width: u32,
    pub height: u32,
    pub input: String,
    pub frames_per_fragment: u32,
}

#[verifier::ext_equal]
pub ghost struct StatusFacts {
    pub running: bool,
    pub error: Seq<char>,
    pub width: u32,
    pub height: u32,
    pub input: Seq<char>,
    pub frames_per_fragment: u32,
}

impl View for CaptureStatus {
    type V = StatusFacts;

    open spec fn view(&self) -> StatusFacts {
        StatusFacts {
            running: self.running,
            error: self.error@,
            width: self.width,
            height: self.height,
            input: self.input@,
            frames_per_fragment: self.frames_per_fragment,
        }
    }
}

impl Default for CaptureStatus {
    fn default() -> (s: Self)
        ensures
            s@ == (StatusFacts {
                running: false,
                error: Seq::empty(),
                width: 0,
                height: 0,
                input: Seq::empty(),
                frames_per_fragment: 0,
            }),
    {
        CaptureStatus {
            running: false,
            error: String::new(),
            width: 0,
            height: 0,
            input: String::new(),
            frames_per_fragment: 0,
        }
    }
}

impl CaptureStatus {
    pub fn copy(&self) -> (s: CaptureStatus)
        ensures
            s@ == self@,
    {
        CaptureStatus {
            running: self.running,
            error: self.error.clone(),
            width: self.width,
            height: self.height,
            input: self.input.clone(),
            frames_per_fragment: self.frames_per_fragment,
        }
    }
}

/// A JPEG frame goes to the hub with its size, which the status shows.
pub open spec fn with_jpeg(s: (HubState, StatusFacts), jpeg: Seq<u8>, now: u64) -> (
    HubState,
    StatusFacts,
) {
    let (w, h) = picture_size(jpeg);
    (
        s.0.with_unit(
            MediaFacts { kind: TYPE_JPEG, data: jpeg, width: w as u32, height: h as u32 },
            now,
        ),
        StatusFacts { width: w as u32, height: h as u32, error: Seq::empty(), ..s.1 },
    )
}

pub open spec fn with_jpegs(s: (HubState, StatusFacts), frames: Seq<Seq<u8>>, now: u64) -> (
    HubState,
    StatusFacts,
)
    decreases frames.len(),
{
    if frames.len() == 0 {
        s
    } else {
        with_jpeg(with_jpegs(s, frames.drop_last(), now), frames.last(), now)
    }
}

/// An init segment goes to the hub with the size that is known, and a fragment
/// without one.
pub open spec fn with_mp4(s: (HubState, StatusFacts), unit: UnitBytes, now: u64) -> (
    HubState,
    StatusFacts,
) {
    match unit {
        UnitBytes::Init(data) => (
            s.0.with_init(data, s.1.width, s.1.height, now),
            StatusFacts { error: Seq::empty(), ..s.1 },
        ),
        UnitBytes::Fragment(data) => (
            s.0.with_unit(MediaFacts { kind: TYPE_FRAG, data, width: 0, height: 0 }, now),
            s.1,
        ),
        UnitBytes::Jpeg(_) => s,
    }
}

pub open spec fn with_units(s: (HubState, StatusFacts), units: Seq<UnitBytes>, now: u64) -> (
    HubState,
    StatusFacts,
)
    decreases units.len(),
{
    if units.len() == 0 {
        s
    } else {
        with_mp4(with_units(s, units.drop_last(), now), units.last(), now)
    }
}

/// Where ffmpeg says how large the picture is.
pub const SIZE_LINE: &'static str = "Stream #0:0[^\\n]*? (\\d{2,5})x(\\d{2,5})";

/// A number that a group spells, zero where it spells none.
pub open spec fn size_in(m: Seq<Option<Seq<char>>>, i: int) -> u32 {
    match group(m, i) {
        Some(s) => match number_in(s, 0xffff_ffff) {
            Some(n) => n as u32,
            None => 0,
        },
        None => 0,
    }
}

/// The status with the size that the first match names.
pub open spec fn sized(s: StatusFacts, ms: Seq<Seq<Option<Seq<char>>>>) -> StatusFacts {
    if ms.len() == 0 {
        s
    } else {
        StatusFacts { width: size_in(ms[0], 1), height: size_in(ms[0], 2), ..s }
    }
}

/// Of a log that has grown too long only the end is kept.
pub open spec fn log_tail(log: Seq<u8>) -> Seq<u8> {
    if log.len() > 65536 {
        log.skip(log.len() - 4096)
    } else {
        log
    }
}

fn size_group(m: &Vec<Option<String>>, i: usize) -> (n: u32)
    ensures
        n == size_in(groups(m@), i as int),
{
    match group_text(m, i) {
        Some(s) => match parse_number(s.as_str(), 0xffff_ffff) {
            Some(n) => n as u32,
            None => 0,
        },
        None => 0,
    }
}

impl CaptureStatus {
    /// Notes the size that the first match of [`SIZE_LINE`] names.
    pub fn note_size(&mut self, ms: &Vec<Vec<Option<String>>>)
        ensures
            final(self)@ == sized(old(self)@, all_groups(ms@)),
    {
        if ms.len() > 0 {
            assert(all_groups(ms@)[0] == groups(ms@[0]@));
            self.width = size_group(&ms[0], 1);
            self.height = size_group(&ms[0], 2);
        }
    }
}

/// What is known of a capture.
#[verifier::ext_equal]
pub ghost struct CaptureState {
    pub status: StatusFacts,
    /// Whether it is to be started anew when it ends.
    pub active: bool,
    pub backoff: int,
    pub mjpeg: bool,
    pub jpegs: MjpegState,
    pub boxes: Mp4State,
    /// Whether anything came yet.
    pub got_data: bool,
    pub log: Seq<u8>,
}

pub struct Capture {
    status: CaptureStatus,
    active: bool,
    backoff: u64,
    mjpeg: bool,
    jpegs: MjpegFramer,
    boxes: Mp4Framer,
    got_data: bool,
    log: Vec<u8>,
}

impl View for Capture {
    type V = CaptureState;

    closed spec fn view(&self) -> CaptureState {
        CaptureState {
            status: self.status@,
            active: self.active,
            backoff: self.backoff as int,
            mjpeg: self.mjpeg,
            jpegs: self.jpegs@,
            boxes: self.boxes@,
            got_data: self.got_data,
            log: self.log@,
        }
    }
}

pub open spec fn mp4_idle() -> Mp4State {
    Mp4State { buf: Seq::empty(), seen_init: false }
}

impl CaptureState {
    pub open spec fn stopped(self) -> CaptureState {
        CaptureState { active: false, status: StatusFacts { running: false, ..self.status }, ..self }
    }

    /// A capture that was asked for: its status is new.
    pub open spec fn started(self, c: ConfigFacts, input: Seq<char>) -> CaptureState {
        let mjpeg = c.encoder.mode == "mjpeg"@;
        CaptureState {
            active: true,
            backoff: SECOND as int,
            mjpeg,
            status: StatusFacts {
                running: true,
                error: Seq::empty(),
                width: 0,
                height: 0,
                input,
                frames_per_fragment: if mjpeg {
                    1
                } else {
                    c.encoder.gop_frames
                },
            },
            ..self
        }
    }

    /// ffmpeg is about to be run: nothing came of it yet.
    pub open spec fn attempted(self) -> CaptureState {
        CaptureState {
            status: StatusFacts { running: true, width: 0, height: 0, ..self.status },
            jpegs: mjpeg_idle(Seq::empty()),
            boxes: mp4_idle(),
            got_data: false,
            log: Seq::empty(),
            ..self
        }
    }

    /// Output came: the hub gets what is whole, the rest is kept.
    pub open spec fn fed(self, hub: HubState, chunk: Seq<u8>, now: u64) -> (CaptureState, HubState) {
        if self.mjpeg {
            let r = mjpeg_run(self.jpegs.fed(chunk));
            let s = with_jpegs((hub, self.status), r.0, now);
            (CaptureState { got_data: true, jpegs: r.1, status: s.1, ..self }, s.0)
        } else {
            let r = mp4_run(self.boxes, chunk);
            let s = with_units((hub, self.status), r.0, now);
            (CaptureState { got_data: true, boxes: r.1, status: s.1, ..self }, s.0)
        }
    }

    pub open spec fn logged(self, chunk: Seq<u8>) -> CaptureState {
        let log = log_tail(self.log + chunk);
        CaptureState {
            log,
            status: sized(self.status, all_matches(SIZE_LINE@, lossy(log))),
            ..self
        }
    }

    /// ffmpeg ended, and will be run again after a wait.
    pub open spec fn ended(self, error: Option<Seq<char>>) -> CaptureState {
        CaptureState {
            status: StatusFacts {
                running: false,
                error: match error {
                    None => "ffmpeg exited; restarting"@,
                    Some(e) => e + "; restarting"@,
                },
                ..self.status
            },
            backoff: if self.status.width > 0 {
                SECOND as int
            } else {
                doubled(self.backoff as u64)
            },
            ..self
        }
    }
}

fn publish_jpegs(
    hub: &mut Hub,
    status: &mut CaptureStatus,
    frames: Vec<Vec<u8>>,
    now: u64,
)
    ensures
        (final(hub)@, final(status)@) == with_jpegs((old(hub)@, old(status)@), frames_of(frames@), now),
{
    let ghost start = (hub@, status@);
    let ghost all = frames_of(frames@);
    let mut rest = frames;
    let ghost mut n: int = 0;
    assert(all.take(0) =~= Seq::<Seq<u8>>::empty());
    assert(all.skip(0) =~= all);
    while rest.len() > 0
        invariant
            0 <= n <= all.len(),
            frames_of(rest@) == all.skip(n),
            (hub@, status@) == with_jpegs(start, all.take(n), now),
        decreases rest@.len(),
    {
        let ghost here = frames_of(rest@);
        let jpeg = rest.remove(0);
        proof {
            assert(frames_of(rest@) =~= here.skip(1));
            assert(here.skip(1) =~= all.skip(n + 1));
            assert(here[0] == jpeg@);
            assert(all[n] == all.skip(n)[0]);
            assert(all.take(n + 1).drop_last() =~= all.take(n));
        }
        let (w, h) = jpeg_size(jpeg.as_slice());
        status.width = w;
        status.height = h;
        status.error = String::new();
        hub.publish_unit(TYPE_JPEG, buffer_of(jpeg), w, h, now);
        proof {
            n = n + 1;
        }
    }
    assert(all.take(n) =~= all);
}

fn publish_units(hub: &mut Hub, status: &mut CaptureStatus, units: Vec<Unit>, now: u64)
    ensures
        (final(hub)@, final(status)@) == with_units((old(hub)@, old(status)@), units_of(units@), now),
{
    let ghost start = (hub@, status@);
    let ghost all = units_of(units@);
    let mut rest = units;
    let ghost mut n: int = 0;
    assert(all.take(0) =~= Seq::<UnitBytes>::empty());
    assert(all.skip(0) =~= all);
    while rest.len() > 0
        invariant
            0 <= n <= all.len(),
            units_of(rest@) == all.skip(n),
            (hub@, status@) == with_units(start, all.take(n), now),
        decreases rest@.len(),
    {
        let ghost here = units_of(rest@);
        let unit = rest.remove(0);
        proof {
            assert(units_of(rest@) =~= here.skip(1));
            assert(here.skip(1) =~= all.skip(n + 1));
            assert(here[0] == unit@);
            assert(all[n] == all.skip(n)[0]);
            assert(all.take(n + 1).drop_last() =~= all.take(n));
        }
        match unit {
            Unit::Init(data) => {
                status.error = String::new();
                hub.publish_init(buffer_of(data), status.width, status.height, now);
            },
            Unit::Fragment(data) => {
                hub.publish_unit(TYPE_FRAG, buffer_of(data), 0, 0, now);
            },
            Unit::Jpeg(_) => {},
        }
        proof {
            n = n + 1;
        }
    }
    assert(all.take(n) =~= all);
}

impl Capture {
    pub fn new() -> (c: Self)
        ensures
            c@ == (CaptureState {
                status: StatusFacts {
                    running: false,
                    error: Seq::empty(),
                    width: 0,
                    height: 0,
                    input: Seq::empty(),
                    frames_per_fragment: 0,
                },
                active: false,
                backoff: SECOND as int,
                mjpeg: false,
                jpegs: mjpeg_idle(Seq::empty()),
                boxes: mp4_idle(),
                got_data: false,
                log: Seq::empty(),
            }),
    {
        Capture {
            status: CaptureStatus::default(),
            active: false,
            backoff: SECOND,
            mjpeg: false,
            jpegs: MjpegFramer::new(),
            boxes: Mp4Framer::new(),
            got_data: false,
            log: Vec::new(),
        }
    }

    pub fn status(&self) -> (s: CaptureStatus)
        ensures
            s@ == self@.status,
    {
        self.status.copy()
    }

    /// Whether ffmpeg is to be run.
    pub fn is_active(&self) -> (r: bool)
        ensures
            r == self@.active,
    {
        self.active
    }

    pub fn stop(&mut self)
        ensures
            final(self)@ == old(self)@.stopped(),
    {
        self.active = false;
        self.status.running = false;
    }

    /// `input` is the input that [`resolve_input`] settled on.
    pub fn start(&mut self, cfg: &Config, input: String)
        ensures
            final(self)@ == old(self)@.started(cfg@, input@),
    {
        self.stop();
        let mjpeg = same(cfg.encoder.mode.as_str(), "mjpeg");
        self.status = CaptureStatus {
            running: true,
            error: String::new(),
            width: 0,
            height: 0,
            input,
            frames_per_fragment: if mjpeg {
                1
            } else {
                cfg.encoder.gop_frames
            },
        };
        self.mjpeg = mjpeg;
        self.backoff = SECOND;
        self.active = true;
        assert(self@ =~= old(self)@.started(cfg@, input@));
    }

    pub fn restart(&mut self, hub: &mut Hub, cfg: &Config, input: String)
        requires
            old(hub)@.gen < u64::MAX,
        ensures
            final(self)@ == old(self)@.started(cfg@, input@),
            final(hub)@ == old(hub)@.cleared(),
    {
        hub.clear();
        self.start(cfg, input);
    }

    /// Before ffmpeg is run: whoever watches sees the new capture from its
    /// first unit on.
    pub fn begin_attempt(&mut self, hub: &mut Hub)
        requires
            old(hub)@.gen < u64::MAX,
        ensures
            final(self)@ == old(self)@.attempted(),
            final(hub)@ == old(hub)@.cleared(),
    {
        self.status.running = true;
        self.status.width = 0;
        self.status.height = 0;
        self.jpegs = MjpegFramer::new();
        self.boxes = Mp4Framer::new();
        self.got_data = false;
        self.log = Vec::new();
        hub.clear();
        assert(self@ =~= old(self)@.attempted());
    }

    /// How long to wait for more output.
    pub fn read_wait(&self) -> (d: u64)
        ensures
            d == if self@.got_data {
                STALL_TIMEOUT
            } else {
                FIRST_FRAME_TIMEOUT
            },
    {
        if self.got_data {
            STALL_TIMEOUT
        } else {
            FIRST_FRAME_TIMEOUT
        }
    }

    /// A piece of what ffmpeg wrote to its standard output.
    pub fn feed(&mut self, hub: &mut Hub, chunk: &[u8], now: u64)
        ensures
            (final(self)@, final(hub)@) == old(self)@.fed(old(hub)@, chunk@, now),
    {
        self.got_data = true;
        if self.mjpeg {
            let frames = self.jpegs.push(chunk);
            publish_jpegs(hub, &mut self.status, frames, now);
        } else {
            let units = self.boxes.push(chunk);
            publish_units(hub, &mut self.status, units, now);
        }
        assert(self@ =~= old(self)@.fed(old(hub)@, chunk@, now).0);
    }

    /// A piece of what ffmpeg wrote to its standard error.
    pub fn feed_log(&mut self, chunk: &[u8])
        ensures
            final(self)@ == old(self)@.logged(chunk@),
    {
        extend(&mut self.log, chunk);
        let ghost whole = self.log@;
        if self.log.len() > 65536 {
            let tail = vstd::slice::slice_subrange(
                self.log.as_slice(),
                self.log.len() - 4096,
                self.log.len(),
            );
            let mut log: Vec<u8> = Vec::new();
            extend(&mut log, tail);
            self.log = log;
            assert(self.log@ =~= log_tail(whole));
        }
        let text = lossy_text(self.log.as_slice());
        self.status.note_size(&matches_of(SIZE_LINE, text.as_str()));
        assert(self@ =~= old(self)@.logged(chunk@));
    }

    /// ffmpeg ended, with an error or without: how long to wait before it is
    /// run again.
    pub fn finish(&mut self, error: Option<String>) -> (wait: u64)
        ensures
            final(self)@ == old(self)@.ended(crate::text::opt_text(error)),
            wait == final(self)@.backoff,
    {
        let had_media = self.status.width > 0;
        self.status.error = match error {
            None => "ffmpeg exited; restarting".to_owned(),
            Some(e) => concat2(e.as_str(), "; restarting"),
        };
        self.status.running = false;
        self.backoff = next_capture_backoff(self.backoff, had_media);
        assert(self@ =~= old(self)@.ended(crate::text::opt_text(error)));
        self.backoff
    }
}

/// Why ffmpeg did not start.
pub fn spawn_error(not_found: bool, reason: &str) -> (s: String)
    ensures
        s@ == if not_found {
            "ffmpeg not found on PATH"@
        } else {
            "failed to start ffmpeg: "@ + reason@
        },
{
    if not_found {
        "ffmpeg not found on PATH".to_owned()
    } else {
        concat2("failed to start ffmpeg: ", reason)
    }
}

/// What is said of an ffmpeg that was silent for longer than it may be.
pub fn stall_error(wait: u64) -> (s: String)
    ensures
        s@ == "ffmpeg stalled (no output for "@ + decimal((wait / SECOND) as nat) + "s)"@,
{
    let mut s = concat2("ffmpeg stalled (no output for ", decimal_text(wait / SECOND).as_str());
    append(&mut s, "s)");
    s
}

/// What is said of an ffmpeg that failed, by its exit code.
pub fn exit_error(code: Option<i32>) -> (s: String)
    ensures
        s@ == match code {
            Some(c) => "ffmpeg exited with code Some("@ + signed_decimal(c as int) + ")"@,
            None => "ffmpeg exited with code None"@,
        },
{
    match code {
        Some(c) => {
            let mut s = concat2("ffmpeg exited with code Some(", signed_text(c as i64).as_str());
            append(&mut s, ")");
            s
        },
        None => "ffmpeg exited with code None".to_owned(),
    }
}

/// A capture that showed a picture is back after a second, however often it
/// had failed before.
pub proof fn picture_resets_the_wait(c: CaptureState, error: Option<Seq<char>>)
    ensures
        c.status.width > 0 ==> c.ended(error).backoff == SECOND,
        c.attempted().ended(error).backoff == doubled(c.backoff as u64),
        !c.ended(error).status.running,
{
}

/// Pictures as they are published: each whole, as a frame with its own size.
pub open spec fn pictures(frames: Seq<Seq<u8>>, now: u64) -> Seq<(MediaFacts, u64)> {
    Seq::new(
        frames.len(),
        |i: int|
            (
                MediaFacts {
                    kind: 3,
                    data: frames[i],
                    width: picture_size(frames[i]).0 as u32,
                    height: picture_size(frames[i]).1 as u32,
                },
                now,
            ),
    )
}

/// Every picture that ffmpeg gives is published, in order; the status tells the
/// size of the last, and that there is no error.
pub proof fn pictures_are_published(s: (HubState, StatusFacts), frames: Seq<Seq<u8>>, now: u64)
    ensures
        with_jpegs(s, frames, now).0 == after_all(s.0, pictures(frames, now)),
        frames.len() > 0 ==> with_jpegs(s, frames, now).1 == (StatusFacts {
            width: picture_size(frames.last()).0 as u32,
            height: picture_size(frames.last()).1 as u32,
            error: Seq::empty(),
            ..s.1
        }),
    decreases frames.len(),
{
    if frames.len() > 0 {
        let d = frames.drop_last();
        pictures_are_published(s, d, now);
        assert(pictures(frames, now).drop_last() =~= pictures(d, now));
    }
}

/// Units of video as they are published: init segments with the size of the
/// stream, fragments without one.
pub open spec fn videos(units: Seq<UnitBytes>, w: u32, h: u32, now: u64) -> Seq<(MediaFacts, u64)> {
    Seq::new(
        units.len(),
        |i: int|
            (
                match units[i] {
                    UnitBytes::Init(data) => MediaFacts { kind: 1, data, width: w, height: h },
                    UnitBytes::Fragment(data) => MediaFacts { kind: 2, data, width: 0, height: 0 },
                    UnitBytes::Jpeg(data) => MediaFacts { kind: 3, data, width: 0, height: 0 },
                },
                now,
            ),
    )
}

/// Every unit of video is published, in order; an init segment clears the error.
pub proof fn videos_are_published(s: (HubState, StatusFacts), units: Seq<UnitBytes>, now: u64)
    requires
        forall|i: int| 0 <= i < units.len() ==> !(#[trigger] units[i] is Jpeg),
    ensures
        with_units(s, units, now).0 == after_all(s.0, videos(units, s.1.width, s.1.height, now)),
        with_units(s, units, now).1.width == s.1.width,
        with_units(s, units, now).1.height == s.1.height,
        with_units(s, units, now).1.running == s.1.running,
        with_units(s, units, now).1.error == if exists|i: int|
            0 <= i < units.len() && #[trigger] units[i] is Init {
            Seq::empty()
        } else {
            s.1.error
        },
    decreases units.len(),
{
    if units.len() > 0 {
        let d = units.drop_last();
        assert forall|i: int| 0 <= i < d.len() implies !(#[trigger] d[i] is Jpeg) by {
            assert(d[i] == units[i]);
        }
        videos_are_published(s, d, now);
        let all = videos(units, s.1.width, s.1.height, now);
        assert(all.drop_last() =~= videos(d, s.1.width, s.1.height, now));
        assert(units[units.len() - 1] == units.last());
        if exists|i: int| 0 <= i < d.len() && #[trigger] d[i] is Init {
            let i = choose|i: int| 0 <= i < d.len() && #[trigger] d[i] is Init;
            assert(units[i] == d[i]);
        }
        if exists|i: int| 0 <= i < units.len() && #[trigger] units[i] is Init {
            let i = choose|i: int| 0 <= i < units.len() && #[trigger] units[i] is Init;
            if i < d.len() {
                assert(d[i] == units[i]);
            }
        }
    }
}

/// Bytes of pictures go to the framer of pictures and bytes of video to that of
/// video; either way the stall clock counts from them, and the next attempt
/// starts from nothing.
pub proof fn bytes_go_to_the_framer_of_the_mode(
    c: CaptureState,
    hub: HubState,
    chunk: Seq<u8>,
    now: u64,
)
    ensures
        ({
            let (r, h) = c.fed(hub, chunk, now);
            &&& r.got_data
            &&& r.log == c.log && r.backoff == c.backoff && r.active == c.active
            &&& c.mjpeg ==> h == after_all(hub, pictures(mjpeg_run(c.jpegs.fed(chunk)).0, now))
                && r.boxes == c.boxes && r.jpegs == mjpeg_run(c.jpegs.fed(chunk)).1
            &&& !c.mjpeg ==> r.jpegs == c.jpegs && r.boxes == mp4_run(c.boxes, chunk).1
        }),
        ({
            let a = c.attempted();
            &&& !a.got_data && a.log.len() == 0 && a.boxes.buf.len() == 0 && !a.boxes.seen_init
            &&& a.jpegs == mjpeg_idle(Seq::empty())
            &&& a.status.running && a.status.width == 0 && a.status.height == 0
            &&& a.status.error == c.status.error && a.backoff == c.backoff
        }),
{
    pictures_are_published((hub, c.status), mjpeg_run(c.jpegs.fed(chunk)).0, now);
}

/// The log never grows past 64 KiB: then its last 4 KiB stay.
pub proof fn log_is_bounded(log: Seq<u8>)
    ensures
        log_tail(log).len() <= 65536,
        log.len() <= 65536 ==> log_tail(log) == log,
        log.len() > 65536 ==> log_tail(log).len() == 4096 && log_tail(log) == log.skip(
            log.len() - 4096,
        ),
{
}

/// The size is that of the first line that names one, width before height.
pub proof fn size_is_read_from_the_log(
    s: StatusFacts,
    ms: Seq<Seq<Option<Seq<char>>>>,
    w: u32,
    h: u32,
)
    requires
        ms.len() > 0,
        ms[0].len() == 3,
        ms[0][1] == Some(decimal(w as nat)),
        ms[0][2] == Some(decimal(h as nat)),
    ensures
        sized(s, ms) == (StatusFacts { width: w, height: h, ..s }),
        sized(s, Seq::empty()) == s,
{
    number_reads_back(w as nat);
    number_reads_back(h as nat);
}

proof fn number_reads_back(n: nat)
    requires
        n <= 0xffff_ffff,
    ensures
        number_in(decimal(n), 0xffff_ffff) == Some(n as u64),
{
    crate::text::decimal_reads_back(n);
    assert(crate::text::is_digit(decimal(n)[0]));
}

/// A capture that starts runs without an error, in the mode that is set; one
/// that is stopped does not run and is not started anew.
pub proof fn start_and_stop(c: CaptureState, cfg: ConfigFacts, input: Seq<char>)
    ensures
        ({
            let s = c.started(cfg, input);
            &&& s.active && s.status.running && s.status.error.len() == 0
            &&& s.status.input == input && s.status.width == 0 && s.status.height == 0
            &&& s.backoff == 1_000_000_000
            &&& s.mjpeg <==> cfg.encoder.mode == "mjpeg"@
            &&& s.mjpeg ==> s.status.frames_per_fragment == 1
            &&& !s.mjpeg ==> s.status.frames_per_fragment == cfg.encoder.gop_frames
        }),
        !c.stopped().active,
        !c.stopped().status.running,
        c.stopped().status.error == c.status.error,
        c.stopped().backoff == c.backoff,
{
}

/// Every end is told with what went wrong and that it starts anew. The wait is
/// a second after a picture, and otherwise twice the last one, up to eight
/// seconds.
pub proof fn an_end_is_told(c: CaptureState, e: Seq<char>)
    requires
        1_000_000_000 <= c.backoff <= 8_000_000_000,
    ensures
        c.ended(Some(e)).status.error == e + "; restarting"@,
        c.ended(None).status.error == "ffmpeg exited; restarting"@,
        !c.ended(Some(e)).status.running,
        c.ended(Some(e)).active == c.active,
        c.status.width > 0 ==> c.ended(Some(e)).backoff == 1_000_000_000,
        c.status.width == 0 && c.backoff <= 4_000_000_000 ==> c.ended(Some(e)).backoff == 2
            * c.backoff,
        c.status.width == 0 && c.backoff > 4_000_000_000 ==> c.ended(Some(e)).backoff
            == 8_000_000_000,
{
}

/// A side of which the log tells no number is taken to be unknown.
pub proof fn unknown_sides_are_zero(m: Seq<Option<Seq<char>>>, i: int)
    ensures
        i >= m.len() ==> size_in(m, i) == 0,
        0 <= i < m.len() && m[i] is None ==> size_in(m, i) == 0,
        0 <= i < m.len() && m[i] == Some(Seq::<char>::empty()) ==> size_in(m, i) == 0,
{
}

} // verus!
