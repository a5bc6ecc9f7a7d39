//! Periodic JPEG snapshots for Cloudflare Worker screen analysis.

use crate::encoder::{has_option, option_at};
use crate::hub::{buffer_of, buffer_slice, Hub, Media, MediaFacts};
use crate::octets::extend;
use crate::protocol::{TYPE_FRAG, TYPE_JPEG, TYPE_SNAP};
use crate::text::{push_text, texts};
use crate::thumbs::{is_jpeg, looks_jpeg};
use vstd::prelude::*;

verus! {

/// How often a snapshot is taken, in nanoseconds.
pub const SNAPSHOT_EVERY: u64 = 8_000_000_000;

/// What it takes to get a JPEG of a unit.
#[derive(Debug)]
pub enum Snapshot {
    /// It is one.
    Ready(Vec<u8>),
    /// ffmpeg can decode these bytes to one.
    Decode(Vec<u8>),
    /// There is none in it.
    Unfit,
}

#[verifier::ext_equal]
pub ghost enum Picture {
    Ready(Seq<u8>),
    Decode(Seq<u8>),
    Unfit,
}

impl View for Snapshot {
    type V = Picture;

    open spec fn view(&self) -> Picture {
        match self {
            Snapshot::Ready(b) => Picture::Ready(b@),
            Snapshot::Decode(b) => Picture::Decode(b@),
            Snapshot::Unfit => Picture::Unfit,
        }
    }
}

/// A JPEG passes through. A fragment is decoded behind the init segment.
pub open spec fn picture_of(init: Option<Seq<u8>>, m: MediaFacts) -> Picture {
    if (m.kind == TYPE_JPEG || m.kind == TYPE_SNAP) && looks_jpeg(m.data) {
        Picture::Ready(m.data)
    } else if m.kind == TYPE_FRAG {
        Picture::Decode(
            match init {
                Some(i) => i + m.data,
                None => m.data,
            },
        )
    } else {
        Picture::Unfit
    }
}

pub open spec fn opt_bytes(b: Option<&[u8]>) -> Option<Seq<u8>> {
    match b {
        Some(s) => Some(s@),
        None => None,
    }
}

/// Decode the latest video unit to a ~960px JPEG, or passthrough if already JPEG.
pub fn encode_snapshot(init: Option<&[u8]>, latest: &Media) -> (s: Snapshot)
    ensures
        s@ == picture_of(opt_bytes(init), latest@),
{
    let data = buffer_slice(&latest.data);
    let mut out: Vec<u8> = Vec::new();
    if (latest.kind == TYPE_JPEG || latest.kind == TYPE_SNAP) && is_jpeg(data) {
        extend(&mut out, data);
        assert(out@ =~= data@);
        return Snapshot::Ready(out);
    }
    if latest.kind != TYPE_FRAG {
        return Snapshot::Unfit;
    }
    match init {
        Some(i) => extend(&mut out, i),
        None => {},
    }
    extend(&mut out, data);
    assert(out@ =~= match opt_bytes(init) {
        Some(i) => i + data@,
        None => data@,
    });
    Snapshot::Decode(out)
}

pub open spec fn snapshot_args() -> Seq<Seq<char>> {
    seq![
        "-hide_banner"@,
        "-loglevel"@,
        "error"@,
        "-i"@,
        "pipe:0"@,
        "-frames:v"@,
        "1"@,
        "-vf"@,
        "scale=min(1920\\,iw):-2"@,
        "-q:v"@,
        "6"@,
        "-f"@,
        "mjpeg"@,
        "pipe:1"@,
    ]
}

/// The arguments with which ffmpeg decodes one frame to a JPEG.
pub fn snapshot_argv() -> (argv: Vec<String>)
    ensures
        texts(argv@) == snapshot_args(),
{
    let mut argv: Vec<String> = Vec::new();
    push_text(&mut argv, "-hide_banner");
    push_text(&mut argv, "-loglevel");
    push_text(&mut argv, "error");
    push_text(&mut argv, "-i");
    push_text(&mut argv, "pipe:0");
    push_text(&mut argv, "-frames:v");
    push_text(&mut argv, "1");
    push_text(&mut argv, "-vf");
    push_text(&mut argv, "scale=min(1920\\,iw):-2");
    push_text(&mut argv, "-q:v");
    push_text(&mut argv, "6");
    push_text(&mut argv, "-f");
    push_text(&mut argv, "mjpeg");
    push_text(&mut argv, "pipe:1");
    assert(texts(argv@) =~= snapshot_args());
    argv
}

/// What ffmpeg wrote, if it is a JPEG.
pub fn snapshot_taken(jpeg: Vec<u8>) -> (r: Option<Vec<u8>>)
    ensures
        match r {
            Some(v) => looks_jpeg(jpeg@) && v@ == jpeg@,
            None => !looks_jpeg(jpeg@),
        },
{
    if is_jpeg(jpeg.as_slice()) {
        Some(jpeg)
    } else {
        None
    }
}

/// The unit to take a snapshot of, and the init segment that goes before it.
pub fn snapshot_source(hub: &Hub) -> (r: Option<Snapshot>)
    ensures
        match r {
            Some(s) => hub@.latest is Some && hub@.latest->Some_0.kind != TYPE_SNAP && s@
                == picture_of(hub@.init, hub@.latest->Some_0),
            None => hub@.latest is None || hub@.latest->Some_0.kind == TYPE_SNAP,
        },
{
    match hub.latest() {
        None => None,
        Some(latest) => {
            if latest.kind == TYPE_SNAP {
                return None;
            }
            match hub.init_segment() {
                Some(init) => Some(encode_snapshot(Some(buffer_slice(&init)), &latest)),
                None => Some(encode_snapshot(None, &latest)),
            }
        },
    }
}

/// A snapshot goes to the hub as one.
pub fn publish_snapshot(hub: &mut Hub, jpeg: Vec<u8>, now: u64)
    ensures
        final(hub)@ == old(hub)@.with_unit(
            (MediaFacts { kind: TYPE_SNAP, data: jpeg@, width: 0, height: 0 }),
            now,
        ),
{
    hub.publish_unit(TYPE_SNAP, buffer_of(jpeg), 0, 0, now);
}

/// A picture is a snapshot as it is; a fragment can be decoded to one behind its
/// init segment; nothing else holds one.
pub proof fn snapshots_come_of_pictures_and_fragments(init: Option<Seq<u8>>, m: MediaFacts)
    ensures
        (m.kind == 3 || m.kind == 4) && looks_jpeg(m.data) ==> picture_of(init, m) == Picture::Ready(
            m.data,
        ),
        (m.kind == 3 || m.kind == 4) && !looks_jpeg(m.data) ==> picture_of(init, m) is Unfit,
        m.kind == 2 && init is None ==> picture_of(init, m) == Picture::Decode(m.data),
        m.kind == 2 && init is Some ==> picture_of(init, m) == Picture::Decode(
            init->Some_0 + m.data,
        ),
        m.kind == 1 || m.kind == 0 || m.kind > 4 ==> picture_of(init, m) is Unfit,
{
}

/// ffmpeg is asked for one JPEG of what it reads, no wider than 1920 pixels.
pub proof fn one_picture_is_asked_for()
    ensures
        ({
            let v = snapshot_args();
            &&& has_option(v, "-i"@, "pipe:0"@)
            &&& has_option(v, "-frames:v"@, "1"@)
            &&& has_option(v, "-vf"@, "scale=min(1920\\,iw):-2"@)
            &&& has_option(v, "-q:v"@, "6"@)
            &&& has_option(v, "-f"@, "mjpeg"@)
            &&& has_option(v, "-loglevel"@, "error"@)
            &&& v.last() == "pipe:1"@
            &&& v.len() == 14
        }),
{
    let v = snapshot_args();
    option_at(v, 1);
    option_at(v, 3);
    option_at(v, 5);
    option_at(v, 7);
    option_at(v, 9);
    option_at(v, 11);
}

} // verus!
