//! Framers under load.

use std::time::{Duration, Instant};
use streamaid::frame::{make_jpeg, mp4_box, MjpegFramer, Mp4Framer, Unit};

const FRAME_PERIOD: Duration = Duration::from_micros(33_334); // 30 fps

#[test]
fn mjpeg_framer_splits_burst_of_30_jpegs() {
    let frame = make_jpeg(1920, 1080, &vec![0x11; 4096]);
    let mut burst = Vec::new();
    for _ in 0..30 {
        burst.extend_from_slice(&frame);
    }
    let mut fr = MjpegFramer::new();
    let t = Instant::now();
    let out = fr.push(&burst);
    let dt = t.elapsed();
    assert_eq!(out.len(), 30);
    assert_eq!(out[0], frame);
    assert!(
        dt < FRAME_PERIOD,
        "framing 30 JPEGs took {dt:?} (must be < one frame period)"
    );
}

#[test]
fn mp4_framer_handles_init_plus_60_fragments_in_one_push() {
    let mut init = mp4_box(b"ftyp", b"isom");
    init.extend_from_slice(&mp4_box(b"moov", &[0u8; 256]));
    let mut frag = mp4_box(b"moof", &[1u8; 64]);
    frag.extend_from_slice(&mp4_box(b"mdat", &vec![2u8; 32 * 1024]));
    let mut all = init.clone();
    for _ in 0..60 {
        all.extend_from_slice(&frag);
    }
    let mut p = Mp4Framer::new();
    let t = Instant::now();
    let units = p.push(&all);
    let dt = t.elapsed();
    assert_eq!(units.len(), 61);
    match &units[0] {
        Unit::Init(b) => assert_eq!(b, &init),
        other => panic!("{other:?}"),
    }
    assert!(matches!(units[1], Unit::Fragment(_)));
    assert!(
        dt < FRAME_PERIOD,
        "framing 60 fragments took {dt:?}"
    );
}
