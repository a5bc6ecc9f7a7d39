//! Framing, packing, fan-out and recording.

use bytes::Bytes;
use streamaid::capture::{
    capture_backoff, exit_error, next_capture_backoff, spawn_error, stall_error, Capture, SECOND,
    STALL_TIMEOUT,
};
use streamaid::config::Config;
use streamaid::files::FileEntry;
use streamaid::frame::{jpeg_size, make_jpeg, mp4_box, MjpegFramer, Mp4Framer, Unit};
use streamaid::headers::{encode_chunk, stream_header_map};
use streamaid::hub::{kind_for_mode, Hub, Media};
use streamaid::protocol::{
    pack_media, unpack_media, TYPE_FRAG, TYPE_INIT, TYPE_JPEG, TYPE_SNAP,
};
use streamaid::record::{
    list, readable_name, recording_names, recording_stem, uniquify, Recorder,
};
use streamaid::snapshot::{
    encode_snapshot, publish_snapshot, snapshot_argv, snapshot_source, snapshot_taken, Snapshot,
};
use streamaid::ws::{
    accept_key, decode_frame, encode_frame, encode_frame_with, OP_BIN, OP_PING, OP_PONG, OP_TEXT,
};

fn is_init(u: &Unit, want: &[u8]) -> bool {
    match u {
        Unit::Init(b) => b.as_slice() == want,
        _ => false,
    }
}

fn is_fragment(u: &Unit, want: &[u8]) -> bool {
    match u {
        Unit::Fragment(b) => b.as_slice() == want,
        _ => false,
    }
}

#[test]
fn a_row_of_images_comes_back_however_it_is_cut() {
    let row = vec![
        make_jpeg(16, 10, b"AAA"),
        make_jpeg(32, 20, &[1, 0xff, 0, 2, 0xff, 0xd3, 4]),
        make_jpeg(8, 8, b""),
    ];
    let stream: Vec<u8> = row.concat();
    for size in 1..stream.len() + 1 {
        let mut f = MjpegFramer::new();
        let mut out: Vec<Vec<u8>> = Vec::new();
        for chunk in stream.chunks(size) {
            out.extend(f.push(chunk));
        }
        assert_eq!(out, row, "chunks of {size}");
    }
}

#[test]
fn a_stream_of_boxes_comes_back_however_it_is_cut() {
    let mut init = mp4_box(b"ftyp", b"isom");
    init.extend_from_slice(&mp4_box(b"free", b""));
    init.extend_from_slice(&mp4_box(b"skip", b"moov"));
    init.extend_from_slice(&mp4_box(b"wide", b"1234567"));
    init.extend_from_slice(&mp4_box(b"moov", b"trak"));
    let fragment = |n: u8| {
        let mut v = mp4_box(b"moof", &[n; 5]);
        v.extend_from_slice(&mp4_box(b"mdat", &[n; 9]));
        v
    };
    let mut stream = init.clone();
    for n in 0..3 {
        stream.extend_from_slice(&fragment(n));
    }
    for size in 1..stream.len() + 1 {
        let mut f = Mp4Framer::new();
        let mut out: Vec<Unit> = Vec::new();
        for chunk in stream.chunks(size) {
            out.extend(f.push(chunk));
        }
        assert_eq!(out.len(), 4, "chunks of {size}");
        assert!(is_init(&out[0], &init));
        for n in 0..3u8 {
            assert!(is_fragment(&out[n as usize + 1], &fragment(n)));
        }
    }
}

#[test]
fn capture_backoff_caps_at_8s() {
    let mut d = SECOND;
    d = capture_backoff(d);
    assert_eq!(d, 2 * SECOND);
    for _ in 0..10 {
        d = capture_backoff(d);
    }
    assert_eq!(d, 8 * SECOND);
}

#[test]
fn stall_timeout_survives_app_switch() {
    assert!(
        STALL_TIMEOUT >= 15 * SECOND,
        "app switches stall avfoundation for several seconds; 4s restarts kill the stream: {STALL_TIMEOUT:?}"
    );
}

#[test]
fn restart_backoff_resets_after_successful_capture() {
    let after_stall = next_capture_backoff(8 * SECOND, true);
    assert_eq!(after_stall, SECOND);
    let cold = next_capture_backoff(2 * SECOND, false);
    assert_eq!(cold, 4 * SECOND);
}

#[test]
fn splits_concatenated_jpegs_at_eoi() {
    let a = make_jpeg(16, 10, b"AAA");
    let b = make_jpeg(32, 20, b"BBBB");
    assert_eq!(jpeg_size(&a), (16, 10));
    assert_eq!(jpeg_size(&b), (32, 20));
    let mut f = MjpegFramer::new();
    let mut concat = a.clone();
    concat.extend_from_slice(&b);
    // split across a push boundary inside the second JPEG
    let mid = a.len() + 4;
    let mut frames = f.push(&concat[..mid]);
    frames.extend(f.push(&concat[mid..]));
    assert_eq!(frames.len(), 2, "expected 2 JPEGs, got {}", frames.len());
    assert_eq!(frames[0], a);
    assert_eq!(frames[1], b);
}

#[test]
fn splits_init_then_fragments_from_concatenated_boxes() {
    let ftyp = mp4_box(b"ftyp", b"isom");
    let moov = mp4_box(b"moov", b"trak-payload");
    let mut init = ftyp;
    init.extend_from_slice(&moov);
    let frag1 = {
        let mut v = mp4_box(b"moof", b"mfhd");
        v.extend_from_slice(&mp4_box(b"mdat", b"frame-one"));
        v
    };
    let frag2 = {
        let mut v = mp4_box(b"moof", b"mfhd2");
        v.extend_from_slice(&mp4_box(b"mdat", b"frame-two-xx"));
        v
    };
    let mut all = init.clone();
    all.extend_from_slice(&frag1);
    all.extend_from_slice(&frag2);
    let mut p = Mp4Framer::new();
    let cut = init.len() + 10;
    let mut units = p.push(&all[..cut]);
    units.extend(p.push(&all[cut..]));
    assert_eq!(units.len(), 3);
    assert!(is_init(&units[0], &init), "expected init, got {:?}", units[0]);
    assert!(is_fragment(&units[1], &frag1), "expected frag1, got {:?}", units[1]);
    assert!(is_fragment(&units[2], &frag2), "expected frag2, got {:?}", units[2]);
}

#[test]
fn a_picture_survives_every_cut() {
    let mut data = make_jpeg(8, 6, b"XYZ");
    data.extend_from_slice(&make_jpeg(4, 2, b"W"));
    for cut in 0..data.len() {
        let mut f = MjpegFramer::new();
        let mut frames = f.push(&data[..cut]);
        frames.extend(f.push(&data[cut..]));
        assert_eq!(frames.len(), 2, "cut at {cut}");
        assert_eq!(frames[0], make_jpeg(8, 6, b"XYZ"));
    }
}

#[test]
fn what_is_no_jpeg_has_no_size() {
    assert_eq!(jpeg_size(b""), (0, 0));
    assert_eq!(jpeg_size(b"not a picture"), (0, 0));
}

#[test]
fn no_store_no_transform_chunked() {
    let h = stream_header_map();
    let cc = h.get("Cache-Control").unwrap().to_lowercase();
    assert!(cc.contains("no-store"), "{cc}");
    assert!(cc.contains("no-transform"), "{cc}");
    assert_eq!(h.get("CDN-Cache-Control").unwrap().to_lowercase(), "no-store");
    assert_eq!(h.get("X-Accel-Buffering").unwrap().to_lowercase(), "no");
    assert_eq!(h.get("Transfer-Encoding").unwrap().to_lowercase(), "chunked");
}

#[test]
fn chunk_framing() {
    assert_eq!(encode_chunk(b"hello"), b"5\r\nhello\r\n");
    assert_eq!(encode_chunk(b""), b"0\r\n\r\n");
    let payload = vec![b'a'; 16];
    let wire = encode_chunk(&payload);
    assert!(wire.starts_with(b"10\r\n"));
    assert!(wire.ends_with(b"\r\n"));
    assert_eq!(&wire[4..wire.len() - 2], payload.as_slice());
}

#[test]
fn pack_unpack_init_fragment_jpeg() {
    for (kind, blob) in [
        (TYPE_INIT, &b"ftyp....moov"[..]),
        (TYPE_FRAG, &b"moof....mdat"[..]),
        (TYPE_JPEG, &b"\xff\xd8\xff"[..]),
        (TYPE_SNAP, &b"\xff\xd8snap"[..]),
    ] {
        let packed = pack_media(kind, blob);
        assert_eq!(packed[0], kind);
        let (k, rest) = unpack_media(&packed).unwrap();
        assert_eq!(k, kind);
        assert_eq!(rest, blob);
    }
}

#[test]
fn unpack_rejects_empty() {
    assert!(unpack_media(b"").is_err());
}

#[test]
fn drop_oldest_on_full_queue() {
    let mut hub = Hub::new();
    let sub = hub.subscribe(2);
    hub.publish_unit(TYPE_FRAG, Bytes::from_static(b"a"), 0, 0, 0);
    hub.publish_unit(TYPE_FRAG, Bytes::from_static(b"b"), 0, 0, 0);
    hub.publish_unit(TYPE_FRAG, Bytes::from_static(b"c"), 0, 0, 0);
    let first = sub.try_recv(&mut hub).unwrap();
    let second = sub.try_recv(&mut hub).unwrap();
    assert!(sub.try_recv(&mut hub).is_none());
    assert_eq!(&first.data[..], b"b");
    assert_eq!(&second.data[..], b"c");
}

#[test]
fn empty_hub_has_no_media_age() {
    let hub = Hub::new();
    assert!(hub.last_media_age(5).is_none());
}

#[test]
fn init_stored_and_latest_updated() {
    let mut hub = Hub::new();
    hub.publish_init(Bytes::from_static(b"init"), 1920, 1080, SECOND);
    hub.publish_unit(TYPE_FRAG, Bytes::from_static(b"f1"), 0, 0, SECOND);
    assert_eq!(&hub.init_segment().unwrap()[..], b"init");
    assert_eq!(&hub.latest().unwrap().data[..], b"f1");
    assert_eq!(hub.size(), (1920, 1080));
    assert!(hub.last_media_age(SECOND + 5).unwrap() < SECOND);
}

#[test]
fn snapshot_fans_out_but_does_not_replace_latest_fragment() {
    let mut hub = Hub::new();
    let sub = hub.subscribe(8);
    hub.publish_init(Bytes::from_static(b"init"), 1920, 1080, 0);
    hub.publish_unit(TYPE_FRAG, Bytes::from_static(b"f1"), 0, 0, 0);
    hub.publish_unit(TYPE_SNAP, Bytes::from_static(b"\xff\xd8"), 0, 0, 0);
    assert_eq!(hub.latest().unwrap().kind, TYPE_FRAG);
    assert_eq!(&hub.latest().unwrap().data[..], b"f1");
    let mut kinds = Vec::new();
    while let Some(m) = sub.try_recv(&mut hub) {
        kinds.push(m.kind);
    }
    assert!(kinds.contains(&TYPE_SNAP));
    assert!(kinds.contains(&TYPE_FRAG));
}

#[test]
fn a_hub_counts_its_clients_and_recent_units() {
    let mut hub = Hub::new();
    let a = hub.subscribe(1);
    let _b = hub.subscribe(1);
    assert_eq!(hub.clients(), 2);
    hub.unsubscribe(&a);
    assert_eq!(hub.clients(), 1);
    hub.publish_unit(TYPE_FRAG, Bytes::from_static(b"x"), 0, 0, SECOND);
    hub.publish_unit(TYPE_FRAG, Bytes::from_static(b"y"), 0, 0, 2 * SECOND);
    assert_eq!(hub.units_in_window(2 * SECOND), 2);
    assert_eq!(hub.units_in_window(4 * SECOND - 1), 1);
    let g = hub.generation();
    hub.clear();
    assert_ne!(hub.generation(), g);
    assert!(hub.latest().is_none());
}

#[test]
fn the_kind_of_a_unit_follows_the_mode() {
    assert_eq!(kind_for_mode("mjpeg", false), TYPE_JPEG);
    assert_eq!(kind_for_mode("ffmpeg", true), TYPE_INIT);
    assert_eq!(kind_for_mode("hevc", false), TYPE_FRAG);
}

#[test]
fn rfc6455_accept_key_example() {
    let key = "dGhlIHNhbXBsZSBub25jZQ==";
    assert_eq!(accept_key(key), "s3pPLMBiTxaQ9kYGzzhZRbK+xOo=");
}

#[test]
fn unmasked_binary_roundtrip() {
    let payload = [1u8].into_iter().chain(b"moofxxxx".iter().copied()).collect::<Vec<_>>();
    let wire = encode_frame(&payload, OP_BIN, false);
    let (op, data, n) = decode_frame(&wire);
    assert_eq!(op, Some(OP_BIN));
    assert_eq!(data, payload);
    assert_eq!(n, wire.len());
}

#[test]
fn masked_client_frame_unmasks() {
    let payload = b"hello-ws";
    let wire = encode_frame(payload, OP_BIN, true);
    let (op, data, n) = decode_frame(&wire);
    assert_eq!(op, Some(OP_BIN));
    assert_eq!(data, payload);
    assert_eq!(n, wire.len());
}

#[test]
fn ping_pong_opcodes() {
    let ping = encode_frame(b"hi", OP_PING, false);
    let (op, data, _) = decode_frame(&ping);
    assert_eq!(op, Some(OP_PING));
    assert_eq!(data, b"hi");
    let pong = encode_frame(&data, OP_PONG, false);
    assert_eq!(decode_frame(&pong).0, Some(OP_PONG));
}

#[test]
fn incomplete_frame_returns_none() {
    let wire = encode_frame(b"abcdef", OP_BIN, false);
    let (op, _, n) = decode_frame(&wire[..2.min(wire.len())]);
    if wire.len() > 2 {
        assert_eq!(op, None);
        assert_eq!(n, 0);
    }
}

#[test]
fn extended_payload_length_16bit() {
    let payload = vec![b'x'; 200];
    let wire = encode_frame(&payload, OP_BIN, false);
    let (op, data, n) = decode_frame(&wire);
    assert_eq!(op, Some(OP_BIN));
    assert_eq!(data, payload);
    assert_eq!(n, wire.len());
}

#[test]
fn frame_bytes_are_exact() {
    assert_eq!(encode_frame(b"hi", OP_TEXT, false), b"\x81\x02hi");
    assert_eq!(
        encode_frame_with(b"ab", OP_BIN, Some([1, 2, 3, 4])),
        b"\x82\x82\x01\x02\x03\x04\x60\x60"
    );
    let long = encode_frame(&vec![7u8; 70_000], OP_BIN, false);
    assert_eq!(&long[..10], b"\x82\x7f\x00\x00\x00\x00\x00\x01\x11\x70");
    assert_eq!(decode_frame(&long).2, long.len());
}

#[test]
fn hub_publish_stays_under_frame_period_with_32_subscribers() {
    let mut hub = Hub::new();
    let mut subs = Vec::new();
    for _ in 0..32 {
        subs.push(hub.subscribe(8));
    }
    let payload = Bytes::from(vec![0xAB; 64 * 1024]);
    let n = 300; // 10 seconds at 30 fps
    let mut max = std::time::Duration::ZERO;
    let start = std::time::Instant::now();
    for i in 0..n {
        let t = std::time::Instant::now();
        hub.publish_unit(TYPE_FRAG, payload.clone(), 1920, 1080, i as u64);
        max = max.max(t.elapsed());
    }
    let mean = start.elapsed() / n;
    assert!(
        mean < std::time::Duration::from_micros(500),
        "mean publish {mean:?} (budget 500µs, frame is 33.3ms)"
    );
    assert!(
        max < std::time::Duration::from_micros(33_334),
        "worst publish {max:?} exceeded one 30 fps frame"
    );
    let got = subs[0].try_recv(&mut hub).is_some();
    assert!(got);
    drop(subs);
}

#[test]
fn hub_drop_oldest_under_backpressure() {
    let mut hub = Hub::new();
    let slow = hub.subscribe(2);
    let payload = Bytes::from(vec![0xAB; 64 * 1024]);
    for i in 0..100u32 {
        hub.publish_unit(TYPE_FRAG, payload.clone(), i, 0, i as u64);
    }
    let a = slow.try_recv(&mut hub).unwrap();
    let b = slow.try_recv(&mut hub).unwrap();
    assert!(slow.try_recv(&mut hub).is_none());
    // last two publishes win
    assert_eq!(a.width, 98);
    assert_eq!(b.width, 99);
}

#[test]
fn ws_codec_300_gop_sized_frames_well_under_realtime() {
    let payload = pack_media(TYPE_FRAG, &vec![0xCD; 80 * 1024]);
    let n = 300;
    let start = std::time::Instant::now();
    for _ in 0..n {
        let wire = encode_frame(&payload, OP_BIN, false);
        let (op, data, consumed) = decode_frame(&wire);
        assert_eq!(op, Some(OP_BIN));
        assert_eq!(consumed, wire.len());
        let (kind, _) = unpack_media(&data).unwrap();
        assert_eq!(kind, TYPE_FRAG);
    }
    let elapsed = start.elapsed();
    let mean = elapsed / n;
    assert!(
        elapsed < std::time::Duration::from_millis(500),
        "300×80KiB frame codec took {elapsed:?}"
    );
    assert!(
        mean < std::time::Duration::from_millis(1),
        "mean codec {mean:?} should be << 33.3ms"
    );
}

fn shot(kind: u8, data: &'static [u8]) -> Media {
    Media { kind, data: Bytes::from_static(data), width: 10, height: 10 }
}

fn ready(s: &Snapshot) -> Option<Vec<u8>> {
    match s {
        Snapshot::Ready(b) => Some(b.clone()),
        _ => None,
    }
}

#[test]
fn jpeg_passthrough() {
    let m = shot(TYPE_JPEG, b"\xff\xd8\xff\xd9");
    let out = ready(&encode_snapshot(None, &m)).unwrap();
    assert_eq!(out, b"\xff\xd8\xff\xd9");
}

#[test]
fn a_fragment_is_decoded_behind_its_init() {
    let m = shot(TYPE_FRAG, b"moof");
    match encode_snapshot(Some(b"ftyp"), &m) {
        Snapshot::Decode(b) => assert_eq!(b, b"ftypmoof"),
        other => panic!("{other:?}"),
    }
    assert!(matches!(encode_snapshot(None, &shot(TYPE_INIT, b"ftyp")), Snapshot::Unfit));
    assert!(matches!(encode_snapshot(None, &shot(TYPE_JPEG, b"no")), Snapshot::Unfit));
    assert_eq!(snapshot_argv()[0], "-hide_banner");
    assert!(snapshot_argv().iter().any(|a| a == "mjpeg"));
    assert!(snapshot_taken(Vec::new()).is_none());
    assert!(snapshot_taken(b"GIF".to_vec()).is_none());
    assert_eq!(snapshot_taken(vec![0xff, 0xd8]), Some(vec![0xff, 0xd8]));
    let mut hub = Hub::new();
    assert!(snapshot_source(&hub).is_none());
    publish_snapshot(&mut hub, b"\xff\xd8".to_vec(), 1);
    assert_eq!(&hub.last_snap().unwrap().data[..], b"\xff\xd8");
    assert!(hub.latest().is_none());
}

#[test]
fn capture_publishes_what_ffmpeg_writes() {
    let mut cfg = Config::default();
    cfg.encoder.mode = "mjpeg".to_string();
    let mut hub = Hub::new();
    let mut cap = Capture::new();
    assert!(!cap.is_active());
    cap.start(&cfg, "3:".to_string());
    cap.begin_attempt(&mut hub);
    let wait = cap.read_wait();
    let pic = make_jpeg(64, 48, b"PIC");
    cap.feed(&mut hub, &pic[..5], SECOND);
    assert!(cap.read_wait() >= wait || cap.read_wait() == STALL_TIMEOUT);
    cap.feed(&mut hub, &pic[5..], SECOND);
    assert_eq!(&hub.latest().unwrap().data[..], pic.as_slice());
    assert_eq!(hub.latest().unwrap().kind, TYPE_JPEG);
    assert_eq!(cap.status().width, 64);
    let again = cap.finish(Some(exit_error(Some(1))));
    assert_eq!(again, SECOND, "a capture that worked restarts soon");
    assert!(!cap.status().running);
    assert!(cap.status().error.ends_with("; restarting"));
    cap.stop();
    assert!(!cap.is_active());
}

#[test]
fn capture_reads_the_size_in_the_log() {
    let mut cap = Capture::new();
    cap.start(&Config::default(), "3:".to_string());
    cap.feed_log(b"  Stream #0:0: Video: h264, yuv420p, 1920x1080, 30 fps\n");
    assert_eq!((cap.status().width, cap.status().height), (1920, 1080));
}

#[test]
fn capture_errors_say_what_happened() {
    assert_eq!(spawn_error(true, "x"), "ffmpeg not found on PATH");
    assert_eq!(spawn_error(false, "denied"), "failed to start ffmpeg: denied");
    assert!(stall_error(STALL_TIMEOUT).contains("20"));
    assert!(exit_error(Some(3)).contains('3'));
    assert_ne!(exit_error(None), exit_error(Some(3)));
}

#[test]
fn start_writes_init_and_fragments_then_stop_lists() {
    let mut rec = Recorder::new();
    let mut data: Vec<u8> = Vec::new();
    assert!(!rec.is_active());
    assert!(!rec.write_unit(TYPE_FRAG, b"late".len()));
    let names = recording_names(&recording_stem(1_700_000_000));
    let name = rec.start(names[0].clone());
    data.extend_from_slice(b"ftyp-init");
    assert!(name.starts_with("session-"));
    assert!(name.ends_with(".mp4"));
    assert!(rec.is_active());
    for (kind, unit) in
        [(TYPE_FRAG, &b"mdat-frag"[..]), (TYPE_JPEG, &b"nope"[..]), (TYPE_INIT, &b""[..])]
    {
        if rec.write_unit(kind, unit.len()) {
            data.extend_from_slice(unit);
        }
    }
    let stopped = rec.stop().unwrap();
    assert_eq!(stopped, name);
    assert!(!rec.is_active());
    assert!(rec.stop().is_none());
    let l = list(&vec![
        FileEntry::file(name.clone(), data.len() as u64),
        FileEntry::file("notes.txt".to_string(), 3),
    ]);
    assert_eq!(l.len(), 1);
    assert_eq!(l[0].name, name);
    assert_eq!(readable_name(&name).unwrap(), name);
    assert_eq!(data, b"ftyp-initmdat-frag");
    assert!(readable_name("../x.mp4").is_err());
    assert!(readable_name("notes.txt").is_err());
}

#[test]
fn second_start_is_idempotent_until_stop() {
    let mut rec = Recorder::new();
    let names = recording_names(&recording_stem(1_700_000_000));
    let a = rec.start(names[0].clone());
    let b = rec.start("other.mp4".to_string());
    assert_eq!(a, b);
    rec.stop();
    let mut taken = vec![false; 99];
    taken[0] = true;
    let c = rec.start(names[uniquify(&taken)].clone());
    assert_ne!(c, a);
    rec.stop();
    let l = list(&vec![FileEntry::file(a, 1), FileEntry::file(c, 1)]);
    assert_eq!(l.len(), 2);
}

#[test]
fn recordings_are_named_by_their_time() {
    assert_eq!(recording_stem(1_700_000_000), "session-20231114-221320");
    let names = recording_names("session-x");
    assert_eq!(names[0], "session-x.mp4");
    assert_eq!(names.len(), 99);
    assert_ne!(names[1], names[0]);
    let l = list(&vec![
        FileEntry::file("session-1.mp4".to_string(), 1),
        FileEntry::file("session-2.mp4".to_string(), 1),
    ]);
    assert_eq!(l[0].name, "session-2.mp4");
}
