//! ffmpeg argv: native-res cap (never upscale), 0.5 s VBV, no B-frames, VT or libx264 zerolatency.

use crate::config::{Config, ConfigFacts};
use crate::text::{
    append, begins, char_at, chars_of, concat2, contains, decimal, decimal_text, digits_value, ends,
    ends_with, find_char, has_part, is_digit, lossy, lossy_text, part_at, part_between, part_stays,
    push_text, same, slice_text, texts, trim_end_char, without_trailing,
};
use vstd::prelude::*;

verus! {

/// Rows of pixels at the top of a macOS capture that the recording indicator covers.
pub const MACOS_RECORDING_HUD_PX: u32 = 40;

/// The smallest double that lies less than a billionth below one.
pub const ALMOST_ONE: u64 = 0x3fef_ffff_ff76_8fa1;

/// The largest double that lies less than a billionth above one.
pub const BARELY_OVER_ONE: u64 = 0x3ff0_0000_0044_b82f;

pub open spec fn zeros(n: nat) -> Seq<char> {
    Seq::new(n, |i: int| '0')
}

pub open spec fn all_digits(d: Seq<char>) -> bool {
    forall|i: int| 0 <= i < d.len() ==> is_digit(#[trigger] d[i])
}

/// The exponent of a number: up to three digits, with or without a sign.
pub open spec fn exponent(x: Seq<char>) -> Option<int> {
    let negative = x.len() > 0 && x[0] == '-';
    let d = if negative {
        x.skip(1)
    } else {
        x
    };
    if 0 < d.len() <= 3 && all_digits(d) {
        Some(
            if negative {
                -digits_value(d)
            } else {
                digits_value(d) as int
            },
        )
    } else {
        None
    }
}

/// Digits with the point behind the first `at` of them; zeros fill up what is
/// missing on either side.
pub open spec fn pointed(d: Seq<char>, at: int) -> Seq<char> {
    if at <= 0 {
        "0."@ + zeros((-at) as nat) + d
    } else if at >= d.len() {
        d + zeros((at - d.len()) as nat)
    } else {
        d.take(at) + "."@ + d.skip(at)
    }
}

/// A number times a power of ten, written out.
pub open spec fn shifted(m: Seq<char>, by: int) -> Seq<char> {
    if m.len() > 0 && m[0] == '-' {
        "-"@ + moved_point(m.skip(1), by)
    } else {
        moved_point(m, by)
    }
}

pub open spec fn moved_point(m: Seq<char>, by: int) -> Seq<char> {
    match char_at(m, '.', 0) {
        Some(k) => pointed(m.take(k) + m.skip(k + 1), k + by),
        None => pointed(m, m.len() + by),
    }
}

/// A number as it is written in a filter: without a fraction that is zero and
/// without an exponent.
pub open spec fn plain(text: Seq<char>) -> Seq<char> {
    match char_at(text, 'e', 0) {
        Some(k) => match exponent(text.skip(k + 1)) {
            Some(by) => shifted(text.take(k), by),
            None => text,
        },
        None => if ends(text, ".0"@) {
            text.take(text.len() - 2)
        } else {
            text
        },
    }
}

fn read_exponent(v: &Vec<char>, from: usize) -> (r: Option<i64>)
    requires
        from <= v@.len(),
    ensures
        match r {
            Some(n) => exponent(v@.skip(from as int)) == Some(n as int) && -999 <= n <= 999,
            None => exponent(v@.skip(from as int)) is None,
        },
{
    let ghost x = v@.skip(from as int);
    let n: usize = v.len();
    let negative = from < n && v[from] == '-';
    assert(from < n ==> x[0] == v@[from as int]);
    let start: usize = if negative {
        from + 1
    } else {
        from
    };
    let ghost d = if negative {
        x.skip(1)
    } else {
        x
    };
    assert(negative == (x.len() > 0 && x[0] == '-'));
    assert(d =~= v@.skip(start as int));
    if start == n || n - start > 3 {
        return None;
    }
    let mut i: usize = start;
    let mut value: i64 = 0;
    assert(d.take(0) =~= Seq::<char>::empty());
    while i < n
        invariant
            start <= i <= n == v@.len(),
            n - start <= 3,
            d == v@.skip(start as int),
            0 <= value,
            i - start == 0 ==> value <= 0,
            i - start <= 1 ==> value <= 9,
            i - start <= 2 ==> value <= 99,
            value <= 999,
            value == digits_value(d.take(i - start)),
            forall|k: int| 0 <= k < i - start ==> is_digit(#[trigger] d[k]),
            x == v@.skip(from as int),
            exponent(x) is Some ==> all_digits(d),
        decreases n - i,
    {
        let c = v[i];
        assert(d[i - start] == c);
        if !('0' <= c && c <= '9') {
            assert(!is_digit(d[i - start]));
            return None;
        }
        assert(d.take(i - start + 1).drop_last() =~= d.take(i - start));
        assert(d.take(i - start + 1).last() == c);
        value = value * 10 + (c as u32 as i64 - 48);
        i += 1;
    }
    assert(d.take(n - start) =~= d);
    if negative {
        Some(-value)
    } else {
        Some(value)
    }
}

fn push_zeros(s: &mut String, n: u64)
    ensures
        final(s)@ == old(s)@ + zeros(n as nat),
{
    let ghost before = s@;
    let mut i: u64 = 0;
    assert(before + zeros(0) =~= before);
    while i < n
        invariant
            i <= n,
            s@ == before + zeros(i as nat),
        decreases n - i,
    {
        s.push('0');
        i += 1;
        assert(s@ =~= before + zeros(i as nat));
    }
}

fn pointed_text(d: &str, at: i128) -> (s: String)
    requires
        -0x1_0000 <= at <= u64::MAX + 0x1_0000,
        at <= d@.len() + 0x1_0000,
    ensures
        s@ == pointed(d@, at as int),
{
    let v = chars_of(d);
    let n: usize = v.len();
    if at <= 0 {
        let mut s = "0.".to_owned();
        push_zeros(&mut s, (-at) as u64);
        append(&mut s, d);
        s
    } else if at >= n as i128 {
        let mut s = d.to_owned();
        push_zeros(&mut s, (at - n as i128) as u64);
        s
    } else {
        let k: usize = at as usize;
        let mut s = concat2(slice_text(&v, 0, k).as_str(), ".");
        append(&mut s, slice_text(&v, k, n).as_str());
        assert(v@.subrange(0, k as int) =~= d@.take(k as int));
        assert(v@.subrange(k as int, n as int) =~= d@.skip(k as int));
        s
    }
}

fn moved_point_text(m: &str, by: i64) -> (s: String)
    requires
        -999 <= by <= 999,
    ensures
        s@ == moved_point(m@, by as int),
{
    let v = chars_of(m);
    let n: usize = v.len();
    match find_char(&v, '.', 0) {
        Some(k) => {
            let d = concat2(slice_text(&v, 0, k).as_str(), slice_text(&v, k + 1, n).as_str());
            assert(v@.subrange(0, k as int) =~= m@.take(k as int));
            assert(v@.subrange(k + 1, n as int) =~= m@.skip(k + 1));
            pointed_text(d.as_str(), k as i128 + by as i128)
        },
        None => pointed_text(m, n as i128 + by as i128),
    }
}

fn plain_text(text: &str) -> (s: String)
    ensures
        s@ == plain(text@),
{
    let v = chars_of(text);
    let n: usize = v.len();
    match find_char(&v, 'e', 0) {
        Some(k) => match read_exponent(&v, k + 1) {
            Some(by) => {
                let m = slice_text(&v, 0, k);
                assert(m@ =~= text@.take(k as int));
                if k > 0 && v[0] == '-' {
                    let rest = slice_text(&v, 1, k);
                    assert(rest@ =~= m@.skip(1));
                    concat2("-", moved_point_text(rest.as_str(), by).as_str())
                } else {
                    moved_point_text(m.as_str(), by)
                }
            },
            None => text.to_owned(),
        },
        None => {
            proof {
                reveal_strlit(".0");
            }
            if ends_with(text, ".0") {
                assert(v@.subrange(0, v@.len() - 2) =~= text@.take(text@.len() - 2));
                slice_text(&v, 0, n - 2)
            } else {
                text.to_owned()
            }
        },
    }
}

/// One side of the picture: scaled, and no larger than `max`.
pub open spec fn side(max: u32, axis: Seq<char>, c: ConfigFacts) -> Seq<char> {
    "min("@ + decimal(max as nat) + "\\,"@ + axis + (if ALMOST_ONE <= c.capture.scale.bits
        <= BARELY_OVER_ONE {
        Seq::empty()
    } else {
        "*"@ + plain(c.capture.scale.text)
    }) + ")"@
}

fn side_text(max: u32, axis: &str, cfg: &Config) -> (s: String)
    ensures
        s@ == side(max, axis@, cfg@),
{
    let mut s = concat2("min(", decimal_text(max as u64).as_str());
    append(&mut s, "\\,");
    append(&mut s, axis);
    if !(ALMOST_ONE <= cfg.capture.scale.bits && cfg.capture.scale.bits <= BARELY_OVER_ONE) {
        append(&mut s, "*");
        append(&mut s, plain_text(cfg.capture.scale.text.as_str()).as_str());
    }
    append(&mut s, ")");
    assert(s@ =~= side(max, axis@, cfg@));
    s
}

pub open spec fn filter_of(c: ConfigFacts, fps: u32) -> Seq<char> {
    "setpts=PTS-STARTPTS,fps="@ + decimal(fps as nat) + ",scale="@ + side(
        c.encoder.max_width,
        "iw"@,
        c,
    ) + ":"@ + side(c.encoder.max_height, "ih"@, c)
        + ":force_original_aspect_ratio=decrease:flags=lanczos,scale=trunc(iw/2)*2:trunc(ih/2)*2"@
}

/// Pre-encode filter: fps throttle, lanczos downscale, never upscale past max WxH, even dims.
pub fn scale_filter(cfg: &Config, fps: u32) -> (s: String)
    ensures
        s@ == filter_of(cfg@, fps),
{
    let mut s = concat2("setpts=PTS-STARTPTS,fps=", decimal_text(fps as u64).as_str());
    append(&mut s, ",scale=");
    append(&mut s, side_text(cfg.encoder.max_width, "iw", cfg).as_str());
    append(&mut s, ":");
    append(&mut s, side_text(cfg.encoder.max_height, "ih", cfg).as_str());
    append(
        &mut s,
        ":force_original_aspect_ratio=decrease:flags=lanczos,scale=trunc(iw/2)*2:trunc(ih/2)*2",
    );
    s
}

/// The arguments that name the screen to grab.
pub open spec fn input_args(sysname: Seq<char>, input: Seq<char>, fps: u32) -> Seq<Seq<char>> {
    if sysname == "Darwin"@ {
        seq!["-f"@, "avfoundation"@, "-framerate"@, decimal(fps as nat), "-i"@, input]
    } else if sysname == "Windows"@ {
        seq!["-f"@, "gdigrab"@, "-framerate"@, decimal(fps as nat), "-i"@, "desktop"@]
    } else {
        seq!["-f"@, "x11grab"@, "-framerate"@, decimal(fps as nat), "-i"@, input]
    }
}

fn input_part(argv: &mut Vec<String>, sysname: &str, input_id: &str, fps: u32)
    ensures
        texts(final(argv)@) == texts(old(argv)@) + input_args(sysname@, input_id@, fps),
{
    let ghost before = texts(argv@);
    let darwin = same(sysname, "Darwin");
    let windows = same(sysname, "Windows");
    push_text(argv, "-f");
    if darwin {
        push_text(argv, "avfoundation");
    } else if windows {
        push_text(argv, "gdigrab");
    } else {
        push_text(argv, "x11grab");
    }
    push_text(argv, "-framerate");
    push_text(argv, decimal_text(fps as u64).as_str());
    push_text(argv, "-i");
    if !darwin && windows {
        push_text(argv, "desktop");
    } else {
        push_text(argv, input_id);
    }
    assert(texts(argv@) =~= before + input_args(sysname@, input_id@, fps));
}

/// The device to grab: with sound, the audio device stands behind the screen.
pub open spec fn grabbed(c: ConfigFacts, input: Seq<char>, sysname: Seq<char>) -> Seq<char> {
    if wants_audio(c, sysname) {
        without_trailing(input, ':') + ":"@ + c.capture.audio_input
    } else {
        input
    }
}

fn grab(cfg: &Config, input_id: &str, sysname: &str) -> (s: String)
    ensures
        s@ == grabbed(cfg@, input_id@, sysname@),
{
    if capture_wants_audio(cfg, sysname) {
        let mut s = trim_end_char(input_id, ':');
        append(&mut s, ":");
        append(&mut s, cfg.capture.audio_input.as_str());
        s
    } else {
        input_id.to_owned()
    }
}

/// Sound is encoded as AAC where it is wanted, and left out elsewhere.
pub open spec fn sound_args(c: ConfigFacts, sysname: Seq<char>) -> Seq<Seq<char>> {
    if wants_audio(c, sysname) {
        seq!["-c:a"@, "aac"@]
    } else {
        seq!["-an"@]
    }
}

fn push_sound(argv: &mut Vec<String>, cfg: &Config, sysname: &str)
    ensures
        texts(final(argv)@) == texts(old(argv)@) + sound_args(cfg@, sysname@),
{
    let ghost before = texts(argv@);
    if capture_wants_audio(cfg, sysname) {
        push_text(argv, "-c:a");
        push_text(argv, "aac");
    } else {
        push_text(argv, "-an");
    }
    assert(texts(argv@) =~= before + sound_args(cfg@, sysname@));
}

/// The JPEG quantizer for a quality in percent: the whole number nearest to
/// 2 + (95 - quality) * 29 / 65, between 2 and 31.
pub open spec fn quantizer(quality: u32) -> nat {
    if quality >= 95 {
        2
    } else {
        let q = (2 + ((95 - quality) * 58 + 65) / 130) as nat;
        if q > 31 {
            31
        } else {
            q
        }
    }
}

fn jpeg_q(quality: u32) -> (q: u32)
    ensures
        q == quantizer(quality),
{
    if quality >= 95 {
        return 2;
    }
    let q: u32 = 2 + ((95 - quality) * 58 + 65) / 130;
    if q > 31 {
        31
    } else {
        q
    }
}

pub open spec fn quiet_muxing() -> Seq<Seq<char>> {
    seq![
        "-fflags"@,
        "+nobuffer+flush_packets"@,
        "-flags"@,
        "+low_delay"@,
        "-flush_packets"@,
        "1"@,
        "-muxdelay"@,
        "0"@,
        "-muxpreload"@,
        "0"@,
    ]
}

/// The arguments that choose the encoder: the one in hardware where there is one.
pub open spec fn codec_args(mode: Seq<char>, sysname: Seq<char>, videotoolbox: bool) -> Seq<
    Seq<char>,
> {
    if sysname == "Darwin"@ && (mode == "hevc"@ || videotoolbox) {
        let hevc = mode == "hevc"@;
        seq![
            "-c:v"@,
            if hevc {
                "hevc_videotoolbox"@
            } else {
                "h264_videotoolbox"@
            },
            "-allow_sw"@,
            "1"@,
            "-profile:v"@,
            if hevc {
                "main"@
            } else {
                "high"@
            },
            "-realtime"@,
            "1"@,
            "-bf"@,
            "0"@,
        ]
    } else {
        seq![
            "-c:v"@,
            "libx264"@,
            "-preset"@,
            "veryfast"@,
            "-tune"@,
            "zerolatency"@,
            "-profile:v"@,
            "high"@,
            "-bf"@,
            "0"@,
            "-x264-params"@,
            "nal-hrd=cbr:force-cfr=1:sliced-threads=1:rc-lookahead=0:sync-lookahead=0:bframes=0:repeat-headers=1"@,
        ]
    }
}

/// Half a second of the bitrate.
pub open spec fn half_second(kbps: u32) -> nat {
    if kbps < 2 {
        1
    } else {
        (kbps / 2) as nat
    }
}

/// Constant bitrate, a fixed distance between key frames, fragmented MP4.
pub open spec fn output_args(kbps: u32, gop: u32) -> Seq<Seq<char>> {
    seq![
        "-b:v"@,
        decimal(kbps as nat) + "k"@,
        "-maxrate"@,
        decimal(kbps as nat) + "k"@,
        "-bufsize"@,
        decimal(half_second(kbps)) + "k"@,
        "-g"@,
        decimal(gop as nat),
        "-keyint_min"@,
        decimal(gop as nat),
        "-sc_threshold"@,
        "0"@,
        "-pix_fmt"@,
        "yuv420p"@,
        "-f"@,
        "mp4"@,
        "-movflags"@,
        "frag_keyframe+empty_moov+default_base_moof"@,
        "pipe:1"@,
    ]
}

pub open spec fn mjpeg_args(quality: u32) -> Seq<Seq<char>> {
    seq![
        "-c:v"@,
        "mjpeg"@,
        "-q:v"@,
        decimal(quantizer(quality)),
        "-f"@,
        "mjpeg"@,
        "pipe:1"@,
    ]
}

/// The whole ffmpeg command.
pub open spec fn ffmpeg_argv(
    c: ConfigFacts,
    input: Seq<char>,
    sysname: Seq<char>,
    videotoolbox: bool,
) -> Seq<Seq<char>> {
    let mjpeg = c.encoder.mode == "mjpeg"@;
    seq![
        "ffmpeg"@,
        "-hide_banner"@,
        "-loglevel"@,
        if mjpeg {
            "error"@
        } else {
            "info"@
        },
    ] + input_args(sysname, grabbed(c, input, sysname), c.capture.fps) + sound_args(c, sysname)
        + seq!["-vf"@, filter_of(c, c.capture.fps)] + (if mjpeg {
        mjpeg_args(c.capture.jpeg_quality)
    } else {
        quiet_muxing() + codec_args(c.encoder.mode, sysname, videotoolbox) + output_args(
            c.encoder.bitrate_kbps,
            c.encoder.gop_frames,
        )
    })
}

fn push_muxing(argv: &mut Vec<String>)
    ensures
        texts(final(argv)@) == texts(old(argv)@) + quiet_muxing(),
{
    let ghost before = texts(argv@);
    push_text(argv, "-fflags");
    push_text(argv, "+nobuffer+flush_packets");
    push_text(argv, "-flags");
    push_text(argv, "+low_delay");
    push_text(argv, "-flush_packets");
    push_text(argv, "1");
    push_text(argv, "-muxdelay");
    push_text(argv, "0");
    push_text(argv, "-muxpreload");
    push_text(argv, "0");
    assert(texts(argv@) =~= before + quiet_muxing());
}

fn push_hardware(argv: &mut Vec<String>, codec: &str, profile: &str)
    ensures
        texts(final(argv)@) == texts(old(argv)@) + seq![
            "-c:v"@,
            codec@,
            "-allow_sw"@,
            "1"@,
            "-profile:v"@,
            profile@,
            "-realtime"@,
            "1"@,
            "-bf"@,
            "0"@,
        ],
{
    let ghost before = texts(argv@);
    push_text(argv, "-c:v");
    push_text(argv, codec);
    push_text(argv, "-allow_sw");
    push_text(argv, "1");
    push_text(argv, "-profile:v");
    push_text(argv, profile);
    push_text(argv, "-realtime");
    push_text(argv, "1");
    push_text(argv, "-bf");
    push_text(argv, "0");
    assert(texts(argv@) =~= before + seq![
        "-c:v"@,
        codec@,
        "-allow_sw"@,
        "1"@,
        "-profile:v"@,
        profile@,
        "-realtime"@,
        "1"@,
        "-bf"@,
        "0"@,
    ]);
}

fn push_codec(argv: &mut Vec<String>, mode: &str, sysname: &str, have_videotoolbox: bool)
    ensures
        texts(final(argv)@) == texts(old(argv)@) + codec_args(mode@, sysname@, have_videotoolbox),
{
    let ghost before = texts(argv@);
    if same(mode, "hevc") && same(sysname, "Darwin") {
        push_hardware(argv, "hevc_videotoolbox", "main");
        assert(texts(argv@) =~= before + codec_args(mode@, sysname@, have_videotoolbox));
    } else if same(sysname, "Darwin") && have_videotoolbox {
        push_hardware(argv, "h264_videotoolbox", "high");
        assert(texts(argv@) =~= before + codec_args(mode@, sysname@, have_videotoolbox));
    } else {
        push_text(argv, "-c:v");
        push_text(argv, "libx264");
        push_text(argv, "-preset");
        push_text(argv, "veryfast");
        push_text(argv, "-tune");
        push_text(argv, "zerolatency");
        push_text(argv, "-profile:v");
        push_text(argv, "high");
        push_text(argv, "-bf");
        push_text(argv, "0");
        push_text(argv, "-x264-params");
        push_text(
            argv,
            "nal-hrd=cbr:force-cfr=1:sliced-threads=1:rc-lookahead=0:sync-lookahead=0:bframes=0:repeat-headers=1",
        );
        assert(texts(argv@) =~= before + codec_args(mode@, sysname@, have_videotoolbox));
    }
}

fn push_output(argv: &mut Vec<String>, br: u32, gop: u32)
    ensures
        texts(final(argv)@) == texts(old(argv)@) + output_args(br, gop),
{
    let ghost before = texts(argv@);
    let buf: u32 = if br < 2 {
        1
    } else {
        br / 2
    };
    let rate = concat2(decimal_text(br as u64).as_str(), "k");
    push_text(argv, "-b:v");
    push_text(argv, rate.as_str());
    push_text(argv, "-maxrate");
    push_text(argv, rate.as_str());
    push_text(argv, "-bufsize");
    push_text(argv, concat2(decimal_text(buf as u64).as_str(), "k").as_str());
    push_text(argv, "-g");
    push_text(argv, decimal_text(gop as u64).as_str());
    push_text(argv, "-keyint_min");
    push_text(argv, decimal_text(gop as u64).as_str());
    push_text(argv, "-sc_threshold");
    push_text(argv, "0");
    push_text(argv, "-pix_fmt");
    push_text(argv, "yuv420p");
    push_text(argv, "-f");
    push_text(argv, "mp4");
    push_text(argv, "-movflags");
    push_text(argv, "frag_keyframe+empty_moov+default_base_moof");
    push_text(argv, "pipe:1");
    assert(texts(argv@) =~= before + output_args(br, gop));
}

fn push_mjpeg(argv: &mut Vec<String>, quality: u32)
    ensures
        texts(final(argv)@) == texts(old(argv)@) + mjpeg_args(quality),
{
    let ghost before = texts(argv@);
    push_text(argv, "-c:v");
    push_text(argv, "mjpeg");
    push_text(argv, "-q:v");
    push_text(argv, decimal_text(jpeg_q(quality) as u64).as_str());
    push_text(argv, "-f");
    push_text(argv, "mjpeg");
    push_text(argv, "pipe:1");
    assert(texts(argv@) =~= before + mjpeg_args(quality));
}

/// Build the ffmpeg command. `sysname` is `"Darwin"` / `"Windows"` / `"Linux"`.
pub fn build_ffmpeg_argv(
    cfg: &Config,
    input_id: &str,
    sysname: &str,
    have_videotoolbox: bool,
) -> (argv: Vec<String>)
    ensures
        texts(argv@) == ffmpeg_argv(cfg@, input_id@, sysname@, have_videotoolbox),
{
    let fps: u32 = cfg.capture.fps;
    let mjpeg = same(cfg.encoder.mode.as_str(), "mjpeg");
    let mut argv: Vec<String> = Vec::new();
    push_text(&mut argv, "ffmpeg");
    push_text(&mut argv, "-hide_banner");
    push_text(&mut argv, "-loglevel");
    if mjpeg {
        push_text(&mut argv, "error");
    } else {
        push_text(&mut argv, "info");
    }
    let ghost head = seq![
        "ffmpeg"@,
        "-hide_banner"@,
        "-loglevel"@,
        if mjpeg {
            "error"@
        } else {
            "info"@
        },
    ];
    assert(texts(argv@) =~= head);
    input_part(&mut argv, sysname, grab(cfg, input_id, sysname).as_str(), fps);
    push_sound(&mut argv, cfg, sysname);
    let ghost with_input = texts(argv@);
    push_text(&mut argv, "-vf");
    push_text(&mut argv, scale_filter(cfg, fps).as_str());
    assert(texts(argv@) =~= with_input + seq!["-vf"@, filter_of(cfg@, fps)]);
    if mjpeg {
        push_mjpeg(&mut argv, cfg.capture.jpeg_quality);
        return argv;
    }
    let ghost body = texts(argv@);
    push_muxing(&mut argv);
    push_codec(&mut argv, cfg.encoder.mode.as_str(), sysname, have_videotoolbox);
    push_output(&mut argv, cfg.encoder.bitrate_kbps, cfg.encoder.gop_frames);
    assert(texts(argv@) =~= body + (quiet_muxing() + codec_args(
        cfg@.encoder.mode,
        sysname@,
        have_videotoolbox,
    ) + output_args(cfg@.encoder.bitrate_kbps, cfg@.encoder.gop_frames)));
    argv
}

/// The name that the rest goes by for an operating system.
pub fn sysname(os: &str) -> (s: &'static str)
    ensures
        s@ == if os@ == "macos"@ {
            "Darwin"@
        } else if os@ == "windows"@ {
            "Windows"@
        } else {
            "Linux"@
        },
{
    if same(os, "macos") {
        "Darwin"
    } else if same(os, "windows") {
        "Windows"
    } else {
        "Linux"
    }
}

/// Whether the list of encoders that ffmpeg printed names the one in hardware.
pub fn have_videotoolbox(listing: &[u8]) -> (r: bool)
    ensures
        r == has_part(lossy(listing@), "h264_videotoolbox"@),
{
    contains(lossy_text(listing).as_str(), "h264_videotoolbox")
}

/// Whether the stream carries sound: only H.264 and HEVC on macOS do.
pub open spec fn wants_audio(c: ConfigFacts, sysname: Seq<char>) -> bool {
    c.capture.audio && sysname == "Darwin"@ && c.encoder.mode != "mjpeg"@
}

pub fn capture_wants_audio(cfg: &Config, sysname: &str) -> (r: bool)
    ensures
        r == wants_audio(cfg@, sysname@),
{
    cfg.capture.audio && same(sysname, "Darwin") && !same(cfg.encoder.mode.as_str(), "mjpeg")
}

/// The buffer holds no more than half a second of video, and no frame waits
/// for a later one.
pub proof fn stream_has_low_latency(
    c: ConfigFacts,
    input: Seq<char>,
    sysname: Seq<char>,
    videotoolbox: bool,
)
    requires
        c.encoder.mode != "mjpeg"@,
    ensures
        ({
            let v = ffmpeg_argv(c, input, sysname, videotoolbox);
            &&& exists|i: int|
                0 <= i < v.len() - 1 && #[trigger] v[i] == "-bufsize"@ && v[i + 1] == decimal(
                    half_second(c.encoder.bitrate_kbps),
                ) + "k"@
            &&& exists|i: int| 0 <= i < v.len() - 1 && #[trigger] v[i] == "-bf"@ && v[i + 1] == "0"@
        }),
{
    let v = ffmpeg_argv(c, input, sysname, videotoolbox);
    let codec = codec_args(c.encoder.mode, sysname, videotoolbox);
    let out = output_args(c.encoder.bitrate_kbps, c.encoder.gop_frames);
    let at: int = sound_args(c, sysname).len() + 22int;
    assert(v.len() == at + codec.len() + 19);
    let b: int = at + codec.len() + 4;
    assert(v[b] == out[4]);
    assert(v[b + 1] == out[5]);
    assert(v[at + 8] == codec[8]);
    assert(v[at + 9] == codec[9]);
}

/// Whether a command gives an option that value: the value stands right behind
/// the option's name.
pub open spec fn has_option(v: Seq<Seq<char>>, name: Seq<char>, value: Seq<char>) -> bool {
    exists|i: int| 0 <= i < v.len() - 1 && #[trigger] v[i] == name && v[i + 1] == value
}

/// What stands behind a name is its value.
pub proof fn option_at(v: Seq<Seq<char>>, i: int)
    requires
        0 <= i < v.len() - 1,
    ensures
        has_option(v, v[i], v[i + 1]),
{
}

proof fn mp4_flags_hold()
    ensures
        has_part("frag_keyframe+empty_moov+default_base_moof"@, "frag_keyframe"@),
        has_part("frag_keyframe+empty_moov+default_base_moof"@, "empty_moov"@),
        has_part("frag_keyframe+empty_moov+default_base_moof"@, "default_base_moof"@),
{
    let s = "frag_keyframe+empty_moov+default_base_moof"@;
    reveal_strlit("frag_keyframe+empty_moov+default_base_moof");
    reveal_strlit("frag_keyframe");
    reveal_strlit("empty_moov");
    reveal_strlit("default_base_moof");
    part_at(s, "frag_keyframe"@, 0);
    part_at(s, "empty_moov"@, 14);
    part_at(s, "default_base_moof"@, 25);
}

/// Video goes to the standard output as MP4 that can be watched while it is
/// made: nothing comes first but an empty header, and each fragment starts at a
/// key frame and stands by itself.
pub proof fn video_is_fragmented(
    c: ConfigFacts,
    input: Seq<char>,
    sysname: Seq<char>,
    videotoolbox: bool,
)
    requires
        c.encoder.mode != "mjpeg"@,
    ensures
        ({
            let v = ffmpeg_argv(c, input, sysname, videotoolbox);
            let n = v.len() as int;
            &&& n >= 19
            &&& v[n - 1] == "pipe:1"@
            &&& v[n - 3] == "-movflags"@
            &&& has_part(v[n - 2], "frag_keyframe"@)
            &&& has_part(v[n - 2], "empty_moov"@)
            &&& has_part(v[n - 2], "default_base_moof"@)
            &&& v[n - 5] == "-f"@ && v[n - 4] == "mp4"@
            &&& forall|i: int| n - 5 < i < n ==> #[trigger] v[i] != "-f"@
        }),
{
    let v = ffmpeg_argv(c, input, sysname, videotoolbox);
    let codec = codec_args(c.encoder.mode, sysname, videotoolbox);
    let out = output_args(c.encoder.bitrate_kbps, c.encoder.gop_frames);
    let at: int = sound_args(c, sysname).len() + 22int;
    let b: int = at + codec.len();
    assert(v.len() == b + 19);
    assert forall|k: int| 0 <= k < 19 implies v[b + k] == #[trigger] out[k] by {}
    assert(v[b + 14] == out[14] && v[b + 15] == out[15] && v[b + 16] == out[16] && v[b + 17]
        == out[17] && v[b + 18] == out[18]);
    mp4_flags_hold();
    reveal_strlit("-f");
    reveal_strlit("mp4");
    reveal_strlit("-movflags");
    reveal_strlit("pipe:1");
    reveal_strlit("frag_keyframe+empty_moov+default_base_moof");
    assert("-f"@.len() == 2 && "mp4"@.len() == 3 && "-movflags"@.len() == 9 && "pipe:1"@.len() == 6
        && "frag_keyframe+empty_moov+default_base_moof"@.len() == 42);
}

/// Pictures one by one go to the standard output as JPEG, in the quality that
/// is set, and without a sound.
pub proof fn pictures_are_jpeg(
    c: ConfigFacts,
    input: Seq<char>,
    sysname: Seq<char>,
    videotoolbox: bool,
)
    requires
        c.encoder.mode == "mjpeg"@,
    ensures
        ({
            let v = ffmpeg_argv(c, input, sysname, videotoolbox);
            let n = v.len() as int;
            &&& n == 20
            &&& v[n - 1] == "pipe:1"@
            &&& v[n - 3] == "-f"@ && v[n - 2] == "mjpeg"@
            &&& v[n - 5] == "-q:v"@ && digits_value(v[n - 4]) == quantizer(c.capture.jpeg_quality)
            &&& v[n - 7] == "-c:v"@ && v[n - 6] == "mjpeg"@
            &&& has_option(v, "-loglevel"@, "error"@)
            &&& v.contains("-an"@)
        }),
{
    let v = ffmpeg_argv(c, input, sysname, videotoolbox);
    let m = mjpeg_args(c.capture.jpeg_quality);
    assert(v.len() == 20);
    assert forall|k: int| 0 <= k < 7 implies v[13 + k] == #[trigger] m[k] by {}
    assert(v[13] == m[0] && v[14] == m[1] && v[15] == m[2] && v[16] == m[3] && v[17] == m[4]
        && v[18] == m[5] && v[19] == m[6]);
    crate::text::decimal_reads_back(quantizer(c.capture.jpeg_quality));
    option_at(v, 2);
    assert(v[10] == "-an"@);
}

/// The rate is constant, the buffer holds half a second of it, and key frames
/// come as often as is set and no oftener.
pub proof fn rate_and_key_frames_are_as_set(
    c: ConfigFacts,
    input: Seq<char>,
    sysname: Seq<char>,
    videotoolbox: bool,
)
    requires
        c.encoder.mode != "mjpeg"@,
    ensures
        ({
            let v = ffmpeg_argv(c, input, sysname, videotoolbox);
            let rate = decimal(c.encoder.bitrate_kbps as nat).push('k');
            let gop = decimal(c.encoder.gop_frames as nat);
            &&& has_option(v, "-b:v"@, rate)
            &&& has_option(v, "-maxrate"@, rate)
            &&& c.encoder.bitrate_kbps >= 2 ==> has_option(
                v,
                "-bufsize"@,
                decimal((c.encoder.bitrate_kbps / 2) as nat).push('k'),
            )
            &&& c.encoder.bitrate_kbps < 2 ==> has_option(v, "-bufsize"@, seq!['1', 'k'])
            &&& has_option(v, "-g"@, gop)
            &&& has_option(v, "-keyint_min"@, gop)
            &&& has_option(v, "-sc_threshold"@, seq!['0'])
            &&& has_option(v, "-pix_fmt"@, "yuv420p"@)
            &&& has_option(v, "-loglevel"@, "info"@)
        }),
{
    let v = ffmpeg_argv(c, input, sysname, videotoolbox);
    let codec = codec_args(c.encoder.mode, sysname, videotoolbox);
    let kbps = c.encoder.bitrate_kbps;
    let out = output_args(kbps, c.encoder.gop_frames);
    let at: int = sound_args(c, sysname).len() + 22int;
    let b: int = at + codec.len();
    assert(v.len() == b + 19);
    assert forall|k: int| 0 <= k < 19 implies v[b + k] == #[trigger] out[k] by {}
    reveal_strlit("k");
    reveal_strlit("0");
    assert("0"@ =~= seq!['0']);
    assert(decimal(kbps as nat) + "k"@ =~= decimal(kbps as nat).push('k'));
    let half = half_second(kbps);
    assert(decimal(half) + "k"@ =~= decimal(half).push('k'));
    assert(decimal(1) =~= seq!['1']);
    assert(decimal(1).push('k') =~= seq!['1', 'k']);
    assert(v[b] == out[0] && v[b + 1] == out[1] && v[b + 2] == out[2] && v[b + 3] == out[3] && v[b
        + 4] == out[4] && v[b + 5] == out[5] && v[b + 6] == out[6] && v[b + 7] == out[7]);
    assert(v[b + 8] == out[8] && v[b + 9] == out[9] && v[b + 10] == out[10] && v[b + 11] == out[11]
        && v[b + 12] == out[12] && v[b + 13] == out[13]);
    option_at(v, b);
    option_at(v, b + 2);
    option_at(v, b + 4);
    option_at(v, b + 6);
    option_at(v, b + 8);
    option_at(v, b + 10);
    option_at(v, b + 12);
    option_at(v, 2);
}

/// No frame waits: nothing is buffered on the way, no frame leans on a later
/// one, and the encoder works in real time.
pub proof fn no_frame_waits(
    c: ConfigFacts,
    input: Seq<char>,
    sysname: Seq<char>,
    videotoolbox: bool,
)
    requires
        c.encoder.mode != "mjpeg"@,
    ensures
        ({
            let v = ffmpeg_argv(c, input, sysname, videotoolbox);
            let hardware = sysname == "Darwin"@ && (videotoolbox || c.encoder.mode == "hevc"@);
            &&& has_option(v, "-fflags"@, "+nobuffer+flush_packets"@)
            &&& has_option(v, "-flags"@, "+low_delay"@)
            &&& has_option(v, "-flush_packets"@, "1"@)
            &&& has_option(v, "-muxdelay"@, "0"@)
            &&& has_option(v, "-muxpreload"@, "0"@)
            &&& has_option(v, "-bf"@, "0"@)
            &&& hardware ==> has_option(v, "-realtime"@, "1"@) && has_option(v, "-allow_sw"@, "1"@)
            &&& !hardware ==> has_option(v, "-tune"@, "zerolatency"@) && has_option(
                v,
                "-preset"@,
                "veryfast"@,
            ) && has_option(v, "-c:v"@, "libx264"@) && has_option(v, "-profile:v"@, "high"@)
                && has_option(
                v,
                "-x264-params"@,
                "nal-hrd=cbr:force-cfr=1:sliced-threads=1:rc-lookahead=0:sync-lookahead=0:bframes=0:repeat-headers=1"@,
            )
            &&& hardware && c.encoder.mode == "hevc"@ ==> has_option(
                v,
                "-c:v"@,
                "hevc_videotoolbox"@,
            ) && has_option(v, "-profile:v"@, "main"@)
            &&& hardware && c.encoder.mode != "hevc"@ ==> has_option(
                v,
                "-c:v"@,
                "h264_videotoolbox"@,
            ) && has_option(v, "-profile:v"@, "high"@)
        }),
{
    let v = ffmpeg_argv(c, input, sysname, videotoolbox);
    let q = quiet_muxing();
    let codec = codec_args(c.encoder.mode, sysname, videotoolbox);
    let at: int = sound_args(c, sysname).len() + 12int;
    assert(v.len() == at + 10 + codec.len() + 19);
    assert forall|k: int| 0 <= k < 10 implies v[at + k] == #[trigger] q[k] by {}
    assert(v[at] == q[0] && v[at + 1] == q[1] && v[at + 2] == q[2] && v[at + 3] == q[3] && v[at + 4]
        == q[4] && v[at + 5] == q[5] && v[at + 6] == q[6] && v[at + 7] == q[7] && v[at + 8] == q[8]
        && v[at + 9] == q[9]);
    option_at(v, at);
    option_at(v, at + 2);
    option_at(v, at + 4);
    option_at(v, at + 6);
    option_at(v, at + 8);
    let b: int = at + 10;
    assert forall|k: int| 0 <= k < codec.len() implies v[b + k] == #[trigger] codec[k] by {}
    assert(v[b] == codec[0] && v[b + 1] == codec[1] && v[b + 2] == codec[2] && v[b + 3] == codec[3]
        && v[b + 4] == codec[4] && v[b + 5] == codec[5] && v[b + 6] == codec[6] && v[b + 7]
        == codec[7] && v[b + 8] == codec[8] && v[b + 9] == codec[9]);
    option_at(v, b);
    option_at(v, b + 2);
    option_at(v, b + 4);
    option_at(v, b + 6);
    option_at(v, b + 8);
    if codec.len() == 12 {
        assert(v[b + 10] == codec[10] && v[b + 11] == codec[11]);
        option_at(v, b + 10);
    }
}

/// The screen is grabbed the way the system offers, as often as is set, and
/// every frame goes through the filter. Sound comes along where it is wanted
/// and nowhere else.
pub proof fn the_screen_is_grabbed(
    c: ConfigFacts,
    input: Seq<char>,
    sysname: Seq<char>,
    videotoolbox: bool,
)
    ensures
        ({
            let v = ffmpeg_argv(c, input, sysname, videotoolbox);
            let sound = c.capture.audio && sysname == "Darwin"@ && c.encoder.mode != "mjpeg"@;
            &&& v.len() > 12
            &&& v[0] == "ffmpeg"@
            &&& v[4] == "-f"@
            &&& sysname == "Darwin"@ ==> v[5] == "avfoundation"@
            &&& sysname == "Windows"@ ==> v[5] == "gdigrab"@ && v[9] == "desktop"@
            &&& sysname != "Darwin"@ && sysname != "Windows"@ ==> v[5] == "x11grab"@ && v[9] == input
            &&& v[6] == "-framerate"@ && digits_value(v[7]) == c.capture.fps
            &&& v[8] == "-i"@
            &&& sound ==> ends(v[9], ":"@ + c.capture.audio_input) && has_option(v, "-c:a"@, "aac"@)
            &&& !sound ==> v.contains("-an"@) && (sysname == "Darwin"@ ==> v[9] == input)
            &&& has_option(v, "-vf"@, filter_of(c, c.capture.fps))
        }),
{
    let v = ffmpeg_argv(c, input, sysname, videotoolbox);
    let s = sound_args(c, sysname);
    crate::text::decimal_reads_back(c.capture.fps as nat);
    reveal_strlit("Darwin");
    reveal_strlit("Windows");
    assert("Darwin"@.len() != "Windows"@.len());
    let i = input_args(sysname, grabbed(c, input, sysname), c.capture.fps);
    assert(v[4] == i[0] && v[5] == i[1] && v[6] == i[2] && v[7] == i[3] && v[8] == i[4] && v[9]
        == i[5]);
    let at: int = s.len() + 10int;
    assert(v[at] == "-vf"@);
    assert(v[at + 1] == filter_of(c, c.capture.fps));
    option_at(v, at);
    assert(v[10] == s[0]);
    if wants_audio(c, sysname) {
        assert(v[11] == s[1]);
        option_at(v, 10);
        let a = without_trailing(input, ':');
        let b = ":"@ + c.capture.audio_input;
        assert(v[9] =~= a + b);
        crate::text::joined_text_begins_and_ends(a, b);
    }
}

/// The sound device stands behind the screen, one colon between them.
pub proof fn sound_stands_behind_the_screen(c: ConfigFacts, screen: Seq<char>, sysname: Seq<char>)
    requires
        c.capture.audio,
        sysname == "Darwin"@,
        c.encoder.mode != "mjpeg"@,
        screen.len() > 0 ==> screen.last() != ':',
    ensures
        grabbed(c, screen, sysname) == screen + seq![':'] + c.capture.audio_input,
        grabbed(c, screen.push(':'), sysname) == screen + seq![':'] + c.capture.audio_input,
{
    reveal_strlit(":");
    assert(":"@ =~= seq![':']);
    assert(screen.push(':').drop_last() =~= screen);
    reveal_with_fuel(without_trailing, 2);
}

/// The filter throttles the frames to the rate, bounds the picture on both
/// sides, keeps its shape and makes both sides even.
pub proof fn filter_bounds_the_picture(c: ConfigFacts, fps: u32)
    ensures
        ({
            let f = filter_of(c, fps);
            &&& has_part(f, "fps="@ + decimal(fps as nat) + ","@)
            &&& has_part(f, "min("@ + decimal(c.encoder.max_width as nat) + "\\,iw"@)
            &&& has_part(f, "min("@ + decimal(c.encoder.max_height as nat) + "\\,ih"@)
            &&& has_part(f, ":force_original_aspect_ratio=decrease:"@)
            &&& has_part(f, "scale=trunc(iw/2)*2:trunc(ih/2)*2"@)
            &&& has_part(f, "flags=lanczos"@)
            &&& begins(f, "setpts=PTS-STARTPTS,"@)
        }),
{
    let f = filter_of(c, fps);
    let d = decimal(fps as nat);
    let w = side(c.encoder.max_width, "iw"@, c);
    let h = side(c.encoder.max_height, "ih"@, c);
    let head = "setpts=PTS-STARTPTS,fps="@;
    let tail =
        ":force_original_aspect_ratio=decrease:flags=lanczos,scale=trunc(iw/2)*2:trunc(ih/2)*2"@;
    let none = Seq::<char>::empty();
    reveal_strlit("setpts=PTS-STARTPTS,fps=");
    reveal_strlit("setpts=PTS-STARTPTS,");
    reveal_strlit("fps=");
    reveal_strlit(",");
    reveal_strlit(",scale=");
    assert(f.take(20) =~= "setpts=PTS-STARTPTS,"@);
    let rest = ",scale="@.skip(1) + w + ":"@ + h + tail;
    assert(f =~= head.take(20) + ("fps="@ + d + ","@) + rest);
    part_between(head.take(20), "fps="@ + d + ","@, rest);
    side_is_bounded(c.encoder.max_width, "iw"@, c);
    side_is_bounded(c.encoder.max_height, "ih"@, c);
    reveal_strlit("\\,");
    reveal_strlit("iw");
    reveal_strlit("ih");
    reveal_strlit("\\,iw");
    reveal_strlit("\\,ih");
    assert("\\,"@ + "iw"@ =~= "\\,iw"@);
    assert("\\,"@ + "ih"@ =~= "\\,ih"@);
    let pw = "min("@ + decimal(c.encoder.max_width as nat) + "\\,iw"@;
    let ph = "min("@ + decimal(c.encoder.max_height as nat) + "\\,ih"@;
    assert(pw =~= "min("@ + decimal(c.encoder.max_width as nat) + "\\,"@ + "iw"@);
    assert(ph =~= "min("@ + decimal(c.encoder.max_height as nat) + "\\,"@ + "ih"@);
    part_stays(head + d + ",scale="@, w, ":"@ + h + tail, pw);
    assert(head + d + ",scale="@ + w + (":"@ + h + tail) =~= f);
    part_stays(head + d + ",scale="@ + w + ":"@, h, tail, ph);
    assert(head + d + ",scale="@ + w + ":"@ + h + tail =~= f);
    filter_tail_holds();
    let front = head + d + ",scale="@ + w + ":"@ + h;
    part_stays(front, tail, none, ":force_original_aspect_ratio=decrease:"@);
    part_stays(front, tail, none, "scale=trunc(iw/2)*2:trunc(ih/2)*2"@);
    part_stays(front, tail, none, "flags=lanczos"@);
    assert(front + tail + none =~= f);
}

proof fn filter_tail_holds()
    ensures
        ({
            let t =
                ":force_original_aspect_ratio=decrease:flags=lanczos,scale=trunc(iw/2)*2:trunc(ih/2)*2"@;
            &&& has_part(t, ":force_original_aspect_ratio=decrease:"@)
            &&& has_part(t, "scale=trunc(iw/2)*2:trunc(ih/2)*2"@)
            &&& has_part(t, "flags=lanczos"@)
        }),
{
    let t =
        ":force_original_aspect_ratio=decrease:flags=lanczos,scale=trunc(iw/2)*2:trunc(ih/2)*2"@;
    reveal_strlit(
        ":force_original_aspect_ratio=decrease:flags=lanczos,scale=trunc(iw/2)*2:trunc(ih/2)*2",
    );
    reveal_strlit(":force_original_aspect_ratio=decrease:");
    reveal_strlit("scale=trunc(iw/2)*2:trunc(ih/2)*2");
    reveal_strlit("flags=lanczos");
    part_at(t, ":force_original_aspect_ratio=decrease:"@, 0);
    part_at(t, "flags=lanczos"@, 38);
    part_at(t, "scale=trunc(iw/2)*2:trunc(ih/2)*2"@, 52);
}

proof fn side_is_bounded(max: u32, axis: Seq<char>, c: ConfigFacts)
    ensures
        has_part(side(max, axis, c), "min("@ + decimal(max as nat) + "\\,"@ + axis),
{
    let s = side(max, axis, c);
    let p = "min("@ + decimal(max as nat) + "\\,"@ + axis;
    let none = Seq::<char>::empty();
    assert(s =~= none + p + s.skip(p.len() as int));
    part_between(none, p, s.skip(p.len() as int));
}

/// A side is scaled by what is set, and not at all where that is one.
pub proof fn side_is_scaled(max: u32, axis: Seq<char>, c: ConfigFacts)
    ensures
        c.capture.scale.bits == 0x3ff0_0000_0000_0000 ==> side(max, axis, c) == "min("@ + decimal(
            max as nat,
        ) + "\\,"@ + axis + ")"@,
        c.capture.scale.bits < 0x3fef_ffff_ff76_8fa1 || c.capture.scale.bits > 0x3ff0_0000_0044_b82f
            ==> side(max, axis, c) == "min("@ + decimal(max as nat) + "\\,"@ + axis + "*"@ + plain(
            c.capture.scale.text,
        ) + ")"@,
{
    if c.capture.scale.bits == 0x3ff0_0000_0000_0000 {
        assert(side(max, axis, c) =~= "min("@ + decimal(max as nat) + "\\,"@ + axis + ")"@);
    } else {
        assert("min("@ + decimal(max as nat) + "\\,"@ + axis + ("*"@ + plain(c.capture.scale.text))
            + ")"@ =~= "min("@ + decimal(max as nat) + "\\,"@ + axis + "*"@ + plain(
            c.capture.scale.text,
        ) + ")"@);
    }
}

/// The quantizer lies between 2 and 31, is the whole number nearest to the line
/// from 31 at 30 percent to 2 at 95 percent, and never grows with the quality.
pub proof fn better_pictures_are_quantized_less(a: u32, b: u32)
    requires
        a <= b,
    ensures
        2 <= quantizer(b) <= quantizer(a) <= 31,
        a <= 30 ==> quantizer(a) == 31,
        b >= 95 ==> quantizer(b) == 2,
        30 <= a <= 95 ==> -65 <= 2 * (65 * (quantizer(a) - 2) - 29 * (95 - a)) <= 65,
{
}

/// A number without an exponent keeps its text, but for a fraction of zero,
/// which falls away.
pub proof fn zero_fraction_falls_away(t: Seq<char>)
    requires
        forall|i: int| 0 <= i < t.len() ==> #[trigger] t[i] != 'e',
    ensures
        plain(t + ".0"@) == t,
        !ends(t, ".0"@) ==> plain(t) == t,
{
    reveal_strlit(".0");
    let s = t + ".0"@;
    assert forall|i: int| 0 <= i < s.len() implies #[trigger] s[i] != 'e' by {
        if i < t.len() {
            assert(s[i] == t[i]);
        }
    }
    crate::text::char_at_found(s, 'e', 0);
    crate::text::char_at_found(t, 'e', 0);
    crate::text::joined_text_begins_and_ends(t, ".0"@);
    assert(s.take(s.len() - 2) =~= t);
}

/// Moving the point keeps every digit in its order and fills up with zeros.
pub proof fn moving_the_point_keeps_digits(d: Seq<char>, at: int)
    ensures
        0 < at < d.len() ==> pointed(d, at).len() == d.len() + 1 && pointed(d, at)[at] == '.'
            && pointed(d, at).take(at) == d.take(at) && pointed(d, at).skip(at + 1) == d.skip(at),
        at >= d.len() && at > 0 ==> pointed(d, at).len() == at && pointed(d, at).take(d.len() as int) == d && forall|
            i: int,
        |
            d.len() <= i < at ==> #[trigger] pointed(d, at)[i] == '0',
        at <= 0 ==> pointed(d, at).len() == 2 - at + d.len() && pointed(d, at)[0] == '0' && pointed(
            d,
            at,
        )[1] == '.' && pointed(d, at).skip(2 - at) == d && forall|i: int|
            2 <= i < 2 - at ==> #[trigger] pointed(d, at)[i] == '0',
{
    reveal_strlit(".");
    reveal_strlit("0.");
    let p = pointed(d, at);
    if at <= 0 {
        assert(p.skip(2 - at) =~= d);
    } else if at >= d.len() {
        assert(p.take(d.len() as int) =~= d);
    } else {
        assert(p.take(at) =~= d.take(at));
        assert(p.skip(at + 1) =~= d.skip(at));
    }
}

/// A number with an exponent has its point moved by it: to the right where it
/// is positive, to the left where it is negative.
pub proof fn exponents_move_the_point(whole: Seq<char>, fraction: Seq<char>, x: Seq<char>)
    requires
        all_digits(whole),
        all_digits(fraction),
        0 < x.len() <= 3,
        all_digits(x),
    ensures
        plain(whole + seq!['.'] + fraction + seq!['e'] + x) == pointed(
            whole + fraction,
            (whole.len() + digits_value(x)) as int,
        ),
        plain(whole + seq!['.'] + fraction + seq!['e', '-'] + x) == pointed(
            whole + fraction,
            whole.len() - digits_value(x),
        ),
{
    let m = whole + seq!['.'] + fraction;
    let a = m + seq!['e'] + x;
    let b = m + seq!['e', '-'] + x;
    assert forall|i: int| 0 <= i < m.len() implies #[trigger] m[i] != 'e' by {
        if i < whole.len() {
            assert(m[i] == whole[i]);
        } else if i > whole.len() {
            assert(m[i] == fraction[i - whole.len() - 1]);
        }
    }
    crate::text::char_is_first(a, 'e', m.len() as int);
    crate::text::char_is_first(b, 'e', m.len() as int);
    assert(a.take(m.len() as int) =~= m);
    assert(b.take(m.len() as int) =~= m);
    let k = m.len() as int;
    assert(a.skip(k + 1) =~= x);
    assert(b.skip(k + 1) =~= seq!['-'] + x);
    assert((seq!['-'] + x).skip(1) =~= x);
    assert(is_digit(x[0]));
    crate::text::char_is_first(m, '.', whole.len() as int);
    assert(m.take(whole.len() as int) =~= whole);
    assert(m.skip(whole.len() + 1int) =~= fraction);
    assert(m[0] != '-') by {
        if whole.len() > 0 {
            assert(m[0] == whole[0]);
        }
    }
}

} // verus!
