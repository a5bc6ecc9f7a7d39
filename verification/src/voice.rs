//! Watcher microphone → host speakers.

use crate::encoder::{has_option, option_at};
use crate::octets::extend;
use crate::text::{decimal, decimal_text, push_text, texts};
use vstd::prelude::*;

verus! {

pub const VOICE_MAX: usize = 48 * 1024;

pub const VOICE_RATE: u32 = 16_000;

/// A sample rate that is played as it is; any other counts as the usual one.
pub open spec fn rate_of(rate: u32) -> u32 {
    if rate == 8_000 || rate == 16_000 || rate == 24_000 {
        rate
    } else {
        VOICE_RATE
    }
}

pub fn clamp_rate(rate: u32) -> (r: u32)
    ensures
        r == rate_of(rate),
{
    if rate == 8_000 || rate == 16_000 || rate == 24_000 {
        rate
    } else {
        VOICE_RATE
    }
}

/// Whole samples, at least one, no more than fit in a message.
pub open spec fn playable(pcm: Seq<u8>) -> bool {
    2 <= pcm.len() <= VOICE_MAX && pcm.len() % 2 == 0
}

pub fn accept_pcm(pcm: Vec<u8>) -> (r: Option<Vec<u8>>)
    ensures
        match r {
            Some(v) => playable(pcm@) && v@ == pcm@,
            None => !playable(pcm@),
        },
{
    if pcm.len() < 2 || pcm.len() > VOICE_MAX || pcm.len() % 2 != 0 {
        None
    } else {
        Some(pcm)
    }
}

/// A number in two bytes, the lowest first.
pub open spec fn le16(n: nat) -> Seq<u8> {
    seq![(n % 256) as u8, (n / 256 % 256) as u8]
}

/// A number in four bytes, the lowest first.
pub open spec fn le32(n: nat) -> Seq<u8> {
    le16(n % 65536) + le16(n / 65536)
}

fn push_le16(out: &mut Vec<u8>, n: u16)
    ensures
        final(out)@ == old(out)@ + le16(n as nat),
{
    let ghost before = out@;
    out.push((n % 256) as u8);
    out.push((n / 256) as u8);
    assert(out@ =~= before + le16(n as nat));
}

fn push_le32(out: &mut Vec<u8>, n: u32)
    ensures
        final(out)@ == old(out)@ + le32(n as nat),
{
    let ghost before = out@;
    push_le16(out, (n % 65536) as u16);
    push_le16(out, (n / 65536) as u16);
    assert(out@ =~= before + le32(n as nat));
}

/// The header of a WAVE file with one channel of 16-bit samples.
pub open spec fn wav_header(data_len: nat, rate: nat) -> Seq<u8> {
    seq![82u8, 73, 70, 70] + le32(36 + data_len) + seq![87u8, 65, 86, 69, 102, 109, 116, 32] + le32(
        16,
    ) + le16(1) + le16(1) + le32(rate) + le32(2 * rate) + le16(2) + le16(16) + seq![
        100u8,
        97,
        116,
        97,
    ] + le32(data_len)
}

pub fn wav_from_pcm_s16le(pcm: &[u8], rate: u32) -> (out: Vec<u8>)
    requires
        pcm@.len() + 36 <= u32::MAX,
    ensures
        out@ == wav_header(pcm@.len(), rate_of(rate) as nat) + pcm@,
{
    let rate: u32 = clamp_rate(rate);
    let data_len: u32 = pcm.len() as u32;
    let mut out: Vec<u8> = Vec::new();
    // "RIFF"
    out.push(82);
    out.push(73);
    out.push(70);
    out.push(70);
    push_le32(&mut out, 36 + data_len);
    // "WAVEfmt "
    let fmt: [u8; 8] = [87, 65, 86, 69, 102, 109, 116, 32];
    assert(fmt@ =~= seq![87u8, 65, 86, 69, 102, 109, 116, 32]);
    extend(&mut out, fmt.as_slice());
    push_le32(&mut out, 16);
    push_le16(&mut out, 1);
    push_le16(&mut out, 1);
    push_le32(&mut out, rate);
    push_le32(&mut out, rate * 2);
    push_le16(&mut out, 2);
    push_le16(&mut out, 16);
    // "data"
    let data: [u8; 4] = [100, 97, 116, 97];
    assert(data@ =~= seq![100u8, 97, 116, 97]);
    extend(&mut out, data.as_slice());
    push_le32(&mut out, data_len);
    assert(out@ =~= wav_header(pcm@.len(), rate as nat));
    extend(&mut out, pcm);
    out
}

/// The header is 44 bytes, and the samples follow it unchanged.
pub proof fn samples_follow_the_header(pcm: Seq<u8>, rate: u32)
    ensures
        wav_header(pcm.len(), rate_of(rate) as nat).len() == 44,
        (wav_header(pcm.len(), rate_of(rate) as nat) + pcm).skip(44) == pcm,
{
    assert((wav_header(pcm.len(), rate_of(rate) as nat) + pcm).skip(44) =~= pcm);
}

pub trait VoiceSink {
    fn play_pcm(&mut self, pcm: &[u8], rate: u32);
}

/// Mute the default input while Talk plays so Capture audio does not loop the speakers.
pub fn should_duck_mic(capture_audio: bool) -> (r: bool)
    ensures
        r == capture_audio,
{
    capture_audio
}

/// How long the microphone stays muted after the last sound, in nanoseconds.
pub const MIC_DUCK_HOLD: u64 = 750_000_000;

pub trait MicDuck {
    fn set_ducked(&mut self, on: bool) {
    }

    fn is_ducked(&self) -> (r: bool)
        default_ensures
            !r,
    {
        false
    }
}

/// A microphone that only remembers whether it is muted.
#[derive(Clone, Copy, Debug)]
pub struct FakeDuck {
    pub ducked: bool,
}

impl FakeDuck {
    pub fn new() -> (d: Self)
        ensures
            !d.ducked,
    {
        FakeDuck { ducked: false }
    }
}

impl MicDuck for FakeDuck {
    fn set_ducked(&mut self, on: bool)
        ensures
            final(self).ducked == on,
    {
        self.ducked = on;
    }

    fn is_ducked(&self) -> (r: bool)
        ensures
            r == self.ducked,
    {
        self.ducked
    }
}

/// A host whose microphone is never muted.
pub struct NullDuck;

impl MicDuck for NullDuck {

}

/// What to do to the volume of the microphone.
#[derive(Clone, Copy, Debug, PartialEq, Eq, Structural)]
pub enum Volume {
    Keep,
    /// Note the volume, then set it to zero.
    Silence,
    /// Set it back to what it was, by its bits.
    Restore(u32),
}

/// A microphone that is muted by its volume, which is remembered meanwhile.
#[derive(Clone, Copy, Debug, PartialEq, Eq, Structural)]
pub struct Ducking {
    pub saved: Option<u32>,
    pub on: bool,
}

impl Ducking {
    pub fn new() -> (d: Self)
        ensures
            d == (Ducking { saved: None, on: false }),
    {
        Ducking { saved: None, on: false }
    }

    pub open spec fn asks(self, on: bool) -> Volume {
        match (on, self.saved) {
            (true, None) => Volume::Silence,
            (false, Some(b)) => Volume::Restore(b),
            _ => Volume::Keep,
        }
    }

    pub open spec fn told(self, on: bool) -> Ducking {
        match (on, self.saved) {
            (false, Some(_)) => Ducking { saved: None, on: false },
            _ => self,
        }
    }

    pub open spec fn with_silence(self, before: Option<u32>, set: bool) -> Ducking {
        match (before, set) {
            (Some(b), true) => Ducking { saved: Some(b), on: true },
            _ => self,
        }
    }

    /// What muting or unmuting asks for. Muting twice asks for nothing more.
    pub fn set_ducked(&mut self, on: bool) -> (v: Volume)
        ensures
            v == old(self).asks(on),
            *final(self) == old(self).told(on),
    {
        if on {
            if self.saved.is_some() {
                Volume::Keep
            } else {
                Volume::Silence
            }
        } else {
            match self.saved {
                Some(b) => {
                    self.saved = None;
                    self.on = false;
                    Volume::Restore(b)
                },
                None => Volume::Keep,
            }
        }
    }

    /// The volume was `before`, where it could be read, and is zero now, where
    /// it could be set.
    pub fn silenced(&mut self, before: Option<u32>, set: bool)
        ensures
            *final(self) == old(self).with_silence(before, set),
    {
        match before {
            Some(b) => if set {
                self.saved = Some(b);
                self.on = true;
            },
            None => {},
        }
    }
}

/// A muted microphone is not muted again, and unmuting it sets its volume back
/// to what it was.
pub proof fn ducking_restores_the_volume(d: Ducking, before: u32)
    ensures
        ({
            let muted = d.with_silence(Some(before), true);
            &&& muted.asks(true) == Volume::Keep
            &&& muted.told(true) == muted
            &&& muted.asks(false) == Volume::Restore(before)
            &&& muted.told(false).asks(false) == Volume::Keep
        }),
{
}

/// A sink that only remembers what it was given.
#[derive(Debug)]
pub struct FakeVoice {
    pub takes: Vec<(u32, Vec<u8>)>,
}

pub open spec fn takes_of(v: Seq<(u32, Vec<u8>)>) -> Seq<(u32, Seq<u8>)> {
    Seq::new(v.len(), |i: int| (v[i].0, v[i].1@))
}

impl FakeVoice {
    pub fn new() -> (v: Self)
        ensures
            takes_of(v.takes@) == Seq::<(u32, Seq<u8>)>::empty(),
    {
        let v = FakeVoice { takes: Vec::new() };
        assert(takes_of(v.takes@) =~= Seq::<(u32, Seq<u8>)>::empty());
        v
    }

    pub fn recorded(&self) -> (r: &Vec<(u32, Vec<u8>)>)
        ensures
            takes_of(r@) == takes_of(self.takes@),
    {
        &self.takes
    }
}

impl VoiceSink for FakeVoice {
    fn play_pcm(&mut self, pcm: &[u8], rate: u32)
        ensures
            takes_of(final(self).takes@) == takes_of(old(self).takes@).push((rate_of(rate), pcm@)),
    {
        let ghost before = takes_of(self.takes@);
        let mut data: Vec<u8> = Vec::new();
        extend(&mut data, pcm);
        self.takes.push((clamp_rate(rate), data));
        assert(data@ =~= pcm@);
        assert(takes_of(self.takes@) =~= before.push((rate_of(rate), pcm@)));
    }
}

/// A host without speakers.
pub struct NullVoice;

impl VoiceSink for NullVoice {
    fn play_pcm(&mut self, _pcm: &[u8], _rate: u32) {
    }
}

pub open spec fn audiotoolbox_args(rate: u32) -> Seq<Seq<char>> {
    seq![
        "-nostdin"@,
        "-hide_banner"@,
        "-loglevel"@,
        "error"@,
        "-f"@,
        "s16le"@,
        "-ar"@,
        decimal(rate_of(rate) as nat),
        "-ac"@,
        "1"@,
        "-i"@,
        "pipe:0"@,
        "-f"@,
        "audiotoolbox"@,
        "default"@,
    ]
}

pub fn ffmpeg_audiotoolbox_argv(rate: u32) -> (argv: Vec<String>)
    ensures
        texts(argv@) == audiotoolbox_args(rate),
{
    let mut argv: Vec<String> = Vec::new();
    push_text(&mut argv, "-nostdin");
    push_text(&mut argv, "-hide_banner");
    push_text(&mut argv, "-loglevel");
    push_text(&mut argv, "error");
    push_text(&mut argv, "-f");
    push_text(&mut argv, "s16le");
    push_text(&mut argv, "-ar");
    push_text(&mut argv, decimal_text(clamp_rate(rate) as u64).as_str());
    push_text(&mut argv, "-ac");
    push_text(&mut argv, "1");
    push_text(&mut argv, "-i");
    push_text(&mut argv, "pipe:0");
    push_text(&mut argv, "-f");
    push_text(&mut argv, "audiotoolbox");
    push_text(&mut argv, "default");
    assert(texts(argv@) =~= audiotoolbox_args(rate));
    argv
}

pub open spec fn ffplay_args(rate: u32) -> Seq<Seq<char>> {
    seq![
        "-nodisp"@,
        "-loglevel"@,
        "error"@,
        "-fflags"@,
        "nobuffer"@,
        "-flags"@,
        "low_delay"@,
        "-probesize"@,
        "32"@,
        "-analyzeduration"@,
        "0"@,
        "-f"@,
        "s16le"@,
        "-ar"@,
        decimal(rate_of(rate) as nat),
        "-ac"@,
        "1"@,
        "-i"@,
        "pipe:0"@,
    ]
}

pub fn ffplay_voice_argv(rate: u32) -> (argv: Vec<String>)
    ensures
        texts(argv@) == ffplay_args(rate),
{
    let mut argv: Vec<String> = Vec::new();
    push_text(&mut argv, "-nodisp");
    push_text(&mut argv, "-loglevel");
    push_text(&mut argv, "error");
    push_text(&mut argv, "-fflags");
    push_text(&mut argv, "nobuffer");
    push_text(&mut argv, "-flags");
    push_text(&mut argv, "low_delay");
    push_text(&mut argv, "-probesize");
    push_text(&mut argv, "32");
    push_text(&mut argv, "-analyzeduration");
    push_text(&mut argv, "0");
    push_text(&mut argv, "-f");
    push_text(&mut argv, "s16le");
    push_text(&mut argv, "-ar");
    push_text(&mut argv, decimal_text(clamp_rate(rate) as u64).as_str());
    push_text(&mut argv, "-ac");
    push_text(&mut argv, "1");
    push_text(&mut argv, "-i");
    push_text(&mut argv, "pipe:0");
    assert(texts(argv@) =~= ffplay_args(rate));
    argv
}

pub open spec fn commands(v: Seq<(&str, Vec<String>)>) -> Seq<(Seq<char>, Seq<Seq<char>>)> {
    Seq::new(v.len(), |i: int| (v[i].0@, texts(v[i].1@)))
}

/// The players to try, in this order.
pub fn voice_player_candidates(rate: u32, macos: bool) -> (out: Vec<(&'static str, Vec<String>)>)
    ensures
        commands(out@) == if macos {
            seq![("ffmpeg"@, audiotoolbox_args(rate)), ("ffplay"@, ffplay_args(rate))]
        } else {
            seq![("ffplay"@, ffplay_args(rate))]
        },
{
    let mut out: Vec<(&'static str, Vec<String>)> = Vec::new();
    if macos {
        out.push(("ffmpeg", ffmpeg_audiotoolbox_argv(rate)));
    }
    out.push(("ffplay", ffplay_voice_argv(rate)));
    assert(commands(out@) =~= if macos {
        seq![("ffmpeg"@, audiotoolbox_args(rate)), ("ffplay"@, ffplay_args(rate))]
    } else {
        seq![("ffplay"@, ffplay_args(rate))]
    });
    out
}

/// How many pieces may be played as files of their own at a time.
pub const ONE_SHOTS: u32 = 3;

/// Whether a piece is played as a file of its own, while `inflight` others are.
/// A piece that has no place in a WAV file is not.
pub fn plays_alone(inflight: u32, len: usize) -> (r: bool)
    ensures
        r == (inflight < ONE_SHOTS && len <= 0xffff_ffff - 36),
{
    inflight < ONE_SHOTS && len as u64 <= 0xffff_ffff - 36
}

/// The number that two bytes stand for, the first counting least.
pub open spec fn small_first(s: Seq<u8>, i: int) -> int {
    s[i] + 256 * s[i + 1]
}

/// The number that four bytes stand for, the first counting least.
pub open spec fn smallest_first(s: Seq<u8>, i: int) -> int {
    small_first(s, i) + 65536 * small_first(s, i + 2)
}

/// A sound file begins with a header that says what follows: one channel of
/// 16-bit samples at the rate, and how many bytes of them there are.
pub proof fn header_says_what_follows(n: nat, rate: nat)
    requires
        n + 36 <= 0xffff_ffff,
        rate <= 96_000,
    ensures
        ({
            let h = wav_header(n, rate);
            &&& h.len() == 44
            &&& h.subrange(0, 4) == seq![82u8, 73, 70, 70]
            &&& smallest_first(h, 4) == n + 36
            &&& h.subrange(8, 16) == seq![87u8, 65, 86, 69, 102, 109, 116, 32]
            &&& smallest_first(h, 16) == 16
            &&& small_first(h, 20) == 1
            &&& small_first(h, 22) == 1
            &&& smallest_first(h, 24) == rate
            &&& smallest_first(h, 28) == 2 * rate
            &&& small_first(h, 32) == 2
            &&& small_first(h, 34) == 16
            &&& h.subrange(36, 40) == seq![100u8, 97, 116, 97]
            &&& smallest_first(h, 40) == n
        }),
{
    let h = wav_header(n, rate);
    assert(h.subrange(0, 4) =~= seq![82u8, 73, 70, 70]);
    assert(h.subrange(8, 16) =~= seq![87u8, 65, 86, 69, 102, 109, 116, 32]);
    assert(h.subrange(36, 40) =~= seq![100u8, 97, 116, 97]);
}

/// Speech is played at 8, 16 or 24 kHz, and at 16 where another rate is asked
/// for.
pub proof fn rates_are_known(rate: u32)
    ensures
        rate == 8_000 || rate == 16_000 || rate == 24_000 ==> rate_of(rate) == rate,
        rate != 8_000 && rate != 24_000 ==> rate_of(rate) == 16_000,
{
}

/// Speech is played where it is whole samples, at least one and at most 48
/// KiB.
pub proof fn whole_samples_are_played(pcm: Seq<u8>)
    ensures
        playable(pcm) <==> pcm.len() % 2 == 0 && 0 < pcm.len() <= 49_152,
{
}

/// The players read samples of one channel at the rate from their input.
pub proof fn players_read_the_samples(rate: u32)
    ensures
        ({
            let a = audiotoolbox_args(rate);
            let f = ffplay_args(rate);
            let hz = decimal(rate_of(rate) as nat);
            &&& has_option(a, "-f"@, "s16le"@) && has_option(f, "-f"@, "s16le"@)
            &&& has_option(a, "-ar"@, hz) && has_option(f, "-ar"@, hz)
            &&& has_option(a, "-ac"@, "1"@) && has_option(f, "-ac"@, "1"@)
            &&& has_option(a, "-i"@, "pipe:0"@) && has_option(f, "-i"@, "pipe:0"@)
            &&& has_option(a, "-f"@, "audiotoolbox"@) && a.last() == "default"@
            &&& a.contains("-nostdin"@) && f.contains("-nodisp"@)
            &&& has_option(f, "-fflags"@, "nobuffer"@) && has_option(f, "-flags"@, "low_delay"@)
            &&& has_option(f, "-probesize"@, "32"@) && has_option(f, "-analyzeduration"@, "0"@)
            &&& has_option(a, "-loglevel"@, "error"@) && has_option(f, "-loglevel"@, "error"@)
            &&& a.len() == 15 && f.len() == 19
        }),
{
    let a = audiotoolbox_args(rate);
    let f = ffplay_args(rate);
    option_at(a, 2);
    option_at(a, 4);
    option_at(a, 6);
    option_at(a, 8);
    option_at(a, 10);
    option_at(a, 12);
    assert(a[0] == "-nostdin"@);
    assert(f[0] == "-nodisp"@);
    option_at(f, 1);
    option_at(f, 3);
    option_at(f, 5);
    option_at(f, 7);
    option_at(f, 9);
    option_at(f, 11);
    option_at(f, 13);
    option_at(f, 15);
    option_at(f, 17);
}

/// The volume is silenced once and restored once: a second request for the same
/// changes nothing.
pub proof fn ducking_is_asked_once(d: Ducking, before: u32)
    ensures
        d.saved is None ==> d.asks(true) == Volume::Silence && d.told(true) == d && d.asks(false)
            == Volume::Keep && d.told(false) == d,
        d.saved == Some(before) ==> d.asks(true) == Volume::Keep && d.asks(false) == Volume::Restore(
            before,
        ) && d.told(false) == (Ducking { saved: None, on: false }),
        d.with_silence(Some(before), true) == (Ducking { saved: Some(before), on: true }),
        d.with_silence(None, true) == d,
        d.with_silence(Some(before), false) == d,
{
}

} // verus!
