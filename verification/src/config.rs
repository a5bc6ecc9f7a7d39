//! Config: defaults, bounds, patches. Unknown keys are ignored.

use crate::float::{is_less, less, HALF, ONE, QUARTER};
use crate::otp::{digest_text, is_digest_text, sha256_hex};
use crate::text::{
    chars_of, is_digit, is_white, lower, lowercase, opt_text, same, trim, trim_end_char, trimmed,
    without_trailing,
};
use crate::wol::is_hex;
use vstd::prelude::*;

pub use crate::patch::{redact_access, take_access_password};

verus! {

/// A factor by which the picture is scaled: a double and its text in JSON.
#[derive(Debug)]
pub struct Scale {
    pub bits: u64,
    pub text: String,
}

#[verifier::ext_equal]
pub ghost struct ScaleFacts {
    pub bits: u64,
    pub text: Seq<char>,
}

impl View for Scale {
    type V = ScaleFacts;

    open spec fn view(&self) -> ScaleFacts {
        ScaleFacts { bits: self.bits, text: self.text@ }
    }
}

impl Scale {
    pub fn one() -> (s: Scale)
        ensures
            s@ == (ScaleFacts { bits: ONE, text: "1.0"@ }),
    {
        Scale { bits: ONE, text: "1.0".to_owned() }
    }

    pub fn copy(&self) -> (s: Scale)
        ensures
            s@ == self@,
    {
        Scale { bits: self.bits, text: self.text.clone() }
    }
}

#[derive(Debug)]
pub struct CaptureConfig {
    pub driver: String,
    pub input: String,
    pub fps: u32,
    pub scale: Scale,
    pub jpeg_quality: u32,
    /// macOS avfoundation microphone into the live fMP4 (H.264/HEVC only).
    pub audio: bool,
    /// avfoundation audio device index (`0` = default mic; BlackHole/Loopback for system audio).
    pub audio_input: String,
}

#[verifier::ext_equal]
pub ghost struct CaptureFacts {
    pub driver: Seq<char>,
    pub input: Seq<char>,
    pub fps: u32,
    pub scale: ScaleFacts,
    pub jpeg_quality: u32,
    pub audio: bool,
    pub audio_input: Seq<char>,
}

impl View for CaptureConfig {
    type V = CaptureFacts;

    open spec fn view(&self) -> CaptureFacts {
        CaptureFacts {
            driver: self.driver@,
            input: self.input@,
            fps: self.fps,
            scale: self.scale@,
            jpeg_quality: self.jpeg_quality,
            audio: self.audio,
            audio_input: self.audio_input@,
        }
    }
}

#[derive(Debug)]
pub struct EncoderConfig {
    pub mode: String,
    pub bitrate_kbps: u32,
    pub gop_frames: u32,
    pub max_width: u32,
    pub max_height: u32,
}

#[verifier::ext_equal]
pub ghost struct EncoderFacts {
    pub mode: Seq<char>,
    pub bitrate_kbps: u32,
    pub gop_frames: u32,
    pub max_width: u32,
    pub max_height: u32,
}

impl View for EncoderConfig {
    type V = EncoderFacts;

    open spec fn view(&self) -> EncoderFacts {
        EncoderFacts {
            mode: self.mode@,
            bitrate_kbps: self.bitrate_kbps,
            gop_frames: self.gop_frames,
            max_width: self.max_width,
            max_height: self.max_height,
        }
    }
}

#[derive(Debug)]
pub struct LlmConfig {
    pub enabled: bool,
    pub base_url: String,
    pub api_key: String,
    pub model: String,
    pub interval_sec: u32,
    pub prompt: String,
}

#[verifier::ext_equal]
pub ghost struct LlmFacts {
    pub enabled: bool,
    pub base_url: Seq<char>,
    pub api_key: Seq<char>,
    pub model: Seq<char>,
    pub interval_sec: u32,
    pub prompt: Seq<char>,
}

impl View for LlmConfig {
    type V = LlmFacts;

    open spec fn view(&self) -> LlmFacts {
        LlmFacts {
            enabled: self.enabled,
            base_url: self.base_url@,
            api_key: self.api_key@,
            model: self.model@,
            interval_sec: self.interval_sec,
            prompt: self.prompt@,
        }
    }
}

#[derive(Debug)]
pub struct CloudflareConfig {
    pub publish_url: String,
    pub watch_url: String,
}

#[verifier::ext_equal]
pub ghost struct CloudFacts {
    pub publish_url: Seq<char>,
    pub watch_url: Seq<char>,
}

impl View for CloudflareConfig {
    type V = CloudFacts;

    open spec fn view(&self) -> CloudFacts {
        CloudFacts { publish_url: self.publish_url@, watch_url: self.watch_url@ }
    }
}

#[derive(Debug, Clone, Copy, PartialEq, Eq, Structural)]
pub struct ControlConfig {
    /// Remote mouse/keyboard from OTP viewers. OFF by default.
    pub enabled: bool,
    /// AI computer-use from OTP viewers. OFF by default.
    pub ai_enabled: bool,
    /// Swallow host HID while a remote controller is driving. ⌘⇧Esc unlocks.
    pub block_local: bool,
    /// Play the watcher's microphone at the host.
    pub voice: bool,
    /// Darken the host's screen while a remote controller is driving.
    pub blank_screen: bool,
    /// Lock the host when a remote session ends.
    pub lock_on_end: bool,
    /// Record the stream while a remote controller is driving.
    pub record_sessions: bool,
    /// Keep the host awake for remote access.
    pub keep_awake: bool,
}

#[derive(Debug)]
pub struct AccessConfig {
    /// Persistent password join after the 6-digit PIN expires. OFF by default.
    pub unattended: bool,
    /// SHA-256 hex of the unattended password. Never the plaintext.
    pub password_hash: String,
}

#[verifier::ext_equal]
pub ghost struct AccessFacts {
    pub unattended: bool,
    pub password_hash: Seq<char>,
}

impl View for AccessConfig {
    type V = AccessFacts;

    open spec fn view(&self) -> AccessFacts {
        AccessFacts { unattended: self.unattended, password_hash: self.password_hash@ }
    }
}

#[derive(Debug)]
pub struct Config {
    pub host: String,
    pub port: u16,
    pub token: String,
    pub capture: CaptureConfig,
    pub encoder: EncoderConfig,
    pub llm: LlmConfig,
    pub cloudflare: CloudflareConfig,
    pub control: ControlConfig,
    pub access: AccessConfig,
}

#[verifier::ext_equal]
pub ghost struct ConfigFacts {
    pub host: Seq<char>,
    pub port: u16,
    pub token: Seq<char>,
    pub capture: CaptureFacts,
    pub encoder: EncoderFacts,
    pub llm: LlmFacts,
    pub cloudflare: CloudFacts,
    pub control: ControlConfig,
    pub access: AccessFacts,
}

impl View for Config {
    type V = ConfigFacts;

    open spec fn view(&self) -> ConfigFacts {
        ConfigFacts {
            host: self.host@,
            port: self.port,
            token: self.token@,
            capture: self.capture@,
            encoder: self.encoder@,
            llm: self.llm@,
            cloudflare: self.cloudflare@,
            control: self.control,
            access: self.access@,
        }
    }
}

pub open spec fn default_capture() -> CaptureFacts {
    CaptureFacts {
        driver: "ffmpeg"@,
        input: Seq::empty(),
        fps: 30,
        scale: ScaleFacts { bits: ONE, text: "1.0"@ },
        jpeg_quality: 95,
        audio: false,
        audio_input: "0"@,
    }
}

pub open spec fn default_encoder() -> EncoderFacts {
    EncoderFacts {
        mode: "ffmpeg"@,
        bitrate_kbps: 20000,
        gop_frames: 15,
        max_width: 3840,
        max_height: 4320,
    }
}

pub open spec fn default_llm() -> LlmFacts {
    LlmFacts {
        enabled: false,
        base_url: "http://127.0.0.1:11434/v1"@,
        api_key: "ollama"@,
        model: "llama3.2-vision"@,
        interval_sec: 5,
        prompt: Seq::empty(),
    }
}

pub open spec fn default_cloud() -> CloudFacts {
    CloudFacts { publish_url: Seq::empty(), watch_url: Seq::empty() }
}

pub open spec fn default_control() -> ControlConfig {
    ControlConfig {
        enabled: false,
        ai_enabled: false,
        block_local: false,
        voice: false,
        blank_screen: false,
        lock_on_end: false,
        record_sessions: false,
        keep_awake: false,
    }
}

pub open spec fn default_access() -> AccessFacts {
    AccessFacts { unattended: false, password_hash: Seq::empty() }
}

pub open spec fn default_config() -> ConfigFacts {
    ConfigFacts {
        host: "127.0.0.1"@,
        port: 8080,
        token: Seq::empty(),
        capture: default_capture(),
        encoder: default_encoder(),
        llm: default_llm(),
        cloudflare: default_cloud(),
        control: default_control(),
        access: default_access(),
    }
}

impl Default for CaptureConfig {
    fn default() -> (c: Self)
        ensures
            c@ == default_capture(),
    {
        CaptureConfig {
            driver: "ffmpeg".to_owned(),
            input: String::new(),
            fps: 30,
            scale: Scale::one(),
            jpeg_quality: 95,
            audio: false,
            audio_input: "0".to_owned(),
        }
    }
}

impl Default for EncoderConfig {
    fn default() -> (c: Self)
        ensures
            c@ == default_encoder(),
    {
        EncoderConfig {
            mode: "ffmpeg".to_owned(),
            bitrate_kbps: 20000,
            gop_frames: 15,
            max_width: 3840,
            max_height: 4320,
        }
    }
}

impl Default for LlmConfig {
    fn default() -> (c: Self)
        ensures
            c@ == default_llm(),
    {
        LlmConfig {
            enabled: false,
            base_url: "http://127.0.0.1:11434/v1".to_owned(),
            api_key: "ollama".to_owned(),
            model: "llama3.2-vision".to_owned(),
            interval_sec: 5,
            prompt: String::new(),
        }
    }
}

impl Default for CloudflareConfig {
    fn default() -> (c: Self)
        ensures
            c@ == default_cloud(),
    {
        CloudflareConfig { publish_url: String::new(), watch_url: String::new() }
    }
}

impl Default for ControlConfig {
    fn default() -> (c: Self)
        ensures
            c == default_control(),
    {
        ControlConfig {
            enabled: false,
            ai_enabled: false,
            block_local: false,
            voice: false,
            blank_screen: false,
            lock_on_end: false,
            record_sessions: false,
            keep_awake: false,
        }
    }
}

impl Default for AccessConfig {
    fn default() -> (c: Self)
        ensures
            c@ == default_access(),
    {
        AccessConfig { unattended: false, password_hash: String::new() }
    }
}

impl Default for Config {
    fn default() -> (c: Self)
        ensures
            c@ == default_config(),
    {
        Config {
            host: "127.0.0.1".to_owned(),
            port: 8080,
            token: String::new(),
            capture: CaptureConfig::default(),
            encoder: EncoderConfig::default(),
            llm: LlmConfig::default(),
            cloudflare: CloudflareConfig::default(),
            control: ControlConfig::default(),
            access: AccessConfig::default(),
        }
    }
}

/// A number kept between two bounds.
pub open spec fn between(v: u32, lo: u32, hi: u32) -> u32 {
    if v < lo {
        lo
    } else if v > hi {
        hi
    } else {
        v
    }
}

fn clamp(v: u32, lo: u32, hi: u32) -> (r: u32)
    ensures
        r == between(v, lo, hi),
{
    if v < lo {
        lo
    } else if v > hi {
        hi
    } else {
        v
    }
}

/// A device index of one to four digits; anything else means the default.
pub open spec fn audio_index(raw: Seq<char>) -> Seq<char> {
    let s = without_trailing(trimmed(raw), ':');
    if 0 < s.len() <= 4 && forall|i: int| 0 <= i < s.len() ==> is_digit(#[trigger] s[i]) {
        s
    } else {
        "0"@
    }
}

pub fn clamp_audio_input(raw: &str) -> (r: String)
    ensures
        r@ == audio_index(raw@),
{
    let s = trim_end_char(trim(raw).as_str(), ':');
    let v = chars_of(s.as_str());
    if v.len() == 0 || v.len() > 4 {
        return "0".to_owned();
    }
    let mut i: usize = 0;
    while i < v.len()
        invariant
            i <= v@.len(),
            v@ == s@,
            0 < v@.len() <= 4,
            s@ == without_trailing(trimmed(raw@), ':'),
            forall|k: int| 0 <= k < i ==> is_digit(#[trigger] v@[k]),
        decreases v@.len() - i,
    {
        if !('0' <= v[i] && v[i] <= '9') {
            assert(!is_digit(s@[i as int]));
            return "0".to_owned();
        }
        i += 1;
    }
    s
}

impl ScaleFacts {
    pub open spec fn bounded(self) -> ScaleFacts {
        if less(self.bits, QUARTER) {
            ScaleFacts { bits: QUARTER, text: "0.25"@ }
        } else if less(ONE, self.bits) {
            ScaleFacts { bits: ONE, text: "1.0"@ }
        } else {
            self
        }
    }
}

impl CaptureFacts {
    pub open spec fn bounded(self) -> CaptureFacts {
        CaptureFacts {
            fps: between(self.fps, 1, 60),
            scale: self.scale.bounded(),
            jpeg_quality: between(self.jpeg_quality, 30, 95),
            audio_input: audio_index(self.audio_input),
            ..self
        }
    }
}

impl CaptureConfig {
    pub fn clamp(&mut self)
        ensures
            final(self)@ == old(self)@.bounded(),
    {
        self.fps = clamp(self.fps, 1, 60);
        if is_less(self.scale.bits, QUARTER) {
            self.scale = Scale { bits: QUARTER, text: "0.25".to_owned() };
        } else if is_less(ONE, self.scale.bits) {
            self.scale = Scale::one();
        }
        self.jpeg_quality = clamp(self.jpeg_quality, 30, 95);
        self.audio_input = clamp_audio_input(self.audio_input.as_str());
    }
}

impl EncoderFacts {
    pub open spec fn bounded(self) -> EncoderFacts {
        EncoderFacts {
            mode: if self.mode != "mjpeg"@ && self.mode != "ffmpeg"@ && self.mode != "hevc"@ {
                "mjpeg"@
            } else {
                self.mode
            },
            bitrate_kbps: between(self.bitrate_kbps, 2000, 50000),
            gop_frames: between(self.gop_frames, 6, 60),
            max_width: between(self.max_width, 640, 7680),
            max_height: between(self.max_height, 360, 4320),
        }
    }
}

impl EncoderConfig {
    pub fn clamp(&mut self)
        ensures
            final(self)@ == old(self)@.bounded(),
    {
        if !same(self.mode.as_str(), "mjpeg") && !same(self.mode.as_str(), "ffmpeg") && !same(
            self.mode.as_str(),
            "hevc",
        ) {
            self.mode = "mjpeg".to_owned();
        }
        self.bitrate_kbps = clamp(self.bitrate_kbps, 2000, 50000);
        self.gop_frames = clamp(self.gop_frames, 6, 60);
        self.max_width = clamp(self.max_width, 640, 7680);
        self.max_height = clamp(self.max_height, 360, 4320);
    }
}

impl LlmFacts {
    pub open spec fn bounded(self) -> LlmFacts {
        LlmFacts { interval_sec: between(self.interval_sec, 2, 3600), ..self }
    }
}

impl LlmConfig {
    pub fn clamp(&mut self)
        ensures
            final(self)@ == old(self)@.bounded(),
    {
        self.interval_sec = clamp(self.interval_sec, 2, 3600);
    }
}

impl CloudFacts {
    pub open spec fn bounded(self) -> CloudFacts {
        CloudFacts {
            publish_url: trimmed(self.publish_url),
            watch_url: trimmed(self.watch_url),
        }
    }
}

impl CloudflareConfig {
    pub fn clamp(&mut self)
        ensures
            final(self)@ == old(self)@.bounded(),
    {
        self.publish_url = trim(self.publish_url.as_str());
        self.watch_url = trim(self.watch_url.as_str());
    }
}

/// A digest is sixty-four hexadecimal digits; anything else counts as none.
pub open spec fn tidy_hash(raw: Seq<char>) -> Seq<char> {
    let s = lower(trimmed(raw));
    if s.len() == 64 && forall|i: int| 0 <= i < s.len() ==> is_hex(#[trigger] s[i]) {
        s
    } else {
        Seq::empty()
    }
}

pub fn normalize_password_hash(raw: &str) -> (r: String)
    ensures
        r@ == tidy_hash(raw@),
{
    let s = lowercase(trim(raw).as_str());
    let v = chars_of(s.as_str());
    if v.len() != 64 {
        return String::new();
    }
    let mut i: usize = 0;
    while i < v.len()
        invariant
            i <= v@.len() == 64,
            v@ == s@,
            s@ == lower(trimmed(raw@)),
            forall|k: int| 0 <= k < i ==> is_hex(#[trigger] v@[k]),
        decreases v@.len() - i,
    {
        let c = v[i];
        if !(('0' <= c && c <= '9') || ('a' <= c && c <= 'f') || ('A' <= c && c <= 'F')) {
            assert(!is_hex(s@[i as int]));
            return String::new();
        }
        i += 1;
    }
    s
}

impl AccessFacts {
    pub open spec fn bounded(self) -> AccessFacts {
        AccessFacts {
            password_hash: if self.unattended {
                tidy_hash(self.password_hash)
            } else {
                Seq::empty()
            },
            ..self
        }
    }
}

impl AccessConfig {
    pub fn clamp(&mut self)
        ensures
            final(self)@ == old(self)@.bounded(),
    {
        self.password_hash = normalize_password_hash(self.password_hash.as_str());
        if !self.unattended {
            self.password_hash = String::new();
        }
    }
}

impl ConfigFacts {
    /// Every setting within its bounds.
    pub open spec fn bounded(self) -> ConfigFacts {
        ConfigFacts {
            port: if self.port == 0 {
                8080
            } else {
                self.port
            },
            capture: self.capture.bounded(),
            encoder: self.encoder.bounded(),
            llm: self.llm.bounded(),
            cloudflare: self.cloudflare.bounded(),
            access: self.access.bounded(),
            ..self
        }
    }
}

proof fn digits_are_tidy(s: Seq<char>)
    requires
        forall|i: int| 0 <= i < s.len() ==> is_digit(#[trigger] s[i]),
    ensures
        trimmed(s) == s,
        without_trailing(s, ':') == s,
{
    if s.len() > 0 {
        assert(is_digit(s[0]));
        assert(is_digit(s[s.len() - 1]));
    }
}

proof fn tidy_hash_twice(raw: Seq<char>)
    ensures
        tidy_hash(tidy_hash(raw)) == tidy_hash(raw),
{
    let s = tidy_hash(raw);
    if s.len() == 64 {
        let t = lower(trimmed(raw));
        assert(s == t);
        assert(is_hex(s[0]) && is_hex(s[63]));
        assert(trimmed(s) == s);
        assert forall|i: int| 0 <= i < s.len() implies #[trigger] lower(s)[i] == s[i] by {
            assert(s[i] == crate::text::lower_char(trimmed(raw)[i]));
        }
        assert(lower(s) =~= s);
    } else {
        assert(trimmed(s) == s);
        assert(lower(s) =~= s);
    }
}

/// Bounded settings are within their bounds, and bounding them again changes
/// nothing.
pub proof fn bounds_hold(c: ConfigFacts)
    ensures
        c.bounded().bounded() == c.bounded(),
        1 <= c.bounded().capture.fps <= 60,
        30 <= c.bounded().capture.jpeg_quality <= 95,
        2000 <= c.bounded().encoder.bitrate_kbps <= 50000,
        6 <= c.bounded().encoder.gop_frames <= 60,
        640 <= c.bounded().encoder.max_width <= 7680,
        360 <= c.bounded().encoder.max_height <= 4320,
        2 <= c.bounded().llm.interval_sec <= 3600,
        c.bounded().port != 0,
        !less(c.bounded().capture.scale.bits, QUARTER),
        !less(ONE, c.bounded().capture.scale.bits),
        !c.bounded().access.unattended ==> c.bounded().access.password_hash.len() == 0,
{
    let b = c.bounded();
    let raw = c.capture.audio_input;
    let a = audio_index(raw);
    if a == "0"@ {
        reveal_strlit("0");
        assert forall|i: int| 0 <= i < a.len() implies is_digit(#[trigger] a[i]) by {}
    }
    digits_are_tidy(a);
    assert(audio_index(a) == a);
    crate::text::trimmed_twice(c.cloudflare.publish_url);
    crate::text::trimmed_twice(c.cloudflare.watch_url);
    tidy_hash_twice(c.access.password_hash);
    assert(b.bounded().capture =~= b.capture);
    assert(b.bounded().encoder =~= b.encoder);
    assert(b.bounded().access =~= b.access);
    assert(b.bounded().cloudflare =~= b.cloudflare);
    assert(b.bounded() =~= b);
}

/// Whether a setting is what it was, number by number.
pub open spec fn same_number(a: u64, b: u64) -> bool {
    !crate::float::is_nan(a) && !crate::float::is_nan(b) && crate::float::rank(a)
        == crate::float::rank(b)
}

fn number_same(a: u64, b: u64) -> (r: bool)
    ensures
        r == same_number(a, b),
{
    !is_less(a, b) && !is_less(b, a) && not_nan(a) && not_nan(b)
}

fn not_nan(a: u64) -> (r: bool)
    ensures
        r == !crate::float::is_nan(a),
{
    let m: u64 = if a >= crate::float::SIGN {
        a - crate::float::SIGN
    } else {
        a
    };
    m <= crate::float::INFINITE
}

/// Whether two capture settings agree; a scale that is no number agrees with none.
pub open spec fn capture_agrees(a: CaptureFacts, b: CaptureFacts) -> bool {
    &&& a.driver == b.driver
    &&& a.input == b.input
    &&& a.fps == b.fps
    &&& same_number(a.scale.bits, b.scale.bits)
    &&& a.jpeg_quality == b.jpeg_quality
    &&& a.audio == b.audio
    &&& a.audio_input == b.audio_input
}

pub fn same_capture(a: &CaptureConfig, b: &CaptureConfig) -> (r: bool)
    ensures
        r == capture_agrees(a@, b@),
{
    same(a.driver.as_str(), b.driver.as_str()) && same(a.input.as_str(), b.input.as_str()) && a.fps
        == b.fps && number_same(a.scale.bits, b.scale.bits) && a.jpeg_quality == b.jpeg_quality
        && a.audio == b.audio && same(a.audio_input.as_str(), b.audio_input.as_str())
}

pub fn same_encoder(a: &EncoderConfig, b: &EncoderConfig) -> (r: bool)
    ensures
        r == (a@ == b@),
{
    let r = same(a.mode.as_str(), b.mode.as_str()) && a.bitrate_kbps == b.bitrate_kbps
        && a.gop_frames == b.gop_frames && a.max_width == b.max_width && a.max_height
        == b.max_height;
    assert(r ==> a@ =~= b@);
    r
}

impl Config {
    pub fn clamp(&mut self)
        ensures
            final(self)@ == old(self)@.bounded(),
    {
        if self.port == 0 {
            self.port = 8080;
        }
        self.capture.clamp();
        self.encoder.clamp();
        self.llm.clamp();
        self.cloudflare.clamp();
        self.access.clamp();
    }

    pub fn copy(&self) -> (c: Config)
        ensures
            c@ == self@,
    {
        Config {
            host: self.host.clone(),
            port: self.port,
            token: self.token.clone(),
            capture: CaptureConfig {
                driver: self.capture.driver.clone(),
                input: self.capture.input.clone(),
                fps: self.capture.fps,
                scale: self.capture.scale.copy(),
                jpeg_quality: self.capture.jpeg_quality,
                audio: self.capture.audio,
                audio_input: self.capture.audio_input.clone(),
            },
            encoder: EncoderConfig {
                mode: self.encoder.mode.clone(),
                bitrate_kbps: self.encoder.bitrate_kbps,
                gop_frames: self.encoder.gop_frames,
                max_width: self.encoder.max_width,
                max_height: self.encoder.max_height,
            },
            llm: LlmConfig {
                enabled: self.llm.enabled,
                base_url: self.llm.base_url.clone(),
                api_key: self.llm.api_key.clone(),
                model: self.llm.model.clone(),
                interval_sec: self.llm.interval_sec,
                prompt: self.llm.prompt.clone(),
            },
            cloudflare: CloudflareConfig {
                publish_url: self.cloudflare.publish_url.clone(),
                watch_url: self.cloudflare.watch_url.clone(),
            },
            control: self.control,
            access: AccessConfig {
                unattended: self.access.unattended,
                password_hash: self.access.password_hash.clone(),
            },
        }
    }
}

/// True when the publisher must drop/reconnect (URL cleared or replaced).
pub fn cloudflare_endpoint_changed(old: &Config, new: &Config) -> (r: bool)
    ensures
        r == (old@.cloudflare.publish_url != new@.cloudflare.publish_url
            || old@.cloudflare.watch_url != new@.cloudflare.watch_url),
{
    !same(old.cloudflare.publish_url.as_str(), new.cloudflare.publish_url.as_str()) || !same(
        old.cloudflare.watch_url.as_str(),
        new.cloudflare.watch_url.as_str(),
    )
}

/// The settings after a password was handed in. Nothing is stored but the
/// digest; a blank password keeps the one that is set.
pub open spec fn with_password(c: ConfigFacts, password: Option<Seq<char>>) -> Option<ConfigFacts> {
    if !c.access.unattended {
        Some(
            ConfigFacts {
                access: AccessFacts { password_hash: Seq::empty(), ..c.access },
                ..c
            },
        )
    } else {
        match password {
            None => Some(c),
            Some(p) => {
                let t = trimmed(p);
                if t.len() == 0 {
                    Some(c)
                } else if t.len() < 8 || t.len() > 128 {
                    None
                } else {
                    Some(
                        ConfigFacts {
                            access: AccessFacts { password_hash: digest_text(t), ..c.access },
                            ..c
                        },
                    )
                }
            },
        }
    }
}

/// A digest that was written down is kept as it is.
pub proof fn digest_text_is_tidy(h: Seq<char>)
    requires
        is_digest_text(h),
    ensures
        tidy_hash(h) == h,
{
    assert(trimmed(h) == h) by {
        assert(!is_white(h[0]));
        assert(!is_white(h[63]));
    }
    assert(lower(h) =~= h);
    assert forall|i: int| 0 <= i < h.len() implies is_hex(#[trigger] h[i]) by {}
}

/// What is stored of a password that was set is a digest, which reading the
/// settings back keeps.
pub fn apply_unattended_password(cfg: &mut Config, password: Option<String>) -> (r: Result<
    (),
    &'static str,
>)
    ensures
        match r {
            Ok(_) => with_password(old(cfg)@, opt_text(password)) == Some(final(cfg)@),
            Err(e) => with_password(old(cfg)@, opt_text(password)) is None && final(cfg)@ == old(
                cfg,
            )@ && e@ == "unattended password must be 8–128 characters"@,
        },
        r is Ok && old(cfg)@.access.unattended ==> (password matches Some(p) && trimmed(p@).len()
            > 0 ==> final(cfg)@.access.password_hash.len() == 64 && tidy_hash(
            final(cfg)@.access.password_hash,
        ) == final(cfg)@.access.password_hash),
{
    if !cfg.access.unattended {
        cfg.access.password_hash = String::new();
        return Ok(());
    }
    match password {
        None => Ok(()),
        Some(raw) => {
            let t = trim(raw.as_str());
            let n: usize = chars_of(t.as_str()).len();
            if n == 0 {
                return Ok(());
            }
            if n < 8 || n > 128 {
                return Err("unattended password must be 8–128 characters");
            }
            cfg.access.password_hash = sha256_hex(t.as_str());
            proof {
                digest_text_is_tidy(cfg.access.password_hash@);
            }
            Ok(())
        },
    }
}

/// The digest that opens the door for unattended access, empty when it is off.
pub fn unattended_secret(cfg: &Config) -> (s: String)
    ensures
        s@ == if cfg@.access.unattended {
            cfg@.access.password_hash
        } else {
            Seq::empty()
        },
{
    if cfg.access.unattended {
        cfg.access.password_hash.clone()
    } else {
        String::new()
    }
}

/// The preset that bitrate and scale amount to.
pub open spec fn preset_of(c: ConfigFacts) -> Seq<char> {
    if c.encoder.bitrate_kbps == 20000 && c.capture.scale.bits == ONE {
        "quality"@
    } else if c.encoder.bitrate_kbps == 8000 && c.capture.scale.bits == ONE {
        "balanced"@
    } else if c.encoder.bitrate_kbps == 4000 && c.capture.scale.bits == HALF {
        "speed"@
    } else {
        "custom"@
    }
}

pub fn quality_preset(cfg: &Config) -> (s: &'static str)
    ensures
        s@ == preset_of(cfg@),
{
    if cfg.encoder.bitrate_kbps == 20000 && cfg.capture.scale.bits == ONE {
        "quality"
    } else if cfg.encoder.bitrate_kbps == 8000 && cfg.capture.scale.bits == ONE {
        "balanced"
    } else if cfg.encoder.bitrate_kbps == 4000 && cfg.capture.scale.bits == HALF {
        "speed"
    } else {
        "custom"
    }
}

/// The settings under a preset; an unknown name changes nothing.
pub open spec fn under_preset(c: ConfigFacts, preset: Seq<char>) -> Option<ConfigFacts> {
    if preset == "quality"@ {
        Some(tuned(c, 20000, ScaleFacts { bits: ONE, text: "1.0"@ }))
    } else if preset == "balanced"@ {
        Some(tuned(c, 8000, ScaleFacts { bits: ONE, text: "1.0"@ }))
    } else if preset == "speed"@ {
        Some(tuned(c, 4000, ScaleFacts { bits: HALF, text: "0.5"@ }))
    } else {
        None
    }
}

pub open spec fn tuned(c: ConfigFacts, kbps: u32, scale: ScaleFacts) -> ConfigFacts {
    ConfigFacts {
        encoder: EncoderFacts { bitrate_kbps: kbps, ..c.encoder },
        capture: CaptureFacts { scale, ..c.capture },
        ..c
    }
}

pub fn apply_quality_preset(cfg: &mut Config, preset: &str) -> (r: bool)
    ensures
        match under_preset(old(cfg)@, preset@) {
            Some(c) => r && final(cfg)@ == c,
            None => !r && final(cfg)@ == old(cfg)@,
        },
{
    if same(preset, "quality") {
        cfg.encoder.bitrate_kbps = 20000;
        cfg.capture.scale = Scale::one();
        true
    } else if same(preset, "balanced") {
        cfg.encoder.bitrate_kbps = 8000;
        cfg.capture.scale = Scale::one();
        true
    } else if same(preset, "speed") {
        cfg.encoder.bitrate_kbps = 4000;
        cfg.capture.scale = Scale { bits: HALF, text: "0.5".to_owned() };
        true
    } else {
        false
    }
}

/// Settings under a preset are recognised as that preset.
pub proof fn preset_is_recognised(c: ConfigFacts, preset: Seq<char>)
    requires
        under_preset(c, preset) is Some,
    ensures
        preset_of(under_preset(c, preset)->Some_0) == preset,
{
}

/// Numbers within their bounds stay as they are set; one that is too small or
/// too large becomes the bound.
pub proof fn numbers_in_bounds_are_kept(c: ConfigFacts)
    ensures
        ({
            let b = c.bounded();
            &&& 1 <= c.capture.fps <= 60 ==> b.capture.fps == c.capture.fps
            &&& c.capture.fps < 1 ==> b.capture.fps == 1
            &&& c.capture.fps > 60 ==> b.capture.fps == 60
            &&& 30 <= c.capture.jpeg_quality <= 95 ==> b.capture.jpeg_quality
                == c.capture.jpeg_quality
            &&& c.capture.jpeg_quality < 30 ==> b.capture.jpeg_quality == 30
            &&& c.capture.jpeg_quality > 95 ==> b.capture.jpeg_quality == 95
            &&& 2000 <= c.encoder.bitrate_kbps <= 50000 ==> b.encoder.bitrate_kbps
                == c.encoder.bitrate_kbps
            &&& c.encoder.bitrate_kbps < 2000 ==> b.encoder.bitrate_kbps == 2000
            &&& c.encoder.bitrate_kbps > 50000 ==> b.encoder.bitrate_kbps == 50000
            &&& 6 <= c.encoder.gop_frames <= 60 ==> b.encoder.gop_frames == c.encoder.gop_frames
            &&& c.encoder.gop_frames < 6 ==> b.encoder.gop_frames == 6
            &&& c.encoder.gop_frames > 60 ==> b.encoder.gop_frames == 60
            &&& 640 <= c.encoder.max_width <= 7680 ==> b.encoder.max_width == c.encoder.max_width
            &&& c.encoder.max_width < 640 ==> b.encoder.max_width == 640
            &&& c.encoder.max_width > 7680 ==> b.encoder.max_width == 7680
            &&& 360 <= c.encoder.max_height <= 4320 ==> b.encoder.max_height == c.encoder.max_height
            &&& c.encoder.max_height < 360 ==> b.encoder.max_height == 360
            &&& c.encoder.max_height > 4320 ==> b.encoder.max_height == 4320
            &&& 2 <= c.llm.interval_sec <= 3600 ==> b.llm.interval_sec == c.llm.interval_sec
            &&& c.llm.interval_sec < 2 ==> b.llm.interval_sec == 2
            &&& c.llm.interval_sec > 3600 ==> b.llm.interval_sec == 3600
            &&& c.port != 0 ==> b.port == c.port
            &&& c.port == 0 ==> b.port == 8080
        }),
{
}

/// What has no bounds is kept as it is set: names, addresses, keys and
/// switches.
pub proof fn the_rest_is_kept(c: ConfigFacts)
    ensures
        ({
            let b = c.bounded();
            &&& b.host == c.host && b.token == c.token && b.control == c.control
            &&& b.capture.driver == c.capture.driver && b.capture.input == c.capture.input
                && b.capture.audio == c.capture.audio
            &&& b.llm == (LlmFacts { interval_sec: b.llm.interval_sec, ..c.llm })
            &&& b.cloudflare.publish_url == trimmed(c.cloudflare.publish_url)
            &&& b.cloudflare.watch_url == trimmed(c.cloudflare.watch_url)
            &&& b.access.unattended == c.access.unattended
            &&& c.encoder.mode == "mjpeg"@ || c.encoder.mode == "ffmpeg"@ || c.encoder.mode
                == "hevc"@ ==> b.encoder.mode == c.encoder.mode
            &&& c.encoder.mode != "mjpeg"@ && c.encoder.mode != "ffmpeg"@ && c.encoder.mode
                != "hevc"@ ==> b.encoder.mode == "mjpeg"@
        }),
{
}

/// The scale lies between a quarter and one; one between them is kept, and what
/// is no number too.
pub proof fn scale_is_kept_in_bounds(s: ScaleFacts)
    ensures
        0x3fd0_0000_0000_0000 <= s.bits <= 0x3ff0_0000_0000_0000 ==> s.bounded() == s,
        s.bits < 0x3fd0_0000_0000_0000 ==> s.bounded() == (ScaleFacts {
            bits: 0x3fd0_0000_0000_0000,
            text: "0.25"@,
        }),
        0x3ff0_0000_0000_0000 < s.bits <= 0x7ff0_0000_0000_0000 ==> s.bounded() == (ScaleFacts {
            bits: 0x3ff0_0000_0000_0000,
            text: "1.0"@,
        }),
        0x8000_0000_0000_0000 <= s.bits <= 0xfff0_0000_0000_0000 ==> s.bounded() == (ScaleFacts {
            bits: 0x3fd0_0000_0000_0000,
            text: "0.25"@,
        }),
        crate::float::is_nan(s.bits) ==> s.bounded() == s,
{
}

/// A sound device is a number of up to four digits, with or without a colon
/// behind it; anything else stands for the first one.
pub proof fn sound_device_is_a_number(d: Seq<char>, raw: Seq<char>)
    requires
        0 < d.len() <= 4,
        forall|i: int| 0 <= i < d.len() ==> is_digit(#[trigger] d[i]),
    ensures
        audio_index(d) == d,
        audio_index(d.push(':')) == d,
        0 < audio_index(raw).len() <= 4,
        forall|i: int| 0 <= i < audio_index(raw).len() ==> is_digit(#[trigger] audio_index(raw)[i]),
        trimmed(raw).len() == 0 ==> audio_index(raw) == "0"@,
{
    digits_are_tidy(d);
    reveal_strlit("0");
    let p = d.push(':');
    assert(is_digit(d[0]));
    assert(p[0] == d[0] && p.last() == ':');
    assert(trimmed(p) == p);
    assert(p.drop_last() =~= d);
    reveal_with_fuel(without_trailing, 2);
}

/// A password's digest is kept in small letters; what is no digest is dropped.
pub proof fn digests_are_kept_in_small_letters(raw: Seq<char>)
    ensures
        tidy_hash(raw).len() == 64 || tidy_hash(raw).len() == 0,
        forall|i: int| 0 <= i < tidy_hash(raw).len() ==> is_hex(#[trigger] tidy_hash(raw)[i]),
        tidy_hash(raw).len() == 64 ==> tidy_hash(raw) == lower(trimmed(raw)),
        trimmed(raw).len() != 64 ==> tidy_hash(raw).len() == 0,
{
}

/// What is set where nothing is set: nothing lets a stranger in or acts by
/// itself, and every value lies within its bounds.
pub proof fn defaults_are_safe()
    ensures
        ({
            let c = default_config();
            &&& c.bounded() == c
            &&& c.host == "127.0.0.1"@ && c.port == 8080 && c.token.len() == 0
            &&& !c.control.enabled && !c.control.ai_enabled && !c.control.block_local
                && !c.control.voice && !c.control.blank_screen && !c.control.lock_on_end
                && !c.control.record_sessions && !c.control.keep_awake
            &&& !c.access.unattended && c.access.password_hash.len() == 0
            &&& !c.llm.enabled && c.llm.interval_sec == 5 && c.llm.base_url
                == "http://127.0.0.1:11434/v1"@ && c.llm.model == "llama3.2-vision"@
                && c.llm.api_key == "ollama"@ && c.llm.prompt.len() == 0
            &&& c.cloudflare.publish_url.len() == 0 && c.cloudflare.watch_url.len() == 0
            &&& c.capture.fps == 30 && c.capture.jpeg_quality == 95 && !c.capture.audio
                && c.capture.input.len() == 0 && c.capture.audio_input == "0"@ && c.capture.driver
                == "ffmpeg"@
            &&& c.encoder.mode == "ffmpeg"@ && c.encoder.bitrate_kbps == 20000
                && c.encoder.gop_frames == 15 && c.encoder.max_width == 3840 && c.encoder.max_height
                == 4320
            &&& preset_of(c) == "quality"@
        }),
{
    let c = default_config();
    reveal_strlit("0");
    let zero = "0"@;
    assert(zero =~= seq!['0']);
    sound_device_is_a_number(zero, zero);
    assert(trimmed(c.cloudflare.publish_url) =~= c.cloudflare.publish_url);
    assert(c.bounded().capture =~= c.capture);
    assert(c.bounded().encoder =~= c.encoder);
    assert(c.bounded().cloudflare =~= c.cloudflare);
    assert(c.bounded().access =~= c.access);
    assert(c.bounded() =~= c);
}

/// A password has eight to 128 characters, white space around it aside, and is
/// kept as its digest; an empty one changes nothing, and without unattended
/// access none is kept.
pub proof fn passwords_are_kept_as_digests(c: ConfigFacts, p: Seq<char>)
    ensures
        ({
            let n = trimmed(p).len();
            let r = with_password(c, Some(p));
            &&& !c.access.unattended ==> r is Some && r->Some_0.access.password_hash.len() == 0
            &&& c.access.unattended && 8 <= n <= 128 ==> r is Some && r->Some_0.access.password_hash
                == digest_text(trimmed(p))
            &&& c.access.unattended && (0 < n < 8 || n > 128) ==> r is None
            &&& c.access.unattended && n == 0 ==> r == Some(c)
            &&& c.access.unattended ==> with_password(c, None) == Some(c)
            &&& r matches Some(d) ==> d == (ConfigFacts {
                access: AccessFacts { password_hash: d.access.password_hash, ..c.access },
                ..c
            })
        }),
{
}

/// Three presets set the rate and the scale, and nothing else.
pub proof fn presets_set_rate_and_scale(c: ConfigFacts, preset: Seq<char>)
    ensures
        under_preset(c, preset) is Some <==> preset == "quality"@ || preset == "balanced"@ || preset
            == "speed"@,
        under_preset(c, preset) matches Some(d) ==> {
            &&& preset == "quality"@ ==> d.encoder.bitrate_kbps == 20000 && d.capture.scale.bits
                == 0x3ff0_0000_0000_0000
            &&& preset == "balanced"@ ==> d.encoder.bitrate_kbps == 8000 && d.capture.scale.bits
                == 0x3ff0_0000_0000_0000
            &&& preset == "speed"@ ==> d.encoder.bitrate_kbps == 4000 && d.capture.scale
                == (ScaleFacts { bits: 0x3fe0_0000_0000_0000, text: "0.5"@ })
            &&& d == (ConfigFacts {
                encoder: EncoderFacts { bitrate_kbps: d.encoder.bitrate_kbps, ..c.encoder },
                capture: CaptureFacts { scale: d.capture.scale, ..c.capture },
                ..c
            })
        },
{
    reveal_strlit("quality");
    reveal_strlit("balanced");
    reveal_strlit("speed");
    assert("quality"@.len() == 7 && "balanced"@.len() == 8 && "speed"@.len() == 5);
}

/// A rate or a scale that no preset sets is a custom one.
pub proof fn other_settings_are_custom(c: ConfigFacts)
    ensures
        c.encoder.bitrate_kbps != 20000 && c.encoder.bitrate_kbps != 8000 && c.encoder.bitrate_kbps
            != 4000 ==> preset_of(c) == "custom"@,
        c.capture.scale.bits != 0x3ff0_0000_0000_0000 && c.capture.scale.bits
            != 0x3fe0_0000_0000_0000 ==> preset_of(c) == "custom"@,
        c.encoder.bitrate_kbps == 4000 && c.capture.scale.bits == 0x3fe0_0000_0000_0000 ==> preset_of(
            c,
        ) == "speed"@,
        c.encoder.bitrate_kbps == 4000 && c.capture.scale.bits != 0x3fe0_0000_0000_0000 ==> preset_of(
            c,
        ) == "custom"@,
{
}

/// Settings of the capture agree where every one of them does; each agrees with
/// itself unless its scale is no number.
pub proof fn captures_agree_in_everything(a: CaptureFacts, b: CaptureFacts)
    ensures
        capture_agrees(a, b) == capture_agrees(b, a),
        !crate::float::is_nan(a.scale.bits) ==> capture_agrees(a, a),
        capture_agrees(a, b) ==> a.fps == b.fps && a.jpeg_quality == b.jpeg_quality && a.audio
            == b.audio && a.input == b.input && a.driver == b.driver && a.audio_input
            == b.audio_input,
        a.scale.bits < b.scale.bits <= 0x7ff0_0000_0000_0000 ==> !capture_agrees(a, b),
{
}

} // verus!
