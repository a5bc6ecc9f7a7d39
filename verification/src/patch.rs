//! The settings as a JSON value: reading, writing, patching.

use crate::config::{
    default_access, default_capture, default_cloud, default_config, default_control,
    default_encoder, default_llm, AccessConfig, AccessFacts, CaptureConfig, CaptureFacts,
    CloudFacts, CloudflareConfig, Config, ConfigFacts, ControlConfig, EncoderConfig, EncoderFacts,
    LlmConfig, LlmFacts, Scale, ScaleFacts,
};
use crate::float::{float_of_signed, float_of_whole, magnitude, INFINITE, SIGN};
use crate::json::{member, or, text_or, Amount, Figure, Json, Tree};
use crate::text::{
    append, byte_len, concat2, decimal, decimal_text, opt_text, same, signed_decimal, signed_text,
};
use vstd::prelude::*;

verus! {

/// The members of an object.
pub open spec fn members(v: Seq<(String, Json)>) -> Seq<(Seq<char>, Tree)> {
    Seq::new(v.len(), |i: int| (v[i].0@, v[i].1.tree()))
}

pub(crate) proof fn object_tree(v: Vec<(String, Json)>)
    ensures
        Json::Obj(v).tree() == Tree::Obj(members(v@)),
{
    assert(Json::Obj(v).tree()->Obj_0 =~= members(v@));
}

/// A field of a settings group: by its name in an object, by its place in a list.
pub open spec fn part(v: Tree, i: int, name: Seq<char>) -> Option<Tree> {
    match v {
        Tree::Obj(m) => member(m, name),
        Tree::Arr(a) => if 0 <= i < a.len() {
            Some(a[i])
        } else {
            None
        },
        _ => None,
    }
}

/// A settings group is an object, or a list with no more items than fields.
pub open spec fn shaped(v: Tree, n: int) -> bool {
    match v {
        Tree::Obj(_) => true,
        Tree::Arr(a) => a.len() <= n,
        _ => false,
    }
}

fn field<'a>(v: &'a Json, i: usize, name: &str) -> (r: Option<&'a Json>)
    ensures
        match r {
            Some(j) => part(v.tree(), i as int, name@) == Some(j.tree()),
            None => part(v.tree(), i as int, name@) is None,
        },
{
    match v {
        Json::Obj(_) => v.get(name),
        Json::Arr(a) => if i < a.len() {
            Some(&a[i])
        } else {
            None
        },
        _ => None,
    }
}

fn fits(v: &Json, n: usize) -> (r: bool)
    ensures
        r == shaped(v.tree(), n as int),
{
    match v {
        Json::Obj(_) => true,
        Json::Arr(a) => a.len() <= n,
        _ => false,
    }
}

/// A text field: its default where it is missing, nothing where it is no text.
pub open spec fn text_part(v: Tree, i: int, name: Seq<char>, d: Seq<char>) -> Option<Seq<char>> {
    match part(v, i, name) {
        None => Some(d),
        Some(t) => t.text(),
    }
}

fn text_field(v: &Json, i: usize, name: &str, d: &str) -> (r: Option<String>)
    ensures
        opt_text(r) == text_part(v.tree(), i as int, name@, d@),
{
    match field(v, i, name) {
        None => Some(d.to_owned()),
        Some(j) => match j.as_text() {
            Some(s) => Some(s.to_owned()),
            None => None,
        },
    }
}

pub open spec fn truth_part(v: Tree, i: int, name: Seq<char>) -> Option<bool> {
    match part(v, i, name) {
        None => Some(false),
        Some(t) => t.truth(),
    }
}

fn truth_field(v: &Json, i: usize, name: &str) -> (r: Option<bool>)
    ensures
        r == truth_part(v.tree(), i as int, name@),
{
    match field(v, i, name) {
        None => Some(false),
        Some(j) => j.as_truth(),
    }
}

/// A number field that must be whole and no larger than `top`.
pub open spec fn count_part(v: Tree, i: int, name: Seq<char>, d: u64, top: u64) -> Option<u64> {
    match part(v, i, name) {
        None => Some(d),
        Some(t) => match t.whole() {
            Some(n) => if n <= top {
                Some(n)
            } else {
                None
            },
            None => None,
        },
    }
}

fn count_field(v: &Json, i: usize, name: &str, d: u64, top: u64) -> (r: Option<u64>)
    requires
        d <= top,
    ensures
        r == count_part(v.tree(), i as int, name@, d, top),
        r is Some ==> r->Some_0 <= top,
{
    match field(v, i, name) {
        None => Some(d),
        Some(j) => match j.as_whole() {
            Some(n) => if n <= top {
                Some(n)
            } else {
                None
            },
            None => None,
        },
    }
}

/// Any number as a scale.
pub open spec fn scale_of(t: Tree) -> Option<ScaleFacts> {
    match t {
        Tree::Num(Figure::UInt(n)) => Some(
            ScaleFacts {
                bits: crate::float::whole_bits(n as nat) as u64,
                text: decimal(n as nat) + ".0"@,
            },
        ),
        Tree::Num(Figure::Int(n)) => Some(
            ScaleFacts {
                bits: crate::float::signed_bits(n as int) as u64,
                text: signed_decimal(n as int) + ".0"@,
            },
        ),
        Tree::Num(Figure::Float { bits, text }) => Some(ScaleFacts { bits, text }),
        _ => None,
    }
}

pub open spec fn scale_part(v: Tree, i: int, name: Seq<char>) -> Option<ScaleFacts> {
    match part(v, i, name) {
        None => Some(default_capture().scale),
        Some(t) => scale_of(t),
    }
}

pub open spec fn opt_scale(s: Option<Scale>) -> Option<ScaleFacts> {
    match s {
        Some(x) => Some(x@),
        None => None,
    }
}

fn scale_field(v: &Json, i: usize, name: &str) -> (r: Option<Scale>)
    ensures
        opt_scale(r) == scale_part(v.tree(), i as int, name@),
{
    match field(v, i, name) {
        None => Some(Scale::one()),
        Some(Json::Num(Amount::UInt(n))) => Some(
            Scale { bits: float_of_whole(*n), text: concat2(decimal_text(*n).as_str(), ".0") },
        ),
        Some(Json::Num(Amount::Int(n))) => {
            let mut text = signed_text(*n);
            append(&mut text, ".0");
            Some(Scale { bits: float_of_signed(*n), text })
        },
        Some(Json::Num(Amount::Float { bits, text })) => Some(
            Scale { bits: *bits, text: text.clone() },
        ),
        _ => None,
    }
}

/// The capture settings that a JSON value spells, nothing where it spells none.
pub open spec fn capture_from(v: Tree) -> Option<CaptureFacts> {
    let d = default_capture();
    let driver = text_part(v, 0, "driver"@, d.driver);
    let input = text_part(v, 1, "input"@, d.input);
    let fps = count_part(v, 2, "fps"@, d.fps as u64, 0xffff_ffff);
    let scale = scale_part(v, 3, "scale"@);
    let quality = count_part(v, 4, "jpeg_quality"@, d.jpeg_quality as u64, 0xffff_ffff);
    let audio = truth_part(v, 5, "audio"@);
    let audio_input = text_part(v, 6, "audio_input"@, d.audio_input);
    if shaped(v, 7) && driver is Some && input is Some && fps is Some && scale is Some
        && quality is Some && audio is Some && audio_input is Some {
        Some(
            CaptureFacts {
                driver: driver->Some_0,
                input: input->Some_0,
                fps: fps->Some_0 as u32,
                scale: scale->Some_0,
                jpeg_quality: quality->Some_0 as u32,
                audio: audio->Some_0,
                audio_input: audio_input->Some_0,
            },
        )
    } else {
        None
    }
}

/// A settings group of the whole: its default where it is missing.
pub open spec fn group<T>(v: Tree, i: int, name: Seq<char>, d: T, f: spec_fn(Tree) -> Option<
    T,
>) -> Option<T> {
    match part(v, i, name) {
        None => Some(d),
        Some(t) => f(t),
    }
}

fn read_capture(v: &Json) -> (r: Option<CaptureConfig>)
    ensures
        match r {
            Some(c) => capture_from(v.tree()) == Some(c@),
            None => capture_from(v.tree()) is None,
        },
{
    if !fits(v, 7) {
        return None;
    }
    match (
        text_field(v, 0, "driver", "ffmpeg"),
        text_field(v, 1, "input", ""),
        count_field(v, 2, "fps", 30, 0xffff_ffff),
        scale_field(v, 3, "scale"),
        count_field(v, 4, "jpeg_quality", 95, 0xffff_ffff),
        truth_field(v, 5, "audio"),
        text_field(v, 6, "audio_input", "0"),
    ) {
        (
            Some(driver),
            Some(input),
            Some(fps),
            Some(scale),
            Some(quality),
            Some(audio),
            Some(audio_input),
        ) => {
            proof {
                reveal_strlit("");
                assert(""@ =~= Seq::<char>::empty());
            }
            Some(
                CaptureConfig {
                    driver,
                    input,
                    fps: fps as u32,
                    scale,
                    jpeg_quality: quality as u32,
                    audio,
                    audio_input,
                },
            )
        },
        _ => {
            proof {
                reveal_strlit("");
                assert(""@ =~= Seq::<char>::empty());
            }
            None
        },
    }
}

pub open spec fn encoder_from(v: Tree) -> Option<EncoderFacts> {
    let d = default_encoder();
    let mode = text_part(v, 0, "mode"@, d.mode);
    let bitrate = count_part(v, 1, "bitrate_kbps"@, d.bitrate_kbps as u64, 0xffff_ffff);
    let gop = count_part(v, 2, "gop_frames"@, d.gop_frames as u64, 0xffff_ffff);
    let width = count_part(v, 3, "max_width"@, d.max_width as u64, 0xffff_ffff);
    let height = count_part(v, 4, "max_height"@, d.max_height as u64, 0xffff_ffff);
    if shaped(v, 5) && mode is Some && bitrate is Some && gop is Some && width is Some
        && height is Some {
        Some(
            EncoderFacts {
                mode: mode->Some_0,
                bitrate_kbps: bitrate->Some_0 as u32,
                gop_frames: gop->Some_0 as u32,
                max_width: width->Some_0 as u32,
                max_height: height->Some_0 as u32,
            },
        )
    } else {
        None
    }
}

fn read_encoder(v: &Json) -> (r: Option<EncoderConfig>)
    ensures
        match r {
            Some(c) => encoder_from(v.tree()) == Some(c@),
            None => encoder_from(v.tree()) is None,
        },
{
    if !fits(v, 5) {
        return None;
    }
    match (
        text_field(v, 0, "mode", "ffmpeg"),
        count_field(v, 1, "bitrate_kbps", 20000, 0xffff_ffff),
        count_field(v, 2, "gop_frames", 15, 0xffff_ffff),
        count_field(v, 3, "max_width", 3840, 0xffff_ffff),
        count_field(v, 4, "max_height", 4320, 0xffff_ffff),
    ) {
        (Some(mode), Some(bitrate), Some(gop), Some(width), Some(height)) => Some(
            EncoderConfig {
                mode,
                bitrate_kbps: bitrate as u32,
                gop_frames: gop as u32,
                max_width: width as u32,
                max_height: height as u32,
            },
        ),
        _ => None,
    }
}

pub open spec fn llm_from(v: Tree) -> Option<LlmFacts> {
    let d = default_llm();
    let enabled = truth_part(v, 0, "enabled"@);
    let base_url = text_part(v, 1, "base_url"@, d.base_url);
    let api_key = text_part(v, 2, "api_key"@, d.api_key);
    let model = text_part(v, 3, "model"@, d.model);
    let interval = count_part(v, 4, "interval_sec"@, d.interval_sec as u64, 0xffff_ffff);
    let prompt = text_part(v, 5, "prompt"@, d.prompt);
    if shaped(v, 6) && enabled is Some && base_url is Some && api_key is Some && model is Some
        && interval is Some && prompt is Some {
        Some(
            LlmFacts {
                enabled: enabled->Some_0,
                base_url: base_url->Some_0,
                api_key: api_key->Some_0,
                model: model->Some_0,
                interval_sec: interval->Some_0 as u32,
                prompt: prompt->Some_0,
            },
        )
    } else {
        None
    }
}

fn read_llm(v: &Json) -> (r: Option<LlmConfig>)
    ensures
        match r {
            Some(c) => llm_from(v.tree()) == Some(c@),
            None => llm_from(v.tree()) is None,
        },
{
    if !fits(v, 6) {
        return None;
    }
    proof {
        reveal_strlit("");
        assert(""@ =~= Seq::<char>::empty());
    }
    match (
        truth_field(v, 0, "enabled"),
        text_field(v, 1, "base_url", "http://127.0.0.1:11434/v1"),
        text_field(v, 2, "api_key", "ollama"),
        text_field(v, 3, "model", "llama3.2-vision"),
        count_field(v, 4, "interval_sec", 5, 0xffff_ffff),
        text_field(v, 5, "prompt", ""),
    ) {
        (Some(enabled), Some(base_url), Some(api_key), Some(model), Some(interval), Some(prompt))
            => Some(
            LlmConfig { enabled, base_url, api_key, model, interval_sec: interval as u32, prompt },
        ),
        _ => None,
    }
}

pub open spec fn cloud_from(v: Tree) -> Option<CloudFacts> {
    let publish = text_part(v, 0, "publish_url"@, Seq::empty());
    let watch = text_part(v, 1, "watch_url"@, Seq::empty());
    if shaped(v, 2) && publish is Some && watch is Some {
        Some(CloudFacts { publish_url: publish->Some_0, watch_url: watch->Some_0 })
    } else {
        None
    }
}

fn read_cloud(v: &Json) -> (r: Option<CloudflareConfig>)
    ensures
        match r {
            Some(c) => cloud_from(v.tree()) == Some(c@),
            None => cloud_from(v.tree()) is None,
        },
{
    if !fits(v, 2) {
        return None;
    }
    proof {
        reveal_strlit("");
        assert(""@ =~= Seq::<char>::empty());
    }
    match (text_field(v, 0, "publish_url", ""), text_field(v, 1, "watch_url", "")) {
        (Some(publish_url), Some(watch_url)) => Some(CloudflareConfig { publish_url, watch_url }),
        _ => None,
    }
}

pub open spec fn control_from(v: Tree) -> Option<ControlConfig> {
    let enabled = truth_part(v, 0, "enabled"@);
    let ai_enabled = truth_part(v, 1, "ai_enabled"@);
    let block_local = truth_part(v, 2, "block_local"@);
    let voice = truth_part(v, 3, "voice"@);
    let blank_screen = truth_part(v, 4, "blank_screen"@);
    let lock_on_end = truth_part(v, 5, "lock_on_end"@);
    let record_sessions = truth_part(v, 6, "record_sessions"@);
    let keep_awake = truth_part(v, 7, "keep_awake"@);
    if shaped(v, 8) && enabled is Some && ai_enabled is Some && block_local is Some && voice is Some
        && blank_screen is Some && lock_on_end is Some && record_sessions is Some
        && keep_awake is Some {
        Some(
            ControlConfig {
                enabled: enabled->Some_0,
                ai_enabled: ai_enabled->Some_0,
                block_local: block_local->Some_0,
                voice: voice->Some_0,
                blank_screen: blank_screen->Some_0,
                lock_on_end: lock_on_end->Some_0,
                record_sessions: record_sessions->Some_0,
                keep_awake: keep_awake->Some_0,
            },
        )
    } else {
        None
    }
}

fn read_control(v: &Json) -> (r: Option<ControlConfig>)
    ensures
        r == control_from(v.tree()),
{
    if !fits(v, 8) {
        return None;
    }
    match (
        truth_field(v, 0, "enabled"),
        truth_field(v, 1, "ai_enabled"),
        truth_field(v, 2, "block_local"),
        truth_field(v, 3, "voice"),
        truth_field(v, 4, "blank_screen"),
        truth_field(v, 5, "lock_on_end"),
        truth_field(v, 6, "record_sessions"),
        truth_field(v, 7, "keep_awake"),
    ) {
        (
            Some(enabled),
            Some(ai_enabled),
            Some(block_local),
            Some(voice),
            Some(blank_screen),
            Some(lock_on_end),
            Some(record_sessions),
            Some(keep_awake),
        ) => Some(
            ControlConfig {
                enabled,
                ai_enabled,
                block_local,
                voice,
                blank_screen,
                lock_on_end,
                record_sessions,
                keep_awake,
            },
        ),
        _ => None,
    }
}

pub open spec fn access_from(v: Tree) -> Option<AccessFacts> {
    let unattended = truth_part(v, 0, "unattended"@);
    let hash = text_part(v, 1, "password_hash"@, Seq::empty());
    if shaped(v, 2) && unattended is Some && hash is Some {
        Some(AccessFacts { unattended: unattended->Some_0, password_hash: hash->Some_0 })
    } else {
        None
    }
}

fn read_access(v: &Json) -> (r: Option<AccessConfig>)
    ensures
        match r {
            Some(c) => access_from(v.tree()) == Some(c@),
            None => access_from(v.tree()) is None,
        },
{
    if !fits(v, 2) {
        return None;
    }
    proof {
        reveal_strlit("");
        assert(""@ =~= Seq::<char>::empty());
    }
    match (truth_field(v, 0, "unattended"), text_field(v, 1, "password_hash", "")) {
        (Some(unattended), Some(password_hash)) => Some(AccessConfig { unattended, password_hash }),
        _ => None,
    }
}

/// The settings that a JSON value spells. Members of other names are ignored;
/// one setting of the wrong kind spoils the whole.
pub open spec fn config_from(v: Tree) -> Option<ConfigFacts> {
    let d = default_config();
    let host = text_part(v, 0, "host"@, d.host);
    let port = count_part(v, 1, "port"@, d.port as u64, 0xffff);
    let token = text_part(v, 2, "token"@, d.token);
    let capture = group(v, 3, "capture"@, d.capture, |t: Tree| capture_from(t));
    let encoder = group(v, 4, "encoder"@, d.encoder, |t: Tree| encoder_from(t));
    let llm = group(v, 5, "llm"@, d.llm, |t: Tree| llm_from(t));
    let cloudflare = group(v, 6, "cloudflare"@, d.cloudflare, |t: Tree| cloud_from(t));
    let control = group(v, 7, "control"@, d.control, |t: Tree| control_from(t));
    let access = group(v, 8, "access"@, d.access, |t: Tree| access_from(t));
    if shaped(v, 9) && host is Some && port is Some && token is Some && capture is Some
        && encoder is Some && llm is Some && cloudflare is Some && control is Some
        && access is Some {
        Some(
            ConfigFacts {
                host: host->Some_0,
                port: port->Some_0 as u16,
                token: token->Some_0,
                capture: capture->Some_0,
                encoder: encoder->Some_0,
                llm: llm->Some_0,
                cloudflare: cloudflare->Some_0,
                control: control->Some_0,
                access: access->Some_0,
            },
        )
    } else {
        None
    }
}

fn capture_group(v: &Json) -> (r: Option<CaptureConfig>)
    ensures
        match r {
            Some(c) => group(
                v.tree(),
                3,
                "capture"@,
                default_capture(),
                |t: Tree| capture_from(t),
            ) == Some(c@),
            None => group(
                v.tree(),
                3,
                "capture"@,
                default_capture(),
                |t: Tree| capture_from(t),
            ) is None,
        },
{
    match field(v, 3, "capture") {
        None => Some(CaptureConfig::default()),
        Some(j) => read_capture(j),
    }
}

fn encoder_group(v: &Json) -> (r: Option<EncoderConfig>)
    ensures
        match r {
            Some(c) => group(
                v.tree(),
                4,
                "encoder"@,
                default_encoder(),
                |t: Tree| encoder_from(t),
            ) == Some(c@),
            None => group(
                v.tree(),
                4,
                "encoder"@,
                default_encoder(),
                |t: Tree| encoder_from(t),
            ) is None,
        },
{
    match field(v, 4, "encoder") {
        None => Some(EncoderConfig::default()),
        Some(j) => read_encoder(j),
    }
}

fn llm_group(v: &Json) -> (r: Option<LlmConfig>)
    ensures
        match r {
            Some(c) => group(v.tree(), 5, "llm"@, default_llm(), |t: Tree| llm_from(t)) == Some(c@),
            None => group(v.tree(), 5, "llm"@, default_llm(), |t: Tree| llm_from(t)) is None,
        },
{
    match field(v, 5, "llm") {
        None => Some(LlmConfig::default()),
        Some(j) => read_llm(j),
    }
}

fn cloud_group(v: &Json) -> (r: Option<CloudflareConfig>)
    ensures
        match r {
            Some(c) => group(
                v.tree(),
                6,
                "cloudflare"@,
                default_cloud(),
                |t: Tree| cloud_from(t),
            ) == Some(c@),
            None => group(
                v.tree(),
                6,
                "cloudflare"@,
                default_cloud(),
                |t: Tree| cloud_from(t),
            ) is None,
        },
{
    match field(v, 6, "cloudflare") {
        None => Some(CloudflareConfig::default()),
        Some(j) => read_cloud(j),
    }
}

fn control_group(v: &Json) -> (r: Option<ControlConfig>)
    ensures
        r == group(v.tree(), 7, "control"@, default_control(), |t: Tree| control_from(t)),
{
    match field(v, 7, "control") {
        None => Some(ControlConfig::default()),
        Some(j) => read_control(j),
    }
}

fn access_group(v: &Json) -> (r: Option<AccessConfig>)
    ensures
        match r {
            Some(c) => group(
                v.tree(),
                8,
                "access"@,
                default_access(),
                |t: Tree| access_from(t),
            ) == Some(c@),
            None => group(
                v.tree(),
                8,
                "access"@,
                default_access(),
                |t: Tree| access_from(t),
            ) is None,
        },
{
    match field(v, 8, "access") {
        None => Some(AccessConfig::default()),
        Some(j) => read_access(j),
    }
}

/// The settings of a JSON value within their bounds; the defaults where it
/// spells none.
pub open spec fn settings(v: Tree) -> ConfigFacts {
    match config_from(v) {
        Some(c) => c.bounded(),
        None => default_config().bounded(),
    }
}

fn read_config(v: &Json) -> (r: Option<Config>)
    ensures
        match r {
            Some(c) => config_from(v.tree()) == Some(c@),
            None => config_from(v.tree()) is None,
        },
{
    if !fits(v, 9) {
        return None;
    }
    proof {
        reveal_strlit("");
        assert(""@ =~= Seq::<char>::empty());
    }
    match (
        text_field(v, 0, "host", "127.0.0.1"),
        count_field(v, 1, "port", 8080, 0xffff),
        text_field(v, 2, "token", ""),
        capture_group(v),
        encoder_group(v),
        llm_group(v),
        cloud_group(v),
        control_group(v),
        access_group(v),
    ) {
        (
            Some(host),
            Some(port),
            Some(token),
            Some(capture),
            Some(encoder),
            Some(llm),
            Some(cloudflare),
            Some(control),
            Some(access),
        ) => Some(
            Config {
                host,
                port: port as u16,
                token,
                capture,
                encoder,
                llm,
                cloudflare,
                control,
                access,
            },
        ),
        _ => None,
    }
}

pub open spec fn count_tree(n: u64) -> Tree {
    Tree::Num(Figure::UInt(n))
}

/// A scale as a JSON number; JSON has none for what is not finite.
pub open spec fn scale_tree(s: ScaleFacts) -> Tree {
    if magnitude(s.bits) >= INFINITE {
        Tree::Null
    } else {
        Tree::Num(Figure::Float { bits: s.bits, text: s.text })
    }
}

pub open spec fn capture_tree(c: CaptureFacts) -> Tree {
    Tree::Obj(
        seq![
            ("audio"@, Tree::Bool(c.audio)),
            ("audio_input"@, Tree::Str(c.audio_input)),
            ("driver"@, Tree::Str(c.driver)),
            ("fps"@, count_tree(c.fps as u64)),
            ("input"@, Tree::Str(c.input)),
            ("jpeg_quality"@, count_tree(c.jpeg_quality as u64)),
            ("scale"@, scale_tree(c.scale)),
        ],
    )
}

pub open spec fn encoder_tree(c: EncoderFacts) -> Tree {
    Tree::Obj(
        seq![
            ("bitrate_kbps"@, count_tree(c.bitrate_kbps as u64)),
            ("gop_frames"@, count_tree(c.gop_frames as u64)),
            ("max_height"@, count_tree(c.max_height as u64)),
            ("max_width"@, count_tree(c.max_width as u64)),
            ("mode"@, Tree::Str(c.mode)),
        ],
    )
}

pub open spec fn llm_tree(c: LlmFacts) -> Tree {
    Tree::Obj(
        seq![
            ("api_key"@, Tree::Str(c.api_key)),
            ("base_url"@, Tree::Str(c.base_url)),
            ("enabled"@, Tree::Bool(c.enabled)),
            ("interval_sec"@, count_tree(c.interval_sec as u64)),
            ("model"@, Tree::Str(c.model)),
            ("prompt"@, Tree::Str(c.prompt)),
        ],
    )
}

pub open spec fn cloud_tree(c: CloudFacts) -> Tree {
    Tree::Obj(
        seq![
            ("publish_url"@, Tree::Str(c.publish_url)),
            ("watch_url"@, Tree::Str(c.watch_url)),
        ],
    )
}

pub open spec fn control_tree(c: ControlConfig) -> Tree {
    Tree::Obj(
        seq![
            ("ai_enabled"@, Tree::Bool(c.ai_enabled)),
            ("blank_screen"@, Tree::Bool(c.blank_screen)),
            ("block_local"@, Tree::Bool(c.block_local)),
            ("enabled"@, Tree::Bool(c.enabled)),
            ("keep_awake"@, Tree::Bool(c.keep_awake)),
            ("lock_on_end"@, Tree::Bool(c.lock_on_end)),
            ("record_sessions"@, Tree::Bool(c.record_sessions)),
            ("voice"@, Tree::Bool(c.voice)),
        ],
    )
}

pub open spec fn access_tree(c: AccessFacts) -> Tree {
    Tree::Obj(
        seq![
            ("password_hash"@, Tree::Str(c.password_hash)),
            ("unattended"@, Tree::Bool(c.unattended)),
        ],
    )
}

/// The access settings as they are shown: whether a password is set, never its
/// digest.
pub open spec fn shown_access_tree(c: AccessFacts) -> Tree {
    Tree::Obj(
        seq![
            ("password_set"@, Tree::Bool(byte_len(c.password_hash) == 64)),
            ("unattended"@, Tree::Bool(c.unattended)),
        ],
    )
}

pub open spec fn whole_tree(c: ConfigFacts, access: Tree) -> Tree {
    Tree::Obj(
        seq![
            ("access"@, access),
            ("capture"@, capture_tree(c.capture)),
            ("cloudflare"@, cloud_tree(c.cloudflare)),
            ("control"@, control_tree(c.control)),
            ("encoder"@, encoder_tree(c.encoder)),
            ("host"@, Tree::Str(c.host)),
            ("llm"@, llm_tree(c.llm)),
            ("port"@, count_tree(c.port as u64)),
            ("token"@, Tree::Str(c.token)),
        ],
    )
}

/// The settings as a JSON value.
pub open spec fn config_tree(c: ConfigFacts) -> Tree {
    whole_tree(c, access_tree(c.access))
}

fn bool_of(name: &str, b: bool) -> (r: (String, Json))
    ensures
        r.0@ == name@,
        r.1.tree() == Tree::Bool(b),
{
    (name.to_owned(), Json::Bool(b))
}

fn str_of(name: &str, s: &String) -> (r: (String, Json))
    ensures
        r.0@ == name@,
        r.1.tree() == Tree::Str(s@),
{
    (name.to_owned(), Json::Str(s.clone()))
}

fn count_of(name: &str, n: u64) -> (r: (String, Json))
    ensures
        r.0@ == name@,
        r.1.tree() == count_tree(n),
{
    (name.to_owned(), Json::Num(Amount::UInt(n)))
}

fn scale_json(s: &Scale) -> (j: Json)
    ensures
        j.tree() == scale_tree(s@),
{
    let m: u64 = if s.bits >= SIGN {
        s.bits - SIGN
    } else {
        s.bits
    };
    if m >= INFINITE {
        Json::Null
    } else {
        Json::Num(Amount::Float { bits: s.bits, text: s.text.clone() })
    }
}

fn write_capture(c: &CaptureConfig) -> (j: Json)
    ensures
        j.tree() == capture_tree(c@),
{
    let v = vec![
        bool_of("audio", c.audio),
        str_of("audio_input", &c.audio_input),
        str_of("driver", &c.driver),
        count_of("fps", c.fps as u64),
        str_of("input", &c.input),
        count_of("jpeg_quality", c.jpeg_quality as u64),
        ("scale".to_owned(), scale_json(&c.scale)),
    ];
    proof {
        object_tree(v);
        assert(members(v@) =~= capture_tree(c@)->Obj_0);
    }
    Json::Obj(v)
}

fn write_encoder(c: &EncoderConfig) -> (j: Json)
    ensures
        j.tree() == encoder_tree(c@),
{
    let v = vec![
        count_of("bitrate_kbps", c.bitrate_kbps as u64),
        count_of("gop_frames", c.gop_frames as u64),
        count_of("max_height", c.max_height as u64),
        count_of("max_width", c.max_width as u64),
        str_of("mode", &c.mode),
    ];
    proof {
        object_tree(v);
        assert(members(v@) =~= encoder_tree(c@)->Obj_0);
    }
    Json::Obj(v)
}

fn write_llm(c: &LlmConfig) -> (j: Json)
    ensures
        j.tree() == llm_tree(c@),
{
    let v = vec![
        str_of("api_key", &c.api_key),
        str_of("base_url", &c.base_url),
        bool_of("enabled", c.enabled),
        count_of("interval_sec", c.interval_sec as u64),
        str_of("model", &c.model),
        str_of("prompt", &c.prompt),
    ];
    proof {
        object_tree(v);
        assert(members(v@) =~= llm_tree(c@)->Obj_0);
    }
    Json::Obj(v)
}

fn write_cloud(c: &CloudflareConfig) -> (j: Json)
    ensures
        j.tree() == cloud_tree(c@),
{
    let v = vec![str_of("publish_url", &c.publish_url), str_of("watch_url", &c.watch_url)];
    proof {
        object_tree(v);
        assert(members(v@) =~= cloud_tree(c@)->Obj_0);
    }
    Json::Obj(v)
}

fn write_control(c: &ControlConfig) -> (j: Json)
    ensures
        j.tree() == control_tree(*c),
{
    let v = vec![
        bool_of("ai_enabled", c.ai_enabled),
        bool_of("blank_screen", c.blank_screen),
        bool_of("block_local", c.block_local),
        bool_of("enabled", c.enabled),
        bool_of("keep_awake", c.keep_awake),
        bool_of("lock_on_end", c.lock_on_end),
        bool_of("record_sessions", c.record_sessions),
        bool_of("voice", c.voice),
    ];
    proof {
        object_tree(v);
        assert(members(v@) =~= control_tree(*c)->Obj_0);
    }
    Json::Obj(v)
}

fn write_whole(c: &Config, access: Json) -> (j: Json)
    ensures
        j.tree() == whole_tree(c@, access.tree()),
{
    let v = vec![
        ("access".to_owned(), access),
        ("capture".to_owned(), write_capture(&c.capture)),
        ("cloudflare".to_owned(), write_cloud(&c.cloudflare)),
        ("control".to_owned(), write_control(&c.control)),
        ("encoder".to_owned(), write_encoder(&c.encoder)),
        str_of("host", &c.host),
        ("llm".to_owned(), write_llm(&c.llm)),
        count_of("port", c.port as u64),
        str_of("token", &c.token),
    ];
    proof {
        object_tree(v);
        assert(members(v@) =~= whole_tree(c@, access.tree())->Obj_0);
    }
    Json::Obj(v)
}

/// Host GET /api/config: never send the hash, only whether a password is set.
pub fn redact_access(cfg: &Config) -> (j: Json)
    ensures
        j.tree() == whole_tree(cfg@, shown_access_tree(cfg@.access)),
{
    let set = cfg.access.password_hash.as_str().as_bytes().len() == 64;
    let v = vec![bool_of("password_set", set), bool_of("unattended", cfg.access.unattended)];
    proof {
        object_tree(v);
        assert(members(v@) =~= shown_access_tree(cfg@.access)->Obj_0);
    }
    write_whole(cfg, Json::Obj(v))
}

/// Where a member of that name first stands.
pub open spec fn place_of(m: Seq<(Seq<char>, Tree)>, k: Seq<char>) -> Option<int>
    decreases m.len(),
{
    if m.len() == 0 {
        None
    } else {
        match place_of(m.drop_last(), k) {
            Some(i) => Some(i),
            None => if m.last().0 == k {
                Some(m.len() - 1)
            } else {
                None
            },
        }
    }
}

/// One JSON value patched with another: objects member by member, everything
/// else replaced.
pub open spec fn patched(base: Tree, patch: Tree) -> Tree
    decreases patch, 0nat,
{
    match (base, patch) {
        (Tree::Obj(b), Tree::Obj(p)) => Tree::Obj(patched_with(b, p, p.len())),
        _ => patch,
    }
}

/// The members of an object patched with the first `n` of a patch.
pub open spec fn patched_with(b: Seq<(Seq<char>, Tree)>, p: Seq<(Seq<char>, Tree)>, n: nat) -> Seq<
    (Seq<char>, Tree),
>
    decreases p, n,
{
    if n == 0 || n > p.len() {
        b
    } else {
        let m = patched_with(b, p, (n - 1) as nat);
        let (k, v) = p[n - 1];
        match place_of(m, k) {
            Some(i) => m.update(
                i,
                (
                    k,
                    if m[i].1 is Obj && v is Obj {
                        patched(m[i].1, v)
                    } else {
                        v
                    },
                ),
            ),
            None => m.push((k, v)),
        }
    }
}

proof fn place_kept(m: Seq<(Seq<char>, Tree)>, k: Seq<char>, n: int)
    requires
        0 <= n <= m.len(),
    ensures
        place_of(m.take(n), k) is Some ==> place_of(m, k) == place_of(m.take(n), k),
    decreases m.len() - n,
{
    if n < m.len() {
        place_kept(m, k, n + 1);
        assert(m.take(n + 1).drop_last() =~= m.take(n));
    } else {
        assert(m.take(n) =~= m);
    }
}

fn find_place(v: &Vec<(String, Json)>, k: &str) -> (r: Option<usize>)
    ensures
        match r {
            Some(i) => place_of(members(v@), k@) == Some(i as int) && i < v@.len() && v@[i as int].0@
                == k@,
            None => place_of(members(v@), k@) is None,
        },
{
    let ghost m = members(v@);
    let mut i: usize = 0;
    while i < v.len()
        invariant
            i <= v@.len(),
            m == members(v@),
            place_of(m.take(i as int), k@) is None,
        decreases v@.len() - i,
    {
        assert(m.take(i + 1).drop_last() =~= m.take(i as int));
        if same(v[i].0.as_str(), k) {
            proof {
                place_kept(m, k@, i + 1);
            }
            return Some(i);
        }
        i += 1;
    }
    assert(m.take(m.len() as int) =~= m);
    None
}

fn merge_json(base: Json, patch: Json) -> (r: Json)
    ensures
        r.tree() == patched(base.tree(), patch.tree()),
    decreases patch,
{
    let ghost whole = patch;
    match (base, patch) {
        (Json::Obj(base_map), Json::Obj(patch_map)) => {
            let ghost pv = patch_map;
            let ghost b = members(base_map@);
            let ghost p = members(patch_map@);
            proof {
                object_tree(base_map);
                object_tree(patch_map);
            }
            let mut map = base_map;
            let mut rest = patch_map;
            let ghost mut n: nat = 0;
            assert(pv@.skip(0) =~= pv@);
            while rest.len() > 0
                invariant
                    whole == patch,
                    whole == Json::Obj(pv),
                    n <= pv@.len(),
                    rest@ == pv@.skip(n as int),
                    p == members(pv@),
                    members(map@) == patched_with(b, p, n),
                decreases rest@.len(),
            {
                let ghost m = members(map@);
                let (k, v) = rest.remove(0);
                assert(rest@ =~= pv@.skip((n + 1) as int));
                assert(p[n as int] == (k@, v.tree()));
                assert(v == pv@[n as int].1);
                assert(decreases_to!(whole => whole->Obj_0));
                assert(decreases_to!(pv => pv@));
                assert(decreases_to!(pv@ => pv@[n as int]));
                assert(decreases_to!(pv@[n as int] => pv@[n as int].1));
                match find_place(&map, k.as_str()) {
                    Some(i) => {
                        let (name, before) = map.remove(i);
                        let after = match (before, v) {
                            (Json::Obj(x), Json::Obj(y)) => merge_json(Json::Obj(x), Json::Obj(y)),
                            (_, y) => y,
                        };
                        map.insert(i, (name, after));
                        assert(members(map@) =~= m.update(i as int, (k@, after.tree())));
                    },
                    None => {
                        map.push((k, v));
                        assert(members(map@) =~= m.push((k@, v.tree())));
                    },
                }
                proof {
                    n = n + 1;
                }
            }
            proof {
                object_tree(map);
            }
            Json::Obj(map)
        },
        (_, y) => y,
    }
}

impl Config {
    pub fn from_value(v: &Json) -> (c: Config)
        ensures
            c@ == settings(v.tree()),
    {
        let mut cfg = match read_config(v) {
            Some(c) => c,
            None => Config::default(),
        };
        cfg.clamp();
        cfg
    }

    pub fn to_value(&self) -> (j: Json)
        ensures
            j.tree() == config_tree(self@),
    {
        let v = vec![
            str_of("password_hash", &self.access.password_hash),
            bool_of("unattended", self.access.unattended),
        ];
        proof {
            object_tree(v);
            assert(members(v@) =~= access_tree(self@.access)->Obj_0);
        }
        write_whole(self, Json::Obj(v))
    }

    pub fn merge_patch(&self, patch: Json) -> (c: Config)
        ensures
            c@ == settings(patched(config_tree(self@), patch.tree())),
    {
        let cur = merge_json(self.to_value(), patch);
        Config::from_value(&cur)
    }
}

/// A patch without its plaintext password, and the password that it held.
pub open spec fn password_taken(patch: Tree) -> (Tree, Option<Seq<char>>) {
    match patch {
        Tree::Obj(m) => match place_of(m, "access"@) {
            Some(i) => match m[i].1 {
                Tree::Obj(a) => match place_of(a, "password"@) {
                    Some(j) => (
                        Tree::Obj(m.update(i, (m[i].0, Tree::Obj(a.remove(j))))),
                        a[j].1.text(),
                    ),
                    None => (patch, None),
                },
                _ => (patch, None),
            },
            None => (patch, None),
        },
        _ => (patch, None),
    }
}

/// Pull plaintext `access.password` out of a config PATCH so it is never stored.
pub fn take_access_password(patch: &mut Json) -> (r: Option<String>)
    ensures
        (final(patch).tree(), opt_text(r)) == password_taken(old(patch).tree()),
{
    let mut out: Option<String> = None;
    let mut whole = Json::Null;
    std::mem::swap(&mut whole, patch);
    let after = match whole {
        Json::Obj(map) => {
            let mut map = map;
            let ghost m = members(map@);
            proof {
                object_tree(map);
            }
            match find_place(&map, "access") {
                Some(i) => {
                    let (name, value) = map.remove(i);
                    let value = match value {
                        Json::Obj(access) => {
                            let mut access = access;
                            let ghost a = members(access@);
                            proof {
                                object_tree(access);
                                assert(m[i as int].1 == Tree::Obj(a));
                            }
                            match find_place(&access, "password") {
                                Some(j) => {
                                    let (_, password) = access.remove(j);
                                    assert(members(access@) =~= a.remove(j as int));
                                    assert(a[j as int].1 == password.tree());
                                    out = match password {
                                        Json::Str(s) => Some(s),
                                        _ => None,
                                    };
                                },
                                None => {},
                            }
                            proof {
                                object_tree(access);
                            }
                            Json::Obj(access)
                        },
                        other => other,
                    };
                    map.insert(i, (name, value));
                    assert(members(map@) =~= m.update(i as int, (m[i as int].0, value.tree())));
                    assert(m.update(i as int, m[i as int]) =~= m);
                },
                None => {},
            }
            proof {
                object_tree(map);
            }
            Json::Obj(map)
        },
        other => other,
    };
    *patch = after;
    out
}

proof fn member_is(m: Seq<(Seq<char>, Tree)>, k: Seq<char>, i: int)
    requires
        0 <= i < m.len(),
        m[i].0 == k,
        forall|j: int| 0 <= j < i ==> (#[trigger] m[j]).0 != k,
    ensures
        member(m, k) == Some(m[i].1),
    decreases i,
{
    if i > 0 {
        assert(m[0].0 != k);
        assert forall|j: int| 0 <= j < i - 1 implies (#[trigger] m.drop_first()[j]).0 != k by {
            assert(m[j + 1].0 != k);
        }
        member_is(m.drop_first(), k, i - 1);
    }
}

proof fn capture_reads_back(c: CaptureFacts)
    requires
        magnitude(c.scale.bits) < INFINITE,
    ensures
        capture_from(capture_tree(c)) == Some(c),
{
    reveal_strlit("audio");
    assert("audio"@.len() == 5);
    reveal_strlit("audio_input");
    assert("audio_input"@.len() == 11);
    reveal_strlit("driver");
    assert("driver"@.len() == 6);
    reveal_strlit("fps");
    assert("fps"@.len() == 3);
    reveal_strlit("input");
    assert("input"@.len() == 5);
    reveal_strlit("jpeg_quality");
    assert("jpeg_quality"@.len() == 12);
    reveal_strlit("scale");
    assert("scale"@.len() == 5);
    let m = capture_tree(c)->Obj_0;
    assert("driver"@[0] != "jpeg_quality"@[0]);
    assert("audio"@[0] != "input"@[0] && "audio"@[0] != "scale"@[0] && "input"@[0] != "scale"@[0]);
    member_is(m, "audio"@, 0);
    member_is(m, "audio_input"@, 1);
    member_is(m, "driver"@, 2);
    member_is(m, "fps"@, 3);
    member_is(m, "input"@, 4);
    member_is(m, "jpeg_quality"@, 5);
    member_is(m, "scale"@, 6);
    assert(capture_from(capture_tree(c))->Some_0 =~= c);
}

proof fn encoder_reads_back(c: EncoderFacts)
    ensures
        encoder_from(encoder_tree(c)) == Some(c),
{
    reveal_strlit("bitrate_kbps");
    assert("bitrate_kbps"@.len() == 12);
    reveal_strlit("gop_frames");
    assert("gop_frames"@.len() == 10);
    reveal_strlit("max_height");
    assert("max_height"@.len() == 10);
    reveal_strlit("max_width");
    assert("max_width"@.len() == 9);
    reveal_strlit("mode");
    assert("mode"@.len() == 4);
    let m = encoder_tree(c)->Obj_0;
    assert("gop_frames"@[0] != "max_height"@[0]);
    member_is(m, "bitrate_kbps"@, 0);
    member_is(m, "gop_frames"@, 1);
    member_is(m, "max_height"@, 2);
    member_is(m, "max_width"@, 3);
    member_is(m, "mode"@, 4);
    assert(encoder_from(encoder_tree(c))->Some_0 =~= c);
}

proof fn llm_reads_back(c: LlmFacts)
    ensures
        llm_from(llm_tree(c)) == Some(c),
{
    reveal_strlit("api_key");
    assert("api_key"@.len() == 7);
    reveal_strlit("base_url");
    assert("base_url"@.len() == 8);
    reveal_strlit("enabled");
    assert("enabled"@.len() == 7);
    reveal_strlit("interval_sec");
    assert("interval_sec"@.len() == 12);
    reveal_strlit("model");
    assert("model"@.len() == 5);
    reveal_strlit("prompt");
    assert("prompt"@.len() == 6);
    let m = llm_tree(c)->Obj_0;
    assert("api_key"@[0] != "enabled"@[0]);
    member_is(m, "api_key"@, 0);
    member_is(m, "base_url"@, 1);
    member_is(m, "enabled"@, 2);
    member_is(m, "interval_sec"@, 3);
    member_is(m, "model"@, 4);
    member_is(m, "prompt"@, 5);
    assert(llm_from(llm_tree(c))->Some_0 =~= c);
}

proof fn cloud_reads_back(c: CloudFacts)
    ensures
        cloud_from(cloud_tree(c)) == Some(c),
{
    reveal_strlit("publish_url");
    assert("publish_url"@.len() == 11);
    reveal_strlit("watch_url");
    assert("watch_url"@.len() == 9);
    let m = cloud_tree(c)->Obj_0;
    member_is(m, "publish_url"@, 0);
    member_is(m, "watch_url"@, 1);
    assert(cloud_from(cloud_tree(c))->Some_0 =~= c);
}

proof fn control_reads_back(c: ControlConfig)
    ensures
        control_from(control_tree(c)) == Some(c),
{
    reveal_strlit("ai_enabled");
    assert("ai_enabled"@.len() == 10);
    reveal_strlit("blank_screen");
    assert("blank_screen"@.len() == 12);
    reveal_strlit("block_local");
    assert("block_local"@.len() == 11);
    reveal_strlit("enabled");
    assert("enabled"@.len() == 7);
    reveal_strlit("keep_awake");
    assert("keep_awake"@.len() == 10);
    reveal_strlit("lock_on_end");
    assert("lock_on_end"@.len() == 11);
    reveal_strlit("record_sessions");
    assert("record_sessions"@.len() == 15);
    reveal_strlit("voice");
    assert("voice"@.len() == 5);
    let m = control_tree(c)->Obj_0;
    assert("ai_enabled"@[0] != "keep_awake"@[0]);
    assert("block_local"@[0] != "lock_on_end"@[0]);
    member_is(m, "ai_enabled"@, 0);
    member_is(m, "blank_screen"@, 1);
    member_is(m, "block_local"@, 2);
    member_is(m, "enabled"@, 3);
    member_is(m, "keep_awake"@, 4);
    member_is(m, "lock_on_end"@, 5);
    member_is(m, "record_sessions"@, 6);
    member_is(m, "voice"@, 7);
}

proof fn access_reads_back(c: AccessFacts)
    ensures
        access_from(access_tree(c)) == Some(c),
{
    reveal_strlit("password_hash");
    assert("password_hash"@.len() == 13);
    reveal_strlit("unattended");
    assert("unattended"@.len() == 10);
    let m = access_tree(c)->Obj_0;
    member_is(m, "password_hash"@, 0);
    member_is(m, "unattended"@, 1);
    assert(access_from(access_tree(c))->Some_0 =~= c);
}

proof fn names_differ()
    ensures
        "access"@.len() == 6,
        "capture"@.len() == 7,
        "cloudflare"@.len() == 10,
        "control"@.len() == 7,
        "encoder"@.len() == 7,
        "host"@.len() == 4,
        "llm"@.len() == 3,
        "port"@.len() == 4,
        "token"@.len() == 5,
        "capture"@ != "control"@,
        "capture"@ != "encoder"@,
        "control"@ != "encoder"@,
        "host"@ != "port"@,
{
    reveal_strlit("access");
    reveal_strlit("capture");
    reveal_strlit("cloudflare");
    reveal_strlit("control");
    reveal_strlit("encoder");
    reveal_strlit("host");
    reveal_strlit("llm");
    reveal_strlit("port");
    reveal_strlit("token");
    assert("capture"@[1] != "control"@[1]);
    assert("capture"@[0] != "encoder"@[0]);
    assert("control"@[0] != "encoder"@[0]);
    assert("host"@[0] != "port"@[0]);
}

/// Settings that are written as JSON and read again are the same settings.
/// JSON has no number for a scale that is not finite.
pub proof fn settings_read_back(c: ConfigFacts)
    requires
        magnitude(c.capture.scale.bits) < INFINITE,
    ensures
        config_from(config_tree(c)) == Some(c),
        settings(config_tree(c)) == c.bounded(),
{
    names_differ();
    let m = config_tree(c)->Obj_0;
    member_is(m, "access"@, 0);
    member_is(m, "capture"@, 1);
    member_is(m, "cloudflare"@, 2);
    member_is(m, "control"@, 3);
    member_is(m, "encoder"@, 4);
    member_is(m, "host"@, 5);
    member_is(m, "llm"@, 6);
    member_is(m, "port"@, 7);
    member_is(m, "token"@, 8);
    capture_reads_back(c.capture);
    encoder_reads_back(c.encoder);
    llm_reads_back(c.llm);
    cloud_reads_back(c.cloudflare);
    control_reads_back(c.control);
    access_reads_back(c.access);
    assert(config_from(config_tree(c))->Some_0 =~= c);
}

proof fn place_is_member(m: Seq<(Seq<char>, Tree)>, k: Seq<char>)
    ensures
        match place_of(m, k) {
            Some(i) => 0 <= i < m.len() && m[i].0 == k && forall|j: int|
                0 <= j < i ==> (#[trigger] m[j]).0 != k,
            None => forall|j: int| 0 <= j < m.len() ==> (#[trigger] m[j]).0 != k,
        },
        match place_of(m, k) {
            Some(i) => member(m, k) == Some(m[i].1),
            None => member(m, k) is None,
        },
    decreases m.len(),
{
    place_found(m, k);
    if place_of(m, k) is Some {
        member_is(m, k, place_of(m, k)->Some_0);
    } else {
        member_missing(m, k);
    }
}

proof fn place_found(m: Seq<(Seq<char>, Tree)>, k: Seq<char>)
    ensures
        match place_of(m, k) {
            Some(i) => 0 <= i < m.len() && m[i].0 == k && forall|j: int|
                0 <= j < i ==> (#[trigger] m[j]).0 != k,
            None => forall|j: int| 0 <= j < m.len() ==> (#[trigger] m[j]).0 != k,
        },
    decreases m.len(),
{
    if m.len() > 0 {
        let d = m.drop_last();
        place_found(d, k);
        if place_of(d, k) is Some {
            assert forall|j: int| 0 <= j < place_of(d, k)->Some_0 implies (#[trigger] m[j]).0
                != k by {
                assert(d[j].0 != k);
            }
        } else {
            assert forall|j: int| 0 <= j < m.len() - 1 implies (#[trigger] m[j]).0 != k by {
                assert(d[j].0 != k);
            }
        }
    }
}

proof fn member_missing(m: Seq<(Seq<char>, Tree)>, k: Seq<char>)
    requires
        forall|j: int| 0 <= j < m.len() ==> (#[trigger] m[j]).0 != k,
    ensures
        member(m, k) is None,
    decreases m.len(),
{
    if m.len() > 0 {
        assert(m[0].0 != k);
        assert forall|j: int| 0 <= j < m.len() - 1 implies (#[trigger] m.drop_first()[j]).0
            != k by {
            assert(m[j + 1].0 != k);
        }
        member_missing(m.drop_first(), k);
    }
}

/// A patch leaves alone what it does not name.
pub proof fn unnamed_members_stay(
    b: Seq<(Seq<char>, Tree)>,
    p: Seq<(Seq<char>, Tree)>,
    n: nat,
    k: Seq<char>,
)
    requires
        n <= p.len(),
        forall|j: int| 0 <= j < n ==> (#[trigger] p[j]).0 != k,
    ensures
        member(patched_with(b, p, n), k) == member(b, k),
    decreases n,
{
    if n > 0 {
        unnamed_members_stay(b, p, (n - 1) as nat, k);
        let m = patched_with(b, p, (n - 1) as nat);
        let r = patched_with(b, p, n);
        let name = p[n - 1].0;
        assert(name != k);
        place_is_member(m, name);
        place_is_member(m, k);
        place_is_member(r, k);
        match place_of(m, k) {
            Some(i) => {
                assert(r[i] == m[i]);
                assert forall|j: int| 0 <= j < i implies (#[trigger] r[j]).0 != k by {
                    assert(m[j].0 != k);
                }
                member_is(r, k, i);
            },
            None => {
                assert forall|j: int| 0 <= j < r.len() implies (#[trigger] r[j]).0 != k by {
                    if j < m.len() {
                        assert(m[j].0 != k);
                    }
                }
                member_missing(r, k);
            },
        }
    }
}

/// A password that was taken out of a patch is no longer in it.
pub proof fn taken_password_is_gone(patch: Tree)
    requires
        patch is Obj,
        patch.get("access"@) is Some,
        patch.get("access"@)->Some_0 matches Tree::Obj(a) && forall|i: int, j: int|
            0 <= i < j < a.len() ==> (#[trigger] a[i]).0 != (#[trigger] a[j]).0,
    ensures
        password_taken(patch).0.get("access"@) matches Some(x) && x.get("password"@) is None,
        password_taken(patch).1 == patch.get("access"@)->Some_0.text_at("password"@),
{
    let m = patch->Obj_0;
    place_is_member(m, "access"@);
    let i = place_of(m, "access"@)->Some_0;
    let a = m[i].1->Obj_0;
    place_is_member(a, "password"@);
    let r = password_taken(patch).0->Obj_0;
    assert(r[i].0 == "access"@);
    assert forall|j: int| 0 <= j < i implies (#[trigger] r[j]).0 != "access"@ by {
        assert(r[j] == m[j]);
    }
    member_is(r, "access"@, i);
    if place_of(a, "password"@) is Some {
        let j = place_of(a, "password"@)->Some_0;
        let c = a.remove(j);
        assert forall|k: int| 0 <= k < c.len() implies (#[trigger] c[k]).0 != "password"@ by {
            if k < j {
                assert(c[k] == a[k]);
            } else {
                assert(c[k] == a[k + 1]);
                assert(a[j].0 != a[k + 1].0);
            }
        }
        member_missing(c, "password"@);
    }
}

/// The names of the settings.
pub open spec fn setting_name(k: Seq<char>) -> bool {
    ||| k == "host"@ || k == "port"@ || k == "token"@
    ||| k == "capture"@ || k == "encoder"@ || k == "llm"@
    ||| k == "cloudflare"@ || k == "control"@ || k == "access"@
}

/// The names of the settings in a group.
pub open spec fn group_setting_name(g: Seq<char>, k: Seq<char>) -> bool {
    if g == "capture"@ {
        k == "driver"@ || k == "input"@ || k == "fps"@ || k == "scale"@ || k == "jpeg_quality"@ || k
            == "audio"@ || k == "audio_input"@
    } else if g == "encoder"@ {
        k == "mode"@ || k == "bitrate_kbps"@ || k == "gop_frames"@ || k == "max_width"@ || k
            == "max_height"@
    } else if g == "llm"@ {
        k == "enabled"@ || k == "base_url"@ || k == "api_key"@ || k == "model"@ || k
            == "interval_sec"@ || k == "prompt"@
    } else if g == "cloudflare"@ {
        k == "publish_url"@ || k == "watch_url"@
    } else if g == "control"@ {
        k == "enabled"@ || k == "ai_enabled"@ || k == "block_local"@ || k == "voice"@ || k
            == "blank_screen"@ || k == "lock_on_end"@ || k == "record_sessions"@ || k
            == "keep_awake"@
    } else {
        k == "unattended"@ || k == "password_hash"@
    }
}

proof fn member_between(
    a: Seq<(Seq<char>, Tree)>,
    x: (Seq<char>, Tree),
    b: Seq<(Seq<char>, Tree)>,
    k: Seq<char>,
)
    ensures
        x.0 != k ==> member(a + seq![x] + b, k) == member(a + b, k),
        x.0 == k ==> member(a + seq![x] + b, k) == match member(a, k) {
            Some(t) => Some(t),
            None => Some(x.1),
        },
    decreases a.len(),
{
    let m = a + seq![x] + b;
    if a.len() == 0 {
        assert(m.drop_first() =~= b);
        assert(a + b =~= b);
    } else {
        member_between(a.drop_first(), x, b, k);
        assert(m.drop_first() =~= a.drop_first() + seq![x] + b);
        assert((a + b).drop_first() =~= a.drop_first() + b);
    }
}

/// A key that is no setting changes nothing, whatever stands under it and
/// wherever it stands.
pub proof fn unknown_keys_are_ignored(
    a: Seq<(Seq<char>, Tree)>,
    k: Seq<char>,
    x: Tree,
    b: Seq<(Seq<char>, Tree)>,
)
    requires
        !setting_name(k),
    ensures
        config_from(Tree::Obj(a + seq![(k, x)] + b)) == config_from(Tree::Obj(a + b)),
        settings(Tree::Obj(a + seq![(k, x)] + b)) == settings(Tree::Obj(a + b)),
{
    member_between(a, (k, x), b, "host"@);
    member_between(a, (k, x), b, "port"@);
    member_between(a, (k, x), b, "token"@);
    member_between(a, (k, x), b, "capture"@);
    member_between(a, (k, x), b, "encoder"@);
    member_between(a, (k, x), b, "llm"@);
    member_between(a, (k, x), b, "cloudflare"@);
    member_between(a, (k, x), b, "control"@);
    member_between(a, (k, x), b, "access"@);
}

proof fn unknown_in_capture(
    a: Seq<(Seq<char>, Tree)>,
    k: Seq<char>,
    x: Tree,
    b: Seq<(Seq<char>, Tree)>,
)
    requires
        !group_setting_name("capture"@, k),
    ensures
        capture_from(Tree::Obj(a + seq![(k, x)] + b)) == capture_from(Tree::Obj(a + b)),
{
    member_between(a, (k, x), b, "driver"@);
    member_between(a, (k, x), b, "input"@);
    member_between(a, (k, x), b, "fps"@);
    member_between(a, (k, x), b, "scale"@);
    member_between(a, (k, x), b, "jpeg_quality"@);
    member_between(a, (k, x), b, "audio"@);
    member_between(a, (k, x), b, "audio_input"@);
}

proof fn unknown_in_encoder(
    a: Seq<(Seq<char>, Tree)>,
    k: Seq<char>,
    x: Tree,
    b: Seq<(Seq<char>, Tree)>,
)
    requires
        !group_setting_name("encoder"@, k),
    ensures
        encoder_from(Tree::Obj(a + seq![(k, x)] + b)) == encoder_from(Tree::Obj(a + b)),
{
    names_differ();
    member_between(a, (k, x), b, "mode"@);
    member_between(a, (k, x), b, "bitrate_kbps"@);
    member_between(a, (k, x), b, "gop_frames"@);
    member_between(a, (k, x), b, "max_width"@);
    member_between(a, (k, x), b, "max_height"@);
}

proof fn unknown_in_llm(
    a: Seq<(Seq<char>, Tree)>,
    k: Seq<char>,
    x: Tree,
    b: Seq<(Seq<char>, Tree)>,
)
    requires
        !group_setting_name("llm"@, k),
    ensures
        llm_from(Tree::Obj(a + seq![(k, x)] + b)) == llm_from(Tree::Obj(a + b)),
{
    names_differ();
    member_between(a, (k, x), b, "enabled"@);
    member_between(a, (k, x), b, "base_url"@);
    member_between(a, (k, x), b, "api_key"@);
    member_between(a, (k, x), b, "model"@);
    member_between(a, (k, x), b, "interval_sec"@);
    member_between(a, (k, x), b, "prompt"@);
}

proof fn unknown_in_cloud(
    a: Seq<(Seq<char>, Tree)>,
    k: Seq<char>,
    x: Tree,
    b: Seq<(Seq<char>, Tree)>,
)
    requires
        !group_setting_name("cloudflare"@, k),
    ensures
        cloud_from(Tree::Obj(a + seq![(k, x)] + b)) == cloud_from(Tree::Obj(a + b)),
{
    names_differ();
    member_between(a, (k, x), b, "publish_url"@);
    member_between(a, (k, x), b, "watch_url"@);
}

proof fn unknown_in_control(
    a: Seq<(Seq<char>, Tree)>,
    k: Seq<char>,
    x: Tree,
    b: Seq<(Seq<char>, Tree)>,
)
    requires
        !group_setting_name("control"@, k),
    ensures
        control_from(Tree::Obj(a + seq![(k, x)] + b)) == control_from(Tree::Obj(a + b)),
{
    names_differ();
    member_between(a, (k, x), b, "enabled"@);
    member_between(a, (k, x), b, "ai_enabled"@);
    member_between(a, (k, x), b, "block_local"@);
    member_between(a, (k, x), b, "voice"@);
    member_between(a, (k, x), b, "blank_screen"@);
    member_between(a, (k, x), b, "lock_on_end"@);
    member_between(a, (k, x), b, "record_sessions"@);
    member_between(a, (k, x), b, "keep_awake"@);
}

proof fn unknown_in_access(
    a: Seq<(Seq<char>, Tree)>,
    k: Seq<char>,
    x: Tree,
    b: Seq<(Seq<char>, Tree)>,
)
    requires
        !group_setting_name("access"@, k),
    ensures
        access_from(Tree::Obj(a + seq![(k, x)] + b)) == access_from(Tree::Obj(a + b)),
{
    names_differ();
    member_between(a, (k, x), b, "unattended"@);
    member_between(a, (k, x), b, "password_hash"@);
}

proof fn other_members_stay(
    p: Seq<(Seq<char>, Tree)>,
    g: Seq<char>,
    x: Tree,
    y: Tree,
    q: Seq<(Seq<char>, Tree)>,
)
    ensures
        forall|k: Seq<char>|
            k != g ==> #[trigger] member(p + seq![(g, x)] + q, k) == member(
                p + seq![(g, y)] + q,
                k,
            ),
        member(p + seq![(g, x)] + q, g) == match member(p, g) {
            Some(t) => Some(t),
            None => Some(x),
        },
        member(p + seq![(g, y)] + q, g) == match member(p, g) {
            Some(t) => Some(t),
            None => Some(y),
        },
{
    assert forall|k: Seq<char>| k != g implies #[trigger] member(p + seq![(g, x)] + q, k) == member(
        p + seq![(g, y)] + q,
        k,
    ) by {
        member_between(p, (g, x), q, k);
        member_between(p, (g, y), q, k);
    }
    member_between(p, (g, x), q, g);
    member_between(p, (g, y), q, g);
}

/// Neither does a key inside a group of settings that is none of the group's.
pub proof fn unknown_keys_of_groups_are_ignored(
    p: Seq<(Seq<char>, Tree)>,
    g: Seq<char>,
    q: Seq<(Seq<char>, Tree)>,
    a: Seq<(Seq<char>, Tree)>,
    k: Seq<char>,
    x: Tree,
    b: Seq<(Seq<char>, Tree)>,
)
    requires
        g == "capture"@ || g == "encoder"@ || g == "llm"@ || g == "cloudflare"@ || g == "control"@
            || g == "access"@,
        !group_setting_name(g, k),
    ensures
        ({
            let with = Tree::Obj(p + seq![(g, Tree::Obj(a + seq![(k, x)] + b))] + q);
            let without = Tree::Obj(p + seq![(g, Tree::Obj(a + b))] + q);
            &&& config_from(with) == config_from(without)
            &&& settings(with) == settings(without)
        }),
{
    names_differ();
    other_members_stay(p, g, Tree::Obj(a + seq![(k, x)] + b), Tree::Obj(a + b), q);
    if g == "capture"@ {
        unknown_in_capture(a, k, x, b);
    } else if g == "encoder"@ {
        unknown_in_encoder(a, k, x, b);
    } else if g == "llm"@ {
        unknown_in_llm(a, k, x, b);
    } else if g == "cloudflare"@ {
        unknown_in_cloud(a, k, x, b);
    } else if g == "control"@ {
        unknown_in_control(a, k, x, b);
    } else {
        unknown_in_access(a, k, x, b);
    }
}

/// What a group of settings says is read by name, and what it does not say is as
/// it is without it.
pub proof fn capture_settings_are_read_by_name(v: Tree)
    requires
        v is Obj,
    ensures
        capture_from(v) matches Some(c) ==> {
            &&& c.driver == text_or(v.text_at("driver"@), "ffmpeg"@)
            &&& c.input == text_or(v.text_at("input"@), Seq::empty())
            &&& c.fps == or(v.whole_at("fps"@), 30)
            &&& c.jpeg_quality == or(v.whole_at("jpeg_quality"@), 95)
            &&& c.audio == or(v.truth_at("audio"@), false)
            &&& c.audio_input == text_or(v.text_at("audio_input"@), "0"@)
            &&& v.get("scale"@) matches Some(Tree::Num(Figure::Float { bits, text })) ==> c.scale
                == (ScaleFacts { bits, text })
            &&& v.get("scale"@) matches Some(Tree::Num(Figure::UInt(n))) ==> c.scale.text == decimal(
                n as nat,
            ) + ".0"@ && c.scale.bits == crate::float::whole_bits(n as nat) as u64
            &&& v.get("scale"@) is None ==> c.scale.bits == 0x3ff0_0000_0000_0000 && c.scale.text
                == "1.0"@
        },
        v.get("fps"@) matches Some(t) ==> (t.whole() is None || t.whole()->Some_0 > 0xffff_ffff
            ==> capture_from(v) is None),
        v.get("audio"@) matches Some(t) ==> (t.truth() is None ==> capture_from(v) is None),
        v.get("input"@) matches Some(t) ==> (t.text() is None ==> capture_from(v) is None),
{
}

/// The same of the encoder.
pub proof fn encoder_settings_are_read_by_name(v: Tree)
    requires
        v is Obj,
    ensures
        encoder_from(v) matches Some(c) ==> {
            &&& c.mode == text_or(v.text_at("mode"@), "ffmpeg"@)
            &&& c.bitrate_kbps == or(v.whole_at("bitrate_kbps"@), 20000)
            &&& c.gop_frames == or(v.whole_at("gop_frames"@), 15)
            &&& c.max_width == or(v.whole_at("max_width"@), 3840)
            &&& c.max_height == or(v.whole_at("max_height"@), 4320)
        },
        v.get("mode"@) matches Some(t) ==> (t.text() is None ==> encoder_from(v) is None),
        v.get("bitrate_kbps"@) matches Some(t) ==> (t.whole() is None ==> encoder_from(v) is None),
{
}

/// The same of the model.
pub proof fn model_settings_are_read_by_name(v: Tree)
    requires
        v is Obj,
    ensures
        llm_from(v) matches Some(c) ==> {
            &&& c.enabled == or(v.truth_at("enabled"@), false)
            &&& c.base_url == text_or(v.text_at("base_url"@), "http://127.0.0.1:11434/v1"@)
            &&& c.api_key == text_or(v.text_at("api_key"@), "ollama"@)
            &&& c.model == text_or(v.text_at("model"@), "llama3.2-vision"@)
            &&& c.interval_sec == or(v.whole_at("interval_sec"@), 5)
            &&& c.prompt == text_or(v.text_at("prompt"@), Seq::empty())
        },
{
}

/// The same of the remote control, the publisher and the access.
pub proof fn other_settings_are_read_by_name(v: Tree)
    requires
        v is Obj,
    ensures
        control_from(v) matches Some(c) ==> {
            &&& c.enabled == or(v.truth_at("enabled"@), false)
            &&& c.ai_enabled == or(v.truth_at("ai_enabled"@), false)
            &&& c.block_local == or(v.truth_at("block_local"@), false)
            &&& c.voice == or(v.truth_at("voice"@), false)
            &&& c.blank_screen == or(v.truth_at("blank_screen"@), false)
            &&& c.lock_on_end == or(v.truth_at("lock_on_end"@), false)
            &&& c.record_sessions == or(v.truth_at("record_sessions"@), false)
            &&& c.keep_awake == or(v.truth_at("keep_awake"@), false)
        },
        cloud_from(v) matches Some(c) ==> {
            &&& c.publish_url == text_or(v.text_at("publish_url"@), Seq::empty())
            &&& c.watch_url == text_or(v.text_at("watch_url"@), Seq::empty())
        },
        access_from(v) matches Some(c) ==> {
            &&& c.unattended == or(v.truth_at("unattended"@), false)
            &&& c.password_hash == text_or(v.text_at("password_hash"@), Seq::empty())
        },
        v.get("enabled"@) matches Some(t) ==> (t.truth() is None ==> control_from(v) is None),
        v.get("unattended"@) matches Some(t) ==> (t.truth() is None ==> access_from(v) is None),
{
}

/// Settings are read group by group; where one cannot be read, all are as they
/// are without any.
pub proof fn groups_are_read_by_name(v: Tree)
    requires
        v is Obj,
    ensures
        config_from(v) matches Some(c) ==> {
            &&& c.host == text_or(v.text_at("host"@), "127.0.0.1"@)
            &&& c.port == or(v.whole_at("port"@), 8080)
            &&& c.token == text_or(v.text_at("token"@), Seq::empty())
            &&& v.get("capture"@) matches Some(t) ==> capture_from(t) == Some(c.capture)
            &&& v.get("encoder"@) matches Some(t) ==> encoder_from(t) == Some(c.encoder)
            &&& v.get("llm"@) matches Some(t) ==> llm_from(t) == Some(c.llm)
            &&& v.get("cloudflare"@) matches Some(t) ==> cloud_from(t) == Some(c.cloudflare)
            &&& v.get("control"@) matches Some(t) ==> control_from(t) == Some(c.control)
            &&& v.get("access"@) matches Some(t) ==> access_from(t) == Some(c.access)
            &&& v.get("control"@) is None ==> !c.control.enabled && !c.control.ai_enabled
            &&& v.get("access"@) is None ==> !c.access.unattended
        },
        config_from(v) is None ==> settings(v) == default_config(),
        config_from(v) matches Some(c) ==> settings(v) == c.bounded(),
        v.get("port"@) matches Some(t) ==> (t.whole() is None || t.whole()->Some_0 > 65535
            ==> config_from(v) is None),
{
    crate::config::defaults_are_safe();
}

/// What a patch names takes the place of what was there, and groups are patched
/// setting by setting; what it does not name stays.
pub proof fn patches_change_what_they_name(
    b: Seq<(Seq<char>, Tree)>,
    p: Seq<(Seq<char>, Tree)>,
    n: nat,
    other: Seq<char>,
)
    requires
        0 < n <= p.len(),
        other != p[n - 1].0,
    ensures
        ({
            let before = Tree::Obj(patched_with(b, p, (n - 1) as nat));
            let after = Tree::Obj(patched_with(b, p, n));
            let (k, v) = p[n - 1];
            &&& before.get(k) matches Some(old_value) ==> (old_value is Obj && v is Obj ==> after.get(
                k,
            ) == Some(patched(old_value, v)))
            &&& before.get(k) matches Some(old_value) ==> (!(old_value is Obj) || !(v is Obj)
                ==> after.get(k) == Some(v))
            &&& before.get(k) is None ==> after.get(k) == Some(v)
            &&& after.get(other) == before.get(other)
        }),
        patched_with(b, p, 0) == b,
        patched(Tree::Obj(b), Tree::Obj(p)) == Tree::Obj(patched_with(b, p, p.len())),
{
    let m = patched_with(b, p, (n - 1) as nat);
    let r = patched_with(b, p, n);
    let (k, v) = p[n - 1];
    place_is_member(m, k);
    place_is_member(m, other);
    place_is_member(r, k);
    place_is_member(r, other);
    let at = match place_of(m, k) {
        Some(i) => i,
        None => m.len() as int,
    };
    assert(r[at].0 == k);
    assert forall|j: int| 0 <= j < m.len() && j != at implies #[trigger] r[j] == m[j] by {}
    assert forall|j: int| 0 <= j < at implies (#[trigger] r[j]).0 != k by {
        assert(r[j] == m[j]);
    }
    member_is(r, k, at);
    match place_of(m, other) {
        Some(i) => {
            assert(r[i] == m[i]);
            assert forall|j: int| 0 <= j < i implies (#[trigger] r[j]).0 != other by {
                if j != at {
                    assert(r[j] == m[j]);
                }
            }
            member_is(r, other, i);
        },
        None => {
            assert forall|j: int| 0 <= j < r.len() implies (#[trigger] r[j]).0 != other by {
                if j != at {
                    assert(r[j] == m[j]);
                }
            }
            member_missing(r, other);
        },
    }
}

/// What is shown of the access tells whether a password is set, and not its
/// digest.
pub proof fn shown_access_hides_the_digest(c: AccessFacts)
    ensures
        shown_access_tree(c).get("password_hash"@) is None,
        shown_access_tree(c).get("password"@) is None,
        shown_access_tree(c).get("password_set"@) == Some(
            Tree::Bool(byte_len(c.password_hash) == 64),
        ),
        shown_access_tree(c).get("unattended"@) == Some(Tree::Bool(c.unattended)),
{
    reveal_strlit("password_hash");
    reveal_strlit("password");
    reveal_strlit("password_set");
    reveal_strlit("unattended");
    assert("password_hash"@.len() == 13 && "password"@.len() == 8 && "password_set"@.len() == 12
        && "unattended"@.len() == 10);
    let m = seq![
        ("password_set"@, Tree::Bool(byte_len(c.password_hash) == 64)),
        ("unattended"@, Tree::Bool(c.unattended)),
    ];
    member_missing(m, "password_hash"@);
    member_missing(m, "password"@);
    member_is(m, "password_set"@, 0);
    member_is(m, "unattended"@, 1);
}

} // verus!
