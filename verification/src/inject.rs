//! Injectors: what is done with an action at the host.

use crate::float::Real;
use crate::input::{clip_limit, fitting, Act, Action, MouseButton, CLIP_MAX};
use crate::keys::{flag_of, flags_from_mods, flags_with, key_code, mac_keycode, modifier_flag};
use crate::octets::copy_of;
use crate::text::{chars_of, copy_texts, lower, texts};
use vstd::prelude::*;

verus! {

pub trait Injector {
    /// The actions that were handed over so far.
    spec fn given(&self) -> Seq<Act>;

    fn apply(&mut self, action: &Action)
        ensures
            final(self).given() == old(self).given().push(action@),
    ;
}

/// An event as it was injected.
#[derive(Debug, PartialEq)]
pub enum Injected {
    Move { x: Real, y: Real, button: Option<MouseButton> },
    Click { x: Real, y: Real, button: MouseButton, clicks: u8 },
    Down { x: Real, y: Real, button: MouseButton, clicks: u8 },
    Up { x: Real, y: Real, button: MouseButton, clicks: u8 },
    Scroll { x: Real, y: Real, dy: Real, dx: Real },
    Type { text: String },
    Key { key: String, down: Option<bool>, modifiers: Vec<String> },
    Clipboard { text: String },
    Paste { text: String },
    ClipboardPng { png: Vec<u8> },
    Display { id: String },
}

impl View for Injected {
    type V = Act;

    open spec fn view(&self) -> Act {
        match self {
            Injected::Move { x, y, button } => Act::Move { x: x.bits, y: y.bits, button: *button },
            Injected::Click { x, y, button, clicks } => Act::Click {
                x: x.bits,
                y: y.bits,
                button: *button,
                clicks: *clicks,
            },
            Injected::Down { x, y, button, clicks } => Act::Down {
                x: x.bits,
                y: y.bits,
                button: *button,
                clicks: *clicks,
            },
            Injected::Up { x, y, button, clicks } => Act::Up {
                x: x.bits,
                y: y.bits,
                button: *button,
                clicks: *clicks,
            },
            Injected::Scroll { x, y, dy, dx } => Act::Scroll {
                x: x.bits,
                y: y.bits,
                dy: dy.bits,
                dx: dx.bits,
            },
            Injected::Type { text } => Act::Type { text: text@ },
            Injected::Key { key, down, modifiers } => Act::Key {
                key: key@,
                down: *down,
                modifiers: texts(modifiers@),
            },
            Injected::Clipboard { text } => Act::Clipboard { text: text@ },
            Injected::Paste { text } => Act::Paste { text: text@ },
            Injected::ClipboardPng { png } => Act::ClipboardPng { png: png@ },
            Injected::Display { id } => Act::Display { id: id@ },
        }
    }
}

pub open spec fn events_of(v: Seq<Injected>) -> Seq<Act> {
    Seq::new(v.len(), |i: int| v[i]@)
}

/// Waits, files and the end of a task inject nothing.
pub open spec fn injects(a: Act) -> bool {
    !(a is Wait || a is Done || a is File || a is FileManage)
}

impl Injected {
    pub fn click(x: Real, y: Real) -> (e: Self)
        ensures
            e@ == (Act::Click { x: x.bits, y: y.bits, button: MouseButton::Left, clicks: 1 }),
    {
        Injected::Click { x, y, button: MouseButton::Left, clicks: 1 }
    }

    /// The event that an action injects.
    pub fn of(action: &Action) -> (r: Option<Injected>)
        ensures
            match r {
                Some(e) => injects(action@) && e@ == action@,
                None => !injects(action@),
            },
    {
        match action {
            Action::Move { x, y, button } => Some(
                Injected::Move { x: *x, y: *y, button: *button },
            ),
            Action::Click { x, y, button, clicks } => Some(
                Injected::Click { x: *x, y: *y, button: *button, clicks: *clicks },
            ),
            Action::Down { x, y, button, clicks } => Some(
                Injected::Down { x: *x, y: *y, button: *button, clicks: *clicks },
            ),
            Action::Up { x, y, button, clicks } => Some(
                Injected::Up { x: *x, y: *y, button: *button, clicks: *clicks },
            ),
            Action::Scroll { x, y, dy, dx } => Some(
                Injected::Scroll { x: *x, y: *y, dy: *dy, dx: *dx },
            ),
            Action::Type { text } => Some(Injected::Type { text: text.clone() }),
            Action::Key { key, down, modifiers } => Some(
                Injected::Key {
                    key: key.clone(),
                    down: *down,
                    modifiers: copy_texts(modifiers),
                },
            ),
            Action::Clipboard { text } => Some(Injected::Clipboard { text: text.clone() }),
            Action::Paste { text } => Some(Injected::Paste { text: text.clone() }),
            Action::ClipboardPng { png } => Some(Injected::ClipboardPng { png: copy_of(png) }),
            Action::Display { id } => Some(Injected::Display { id: id.clone() }),
            Action::Wait { .. } | Action::Done | Action::File { .. } | Action::FileManage { .. } => None,
        }
    }
}

/// An injector that keeps a record and a clipboard of its own.
pub struct FakeInjector {
    pub events: Vec<Injected>,
    pub clip: String,
    pub clip_png: Vec<u8>,
    pub clip_files: Vec<String>,
    pub display: (i32, i32, u32, u32),
    pub block_local: bool,
    pub blank_screen: bool,
    /// The host pressed the shortcut that takes the machine back.
    pub unlock: bool,
    pub log: Ghost<Seq<Act>>,
}

/// The clipboard text after an action.
pub open spec fn clip_after(clip: Seq<char>, a: Act) -> Seq<char> {
    match a {
        Act::Clipboard { text } => fitting(text, CLIP_MAX as int),
        Act::Paste { text } => if text.len() > 0 {
            fitting(text, CLIP_MAX as int)
        } else {
            clip
        },
        _ => clip,
    }
}

impl FakeInjector {
    pub fn new() -> (f: Self)
        ensures
            f.events@.len() == 0,
            f.clip@.len() == 0,
            f.clip_png@.len() == 0,
            f.clip_files@.len() == 0,
            f.display == (0i32, 0i32, 0u32, 0u32),
            !f.block_local,
            !f.blank_screen,
            !f.unlock,
            f.given().len() == 0,
    {
        FakeInjector {
            events: Vec::new(),
            clip: String::new(),
            clip_png: Vec::new(),
            clip_files: Vec::new(),
            display: (0, 0, 0, 0),
            block_local: false,
            blank_screen: false,
            unlock: false,
            log: Ghost(Seq::empty()),
        }
    }

    pub fn recorded(&self) -> (r: &Vec<Injected>)
        ensures
            *r == self.events,
    {
        &self.events
    }

    pub fn clipboard_set(&mut self, text: &str)
        ensures
            final(self).clip@ == fitting(text@, CLIP_MAX as int),
            *final(self) == (FakeInjector { clip: final(self).clip, ..*old(self) }),
    {
        self.clip = clip_limit(text.to_owned());
    }

    pub fn clipboard_get(&self) -> (r: Option<String>)
        ensures
            match r {
                Some(s) => s@ == self.clip@ && s@.len() > 0,
                None => self.clip@.len() == 0,
            },
    {
        if self.clip.as_str().is_empty() {
            None
        } else {
            Some(self.clip.clone())
        }
    }

    pub fn clipboard_set_png(&mut self, png: &[u8])
        ensures
            final(self).clip_png@ == png@,
            *final(self) == (FakeInjector { clip_png: final(self).clip_png, ..*old(self) }),
    {
        self.clip_png = vstd::slice::slice_to_vec(png);
    }

    pub fn clipboard_get_png(&self) -> (r: Option<Vec<u8>>)
        ensures
            match r {
                Some(p) => p@ == self.clip_png@ && p@.len() > 0,
                None => self.clip_png@.len() == 0,
            },
    {
        if self.clip_png.is_empty() {
            None
        } else {
            Some(copy_of(&self.clip_png))
        }
    }

    /// Whether the host took the machine back since the last call.
    pub fn take_local_unlock(&mut self) -> (r: bool)
        ensures
            r == old(self).unlock,
            *final(self) == (FakeInjector { unlock: false, ..*old(self) }),
    {
        let r = self.unlock;
        self.unlock = false;
        r
    }
}

impl Injector for FakeInjector {
    open spec fn given(&self) -> Seq<Act> {
        self.log@
    }

    fn apply(&mut self, action: &Action)
        ensures
            events_of(final(self).events@) == if injects(action@) {
                events_of(old(self).events@).push(action@)
            } else {
                events_of(old(self).events@)
            },
            final(self).clip@ == clip_after(old(self).clip@, action@),
            final(self).clip_png@ == match action@ {
                Act::ClipboardPng { png } => png,
                _ => old(self).clip_png@,
            },
            *final(self) == (FakeInjector {
                events: final(self).events,
                clip: final(self).clip,
                clip_png: final(self).clip_png,
                log: final(self).log,
                ..*old(self)
            }),
            !(action@ is Clipboard) && !(action@ is Paste) ==> final(self).clip == old(self).clip,
            !(action@ is ClipboardPng) ==> final(self).clip_png == old(self).clip_png,
    {
        proof {
            self.log@ = self.log@.push(action@);
        }
        match action {
            Action::Clipboard { text } => {
                self.clipboard_set(text.as_str());
            },
            Action::Paste { text } => {
                if !text.as_str().is_empty() {
                    self.clipboard_set(text.as_str());
                }
            },
            Action::ClipboardPng { png } => {
                self.clipboard_set_png(png.as_slice());
            },
            _ => {},
        }
        if let Some(ev) = Injected::of(action) {
            let ghost before = events_of(self.events@);
            self.events.push(ev);
            assert(events_of(self.events@) =~= before.push(action@));
        }
    }
}

/// An injector that does nothing.
pub struct NullInjector {
    pub log: Ghost<Seq<Act>>,
}

impl NullInjector {
    pub fn new() -> (n: Self)
        ensures
            n.given().len() == 0,
    {
        NullInjector { log: Ghost(Seq::empty()) }
    }
}

impl Injector for NullInjector {
    open spec fn given(&self) -> Seq<Act> {
        self.log@
    }

    fn apply(&mut self, action: &Action) {
        proof {
            self.log@ = self.log@.push(action@);
        }
    }
}

pub const LEFT_DOWN: u32 = 1;

pub const LEFT_UP: u32 = 2;

pub const RIGHT_DOWN: u32 = 3;

pub const RIGHT_UP: u32 = 4;

pub const MOVED: u32 = 5;

pub const LEFT_DRAGGED: u32 = 6;

pub const RIGHT_DRAGGED: u32 = 7;

pub const OTHER_DOWN: u32 = 25;

pub const OTHER_UP: u32 = 26;

pub const OTHER_DRAGGED: u32 = 27;

/// An event to post at the host, or a text for its clipboard.
#[derive(Debug, PartialEq)]
pub enum HidEvent {
    Mouse { kind: u32, x: Real, y: Real, button: u32, clicks: u8, flags: u64 },
    Wheel { dy: Real, dx: Real, flags: u64 },
    Key { code: u16, down: bool, flags: u64 },
    Unicode { unit: u16, flags: u64 },
    SetText { text: String },
    SetPng { png: Vec<u8> },
}

#[verifier::ext_equal]
pub ghost enum Post {
    Mouse { kind: u32, x: u64, y: u64, button: u32, clicks: u8, flags: u64 },
    Wheel { dy: u64, dx: u64, flags: u64 },
    Key { code: u16, down: bool, flags: u64 },
    Unicode { unit: u16, flags: u64 },
    SetText { text: Seq<char> },
    SetPng { png: Seq<u8> },
}

impl View for HidEvent {
    type V = Post;

    open spec fn view(&self) -> Post {
        match self {
            HidEvent::Mouse { kind, x, y, button, clicks, flags } => Post::Mouse {
                kind: *kind,
                x: x.bits,
                y: y.bits,
                button: *button,
                clicks: *clicks,
                flags: *flags,
            },
            HidEvent::Wheel { dy, dx, flags } => Post::Wheel {
                dy: dy.bits,
                dx: dx.bits,
                flags: *flags,
            },
            HidEvent::Key { code, down, flags } => Post::Key {
                code: *code,
                down: *down,
                flags: *flags,
            },
            HidEvent::Unicode { unit, flags } => Post::Unicode { unit: *unit, flags: *flags },
            HidEvent::SetText { text } => Post::SetText { text: text@ },
            HidEvent::SetPng { png } => Post::SetPng { png: png@ },
        }
    }
}

pub open spec fn posts(v: Seq<HidEvent>) -> Seq<Post> {
    Seq::new(v.len(), |i: int| v[i]@)
}

pub open spec fn button_number(b: MouseButton) -> u32 {
    match b {
        MouseButton::Left => 0,
        MouseButton::Right => 1,
        MouseButton::Middle => 2,
    }
}

pub open spec fn down_kind(b: MouseButton) -> u32 {
    match b {
        MouseButton::Left => LEFT_DOWN,
        MouseButton::Right => RIGHT_DOWN,
        MouseButton::Middle => OTHER_DOWN,
    }
}

pub open spec fn up_kind(b: MouseButton) -> u32 {
    match b {
        MouseButton::Left => LEFT_UP,
        MouseButton::Right => RIGHT_UP,
        MouseButton::Middle => OTHER_UP,
    }
}

pub open spec fn drag_kind(b: MouseButton) -> u32 {
    match b {
        MouseButton::Left => LEFT_DRAGGED,
        MouseButton::Right => RIGHT_DRAGGED,
        MouseButton::Middle => OTHER_DRAGGED,
    }
}

pub open spec fn button_bit(b: MouseButton) -> u8 {
    match b {
        MouseButton::Left => 1,
        MouseButton::Right => 2,
        MouseButton::Middle => 4,
    }
}

fn cg_button(b: MouseButton) -> (n: u32)
    ensures
        n == button_number(b),
{
    match b {
        MouseButton::Left => 0,
        MouseButton::Right => 1,
        MouseButton::Middle => 2,
    }
}

fn down_ty(b: MouseButton) -> (n: u32)
    ensures
        n == down_kind(b),
{
    match b {
        MouseButton::Left => LEFT_DOWN,
        MouseButton::Right => RIGHT_DOWN,
        MouseButton::Middle => OTHER_DOWN,
    }
}

fn up_ty(b: MouseButton) -> (n: u32)
    ensures
        n == up_kind(b),
{
    match b {
        MouseButton::Left => LEFT_UP,
        MouseButton::Right => RIGHT_UP,
        MouseButton::Middle => OTHER_UP,
    }
}

fn drag_ty(b: MouseButton) -> (n: u32)
    ensures
        n == drag_kind(b),
{
    match b {
        MouseButton::Left => LEFT_DRAGGED,
        MouseButton::Right => RIGHT_DRAGGED,
        MouseButton::Middle => OTHER_DRAGGED,
    }
}

fn bit_of(b: MouseButton) -> (n: u8)
    ensures
        n == button_bit(b),
{
    match b {
        MouseButton::Left => 1,
        MouseButton::Right => 2,
        MouseButton::Middle => 4,
    }
}

/// The UTF-16 units of a character.
pub open spec fn units(c: char) -> Seq<u16> {
    let n = c as u32;
    if n < 0x1_0000 {
        seq![n as u16]
    } else {
        seq![
            (0xd800 + (n - 0x1_0000) / 0x400) as u16,
            (0xdc00 + (n - 0x1_0000) % 0x400) as u16,
        ]
    }
}

/// The key presses that type a text under the flags held.
pub open spec fn typed(s: Seq<char>, flags: u64) -> Seq<Post>
    decreases s.len(),
{
    if s.len() == 0 {
        Seq::empty()
    } else {
        typed(s.drop_last(), flags) + Seq::new(
            units(s.last()).len(),
            |i: int| Post::Unicode { unit: units(s.last())[i], flags },
        )
    }
}

/// Buttons and modifiers that are held down.
#[derive(Clone, Copy, Debug, PartialEq, Eq, Structural)]
pub struct HidState {
    pub buttons: u8,
    pub flags: u64,
}

impl HidState {
    /// Modifiers held after a key.
    pub open spec fn flags_after(self, key: Seq<char>, down: Option<bool>) -> u64 {
        match down {
            Some(true) => self.flags | flag_of(key),
            Some(false) => self.flags & !flag_of(key),
            None => self.flags,
        }
    }

    /// What a key posts. A key without a code that is one character is typed
    /// as that character, by its first UTF-16 unit.
    pub open spec fn key_posts(
        self,
        key: Seq<char>,
        down: Option<bool>,
        modifiers: Seq<Seq<char>>,
    ) -> Seq<Post> {
        let flags = flags_with(modifiers, self.flags_after(key, down));
        match (down, key_code(key)) {
            (Some(d), Some(code)) => seq![Post::Key { code, down: d, flags }],
            (Some(_), None) => Seq::empty(),
            (None, Some(code)) => seq![
                Post::Key { code, down: true, flags },
                Post::Key { code, down: false, flags },
            ],
            (None, None) => if key.len() == 1 {
                seq![Post::Unicode { unit: units(key[0])[0], flags }]
            } else {
                Seq::empty()
            },
        }
    }

    /// The button of a move that names none: the one that is held.
    pub open spec fn held_button(self) -> MouseButton {
        if self.buttons & 2 != 0 {
            MouseButton::Right
        } else if self.buttons & 4 != 0 {
            MouseButton::Middle
        } else {
            MouseButton::Left
        }
    }

    /// What is posted for an action.
    pub open spec fn posts_for(self, a: Act) -> Seq<Post> {
        let flags = self.flags;
        match a {
            Act::Move { x, y, button } => {
                let b = match button {
                    Some(b) => b,
                    None => self.held_button(),
                };
                seq![
                    Post::Mouse {
                        kind: if self.buttons != 0 {
                            drag_kind(b)
                        } else {
                            MOVED
                        },
                        x,
                        y,
                        button: button_number(b),
                        clicks: 1,
                        flags,
                    },
                ]
            },
            Act::Click { x, y, button, clicks } => {
                let b = button_number(button);
                seq![
                    Post::Mouse { kind: MOVED, x, y, button: b, clicks, flags },
                    Post::Mouse { kind: down_kind(button), x, y, button: b, clicks, flags },
                    Post::Mouse { kind: up_kind(button), x, y, button: b, clicks, flags },
                ]
            },
            Act::Down { x, y, button, clicks } => seq![
                Post::Mouse {
                    kind: down_kind(button),
                    x,
                    y,
                    button: button_number(button),
                    clicks,
                    flags,
                },
            ],
            Act::Up { x, y, button, clicks } => seq![
                Post::Mouse {
                    kind: up_kind(button),
                    x,
                    y,
                    button: button_number(button),
                    clicks,
                    flags,
                },
            ],
            Act::Scroll { x, y, dy, dx } => seq![
                Post::Mouse { kind: MOVED, x, y, button: 0, clicks: 1, flags },
                Post::Wheel { dy, dx, flags },
            ],
            Act::Type { text } => typed(text, flags),
            Act::Key { key, down, modifiers } => self.key_posts(key, down, modifiers),
            Act::Clipboard { text } => seq![Post::SetText { text }],
            Act::Paste { text } => {
                let v = self.key_posts("v"@, None, seq!["Meta"@]);
                if text.len() > 0 {
                    seq![Post::SetText { text }] + v
                } else {
                    v
                }
            },
            Act::ClipboardPng { png } => seq![Post::SetPng { png }],
            _ => Seq::empty(),
        }
    }

    /// What is held after an action.
    pub open spec fn after(self, a: Act) -> HidState {
        match a {
            Act::Down { button, .. } => HidState {
                buttons: self.buttons | button_bit(button),
                ..self
            },
            Act::Up { button, .. } => HidState {
                buttons: self.buttons & !button_bit(button),
                ..self
            },
            Act::Key { key, down, .. } => HidState { flags: self.flags_after(key, down), ..self },
            _ => self,
        }
    }

    pub fn new() -> (s: Self)
        ensures
            s.buttons == 0,
            s.flags == 0,
    {
        HidState { buttons: 0, flags: 0 }
    }

    fn apply_key(&mut self, key: &str, down: Option<bool>, modifiers: &Vec<String>) -> (out: Vec<
        HidEvent,
    >)
        ensures
            posts(out@) == old(self).key_posts(key@, down, texts(modifiers@)),
            *final(self) == (HidState { flags: old(self).flags_after(key@, down), ..*old(self) }),
    {
        let bit: u64 = modifier_flag(key);
        match down {
            Some(true) => {
                self.flags = self.flags | bit;
            },
            Some(false) => {
                self.flags = self.flags & !bit;
            },
            None => {},
        }
        let flags: u64 = flags_from_mods(modifiers, self.flags);
        let code = mac_keycode(key);
        let mut out: Vec<HidEvent> = Vec::new();
        match down {
            Some(d) => {
                if let Some(c) = code {
                    out.push(HidEvent::Key { code: c, down: d, flags });
                }
            },
            None => {
                if let Some(c) = code {
                    out.push(HidEvent::Key { code: c, down: true, flags });
                    out.push(HidEvent::Key { code: c, down: false, flags });
                } else {
                    let v = chars_of(key);
                    if v.len() == 1 {
                        let u = units_of(v[0]);
                        out.push(HidEvent::Unicode { unit: u[0], flags });
                    }
                }
            },
        }
        assert(posts(out@) =~= old(self).key_posts(key@, down, texts(modifiers@)));
        out
    }

    /// The events that do an action at the host, one after the other.
    pub fn plan(&mut self, action: &Action) -> (out: Vec<HidEvent>)
        ensures
            posts(out@) == old(self).posts_for(action@),
            *final(self) == old(self).after(action@),
    {
        let held: u64 = self.flags;
        let mut out: Vec<HidEvent> = Vec::new();
        match action {
            Action::Move { x, y, button } => {
                let b = match button {
                    Some(b) => *b,
                    None => {
                        if self.buttons & 2 != 0 {
                            MouseButton::Right
                        } else if self.buttons & 4 != 0 {
                            MouseButton::Middle
                        } else {
                            MouseButton::Left
                        }
                    },
                };
                let kind: u32 = if self.buttons != 0 {
                    drag_ty(b)
                } else {
                    MOVED
                };
                out.push(
                    HidEvent::Mouse {
                        kind,
                        x: *x,
                        y: *y,
                        button: cg_button(b),
                        clicks: 1,
                        flags: held,
                    },
                );
            },
            Action::Click { x, y, button, clicks } => {
                let b: u32 = cg_button(*button);
                out.push(
                    HidEvent::Mouse {
                        kind: MOVED,
                        x: *x,
                        y: *y,
                        button: b,
                        clicks: *clicks,
                        flags: held,
                    },
                );
                out.push(
                    HidEvent::Mouse {
                        kind: down_ty(*button),
                        x: *x,
                        y: *y,
                        button: b,
                        clicks: *clicks,
                        flags: held,
                    },
                );
                out.push(
                    HidEvent::Mouse {
                        kind: up_ty(*button),
                        x: *x,
                        y: *y,
                        button: b,
                        clicks: *clicks,
                        flags: held,
                    },
                );
            },
            Action::Down { x, y, button, clicks } => {
                self.buttons = self.buttons | bit_of(*button);
                out.push(
                    HidEvent::Mouse {
                        kind: down_ty(*button),
                        x: *x,
                        y: *y,
                        button: cg_button(*button),
                        clicks: *clicks,
                        flags: held,
                    },
                );
            },
            Action::Up { x, y, button, clicks } => {
                self.buttons = self.buttons & !bit_of(*button);
                out.push(
                    HidEvent::Mouse {
                        kind: up_ty(*button),
                        x: *x,
                        y: *y,
                        button: cg_button(*button),
                        clicks: *clicks,
                        flags: held,
                    },
                );
            },
            Action::Scroll { x, y, dy, dx } => {
                out.push(
                    HidEvent::Mouse {
                        kind: MOVED,
                        x: *x,
                        y: *y,
                        button: 0,
                        clicks: 1,
                        flags: held,
                    },
                );
                out.push(HidEvent::Wheel { dy: *dy, dx: *dx, flags: held });
            },
            Action::Type { text } => {
                out = type_text(text.as_str(), held);
            },
            Action::Key { key, down, modifiers } => {
                out = self.apply_key(key.as_str(), *down, modifiers);
            },
            Action::Clipboard { text } => {
                out.push(HidEvent::SetText { text: text.clone() });
            },
            Action::Paste { text } => {
                if !text.as_str().is_empty() {
                    out.push(HidEvent::SetText { text: text.clone() });
                }
                let ghost first = posts(out@);
                let mut meta: Vec<String> = Vec::new();
                meta.push("Meta".to_owned());
                assert(texts(meta@) =~= seq!["Meta"@]);
                let mut rest = self.apply_key("v", None, &meta);
                let ghost second = posts(rest@);
                out.append(&mut rest);
                assert(posts(out@) =~= first + second);
            },
            Action::ClipboardPng { png } => {
                out.push(HidEvent::SetPng { png: copy_of(png) });
            },
            _ => {},
        }
        assert(posts(out@) =~= old(self).posts_for(action@));
        out
    }
}

fn units_of(c: char) -> (u: Vec<u16>)
    ensures
        u@ == units(c),
{
    let n: u32 = c as u32;
    let mut u: Vec<u16> = Vec::new();
    if n < 0x1_0000 {
        u.push(n as u16);
    } else {
        proof {
            vstd::utf8::char_is_scalar(c);
        }
        u.push((0xd800 + (n - 0x1_0000) / 0x400) as u16);
        u.push((0xdc00 + (n - 0x1_0000) % 0x400) as u16);
    }
    assert(u@ =~= units(c));
    u
}

fn type_text(s: &str, flags: u64) -> (out: Vec<HidEvent>)
    ensures
        posts(out@) == typed(s@, flags),
{
    let v = chars_of(s);
    let mut out: Vec<HidEvent> = Vec::new();
    let mut i: usize = 0;
    assert(posts(out@) =~= typed(v@.take(0), flags));
    while i < v.len()
        invariant
            i <= v@.len(),
            posts(out@) == typed(v@.take(i as int), flags),
        decreases v@.len() - i,
    {
        let u = units_of(v[i]);
        let ghost before = posts(out@);
        let mut k: usize = 0;
        while k < u.len()
            invariant
                k <= u@.len(),
                posts(out@) == before + Seq::new(
                    k as nat,
                    |j: int| Post::Unicode { unit: u@[j], flags },
                ),
            decreases u@.len() - k,
        {
            let ghost here = posts(out@);
            out.push(HidEvent::Unicode { unit: u[k], flags });
            assert(posts(out@) =~= here.push(Post::Unicode { unit: u@[k as int], flags }));
            assert(posts(out@) =~= before + Seq::new(
                (k + 1) as nat,
                |j: int| Post::Unicode { unit: u@[j], flags },
            ));
            k += 1;
        }
        proof {
            let t = v@.take(i + 1);
            assert(t.drop_last() =~= v@.take(i as int));
            assert(t.last() == v@[i as int]);
            assert(posts(out@) =~= typed(t, flags));
        }
        i += 1;
    }
    assert(v@.take(v@.len() as int) =~= v@);
    out
}

/// A modifier that is pressed and released leaves no other modifier changed:
/// afterwards exactly the flags are held that were held, less its own.
pub proof fn released_modifier_is_off(s: HidState, key: Seq<char>, modifiers: Seq<Seq<char>>)
    ensures
        ({
            let pressed = s.after(Act::Key { key, down: Some(true), modifiers });
            let released = pressed.after(Act::Key { key, down: Some(false), modifiers });
            released == HidState { flags: s.flags & !flag_of(key), ..s }
        }),
{
    let f = s.flags;
    let b = flag_of(key);
    assert((f | b) & !b == f & !b) by (bit_vector);
}

/// The bits of an event's flags for Command and Shift.
pub const COMMAND_AND_SHIFT: u64 = 0x12_0000;

/// Whether an event of the host's own keyboard asks for the machine back: the
/// Escape key goes down while Command and Shift are held.
pub open spec fn asks_for_machine(kind: u32, code: i64, flags: u64) -> bool {
    kind == 10 && code == 53 && flags & COMMAND_AND_SHIFT == COMMAND_AND_SHIFT
}

pub fn takes_machine_back(kind: u32, code: i64, flags: u64) -> (r: bool)
    ensures
        r == asks_for_machine(kind, code, flags),
{
    kind == 10 && code == 53 && flags & COMMAND_AND_SHIFT == COMMAND_AND_SHIFT
}

/// The number that the host's events have for the press of a button.
pub open spec fn press_of(b: MouseButton) -> u32 {
    match b {
        MouseButton::Left => 1,
        MouseButton::Right => 3,
        MouseButton::Middle => 25,
    }
}

/// And for its release.
pub open spec fn release_of(b: MouseButton) -> u32 {
    match b {
        MouseButton::Left => 2,
        MouseButton::Right => 4,
        MouseButton::Middle => 26,
    }
}

/// Whether a button is down at the host: the last event that pressed or
/// released it pressed it.
pub open spec fn down_at_host(ps: Seq<Post>, b: MouseButton) -> bool
    decreases ps.len(),
{
    if ps.len() == 0 {
        false
    } else {
        match ps.last() {
            Post::Mouse { kind, .. } => if kind == press_of(b) {
                true
            } else if kind == release_of(b) {
                false
            } else {
                down_at_host(ps.drop_last(), b)
            },
            _ => down_at_host(ps.drop_last(), b),
        }
    }
}

/// What is posted for actions one after the other.
pub open spec fn posts_of_all(s: HidState, acts: Seq<Act>) -> Seq<Post>
    decreases acts.len(),
{
    if acts.len() == 0 {
        Seq::empty()
    } else {
        posts_of_all(s, acts.drop_last()) + held_after(s, acts.drop_last()).posts_for(acts.last())
    }
}

/// What is held after actions one after the other.
pub open spec fn held_after(s: HidState, acts: Seq<Act>) -> HidState
    decreases acts.len(),
{
    if acts.len() == 0 {
        s
    } else {
        held_after(s, acts.drop_last()).after(acts.last())
    }
}

/// Whether a button counts as held.
pub open spec fn holds(s: HidState, b: MouseButton) -> bool {
    match b {
        MouseButton::Left => s.buttons & 1 != 0,
        MouseButton::Right => s.buttons & 2 != 0,
        MouseButton::Middle => s.buttons & 4 != 0,
    }
}

/// Whether no button is clicked while it is held: such a click releases it at
/// the host.
pub open spec fn clicks_are_free(s: HidState, acts: Seq<Act>) -> bool
    decreases acts.len(),
{
    acts.len() == 0 || (clicks_are_free(s, acts.drop_last()) && match acts.last() {
        Act::Click { button, .. } => !holds(held_after(s, acts.drop_last()), button),
        _ => true,
    })
}

proof fn no_press_no_change(ps: Seq<Post>, more: Seq<Post>, b: MouseButton)
    requires
        forall|i: int|
            0 <= i < more.len() ==> match #[trigger] more[i] {
                Post::Mouse { kind, .. } => kind != press_of(b) && kind != release_of(b),
                _ => true,
            },
    ensures
        down_at_host(ps + more, b) == down_at_host(ps, b),
    decreases more.len(),
{
    if more.len() == 0 {
        assert(ps + more =~= ps);
    } else {
        assert((ps + more).drop_last() =~= ps + more.drop_last());
        assert((ps + more).last() == more[more.len() - 1]);
        assert forall|i: int| 0 <= i < more.len() - 1 implies match #[trigger] more.drop_last()[i] {
            Post::Mouse { kind, .. } => kind != press_of(b) && kind != release_of(b),
            _ => true,
        } by {
            assert(more.drop_last()[i] == more[i]);
        }
        no_press_no_change(ps, more.drop_last(), b);
    }
}

proof fn typed_is_no_mouse(s: Seq<char>, flags: u64)
    ensures
        forall|i: int| 0 <= i < typed(s, flags).len() ==> (#[trigger] typed(s, flags)[i]) is Unicode,
    decreases s.len(),
{
    if s.len() > 0 {
        typed_is_no_mouse(s.drop_last(), flags);
    }
}

proof fn bits_apart(n: u8)
    ensures
        (n | 1u8) & 1 != 0 && (n | 1u8) & 2 == n & 2 && (n | 1u8) & 4 == n & 4,
        (n | 2u8) & 2 != 0 && (n | 2u8) & 1 == n & 1 && (n | 2u8) & 4 == n & 4,
        (n | 4u8) & 4 != 0 && (n | 4u8) & 1 == n & 1 && (n | 4u8) & 2 == n & 2,
        (n & !1u8) & 1 == 0 && (n & !1u8) & 2 == n & 2 && (n & !1u8) & 4 == n & 4,
        (n & !2u8) & 2 == 0 && (n & !2u8) & 1 == n & 1 && (n & !2u8) & 4 == n & 4,
        (n & !4u8) & 4 == 0 && (n & !4u8) & 1 == n & 1 && (n & !4u8) & 2 == n & 2,
{
    assert((n | 1u8) & 1 != 0 && (n | 1u8) & 2 == n & 2 && (n | 1u8) & 4 == n & 4) by (bit_vector);
    assert((n | 2u8) & 2 != 0 && (n | 2u8) & 1 == n & 1 && (n | 2u8) & 4 == n & 4) by (bit_vector);
    assert((n | 4u8) & 4 != 0 && (n | 4u8) & 1 == n & 1 && (n | 4u8) & 2 == n & 2) by (bit_vector);
    assert((n & !1u8) & 1 == 0 && (n & !1u8) & 2 == n & 2 && (n & !1u8) & 4 == n & 4)
        by (bit_vector);
    assert((n & !2u8) & 2 == 0 && (n & !2u8) & 1 == n & 1 && (n & !2u8) & 4 == n & 4)
        by (bit_vector);
    assert((n & !4u8) & 4 == 0 && (n & !4u8) & 1 == n & 1 && (n & !4u8) & 2 == n & 2)
        by (bit_vector);
}

/// Whatever a watcher does, a button is down at the host exactly while it
/// counts as held: a press is posted when it is put down and a release when it
/// is let go, and a click leaves it up.
pub proof fn buttons_are_down_while_held(s: HidState, acts: Seq<Act>, b: MouseButton)
    requires
        s.buttons == 0,
        clicks_are_free(s, acts),
    ensures
        down_at_host(posts_of_all(s, acts), b) == holds(held_after(s, acts), b),
    decreases acts.len(),
{
    if acts.len() == 0 {
        assert(0u8 & 1 == 0 && 0u8 & 2 == 0 && 0u8 & 4 == 0) by (bit_vector);
    } else {
        let before = acts.drop_last();
        buttons_are_down_while_held(s, before, b);
        let ps = posts_of_all(s, before);
        let h = held_after(s, before);
        let more = h.posts_for(acts.last());
        bits_apart(h.buttons);
        match acts.last() {
            Act::Down { button, .. } => {
                assert((ps + more).drop_last() =~= ps);
                assert((ps + more).last() == more[0]);
            },
            Act::Up { button, .. } => {
                assert((ps + more).drop_last() =~= ps);
                assert((ps + more).last() == more[0]);
            },
            Act::Click { button, .. } => {
                let a = ps + more;
                reveal_with_fuel(down_at_host, 4);
                assert(a.last() == more[2]);
                assert(a.drop_last().last() == more[1]);
                assert(a.drop_last().drop_last().last() == more[0]);
                assert(a.drop_last().drop_last().drop_last() =~= ps);
            },
            Act::Type { text } => {
                typed_is_no_mouse(text, h.flags);
                no_press_no_change(ps, more, b);
            },
            _ => {
                no_press_no_change(ps, more, b);
            },
        }
    }
}

/// A button that is put down and let go is pressed once and then released, each
/// where the pointer was.
pub proof fn down_and_up_press_and_release(
    s: HidState,
    x: u64,
    y: u64,
    x2: u64,
    y2: u64,
    button: MouseButton,
    clicks: u8,
)
    ensures
        ({
            let n: u32 = match button {
                MouseButton::Left => 0,
                MouseButton::Right => 1,
                MouseButton::Middle => 2,
            };
            let down = Act::Down { x, y, button, clicks };
            let up = Act::Up { x: x2, y: y2, button, clicks };
            &&& posts_of_all(s, seq![down, up]) == seq![
                Post::Mouse { kind: press_of(button), x, y, button: n, clicks, flags: s.flags },
                Post::Mouse {
                    kind: release_of(button),
                    x: x2,
                    y: y2,
                    button: n,
                    clicks,
                    flags: s.flags,
                },
            ]
            &&& posts_of_all(s, seq![Act::Click { x, y, button, clicks }]) == seq![
                Post::Mouse { kind: 5, x, y, button: n, clicks, flags: s.flags },
            ] + posts_of_all(s, seq![down, Act::Up { x, y, button, clicks }])
            &&& !holds(held_after(s, seq![down, up]), button)
            &&& holds(held_after(s, seq![down]), button)
        }),
{
    let down = Act::Down { x, y, button, clicks };
    let up = Act::Up { x: x2, y: y2, button, clicks };
    let here = Act::Up { x, y, button, clicks };
    let none = Seq::<Act>::empty();
    reveal_with_fuel(posts_of_all, 3);
    reveal_with_fuel(held_after, 3);
    assert(seq![down, up].drop_last() =~= seq![down]);
    assert(seq![down, here].drop_last() =~= seq![down]);
    assert(seq![down].drop_last() =~= none);
    assert(seq![Act::Click { x, y, button, clicks }].drop_last() =~= none);
    bits_apart(s.buttons);
    bits_apart(s.after(down).buttons);
    let n = button_number(button);
    assert(posts_of_all(s, seq![down]) =~= s.posts_for(down));
    assert(posts_of_all(s, seq![down, up]) =~= seq![
        Post::Mouse { kind: press_of(button), x, y, button: n, clicks, flags: s.flags },
        Post::Mouse { kind: release_of(button), x: x2, y: y2, button: n, clicks, flags: s.flags },
    ]);
    assert(posts_of_all(s, seq![Act::Click { x, y, button, clicks }]) =~= seq![
        Post::Mouse { kind: 5, x, y, button: n, clicks, flags: s.flags },
    ] + posts_of_all(s, seq![down, here]));
}

/// A move goes to its place: as a drag of a button that is held, as a bare move
/// where none is.
pub proof fn a_move_goes_to_its_place(s: HidState, x: u64, y: u64, button: Option<MouseButton>)
    ensures
        ({
            let ps = s.posts_for(Act::Move { x, y, button });
            &&& ps.len() == 1
            &&& ps[0] matches Post::Mouse { kind, x: px, y: py, flags, .. } && px == x && py == y
                && flags == s.flags && (kind == 5 <==> s.buttons == 0)
            &&& button matches Some(b) ==> (s.buttons != 0 ==> ps[0]->Mouse_kind == match b {
                MouseButton::Left => 6u32,
                MouseButton::Right => 7,
                MouseButton::Middle => 27,
            })
            &&& button is None && s.buttons == 1 ==> ps[0]->Mouse_kind == 6
            &&& button is None && s.buttons == 2 ==> ps[0]->Mouse_kind == 7
            &&& button is None && s.buttons == 4 ==> ps[0]->Mouse_kind == 27
            &&& s.after(Act::Move { x, y, button }) == s
        }),
{
    assert(1u8 & 2 == 0 && 1u8 & 4 == 0 && 2u8 & 2 != 0 && 4u8 & 2 == 0 && 4u8 & 4 != 0)
        by (bit_vector);
}

/// The wheel turns where the pointer is sent, by what the watcher turned it.
pub proof fn the_wheel_turns_at_its_place(s: HidState, x: u64, y: u64, dy: u64, dx: u64)
    ensures
        ({
            let ps = s.posts_for(Act::Scroll { x, y, dy, dx });
            &&& ps.len() == 2
            &&& ps[0] matches Post::Mouse { kind, x: px, y: py, .. } && kind == 5 && px == x && py == y
            &&& ps[1] == Post::Wheel { dy, dx, flags: s.flags }
        }),
{
}

/// The character that UTF-16 units stand for, and how many they are.
pub open spec fn unit_char(u: Seq<u16>) -> (char, int) {
    if 0xd800 <= u[0] < 0xdc00 {
        ((0x1_0000 + (u[0] - 0xd800) * 0x400 + (u[1] - 0xdc00)) as char, 2)
    } else {
        (u[0] as char, 1)
    }
}

/// The text that UTF-16 units stand for.
pub open spec fn unit_text(u: Seq<u16>) -> Seq<char>
    decreases u.len(),
{
    if u.len() < unit_char(u).1 {
        Seq::empty()
    } else {
        seq![unit_char(u).0] + unit_text(u.skip(unit_char(u).1))
    }
}

pub open spec fn posted_units(ps: Seq<Post>) -> Seq<u16> {
    Seq::new(ps.len(), |i: int| ps[i]->Unicode_unit)
}

proof fn units_read_back(c: char, rest: Seq<u16>)
    ensures
        unit_char(units(c) + rest) == (c, units(c).len() as int),
{
    vstd::utf8::char_is_scalar(c);
    let n = c as u32;
    let u = units(c) + rest;
    if n < 0x1_0000 {
        assert(u[0] == n as u16);
    } else {
        assert(u[0] == (0xd800 + (n - 0x1_0000) / 0x400) as u16);
        assert(u[1] == (0xdc00 + (n - 0x1_0000) % 0x400) as u16);
        assert(0x1_0000 + (n - 0x1_0000) / 0x400 * 0x400 + (n - 0x1_0000) % 0x400 == n);
    }
}

proof fn unit_text_of_front(c: char, rest: Seq<u16>)
    ensures
        unit_text(units(c) + rest) == seq![c] + unit_text(rest),
{
    units_read_back(c, rest);
    let u = units(c) + rest;
    assert(u.skip(units(c).len() as int) =~= rest);
}

/// All the units of a text.
pub open spec fn all_units(s: Seq<char>) -> Seq<u16>
    decreases s.len(),
{
    if s.len() == 0 {
        Seq::empty()
    } else {
        units(s[0]) + all_units(s.drop_first())
    }
}

proof fn all_units_push(s: Seq<char>, c: char)
    ensures
        all_units(s.push(c)) == all_units(s) + units(c),
    decreases s.len(),
{
    if s.len() == 0 {
        assert(s.push(c).drop_first() =~= s);
        assert(all_units(s.push(c)) =~= all_units(s) + units(c));
    } else {
        all_units_push(s.drop_first(), c);
        assert(s.push(c).drop_first() =~= s.drop_first().push(c));
        assert(all_units(s.push(c)) =~= all_units(s) + units(c));
    }
}

proof fn typed_units(s: Seq<char>, flags: u64)
    ensures
        posted_units(typed(s, flags)) == all_units(s),
        forall|i: int|
            0 <= i < typed(s, flags).len() ==> match #[trigger] typed(s, flags)[i] {
                Post::Unicode { flags: f, .. } => f == flags,
                _ => false,
            },
    decreases s.len(),
{
    if s.len() > 0 {
        let d = s.drop_last();
        typed_units(d, flags);
        all_units_push(d, s.last());
        assert(d.push(s.last()) =~= s);
        assert(posted_units(typed(s, flags)) =~= all_units(s));
    }
}

proof fn all_units_read_back(s: Seq<char>)
    ensures
        unit_text(all_units(s)) == s,
    decreases s.len(),
{
    if s.len() == 0 {
        assert(unit_text(all_units(s)) =~= s);
    } else {
        all_units_read_back(s.drop_first());
        unit_text_of_front(s[0], all_units(s.drop_first()));
        assert(seq![s[0]] + s.drop_first() =~= s);
    }
}

/// What is typed at the host is the text that was sent, with the modifiers that
/// are held.
pub proof fn typed_text_arrives(s: HidState, text: Seq<char>)
    ensures
        ({
            let ps = s.posts_for(Act::Type { text });
            &&& unit_text(posted_units(ps)) == text
            &&& forall|i: int|
                0 <= i < ps.len() ==> match #[trigger] ps[i] {
                    Post::Unicode { flags, .. } => flags == s.flags,
                    _ => false,
                }
        }),
{
    typed_units(text, s.flags);
    all_units_read_back(text);
}

/// A key that goes down or up posts just that; one that is struck goes down and
/// up again, with the same flags: those held, and those of the modifiers named.
pub proof fn keys_go_down_and_up(s: HidState, key: Seq<char>, code: u16, modifiers: Seq<Seq<char>>)
    requires
        key_code(key) == Some(code),
        flag_of(key) == 0,
    ensures
        ({
            let flags = flags_with(modifiers, s.flags);
            let down = Post::Key { code, down: true, flags };
            let up = Post::Key { code, down: false, flags };
            &&& s.posts_for(Act::Key { key, down: Some(true), modifiers }) == seq![down]
            &&& s.posts_for(Act::Key { key, down: Some(false), modifiers }) == seq![up]
            &&& s.posts_for(Act::Key { key, down: None, modifiers }) == seq![down, up]
        }),
{
    let f = s.flags;
    assert(f | 0 == f) by (bit_vector);
    assert(f & !0u64 == f) by (bit_vector);
}

/// A modifier that goes down is in the flags of all that follows, until it goes
/// up.
pub proof fn held_modifiers_count(s: HidState, key: Seq<char>, modifiers: Seq<Seq<char>>)
    ensures
        ({
            let down = s.after(Act::Key { key, down: Some(true), modifiers });
            let up = s.after(Act::Key { key, down: Some(false), modifiers });
            &&& down.flags & flag_of(key) == flag_of(key)
            &&& down.flags & s.flags == s.flags
            &&& up.flags & flag_of(key) == 0
            &&& down.buttons == s.buttons && up.buttons == s.buttons
            &&& s.after(Act::Key { key, down: None, modifiers }) == s
        }),
{
    let f = s.flags;
    let b = flag_of(key);
    assert((f | b) & b == b && (f | b) & f == f && (f & !b) & b == 0) by (bit_vector);
}

/// A paste puts the text on the clipboard and then strikes V with Command held;
/// without a text it strikes the keys alone.
pub proof fn a_paste_sets_and_strikes(s: HidState, text: Seq<char>)
    ensures
        ({
            let flags = s.flags | 0x10_0000;
            let keys = seq![
                Post::Key { code: 9, down: true, flags },
                Post::Key { code: 9, down: false, flags },
            ];
            s.posts_for(Act::Paste { text }) == if text.len() == 0 {
                keys
            } else {
                seq![Post::SetText { text }] + keys
            }
        }),
        s.posts_for(Act::Clipboard { text }) == seq![Post::SetText { text }],
{
    reveal_strlit("v");
    reveal_strlit("Meta");
    reveal_strlit("meta");
    assert("v"@ =~= seq!['v']);
    crate::keys::a_key_by_any_name('v');
    assert(lower("Meta"@) =~= "meta"@);
    crate::keys::modifiers_have_bits_of_their_own("Meta"@);
    let m = seq!["Meta"@];
    assert(m.drop_last() =~= Seq::<Seq<char>>::empty());
    reveal_with_fuel(flags_with, 2);
    let flags = s.flags | 0x10_0000;
    let keys = seq![
        Post::Key { code: 9, down: true, flags },
        Post::Key { code: 9, down: false, flags },
    ];
    assert(s.key_posts("v"@, None, m) =~= keys);
    assert(s.posts_for(Act::Paste { text }) =~= if text.len() == 0 {
        keys
    } else {
        seq![Post::SetText { text }] + keys
    });
}

/// The host takes its machine back with Escape, Command and Shift together, and
/// with nothing less.
pub proof fn three_keys_take_the_machine_back(kind: u32, code: i64, flags: u64)
    ensures
        asks_for_machine(kind, code, flags) <==> kind == 10 && code == 53 && flags & 0x10_0000 != 0
            && flags & 0x2_0000 != 0,
{
    assert(flags & 0x12_0000 == 0x12_0000 <==> flags & 0x10_0000 != 0 && flags & 0x2_0000 != 0)
        by (bit_vector);
}

/// A key that has no code is typed as its character where it is one; it cannot
/// go down or up.
pub proof fn other_keys_are_typed(s: HidState, c: char, modifiers: Seq<Seq<char>>, key: Seq<char>)
    requires
        key_code(seq![c]) is None,
        key_code(key) is None,
    ensures
        s.posts_for(Act::Key { key: seq![c], down: None, modifiers }).len() == 1,
        (c as u32) < 0xd800 ==> s.posts_for(Act::Key { key: seq![c], down: None, modifiers })[0]
            == (Post::Unicode { unit: c as u16, flags: flags_with(modifiers, s.flags) }),
        key.len() != 1 ==> s.posts_for(Act::Key { key, down: None, modifiers }).len() == 0,
        s.posts_for(Act::Key { key, down: Some(true), modifiers }).len() == 0,
        s.posts_for(Act::Key { key, down: Some(false), modifiers }).len() == 0,
{
}

/// Modifiers that are named with a key count for it alone.
pub proof fn named_modifiers_count_once(s: HidState, key: Seq<char>, modifiers: Seq<Seq<char>>)
    ensures
        s.flags_after(key, None) == s.flags,
        s.flags_after(key, Some(true)) == s.flags | flag_of(key),
        s.flags_after(key, Some(false)) == s.flags & !flag_of(key),
        s.after(Act::Key { key, down: Some(true), modifiers }).flags == s.flags | flag_of(key),
{
}

/// The host is handed every action but waits, files, the panel's and the end.
pub proof fn what_the_host_is_handed(a: Act)
    ensures
        a is Move || a is Click || a is Down || a is Up || a is Scroll || a is Type || a is Key
            || a is Clipboard || a is Paste || a is ClipboardPng || a is Display ==> injects(a),
        a is Wait ==> !injects(a),
        a is Done ==> !injects(a),
        a is File ==> !injects(a),
        a is FileManage ==> !injects(a),
{
}

} // verus!
