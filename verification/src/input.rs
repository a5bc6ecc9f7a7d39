//! Remote input: what a viewer's message asks for, and the injectors that do it.

use crate::b64::{base64_bytes, decode_b64};
use crate::float::{clamped, Real, ONE};
use crate::json::{or, text_or, trees, Json, Tree};
use crate::octets::copy_of;
use crate::text::{
    append, begins, chars_of, contains, copy_texts, has_part, in_order, in_order_is_unique,
    in_order_with, insert_in_order,
    lower, lowercase, same, texts, trimmed, without_trailing,
};
pub use crate::inject::{FakeInjector, Injected, Injector, NullInjector};
pub use crate::keys::{flags_from_mods, mac_keycode, modifier_flag};
use vstd::prelude::*;
use vstd::utf8::encode_utf8;

verus! {

/// Most bytes of text that the clipboard takes over.
pub const CLIP_MAX: usize = 524_288;

/// Most bytes of a clipboard image.
pub const CLIP_PNG_MAX: usize = 134_217_728;

/// Most files taken over from one copy.
pub const CLIP_FILES_MAX: usize = 16;

#[derive(Debug, Clone, Copy, PartialEq, Eq, Structural)]
pub enum MouseButton {
    Left,
    Right,
    Middle,
}

impl Default for MouseButton {
    fn default() -> (b: Self)
        ensures
            b == MouseButton::Left,
    {
        MouseButton::Left
    }
}

/// One thing to do at the host. Coordinates run from 0 to 1 over the picture.
#[derive(Debug, PartialEq)]
pub enum Action {
    Move { x: Real, y: Real, button: Option<MouseButton> },
    Click { x: Real, y: Real, button: MouseButton, clicks: u8 },
    Down { x: Real, y: Real, button: MouseButton, clicks: u8 },
    Up { x: Real, y: Real, button: MouseButton, clicks: u8 },
    Scroll { x: Real, y: Real, dy: Real, dx: Real },
    Type { text: String },
    Key { key: String, down: Option<bool>, modifiers: Vec<String> },
    Clipboard { text: String },
    Paste { text: String },
    ClipboardPng { png: Vec<u8> },
    Display { id: String },
    File { name: String, data: Vec<u8> },
    /// Something done in the file panel.
    FileManage {
        op: String,
        name: String,
        names: Vec<String>,
        root: String,
        path: String,
        to: String,
        to_root: String,
        to_path: String,
    },
    Wait { ms: u64 },
    Done,
}

#[verifier::ext_equal]
pub ghost enum Act {
    Move { x: u64, y: u64, button: Option<MouseButton> },
    Click { x: u64, y: u64, button: MouseButton, clicks: u8 },
    Down { x: u64, y: u64, button: MouseButton, clicks: u8 },
    Up { x: u64, y: u64, button: MouseButton, clicks: u8 },
    Scroll { x: u64, y: u64, dy: u64, dx: u64 },
    Type { text: Seq<char> },
    Key { key: Seq<char>, down: Option<bool>, modifiers: Seq<Seq<char>> },
    Clipboard { text: Seq<char> },
    Paste { text: Seq<char> },
    ClipboardPng { png: Seq<u8> },
    Display { id: Seq<char> },
    File { name: Seq<char>, data: Seq<u8> },
    FileManage {
        op: Seq<char>,
        name: Seq<char>,
        names: Seq<Seq<char>>,
        root: Seq<char>,
        path: Seq<char>,
        to: Seq<char>,
        to_root: Seq<char>,
        to_path: Seq<char>,
    },
    Wait { ms: u64 },
    Done,
}

impl View for Action {
    type V = Act;

    open spec fn view(&self) -> Act {
        match self {
            Action::Move { x, y, button } => Act::Move { x: x.bits, y: y.bits, button: *button },
            Action::Click { x, y, button, clicks } => Act::Click {
                x: x.bits,
                y: y.bits,
                button: *button,
                clicks: *clicks,
            },
            Action::Down { x, y, button, clicks } => Act::Down {
                x: x.bits,
                y: y.bits,
                button: *button,
                clicks: *clicks,
            },
            Action::Up { x, y, button, clicks } => Act::Up {
                x: x.bits,
                y: y.bits,
                button: *button,
                clicks: *clicks,
            },
            Action::Scroll { x, y, dy, dx } => Act::Scroll {
                x: x.bits,
                y: y.bits,
                dy: dy.bits,
                dx: dx.bits,
            },
            Action::Type { text } => Act::Type { text: text@ },
            Action::Key { key, down, modifiers } => Act::Key {
                key: key@,
                down: *down,
                modifiers: texts(modifiers@),
            },
            Action::Clipboard { text } => Act::Clipboard { text: text@ },
            Action::Paste { text } => Act::Paste { text: text@ },
            Action::ClipboardPng { png } => Act::ClipboardPng { png: png@ },
            Action::Display { id } => Act::Display { id: id@ },
            Action::File { name, data } => Act::File { name: name@, data: data@ },
            Action::FileManage { op, name, names, root, path, to, to_root, to_path } => {
                Act::FileManage {
                    op: op@,
                    name: name@,
                    names: texts(names@),
                    root: root@,
                    path: path@,
                    to: to@,
                    to_root: to_root@,
                    to_path: to_path@,
                }
            },
            Action::Wait { ms } => Act::Wait { ms: *ms },
            Action::Done => Act::Done,
        }
    }
}

pub open spec fn acts(v: Seq<Action>) -> Seq<Act> {
    Seq::new(v.len(), |i: int| v[i]@)
}

/// How many bytes a character takes in UTF-8.
pub open spec fn char_width(c: char) -> nat {
    if (c as u32) < 0x80 {
        1
    } else if (c as u32) < 0x800 {
        2
    } else if (c as u32) < 0x1_0000 {
        3
    } else {
        4
    }
}

/// The longest beginning of a text that takes at most `room` bytes.
pub open spec fn fitting(s: Seq<char>, room: int) -> Seq<char>
    decreases s.len(),
{
    if s.len() == 0 || char_width(s[0]) > room {
        Seq::empty()
    } else {
        seq![s[0]] + fitting(s.drop_first(), room - char_width(s[0]))
    }
}

proof fn encoded_width(s: Seq<char>)
    ensures
        s.len() > 0 ==> encode_utf8(s).len() == char_width(s[0]) + encode_utf8(
            s.drop_first(),
        ).len(),
        s.len() == 0 ==> encode_utf8(s).len() == 0,
{
    if s.len() > 0 {
        vstd::utf8::char_is_scalar(s[0]);
        assert(encode_utf8(s) == vstd::utf8::encode_scalar(s[0] as u32) + encode_utf8(
            s.drop_first(),
        ));
    }
}

/// A clipped text begins like the text, fits, and is the text itself where
/// that fits.
pub proof fn fitting_is_a_prefix(s: Seq<char>, room: int)
    requires
        0 <= room,
    ensures
        fitting(s, room).len() <= s.len(),
        s.take(fitting(s, room).len() as int) == fitting(s, room),
        encode_utf8(fitting(s, room)).len() <= room,
        encode_utf8(s).len() <= room ==> fitting(s, room) == s,
    decreases s.len(),
{
    encoded_width(s);
    if s.len() == 0 || char_width(s[0]) > room {
        assert(s.take(0) =~= Seq::<char>::empty());
        encoded_width(Seq::<char>::empty());
        if s.len() == 0 {
            assert(fitting(s, room) =~= s);
        }
    } else {
        let rest = s.drop_first();
        fitting_is_a_prefix(rest, room - char_width(s[0]));
        let f = fitting(s, room);
        let g = fitting(rest, room - char_width(s[0]));
        assert(f.drop_first() =~= g);
        encoded_width(f);
        assert(s.take(f.len() as int) =~= seq![s[0]] + rest.take(g.len() as int));
        if encode_utf8(s).len() <= room {
            assert(f =~= s);
        }
    }
}

fn width_of(c: char) -> (n: usize)
    ensures
        n == char_width(c),
{
    let u: u32 = c as u32;
    if u < 0x80 {
        1
    } else if u < 0x800 {
        2
    } else if u < 0x1_0000 {
        3
    } else {
        4
    }
}

pub fn clip_limit(s: String) -> (out: String)
    ensures
        out@ == fitting(s@, CLIP_MAX as int),
{
    let v = chars_of(s.as_str());
    let mut out = String::new();
    let mut room: usize = CLIP_MAX;
    let mut i: usize = 0;
    assert(v@.skip(0) =~= v@);
    assert(out@ + fitting(v@, CLIP_MAX as int) =~= fitting(v@, CLIP_MAX as int));
    while i < v.len() && width_of(v[i]) <= room
        invariant
            i <= v@.len(),
            out@ + fitting(v@.skip(i as int), room as int) == fitting(v@, CLIP_MAX as int),
        decreases v@.len() - i,
    {
        let ghost rest = v@.skip(i as int);
        let ghost before = out@;
        let ghost had = room;
        out.push(v[i]);
        room = room - width_of(v[i]);
        proof {
            assert(rest.drop_first() =~= v@.skip(i + 1));
            assert(out@ + fitting(v@.skip(i + 1), room as int) =~= before + (seq![rest[0]] + fitting(
                v@.skip(i + 1),
                room as int,
            )));
        }
        i += 1;
    }
    assert(fitting(v@.skip(i as int), room as int) =~= Seq::<char>::empty());
    assert(out@ + Seq::<char>::empty() =~= out@);
    out
}

impl Act {
    /// Coordinates brought into the picture, at least one click, and clipboard
    /// text cut to what the clipboard takes.
    pub open spec fn within_bounds(self) -> Act {
        match self {
            Act::Move { x, y, button } => Act::Move {
                x: clamped(x, 0, ONE),
                y: clamped(y, 0, ONE),
                button,
            },
            Act::Click { x, y, button, clicks } => Act::Click {
                x: clamped(x, 0, ONE),
                y: clamped(y, 0, ONE),
                button,
                clicks: if clicks < 1 {
                    1
                } else {
                    clicks
                },
            },
            Act::Down { x, y, button, clicks } => Act::Down {
                x: clamped(x, 0, ONE),
                y: clamped(y, 0, ONE),
                button,
                clicks: if clicks < 1 {
                    1
                } else {
                    clicks
                },
            },
            Act::Up { x, y, button, clicks } => Act::Up {
                x: clamped(x, 0, ONE),
                y: clamped(y, 0, ONE),
                button,
                clicks: if clicks < 1 {
                    1
                } else {
                    clicks
                },
            },
            Act::Scroll { x, y, dy, dx } => Act::Scroll {
                x: clamped(x, 0, ONE),
                y: clamped(y, 0, ONE),
                dy,
                dx,
            },
            Act::Clipboard { text } => Act::Clipboard { text: fitting(text, CLIP_MAX as int) },
            Act::Paste { text } => Act::Paste { text: fitting(text, CLIP_MAX as int) },
            other => other,
        }
    }

    /// A copy or cut shortcut: afterwards the host's clipboard is worth a look.
    pub open spec fn copies(self) -> bool {
        match self {
            Act::Key { key, modifiers, .. } => (lower(key) == "c"@ || lower(key) == "x"@)
                && exists|i: int|
                0 <= i < modifiers.len() && accelerates(#[trigger] modifiers[i]),
            _ => false,
        }
    }
}

/// The modifier that makes a key a shortcut.
pub open spec fn accelerates(m: Seq<char>) -> bool {
    let l = lower(m);
    l == "meta"@ || l == "command"@ || l == "cmd"@ || l == "control"@ || l == "ctrl"@ || l == "os"@
}

fn is_accel_mod(m: &str) -> (r: bool)
    ensures
        r == accelerates(m@),
{
    let l = lowercase(m);
    let s = l.as_str();
    same(s, "meta") || same(s, "command") || same(s, "cmd") || same(s, "control") || same(s, "ctrl")
        || same(s, "os")
}

fn any_accel(modifiers: &Vec<String>) -> (r: bool)
    ensures
        r == exists|i: int|
            0 <= i < texts(modifiers@).len() && accelerates(#[trigger] texts(modifiers@)[i]),
{
    let mut i: usize = 0;
    while i < modifiers.len()
        invariant
            i <= modifiers@.len(),
            forall|j: int| 0 <= j < i ==> !accelerates(#[trigger] texts(modifiers@)[j]),
        decreases modifiers@.len() - i,
    {
        if is_accel_mod(modifiers[i].as_str()) {
            assert(accelerates(texts(modifiers@)[i as int]));
            return true;
        }
        i += 1;
    }
    false
}

/// Bounded coordinates stay as they are when they are bounded again.
pub proof fn bounds_hold(a: Act)
    ensures
        a.within_bounds().within_bounds() == a.within_bounds(),
{
    match a {
        Act::Clipboard { text } => {
            fitting_is_a_prefix(text, CLIP_MAX as int);
            fitting_is_a_prefix(fitting(text, CLIP_MAX as int), CLIP_MAX as int);
        },
        Act::Paste { text } => {
            fitting_is_a_prefix(text, CLIP_MAX as int);
            fitting_is_a_prefix(fitting(text, CLIP_MAX as int), CLIP_MAX as int);
        },
        _ => {},
    }
}

fn at_least_one(n: u8) -> (r: u8)
    ensures
        r == if n < 1 {
            1
        } else {
            n
        },
{
    if n < 1 {
        1
    } else {
        n
    }
}

impl Action {
    pub fn click(x: Real, y: Real) -> (a: Self)
        ensures
            a@ == (Act::Click { x: x.bits, y: y.bits, button: MouseButton::Left, clicks: 1 }),
    {
        Action::Click { x, y, button: MouseButton::Left, clicks: 1 }
    }

    pub fn clamp_coords(self) -> (a: Self)
        ensures
            a@ == self@.within_bounds(),
    {
        match self {
            Action::Move { x, y, button } => Action::Move { x: x.unit(), y: y.unit(), button },
            Action::Click { x, y, button, clicks } => Action::Click {
                x: x.unit(),
                y: y.unit(),
                button,
                clicks: at_least_one(clicks),
            },
            Action::Down { x, y, button, clicks } => Action::Down {
                x: x.unit(),
                y: y.unit(),
                button,
                clicks: at_least_one(clicks),
            },
            Action::Up { x, y, button, clicks } => Action::Up {
                x: x.unit(),
                y: y.unit(),
                button,
                clicks: at_least_one(clicks),
            },
            Action::Scroll { x, y, dy, dx } => Action::Scroll {
                x: x.unit(),
                y: y.unit(),
                dy,
                dx,
            },
            Action::Clipboard { text } => Action::Clipboard { text: clip_limit(text) },
            Action::Paste { text } => Action::Paste { text: clip_limit(text) },
            other => other,
        }
    }

    pub fn requests_clipboard_read(&self) -> (r: bool)
        ensures
            r == self@.copies(),
    {
        match self {
            Action::Key { key, modifiers, .. } => {
                let k = lowercase(key.as_str());
                if !same(k.as_str(), "c") && !same(k.as_str(), "x") {
                    return false;
                }
                any_accel(modifiers)
            },
            _ => false,
        }
    }

    /// A second copy of the action.
    pub fn copy(&self) -> (a: Self)
        ensures
            a@ == self@,
    {
        match self {
            Action::Move { x, y, button } => Action::Move { x: *x, y: *y, button: *button },
            Action::Click { x, y, button, clicks } => Action::Click {
                x: *x,
                y: *y,
                button: *button,
                clicks: *clicks,
            },
            Action::Down { x, y, button, clicks } => Action::Down {
                x: *x,
                y: *y,
                button: *button,
                clicks: *clicks,
            },
            Action::Up { x, y, button, clicks } => Action::Up {
                x: *x,
                y: *y,
                button: *button,
                clicks: *clicks,
            },
            Action::Scroll { x, y, dy, dx } => Action::Scroll { x: *x, y: *y, dy: *dy, dx: *dx },
            Action::Type { text } => Action::Type { text: text.clone() },
            Action::Key { key, down, modifiers } => Action::Key {
                key: key.clone(),
                down: *down,
                modifiers: copy_texts(modifiers),
            },
            Action::Clipboard { text } => Action::Clipboard { text: text.clone() },
            Action::Paste { text } => Action::Paste { text: text.clone() },
            Action::ClipboardPng { png } => Action::ClipboardPng { png: copy_of(png) },
            Action::Display { id } => Action::Display { id: id.clone() },
            Action::File { name, data } => Action::File { name: name.clone(), data: copy_of(data) },
            Action::FileManage { op, name, names, root, path, to, to_root, to_path } => {
                Action::FileManage {
                    op: op.clone(),
                    name: name.clone(),
                    names: copy_texts(names),
                    root: root.clone(),
                    path: path.clone(),
                    to: to.clone(),
                    to_root: to_root.clone(),
                    to_path: to_path.clone(),
                }
            },
            Action::Wait { ms } => Action::Wait { ms: *ms },
            Action::Done => Action::Done,
        }
    }
}

/// Which button a message means, by name or by number.
pub open spec fn button_of(v: Tree) -> MouseButton {
    match v.text_at("button"@) {
        Some(s) => {
            let l = lower(s);
            if l == "right"@ || l == "2"@ || l == "secondary"@ {
                MouseButton::Right
            } else if l == "middle"@ || l == "1"@ || l == "aux"@ {
                MouseButton::Middle
            } else {
                MouseButton::Left
            }
        },
        None => match v.whole_at("button"@) {
            Some(2) => MouseButton::Right,
            Some(1) => MouseButton::Middle,
            _ => MouseButton::Left,
        },
    }
}

fn parse_button(v: &Json) -> (b: MouseButton)
    ensures
        b == button_of(v.tree()),
{
    if let Some(s) = v.text_at("button") {
        let low = lowercase(s);
        let l = low.as_str();
        return if same(l, "right") || same(l, "2") || same(l, "secondary") {
            MouseButton::Right
        } else if same(l, "middle") || same(l, "1") || same(l, "aux") {
            MouseButton::Middle
        } else {
            MouseButton::Left
        };
    }
    match v.whole_at("button") {
        Some(2) => MouseButton::Right,
        Some(1) => MouseButton::Middle,
        _ => MouseButton::Left,
    }
}

/// How many clicks a message asks for: one to eight.
pub open spec fn clicks_of(v: Tree) -> int {
    let n = match v.whole_at("clicks"@) {
        Some(n) => n as int,
        None => or(v.whole_at("detail"@), 1u64) as int,
    };
    if n < 1 {
        1
    } else if n > 8 {
        8
    } else {
        n
    }
}

fn parse_clicks(v: &Json) -> (n: u8)
    ensures
        n == clicks_of(v.tree()),
{
    let n: u64 = match v.whole_at("clicks") {
        Some(n) => n,
        None => match v.whole_at("detail") {
            Some(n) => n,
            None => 1,
        },
    };
    if n < 1 {
        1
    } else if n > 8 {
        8
    } else {
        n as u8
    }
}

/// The list of modifiers that a message carries.
pub open spec fn listed(v: Tree) -> Seq<Tree> {
    match v.items_at("modifiers"@) {
        Some(a) => a,
        None => or(v.items_at("mods"@), Seq::empty()),
    }
}

/// Whether a message names a modifier, in its list or by a flag.
pub open spec fn names_modifier(v: Tree, t: Seq<char>) -> bool {
    ||| (t.len() > 0 && listed(v).contains(Tree::Str(t)))
    ||| (v.truth_at("metaKey"@) == Some(true) && t == "Meta"@)
    ||| (v.truth_at("ctrlKey"@) == Some(true) && t == "Control"@)
    ||| (v.truth_at("altKey"@) == Some(true) && t == "Alt"@)
    ||| (v.truth_at("shiftKey"@) == Some(true) && t == "Shift"@)
}

pub open spec fn holds_modifiers(m: Seq<Seq<char>>, v: Tree) -> bool {
    in_order(m) && forall|t: Seq<char>| #[trigger] m.contains(t) <==> names_modifier(v, t)
}

/// The modifiers of a message in alphabetical order, each once.
pub open spec fn modifiers_of(v: Tree) -> Seq<Seq<char>> {
    choose|m: Seq<Seq<char>>| holds_modifiers(m, v)
}

proof fn modifiers_are(m: Seq<Seq<char>>, v: Tree)
    requires
        holds_modifiers(m, v),
    ensures
        m == modifiers_of(v),
{
    let c = modifiers_of(v);
    assert(holds_modifiers(c, v));
    assert forall|t: Seq<char>| #[trigger] m.contains(t) <==> c.contains(t) by {
        assert(c.contains(t) <==> names_modifier(v, t));
    }
    in_order_is_unique(m, c);
}

proof fn listed_in_order(arr: Seq<Tree>) -> (m: Seq<Seq<char>>)
    ensures
        in_order(m),
        forall|t: Seq<char>| #[trigger]
            m.contains(t) <==> t.len() > 0 && arr.contains(Tree::Str(t)),
    decreases arr.len(),
{
    if arr.len() == 0 {
        Seq::empty()
    } else {
        let d = arr.drop_last();
        let before = listed_in_order(d);
        assert forall|t: Seq<char>| #[trigger]
            arr.contains(Tree::Str(t)) <==> d.contains(Tree::Str(t)) || arr.last() == Tree::Str(
                t,
            ) by {
            if d.contains(Tree::Str(t)) {
                let k = choose|k: int| 0 <= k < d.len() && d[k] == Tree::Str(t);
                assert(arr[k] == Tree::Str(t));
            }
            if arr.contains(Tree::Str(t)) {
                let k = choose|k: int| 0 <= k < arr.len() && arr[k] == Tree::Str(t);
                if k < d.len() {
                    assert(d[k] == Tree::Str(t));
                }
            }
            if arr.last() == Tree::Str(t) {
                assert(arr[arr.len() - 1] == Tree::Str(t));
            }
        }
        match arr.last() {
            Tree::Str(t) => if t.len() > 0 {
                in_order_with(before, t)
            } else {
                before
            },
            _ => before,
        }
    }
}

proof fn flag_in_order(m: Seq<Seq<char>>, v: Tree, flag: Seq<char>, name: Seq<char>) -> (r: Seq<
    Seq<char>,
>)
    requires
        in_order(m),
    ensures
        in_order(r),
        forall|t: Seq<char>| #[trigger]
            r.contains(t) <==> m.contains(t) || (v.truth_at(flag) == Some(true) && t == name),
{
    if v.truth_at(flag) == Some(true) {
        in_order_with(m, name)
    } else {
        m
    }
}

/// Every message has its list of modifiers: in alphabetical order, each once,
/// and just those that the message names.
pub proof fn modifiers_are_those_named(v: Tree)
    ensures
        holds_modifiers(modifiers_of(v), v),
{
    let a = listed_in_order(listed(v));
    let b = flag_in_order(a, v, "metaKey"@, "Meta"@);
    let c = flag_in_order(b, v, "ctrlKey"@, "Control"@);
    let d = flag_in_order(c, v, "altKey"@, "Alt"@);
    let e = flag_in_order(d, v, "shiftKey"@, "Shift"@);
    assert(holds_modifiers(e, v));
}

fn list_modifiers(arr: &Vec<Json>) -> (m: Vec<String>)
    ensures
        in_order(texts(m@)),
        forall|t: Seq<char>| #[trigger]
            texts(m@).contains(t) <==> t.len() > 0 && trees(arr@).contains(Tree::Str(t)),
{
    let mut m: Vec<String> = Vec::new();
    let mut i: usize = 0;
    assert(forall|t: Seq<char>| !(#[trigger] texts(m@).contains(t)));
    while i < arr.len()
        invariant
            i <= arr@.len(),
            in_order(texts(m@)),
            forall|t: Seq<char>| #[trigger]
                texts(m@).contains(t) <==> t.len() > 0 && trees(arr@).take(i as int).contains(
                    Tree::Str(t),
                ),
        decreases arr@.len() - i,
    {
        let ghost before = texts(m@);
        let ghost seen = trees(arr@).take(i as int);
        let ghost item = trees(arr@)[i as int];
        if let Some(s) = arr[i].as_text() {
            if !s.is_empty() {
                insert_in_order(&mut m, s.to_owned());
            }
        }
        proof {
            let more = trees(arr@).take(i + 1);
            assert(more =~= seen.push(item));
            assert forall|t: Seq<char>| #[trigger]
                texts(m@).contains(t) <==> t.len() > 0 && more.contains(Tree::Str(t)) by {
                if seen.contains(Tree::Str(t)) {
                    let k = choose|k: int| 0 <= k < seen.len() && seen[k] == Tree::Str(t);
                    assert(more[k] == Tree::Str(t));
                }
                if more.contains(Tree::Str(t)) {
                    let k = choose|k: int| 0 <= k < more.len() && more[k] == Tree::Str(t);
                    if k < i {
                        assert(seen[k] == Tree::Str(t));
                    }
                }
                if item == Tree::Str(t) {
                    assert(more[i as int] == Tree::Str(t));
                }
                assert(texts(m@).contains(t) <==> before.contains(t) || (item == Tree::Str(t)
                    && t.len() > 0));
            }
        }
        i += 1;
    }
    assert(trees(arr@).take(arr@.len() as int) =~= trees(arr@));
    m
}

fn add_modifier(m: &mut Vec<String>, v: &Json, flag: &str, name: &str)
    requires
        in_order(texts(old(m)@)),
    ensures
        in_order(texts(final(m)@)),
        forall|t: Seq<char>| #[trigger]
            texts(final(m)@).contains(t) <==> texts(old(m)@).contains(t) || (v.tree().truth_at(flag@)
                == Some(true) && t == name@),
{
    if let Some(true) = v.truth_at(flag) {
        insert_in_order(m, name.to_owned());
    }
}

fn parse_modifiers(v: &Json) -> (m: Vec<String>)
    ensures
        texts(m@) == modifiers_of(v.tree()),
{
    let empty: Vec<Json> = Vec::new();
    let arr = match v.items_at("modifiers") {
        Some(a) => a,
        None => match v.items_at("mods") {
            Some(a) => a,
            None => &empty,
        },
    };
    assert(trees(arr@) =~= listed(v.tree()));
    let mut m = list_modifiers(arr);
    add_modifier(&mut m, v, "metaKey", "Meta");
    add_modifier(&mut m, v, "ctrlKey", "Control");
    add_modifier(&mut m, v, "altKey", "Alt");
    add_modifier(&mut m, v, "shiftKey", "Shift");
    proof {
        assert(holds_modifiers(texts(m@), v.tree()));
        modifiers_are(texts(m@), v.tree());
    }
    m
}

pub open spec fn png_signature() -> Seq<u8> {
    seq![0x89u8, 0x50, 0x4e, 0x47, 0x0d, 0x0a, 0x1a, 0x0a]
}

pub open spec fn looks_png(b: Seq<u8>) -> bool {
    b.len() >= 8 && b.take(8) == png_signature()
}

pub fn is_png(b: &[u8]) -> (r: bool)
    ensures
        r == looks_png(b@),
{
    if b.len() < 8 {
        return false;
    }
    let r = b[0] == 0x89 && b[1] == 0x50 && b[2] == 0x4e && b[3] == 0x47 && b[4] == 0x0d && b[5]
        == 0x0a && b[6] == 0x1a && b[7] == 0x0a;
    proof {
        let h = b@.take(8);
        if r {
            assert(h =~= png_signature());
        } else {
            assert(h[0] == b@[0] && h[1] == b@[1] && h[2] == b@[2] && h[3] == b@[3] && h[4] == b@[4]
                && h[5] == b@[5] && h[6] == b@[6] && h[7] == b@[7]);
        }
    }
    r
}

/// An image that is too large is rejected, never cut.
pub fn png_fits(n: usize) -> (r: bool)
    ensures
        r == (n <= CLIP_PNG_MAX),
{
    n <= CLIP_PNG_MAX
}

pub fn accept_png(b: Vec<u8>) -> (r: Option<Vec<u8>>)
    ensures
        match r {
            Some(p) => looks_png(b@) && b@.len() <= CLIP_PNG_MAX && p@ == b@,
            None => !looks_png(b@) || b@.len() > CLIP_PNG_MAX,
        },
{
    if is_png(b.as_slice()) && png_fits(b.len()) {
        Some(b)
    } else {
        None
    }
}

/// The image that a base64 text holds, if it is one that fits.
pub open spec fn png_in(data: Seq<char>) -> Option<Seq<u8>> {
    match base64_bytes(trimmed(data)) {
        Some(b) => if looks_png(b) && b.len() <= CLIP_PNG_MAX {
            Some(b)
        } else {
            None
        },
        None => None,
    }
}

fn png_from(data: &str) -> (r: Option<Vec<u8>>)
    ensures
        match r {
            Some(p) => png_in(data@) == Some(p@),
            None => png_in(data@) is None,
        },
{
    match decode_b64(data) {
        Ok(b) => accept_png(b),
        Err(_) => None,
    }
}

/// A member text, empty if there is none.
pub open spec fn word(v: Tree, k: Seq<char>) -> Seq<char> {
    text_or(v.text_at(k), Seq::empty())
}

/// What a control message asks for, before its coordinates are bounded.
pub open spec fn asked(v: Tree) -> Option<Act> {
    let action = word(v, "action"@);
    let x = or(v.float_at("x"@), 0u64);
    let y = or(v.float_at("y"@), 0u64);
    let button = button_of(v);
    let clicks = clicks_of(v) as u8;
    if action == "move"@ {
        Some(
            Act::Move {
                x,
                y,
                button: if v.get("button"@) is Some {
                    Some(button)
                } else {
                    None
                },
            },
        )
    } else if action == "click"@ {
        Some(Act::Click { x, y, button, clicks })
    } else if action == "dblclick"@ || action == "doubleclick"@ {
        Some(
            Act::Click {
                x,
                y,
                button,
                clicks: if clicks < 2 {
                    2
                } else {
                    clicks
                },
            },
        )
    } else if action == "down"@ || action == "mousedown"@ {
        Some(Act::Down { x, y, button, clicks })
    } else if action == "up"@ || action == "mouseup"@ {
        Some(Act::Up { x, y, button, clicks })
    } else if action == "scroll"@ {
        Some(
            Act::Scroll {
                x,
                y,
                dy: or(v.float_at("dy"@), 0u64),
                dx: or(v.float_at("dx"@), 0u64),
            },
        )
    } else if action == "type"@ || action == "text"@ {
        Some(Act::Type { text: word(v, "text"@) })
    } else if action == "key"@ || action == "keydown"@ || action == "keyup"@ {
        Some(
            Act::Key {
                key: word(v, "key"@),
                down: if action == "keydown"@ {
                    Some(true)
                } else if action == "keyup"@ {
                    Some(false)
                } else {
                    v.truth_at("down"@)
                },
                modifiers: modifiers_of(v),
            },
        )
    } else if action == "clipboard"@ {
        if has_part(word(v, "mime"@), "png"@) {
            match png_in(word(v, "data"@)) {
                Some(png) => Some(Act::ClipboardPng { png }),
                None => None,
            }
        } else {
            Some(Act::Clipboard { text: word(v, "text"@) })
        }
    } else if action == "paste"@ {
        Some(Act::Paste { text: word(v, "text"@) })
    } else if action == "display"@ {
        Some(Act::Display { id: word(v, "id"@) })
    } else if action == "file"@ {
        Some(Act::File { name: word(v, "name"@), data: encode_utf8(word(v, "text"@)) })
    } else if action == "wait"@ {
        Some(Act::Wait { ms: or(v.whole_at("ms"@), 0u64) })
    } else if action == "done"@ {
        Some(Act::Done)
    } else {
        None
    }
}

/// What a control message asks for.
pub open spec fn control_act(v: Tree) -> Option<Act> {
    match asked(v) {
        Some(a) => Some(a.within_bounds()),
        None => None,
    }
}

fn float_or_zero(v: &Json, k: &str) -> (r: Real)
    ensures
        r.bits == or(v.tree().float_at(k@), 0u64),
{
    match v.float_at(k) {
        Some(x) => x,
        None => Real { bits: 0 },
    }
}

fn pointer_action(v: &Json, action: &str) -> (r: Option<Action>)
    requires
        action@ == "move"@ || action@ == "click"@ || action@ == "dblclick"@ || action@
            == "doubleclick"@ || action@ == "down"@ || action@ == "mousedown"@ || action@ == "up"@
            || action@ == "mouseup"@ || action@ == "scroll"@,
        action@ == word(v.tree(), "action"@),
    ensures
        r matches Some(a) && asked(v.tree()) == Some(a@),
{
    let x = float_or_zero(v, "x");
    let y = float_or_zero(v, "y");
    let button = parse_button(v);
    let clicks: u8 = parse_clicks(v);
    Some(
        if same(action, "move") {
            let named = v.get("button").is_some();
            Action::Move {
                x,
                y,
                button: if named {
                    Some(button)
                } else {
                    None
                },
            }
        } else if same(action, "click") {
            Action::Click { x, y, button, clicks }
        } else if same(action, "dblclick") || same(action, "doubleclick") {
            Action::Click {
                x,
                y,
                button,
                clicks: if clicks < 2 {
                    2
                } else {
                    clicks
                },
            }
        } else if same(action, "down") || same(action, "mousedown") {
            Action::Down { x, y, button, clicks }
        } else if same(action, "up") || same(action, "mouseup") {
            Action::Up { x, y, button, clicks }
        } else {
            Action::Scroll { x, y, dy: float_or_zero(v, "dy"), dx: float_or_zero(v, "dx") }
        },
    )
}

fn other_action(v: &Json, action: &str) -> (r: Option<Action>)
    requires
        action@ == word(v.tree(), "action"@),
        !(action@ == "move"@ || action@ == "click"@ || action@ == "dblclick"@ || action@
            == "doubleclick"@ || action@ == "down"@ || action@ == "mousedown"@ || action@ == "up"@
            || action@ == "mouseup"@ || action@ == "scroll"@),
    ensures
        match r {
            Some(a) => asked(v.tree()) == Some(a@),
            None => asked(v.tree()) is None,
        },
{
    if same(action, "type") || same(action, "text") {
        Some(Action::Type { text: v.text_or_empty("text") })
    } else if same(action, "key") || same(action, "keydown") || same(action, "keyup") {
        let down = if same(action, "keydown") {
            Some(true)
        } else if same(action, "keyup") {
            Some(false)
        } else {
            v.truth_at("down")
        };
        Some(Action::Key { key: v.text_or_empty("key"), down, modifiers: parse_modifiers(v) })
    } else if same(action, "clipboard") {
        if contains(v.text_or_empty("mime").as_str(), "png") {
            match png_from(v.text_or_empty("data").as_str()) {
                Some(png) => Some(Action::ClipboardPng { png }),
                None => None,
            }
        } else {
            Some(Action::Clipboard { text: v.text_or_empty("text") })
        }
    } else if same(action, "paste") {
        Some(Action::Paste { text: v.text_or_empty("text") })
    } else if same(action, "display") {
        Some(Action::Display { id: v.text_or_empty("id") })
    } else if same(action, "file") {
        let text = v.text_or_empty("text");
        Some(
            Action::File {
                name: v.text_or_empty("name"),
                data: vstd::slice::slice_to_vec(text.as_str().as_bytes()),
            },
        )
    } else if same(action, "wait") {
        let ms: u64 = match v.whole_at("ms") {
            Some(n) => n,
            None => 0,
        };
        Some(Action::Wait { ms })
    } else if same(action, "done") {
        Some(Action::Done)
    } else {
        None
    }
}

pub fn parse_control_json(v: &Json) -> (r: Option<Action>)
    ensures
        match r {
            Some(a) => control_act(v.tree()) == Some(a@),
            None => control_act(v.tree()) is None,
        },
{
    let word = v.text_or_empty("action");
    let action = word.as_str();
    let a = if same(action, "move") || same(action, "click") || same(action, "dblclick") || same(
        action,
        "doubleclick",
    ) || same(action, "down") || same(action, "mousedown") || same(action, "up") || same(
        action,
        "mouseup",
    ) || same(action, "scroll") {
        pointer_action(v, action)
    } else {
        other_action(v, action)
    };
    match a {
        Some(a) => Some(a.clamp_coords()),
        None => None,
    }
}

/// A display of the host: where it lies on the desktop and how large it is.
#[derive(Debug, PartialEq)]
pub struct DisplayInfo {
    pub id: String,
    pub name: String,
    pub x: i32,
    pub y: i32,
    pub width: u32,
    pub height: u32,
    pub main: bool,
}

#[verifier::ext_equal]
pub ghost struct Screen {
    pub id: Seq<char>,
    pub name: Seq<char>,
    pub x: i32,
    pub y: i32,
    pub width: u32,
    pub height: u32,
    pub main: bool,
}

impl View for DisplayInfo {
    type V = Screen;

    open spec fn view(&self) -> Screen {
        Screen {
            id: self.id@,
            name: self.name@,
            x: self.x,
            y: self.y,
            width: self.width,
            height: self.height,
            main: self.main,
        }
    }
}

pub open spec fn no_screen() -> Screen {
    Screen {
        id: Seq::empty(),
        name: Seq::empty(),
        x: 0,
        y: 0,
        width: 0,
        height: 0,
        main: false,
    }
}

impl Default for DisplayInfo {
    fn default() -> (d: Self)
        ensures
            d@ == no_screen(),
    {
        DisplayInfo {
            id: String::new(),
            name: String::new(),
            x: 0,
            y: 0,
            width: 0,
            height: 0,
            main: false,
        }
    }
}

impl DisplayInfo {
    pub fn copy(&self) -> (d: Self)
        ensures
            d@ == self@,
    {
        DisplayInfo {
            id: self.id.clone(),
            name: self.name.clone(),
            x: self.x,
            y: self.y,
            width: self.width,
            height: self.height,
            main: self.main,
        }
    }
}

pub open spec fn screens(v: Seq<DisplayInfo>) -> Seq<Screen> {
    Seq::new(v.len(), |i: int| v[i]@)
}

/// The display that ffmpeg's `Capture screen N` shows: the one at that place.
pub fn display_for_ffmpeg_screen(idx: usize, displays: &Vec<DisplayInfo>) -> (r: Option<
    &DisplayInfo,
>)
    ensures
        match r {
            Some(d) => idx < displays@.len() && d@ == screens(displays@)[idx as int],
            None => idx >= displays@.len(),
        },
{
    if idx < displays.len() {
        Some(&displays[idx])
    } else {
        None
    }
}

/// Two input names mean the same device; colons at the end do not count.
pub open spec fn same_device(a: Seq<char>, b: Seq<char>) -> bool {
    without_trailing(a, ':') == without_trailing(b, ':')
}

/// The first display that an input name means.
pub open spec fn picked(v: Seq<Screen>, input: Seq<char>) -> Option<Screen>
    decreases v.len(),
{
    if v.len() == 0 {
        None
    } else if same_device(v[0].id, input) {
        Some(v[0])
    } else {
        picked(v.drop_first(), input)
    }
}

pub fn pick_display<'a>(input: &str, displays: &'a Vec<DisplayInfo>) -> (r: Option<
    &'a DisplayInfo,
>)
    ensures
        match r {
            Some(d) => picked(screens(displays@), input@) == Some(d@),
            None => picked(screens(displays@), input@) is None,
        },
{
    let want = crate::text::trim_end_char(input, ':');
    let ghost s = screens(displays@);
    let mut i: usize = 0;
    assert(s.skip(0) =~= s);
    while i < displays.len()
        invariant
            i <= displays@.len() == s.len(),
            s == screens(displays@),
            want@ == without_trailing(input@, ':'),
            picked(s.skip(i as int), input@) == picked(s, input@),
        decreases displays@.len() - i,
    {
        assert(s.skip(i as int).drop_first() =~= s.skip(i + 1));
        assert(s.skip(i as int)[0] == displays@[i as int]@);
        let id = crate::text::trim_end_char(displays[i].id.as_str(), ':');
        if same(id.as_str(), want.as_str()) {
            return Some(&displays[i]);
        }
        i += 1;
    }
    None
}

/// One line for every path, under a common heading.
pub open spec fn paths_key(paths: Seq<Seq<char>>) -> Seq<char> {
    "files:"@ + crate::json::joined(paths, "\n"@)
}

/// By this text two copies of files are told apart.
pub fn file_clip_key(paths: &Vec<String>) -> (s: String)
    ensures
        s@ == paths_key(texts(paths@)),
{
    let mut s = "files:".to_owned();
    append(&mut s, crate::json::join(paths, "\n").as_str());
    s
}

proof fn action_names_are_spelled()
    ensures
        "move"@.len() == 4 && "move"@[0] == 'm' && "move"@[1] == 'o' && "move"@[2] == 'v',
        "click"@.len() == 5 && "click"@[0] == 'c',
        "dblclick"@.len() == 8 && "dblclick"@[0] == 'd' && "dblclick"@[1] == 'b' && "dblclick"@[2] == 'l',
        "doubleclick"@.len() == 11 && "doubleclick"@[0] == 'd',
        "down"@.len() == 4 && "down"@[0] == 'd' && "down"@[1] == 'o' && "down"@[2] == 'w',
        "mousedown"@.len() == 9 && "mousedown"@[0] == 'm',
        "up"@.len() == 2 && "up"@[0] == 'u',
        "mouseup"@.len() == 7 && "mouseup"@[0] == 'm',
        "scroll"@.len() == 6 && "scroll"@[0] == 's',
        "type"@.len() == 4 && "type"@[0] == 't' && "type"@[1] == 'y' && "type"@[2] == 'p',
        "text"@.len() == 4 && "text"@[0] == 't' && "text"@[1] == 'e' && "text"@[2] == 'x',
        "key"@.len() == 3 && "key"@[0] == 'k',
        "keydown"@.len() == 7 && "keydown"@[0] == 'k',
        "keyup"@.len() == 5 && "keyup"@[0] == 'k',
        "clipboard"@.len() == 9 && "clipboard"@[0] == 'c',
        "paste"@.len() == 5 && "paste"@[0] == 'p',
        "display"@.len() == 7 && "display"@[0] == 'd',
        "file"@.len() == 4 && "file"@[0] == 'f' && "file"@[1] == 'i' && "file"@[2] == 'l',
        "wait"@.len() == 4 && "wait"@[0] == 'w' && "wait"@[1] == 'a' && "wait"@[2] == 'i',
        "done"@.len() == 4 && "done"@[0] == 'd' && "done"@[1] == 'o' && "done"@[2] == 'n',
{
    reveal_strlit("move");
    reveal_strlit("click");
    reveal_strlit("dblclick");
    reveal_strlit("doubleclick");
    reveal_strlit("down");
    reveal_strlit("mousedown");
    reveal_strlit("up");
    reveal_strlit("mouseup");
    reveal_strlit("scroll");
    reveal_strlit("type");
    reveal_strlit("text");
    reveal_strlit("key");
    reveal_strlit("keydown");
    reveal_strlit("keyup");
    reveal_strlit("clipboard");
    reveal_strlit("paste");
    reveal_strlit("display");
    reveal_strlit("file");
    reveal_strlit("wait");
    reveal_strlit("done");
}


/// A place on the picture, from a number in a message: between zero and one, and
/// zero where it is missing.
pub open spec fn place_in(v: Tree, k: Seq<char>) -> u64 {
    match v.float_at(k) {
        Some(b) => clamped(b, 0, 0x3ff0_0000_0000_0000),
        None => 0,
    }
}

/// Whether a message asks for that action.
pub open spec fn asks(v: Tree, action: Seq<char>) -> bool {
    v.get("action"@) == Some(Tree::Str(action))
}

/// Messages about the pointer: each goes to its place, with the button and the
/// number of clicks that it names.
pub proof fn pointer_messages_are_understood(v: Tree)
    ensures
        ({
            let x = place_in(v, "x"@);
            let y = place_in(v, "y"@);
            let button = button_of(v);
            let n = clicks_of(v) as u8;
            &&& asks(v, "click"@) ==> control_act(v) == Some(Act::Click { x, y, button, clicks: n })
            &&& asks(v, "dblclick"@) || asks(v, "doubleclick"@) ==> control_act(v) == Some(
                Act::Click {
                    x,
                    y,
                    button,
                    clicks: if n < 2 {
                        2
                    } else {
                        n
                    },
                },
            )
            &&& asks(v, "down"@) || asks(v, "mousedown"@) ==> control_act(v) == Some(
                Act::Down { x, y, button, clicks: n },
            )
            &&& asks(v, "up"@) || asks(v, "mouseup"@) ==> control_act(v) == Some(
                Act::Up { x, y, button, clicks: n },
            )
            &&& asks(v, "move"@) && v.get("button"@) is Some ==> control_act(v) == Some(
                Act::Move { x, y, button: Some(button) },
            )
            &&& asks(v, "move"@) && v.get("button"@) is None ==> control_act(v) == Some(
                Act::Move { x, y, button: None },
            )
            &&& asks(v, "scroll"@) ==> control_act(v) == Some(
                Act::Scroll {
                    x,
                    y,
                    dy: match v.float_at("dy"@) {
                        Some(b) => b,
                        None => 0,
                    },
                    dx: match v.float_at("dx"@) {
                        Some(b) => b,
                        None => 0,
                    },
                },
            )
        }),
{
    action_names_are_spelled();
    crate::float::bounds_are_kept(0, 0, 0x3ff0_0000_0000_0000);
    assert(1 <= clicks_of(v) <= 8);
}

/// Messages about keys and text: a key goes down, up or both as the message
/// says, with the modifiers it names; a text is typed as it is.
pub proof fn key_messages_are_understood(v: Tree, t: Seq<char>)
    ensures
        v.get("text"@) == Some(Tree::Str(t)) && (asks(v, "type"@) || asks(v, "text"@))
            ==> control_act(v) == Some(Act::Type { text: t }),
        v.get("key"@) == Some(Tree::Str(t)) && asks(v, "keydown"@) ==> control_act(v) == Some(
            Act::Key { key: t, down: Some(true), modifiers: modifiers_of(v) },
        ),
        v.get("key"@) == Some(Tree::Str(t)) && asks(v, "keyup"@) ==> control_act(v) == Some(
            Act::Key { key: t, down: Some(false), modifiers: modifiers_of(v) },
        ),
        v.get("key"@) == Some(Tree::Str(t)) && asks(v, "key"@) ==> control_act(v) == Some(
            Act::Key { key: t, down: v.truth_at("down"@), modifiers: modifiers_of(v) },
        ),
{
    action_names_are_spelled();
}

/// Messages about the clipboard, screens, files and waiting. Text for the
/// clipboard is cut to half a mebibyte.
pub proof fn other_messages_are_understood(v: Tree, t: Seq<char>)
    requires
        encode_utf8(t).len() <= 524_288,
    ensures
        v.get("text"@) == Some(Tree::Str(t)) && asks(v, "paste"@) ==> control_act(v) == Some(
            Act::Paste { text: t },
        ),
        v.get("text"@) == Some(Tree::Str(t)) && v.get("mime"@) is None && asks(v, "clipboard"@)
            ==> control_act(v) == Some(Act::Clipboard { text: t }),
        v.get("id"@) == Some(Tree::Str(t)) && asks(v, "display"@) ==> control_act(v) == Some(
            Act::Display { id: t },
        ),
        asks(v, "wait"@) ==> control_act(v) == Some(
            Act::Wait {
                ms: match v.whole_at("ms"@) {
                    Some(n) => n,
                    None => 0,
                },
            },
        ),
        asks(v, "done"@) ==> control_act(v) == Some(Act::Done),
        v.get("text"@) == Some(Tree::Str(t)) && asks(v, "file"@) ==> control_act(v) == Some(
            Act::File {
                name: match v.text_at("name"@) {
                    Some(n) => n,
                    None => Seq::empty(),
                },
                data: encode_utf8(t),
            },
        ),
        v.get("action"@) is None ==> control_act(v) is None,
{
    action_names_are_spelled();
    fitting_is_a_prefix(t, 524_288);
    let none = Seq::<char>::empty();
    if v.get("mime"@) is None {
        reveal_strlit("png");
        crate::text::part_is_found(none, "png"@);
        assert("png"@.len() == 3);
        assert(!has_part(none, "png"@));
    }
    if v.get("action"@) is None {
        assert(word(v, "action"@) =~= none);
        assert(none.len() == 0);
    }
}

/// An image for the clipboard is taken where it is a PNG of at most 128
/// mebibytes, and otherwise nothing is.
pub proof fn images_are_taken_as_png(v: Tree, mime: Seq<char>, data: Seq<char>, png: Seq<u8>)
    requires
        asks(v, "clipboard"@),
        v.get("mime"@) == Some(Tree::Str(mime)),
        has_part(mime, "png"@),
        v.get("data"@) == Some(Tree::Str(data)),
    ensures
        base64_bytes(trimmed(data)) == Some(png) && looks_png(png) && png.len() <= 134_217_728
            ==> control_act(v) == Some(Act::ClipboardPng { png }),
        base64_bytes(trimmed(data)) == Some(png) && (!looks_png(png) || png.len() > 134_217_728)
            ==> control_act(v) is None,
        base64_bytes(trimmed(data)) is None ==> control_act(v) is None,
        looks_png(png) <==> png.len() >= 8 && png.take(8) == seq![
            137u8,
            80,
            78,
            71,
            13,
            10,
            26,
            10,
        ],
{
    action_names_are_spelled();
}

proof fn button_names_are_spelled()
    ensures
        "right"@.len() == 5 && "right"@[0] == 'r',
        "2"@.len() == 1 && "2"@[0] == '2',
        "secondary"@.len() == 9,
        "middle"@.len() == 6,
        "1"@.len() == 1 && "1"@[0] == '1',
        "aux"@.len() == 3,
        "left"@.len() == 4,
        "0"@.len() == 1 && "0"@[0] == '0',
{
    reveal_strlit("right");
    reveal_strlit("2");
    reveal_strlit("secondary");
    reveal_strlit("middle");
    reveal_strlit("1");
    reveal_strlit("aux");
    reveal_strlit("left");
    reveal_strlit("0");
}

/// A button goes by its name or its number; without either it is the left one.
pub proof fn buttons_go_by_name_or_number(v: Tree, s: Seq<char>)
    ensures
        v.get("button"@) == Some(Tree::Str(s)) && (lower(s) == "right"@ || lower(s) == "2"@ || lower(
            s,
        ) == "secondary"@) ==> button_of(v) is Right,
        v.get("button"@) == Some(Tree::Str(s)) && (lower(s) == "middle"@ || lower(s) == "1"@ || lower(
            s,
        ) == "aux"@) ==> button_of(v) is Middle,
        v.get("button"@) == Some(Tree::Str(s)) && (lower(s) == "left"@ || lower(s) == "0"@)
            ==> button_of(v) is Left,
        v.whole_at("button"@) == Some(2u64) ==> button_of(v) is Right,
        v.whole_at("button"@) == Some(1u64) ==> button_of(v) is Middle,
        v.whole_at("button"@) == Some(0u64) ==> button_of(v) is Left,
        v.get("button"@) is None ==> button_of(v) is Left,
{
    button_names_are_spelled();
}

/// A message counts from one click to eight, as it says; one where it says
/// nothing.
pub proof fn clicks_are_counted(v: Tree, n: u64)
    ensures
        v.whole_at("clicks"@) == Some(n) && 1 <= n <= 8 ==> clicks_of(v) == n,
        v.whole_at("clicks"@) == Some(n) && n > 8 ==> clicks_of(v) == 8,
        v.whole_at("clicks"@) == Some(0u64) ==> clicks_of(v) == 1,
        v.whole_at("clicks"@) is None && v.whole_at("detail"@) == Some(n) && 1 <= n <= 8
            ==> clicks_of(v) == n,
        v.whole_at("clicks"@) is None && v.whole_at("detail"@) is None ==> clicks_of(v) == 1,
{
}

/// A modifier is held where the message lists it or raises its flag.
pub proof fn modifiers_come_from_list_and_flags(v: Tree, list: Seq<Tree>, t: Seq<char>)
    ensures
        v.get("modifiers"@) == Some(Tree::Arr(list)) && list.contains(Tree::Str(t)) && t.len() > 0
            ==> modifiers_of(v).contains(t),
        v.get("modifiers"@) is None && v.get("mods"@) == Some(Tree::Arr(list)) && list.contains(
            Tree::Str(t),
        ) && t.len() > 0 ==> modifiers_of(v).contains(t),
        v.get("metaKey"@) == Some(Tree::Bool(true)) ==> modifiers_of(v).contains("Meta"@),
        v.get("ctrlKey"@) == Some(Tree::Bool(true)) ==> modifiers_of(v).contains("Control"@),
        v.get("altKey"@) == Some(Tree::Bool(true)) ==> modifiers_of(v).contains("Alt"@),
        v.get("shiftKey"@) == Some(Tree::Bool(true)) ==> modifiers_of(v).contains("Shift"@),
        v.get("modifiers"@) is None && v.get("mods"@) is None && v.truth_at("metaKey"@) != Some(true)
            && v.truth_at("ctrlKey"@) != Some(true) && v.truth_at("altKey"@) != Some(true)
            && v.truth_at("shiftKey"@) != Some(true) ==> modifiers_of(v).len() == 0,
{
    modifiers_are_those_named(v);
    let m = modifiers_of(v);
    assert(names_modifier(v, "Meta"@) == m.contains("Meta"@));
    assert(names_modifier(v, "Control"@) == m.contains("Control"@));
    assert(names_modifier(v, "Alt"@) == m.contains("Alt"@));
    assert(names_modifier(v, "Shift"@) == m.contains("Shift"@));
    assert(names_modifier(v, t) == m.contains(t));
    if m.len() > 0 {
        assert(m.contains(m[0]));
        assert(names_modifier(v, m[0]));
    }
}

/// Copying or cutting with an accelerator asks for the clipboard; typing a C
/// does not.
pub proof fn copies_ask_for_the_clipboard(key: Seq<char>, down: Option<bool>, m: Seq<char>)
    ensures
        (lower(key) == "c"@ || lower(key) == "x"@) && (lower(m) == "meta"@ || lower(m) == "control"@
            || lower(m) == "command"@ || lower(m) == "cmd"@ || lower(m) == "ctrl"@ || lower(m)
            == "os"@) ==> (Act::Key { key, down, modifiers: seq![m] }).copies(),
        !(Act::Key { key, down, modifiers: Seq::empty() }).copies(),
        lower(key) == "v"@ ==> !(Act::Key { key, down, modifiers: seq![m] }).copies(),
        lower(m) == "shift"@ ==> !(Act::Key { key, down, modifiers: seq![m] }).copies(),
{
    reveal_strlit("c");
    reveal_strlit("x");
    reveal_strlit("v");
    assert("c"@[0] == 'c' && "x"@[0] == 'x' && "v"@[0] == 'v');
    let one = seq![m];
    assert(one[0] == m);
    let act = Act::Key { key, down, modifiers: one };
    if accelerates(m) && (lower(key) == "c"@ || lower(key) == "x"@) {
        assert(accelerates(one[0]));
        assert(exists|i: int| 0 <= i < one.len() && accelerates(#[trigger] one[i]));
        assert(act->Key_modifiers[0] == m);
        assert(act.copies());
    }
    reveal_strlit("shift");
    reveal_strlit("meta");
    reveal_strlit("command");
    reveal_strlit("cmd");
    reveal_strlit("control");
    reveal_strlit("ctrl");
    reveal_strlit("os");
    assert("shift"@.len() == 5 && "meta"@.len() == 4 && "command"@.len() == 7 && "cmd"@.len() == 3
        && "control"@.len() == 7 && "ctrl"@.len() == 4 && "os"@.len() == 2);
}

/// A screen goes by its number, with or without the colon; the first that fits
/// is picked.
pub proof fn screens_go_by_number(v: Seq<Screen>, input: Seq<char>, i: int)
    requires
        0 <= i < v.len(),
        same_device(v[i].id, input),
        forall|j: int| 0 <= j < i ==> !same_device((#[trigger] v[j]).id, input),
    ensures
        picked(v, input) == Some(v[i]),
    decreases v.len(),
{
    if i > 0 {
        let d = v.drop_first();
        assert(d[i - 1] == v[i]);
        assert forall|j: int| 0 <= j < i - 1 implies !same_device((#[trigger] d[j]).id, input) by {
            assert(d[j] == v[j + 1]);
        }
        assert(!same_device(v[0].id, input));
        screens_go_by_number(d, input, i - 1);
    }
}

/// A colon behind a device does not make it another; otherwise devices are the
/// same where their names are.
pub proof fn colons_do_not_count(a: Seq<char>, b: Seq<char>)
    ensures
        same_device(a, a),
        same_device(a.push(':'), a),
        same_device(a, b) == same_device(b, a),
        (a.len() == 0 || a.last() != ':') && (b.len() == 0 || b.last() != ':') ==> (same_device(a, b)
            <==> a == b),
{
    assert(a.push(':').drop_last() =~= a);
    assert(a.push(':').last() == ':');
}

/// What identifies copied files tells that they are files, and each of them.
pub proof fn file_keys_name_the_files(paths: Seq<Seq<char>>, more: Seq<char>)
    ensures
        begins(paths_key(paths), "files:"@),
        paths_key(seq![more]) == "files:"@ + more,
        paths.len() > 0 ==> paths_key(paths.push(more)) == paths_key(paths) + seq!['\n'] + more,
{
    reveal_strlit("\n");
    assert("\n"@ =~= seq!['\n']);
    crate::text::joined_text_begins_and_ends("files:"@, crate::json::joined(paths, "\n"@));
    assert(paths.push(more).drop_last() =~= paths);
    if paths.len() > 0 {
        assert(paths_key(paths.push(more)) =~= paths_key(paths) + seq!['\n'] + more);
    }
}

} // verus!
