//! Key names, key codes and modifier flags of macOS.

use crate::text::{
    chars_of, is_white, lower, lower_char, lowercase, same, starts_with, texts, trim, trimmed,
};
use vstd::prelude::*;

verus! {

/// The code of a key with a name.
pub open spec fn named_key(k: Seq<char>) -> Option<u16> {
    if k == "Enter"@ || k == "Return"@ {
        Some(36)
        } else if k == "Escape"@ || k == "Esc"@ {
        Some(53)
        } else if k == "Tab"@ {
        Some(48)
        } else if k == "Backspace"@ {
        Some(51)
        } else if k == "Delete"@ || k == "Del"@ {
        Some(117)
        } else if k == "Space"@ || k == "Spacebar"@ {
        Some(49)
        } else if k == "ArrowLeft"@ || k == "Left"@ {
        Some(123)
        } else if k == "ArrowRight"@ || k == "Right"@ {
        Some(124)
        } else if k == "ArrowDown"@ || k == "Down"@ {
        Some(125)
        } else if k == "ArrowUp"@ || k == "Up"@ {
        Some(126)
        } else if k == "Home"@ {
        Some(115)
        } else if k == "End"@ {
        Some(119)
        } else if k == "PageUp"@ {
        Some(116)
        } else if k == "PageDown"@ {
        Some(121)
        } else if k == "Meta"@ || k == "MetaLeft"@ || k == "OS"@ || k == "OSLeft"@ || k == "Command"@ || k == "Cmd"@ {
        Some(55)
        } else if k == "MetaRight"@ || k == "OSRight"@ || k == "CommandRight"@ {
        Some(54)
        } else if k == "Shift"@ || k == "ShiftLeft"@ {
        Some(56)
        } else if k == "ShiftRight"@ {
        Some(60)
        } else if k == "Alt"@ || k == "AltLeft"@ || k == "Option"@ || k == "OptionLeft"@ {
        Some(58)
        } else if k == "AltRight"@ || k == "OptionRight"@ {
        Some(61)
        } else if k == "Control"@ || k == "ControlLeft"@ || k == "Ctrl"@ {
        Some(59)
        } else if k == "ControlRight"@ || k == "CtrlRight"@ {
        Some(62)
        } else if k == "CapsLock"@ {
        Some(57)
        } else if k == "F1"@ {
        Some(122)
        } else if k == "F2"@ {
        Some(120)
        } else if k == "F3"@ {
        Some(99)
        } else if k == "F4"@ {
        Some(118)
        } else if k == "F5"@ {
        Some(96)
        } else if k == "F6"@ {
        Some(97)
        } else if k == "F7"@ {
        Some(98)
        } else if k == "F8"@ {
        Some(100)
        } else if k == "F9"@ {
        Some(101)
        } else if k == "F10"@ {
        Some(109)
        } else if k == "F11"@ {
        Some(103)
        } else if k == "F12"@ {
        Some(111)
    } else {
        None
    }
}

/// The code of a key that types one character.
pub open spec fn letter_key(c: char) -> Option<u16> {
    if c == 'a' {
        Some(0)
        } else if c == 's' {
        Some(1)
        } else if c == 'd' {
        Some(2)
        } else if c == 'f' {
        Some(3)
        } else if c == 'h' {
        Some(4)
        } else if c == 'g' {
        Some(5)
        } else if c == 'z' {
        Some(6)
        } else if c == 'x' {
        Some(7)
        } else if c == 'c' {
        Some(8)
        } else if c == 'v' {
        Some(9)
        } else if c == 'b' {
        Some(11)
        } else if c == 'q' {
        Some(12)
        } else if c == 'w' {
        Some(13)
        } else if c == 'e' {
        Some(14)
        } else if c == 'r' {
        Some(15)
        } else if c == 'y' {
        Some(16)
        } else if c == 't' {
        Some(17)
        } else if c == '1' {
        Some(18)
        } else if c == '2' {
        Some(19)
        } else if c == '3' {
        Some(20)
        } else if c == '4' {
        Some(21)
        } else if c == '6' {
        Some(22)
        } else if c == '5' {
        Some(23)
        } else if c == '=' {
        Some(24)
        } else if c == '9' {
        Some(25)
        } else if c == '7' {
        Some(26)
        } else if c == '-' {
        Some(27)
        } else if c == '8' {
        Some(28)
        } else if c == '0' {
        Some(29)
        } else if c == ']' {
        Some(30)
        } else if c == 'o' {
        Some(31)
        } else if c == 'u' {
        Some(32)
        } else if c == '[' {
        Some(33)
        } else if c == 'i' {
        Some(34)
        } else if c == 'p' {
        Some(35)
        } else if c == 'l' {
        Some(37)
        } else if c == 'j' {
        Some(38)
        } else if c == '\'' {
        Some(39)
        } else if c == 'k' {
        Some(40)
        } else if c == ';' {
        Some(41)
        } else if c == '\\' {
        Some(42)
        } else if c == ',' {
        Some(43)
        } else if c == '/' {
        Some(44)
        } else if c == 'n' {
        Some(45)
        } else if c == 'm' {
        Some(46)
        } else if c == '.' {
        Some(47)
        } else if c == '`' {
        Some(50)
    } else {
        None
    }
}

/// A name such as `KeyC` or `Digit5` without what stands before its character.
pub open spec fn bare(s: Seq<char>) -> Seq<char> {
    if crate::text::begins(s, "key"@) {
        s.skip(3)
    } else if crate::text::begins(s, "digit"@) {
        s.skip(5)
    } else {
        s
    }
}

/// macOS virtual keycodes. Nothing for unknown names, never 0, which is `a`.
pub open spec fn key_code(key: Seq<char>) -> Option<u16> {
    let k = trimmed(key);
    let s = bare(lower(k));
    if named_key(k) is Some {
        named_key(k)
    } else if s.len() == 1 {
        letter_key(s[0])
    } else {
        None
    }
}

fn find_named(k: &str) -> (r: Option<u16>)
    ensures
        r == named_key(k@),
{
    if same(k, "Enter") || same(k, "Return") {
        Some(36)
        } else if same(k, "Escape") || same(k, "Esc") {
        Some(53)
        } else if same(k, "Tab") {
        Some(48)
        } else if same(k, "Backspace") {
        Some(51)
        } else if same(k, "Delete") || same(k, "Del") {
        Some(117)
        } else if same(k, "Space") || same(k, "Spacebar") {
        Some(49)
        } else if same(k, "ArrowLeft") || same(k, "Left") {
        Some(123)
        } else if same(k, "ArrowRight") || same(k, "Right") {
        Some(124)
        } else if same(k, "ArrowDown") || same(k, "Down") {
        Some(125)
        } else if same(k, "ArrowUp") || same(k, "Up") {
        Some(126)
        } else if same(k, "Home") {
        Some(115)
        } else if same(k, "End") {
        Some(119)
        } else if same(k, "PageUp") {
        Some(116)
        } else if same(k, "PageDown") {
        Some(121)
        } else if same(k, "Meta") || same(k, "MetaLeft") || same(k, "OS") || same(k, "OSLeft") || same(k, "Command") || same(k, "Cmd") {
        Some(55)
        } else if same(k, "MetaRight") || same(k, "OSRight") || same(k, "CommandRight") {
        Some(54)
        } else if same(k, "Shift") || same(k, "ShiftLeft") {
        Some(56)
        } else if same(k, "ShiftRight") {
        Some(60)
        } else if same(k, "Alt") || same(k, "AltLeft") || same(k, "Option") || same(k, "OptionLeft") {
        Some(58)
        } else if same(k, "AltRight") || same(k, "OptionRight") {
        Some(61)
        } else if same(k, "Control") || same(k, "ControlLeft") || same(k, "Ctrl") {
        Some(59)
        } else if same(k, "ControlRight") || same(k, "CtrlRight") {
        Some(62)
        } else if same(k, "CapsLock") {
        Some(57)
        } else if same(k, "F1") {
        Some(122)
        } else if same(k, "F2") {
        Some(120)
        } else if same(k, "F3") {
        Some(99)
        } else if same(k, "F4") {
        Some(118)
        } else if same(k, "F5") {
        Some(96)
        } else if same(k, "F6") {
        Some(97)
        } else if same(k, "F7") {
        Some(98)
        } else if same(k, "F8") {
        Some(100)
        } else if same(k, "F9") {
        Some(101)
        } else if same(k, "F10") {
        Some(109)
        } else if same(k, "F11") {
        Some(103)
        } else if same(k, "F12") {
        Some(111)
    } else {
        None
    }
}

fn find_letter(c: char) -> (r: Option<u16>)
    ensures
        r == letter_key(c),
{
    if c == 'a' {
        Some(0)
        } else if c == 's' {
        Some(1)
        } else if c == 'd' {
        Some(2)
        } else if c == 'f' {
        Some(3)
        } else if c == 'h' {
        Some(4)
        } else if c == 'g' {
        Some(5)
        } else if c == 'z' {
        Some(6)
        } else if c == 'x' {
        Some(7)
        } else if c == 'c' {
        Some(8)
        } else if c == 'v' {
        Some(9)
        } else if c == 'b' {
        Some(11)
        } else if c == 'q' {
        Some(12)
        } else if c == 'w' {
        Some(13)
        } else if c == 'e' {
        Some(14)
        } else if c == 'r' {
        Some(15)
        } else if c == 'y' {
        Some(16)
        } else if c == 't' {
        Some(17)
        } else if c == '1' {
        Some(18)
        } else if c == '2' {
        Some(19)
        } else if c == '3' {
        Some(20)
        } else if c == '4' {
        Some(21)
        } else if c == '6' {
        Some(22)
        } else if c == '5' {
        Some(23)
        } else if c == '=' {
        Some(24)
        } else if c == '9' {
        Some(25)
        } else if c == '7' {
        Some(26)
        } else if c == '-' {
        Some(27)
        } else if c == '8' {
        Some(28)
        } else if c == '0' {
        Some(29)
        } else if c == ']' {
        Some(30)
        } else if c == 'o' {
        Some(31)
        } else if c == 'u' {
        Some(32)
        } else if c == '[' {
        Some(33)
        } else if c == 'i' {
        Some(34)
        } else if c == 'p' {
        Some(35)
        } else if c == 'l' {
        Some(37)
        } else if c == 'j' {
        Some(38)
        } else if c == '\'' {
        Some(39)
        } else if c == 'k' {
        Some(40)
        } else if c == ';' {
        Some(41)
        } else if c == '\\' {
        Some(42)
        } else if c == ',' {
        Some(43)
        } else if c == '/' {
        Some(44)
        } else if c == 'n' {
        Some(45)
        } else if c == 'm' {
        Some(46)
        } else if c == '.' {
        Some(47)
        } else if c == '`' {
        Some(50)
    } else {
        None
    }
}

pub fn mac_keycode(key: &str) -> (r: Option<u16>)
    ensures
        r == key_code(key@),
{
    let k = trim(key);
    let named = find_named(k.as_str());
    if named.is_some() {
        return named;
    }
    let low = lowercase(k.as_str());
    let v = chars_of(low.as_str());
    proof {
        reveal_strlit("key");
        reveal_strlit("digit");
    }
    let at: usize = if starts_with(low.as_str(), "key") {
        3
    } else if starts_with(low.as_str(), "digit") {
        5
    } else {
        0
    };
    proof {
        assert(bare(low@) =~= v@.skip(at as int));
    }
    if v.len() - at != 1 {
        return None;
    }
    find_letter(v[at])
}

/// Key code 0 is the letter A and nothing else: a key whose name is unknown is
/// never typed as an `a`.
pub proof fn code_zero_is_letter_a(key: Seq<char>)
    ensures
        key_code(key) == Some(0u16) <==> named_key(trimmed(key)) is None && bare(
            lower(trimmed(key)),
        ) == seq!['a'],
{
    let s = bare(lower(trimmed(key)));
    if s.len() == 1 {
        assert(s =~= seq![s[0]]);
    }
}

/// The flag of a modifier, 0 for any other name.
pub open spec fn flag_of(name: Seq<char>) -> u64 {
    let n = lower(name);
    if n == "shift"@ {
        0x0002_0000
    } else if n == "control"@ || n == "ctrl"@ {
        0x0004_0000
    } else if n == "alt"@ || n == "option"@ || n == "alternate"@ {
        0x0008_0000
    } else if n == "meta"@ || n == "command"@ || n == "cmd"@ || n == "os"@ {
        0x0010_0000
    } else {
        0
    }
}

pub fn modifier_flag(name: &str) -> (f: u64)
    ensures
        f == flag_of(name@),
{
    let low = lowercase(name);
    let n = low.as_str();
    if same(n, "shift") {
        0x0002_0000
    } else if same(n, "control") || same(n, "ctrl") {
        0x0004_0000
    } else if same(n, "alt") || same(n, "option") || same(n, "alternate") {
        0x0008_0000
    } else if same(n, "meta") || same(n, "command") || same(n, "cmd") || same(n, "os") {
        0x0010_0000
    } else {
        0
    }
}

/// The flags held with those of the modifiers added.
pub open spec fn flags_with(mods: Seq<Seq<char>>, held: u64) -> u64
    decreases mods.len(),
{
    if mods.len() == 0 {
        held
    } else {
        flags_with(mods.drop_last(), held) | flag_of(mods.last())
    }
}

pub fn flags_from_mods(mods: &Vec<String>, held: u64) -> (f: u64)
    ensures
        f == flags_with(texts(mods@), held),
{
    let mut f: u64 = held;
    let mut i: usize = 0;
    while i < mods.len()
        invariant
            i <= mods@.len(),
            f == flags_with(texts(mods@).take(i as int), held),
        decreases mods@.len() - i,
    {
        proof {
            let t = texts(mods@).take(i + 1);
            assert(t.drop_last() =~= texts(mods@).take(i as int));
            assert(t.last() == mods@[i as int]@);
        }
        f = f | modifier_flag(mods[i].as_str());
        i += 1;
    }
    assert(texts(mods@).take(mods@.len() as int) =~= texts(mods@));
    f
}

/// The keys that type one character stand in the rows of an ANSI keyboard as
/// macOS counts them.
pub proof fn letters_stand_in_their_rows(i: int)
    ensures
        0 <= i < 10 ==> letter_key("asdfhgzxcv"@[i]) == Some(i as u16),
        0 <= i < 25 ==> letter_key("bqweryt123465=97-80]ou[ip"@[i]) == Some((i + 11) as u16),
        0 <= i < 11 ==> letter_key("lj'k;\\,/nm."@[i]) == Some((i + 37) as u16),
        letter_key('`') == Some(50u16),
{
    reveal_strlit("asdfhgzxcv");
    reveal_strlit("bqweryt123465=97-80]ou[ip");
    reveal_strlit("lj'k;\\,/nm.");
}

/// No two characters are typed by the same key.
pub proof fn letters_have_keys_of_their_own(a: char, b: char)
    requires
        letter_key(a) is Some,
        letter_key(a) == letter_key(b),
    ensures
        a == b,
{
}

proof fn one_letter(c: char)
    ensures
        trimmed(seq![c]) == if is_white(c) {
            Seq::empty()
        } else {
            seq![c]
        },
        lower(seq![c]) == seq![lower_char(c)],
        bare(seq![c]) == seq![c],
        named_key(seq![c]) is None,
{
    let s = seq![c];
    let none = Seq::<char>::empty();
    assert(s.drop_first() =~= none);
    assert(trimmed(none) == none);
    assert(lower(s) =~= seq![lower_char(c)]);
    reveal_strlit("key");
    reveal_strlit("digit");
    named_keys_are_longer(s);
}

proof fn named_keys_are_longer(k: Seq<char>)
    requires
        k.len() == 1,
    ensures
        named_key(k) is None,
{
    key_names_are_spelled();
}

/// A character's key is the same in capitals, and under the name that a browser
/// gives to the key.
pub proof fn a_key_by_any_name(c: char)
    requires
        'a' <= c <= 'z' || '0' <= c <= '9',
    ensures
        key_code(seq![c]) == letter_key(c),
        letter_key(c) is Some,
        'a' <= c <= 'z' ==> key_code(seq![(c as u32 - 32) as char]) == letter_key(c),
        'a' <= c <= 'z' ==> key_code("Key"@ + seq![(c as u32 - 32) as char]) == letter_key(c),
        '0' <= c <= '9' ==> key_code("Digit"@ + seq![c]) == letter_key(c),
{
    one_letter(c);
    reveal_strlit("Key");
    reveal_strlit("Digit");
    reveal_strlit("key");
    reveal_strlit("digit");
    key_names_are_spelled();
    if 'a' <= c <= 'z' {
        let up = (c as u32 - 32) as char;
        one_letter(up);
        assert(lower_char(up) == c);
        let k = "Key"@ + seq![up];
        assert(k[0] == 'K' && k[1] == 'e' && k[2] == 'y' && k.last() == up);
        assert(trimmed(k) == k);
        assert(lower(k) =~= "key"@ + seq![c]);
        assert(lower(k).take(3) =~= "key"@);
        assert(bare(lower(k)) =~= seq![c]);
        assert(named_key(k) is None);
    } else {
        let k = "Digit"@ + seq![c];
        assert(k[0] == 'D' && k[1] == 'i' && k[2] == 'g' && k.last() == c);
        assert(trimmed(k) == k);
        assert(lower(k) =~= "digit"@ + seq![c]);
        assert(lower(k)[0] != "key"@[0]);
        assert(!crate::text::begins(lower(k), "key"@)) by {
            assert(lower(k).take(3)[0] == 'd');
        }
        assert(lower(k).take(5) =~= "digit"@);
        assert(bare(lower(k)) =~= seq![c]);
        assert(named_key(k) is None);
    }
}

/// Each modifier has a bit of its own in the flags of an event, under any of
/// its names and in any letters.
pub proof fn modifiers_have_bits_of_their_own(name: Seq<char>)
    ensures
        lower(name) == "shift"@ ==> flag_of(name) == 0x2_0000,
        lower(name) == "control"@ || lower(name) == "ctrl"@ ==> flag_of(name) == 0x4_0000,
        lower(name) == "alt"@ || lower(name) == "option"@ || lower(name) == "alternate"@ ==> flag_of(
            name,
        ) == 0x8_0000,
        lower(name) == "meta"@ || lower(name) == "command"@ || lower(name) == "cmd"@ || lower(name)
            == "os"@ ==> flag_of(name) == 0x10_0000,
        flag_of(name) == 0 || flag_of(name) == 0x2_0000 || flag_of(name) == 0x4_0000 || flag_of(name)
            == 0x8_0000 || flag_of(name) == 0x10_0000,
{
    reveal_strlit("shift");
    reveal_strlit("control");
    reveal_strlit("ctrl");
    reveal_strlit("alt");
    reveal_strlit("option");
    reveal_strlit("alternate");
    reveal_strlit("meta");
    reveal_strlit("command");
    reveal_strlit("cmd");
    reveal_strlit("os");
    assert("shift"@.len() == 5 && "control"@.len() == 7 && "ctrl"@.len() == 4);
    assert("alt"@.len() == 3 && "option"@.len() == 6 && "alternate"@.len() == 9);
    assert("meta"@.len() == 4 && "command"@.len() == 7 && "cmd"@.len() == 3 && "os"@.len() == 2);
    assert("shift"@[0] != "control"@[0]);
    assert("ctrl"@[0] == 'c' && "meta"@[0] == 'm');
    assert("option"@[0] == 'o' && "alternate"@[0] == 'a');
    assert("alt"@[0] == 'a' && "cmd"@[0] == 'c' && "os"@[0] == 'o');
    assert("command"@[2] == 'm' && "control"@[2] == 'n');
}

/// Every modifier that is named is in the flags, with all that were held, and
/// nothing else is.
pub proof fn flags_hold_what_is_named(mods: Seq<Seq<char>>, held: u64, bit: u64)
    ensures
        flags_with(mods, held) & held == held,
        forall|i: int|
            0 <= i < mods.len() ==> flags_with(mods, held) & #[trigger] flag_of(mods[i]) == flag_of(
                mods[i],
            ),
        held & bit == 0 && (forall|i: int| 0 <= i < mods.len() ==> #[trigger] flag_of(mods[i]) & bit
            == 0) ==> flags_with(mods, held) & bit == 0,
    decreases mods.len(),
{
    if mods.len() == 0 {
        assert(held & held == held) by (bit_vector);
    } else {
        let d = mods.drop_last();
        flags_hold_what_is_named(d, held, bit);
        let f = flags_with(d, held);
        let b = flag_of(mods.last());
        assert((f | b) & held == held) by (bit_vector)
            requires
                f & held == held,
        ;
        assert((f | b) & b == b) by (bit_vector);
        assert forall|i: int| 0 <= i < mods.len() implies flags_with(mods, held)
            & #[trigger] flag_of(mods[i]) == flag_of(mods[i]) by {
            if i < d.len() {
                assert(d[i] == mods[i]);
                let x = flag_of(mods[i]);
                assert(f & flag_of(d[i]) == x);
                assert((f | b) & x == x) by (bit_vector)
                    requires
                        f & x == x,
                ;
            }
        }
        if held & bit == 0 && (forall|i: int|
            0 <= i < mods.len() ==> #[trigger] flag_of(mods[i]) & bit == 0) {
            assert forall|i: int| 0 <= i < d.len() implies #[trigger] flag_of(d[i]) & bit == 0 by {
                assert(flag_of(mods[i]) & bit == 0);
            }
            assert(flag_of(mods[mods.len() - 1]) & bit == 0);
            assert((f | b) & bit == 0) by (bit_vector)
                requires
                    f & bit == 0,
                    b & bit == 0,
            ;
        }
    }
}

/// How the names of keys are spelled, as far as it tells them apart.
proof fn key_names_are_spelled()
    ensures
        "Enter"@.len() == 5 && "Enter"@[1] == 'n' && "Enter"@[2] == 't',
        "Return"@.len() == 6 && "Return"@[1] == 'e' && "Return"@[2] == 't' && "Return"@[5] == 'n',
        "Escape"@.len() == 6 && "Escape"@[1] == 's' && "Escape"@[2] == 'c' && "Escape"@[5] == 'e',
        "Esc"@.len() == 3 && "Esc"@[1] == 's' && "Esc"@[2] == 'c',
        "Tab"@.len() == 3 && "Tab"@[1] == 'a' && "Tab"@[2] == 'b',
        "Backspace"@.len() == 9 && "Backspace"@[1] == 'a' && "Backspace"@[2] == 'c' && "Backspace"@[5] == 'p',
        "Delete"@.len() == 6 && "Delete"@[1] == 'e' && "Delete"@[2] == 'l' && "Delete"@[5] == 'e',
        "Del"@.len() == 3 && "Del"@[1] == 'e' && "Del"@[2] == 'l',
        "Space"@.len() == 5 && "Space"@[1] == 'p' && "Space"@[2] == 'a',
        "Spacebar"@.len() == 8 && "Spacebar"@[1] == 'p' && "Spacebar"@[2] == 'a' && "Spacebar"@[5] == 'b',
        "ArrowLeft"@.len() == 9 && "ArrowLeft"@[1] == 'r' && "ArrowLeft"@[2] == 'r' && "ArrowLeft"@[5] == 'L',
        "Left"@.len() == 4 && "Left"@[1] == 'e' && "Left"@[2] == 'f',
        "ArrowRight"@.len() == 10 && "ArrowRight"@[1] == 'r' && "ArrowRight"@[2] == 'r' && "ArrowRight"@[5] == 'R',
        "Right"@.len() == 5 && "Right"@[1] == 'i' && "Right"@[2] == 'g',
        "ArrowDown"@.len() == 9 && "ArrowDown"@[1] == 'r' && "ArrowDown"@[2] == 'r' && "ArrowDown"@[5] == 'D',
        "Down"@.len() == 4 && "Down"@[1] == 'o' && "Down"@[2] == 'w',
        "ArrowUp"@.len() == 7 && "ArrowUp"@[1] == 'r' && "ArrowUp"@[2] == 'r' && "ArrowUp"@[5] == 'U',
        "Up"@.len() == 2 && "Up"@[1] == 'p',
        "Home"@.len() == 4 && "Home"@[1] == 'o' && "Home"@[2] == 'm',
        "End"@.len() == 3 && "End"@[1] == 'n' && "End"@[2] == 'd',
        "PageUp"@.len() == 6 && "PageUp"@[1] == 'a' && "PageUp"@[2] == 'g' && "PageUp"@[5] == 'p',
        "PageDown"@.len() == 8 && "PageDown"@[1] == 'a' && "PageDown"@[2] == 'g' && "PageDown"@[5] == 'o',
        "Meta"@.len() == 4 && "Meta"@[1] == 'e' && "Meta"@[2] == 't',
        "MetaLeft"@.len() == 8 && "MetaLeft"@[1] == 'e' && "MetaLeft"@[2] == 't' && "MetaLeft"@[5] == 'e',
        "OS"@.len() == 2 && "OS"@[1] == 'S',
        "OSLeft"@.len() == 6 && "OSLeft"@[1] == 'S' && "OSLeft"@[2] == 'L' && "OSLeft"@[5] == 't',
        "Command"@.len() == 7 && "Command"@[1] == 'o' && "Command"@[2] == 'm' && "Command"@[5] == 'n',
        "Cmd"@.len() == 3 && "Cmd"@[1] == 'm' && "Cmd"@[2] == 'd',
        "MetaRight"@.len() == 9 && "MetaRight"@[1] == 'e' && "MetaRight"@[2] == 't' && "MetaRight"@[5] == 'i',
        "OSRight"@.len() == 7 && "OSRight"@[1] == 'S' && "OSRight"@[2] == 'R' && "OSRight"@[5] == 'h',
        "CommandRight"@.len() == 12 && "CommandRight"@[1] == 'o' && "CommandRight"@[2] == 'm' && "CommandRight"@[5] == 'n',
        "Shift"@.len() == 5 && "Shift"@[1] == 'h' && "Shift"@[2] == 'i',
        "ShiftLeft"@.len() == 9 && "ShiftLeft"@[1] == 'h' && "ShiftLeft"@[2] == 'i' && "ShiftLeft"@[5] == 'L',
        "ShiftRight"@.len() == 10 && "ShiftRight"@[1] == 'h' && "ShiftRight"@[2] == 'i' && "ShiftRight"@[5] == 'R',
        "Alt"@.len() == 3 && "Alt"@[1] == 'l' && "Alt"@[2] == 't',
        "AltLeft"@.len() == 7 && "AltLeft"@[1] == 'l' && "AltLeft"@[2] == 't' && "AltLeft"@[5] == 'f',
        "Option"@.len() == 6 && "Option"@[1] == 'p' && "Option"@[2] == 't' && "Option"@[5] == 'n',
        "OptionLeft"@.len() == 10 && "OptionLeft"@[1] == 'p' && "OptionLeft"@[2] == 't' && "OptionLeft"@[5] == 'n',
        "AltRight"@.len() == 8 && "AltRight"@[1] == 'l' && "AltRight"@[2] == 't' && "AltRight"@[5] == 'g',
        "OptionRight"@.len() == 11 && "OptionRight"@[1] == 'p' && "OptionRight"@[2] == 't' && "OptionRight"@[5] == 'n',
        "Control"@.len() == 7 && "Control"@[1] == 'o' && "Control"@[2] == 'n' && "Control"@[5] == 'o',
        "ControlLeft"@.len() == 11 && "ControlLeft"@[1] == 'o' && "ControlLeft"@[2] == 'n' && "ControlLeft"@[5] == 'o',
        "Ctrl"@.len() == 4 && "Ctrl"@[1] == 't' && "Ctrl"@[2] == 'r',
        "ControlRight"@.len() == 12 && "ControlRight"@[1] == 'o' && "ControlRight"@[2] == 'n' && "ControlRight"@[5] == 'o',
        "CtrlRight"@.len() == 9 && "CtrlRight"@[1] == 't' && "CtrlRight"@[2] == 'r' && "CtrlRight"@[5] == 'i',
        "CapsLock"@.len() == 8 && "CapsLock"@[1] == 'a' && "CapsLock"@[2] == 'p' && "CapsLock"@[5] == 'o',
        "F1"@.len() == 2 && "F1"@[1] == '1',
        "F2"@.len() == 2 && "F2"@[1] == '2',
        "F3"@.len() == 2 && "F3"@[1] == '3',
        "F4"@.len() == 2 && "F4"@[1] == '4',
        "F5"@.len() == 2 && "F5"@[1] == '5',
        "F6"@.len() == 2 && "F6"@[1] == '6',
        "F7"@.len() == 2 && "F7"@[1] == '7',
        "F8"@.len() == 2 && "F8"@[1] == '8',
        "F9"@.len() == 2 && "F9"@[1] == '9',
        "F10"@.len() == 3 && "F10"@[1] == '1' && "F10"@[2] == '0',
        "F11"@.len() == 3 && "F11"@[1] == '1' && "F11"@[2] == '1',
        "F12"@.len() == 3 && "F12"@[1] == '1' && "F12"@[2] == '2',
{
    reveal_strlit("Enter");
    reveal_strlit("Return");
    reveal_strlit("Escape");
    reveal_strlit("Esc");
    reveal_strlit("Tab");
    reveal_strlit("Backspace");
    reveal_strlit("Delete");
    reveal_strlit("Del");
    reveal_strlit("Space");
    reveal_strlit("Spacebar");
    reveal_strlit("ArrowLeft");
    reveal_strlit("Left");
    reveal_strlit("ArrowRight");
    reveal_strlit("Right");
    reveal_strlit("ArrowDown");
    reveal_strlit("Down");
    reveal_strlit("ArrowUp");
    reveal_strlit("Up");
    reveal_strlit("Home");
    reveal_strlit("End");
    reveal_strlit("PageUp");
    reveal_strlit("PageDown");
    reveal_strlit("Meta");
    reveal_strlit("MetaLeft");
    reveal_strlit("OS");
    reveal_strlit("OSLeft");
    reveal_strlit("Command");
    reveal_strlit("Cmd");
    reveal_strlit("MetaRight");
    reveal_strlit("OSRight");
    reveal_strlit("CommandRight");
    reveal_strlit("Shift");
    reveal_strlit("ShiftLeft");
    reveal_strlit("ShiftRight");
    reveal_strlit("Alt");
    reveal_strlit("AltLeft");
    reveal_strlit("Option");
    reveal_strlit("OptionLeft");
    reveal_strlit("AltRight");
    reveal_strlit("OptionRight");
    reveal_strlit("Control");
    reveal_strlit("ControlLeft");
    reveal_strlit("Ctrl");
    reveal_strlit("ControlRight");
    reveal_strlit("CtrlRight");
    reveal_strlit("CapsLock");
    reveal_strlit("F1");
    reveal_strlit("F2");
    reveal_strlit("F3");
    reveal_strlit("F4");
    reveal_strlit("F5");
    reveal_strlit("F6");
    reveal_strlit("F7");
    reveal_strlit("F8");
    reveal_strlit("F9");
    reveal_strlit("F10");
    reveal_strlit("F11");
    reveal_strlit("F12");
}

/// The keys that have a name, with their codes.
pub proof fn named_keys_have_their_codes()
    ensures
        named_key("Enter"@) == Some(36u16),
        named_key("Return"@) == Some(36u16),
        named_key("Escape"@) == Some(53u16),
        named_key("Esc"@) == Some(53u16),
        named_key("Tab"@) == Some(48u16),
        named_key("Backspace"@) == Some(51u16),
        named_key("Delete"@) == Some(117u16),
        named_key("Del"@) == Some(117u16),
        named_key("Space"@) == Some(49u16),
        named_key("Spacebar"@) == Some(49u16),
        named_key("ArrowLeft"@) == Some(123u16),
        named_key("Left"@) == Some(123u16),
        named_key("ArrowRight"@) == Some(124u16),
        named_key("Right"@) == Some(124u16),
        named_key("ArrowDown"@) == Some(125u16),
        named_key("Down"@) == Some(125u16),
        named_key("ArrowUp"@) == Some(126u16),
        named_key("Up"@) == Some(126u16),
        named_key("Home"@) == Some(115u16),
        named_key("End"@) == Some(119u16),
        named_key("PageUp"@) == Some(116u16),
        named_key("PageDown"@) == Some(121u16),
        named_key("Meta"@) == Some(55u16),
        named_key("MetaLeft"@) == Some(55u16),
        named_key("OS"@) == Some(55u16),
        named_key("OSLeft"@) == Some(55u16),
        named_key("Command"@) == Some(55u16),
        named_key("Cmd"@) == Some(55u16),
        named_key("MetaRight"@) == Some(54u16),
        named_key("OSRight"@) == Some(54u16),
        named_key("CommandRight"@) == Some(54u16),
        named_key("Shift"@) == Some(56u16),
        named_key("ShiftLeft"@) == Some(56u16),
        named_key("ShiftRight"@) == Some(60u16),
        named_key("Alt"@) == Some(58u16),
        named_key("AltLeft"@) == Some(58u16),
        named_key("Option"@) == Some(58u16),
        named_key("OptionLeft"@) == Some(58u16),
        named_key("AltRight"@) == Some(61u16),
        named_key("OptionRight"@) == Some(61u16),
        named_key("Control"@) == Some(59u16),
        named_key("ControlLeft"@) == Some(59u16),
        named_key("Ctrl"@) == Some(59u16),
        named_key("ControlRight"@) == Some(62u16),
        named_key("CtrlRight"@) == Some(62u16),
        named_key("CapsLock"@) == Some(57u16),
        named_key("F1"@) == Some(122u16),
        named_key("F2"@) == Some(120u16),
        named_key("F3"@) == Some(99u16),
        named_key("F4"@) == Some(118u16),
        named_key("F5"@) == Some(96u16),
        named_key("F6"@) == Some(97u16),
        named_key("F7"@) == Some(98u16),
        named_key("F8"@) == Some(100u16),
        named_key("F9"@) == Some(101u16),
        named_key("F10"@) == Some(109u16),
        named_key("F11"@) == Some(103u16),
        named_key("F12"@) == Some(111u16),
{
    key_names_are_spelled();
}

} // verus!
