//! Names of files and folders that a watcher may use: nothing hidden, nothing
//! outside.

use crate::json::{join, joined};
use crate::text::{
    byte_len, byte_len_adds, char_at, char_at_found, chars_of, concat2, contains, decimal, decimal_reads_back, decimal_text, has_part, is_white, lower, lowercase,
    push_text, same, slice_text, split, split_on, texts, trim, trimmed, trimmed_ends, trimmed_twice,
};
use vstd::prelude::*;

verus! {

pub const MAX_NAME: usize = 128;

/// Control characters, and the two that separate folders.
pub open spec fn forbidden(c: char) -> bool {
    c == '/' || c == '\\' || c <= '\u{1f}' || ('\u{7f}' <= c && c <= '\u{9f}')
}

fn is_forbidden(c: char) -> (r: bool)
    ensures
        r == forbidden(c),
{
    c == '/' || c == '\\' || c <= '\u{1f}' || ('\u{7f}' <= c && c <= '\u{9f}')
}

pub open spec fn has_forbidden(s: Seq<char>) -> bool {
    exists|i: int| 0 <= i < s.len() && forbidden(#[trigger] s[i])
}

/// A name that stays in its folder and is not hidden.
pub open spec fn clean_name(s: Seq<char>) -> bool {
    &&& 0 < s.len()
    &&& byte_len(s) <= MAX_NAME
    &&& s[0] != '.'
    &&& !has_part(s, ".."@)
    &&& !has_forbidden(s)
}

/// The name without white space around it, if it is clean.
pub open spec fn name_of(name: Seq<char>) -> Option<Seq<char>> {
    if clean_name(trimmed(name)) {
        Some(trimmed(name))
    } else {
        None
    }
}

fn any_forbidden(v: &Vec<char>) -> (r: bool)
    ensures
        r == has_forbidden(v@),
{
    let mut i: usize = 0;
    while i < v.len()
        invariant
            i <= v@.len(),
            forall|k: int| 0 <= k < i ==> !forbidden(#[trigger] v@[k]),
        decreases v@.len() - i,
    {
        if is_forbidden(v[i]) {
            assert(forbidden(v@[i as int]));
            return true;
        }
        i += 1;
    }
    false
}

pub fn sanitize_name(name: &str) -> (r: Option<String>)
    ensures
        crate::text::opt_text(r) == name_of(name@),
{
    let t = trim(name);
    let v = chars_of(t.as_str());
    if v.len() == 0 || t.as_str().as_bytes().len() > MAX_NAME {
        return None;
    }
    if v[0] == '.' {
        return None;
    }
    if contains(t.as_str(), "..") {
        return None;
    }
    if any_forbidden(&v) {
        return None;
    }
    Some(t)
}

/// A clean name stays what it is.
pub proof fn clean_name_is_kept(name: Seq<char>)
    ensures
        name_of(name) is Some ==> name_of(name_of(name)->Some_0) == name_of(name),
        name_of(name) matches Some(n) ==> n != ".."@ && n != "."@ && n.len() > 0,
{
    trimmed_twice(name);
    reveal_strlit("..");
    reveal_strlit(".");
    if name_of(name) is Some {
        let n = trimmed(name);
        assert(n[0] != '.');
        assert(".."@[0] == '.' && "."@[0] == '.');
    }
}

/// The folder that a name means.
pub open spec fn folder_name(raw: Seq<char>) -> Option<Seq<char>> {
    let r = lower(trimmed(raw));
    if r.len() == 0 || r == "inbox"@ {
        Some("inbox"@)
    } else if r == "home"@ || r == "desktop"@ || r == "documents"@ || r == "downloads"@ {
        Some(r)
    } else {
        None
    }
}

pub open spec fn opt_str(s: Option<&str>) -> Option<Seq<char>> {
    match s {
        Some(t) => Some(t@),
        None => None,
    }
}

pub fn normalize_root(raw: &str) -> (r: Option<&'static str>)
    ensures
        opt_str(r) == folder_name(raw@),
{
    let t = lowercase(trim(raw).as_str());
    let w = t.as_str();
    if chars_of(w).len() == 0 || same(w, "inbox") {
        Some("inbox")
    } else if same(w, "home") {
        Some("home")
    } else if same(w, "desktop") {
        Some("desktop")
    } else if same(w, "documents") {
        Some("documents")
    } else if same(w, "downloads") {
        Some("downloads")
    } else {
        None
    }
}

pub open spec fn slashed_char(c: char) -> char {
    if c == '\\' {
        '/'
    } else {
        c
    }
}

/// A path with one kind of separator.
pub open spec fn slashed(s: Seq<char>) -> Seq<char> {
    Seq::new(s.len(), |i: int| slashed_char(s[i]))
}

fn slashed_text(s: &str) -> (r: String)
    ensures
        r@ == slashed(s@),
{
    let v = chars_of(s);
    let mut r = String::new();
    let mut i: usize = 0;
    while i < v.len()
        invariant
            i <= v@.len(),
            v@ == s@,
            r@ == slashed(s@).take(i as int),
        decreases v@.len() - i,
    {
        r.push(
            if v[i] == '\\' {
                '/'
            } else {
                v[i]
            },
        );
        assert(slashed(s@).take(i + 1) =~= slashed(s@).take(i as int).push(
            slashed_char(s@[i as int]),
        ));
        i += 1;
    }
    assert(slashed(s@).take(s@.len() as int) =~= slashed(s@));
    r
}

/// Whether a piece of a path says nothing.
pub open spec fn idle(p: Seq<char>) -> bool {
    p.len() == 0 || p == "."@
}

/// The clean names that the pieces of a path spell; nothing where one is not.
pub open spec fn clean_parts(ps: Seq<Seq<char>>) -> Option<Seq<Seq<char>>>
    decreases ps.len(),
{
    if ps.len() == 0 {
        Some(Seq::empty())
    } else {
        match clean_parts(ps.drop_last()) {
            None => None,
            Some(before) => if idle(ps.last()) {
                Some(before)
            } else {
                match name_of(ps.last()) {
                    Some(n) => Some(before.push(n)),
                    None => None,
                }
            },
        }
    }
}

/// A path below a folder: up to eight clean names.
pub open spec fn path_of(rel: Seq<char>) -> Option<Seq<char>> {
    let r = trimmed(rel);
    if r.len() == 0 {
        Some(Seq::empty())
    } else if byte_len(r) > 512 {
        None
    } else {
        match clean_parts(split(slashed(r), '/')) {
            Some(ps) => if ps.len() > 8 {
                None
            } else {
                Some(joined(ps, "/"@))
            },
            None => None,
        }
    }
}

proof fn spoiled_stays(ps: Seq<Seq<char>>, n: int)
    requires
        0 <= n <= ps.len(),
    ensures
        clean_parts(ps.take(n)) is None ==> clean_parts(ps) is None,
        clean_parts(ps) matches Some(all) ==> clean_parts(ps.take(n)) matches Some(some)
            && some.len() <= all.len(),
    decreases ps.len() - n,
{
    if n < ps.len() {
        spoiled_stays(ps, n + 1);
        assert(ps.take(n + 1).drop_last() =~= ps.take(n));
    } else {
        assert(ps.take(n) =~= ps);
    }
}

pub fn sanitize_rel(rel: &str) -> (r: Option<String>)
    ensures
        crate::text::opt_text(r) == path_of(rel@),
{
    let t = trim(rel);
    if chars_of(t.as_str()).len() == 0 {
        return Some(String::new());
    }
    if t.as_str().as_bytes().len() > 512 {
        return None;
    }
    let pieces = split_on(slashed_text(t.as_str()).as_str(), '/');
    let ghost ps = texts(pieces@);
    let mut parts: Vec<String> = Vec::new();
    let mut i: usize = 0;
    assert(texts(parts@) =~= Seq::<Seq<char>>::empty());
    assert(ps.take(0) =~= Seq::<Seq<char>>::empty());
    while i < pieces.len()
        invariant
            i <= pieces@.len(),
            ps == texts(pieces@),
            ps == split(slashed(trimmed(rel@)), '/'),
            trimmed(rel@).len() > 0,
            byte_len(trimmed(rel@)) <= 512,
            clean_parts(ps.take(i as int)) == Some(texts(parts@)),
            parts@.len() <= 8,
        decreases pieces@.len() - i,
    {
        proof {
            assert(ps.take(i + 1).drop_last() =~= ps.take(i as int));
            assert(ps.take(i + 1).last() == pieces@[i as int]@);
            spoiled_stays(ps, i + 1);
        }
        let p = pieces[i].as_str();
        if !(p.is_empty() || same(p, ".")) {
            if same(p, "..") {
                proof {
                    dots_are_not_clean();
                }
                return None;
            }
            match sanitize_name(p) {
                Some(n) => {
                    push_text(&mut parts, n.as_str());
                },
                None => {
                    return None;
                },
            }
            if parts.len() > 8 {
                return None;
            }
        }
        i += 1;
    }
    assert(ps.take(ps.len() as int) =~= ps);
    Some(join(&parts, "/"))
}

proof fn dots_are_not_clean()
    ensures
        name_of(".."@) is None,
        !idle(".."@),
{
    reveal_strlit("..");
    reveal_strlit(".");
    assert(".."@.len() != "."@.len());
    assert(trimmed(".."@) == ".."@);
    assert(".."@[0] == '.');
}

/// Every step of a path below a folder is a clean name: none leads up or is
/// hidden.
pub proof fn path_steps_are_clean(ps: Seq<Seq<char>>)
    ensures
        clean_parts(ps) matches Some(out) ==> forall|i: int|
            0 <= i < out.len() ==> clean_name(#[trigger] out[i]) && out[i] != ".."@,
    decreases ps.len(),
{
    if ps.len() > 0 && clean_parts(ps) is Some {
        path_steps_are_clean(ps.drop_last());
        let out = clean_parts(ps)->Some_0;
        let before = clean_parts(ps.drop_last())->Some_0;
        assert forall|i: int| 0 <= i < out.len() implies clean_name(#[trigger] out[i]) && out[i]
            != ".."@ by {
            if i < before.len() {
                assert(out[i] == before[i]);
            } else {
                clean_name_is_kept(ps.last());
            }
        }
    }
}

/// The bytes of names and of a separator behind each.
spec fn spaced(ps: Seq<Seq<char>>) -> nat
    decreases ps.len(),
{
    if ps.len() == 0 {
        0
    } else {
        spaced(ps.drop_last()) + byte_len(ps.last()) + 1
    }
}

proof fn spaced_first(p: Seq<char>, ps: Seq<Seq<char>>)
    ensures
        spaced(seq![p] + ps) == byte_len(p) + 1 + spaced(ps),
    decreases ps.len(),
{
    let all = seq![p] + ps;
    if ps.len() == 0 {
        assert(all.drop_last() =~= Seq::<Seq<char>>::empty());
        assert(spaced(all.drop_last()) == 0);
    } else {
        spaced_first(p, ps.drop_last());
        assert(all.drop_last() =~= seq![p] + ps.drop_last());
    }
}

proof fn slash_is_a_byte()
    ensures
        byte_len("/"@) == 1,
        "/"@ == seq!['/'],
        byte_len(seq!['\\']) == 1,
{
    reveal_strlit("/");
    assert("/"@ =~= seq!['/']);
    let a = seq!['/'];
    let b = seq!['\\'];
    assert(a.drop_first() =~= Seq::<char>::empty());
    assert(b.drop_first() =~= Seq::<char>::empty());
    reveal_with_fuel(vstd::utf8::encode_utf8, 2);
}

proof fn slashed_bytes(s: Seq<char>)
    ensures
        byte_len(slashed(s)) == byte_len(s),
    decreases s.len(),
{
    if s.len() > 0 {
        let f = s[0];
        slashed_bytes(s.drop_first());
        slash_is_a_byte();
        assert(s =~= seq![f] + s.drop_first());
        assert(slashed(s) =~= seq![slashed_char(f)] + slashed(s.drop_first()));
        byte_len_adds(seq![f], s.drop_first());
        byte_len_adds(seq![slashed_char(f)], slashed(s.drop_first()));
    } else {
        assert(slashed(s) =~= s);
    }
}

proof fn split_bytes(s: Seq<char>)
    ensures
        spaced(split(s, '/')) == byte_len(s) + 1,
    decreases s.len(),
{
    char_at_found(s, '/', 0);
    match char_at(s, '/', 0) {
        Some(i) => {
            let rest = s.skip(i + 1);
            split_bytes(rest);
            spaced_first(s.take(i), split(rest, '/'));
            slash_is_a_byte();
            assert(s =~= s.take(i) + (seq!['/'] + rest));
            byte_len_adds(s.take(i), seq!['/'] + rest);
            byte_len_adds(seq!['/'], rest);
        },
        None => {
            assert(seq![s].drop_last() =~= Seq::<Seq<char>>::empty());
            assert(spaced(seq![s].drop_last()) == 0);
        },
    }
}

proof fn trimmed_bytes(s: Seq<char>)
    ensures
        byte_len(trimmed(s)) <= byte_len(s),
    decreases s.len(),
{
    if s.len() > 0 && is_white(s[0]) {
        trimmed_bytes(s.drop_first());
        assert(s =~= seq![s[0]] + s.drop_first());
        byte_len_adds(seq![s[0]], s.drop_first());
    } else if s.len() > 0 && is_white(s.last()) {
        trimmed_bytes(s.drop_last());
        assert(s =~= s.drop_last() + seq![s.last()]);
        byte_len_adds(s.drop_last(), seq![s.last()]);
    }
}

proof fn clean_parts_shrink(ps: Seq<Seq<char>>)
    ensures
        clean_parts(ps) matches Some(out) ==> spaced(out) <= spaced(ps),
    decreases ps.len(),
{
    if ps.len() > 0 && clean_parts(ps) is Some {
        clean_parts_shrink(ps.drop_last());
        let before = clean_parts(ps.drop_last())->Some_0;
        if !idle(ps.last()) {
            trimmed_bytes(ps.last());
            let n = name_of(ps.last())->Some_0;
            assert(before.push(n).drop_last() =~= before);
        }
    }
}

proof fn joined_bytes(ps: Seq<Seq<char>>)
    ensures
        ps.len() > 0 ==> byte_len(joined(ps, "/"@)) + 1 == spaced(ps),
    decreases ps.len(),
{
    if ps.len() == 1 {
        assert(ps.drop_last() =~= Seq::<Seq<char>>::empty());
        assert(spaced(ps.drop_last()) == 0);
    } else if ps.len() > 1 {
        let front = joined(ps.drop_last(), "/"@);
        joined_bytes(ps.drop_last());
        slash_is_a_byte();
        byte_len_adds(front, "/"@);
        byte_len_adds(front + "/"@, ps.last());
    }
}

proof fn joined_first(ps: Seq<Seq<char>>, sep: Seq<char>)
    requires
        ps.len() > 1,
    ensures
        joined(ps, sep) == ps[0] + sep + joined(ps.drop_first(), sep),
    decreases ps.len(),
{
    let d = ps.drop_last();
    if ps.len() == 2 {
        assert(d.len() == 1 && d[0] == ps[0]);
        assert(joined(d, sep) == ps[0]);
        assert(ps.drop_first().len() == 1 && ps.drop_first()[0] == ps[1]);
    } else {
        joined_first(d, sep);
        assert(d.drop_first() =~= ps.drop_first().drop_last());
        let mid = joined(d.drop_first(), sep);
        assert(joined(ps.drop_first(), sep) == mid + sep + ps.last());
        assert(ps[0] + sep + mid + sep + ps.last() =~= ps[0] + sep + (mid + sep + ps.last()));
    }
}

proof fn split_of_joined(ps: Seq<Seq<char>>)
    requires
        ps.len() > 0,
        forall|i: int| 0 <= i < ps.len() ==> !has_forbidden(#[trigger] ps[i]),
    ensures
        split(joined(ps, "/"@), '/') == ps,
        slashed(joined(ps, "/"@)) == joined(ps, "/"@),
    decreases ps.len(),
{
    let s = joined(ps, "/"@);
    let f = ps[0];
    assert forall|k: int| 0 <= k < f.len() implies f[k] != '/' && f[k] != '\\' by {
        assert(!forbidden(f[k]));
    }
    char_at_found(s, '/', 0);
    if ps.len() == 1 {
        assert(split(s, '/') =~= ps);
        assert(slashed(s) =~= s);
    } else {
        let rest = ps.drop_first();
        assert forall|i: int| 0 <= i < rest.len() implies !has_forbidden(#[trigger] rest[i]) by {
            assert(rest[i] == ps[i + 1]);
        }
        joined_first(ps, "/"@);
        split_of_joined(rest);
        slash_is_a_byte();
        let tail = joined(rest, "/"@);
        assert(s[f.len() as int] == '/');
        assert(char_at(s, '/', 0) == Some(f.len() as int)) by {
            let i = char_at(s, '/', 0)->Some_0;
            if i < f.len() {
                assert(s[i] == f[i]);
            }
        }
        assert(s.take(f.len() as int) =~= f);
        assert(s.skip((f.len() + 1) as int) =~= tail);
        assert(split(s, '/') =~= ps);
        assert(slashed(s) =~= slashed(f) + "/"@ + slashed(tail));
        assert(slashed(f) =~= f);
    }
}

proof fn joined_ends(ps: Seq<Seq<char>>)
    requires
        ps.len() > 0,
        forall|i: int| 0 <= i < ps.len() ==> (#[trigger] ps[i]).len() > 0,
    ensures
        joined(ps, "/"@).len() > 0,
        joined(ps, "/"@)[0] == ps[0][0],
        joined(ps, "/"@).last() == ps.last().last(),
    decreases ps.len(),
{
    if ps.len() > 1 {
        let d = ps.drop_last();
        assert forall|i: int| 0 <= i < d.len() implies (#[trigger] d[i]).len() > 0 by {
            assert(d[i] == ps[i]);
        }
        joined_ends(d);
        assert(ps[ps.len() - 1].len() > 0);
    }
}

proof fn clean_parts_of_clean(ps: Seq<Seq<char>>)
    requires
        forall|i: int|
            0 <= i < ps.len() ==> clean_name(#[trigger] ps[i]) && trimmed(ps[i]) == ps[i],
    ensures
        clean_parts(ps) == Some(ps),
    decreases ps.len(),
{
    if ps.len() > 0 {
        let d = ps.drop_last();
        assert forall|i: int| 0 <= i < d.len() implies clean_name(#[trigger] d[i]) && trimmed(d[i])
            == d[i] by {
            assert(d[i] == ps[i]);
        }
        clean_parts_of_clean(d);
        assert(clean_name(ps[ps.len() - 1]));
        reveal_strlit(".");
        assert(!idle(ps.last())) by {
            assert("."@[0] == '.');
        }
        assert(d.push(ps.last()) =~= ps);
    } else {
        assert(ps =~= Seq::<Seq<char>>::empty());
    }
}

proof fn clean_parts_are_trimmed(ps: Seq<Seq<char>>)
    ensures
        clean_parts(ps) matches Some(out) ==> forall|i: int|
            0 <= i < out.len() ==> trimmed(#[trigger] out[i]) == out[i],
    decreases ps.len(),
{
    if ps.len() > 0 && clean_parts(ps) is Some {
        clean_parts_are_trimmed(ps.drop_last());
        trimmed_twice(ps.last());
    }
}

/// The names that a path below a folder is made of.
pub open spec fn steps_of(rel: Seq<char>) -> Option<Seq<Seq<char>>> {
    clean_parts(split(slashed(trimmed(rel)), '/'))
}

/// A path that was cleaned is a clean path: it fits, has at most eight steps,
/// each of them a clean name, and cleaning it again changes nothing.
pub proof fn clean_path_is_kept(rel: Seq<char>)
    ensures
        path_of(rel) matches Some(p) ==> {
            &&& path_of(p) == Some(p)
            &&& byte_len(p) <= 512
            &&& steps_of(rel) matches Some(ps)
            &&& ps.len() <= 8
            &&& p == joined(ps, "/"@)
            &&& forall|i: int|
                0 <= i < ps.len() ==> name_of(#[trigger] ps[i]) == Some(ps[i]) && ps[i] != ".."@
        },
{
    if path_of(rel) is Some {
        let r = trimmed(rel);
        let qs = split(slashed(r), '/');
        if r.len() == 0 {
            assert(slashed(r) =~= r);
            char_at_found(r, '/', 0);
            assert(qs =~= seq![r]);
            assert(qs.drop_last() =~= Seq::<Seq<char>>::empty());
            assert(clean_parts(qs.drop_last()) == Some(Seq::<Seq<char>>::empty()));
            assert(idle(qs.last()));
        }
        let ps = clean_parts(qs)->Some_0;
        let p = joined(ps, "/"@);
        path_steps_are_clean(qs);
        clean_parts_are_trimmed(qs);
        if ps.len() == 0 {
            assert(trimmed(p) == p);
        } else {
            slashed_bytes(r);
            split_bytes(slashed(r));
            clean_parts_shrink(qs);
            joined_bytes(ps);
            assert forall|i: int| 0 <= i < ps.len() implies !has_forbidden(#[trigger] ps[i])
                && ps[i].len() > 0 by {
                assert(clean_name(ps[i]));
            }
            split_of_joined(ps);
            joined_ends(ps);
            clean_parts_of_clean(ps);
            let first = ps[0];
            let last = ps[ps.len() - 1];
            trimmed_ends(first);
            trimmed_ends(last);
            assert(trimmed(p) == p);
        }
        assert forall|i: int| 0 <= i < ps.len() implies name_of(#[trigger] ps[i]) == Some(ps[i])
            && ps[i] != ".."@ by {
            assert(clean_name(ps[i]));
        }
    }
}

/// A path with a step upwards is no path, wherever the step stands.
pub proof fn no_path_leads_up(rel: Seq<char>)
    requires
        split(slashed(trimmed(rel)), '/').contains(".."@),
    ensures
        path_of(rel) is None,
{
    let r = trimmed(rel);
    let qs = split(slashed(r), '/');
    let i = choose|i: int| 0 <= i < qs.len() && qs[i] == ".."@;
    dots_are_not_clean();
    assert(qs.take(i + 1).last() == ".."@);
    spoiled_stays(qs, i + 1);
    if r.len() == 0 {
        assert(slashed(r) =~= r);
        char_at_found(r, '/', 0);
        assert(qs =~= seq![r]);
        reveal_strlit("..");
    }
}

/// Characters that a transfer's number may hold.
pub open spec fn id_char(c: char) -> bool {
    ('0' <= c <= '9') || ('a' <= c <= 'z') || ('A' <= c <= 'Z') || c == '-' || c == '_'
}

pub open spec fn id_of(id: Seq<char>) -> Option<Seq<char>> {
    let t = trimmed(id);
    if 0 < t.len() && byte_len(t) <= 64 && forall|i: int|
        0 <= i < t.len() ==> id_char(#[trigger] t[i]) {
        Some(t)
    } else {
        None
    }
}

pub fn sanitize_id(id: &str) -> (r: Option<String>)
    ensures
        crate::text::opt_text(r) == id_of(id@),
{
    let t = trim(id);
    let v = chars_of(t.as_str());
    if v.len() == 0 || t.as_str().as_bytes().len() > 64 {
        return None;
    }
    let mut i: usize = 0;
    while i < v.len()
        invariant
            i <= v@.len(),
            v@ == t@,
            t@ == trimmed(id@),
            forall|k: int| 0 <= k < i ==> id_char(#[trigger] v@[k]),
        decreases v@.len() - i,
    {
        let c = v[i];
        if !(('0' <= c && c <= '9') || ('a' <= c && c <= 'z') || ('A' <= c && c <= 'Z') || c == '-'
            || c == '_') {
            assert(!id_char(t@[i as int]));
            return None;
        }
        i += 1;
    }
    Some(t)
}

/// Where the last dot stands.
pub open spec fn last_dot(s: Seq<char>) -> Option<int>
    decreases s.len(),
{
    if s.len() == 0 {
        None
    } else if s.last() == '.' {
        Some(s.len() - 1)
    } else {
        last_dot(s.drop_last())
    }
}

fn find_last_dot(v: &Vec<char>) -> (r: Option<usize>)
    ensures
        match r {
            Some(i) => last_dot(v@) == Some(i as int) && i < v@.len(),
            None => last_dot(v@) is None,
        },
{
    let mut i: usize = v.len();
    assert(v@.take(v@.len() as int) =~= v@);
    while i > 0
        invariant
            i <= v@.len(),
            last_dot(v@.take(i as int)) == last_dot(v@),
        decreases i,
    {
        assert(v@.take(i as int).drop_last() =~= v@.take(i - 1));
        if v[i - 1] == '.' {
            return Some(i - 1);
        }
        i -= 1;
    }
    None
}

/// What stands before the last dot of a name.
pub open spec fn stem(name: Seq<char>) -> Seq<char> {
    match last_dot(name) {
        Some(i) => name.take(i),
        None => name,
    }
}

/// What stands after it.
pub open spec fn extension(name: Seq<char>) -> Seq<char> {
    match last_dot(name) {
        Some(i) => name.skip(i + 1),
        None => Seq::empty(),
    }
}

/// A name with a number: `a.txt`, then `a-1.txt`, …
pub open spec fn numbered(name: Seq<char>, i: nat) -> Seq<char> {
    if i == 0 {
        name
    } else if extension(name).len() == 0 {
        stem(name) + "-"@ + decimal(i)
    } else {
        stem(name) + "-"@ + decimal(i) + "."@ + extension(name)
    }
}

pub fn numbered_name(name: &str, i: u64) -> (s: String)
    ensures
        s@ == numbered(name@, i as nat),
{
    if i == 0 {
        return name.to_owned();
    }
    let v = chars_of(name);
    let n: usize = v.len();
    let (base, ext) = match find_last_dot(&v) {
        Some(k) => {
            let b = slice_text(&v, 0, k);
            let e = slice_text(&v, k + 1, n);
            assert(b@ =~= stem(name@));
            assert(e@ =~= extension(name@));
            (b, e)
        },
        None => (name.to_owned(), String::new()),
    };
    let mut s = concat2(base.as_str(), "-");
    crate::text::append(&mut s, decimal_text(i).as_str());
    if !ext.as_str().is_empty() {
        crate::text::append(&mut s, ".");
        crate::text::append(&mut s, ext.as_str());
    }
    s
}

proof fn numbered_length(name: Seq<char>, i: nat)
    requires
        i > 0,
    ensures
        numbered(name, i).len() == stem(name).len() + 1 + decimal(i).len() + if extension(
            name,
        ).len() == 0 {
            0
        } else {
            1 + extension(name).len()
        },
        numbered(name, i).subrange(
            (stem(name).len() + 1) as int,
            (stem(name).len() + 1 + decimal(i).len()) as int,
        ) == decimal(i),
        numbered(name, i).len() > name.len(),
{
    reveal_strlit("-");
    reveal_strlit(".");
    last_dot_inside(name);
    assert(decimal(i).len() > 0);
    let a = stem(name).len() + 1;
    assert(numbered(name, i).subrange(a as int, (a + decimal(i).len()) as int) =~= decimal(i));
}

proof fn last_dot_inside(s: Seq<char>)
    ensures
        last_dot(s) matches Some(i) ==> 0 <= i < s.len(),
    decreases s.len(),
{
    if s.len() > 0 && s.last() != '.' {
        last_dot_inside(s.drop_last());
    }
}

/// No two of the numbered names are the same.
pub proof fn numbered_names_differ(name: Seq<char>, i: nat, j: nat)
    requires
        i != j,
    ensures
        numbered(name, i) != numbered(name, j),
{
    if i > 0 {
        numbered_length(name, i);
    }
    if j > 0 {
        numbered_length(name, j);
    }
    if i > 0 && j > 0 && numbered(name, i) == numbered(name, j) {
        decimal_reads_back(i);
        decimal_reads_back(j);
        assert(decimal(i) == decimal(j));
    }
}

/// The first of the names that does not exist yet, from which of them do.
pub open spec fn first_free(taken: Seq<bool>) -> Option<nat>
    decreases taken.len(),
{
    if taken.len() == 0 {
        None
    } else {
        match first_free(taken.drop_last()) {
            Some(k) => Some(k),
            None => if taken.last() {
                None
            } else {
                Some((taken.len() - 1) as nat)
            },
        }
    }
}

/// The first free name is free, every name before it is taken, and there is
/// none only where all are taken.
pub proof fn first_free_is_the_least(taken: Seq<bool>)
    ensures
        match first_free(taken) {
            Some(k) => k < taken.len() && !taken[k as int] && forall|j: int|
                0 <= j < k ==> #[trigger] taken[j],
            None => forall|j: int| 0 <= j < taken.len() ==> #[trigger] taken[j],
        },
    decreases taken.len(),
{
    if taken.len() > 0 {
        let d = taken.drop_last();
        first_free_is_the_least(d);
        if first_free(d) is None {
            assert forall|j: int| 0 <= j < taken.len() - 1 implies #[trigger] taken[j] by {
                assert(d[j]);
            }
        } else {
            let k = first_free(d)->Some_0;
            assert(!d[k as int]);
            assert forall|j: int| 0 <= j < k implies #[trigger] taken[j] by {
                assert(d[j]);
            }
        }
    }
}

/// However many names a folder holds, one of the numbered names is free.
pub proof fn some_name_is_free(there: Set<Seq<char>>, name: Seq<char>)
    requires
        there.finite(),
    ensures
        exists|i: nat| i <= there.len() && !there.contains(#[trigger] numbered(name, i)),
{
    if forall|i: nat| i <= there.len() ==> there.contains(#[trigger] numbered(name, i)) {
        let tried = Seq::new(there.len() + 1, |i: int| numbered(name, i as nat));
        assert forall|i: int, j: int| 0 <= i < tried.len() && 0 <= j < tried.len() && i != j implies
            tried[i] != tried[j] by {
            numbered_names_differ(name, i as nat, j as nat);
        }
        tried.unique_seq_to_set();
        assert forall|s: Seq<char>| tried.to_set().contains(s) implies there.contains(s) by {
            let i = choose|i: int| 0 <= i < tried.len() && tried[i] == s;
            assert(there.contains(numbered(name, i as nat)));
        }
        vstd::set_lib::lemma_len_subset(tried.to_set(), there);
    }
}

/// Where a file goes: under a name that is free, or it is to be seen first
/// whether one exists.
pub enum Dest {
    Free(String),
    Ask(String),
}

/// The name under which a file goes into a folder: `a.txt`, then `a-1.txt`, …,
/// whichever is the first that the folder does not hold. `taken` says of the
/// names asked for up to now whether each exists; none is given where the name
/// is not clean.
pub fn unique_dest(name: &str, taken: &Vec<bool>) -> (r: Option<Dest>)
    ensures
        match r {
            None => name_of(name@) is None,
            Some(Dest::Free(s)) => name_of(name@) is Some && first_free(taken@) is Some && s@
                == numbered(name_of(name@)->Some_0, first_free(taken@)->Some_0),
            Some(Dest::Ask(s)) => name_of(name@) is Some && first_free(taken@) is None && s@
                == numbered(name_of(name@)->Some_0, taken@.len()),
        },
{
    match sanitize_name(name) {
        None => None,
        Some(n) => match pick_free(taken) {
            Some(k) => Some(Dest::Free(numbered_name(n.as_str(), k as u64))),
            None => Some(Dest::Ask(numbered_name(n.as_str(), taken.len() as u64))),
        },
    }
}

/// Which of the names is the first that does not exist.
fn pick_free(taken: &Vec<bool>) -> (r: Option<usize>)
    ensures
        match r {
            Some(k) => first_free(taken@) == Some(k as nat),
            None => first_free(taken@) is None,
        },
{
    let mut i: usize = 0;
    while i < taken.len()
        invariant
            i <= taken@.len(),
            forall|k: int| 0 <= k < i ==> taken@[k],
        decreases taken@.len() - i,
    {
        if !taken[i] {
            proof {
                first_free_is_the_least(taken@);
            }
            return Some(i);
        }
        i += 1;
    }
    proof {
        first_free_is_the_least(taken@);
    }
    None
}

/// A name passes, without white space around it, where it has one to 128 bytes,
/// does not begin with a dot, does not hold two dots in a row, a slash of either
/// kind or a control character; any other is refused.
pub proof fn names_that_pass(name: Seq<char>, i: int)
    ensures
        ({
            let t = trimmed(name);
            let plain = forall|k: int|
                0 <= k < t.len() ==> #[trigger] t[k] != '/' && t[k] != '\\' && t[k] >= ' ' && !(
                '\u{7f}' <= t[k] <= '\u{9f}');
            &&& 0 < t.len() && byte_len(t) <= 128 && t[0] != '.' && !has_part(t, ".."@) && plain
                ==> name_of(name) == Some(t)
            &&& t.len() == 0 || byte_len(t) > 128 || t[0] == '.' || has_part(t, ".."@) ==> name_of(
                name,
            ) is None
            &&& 0 <= i < t.len() && (t[i] == '/' || t[i] == '\\' || t[i] == '\0' || t[i] == '\n'
                || t[i] == '\u{7f}' || t[i] == '\u{85}') ==> name_of(name) is None
        }),
{
    let t = trimmed(name);
    if 0 <= i < t.len() && (t[i] == '/' || t[i] == '\\' || t[i] == '\0' || t[i] == '\n' || t[i]
        == '\u{7f}' || t[i] == '\u{85}') {
        assert(forbidden(t[i]));
    }
}

/// Five folders can be named, in any letters; the inbox where none is.
pub proof fn folders_that_can_be_named(raw: Seq<char>)
    ensures
        ({
            let r = lower(trimmed(raw));
            &&& r.len() == 0 ==> folder_name(raw) == Some("inbox"@)
            &&& r == "inbox"@ || r == "home"@ || r == "desktop"@ || r == "documents"@ || r
                == "downloads"@ ==> folder_name(raw) == Some(r)
            &&& r.len() > 9 || r.len() == 1 || r.len() == 2 || r.len() == 3 ==> folder_name(raw) is None
        }),
{
    reveal_strlit("inbox");
    reveal_strlit("home");
    reveal_strlit("desktop");
    reveal_strlit("documents");
    reveal_strlit("downloads");
}

/// A path of up to eight names that pass, with one slash between each two, passes
/// as it is, if it has at most 512 bytes.
pub proof fn paths_that_pass(ps: Seq<Seq<char>>)
    requires
        0 < ps.len() <= 8,
        forall|i: int| 0 <= i < ps.len() ==> name_of(#[trigger] ps[i]) == Some(ps[i]),
        byte_len(joined(ps, "/"@)) <= 512,
    ensures
        path_of(joined(ps, "/"@)) == Some(joined(ps, "/"@)),
{
    assert forall|i: int| 0 <= i < ps.len() implies !has_forbidden(#[trigger] ps[i]) && ps[i].len()
        > 0 && clean_name(ps[i]) && trimmed(ps[i]) == ps[i] by {
        assert(name_of(ps[i]) == Some(ps[i]));
    }
    let p = joined(ps, "/"@);
    split_of_joined(ps);
    joined_ends(ps);
    clean_parts_of_clean(ps);
    let first = ps[0];
    let last = ps[ps.len() - 1];
    trimmed_ends(first);
    trimmed_ends(last);
    assert(trimmed(p) == p);
}

/// A path is refused where it is longer than 512 bytes, has more than eight
/// steps or one that does not pass; slashes of both kinds separate.
pub proof fn paths_that_are_refused(rel: Seq<char>)
    ensures
        byte_len(trimmed(rel)) > 512 ==> path_of(rel) is None,
        trimmed(rel).len() == 0 ==> path_of(rel) == Some(Seq::<char>::empty()),
        trimmed(rel).len() > 0 && steps_of(rel) is None ==> path_of(rel) is None,
        steps_of(rel) matches Some(ps) ==> (trimmed(rel).len() > 0 && ps.len() > 8 ==> path_of(rel)
            is None),
        forall|i: int|
            0 <= i < rel.len() ==> #[trigger] slashed(rel)[i] == if rel[i] == '\\' {
                '/'
            } else {
                rel[i]
            },
{
    if trimmed(rel).len() == 0 {
        assert(byte_len(trimmed(rel)) >= 0);
    }
}

/// Steps that say nothing are left out, and each other step is a name that
/// passes.
pub proof fn steps_are_taken_in_turn(ps: Seq<Seq<char>>, p: Seq<char>)
    ensures
        clean_parts(Seq::empty()) == Some(Seq::<Seq<char>>::empty()),
        clean_parts(ps) is None ==> clean_parts(ps.push(p)) is None,
        clean_parts(ps) matches Some(before) ==> {
            &&& p.len() == 0 || p == "."@ ==> clean_parts(ps.push(p)) == Some(before)
            &&& p.len() > 0 && p != "."@ && name_of(p) is Some ==> clean_parts(ps.push(p)) == Some(
                before.push(name_of(p)->Some_0),
            )
            &&& p.len() > 0 && p != "."@ && name_of(p) is None ==> clean_parts(ps.push(p)) is None
        },
{
    assert(ps.push(p).drop_last() =~= ps);
}

/// A name parts at its last dot, and a number goes before the dot.
pub proof fn numbers_go_before_the_extension(a: Seq<char>, b: Seq<char>, i: nat)
    requires
        forall|k: int| 0 <= k < b.len() ==> #[trigger] b[k] != '.',
        i > 0,
    ensures
        stem(a + seq!['.'] + b) == a,
        extension(a + seq!['.'] + b) == b,
        b.len() > 0 ==> numbered(a + seq!['.'] + b, i) == a + "-"@ + decimal(i) + "."@ + b,
        stem(b) == b,
        numbered(b, i) == b + "-"@ + decimal(i),
        numbered(a, 0) == a,
{
    let s = a + seq!['.'] + b;
    last_dot_is(s, a.len() as int);
    assert(s.take(a.len() as int) =~= a);
    assert(s.skip(a.len() + 1int) =~= b);
    no_dot_is_found(b);
}

proof fn last_dot_is(s: Seq<char>, at: int)
    requires
        0 <= at < s.len(),
        s[at] == '.',
        forall|k: int| at < k < s.len() ==> #[trigger] s[k] != '.',
    ensures
        last_dot(s) == Some(at),
    decreases s.len(),
{
    if at < s.len() - 1 {
        let d = s.drop_last();
        assert(s.last() == s[s.len() - 1]);
        assert forall|k: int| at < k < d.len() implies #[trigger] d[k] != '.' by {
            assert(d[k] == s[k]);
        }
        last_dot_is(d, at);
    }
}

proof fn no_dot_is_found(s: Seq<char>)
    requires
        forall|k: int| 0 <= k < s.len() ==> #[trigger] s[k] != '.',
    ensures
        last_dot(s) is None,
    decreases s.len(),
{
    if s.len() > 0 {
        let d = s.drop_last();
        assert(s.last() == s[s.len() - 1]);
        assert forall|k: int| 0 <= k < d.len() implies #[trigger] d[k] != '.' by {
            assert(d[k] == s[k]);
        }
        no_dot_is_found(d);
    }
}

/// A transfer's number has up to 64 letters, digits, dashes and underscores.
pub proof fn ids_that_pass(id: Seq<char>, i: int)
    requires
        trimmed(id) == id,
    ensures
        0 < id.len() && byte_len(id) <= 64 && (forall|k: int|
            0 <= k < id.len() ==> ('0' <= #[trigger] id[k] <= '9') || ('a' <= id[k] <= 'z') || ('A'
                <= id[k] <= 'Z') || id[k] == '-' || id[k] == '_') ==> id_of(id) == Some(id),
        id.len() == 0 || byte_len(id) > 64 ==> id_of(id) is None,
        0 <= i < id.len() && (id[i] == '/' || id[i] == '.' || id[i] == '\\' || id[i] == ' ') ==> id_of(
            id,
        ) is None,
{
    if 0 <= i < id.len() && (id[i] == '/' || id[i] == '.' || id[i] == '\\' || id[i] == ' ') {
        assert(!id_char(id[i]));
    }
}

} // verus!
