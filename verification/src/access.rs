//! Who may do what: host tokens, viewer sessions, cookies.

use crate::link::text_pairs;
use crate::otp::{digests_agree, hash_eq, SESSION_TTL};
use crate::text::{
    append, begins, chars_of, concat2, decimal, decimal_text, lossy, lossy_text, same, slice_text,
    split, split_on, starts_with, texts, trim, trimmed,
};
use vstd::prelude::*;
use vstd::utf8::*;

verus! {

/// Whether a token opens: any does where none is expected.
pub open spec fn opens(given: Seq<char>, expected: Seq<char>) -> bool {
    expected.len() == 0 || digests_agree(given, expected)
}

/// The comparison takes the same time wherever two tokens differ.
pub fn token_ok(given: &str, expected: &str) -> (r: bool)
    ensures
        r == opens(given@, expected@),
{
    if expected.is_empty() {
        return true;
    }
    hash_eq(given, expected)
}

/// The right token always opens, and where none is set any does.
pub proof fn right_token_opens(token: Seq<char>, given: Seq<char>)
    ensures
        opens(token, token),
        opens(given, Seq::empty()),
{
}

/// The value of a hexadecimal digit.
pub open spec fn nibble(b: u8) -> Option<u8> {
    if 48 <= b <= 57 {
        Some((b - 48) as u8)
    } else if 97 <= b <= 102 {
        Some((b - 87) as u8)
    } else if 65 <= b <= 70 {
        Some((b - 55) as u8)
    } else {
        None
    }
}

fn hex_nibble(b: u8) -> (r: Option<u8>)
    ensures
        r == nibble(b),
        r matches Some(n) ==> n < 16,
{
    if 48 <= b && b <= 57 {
        Some(b - 48)
    } else if 97 <= b && b <= 102 {
        Some(b - 87)
    } else if 65 <= b && b <= 70 {
        Some(b - 55)
    } else {
        None
    }
}

/// Bytes with every `%` and two hexadecimal digits replaced by the byte they
/// stand for; any other `%` stays.
pub open spec fn percent_decoded(b: Seq<u8>) -> Seq<u8>
    decreases b.len(),
{
    if b.len() == 0 {
        Seq::empty()
    } else if b[0] == 37 && b.len() > 2 && nibble(b[1]) is Some && nibble(b[2]) is Some {
        seq![(nibble(b[1])->Some_0 * 16 + nibble(b[2])->Some_0) as u8] + percent_decoded(b.skip(3))
    } else {
        seq![b[0]] + percent_decoded(b.skip(1))
    }
}

fn decode_bytes(bytes: &[u8]) -> (out: Vec<u8>)
    ensures
        out@ == percent_decoded(bytes@),
{
    let mut out: Vec<u8> = Vec::new();
    let mut i: usize = 0;
    assert(bytes@.skip(0) =~= bytes@);
    assert(out@ + percent_decoded(bytes@) =~= percent_decoded(bytes@));
    while i < bytes.len()
        invariant
            i <= bytes@.len(),
            out@ + percent_decoded(bytes@.skip(i as int)) == percent_decoded(bytes@),
        decreases bytes@.len() - i,
    {
        let ghost rest = bytes@.skip(i as int);
        let ghost before = out@;
        if bytes[i] == 37 && bytes.len() - i > 2 {
            assert(rest[0] == bytes@[i as int]);
            assert(rest[1] == bytes@[i + 1]);
            assert(rest[2] == bytes@[i + 2]);
            match (hex_nibble(bytes[i + 1]), hex_nibble(bytes[i + 2])) {
                (Some(h), Some(l)) => {
                    out.push(h * 16 + l);
                    proof {
                        assert(rest.skip(3) =~= bytes@.skip(i + 3));
                        assert(out@ + percent_decoded(bytes@.skip(i + 3)) =~= before + (seq![
                            (h * 16 + l) as u8,
                        ] + percent_decoded(bytes@.skip(i + 3))));
                    }
                    i += 3;
                    continue;
                },
                _ => {},
            }
        }
        out.push(bytes[i]);
        proof {
            assert(rest.skip(1) =~= bytes@.skip(i + 1));
            assert(out@ + percent_decoded(bytes@.skip(i + 1)) =~= before + (seq![rest[0]]
                + percent_decoded(bytes@.skip(i + 1))));
        }
        i += 1;
    }
    assert(bytes@.skip(i as int) =~= Seq::<u8>::empty());
    assert(out@ + Seq::<u8>::empty() =~= out@);
    out
}

pub fn percent_decode(s: &str) -> (r: String)
    ensures
        r@ == lossy(percent_decoded(encode_utf8(s@))),
        valid_utf8(percent_decoded(encode_utf8(s@))) ==> r@ == decode_utf8(
            percent_decoded(encode_utf8(s@)),
        ),
{
    let out = decode_bytes(s.as_bytes());
    lossy_text(out.as_slice())
}

/// Bytes that stand for themselves in a cookie.
pub open spec fn unreserved(b: u8) -> bool {
    (65 <= b <= 90) || (97 <= b <= 122) || (48 <= b <= 57) || b == 45 || b == 95 || b == 46 || b
        == 126
}

pub open spec fn big_hex(d: int) -> char {
    if d < 10 {
        (48 + d) as char
    } else {
        (55 + d) as char
    }
}

pub open spec fn encoded_byte(b: u8) -> Seq<char> {
    if unreserved(b) {
        seq![b as char]
    } else {
        seq!['%', big_hex(b as int / 16), big_hex(b as int % 16)]
    }
}

pub open spec fn percent_encoded(b: Seq<u8>) -> Seq<char>
    decreases b.len(),
{
    if b.len() == 0 {
        Seq::empty()
    } else {
        percent_encoded(b.drop_last()) + encoded_byte(b.last())
    }
}

fn big_digit(d: u8) -> (c: char)
    requires
        d < 16,
    ensures
        c == big_hex(d as int),
{
    if d < 10 {
        (48 + d) as char
    } else {
        (55 + d) as char
    }
}

pub fn percent_encode_cookie(s: &str) -> (out: String)
    ensures
        out@ == percent_encoded(encode_utf8(s@)),
{
    let bytes = s.as_bytes();
    let ghost all = bytes@;
    let mut out = String::new();
    let mut i: usize = 0;
    assert(all.take(0) =~= Seq::<u8>::empty());
    while i < bytes.len()
        invariant
            i <= bytes@.len(),
            all == bytes@,
            out@ == percent_encoded(all.take(i as int)),
        decreases bytes@.len() - i,
    {
        let ghost before = out@;
        let b: u8 = bytes[i];
        proof {
            assert(all.take(i + 1).drop_last() =~= all.take(i as int));
            assert(all.take(i + 1).last() == b);
        }
        if (65 <= b && b <= 90) || (97 <= b && b <= 122) || (48 <= b && b <= 57) || b == 45 || b
            == 95 || b == 46 || b == 126 {
            out.push(b as char);
        } else {
            out.push('%');
            out.push(big_digit(b / 16));
            out.push(big_digit(b % 16));
        }
        assert(out@ =~= before + encoded_byte(b));
        i += 1;
    }
    assert(all.take(all.len() as int) =~= all);
    out
}

/// The same text as bytes.
pub open spec fn encoded_bytes(b: Seq<u8>) -> Seq<u8>
    decreases b.len(),
{
    if b.len() == 0 {
        Seq::empty()
    } else {
        (if unreserved(b[0]) {
            seq![b[0]]
        } else {
            seq![37u8, big_hex(b[0] as int / 16) as u8, big_hex(b[0] as int % 16) as u8]
        }) + encoded_bytes(b.skip(1))
    }
}

proof fn bytes_decode_back(b: Seq<u8>)
    ensures
        percent_decoded(encoded_bytes(b)) == b,
    decreases b.len(),
{
    if b.len() == 0 {
        assert(percent_decoded(encoded_bytes(b)) =~= b);
    } else {
        let rest = b.skip(1);
        bytes_decode_back(rest);
        let e = encoded_bytes(b);
        let x = b[0];
        if unreserved(x) {
            assert(e.skip(1) =~= encoded_bytes(rest));
            assert(e[0] != 37);
        } else {
            let h = big_hex(x as int / 16) as u8;
            let l = big_hex(x as int % 16) as u8;
            assert(e[0] == 37 && e[1] == h && e[2] == l);
            assert(nibble(h) == Some((x as int / 16) as u8));
            assert(nibble(l) == Some((x as int % 16) as u8));
            assert(e.skip(3) =~= encoded_bytes(rest));
        }
        assert(b =~= seq![x] + rest);
        assert(percent_decoded(e) =~= b);
    }
}

proof fn encoded_is_ascii(b: Seq<u8>)
    ensures
        is_ascii_chars(percent_encoded(b)),
    decreases b.len(),
{
    if b.len() > 0 {
        encoded_is_ascii(b.drop_last());
        let p = percent_encoded(b);
        let d = percent_encoded(b.drop_last());
        let t = encoded_byte(b.last());
        assert forall|i: int| 0 <= i < p.len() implies 0 <= #[trigger] (p[i] as nat) < 128 by {
            if i < d.len() {
                assert(p[i] == d[i]);
                assert(0 <= (d[i] as nat) < 128);
            } else {
                assert(p[i] == t[i - d.len()]);
            }
        }
    }
}

proof fn encoded_bytes_snoc(b: Seq<u8>)
    requires
        b.len() > 0,
    ensures
        encoded_bytes(b) == encoded_bytes(b.drop_last()) + encoded_bytes(seq![b.last()]),
    decreases b.len(),
{
    if b.len() == 1 {
        assert(b =~= seq![b.last()]);
        assert(b.drop_last() =~= Seq::<u8>::empty());
        assert(encoded_bytes(Seq::<u8>::empty()) + encoded_bytes(b) =~= encoded_bytes(b));
    } else {
        encoded_bytes_snoc(b.skip(1));
        assert(b.skip(1).drop_last() =~= b.drop_last().skip(1));
        assert(b.skip(1).last() == b.last());
        assert(encoded_bytes(b) =~= encoded_bytes(b.drop_last()) + encoded_bytes(seq![b.last()]));
    }
}

proof fn encodings_agree(b: Seq<u8>)
    ensures
        percent_encoded(b).len() == encoded_bytes(b).len(),
        forall|i: int|
            0 <= i < percent_encoded(b).len() ==> #[trigger] percent_encoded(b)[i] as u8
                == encoded_bytes(b)[i],
    decreases b.len(),
{
    if b.len() > 0 {
        encodings_agree(b.drop_last());
        encoded_bytes_snoc(b);
        let x = b.last();
        let one = seq![x];
        assert(one.skip(1) =~= Seq::<u8>::empty());
        assert(encoded_bytes(one.skip(1)) =~= Seq::<u8>::empty());
        let d = percent_encoded(b.drop_last());
        let e = encoded_bytes(b.drop_last());
        let t = encoded_byte(x);
        let u = encoded_bytes(one);
        assert(t.len() == u.len());
        assert forall|i: int| 0 <= i < t.len() implies #[trigger] (t[i] as u8) == u[i] by {}
        assert forall|i: int| 0 <= i < percent_encoded(b).len() implies #[trigger] percent_encoded(
            b,
        )[i] as u8 == encoded_bytes(b)[i] by {
            if i < d.len() {
                assert(percent_encoded(b)[i] == d[i]);
                assert(encoded_bytes(b)[i] == e[i]);
                assert(d[i] as u8 == e[i]);
            } else {
                assert(percent_encoded(b)[i] == t[i - d.len()]);
                assert(encoded_bytes(b)[i] == u[i - d.len()]);
                assert(t[i - d.len()] as u8 == u[i - d.len()]);
            }
        }
    }
}

/// A cookie value reads back as what was written.
pub proof fn cookie_reads_back(s: Seq<char>)
    ensures
        percent_decoded(encode_utf8(percent_encoded(encode_utf8(s)))) == encode_utf8(s),
        valid_utf8(encode_utf8(s)),
        decode_utf8(encode_utf8(s)) == s,
{
    let b = encode_utf8(s);
    let p = percent_encoded(b);
    encode_utf8_decode_utf8(s);
    encode_utf8_valid_utf8(s);
    encoded_is_ascii(b);
    is_ascii_chars_encode_utf8(p);
    encodings_agree(b);
    assert(encode_utf8(p) =~= encoded_bytes(b));
    bytes_decode_back(b);
}

/// The raw value of a cookie: of the first of that name.
pub open spec fn cookie_in(parts: Seq<Seq<char>>, prefix: Seq<char>) -> Option<Seq<char>>
    decreases parts.len(),
{
    if parts.len() == 0 {
        None
    } else if begins(trimmed(parts[0]), prefix) {
        Some(trimmed(parts[0]).skip(prefix.len() as int))
    } else {
        cookie_in(parts.drop_first(), prefix)
    }
}

/// The value of a cookie as it was written, if the header names it.
pub open spec fn cookie_raw(header: Option<Seq<char>>, name: Seq<char>) -> Option<Seq<char>> {
    match header {
        Some(c) => cookie_in(split(c, ';'), name + "="@),
        None => None,
    }
}

/// The value of a cookie, empty where there is none.
pub open spec fn cookie_of(header: Option<Seq<char>>, name: Seq<char>) -> Seq<char> {
    match cookie_raw(header, name) {
        Some(v) => lossy(percent_decoded(encode_utf8(v))),
        None => Seq::empty(),
    }
}

pub open spec fn opt(s: Option<&str>) -> Option<Seq<char>> {
    match s {
        Some(t) => Some(t@),
        None => None,
    }
}

/// `header` is the value of the Cookie header, where it is text.
pub fn cookie_named(header: Option<&str>, name: &str) -> (r: String)
    ensures
        r@ == cookie_of(opt(header), name@),
{
    match header {
        None => String::new(),
        Some(c) => {
            let prefix = concat2(name, "=");
            let parts = split_on(c, ';');
            let ghost ps = texts(parts@);
            let mut i: usize = 0;
            assert(ps.skip(0) =~= ps);
            while i < parts.len()
                invariant
                    i <= parts@.len(),
                    ps == texts(parts@),
                    ps == split(c@, ';'),
                    prefix@ == name@ + "="@,
                    header == Some(c),
                    cookie_in(ps.skip(i as int), prefix@) == cookie_in(ps, prefix@),
                decreases parts@.len() - i,
            {
                proof {
                    assert(ps.skip(i as int)[0] == parts@[i as int]@);
                    assert(ps.skip(i as int).drop_first() =~= ps.skip(i + 1));
                }
                let part = trim(parts[i].as_str());
                if starts_with(part.as_str(), prefix.as_str()) {
                    let v = chars_of(part.as_str());
                    let k: usize = chars_of(prefix.as_str()).len();
                    let value = slice_text(&v, k, v.len());
                    assert(value@ =~= part@.skip(prefix@.len() as int));
                    return percent_decode(value.as_str());
                }
                i += 1;
            }
            String::new()
        },
    }
}

/// The name and value pairs of a form or a query.
pub uninterp spec fn form_of(query: Seq<char>) -> Seq<(Seq<char>, Seq<char>)>;

/// `url::form_urlencoded::parse`: the pairs of a query, percent-decoded. How
/// they are told apart is left to the name.
#[verifier::external_body]
pub(crate) fn form_pairs(query: &str) -> (r: Vec<(String, String)>)
    ensures
        text_pairs(r@) == form_of(query@),
{
    url::form_urlencoded::parse(query.as_bytes()).into_owned().collect()
}

/// The first value under a name that is not empty.
pub open spec fn first_value(q: Seq<(Seq<char>, Seq<char>)>, name: Seq<char>) -> Option<Seq<char>>
    decreases q.len(),
{
    if q.len() == 0 {
        None
    } else if q[0].0 == name && q[0].1.len() > 0 {
        Some(q[0].1)
    } else {
        first_value(q.drop_first(), name)
    }
}

fn find_value(q: &Vec<(String, String)>, name: &str) -> (r: Option<String>)
    ensures
        crate::text::opt_text(r) == first_value(text_pairs(q@), name@),
{
    let ghost all = text_pairs(q@);
    let mut i: usize = 0;
    assert(all.skip(0) =~= all);
    while i < q.len()
        invariant
            i <= q@.len(),
            all == text_pairs(q@),
            first_value(all.skip(i as int), name@) == first_value(all, name@),
        decreases q@.len() - i,
    {
        proof {
            assert(all.skip(i as int)[0] == (q@[i as int].0@, q@[i as int].1@));
            assert(all.skip(i as int).drop_first() =~= all.skip(i + 1));
        }
        if same(q[i].0.as_str(), name) && !q[i].1.as_str().is_empty() {
            return Some(q[i].1.clone());
        }
        i += 1;
    }
    None
}

/// The last value under a name, empty where there is none.
pub open spec fn last_value(q: Seq<(Seq<char>, Seq<char>)>, name: Seq<char>) -> Seq<char>
    decreases q.len(),
{
    if q.len() == 0 {
        Seq::empty()
    } else if q.last().0 == name {
        q.last().1
    } else {
        last_value(q.drop_last(), name)
    }
}

/// The last value under a name among pairs.
pub fn value_named(q: &Vec<(String, String)>, name: &str) -> (r: String)
    ensures
        r@ == last_value(text_pairs(q@), name@),
{
    let ghost all = text_pairs(q@);
    let mut i: usize = q.len();
    assert(all.take(all.len() as int) =~= all);
    while i > 0
        invariant
            i <= q@.len() == all.len(),
            all == text_pairs(q@),
            last_value(all.take(i as int), name@) == last_value(all, name@),
        decreases i,
    {
        proof {
            assert(all.take(i as int).last() == (q@[i - 1].0@, q@[i - 1].1@));
            assert(all.take(i as int).drop_last() =~= all.take(i - 1));
        }
        if same(q[i - 1].0.as_str(), name) {
            return q[i - 1].1.clone();
        }
        i -= 1;
    }
    String::new()
}

/// The last value under a name in a query.
pub fn query_value(query: &str, name: &str) -> (r: String)
    ensures
        r@ == last_value(form_of(query@), name@),
{
    value_named(&form_pairs(query), name)
}

/// What stands behind `Bearer ` in an Authorization header.
pub open spec fn bearer(auth: Option<Seq<char>>) -> Option<Seq<char>> {
    match auth {
        Some(a) => if begins(a, "Bearer "@) {
            Some(a.skip(7))
        } else {
            None
        },
        None => None,
    }
}

fn bearer_text(auth: Option<&str>) -> (r: Option<String>)
    ensures
        crate::text::opt_text(r) == bearer(opt(auth)),
{
    match auth {
        Some(a) => {
            proof {
                reveal_strlit("Bearer ");
            }
            if starts_with(a, "Bearer ") {
                let v = chars_of(a);
                let rest = slice_text(&v, 7, v.len());
                assert(rest@ =~= a@.skip(7));
                Some(rest)
            } else {
                None
            }
        },
        None => None,
    }
}

/// The host token of a request: from the Authorization header, else from the
/// query, else from the cookie.
pub open spec fn token_in(
    auth: Option<Seq<char>>,
    q: Seq<(Seq<char>, Seq<char>)>,
    cookie: Option<Seq<char>>,
) -> Seq<char> {
    match bearer(auth) {
        Some(b) => if trimmed(b).len() > 0 {
            trimmed(b)
        } else {
            token_without_bearer(q, cookie)
        },
        None => token_without_bearer(q, cookie),
    }
}

pub open spec fn token_without_bearer(
    q: Seq<(Seq<char>, Seq<char>)>,
    cookie: Option<Seq<char>>,
) -> Seq<char> {
    match first_value(q, "token"@) {
        Some(t) => t,
        None => cookie_of(cookie, "streamaid_token"@),
    }
}

/// The host token of a request, from the pairs of its query.
pub fn token_of(auth: Option<&str>, q: &Vec<(String, String)>, cookie: Option<&str>) -> (r: String)
    ensures
        r@ == token_in(opt(auth), text_pairs(q@), opt(cookie)),
{
    match bearer_text(auth) {
        Some(b) => {
            let t = trim(b.as_str());
            if !t.as_str().is_empty() {
                return t;
            }
        },
        None => {},
    }
    match find_value(q, "token") {
        Some(t) => t,
        None => cookie_named(cookie, "streamaid_token"),
    }
}

pub fn request_token(auth: Option<&str>, query: &str, cookie: Option<&str>) -> (r: String)
    ensures
        r@ == token_in(opt(auth), form_of(query@), opt(cookie)),
{
    token_of(auth, &form_pairs(query), cookie)
}

/// The viewer session of a request: from the query, else from the cookie, else
/// from the Authorization header.
pub open spec fn session_in(
    auth: Option<Seq<char>>,
    q: Seq<(Seq<char>, Seq<char>)>,
    cookie: Option<Seq<char>>,
) -> Seq<char> {
    match first_value(q, "session"@) {
        Some(s) => s,
        None => if cookie_of(cookie, "streamaid_session"@).len() > 0 {
            cookie_of(cookie, "streamaid_session"@)
        } else {
            match bearer(auth) {
                Some(b) => b,
                None => Seq::empty(),
            }
        },
    }
}

/// The viewer session of a request, from the pairs of its query.
pub fn session_of(auth: Option<&str>, q: &Vec<(String, String)>, cookie: Option<&str>) -> (r:
    String)
    ensures
        r@ == session_in(opt(auth), text_pairs(q@), opt(cookie)),
{
    match find_value(q, "session") {
        Some(s) => s,
        None => {
            let c = cookie_named(cookie, "streamaid_session");
            if !c.as_str().is_empty() {
                return c;
            }
            match bearer_text(auth) {
                Some(b) => b,
                None => String::new(),
            }
        },
    }
}

pub fn request_session(auth: Option<&str>, query: &str, cookie: Option<&str>) -> (r: String)
    ensures
        r@ == session_in(opt(auth), form_of(query@), opt(cookie)),
{
    session_of(auth, &form_pairs(query), cookie)
}

/// Paths that anyone may ask for.
pub open spec fn open_path(path: Seq<char>) -> bool {
    path == "/"@ || path == "/app.js"@ || path == "/style.css"@ || path == "/api/otp/redeem"@
        || path == "/api/login"@
}

pub fn is_public(path: &str) -> (r: bool)
    ensures
        r == open_path(path@),
{
    same(path, "/") || same(path, "/app.js") || same(path, "/style.css") || same(
        path,
        "/api/otp/redeem",
    ) || same(path, "/api/login")
}

/// Whether a request may watch.
pub open spec fn may_watch(expected: Seq<char>, token: Seq<char>, session_live: bool) -> bool {
    opens(token, expected) || session_live
}

/// A refusal: the HTTP status and the reason.
#[derive(Clone, Copy, Debug)]
pub struct Refusal {
    pub status: u16,
    pub reason: &'static str,
}

pub open spec fn session_cookie_text(token: Seq<char>) -> Seq<char> {
    "streamaid_session="@ + percent_encoded(encode_utf8(token))
        + "; Path=/; HttpOnly; SameSite=Lax; Max-Age="@ + decimal((SESSION_TTL / 1_000_000_000) as nat)
}

pub fn session_cookie(token: &str) -> (s: String)
    ensures
        s@ == session_cookie_text(token@),
{
    let mut s = concat2("streamaid_session=", percent_encode_cookie(token).as_str());
    append(&mut s, "; Path=/; HttpOnly; SameSite=Lax; Max-Age=");
    append(&mut s, decimal_text(SESSION_TTL / 1_000_000_000).as_str());
    s
}

pub open spec fn token_cookie_text(token: Seq<char>) -> Seq<char> {
    "streamaid_token="@ + percent_encoded(encode_utf8(token)) + "; Path=/; SameSite=Lax; Max-Age=86400"@
}

pub fn token_auth_cookie(token: &str) -> (s: String)
    ensures
        s@ == token_cookie_text(token@),
{
    let mut s = concat2("streamaid_token=", percent_encode_cookie(token).as_str());
    append(&mut s, "; Path=/; SameSite=Lax; Max-Age=86400");
    s
}

pub open spec fn viewer_cookie_text() -> Seq<char> {
    "streamaid_viewer=1; Path=/; SameSite=Lax; Max-Age="@ + decimal(
        (SESSION_TTL / 1_000_000_000) as nat,
    )
}

pub fn viewer_flag_cookie() -> (s: String)
    ensures
        s@ == viewer_cookie_text(),
{
    concat2(
        "streamaid_viewer=1; Path=/; SameSite=Lax; Max-Age=",
        decimal_text(SESSION_TTL / 1_000_000_000).as_str(),
    )
}

/// A token opens where its digest is that of the one expected; where none is
/// expected every one does.
pub proof fn tokens_open_by_digest(given: Seq<char>, expected: Seq<char>)
    ensures
        opens(given, expected) <==> expected.len() == 0 || crate::otp::sha256_of(encode_utf8(given))
            == crate::otp::sha256_of(encode_utf8(expected)),
        may_watch(expected, given, false) == opens(given, expected),
        may_watch(expected, given, true),
{
}

/// Whether two digits, small or capital, spell a byte.
pub open spec fn spells(hi: u8, lo: u8, b: u8) -> bool {
    exists|h: int, l: int|
        #[trigger] worth(hi, h) && #[trigger] worth(lo, l) && 16 * h + l == b
}

pub open spec fn worth(d: u8, n: int) -> bool {
    (0 <= n <= 9 && d == 48 + n) || (10 <= n <= 15 && (d == 55 + n || d == 87 + n))
}

/// An escape stands for its byte, in small letters or capitals; every byte that
/// is no percent sign stands for itself.
pub proof fn escapes_stand_for_their_bytes(hi: u8, lo: u8, b: u8, rest: Seq<u8>)
    ensures
        spells(hi, lo, b) ==> percent_decoded(seq![37u8, hi, lo] + rest) == seq![b]
            + percent_decoded(rest),
        b != 37 ==> percent_decoded(seq![b] + rest) == seq![b] + percent_decoded(rest),
        percent_decoded(Seq::empty()) == Seq::<u8>::empty(),
{
    let s = seq![37u8, hi, lo] + rest;
    let t = seq![b] + rest;
    assert(s.skip(3) =~= rest);
    assert(t.skip(1) =~= rest);
    if spells(hi, lo, b) {
        let (h, l) = choose|h: int, l: int|
            #[trigger] worth(hi, h) && #[trigger] worth(lo, l) && 16 * h + l == b;
        assert(nibble(hi) == Some(h as u8));
        assert(nibble(lo) == Some(l as u8));
    }
}

/// A percent sign that two digits do not follow stands for itself.
pub proof fn lone_percent_signs_stay(hi: u8, lo: u8, rest: Seq<u8>)
    requires
        forall|n: int| !#[trigger] worth(hi, n),
    ensures
        percent_decoded(seq![37u8, hi, lo] + rest) == seq![37u8] + percent_decoded(
            seq![hi, lo] + rest,
        ),
        percent_decoded(seq![37u8]) == seq![37u8],
{
    let s = seq![37u8, hi, lo] + rest;
    assert(s.skip(1) =~= seq![hi, lo] + rest);
    if nibble(hi) is Some {
        assert(worth(hi, nibble(hi)->Some_0 as int));
    }
    reveal_with_fuel(percent_decoded, 2);
    assert(seq![37u8].skip(1) =~= Seq::<u8>::empty());
    assert(percent_decoded(seq![37u8]) =~= seq![37u8]);
}

/// In a cookie letters, digits and four signs stand for themselves; any other
/// byte is escaped in capitals.
pub proof fn cookies_are_escaped(b: u8)
    ensures
        (48 <= b <= 57 || 65 <= b <= 90 || 97 <= b <= 122 || b == 45 || b == 46 || b == 95 || b
            == 126) ==> encoded_byte(b) == seq![b as char],
        !(48 <= b <= 57 || 65 <= b <= 90 || 97 <= b <= 122 || b == 45 || b == 46 || b == 95 || b
            == 126) ==> {
            let e = encoded_byte(b);
            &&& e.len() == 3 && e[0] == '%'
            &&& spells(e[1] as u8, e[2] as u8, b)
            &&& e[1] < 'a' && e[2] < 'a'
        },
{
    if !unreserved(b) {
        let e = encoded_byte(b);
        let h = b as int / 16;
        let l = b as int % 16;
        assert(worth(e[1] as u8, h));
        assert(worth(e[2] as u8, l));
    }
}

/// A cookie is found by its name among the others, the first of that name, with
/// white space around it left out.
pub proof fn cookie_is_found_by_name(
    parts: Seq<Seq<char>>,
    name: Seq<char>,
    value: Seq<char>,
    i: int,
)
    requires
        0 <= i < parts.len(),
        trimmed(parts[i]) == name + "="@ + value,
        forall|j: int| 0 <= j < i ==> !begins(trimmed(#[trigger] parts[j]), name + "="@),
    ensures
        cookie_in(parts, name + "="@) == Some(value),
    decreases parts.len(),
{
    let prefix = name + "="@;
    if i == 0 {
        crate::text::joined_text_begins_and_ends(prefix, value);
        assert((prefix + value).skip(prefix.len() as int) =~= value);
    } else {
        let d = parts.drop_first();
        assert(d[i - 1] == parts[i]);
        assert forall|j: int| 0 <= j < i - 1 implies !begins(trimmed(#[trigger] d[j]), prefix) by {
            assert(d[j] == parts[j + 1]);
        }
        assert(parts[0] == parts[0]);
        cookie_is_found_by_name(d, name, value, i - 1);
    }
}

/// A cookie header that holds one cookie gives its value back.
pub proof fn single_cookie_is_read(name: Seq<char>, value: Seq<char>)
    requires
        trimmed(name + "="@ + value) == name + "="@ + value,
        forall|i: int| 0 <= i < name.len() ==> #[trigger] name[i] != ';',
        forall|i: int| 0 <= i < value.len() ==> #[trigger] value[i] != ';',
    ensures
        cookie_raw(Some(name + "="@ + value), name) == Some(value),
        cookie_raw(None, name) is None,
{
    let s = name + "="@ + value;
    reveal_strlit("=");
    assert forall|i: int| 0 <= i < s.len() implies #[trigger] s[i] != ';' by {
        if i < name.len() {
            assert(s[i] == name[i]);
        } else if i > name.len() {
            assert(s[i] == value[i - name.len() - 1]);
        }
    }
    crate::text::splitting_undoes_joining(s, Seq::empty(), ';');
    cookie_is_found_by_name(seq![s], name, value, 0);
}

/// Of several values of a name the first that is not empty counts in one place,
/// and the last in the other.
pub proof fn values_are_found_by_name(
    q: Seq<(Seq<char>, Seq<char>)>,
    name: Seq<char>,
    other: Seq<char>,
    v: Seq<char>,
)
    ensures
        v.len() > 0 ==> first_value(seq![(name, v)] + q, name) == Some(v),
        first_value(seq![(name, Seq::empty())] + q, name) == first_value(q, name),
        last_value(q.push((name, v)), name) == v,
        other != name ==> first_value(seq![(other, v)] + q, name) == first_value(q, name),
        other != name ==> last_value(q.push((other, v)), name) == last_value(q, name),
        first_value(Seq::empty(), name) is None,
        last_value(Seq::empty(), name).len() == 0,
{
    let none = Seq::<char>::empty();
    assert((seq![(name, v)] + q).drop_first() =~= q);
    assert((seq![(name, none)] + q).drop_first() =~= q);
    assert((seq![(other, v)] + q).drop_first() =~= q);
    assert(q.push((other, v)).drop_last() =~= q);
}

/// A token in the header goes before one in the query, and that before the
/// cookie; a session in the query goes before the cookie, and that before the
/// header.
pub proof fn credentials_have_their_order(
    token: Seq<char>,
    q: Seq<(Seq<char>, Seq<char>)>,
    cookie: Option<Seq<char>>,
)
    ensures
        bearer(Some("Bearer "@ + token)) == Some(token),
        trimmed(token).len() > 0 ==> token_in(Some("Bearer "@ + token), q, cookie) == trimmed(token),
        trimmed(token).len() == 0 ==> token_in(Some("Bearer "@ + token), q, cookie) == token_in(
            None,
            q,
            cookie,
        ),
        first_value(q, "token"@) matches Some(t) ==> token_in(None, q, cookie) == t,
        first_value(q, "token"@) is None ==> token_in(None, q, cookie) == cookie_of(
            cookie,
            "streamaid_token"@,
        ),
        first_value(q, "session"@) matches Some(s) ==> session_in(
            Some("Bearer "@ + token),
            q,
            cookie,
        ) == s,
        first_value(q, "session"@) is None && cookie_of(cookie, "streamaid_session"@).len() > 0
            ==> session_in(Some("Bearer "@ + token), q, cookie) == cookie_of(
            cookie,
            "streamaid_session"@,
        ),
        first_value(q, "session"@) is None && cookie_of(cookie, "streamaid_session"@).len() == 0
            ==> session_in(Some("Bearer "@ + token), q, cookie) == token,
{
    reveal_strlit("Bearer ");
    crate::text::joined_text_begins_and_ends("Bearer "@, token);
    assert(("Bearer "@ + token).skip(7) =~= token);
}

/// Without a token only the page, its two files and the two ways in are served.
pub proof fn only_the_way_in_is_open(path: Seq<char>)
    ensures
        open_path(path) ==> path.len() <= 15,
        open_path(path) && begins(path, "/api/"@) ==> path == "/api/otp/redeem"@ || path
            == "/api/login"@,
        open_path("/"@) && open_path("/app.js"@) && open_path("/style.css"@) && open_path(
            "/api/otp/redeem"@,
        ) && open_path("/api/login"@),
        begins(path, "/stream"@) ==> !open_path(path),
{
    reveal_strlit("/");
    reveal_strlit("/app.js");
    reveal_strlit("/style.css");
    reveal_strlit("/api/otp/redeem");
    reveal_strlit("/api/login");
    reveal_strlit("/api/");
    reveal_strlit("/stream");
    if begins(path, "/api/"@) {
        assert(path.take(5)[3] == "/api/"@[3]);
        assert(path[3] == 'i');
        assert("/app.js"@[3] == 'p' && "/style.css"@[3] == 'y' && "/"@.len() == 1);
    }
    if begins(path, "/stream"@) {
        assert(path.take(7)[3] == "/stream"@[3]);
        assert(path[3] == 'r');
        assert("/app.js"@[3] == 'p' && "/style.css"@[3] == 'y' && "/"@.len() == 1
            && "/api/otp/redeem"@[3] == 'i' && "/api/login"@[3] == 'i');
    }
}

/// A session's cookie lasts a day, for the whole site, out of reach of scripts;
/// those that scripts read hold the token and a mere flag.
pub proof fn cookies_say_their_terms(token: Seq<char>)
    ensures
        session_cookie_text(token) == "streamaid_session="@ + percent_encoded(encode_utf8(token))
            + "; Path=/; HttpOnly; SameSite=Lax; Max-Age=86400"@,
        token_cookie_text(token) == "streamaid_token="@ + percent_encoded(encode_utf8(token))
            + "; Path=/; SameSite=Lax; Max-Age=86400"@,
        viewer_cookie_text() == "streamaid_viewer=1; Path=/; SameSite=Lax; Max-Age=86400"@,
{
    reveal_with_fuel(decimal, 6);
    assert(decimal(86400) =~= seq!['8', '6', '4', '0', '0']);
    reveal_strlit("; Path=/; HttpOnly; SameSite=Lax; Max-Age=");
    reveal_strlit("; Path=/; HttpOnly; SameSite=Lax; Max-Age=86400");
    reveal_strlit("streamaid_viewer=1; Path=/; SameSite=Lax; Max-Age=");
    reveal_strlit("streamaid_viewer=1; Path=/; SameSite=Lax; Max-Age=86400");
    assert("; Path=/; HttpOnly; SameSite=Lax; Max-Age="@ + decimal(86400)
        =~= "; Path=/; HttpOnly; SameSite=Lax; Max-Age=86400"@);
    assert(viewer_cookie_text() =~= "streamaid_viewer=1; Path=/; SameSite=Lax; Max-Age=86400"@);
    assert(session_cookie_text(token) =~= "streamaid_session="@ + percent_encoded(
        encode_utf8(token),
    ) + ("; Path=/; HttpOnly; SameSite=Lax; Max-Age="@ + decimal(86400)));
}

} // verus!
