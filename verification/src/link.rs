//! URLs and their queries.

use crate::text::byte_len;
use vstd::prelude::*;
use vstd::utf8::*;

verus! {

/// The normal form of a URL, or what is wrong with the text.
pub uninterp spec fn url_of(s: Seq<char>) -> Result<Seq<char>, Seq<char>>;

/// The name and value pairs in the query of a URL.
pub uninterp spec fn query_of(url: Seq<char>) -> Seq<(Seq<char>, Seq<char>)>;

/// A URL with one more pair at the end of its query.
pub uninterp spec fn with_pair(url: Seq<char>, name: Seq<char>, value: Seq<char>) -> Seq<char>;

pub open spec fn text_pairs(v: Seq<(String, String)>) -> Seq<(Seq<char>, Seq<char>)> {
    Seq::new(v.len(), |i: int| (v[i].0@, v[i].1@))
}

/// `url::Url::parse`: the URL as it is then written, or the text of the error.
#[verifier::external_body]
pub(crate) fn parse_url(s: &str) -> (r: Result<String, String>)
    ensures
        match r {
            Ok(u) => url_of(s@) == Ok::<Seq<char>, Seq<char>>(u@),
            Err(e) => url_of(s@) == Err::<Seq<char>, Seq<char>>(e@),
        },
{
    url::Url::parse(s).map(String::from).map_err(|e| e.to_string())
}

/// `url::Url::query_pairs`: the pairs in the query of a URL, percent-decoded;
/// none where the text is no URL.
#[verifier::external_body]
pub(crate) fn query_pairs(url: &str) -> (r: Vec<(String, String)>)
    ensures
        text_pairs(r@) == query_of(url@),
{
    match url::Url::parse(url) {
        Ok(u) => u.query_pairs().into_owned().collect(),
        Err(_) => Vec::new(),
    }
}

/// Bytes that stand for themselves in a query pair.
pub open spec fn plain_byte(b: u8) -> bool {
    ||| b == 0x2a || b == 0x2d || b == 0x2e || b == 0x5f
    ||| 0x30 <= b <= 0x39
    ||| 0x41 <= b <= 0x5a
    ||| 0x61 <= b <= 0x7a
}

/// How many bytes a text takes in a query pair: a plain byte or a space one,
/// any other byte three.
pub open spec fn encoded_len(b: Seq<u8>) -> nat
    decreases b.len(),
{
    if b.len() == 0 {
        0
    } else {
        encoded_len(b.drop_last()) + if plain_byte(b.last()) || b.last() == 0x20 {
            1nat
        } else {
            3
        }
    }
}

/// Whether a URL has room for one more pair: its length must fit in 32 bits,
/// and a separator, the name, a sign of equality and the value are added.
pub open spec fn has_room(url: Seq<char>, name: Seq<char>, value: Seq<char>) -> bool {
    byte_len(url) + 2 + encoded_len(encode_utf8(name)) + encoded_len(encode_utf8(value))
        <= 0xffff_ffff
}

proof fn encoded_len_grows(b: Seq<u8>, i: int)
    requires
        0 <= i <= b.len(),
    ensures
        encoded_len(b.take(i)) <= encoded_len(b),
    decreases b.len() - i,
{
    if i < b.len() {
        assert(b.take(i + 1).drop_last() =~= b.take(i));
        encoded_len_grows(b, i + 1);
    } else {
        assert(b.take(i) =~= b);
    }
}

/// What is left of `room` when the bytes were put into a query pair, if they fit.
fn room_after(room: u64, b: &[u8]) -> (r: Option<u64>)
    requires
        room <= 0xffff_ffff,
    ensures
        match r {
            Some(n) => encoded_len(b@) <= room && n == room - encoded_len(b@),
            None => encoded_len(b@) > room,
        },
{
    let mut used: u64 = 0;
    let mut i: usize = 0;
    assert(b@.take(0) =~= Seq::<u8>::empty());
    while i < b.len()
        invariant
            i <= b@.len(),
            room <= 0xffff_ffff,
            used <= room,
            used == encoded_len(b@.take(i as int)),
        decreases b@.len() - i,
    {
        let c: u8 = b[i];
        let one = c == 0x2a || c == 0x2d || c == 0x2e || c == 0x5f || (0x30 <= c && c <= 0x39) || (
        0x41 <= c && c <= 0x5a) || (0x61 <= c && c <= 0x7a) || c == 0x20;
        assert(b@.take(i + 1).drop_last() =~= b@.take(i as int));
        assert(b@.take(i + 1).last() == c);
        used = used + if one {
            1
        } else {
            3
        };
        if used > room {
            proof {
                encoded_len_grows(b@, i + 1);
            }
            return None;
        }
        i += 1;
    }
    assert(b@.take(i as int) =~= b@);
    Some(room - used)
}

pub fn pair_fits(url: &str, name: &str, value: &str) -> (r: bool)
    ensures
        r == has_room(url@, name@, value@),
{
    let n: usize = url.as_bytes().len();
    if n > 0xffff_fffd {
        return false;
    }
    match room_after(0xffff_fffd - n as u64, name.as_bytes()) {
        None => false,
        Some(left) => room_after(left, value.as_bytes()).is_some(),
    }
}

/// `url::Url::query_pairs_mut` with `append_pair`: the URL that a text stands
/// for, with the pair percent-encoded at the end of its query, before a
/// fragment. The query then holds the pairs it held, and the new one last. A
/// text that is no URL stays as it is. A URL of more than 32 bits in length
/// cannot be written, so there must be room for the pair.
#[verifier::external_body]
pub(crate) fn append_pair(url: &str, name: &str, value: &str) -> (r: String)
    requires
        url_of(url@) matches Ok(u) ==> has_room(u, name@, value@),
    ensures
        r@ == with_pair(url@, name@, value@),
        url_of(url@) matches Ok(u) ==> (url_of(u) == Ok::<Seq<char>, Seq<char>>(u) ==> query_of(r@)
            == query_of(url@).push((name@, value@))),
{
    match url::Url::parse(url) {
        Ok(mut u) => {
            u.query_pairs_mut().append_pair(name, value);
            String::from(u)
        },
        Err(_) => url.to_string(),
    }
}

/// A byte takes one character in a query where it is a letter, a digit, one of
/// four signs or a blank, and three otherwise.
pub proof fn bytes_take_one_or_three(b: Seq<u8>, x: u8)
    ensures
        48 <= x <= 57 || 65 <= x <= 90 || 97 <= x <= 122 || x == 42 || x == 45 || x == 46 || x == 95
            || x == 32 ==> encoded_len(b.push(x)) == encoded_len(b) + 1,
        !(48 <= x <= 57 || 65 <= x <= 90 || 97 <= x <= 122 || x == 42 || x == 45 || x == 46 || x
            == 95 || x == 32) ==> encoded_len(b.push(x)) == encoded_len(b) + 3,
        encoded_len(Seq::empty()) == 0,
{
    assert(b.push(x).drop_last() =~= b);
}

/// A pair has room where the URL with it and its two signs is no longer than
/// its length can be told.
pub proof fn room_is_what_a_url_can_hold(url: Seq<char>, name: Seq<char>, value: Seq<char>)
    ensures
        has_room(url, name, value) <==> byte_len(url) + encoded_len(encode_utf8(name)) + encoded_len(
            encode_utf8(value),
        ) <= 4_294_967_293,
{
}

} // verus!
