//! HTTP streaming headers: chunked, unbuffered, no transform.

use crate::octets::extend;
use vstd::prelude::*;

verus! {

/// Headers applied to `/stream.mp4` and `/stream.mjpeg`, by name in order.
pub struct HeaderMap {
    entries: Vec<(&'static str, &'static str)>,
}

/// The streaming headers as pairs of name and value.
pub open spec fn stream_headers() -> Seq<(Seq<char>, Seq<char>)> {
    seq![
        ("CDN-Cache-Control"@, "no-store"@),
        ("Cache-Control"@, "no-store, no-cache, no-transform, must-revalidate"@),
        ("Transfer-Encoding"@, "chunked"@),
        ("X-Accel-Buffering"@, "no"@),
    ]
}

/// The value of the first pair with that name.
pub open spec fn header_lookup(h: Seq<(Seq<char>, Seq<char>)>, name: Seq<char>) -> Option<Seq<char>>
    decreases h.len(),
{
    if h.len() == 0 {
        None
    } else if h[0].0 == name {
        Some(h[0].1)
    } else {
        header_lookup(h.drop_first(), name)
    }
}

impl View for HeaderMap {
    type V = Seq<(Seq<char>, Seq<char>)>;

    closed spec fn view(&self) -> Self::V {
        Seq::new(self.entries@.len(), |i: int| (self.entries@[i].0@, self.entries@[i].1@))
    }
}

impl HeaderMap {
    pub fn get(&self, name: &str) -> (r: Option<&'static str>)
        ensures
            match r {
                Some(v) => header_lookup(self@, name@) == Some(v@),
                None => header_lookup(self@, name@) is None,
            },
    {
        let mut i: usize = 0;
        assert(self@.skip(0) =~= self@);
        while i < self.entries.len()
            invariant
                i <= self.entries@.len() == self@.len(),
                header_lookup(self@.skip(i as int), name@) == header_lookup(self@, name@),
            decreases self.entries@.len() - i,
        {
            assert(self@.skip(i as int)[0] == self@[i as int]);
            assert(self@.skip(i as int).drop_first() =~= self@.skip(i + 1));
            if crate::text::same(self.entries[i].0, name) {
                return Some(self.entries[i].1);
            }
            i += 1;
        }
        None
    }

    /// All pairs, in order of their names.
    pub fn pairs(&self) -> (r: &Vec<(&'static str, &'static str)>)
        ensures
            r@.len() == self@.len(),
            forall|i: int| 0 <= i < r@.len() ==> (#[trigger] r@[i]).0@ == self@[i].0 && r@[i].1@ == self@[i].1,
    {
        &self.entries
    }
}

pub fn stream_header_map() -> (m: HeaderMap)
    ensures
        m@ == stream_headers(),
{
    let mut entries: Vec<(&'static str, &'static str)> = Vec::new();
    entries.push(("CDN-Cache-Control", "no-store"));
    entries.push(("Cache-Control", "no-store, no-cache, no-transform, must-revalidate"));
    entries.push(("Transfer-Encoding", "chunked"));
    entries.push(("X-Accel-Buffering", "no"));
    let m = HeaderMap { entries };
    assert(m@ =~= stream_headers());
    m
}

pub open spec fn hex_digit(d: nat) -> u8 {
    if d < 10 {
        (48 + d) as u8
    } else {
        (55 + d) as u8
    }
}

/// Upper-case hexadecimal digits, without leading zeros.
pub open spec fn hex_length(n: nat) -> Seq<u8>
    decreases n,
{
    if n < 16 {
        seq![hex_digit(n)]
    } else {
        hex_length(n / 16).push(hex_digit(n % 16))
    }
}

fn push_hex(out: &mut Vec<u8>, n: usize)
    ensures
        final(out)@ == old(out)@ + hex_length(n as nat),
    decreases n,
{
    if n >= 16 {
        push_hex(out, n / 16);
    }
    let d: u8 = (n % 16) as u8;
    out.push(if d < 10 { 48 + d } else { 55 + d });
    assert(out@ =~= old(out)@ + hex_length(n as nat));
}

/// One chunk: length in hexadecimal, line end, payload, line end. An empty
/// payload is the terminator.
pub open spec fn chunk(data: Seq<u8>) -> Seq<u8> {
    if data.len() == 0 {
        seq![48u8, 13, 10, 13, 10]
    } else {
        hex_length(data.len()) + seq![13u8, 10] + data + seq![13u8, 10]
    }
}

/// RFC 9112 chunk. Empty payload is the terminator `0\r\n\r\n`.
pub fn encode_chunk(data: &[u8]) -> (out: Vec<u8>)
    ensures
        out@ == chunk(data@),
{
    let mut out: Vec<u8> = Vec::new();
    if data.is_empty() {
        out.push(48);
        out.push(13);
        out.push(10);
        out.push(13);
        out.push(10);
        assert(out@ =~= chunk(data@));
        return out;
    }
    push_hex(&mut out, data.len());
    out.push(13);
    out.push(10);
    extend(&mut out, data);
    out.push(13);
    out.push(10);
    assert(out@ =~= chunk(data@));
    out
}

/// The number that upper-case hexadecimal digits stand for.
pub open spec fn hex_value(s: Seq<u8>) -> nat
    decreases s.len(),
{
    if s.len() == 0 {
        0
    } else {
        hex_value(s.drop_last()) * 16 + if s.last() < 58 {
            (s.last() - 48) as nat
        } else {
            (s.last() - 55) as nat
        }
    }
}

proof fn hex_length_reads_back(n: nat)
    ensures
        hex_length(n).len() > 0,
        hex_value(hex_length(n)) == n,
        forall|i: int| 0 <= i < hex_length(n).len() ==> #[trigger] hex_length(n)[i] != 13,
    decreases n,
{
    reveal_with_fuel(hex_value, 2);
    let s = hex_length(n);
    if n < 16 {
        assert(s.drop_last() =~= Seq::<u8>::empty());
    } else {
        hex_length_reads_back(n / 16);
        assert(s.drop_last() =~= hex_length(n / 16));
    }
}

/// A chunk tells its reader where it ends: the line before the payload names
/// the payload's length, and only the empty payload has length zero.
pub proof fn chunk_is_self_delimiting(data: Seq<u8>)
    ensures
        ({
            let line = if data.len() == 0 {
                seq![48u8]
            } else {
                hex_length(data.len())
            };
            let k = line.len() as int;
            &&& chunk(data).len() == k + 4 + data.len()
            &&& chunk(data).take(k) == line
            &&& hex_value(line) == data.len()
            &&& forall|i: int| 0 <= i < k ==> #[trigger] line[i] != 13
            &&& chunk(data).subrange(k + 2, k + 2 + data.len()) == data
        }),
{
    reveal_with_fuel(hex_value, 2);
    if data.len() == 0 {
        let line = seq![48u8];
        assert(line.drop_last() =~= Seq::<u8>::empty());
        assert(chunk(data).take(1) =~= line);
        assert(chunk(data).subrange(3, 3) =~= data);
    } else {
        hex_length_reads_back(data.len());
        let line = hex_length(data.len());
        let k = line.len() as int;
        assert(chunk(data).take(k) =~= line);
        assert(chunk(data).subrange(k + 2, k + 2 + data.len()) =~= data);
    }
}

/// A chunk's line is in digits and capitals and ends where the payload begins;
/// behind the payload the line ends again.
pub proof fn chunk_lines_end(data: Seq<u8>)
    ensures
        ({
            let c = chunk(data);
            let n = c.len() as int;
            let k = n - data.len() - 4;
            &&& k > 0
            &&& forall|i: int|
                0 <= i < k ==> 48 <= #[trigger] c[i] <= 57 || 65 <= c[i] <= 70
            &&& c[k] == 13 && c[k + 1] == 10
            &&& c.subrange(k + 2, n - 2) == data
            &&& c[n - 2] == 13 && c[n - 1] == 10
            &&& data.len() > 0 ==> c[0] != 48
        }),
{
    let c = chunk(data);
    if data.len() > 0 {
        hex_digits_only(data.len());
        let h = hex_length(data.len());
        let k = h.len() as int;
        assert forall|i: int| 0 <= i < k implies 48 <= #[trigger] c[i] <= 57 || 65 <= c[i] <= 70 by {
            assert(c[i] == h[i]);
        }
        assert(c[0] == h[0]);
        assert(c.subrange(k + 2, c.len() - 2) =~= data);
    } else {
        assert(c.subrange(3, 3) =~= data);
    }
}

proof fn hex_digits_only(n: nat)
    ensures
        hex_length(n).len() > 0,
        forall|i: int|
            0 <= i < hex_length(n).len() ==> 48 <= #[trigger] hex_length(n)[i] <= 57 || 65
                <= hex_length(n)[i] <= 70,
        n > 0 ==> hex_length(n)[0] != 48,
    decreases n,
{
    if n >= 16 {
        hex_digits_only(n / 16);
    }
}

/// A stream is chunked, and nothing on its way may keep, buffer or change it.
pub proof fn streams_pass_untouched()
    ensures
        header_lookup(stream_headers(), "Transfer-Encoding"@) == Some("chunked"@),
        header_lookup(stream_headers(), "X-Accel-Buffering"@) == Some("no"@),
        header_lookup(stream_headers(), "CDN-Cache-Control"@) == Some("no-store"@),
        header_lookup(stream_headers(), "Cache-Control"@) == Some(
            "no-store, no-cache, no-transform, must-revalidate"@,
        ),
        stream_headers().len() == 4,
{
    reveal_strlit("Transfer-Encoding");
    reveal_strlit("X-Accel-Buffering");
    reveal_strlit("CDN-Cache-Control");
    reveal_strlit("Cache-Control");
    assert("Transfer-Encoding"@[0] == 'T' && "X-Accel-Buffering"@[0] == 'X'
        && "CDN-Cache-Control"@[1] == 'D' && "CDN-Cache-Control"@[0] == 'C' && "Cache-Control"@[1]
        == 'a' && "Cache-Control"@[0] == 'C');
    reveal_with_fuel(header_lookup, 5);
    let h = stream_headers();
    assert(h.drop_first()[0] == h[1]);
    assert(h.drop_first().drop_first()[0] == h[2]);
    assert(h.drop_first().drop_first().drop_first()[0] == h[3]);
}

/// A header is found by its name, the first of that name.
pub proof fn header_is_found_by_name(h: Seq<(Seq<char>, Seq<char>)>, name: Seq<char>, i: int)
    requires
        0 <= i < h.len(),
        h[i].0 == name,
        forall|j: int| 0 <= j < i ==> (#[trigger] h[j]).0 != name,
    ensures
        header_lookup(h, name) == Some(h[i].1),
    decreases h.len(),
{
    if i > 0 {
        let d = h.drop_first();
        assert(d[i - 1] == h[i]);
        assert forall|j: int| 0 <= j < i - 1 implies (#[trigger] d[j]).0 != name by {
            assert(d[j] == h[j + 1]);
        }
        header_is_found_by_name(d, name, i - 1);
    }
}

} // verus!
