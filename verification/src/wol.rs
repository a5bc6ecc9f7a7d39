//! Wake-on-LAN magic packets.

use crate::otp::hex_worth;
use crate::text::{chars_of, starts_with, texts};
use vstd::prelude::*;

verus! {

pub open spec fn is_hex(c: char) -> bool {
    '0' <= c <= '9' || 'a' <= c <= 'f' || 'A' <= c <= 'F'
}

pub open spec fn hex_of(c: char) -> int {
    if '0' <= c <= '9' {
        c as int - 48
    } else if 'a' <= c <= 'f' {
        c as int - 87
    } else {
        c as int - 55
    }
}

/// The hexadecimal digits of a text, everything else left out.
pub open spec fn hex_digits(s: Seq<char>) -> Seq<char> {
    s.filter(|c: char| is_hex(c))
}

/// The byte that the digits at `2 * i` stand for.
pub open spec fn hex_byte(h: Seq<char>, i: int) -> int {
    hex_of(h[2 * i]) * 16 + hex_of(h[2 * i + 1])
}

/// The address that twelve digits stand for, unless it is all zeros.
pub open spec fn mac_of(s: Seq<char>) -> Option<Seq<u8>> {
    let h = hex_digits(s);
    let mac = Seq::new(6, |i: int| hex_byte(h, i) as u8);
    if h.len() == 12 && exists|i: int| 0 <= i < 6 && #[trigger] mac[i] != 0 {
        Some(mac)
    } else {
        None
    }
}

pub(crate) fn hex_digit(c: char) -> (r: Option<u8>)
    ensures
        match r {
            Some(d) => is_hex(c) && d == hex_of(c) && d < 16,
            None => !is_hex(c),
        },
{
    if '0' <= c && c <= '9' {
        Some((c as u8) - 48)
    } else if 'a' <= c && c <= 'f' {
        Some((c as u8) - 87)
    } else if 'A' <= c && c <= 'F' {
        Some((c as u8) - 55)
    } else {
        None
    }
}

pub fn parse_mac(raw: &str) -> (r: Result<[u8; 6], &'static str>)
    ensures
        match r {
            Ok(mac) => mac_of(raw@) == Some(mac@),
            Err(e) => mac_of(raw@) is None && e@ == "MAC must be 6 bytes"@,
        },
{
    let v = chars_of(raw);
    let mut d: Vec<u8> = Vec::new();
    let ghost pred = |c: char| is_hex(c);
    let mut i: usize = 0;
    while i < v.len()
        invariant
            i <= v@.len(),
            v@ == raw@,
            pred == (|c: char| is_hex(c)),
            d@.len() == v@.take(i as int).filter(pred).len(),
            forall|k: int|
                0 <= k < d@.len() ==> #[trigger] d@[k] == hex_of(v@.take(i as int).filter(pred)[k])
                    && d@[k] < 16,
        decreases v@.len() - i,
    {
        proof {
            assert(v@.take(i + 1) =~= v@.take(i as int).push(v@[i as int]));
            v@.take(i as int).lemma_filter_push(v@[i as int], pred);
        }
        match hex_digit(v[i]) {
            Some(x) => {
                d.push(x);
            },
            None => {},
        }
        i += 1;
    }
    assert(v@.take(v@.len() as int) =~= v@);
    let ghost h = hex_digits(raw@);
    assert(h == v@.filter(pred));
    if d.len() != 12 {
        return Err("MAC must be 6 bytes");
    }
    let mac: [u8; 6] = [
        d[0] * 16 + d[1],
        d[2] * 16 + d[3],
        d[4] * 16 + d[5],
        d[6] * 16 + d[7],
        d[8] * 16 + d[9],
        d[10] * 16 + d[11],
    ];
    let ghost want = Seq::new(6, |i: int| hex_byte(h, i) as u8);
    proof {
        assert(d@[0] == hex_of(h[0]) && d@[1] == hex_of(h[1]) && d@[2] == hex_of(h[2]) && d@[3]
            == hex_of(h[3]) && d@[4] == hex_of(h[4]) && d@[5] == hex_of(h[5]));
        assert(d@[6] == hex_of(h[6]) && d@[7] == hex_of(h[7]) && d@[8] == hex_of(h[8]) && d@[9]
            == hex_of(h[9]) && d@[10] == hex_of(h[10]) && d@[11] == hex_of(h[11]));
        assert(mac@ =~= want);
    }
    if mac[0] == 0 && mac[1] == 0 && mac[2] == 0 && mac[3] == 0 && mac[4] == 0 && mac[5] == 0 {
        assert forall|i: int| 0 <= i < 6 implies #[trigger] want[i] == 0 by {
            assert(want[i] == mac@[i]);
        }
        return Err("MAC must be 6 bytes");
    }
    proof {
        assert(want[0] != 0 || want[1] != 0 || want[2] != 0 || want[3] != 0 || want[4] != 0
            || want[5] != 0);
    }
    Ok(mac)
}

pub open spec fn small_hex(d: int) -> char {
    if d < 10 {
        (48 + d) as char
    } else {
        (87 + d) as char
    }
}

/// Two small hexadecimal digits.
pub open spec fn byte_text(b: u8) -> Seq<char> {
    seq![small_hex(b as int / 16), small_hex(b as int % 16)]
}

/// Bytes as pairs of digits with a colon between them.
pub open spec fn mac_text(mac: Seq<u8>) -> Seq<char>
    decreases mac.len(),
{
    if mac.len() == 0 {
        Seq::empty()
    } else if mac.len() == 1 {
        byte_text(mac[0])
    } else {
        mac_text(mac.drop_last()).push(':') + byte_text(mac.last())
    }
}

pub fn small_digit(d: u8) -> (c: char)
    requires
        d < 16,
    ensures
        c == small_hex(d as int),
{
    if d < 10 {
        (48 + d) as char
    } else {
        (87 + d) as char
    }
}

pub fn format_mac(mac: &[u8; 6]) -> (s: String)
    ensures
        s@ == mac_text(mac@),
{
    let mut s = String::new();
    let mut i: usize = 0;
    while i < 6
        invariant
            i <= 6,
            s@ == mac_text(mac@.take(i as int)),
        decreases 6 - i,
    {
        proof {
            let t = mac@.take(i + 1);
            assert(t.drop_last() =~= mac@.take(i as int));
            assert(t.last() == mac@[i as int]);
        }
        if i > 0 {
            s.push(':');
        }
        let b: u8 = mac[i];
        s.push(small_digit(b / 16));
        s.push(small_digit(b % 16));
        assert(s@ =~= mac_text(mac@.take(i + 1)));
        i += 1;
    }
    assert(mac@.take(6) =~= mac@);
    s
}

proof fn byte_text_digits(b: u8)
    ensures
        is_hex(byte_text(b)[0]),
        is_hex(byte_text(b)[1]),
        hex_of(byte_text(b)[0]) * 16 + hex_of(byte_text(b)[1]) == b,
{
}

proof fn mac_text_digits(mac: Seq<u8>)
    ensures
        hex_digits(mac_text(mac)).len() == 2 * mac.len(),
        forall|i: int| 0 <= i < mac.len() ==> #[trigger] hex_byte(hex_digits(mac_text(mac)), i) == mac[i],
    decreases mac.len(),
{
    let pred = |c: char| is_hex(c);
    reveal(Seq::filter);
    if mac.len() > 0 {
        let b = mac.last();
        let before = if mac.len() == 1 {
            Seq::empty()
        } else {
            mac_text(mac.drop_last()).push(':')
        };
        byte_text_digits(b);
        mac_text_digits(mac.drop_last());
        mac_text(mac.drop_last()).lemma_filter_push(':', pred);
        let d0 = byte_text(b)[0];
        let d1 = byte_text(b)[1];
        before.lemma_filter_push(d0, pred);
        before.push(d0).lemma_filter_push(d1, pred);
        if mac.len() == 1 {
            assert(mac.drop_last() =~= Seq::<u8>::empty());
        }
        assert(mac_text(mac) =~= before.push(d0).push(d1));
        let h = hex_digits(mac_text(mac));
        let g = hex_digits(mac_text(mac.drop_last()));
        assert(h =~= g.push(d0).push(d1));
        assert forall|i: int| 0 <= i < mac.len() implies #[trigger] hex_byte(h, i) == mac[i] by {
            if i < mac.len() - 1 {
                assert(hex_byte(g, i) == mac.drop_last()[i]);
            }
        }
    }
}

/// Reading a written address gives the address back, unless it is all zeros,
/// which no reader accepts.
pub proof fn mac_reads_back(mac: Seq<u8>)
    requires
        mac.len() == 6,
    ensures
        mac_of(mac_text(mac)) == if exists|i: int| 0 <= i < 6 && #[trigger] mac[i] != 0 {
            Some(mac)
        } else {
            None
        },
{
    mac_text_digits(mac);
    let h = hex_digits(mac_text(mac));
    let got = Seq::new(6, |i: int| hex_byte(h, i) as u8);
    assert forall|i: int| 0 <= i < 6 implies got[i] == mac[i] by {
        assert(hex_byte(h, i) == mac[i]);
    }
    assert(got =~= mac);
}

/// Six bytes of ones, then the address sixteen times.
pub open spec fn packet(mac: Seq<u8>) -> Seq<u8> {
    Seq::new(
        102,
        |i: int|
            if i < 6 {
                0xffu8
            } else {
                mac[i % 6]
            },
    )
}

pub fn magic_packet(mac: [u8; 6]) -> (pkt: [u8; 102])
    ensures
        pkt@ == packet(mac@),
{
    let mut pkt: [u8; 102] = [0xffu8;102];
    let mut i: usize = 6;
    while i < 102
        invariant
            6 <= i <= 102,
            forall|k: int| 0 <= k < i ==> #[trigger] pkt@[k] == packet(mac@)[k],
        decreases 102 - i,
    {
        pkt[i] = mac[i % 6];
        i += 1;
    }
    assert(pkt@ =~= packet(mac@));
    pkt
}

/// Interfaces whose address can wake the host.
pub open spec fn wakes(name: Seq<char>) -> bool {
    crate::text::begins(name, "en"@) || crate::text::begins(name, "eth"@) || crate::text::begins(
        name,
        "wlan"@,
    )
}

pub fn keep_iface(name: &str) -> (r: bool)
    ensures
        r == wakes(name@),
{
    starts_with(name, "en") || starts_with(name, "eth") || starts_with(name, "wlan")
}

pub const IFF_UP: u32 = 0x1;

pub const IFF_LOOPBACK: u32 = 0x8;

pub const AF_LINK: u8 = 18;

/// What the interface list of the host says of one link.
pub struct Link {
    pub name: String,
    pub flags: u32,
    pub family: u8,
    /// How many bytes of `data` the name takes.
    pub nlen: u8,
    /// How many bytes of `data` behind the name the address takes.
    pub alen: u8,
    pub data: Vec<u8>,
}

/// A link that is up, no loopback, of a kind that wakes, with six bytes of
/// address that are not all zeros.
pub open spec fn link_mac(l: Link) -> Option<Seq<u8>> {
    let a = l.data@.subrange(l.nlen as int, l.nlen + 6);
    if l.flags & IFF_UP != 0 && l.flags & IFF_LOOPBACK == 0 && wakes(l.name@) && l.family == AF_LINK
        && l.alen == 6 && l.nlen + 6 <= l.data@.len() && exists|i: int|
        0 <= i < 6 && #[trigger] a[i] != 0 {
        Some(a)
    } else {
        None
    }
}

/// The addresses of the links, each once, in the order of the list.
pub open spec fn macs_of(links: Seq<Link>) -> Seq<Seq<char>>
    decreases links.len(),
{
    if links.len() == 0 {
        Seq::empty()
    } else {
        let before = macs_of(links.drop_last());
        match link_mac(links.last()) {
            Some(a) => if before.contains(mac_text(a)) {
                before
            } else {
                before.push(mac_text(a))
            },
            None => before,
        }
    }
}

fn address_of(l: &Link) -> (r: Option<[u8; 6]>)
    ensures
        match r {
            Some(a) => link_mac(*l) == Some(a@),
            None => link_mac(*l) is None,
        },
{
    if l.flags & IFF_UP != 0 && l.flags & IFF_LOOPBACK == 0 && keep_iface(l.name.as_str())
        && l.family == AF_LINK && l.alen == 6 {
        let off: usize = l.nlen as usize;
        if off + 6 <= l.data.len() {
            let a: [u8; 6] = [
                l.data[off],
                l.data[off + 1],
                l.data[off + 2],
                l.data[off + 3],
                l.data[off + 4],
                l.data[off + 5],
            ];
            let ghost want = l.data@.subrange(l.nlen as int, l.nlen + 6);
            assert(a@ =~= want);
            if a[0] == 0 && a[1] == 0 && a[2] == 0 && a[3] == 0 && a[4] == 0 && a[5] == 0 {
                assert forall|i: int| 0 <= i < 6 implies #[trigger] want[i] == 0 by {
                    assert(want[i] == a@[i]);
                }
                return None;
            }
            assert(want[0] != 0 || want[1] != 0 || want[2] != 0 || want[3] != 0 || want[4] != 0
                || want[5] != 0);
            return Some(a);
        }
    }
    None
}

/// The hardware addresses by which this host can be woken.
pub fn list_macs(links: &Vec<Link>) -> (out: Vec<String>)
    ensures
        texts(out@) == macs_of(links@),
{
    let mut out: Vec<String> = Vec::new();
    assert(texts(out@) =~= Seq::<Seq<char>>::empty());
    let mut i: usize = 0;
    while i < links.len()
        invariant
            i <= links@.len(),
            texts(out@) == macs_of(links@.take(i as int)),
        decreases links@.len() - i,
    {
        proof {
            assert(links@.take(i + 1).drop_last() =~= links@.take(i as int));
        }
        if let Some(a) = address_of(&links[i]) {
            let s = format_mac(&a);
            if !crate::text::list_has(&out, s.as_str()) {
                let ghost before = texts(out@);
                out.push(s);
                assert(texts(out@) =~= before.push(s@));
            }
        }
        i += 1;
    }
    assert(links@.take(links@.len() as int) =~= links@);
    out
}

/// The packet is six bytes of ones and the address sixteen times.
pub proof fn packet_repeats_the_address(mac: Seq<u8>, r: int)
    requires
        mac.len() == 6,
        0 <= r < 16,
    ensures
        packet(mac).len() == 102,
        packet(mac).take(6) == seq![255u8, 255, 255, 255, 255, 255],
        packet(mac).subrange(6 + 6 * r, 12 + 6 * r) == mac,
{
    assert(packet(mac).take(6) =~= seq![255u8, 255, 255, 255, 255, 255]);
    let s = packet(mac).subrange(6 + 6 * r, 12 + 6 * r);
    assert forall|k: int| 0 <= k < 6 implies s[k] == mac[k] by {
        assert((6 + 6 * r + k) % 6 == k) by (nonlinear_arith)
            requires
                0 <= k < 6,
        ;
    }
    assert(s =~= mac);
}

/// An address is written as pairs of small digits, a colon between each two.
pub proof fn address_is_written_in_pairs(mac: Seq<u8>)
    requires
        mac.len() > 0,
    ensures
        mac_text(mac).len() == 3 * mac.len() - 1,
        forall|i: int|
            0 <= i < mac.len() - 1 ==> mac_text(mac)[#[trigger] (3 * i) + 2] == ':',
        forall|i: int|
            0 <= i < mac.len() ==> hex_worth(mac_text(mac)[#[trigger] (3 * i)]) * 16 + hex_worth(
                mac_text(mac)[3 * i + 1],
            ) == mac[i],
    decreases mac.len(),
{
    let s = mac_text(mac);
    let n = mac.len() as int;
    if n > 1 {
        let d = mac.drop_last();
        address_is_written_in_pairs(d);
        let t = mac_text(d);
        assert(s =~= t + seq![':'] + byte_text(mac.last()));
        assert forall|i: int| 0 <= i < n - 1 implies s[#[trigger] (3 * i) + 2] == ':' by {
            if i < n - 2 {
                assert(s[3 * i + 2] == t[3 * i + 2]);
            }
        }
        assert forall|i: int| 0 <= i < n implies hex_worth(s[#[trigger] (3 * i)]) * 16 + hex_worth(
            s[3 * i + 1],
        ) == mac[i] by {
            if i < n - 1 {
                assert(s[3 * i] == t[3 * i] && s[3 * i + 1] == t[3 * i + 1]);
                assert(d[i] == mac[i]);
            } else {
                assert(s[3 * i] == byte_text(mac.last())[0]);
                assert(s[3 * i + 1] == byte_text(mac.last())[1]);
            }
        }
    } else {
        assert(s[0] == byte_text(mac[0])[0] && s[1] == byte_text(mac[0])[1]);
        assert forall|i: int| 0 <= i < n implies hex_worth(s[#[trigger] (3 * i)]) * 16 + hex_worth(
            s[3 * i + 1],
        ) == mac[i] by {
            assert(i == 0);
        }
    }
}

/// Cables and wireless links wake; no other link does.
pub proof fn links_that_wake(rest: Seq<char>, name: Seq<char>)
    ensures
        wakes("en"@ + rest),
        wakes("eth"@ + rest),
        wakes("wlan"@ + rest),
        wakes(name) ==> name.len() >= 2 && (name[0] == 'e' && (name[1] == 'n' || name[1] == 't')
            || name[0] == 'w' && name[1] == 'l'),
{
    crate::text::joined_text_begins_and_ends("en"@, rest);
    crate::text::joined_text_begins_and_ends("eth"@, rest);
    crate::text::joined_text_begins_and_ends("wlan"@, rest);
    reveal_strlit("en");
    reveal_strlit("eth");
    reveal_strlit("wlan");
    if crate::text::begins(name, "en"@) {
        assert(name.take(2)[0] == 'e' && name.take(2)[1] == 'n');
    }
    if crate::text::begins(name, "eth"@) {
        assert(name.take(3)[0] == 'e' && name.take(3)[1] == 't');
    }
    if crate::text::begins(name, "wlan"@) {
        assert(name.take(4)[0] == 'w' && name.take(4)[1] == 'l');
    }
}

/// A link has an address to wake it by where it is up, no loopback, of a kind
/// that wakes, and has six bytes that are not all zero.
pub proof fn addresses_of_links(l: Link)
    ensures
        link_mac(l) matches Some(a) ==> a.len() == 6 && a == l.data@.subrange(
            l.nlen as int,
            l.nlen + 6,
        ) && l.flags & 1 != 0 && l.flags & 8 == 0 && l.family == 18 && l.alen == 6 && wakes(l.name@)
            && exists|i: int| 0 <= i < 6 && #[trigger] a[i] != 0,
        l.flags & 1 != 0 && l.flags & 8 == 0 && l.family == 18 && l.alen == 6 && wakes(l.name@)
            && l.nlen + 6 <= l.data@.len() && (exists|i: int|
            l.nlen <= i < l.nlen + 6 && #[trigger] l.data@[i] != 0) ==> link_mac(l) is Some,
{
    let a = l.data@.subrange(l.nlen as int, l.nlen + 6);
    if l.nlen + 6 <= l.data@.len() && exists|i: int|
        l.nlen <= i < l.nlen + 6 && #[trigger] l.data@[i] != 0 {
        let i = choose|i: int| l.nlen <= i < l.nlen + 6 && #[trigger] l.data@[i] != 0;
        assert(a[i - l.nlen] == l.data@[i]);
    }
}

/// Every address is listed once, in the order of the links.
pub proof fn addresses_are_listed_once(links: Seq<Link>, l: Link)
    ensures
        link_mac(l) matches Some(a) ==> macs_of(links.push(l)).contains(mac_text(a)),
        link_mac(l) is None ==> macs_of(links.push(l)) == macs_of(links),
        link_mac(l) matches Some(a) ==> (!macs_of(links).contains(mac_text(a)) ==> macs_of(
            links.push(l),
        ) == macs_of(links).push(mac_text(a))),
        macs_of(links).no_duplicates(),
    decreases links.len(),
{
    assert(links.push(l).drop_last() =~= links);
    if let Some(a) = link_mac(l) {
        let v = macs_of(links.push(l));
        if !macs_of(links).contains(mac_text(a)) {
            assert(v.last() == mac_text(a));
        }
    }
    if links.len() > 0 {
        addresses_are_listed_once(links.drop_last(), links.last());
        assert(links.drop_last().push(links.last()) =~= links);
    }
}

/// The digits are those of the base sixteen, small or capital, and no other
/// character is one.
pub proof fn digits_of_addresses(n: int, c: char)
    ensures
        0 <= n <= 9 ==> is_hex((48 + n) as char) && hex_of((48 + n) as char) == n,
        10 <= n <= 15 ==> is_hex((87 + n) as char) && hex_of((87 + n) as char) == n,
        10 <= n <= 15 ==> is_hex((55 + n) as char) && hex_of((55 + n) as char) == n,
        is_hex(c) ==> 0 <= hex_of(c) <= 15,
        c == ':' || c == '-' || c == '.' || c == ' ' || c == '/' || c == 'g' || c == 'G' || c == '@'
            || c == '`' ==> !is_hex(c),
        c < '0' || c > 'f' ==> !is_hex(c),
{
}

/// What stands between the digits of an address does not count, and the digits
/// count in pairs.
pub proof fn separators_do_not_count(s: Seq<char>, c: char, h: Seq<char>, i: int)
    ensures
        is_hex(c) ==> hex_digits(s.push(c)) == hex_digits(s).push(c),
        !is_hex(c) ==> hex_digits(s.push(c)) == hex_digits(s),
        hex_byte(h, i) == 16 * hex_of(h[2 * i]) + hex_of(h[2 * i + 1]),
{
    let f = |c: char| is_hex(c);
    assert(s.push(c).drop_last() =~= s);
    reveal(Seq::filter);
    assert(hex_digits(s.push(c)) == s.push(c).filter(f));
    assert(hex_digits(s) == s.filter(f));
}

/// An address is read where it has twelve digits that are not all zero.
pub proof fn addresses_have_twelve_digits(s: Seq<char>)
    ensures
        hex_digits(s).len() != 12 ==> mac_of(s) is None,
        hex_digits(s).len() == 12 && (exists|i: int|
            0 <= i < 6 && #[trigger] hex_byte(hex_digits(s), i) as u8 != 0) ==> mac_of(s) is Some,
        mac_of(s) matches Some(m) ==> m.len() == 6 && forall|i: int|
            0 <= i < 6 ==> #[trigger] m[i] == hex_byte(hex_digits(s), i) as u8,
{
    let h = hex_digits(s);
    let mac = Seq::new(6, |i: int| hex_byte(h, i) as u8);
    if exists|i: int| 0 <= i < 6 && #[trigger] hex_byte(h, i) as u8 != 0 {
        let i = choose|i: int| 0 <= i < 6 && #[trigger] hex_byte(h, i) as u8 != 0;
        assert(mac[i] != 0);
    }
}

} // verus!
