//! RFC 6455 accept-key and binary frame codec (used by `/stream.ws`).

use crate::b64::{base64_of, encode_b64};
use crate::entropy::random_bytes;
use crate::octets::{be_bytes, be_value, extend, push_be, read_be};
use sha1::Digest;
use vstd::prelude::*;
use vstd::slice::{slice_subrange, slice_to_vec};
use vstd::utf8::encode_utf8;

verus! {

pub const WS_MAGIC: &'static str = "258EAFA5-E914-47DA-95CA-C5AB0DC85B11";

pub const OP_CONT: u8 = 0;

pub const OP_TEXT: u8 = 1;

pub const OP_BIN: u8 = 2;

pub const OP_CLOSE: u8 = 8;

pub const OP_PING: u8 = 9;

pub const OP_PONG: u8 = 10;

/// The SHA-1 digest of the bytes.
pub uninterp spec fn sha1_of(data: Seq<u8>) -> Seq<u8>;

/// `sha1::Sha1::digest`: the twenty bytes of the SHA-1 digest of `data`. What
/// the digest of given bytes is, is left to the name.
#[verifier::external_body]
fn sha1_digest(data: &[u8]) -> (d: Vec<u8>)
    ensures
        d@ == sha1_of(data@),
        d@.len() == 20,
{
    sha1::Sha1::digest(data).to_vec()
}

/// What the client must be answered: the digest of its key with the magic
/// text behind it, in base64.
pub open spec fn accept_text(key: Seq<char>) -> Seq<char> {
    base64_of(sha1_of(encode_utf8(key) + encode_utf8(WS_MAGIC@)))
}

pub fn accept_key(key: &str) -> (s: String)
    ensures
        s@ == accept_text(key@),
{
    let mut data: Vec<u8> = slice_to_vec(key.as_bytes());
    extend(&mut data, WS_MAGIC.as_bytes());
    encode_b64(sha1_digest(data.as_slice()).as_slice())
}

/// The length field: seven bits, or a mark and sixteen or sixty-four bits.
/// `flag` is the mask bit.
pub open spec fn length_field(n: nat, flag: u8) -> Seq<u8> {
    if n < 126 {
        seq![(flag + n) as u8]
    } else if n < 65536 {
        seq![(flag + 126) as u8] + be_bytes(n, 2)
    } else {
        seq![(flag + 127) as u8] + be_bytes(n, 8)
    }
}

/// The payload with the key laid over it, byte by byte.
pub open spec fn masked_with(payload: Seq<u8>, key: Seq<u8>) -> Seq<u8> {
    Seq::new(payload.len(), |i: int| payload[i] ^ key[i % 4])
}

/// A single final frame. `key` is the mask, if the frame is masked.
pub open spec fn frame_bytes(payload: Seq<u8>, opcode: u8, key: Option<Seq<u8>>) -> Seq<u8> {
    let first = seq![(0x80 + opcode % 16) as u8];
    match key {
        None => first + length_field(payload.len(), 0) + payload,
        Some(k) => first + length_field(payload.len(), 0x80) + k + masked_with(payload, k),
    }
}

fn mask(payload: &[u8], key: &[u8]) -> (out: Vec<u8>)
    requires
        key@.len() == 4,
    ensures
        out@ == masked_with(payload@, key@),
{
    let mut out: Vec<u8> = Vec::with_capacity(payload.len());
    let mut i: usize = 0;
    while i < payload.len()
        invariant
            i <= payload@.len(),
            key@.len() == 4,
            out@ == masked_with(payload@, key@).take(i as int),
        decreases payload@.len() - i,
    {
        out.push(payload[i] ^ key[i % 4]);
        proof {
            let m = masked_with(payload@, key@);
            assert(m.take(i + 1) =~= m.take(i as int).push(m[i as int]));
        }
        i += 1;
    }
    assert(masked_with(payload@, key@).take(payload@.len() as int) =~= masked_with(
        payload@,
        key@,
    ));
    out
}

/// The frame of a payload under a given mask key.
pub fn encode_frame_with(payload: &[u8], opcode: u8, key: Option<[u8; 4]>) -> (out: Vec<u8>)
    ensures
        out@ == frame_bytes(
            payload@,
            opcode,
            match key {
                Some(k) => Some(k@),
                None => None,
            },
        ),
{
    let mut out: Vec<u8> = Vec::with_capacity(16);
    out.push(0x80 + opcode % 16);
    let n: usize = payload.len();
    let flag: u8 = if key.is_some() {
        0x80
    } else {
        0
    };
    if n < 126 {
        out.push(flag + n as u8);
    } else if n < 65536 {
        out.push(flag + 126);
        push_be(&mut out, n as u64, 2);
    } else {
        out.push(flag + 127);
        push_be(&mut out, n as u64, 8);
    }
    let ghost head = seq![(0x80 + opcode % 16) as u8] + length_field(payload@.len(), flag);
    assert(out@ =~= head);
    match key {
        Some(k) => {
            extend(&mut out, &k);
            let data = mask(payload, &k);
            extend(&mut out, data.as_slice());
            assert(out@ =~= frame_bytes(payload@, opcode, Some(k@)));
        },
        None => {
            extend(&mut out, payload);
            assert(out@ =~= frame_bytes(payload@, opcode, None));
        },
    }
    out
}

/// A masked frame takes a fresh random key.
pub fn encode_frame(payload: &[u8], opcode: u8, masked: bool) -> (out: Vec<u8>)
    ensures
        !masked ==> out@ == frame_bytes(payload@, opcode, None),
        masked ==> exists|k: Seq<u8>|
            k.len() == 4 && out@ == #[trigger] frame_bytes(payload@, opcode, Some(k)),
{
    if masked {
        let b = random_bytes(4);
        let key: [u8; 4] = [b[0], b[1], b[2], b[3]];
        assert(key@.len() == 4);
        encode_frame_with(payload, opcode, Some(key))
    } else {
        encode_frame_with(payload, opcode, None)
    }
}

/// What the first bytes of a frame say: where the payload begins (after the
/// mask, if there is one) and how long it is. `None` while they are not all
/// there.
pub open spec fn frame_head(s: Seq<u8>) -> Option<(int, int)> {
    if s.len() < 2 {
        None
    } else {
        let short = s[1] as int % 128;
        let mask_len = if s[1] >= 0x80 {
            4int
        } else {
            0
        };
        let field = if short == 126 {
            2int
        } else if short == 127 {
            8
        } else {
            0
        };
        if s.len() < 2 + field + mask_len {
            None
        } else if field == 0 {
            Some((2 + mask_len, short))
        } else {
            Some((2 + field + mask_len, be_value(s.subrange(2, 2 + field)) as int))
        }
    }
}

/// Opcode, payload and length of the frame at the start of the bytes, once it
/// is complete.
pub open spec fn frame_parts(s: Seq<u8>) -> Option<(u8, Seq<u8>, int)> {
    match frame_head(s) {
        Some((i, n)) if i + n <= s.len() => {
            let body = s.subrange(i, i + n);
            Some(
                (
                    (s[0] % 16) as u8,
                    if s[1] >= 0x80 {
                        masked_with(body, s.subrange(i - 4, i))
                    } else {
                        body
                    },
                    i + n,
                ),
            )
        },
        _ => None,
    }
}

/// Returns `(opcode, payload, consumed)`. `opcode` is `None` if incomplete.
pub fn decode_frame(buf: &[u8]) -> (r: (Option<u8>, Vec<u8>, usize))
    ensures
        match frame_parts(buf@) {
            Some((op, payload, n)) => r.0 == Some(op) && r.1@ == payload && r.2 == n,
            None => r.0 is None && r.1@.len() == 0 && r.2 == 0,
        },
{
    if buf.len() < 2 {
        return (None, Vec::new(), 0);
    }
    let opcode: u8 = buf[0] % 16;
    let masked = buf[1] >= 0x80;
    let short: u8 = buf[1] % 128;
    let mut len: u64 = short as u64;
    let mut i: usize = 2;
    if short == 126 {
        if buf.len() < 4 {
            return (None, Vec::new(), 0);
        }
        len = read_be(slice_subrange(buf, 2, 4));
        i = 4;
    } else if short == 127 {
        if buf.len() < 10 {
            return (None, Vec::new(), 0);
        }
        len = read_be(slice_subrange(buf, 2, 10));
        i = 10;
    }
    if masked {
        if buf.len() < i + 4 {
            return (None, Vec::new(), 0);
        }
        i += 4;
    }
    assert(frame_head(buf@) == Some((i as int, len as int)));
    if len > (buf.len() - i) as u64 {
        return (None, Vec::new(), 0);
    }
    let n: usize = len as usize;
    let body = slice_subrange(buf, i, i + n);
    let payload: Vec<u8> = if masked {
        mask(body, slice_subrange(buf, i - 4, i))
    } else {
        slice_to_vec(body)
    };
    (Some(opcode), payload, i + n)
}

proof fn mask_twice(payload: Seq<u8>, key: Seq<u8>)
    requires
        key.len() == 4,
    ensures
        masked_with(masked_with(payload, key), key) == payload,
{
    assert forall|i: int| 0 <= i < payload.len() implies masked_with(
        masked_with(payload, key),
        key,
    )[i] == payload[i] by {
        let a = payload[i];
        let b = key[i % 4];
        assert((a ^ b) ^ b == a) by (bit_vector);
    }
    assert(masked_with(masked_with(payload, key), key) =~= payload);
}

/// What was framed is read back, masked or not: the opcode's low four bits,
/// the payload, and the whole frame as consumed, whatever bytes follow.
pub proof fn decode_undoes_encode(payload: Seq<u8>, opcode: u8, key: Option<Seq<u8>>, tail: Seq<u8>)
    requires
        payload.len() <= usize::MAX,
        key matches Some(k) ==> k.len() == 4,
    ensures
        frame_parts(frame_bytes(payload, opcode, key) + tail) == Some(
            ((opcode % 16) as u8, payload, frame_bytes(payload, opcode, key).len() as int),
        ),
{
    let wire = frame_bytes(payload, opcode, key);
    let s = wire + tail;
    let flag: u8 = if key is Some {
        0x80
    } else {
        0
    };
    let n = payload.len();
    let lf = length_field(n, flag);
    crate::octets::pow256_small();
    if n >= 126 {
        if n < 65536 {
            crate::octets::be_bytes_read_back(n, 2);
            assert(s.subrange(2, 4) =~= be_bytes(n, 2));
        } else {
            crate::octets::be_bytes_read_back(n, 8);
            assert(s.subrange(2, 10) =~= be_bytes(n, 8));
        }
    }
    assert(s[1] == lf[0]);
    let i = 1 + lf.len() + if key is Some {
        4int
    } else {
        0
    };
    assert(frame_head(s) == Some((i, n as int)));
    assert(s[0] % 16 == opcode % 16);
    match key {
        Some(k) => {
            mask_twice(payload, k);
            assert(s.subrange(i - 4, i) =~= k);
            assert(s.subrange(i, i + n) =~= masked_with(payload, k));
        },
        None => {
            assert(s.subrange(i, i + n) =~= payload);
        },
    }
}

/// No part of a frame short of the whole is taken for a frame.
pub proof fn cut_frame_is_incomplete(payload: Seq<u8>, opcode: u8, key: Option<Seq<u8>>, m: int)
    requires
        payload.len() <= usize::MAX,
        key matches Some(k) ==> k.len() == 4,
        0 <= m < frame_bytes(payload, opcode, key).len(),
    ensures
        frame_parts(frame_bytes(payload, opcode, key).take(m)) is None,
{
    let wire = frame_bytes(payload, opcode, key);
    let p = wire.take(m);
    decode_undoes_encode(payload, opcode, key, Seq::empty());
    assert(wire + Seq::<u8>::empty() =~= wire);
    if frame_head(p) is Some {
        let field = if p[1] % 128 == 126 {
            2int
        } else if p[1] % 128 == 127 {
            8
        } else {
            0
        };
        assert(p.subrange(2, 2 + field) =~= wire.subrange(2, 2 + field));
        assert(frame_head(p) == frame_head(wire));
    }
}

/// A frame as it goes over the wire: whole messages only, the length in the
/// shortest of the three forms, high byte first, and then the payload, hidden
/// behind the key where there is one.
pub proof fn frames_are_laid_out(payload: Seq<u8>, op: u8, key: Seq<u8>)
    requires
        op < 16,
        key.len() == 4,
        payload.len() <= usize::MAX,
    ensures
        ({
            let n = payload.len();
            let f = frame_bytes(payload, op, None);
            let g = frame_bytes(payload, op, Some(key));
            let h: int = if n < 126 {
                2
            } else if n < 65536 {
                4
            } else {
                10
            };
            &&& f[0] == 128 + op && g[0] == f[0]
            &&& n < 126 ==> f[1] == n
            &&& 126 <= n < 65536 ==> f[1] == 126 && f[2] as int * 256 + f[3] as int == n
            &&& n >= 65536 ==> f[1] == 127 && be_value(f.subrange(2, 10)) == n
            &&& g[1] == f[1] + 128
            &&& g.subrange(2, h) == f.subrange(2, h)
            &&& f.skip(h) == payload
            &&& g.subrange(h, h + 4) == key
            &&& g.len() == h + 4 + n
            &&& forall|i: int|
                0 <= i < n ==> #[trigger] g[h + 4 + i] == payload[i] ^ key[i % 4]
        }),
{
    let n = payload.len();
    let f = frame_bytes(payload, op, None);
    let g = frame_bytes(payload, op, Some(key));
    crate::octets::pow256_small();
    if n < 126 {
        assert(g.subrange(2, 2) =~= f.subrange(2, 2));
        assert(f.skip(2) =~= payload);
        assert(g.subrange(2, 6) =~= key);
    } else if n < 65536 {
        crate::octets::high_byte_first(n);
        assert(g.subrange(2, 4) =~= f.subrange(2, 4));
        assert(f.skip(4) =~= payload);
        assert(g.subrange(4, 8) =~= key);
    } else {
        crate::octets::be_bytes_read_back(n, 8);
        assert(f.subrange(2, 10) =~= be_bytes(n, 8));
        assert(g.subrange(2, 10) =~= f.subrange(2, 10));
        assert(f.skip(10) =~= payload);
        assert(g.subrange(10, 14) =~= key);
    }
}

/// The key that a watcher is answered with comes of its own and of the word
/// that the protocol fixes.
pub proof fn answer_key_is_the_protocols(key: Seq<char>)
    ensures
        accept_text(key) == base64_of(
            sha1_of(encode_utf8(key) + encode_utf8("258EAFA5-E914-47DA-95CA-C5AB0DC85B11"@)),
        ),
{
}

/// Hiding twice with one key shows the payload again, and a key of zeros hides
/// nothing.
pub proof fn hiding_twice_shows_again(payload: Seq<u8>, key: Seq<u8>)
    requires
        key.len() == 4,
    ensures
        masked_with(masked_with(payload, key), key) == payload,
        key == seq![0u8, 0, 0, 0] ==> masked_with(payload, key) == payload,
        masked_with(payload, key).len() == payload.len(),
{
    mask_twice(payload, key);
    if key == seq![0u8, 0, 0, 0] {
        assert forall|i: int| 0 <= i < payload.len() implies #[trigger] masked_with(payload, key)[i]
            == payload[i] by {
            let b = payload[i];
            assert(key[i % 4] == 0);
            assert(b ^ 0 == b) by (bit_vector);
        }
        assert(masked_with(payload, key) =~= payload);
    }
}

} // verus!
