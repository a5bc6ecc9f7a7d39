//! Binary media envelope: first byte is the unit type.

use crate::octets::extend;
use vstd::prelude::*;

verus! {

pub const TYPE_INIT: u8 = 1;

pub const TYPE_FRAG: u8 = 2;

pub const TYPE_JPEG: u8 = 3;

/// Analysis snapshot for the Worker LLM. Viewers must ignore this type.
pub const TYPE_SNAP: u8 = 4;

/// The envelope of a unit: its type, then its payload.
pub open spec fn envelope(kind: u8, payload: Seq<u8>) -> Seq<u8> {
    seq![kind] + payload
}

pub fn pack_media(kind: u8, payload: &[u8]) -> (out: Vec<u8>)
    ensures
        out@ == envelope(kind, payload@),
{
    let mut out: Vec<u8> = Vec::new();
    out.push(kind);
    extend(&mut out, payload);
    assert(out@ =~= envelope(kind, payload@));
    out
}

pub fn unpack_media(data: &[u8]) -> (r: Result<(u8, &[u8]), &'static str>)
    ensures
        r is Err <==> data@.len() == 0,
        r matches Err(e) ==> e@ == "empty media envelope"@,
        r matches Ok(p) ==> p.0 == data@[0] && p.1@ == data@.skip(1),
{
    if data.is_empty() {
        return Err("empty media envelope");
    }
    Ok((data[0], vstd::slice::slice_subrange(data, 1, data.len())))
}

/// What was packed comes out again: the type and the payload.
pub proof fn unpack_undoes_pack(kind: u8, payload: Seq<u8>)
    ensures
        envelope(kind, payload).len() > 0,
        envelope(kind, payload)[0] == kind,
        envelope(kind, payload).skip(1) == payload,
{
    assert(envelope(kind, payload).skip(1) =~= payload);
}

/// The first byte tells what a unit is.
pub proof fn first_byte_tells_the_kind(payload: Seq<u8>)
    ensures
        envelope(TYPE_INIT, payload)[0] == 1,
        envelope(TYPE_FRAG, payload)[0] == 2,
        envelope(TYPE_JPEG, payload)[0] == 3,
        envelope(TYPE_SNAP, payload)[0] == 4,
{
}

} // verus!
