//! Byte sequences: big-endian numbers and copying.

use vstd::prelude::*;

verus! {

/// The number that big-endian bytes stand for.
pub open spec fn be_value(s: Seq<u8>) -> nat
    decreases s.len(),
{
    if s.len() == 0 {
        0
    } else {
        be_value(s.drop_last()) * 256 + s.last() as nat
    }
}

/// The `k` lowest bytes of a number, the highest first.
pub open spec fn be_bytes(n: nat, k: nat) -> Seq<u8>
    decreases k,
{
    if k == 0 {
        Seq::empty()
    } else {
        be_bytes(n / 256, (k - 1) as nat).push((n % 256) as u8)
    }
}

pub open spec fn pow256(k: nat) -> nat
    decreases k,
{
    if k == 0 {
        1
    } else {
        256 * pow256((k - 1) as nat)
    }
}

pub proof fn be_bytes_read_back(n: nat, k: nat)
    requires
        n < pow256(k),
    ensures
        be_bytes(n, k).len() == k,
        be_value(be_bytes(n, k)) == n,
    decreases k,
{
    if k > 0 {
        be_bytes_read_back(n / 256, (k - 1) as nat);
        let s = be_bytes(n, k);
        assert(s.drop_last() =~= be_bytes(n / 256, (k - 1) as nat));
        assert(s.last() as nat == n % 256);
    }
}

pub proof fn be_bytes_len(n: nat, k: nat)
    ensures
        be_bytes(n, k).len() == k,
    decreases k,
{
    if k > 0 {
        be_bytes_len(n / 256, (k - 1) as nat);
    }
}

pub proof fn be_value_bound(s: Seq<u8>)
    ensures
        be_value(s) < pow256(s.len()),
    decreases s.len(),
{
    if s.len() > 0 {
        be_value_bound(s.drop_last());
    }
}

pub proof fn pow256_small()
    ensures
        pow256(2) == 0x1_0000,
        pow256(4) == 0x1_0000_0000,
        pow256(8) == 0x1_0000_0000_0000_0000,
{
    reveal_with_fuel(pow256, 9);
}

/// Reads a big-endian number from at most eight bytes.
pub fn read_be(s: &[u8]) -> (n: u64)
    requires
        s@.len() <= 8,
    ensures
        n == be_value(s@),
{
    let mut n: u64 = 0;
    let mut i: usize = 0;
    while i < s.len()
        invariant
            i <= s@.len() <= 8,
            n == be_value(s@.take(i as int)),
        decreases s@.len() - i,
    {
        proof {
            let t = s@.take(i + 1);
            assert(t.drop_last() =~= s@.take(i as int));
            be_value_bound(s@.take(i as int));
            reveal_with_fuel(pow256, 9);
        }
        n = n * 256 + s[i] as u64;
        i += 1;
    }
    assert(s@.take(s@.len() as int) =~= s@);
    n
}

/// Appends bytes at the end.
pub fn extend(v: &mut Vec<u8>, s: &[u8])
    ensures
        final(v)@ == old(v)@ + s@,
{
    let ghost before = v@;
    v.extend_from_slice(s);
    assert(v@ =~= before + s@);
}

pub fn copy_of(v: &Vec<u8>) -> (r: Vec<u8>)
    ensures
        r@ == v@,
{
    vstd::slice::slice_to_vec(v.as_slice())
}

pub fn push_be(v: &mut Vec<u8>, n: u64, k: usize)
    requires
        k <= 8,
    ensures
        final(v)@ == old(v)@ + be_bytes(n as nat, k as nat),
    decreases k,
{
    if k > 0 {
        push_be(v, n / 256, k - 1);
        v.push((n % 256) as u8);
    }
    assert(v@ =~= old(v)@ + be_bytes(n as nat, k as nat));
}

/// The highest byte comes first: two, four and eight bytes as they stand.
pub proof fn high_byte_first(n: nat)
    ensures
        be_bytes(n, 2) == seq![(n / 0x100 % 0x100) as u8, (n % 0x100) as u8],
        be_bytes(n, 4) == seq![
            (n / 0x100_0000 % 0x100) as u8,
            (n / 0x1_0000 % 0x100) as u8,
            (n / 0x100 % 0x100) as u8,
            (n % 0x100) as u8,
        ],
{
    reveal_with_fuel(be_bytes, 5);
    assert(n / 256 / 256 == n / 0x1_0000);
    assert(n / 0x1_0000 / 256 == n / 0x100_0000);
    assert(be_bytes(n, 2) =~= seq![(n / 0x100 % 0x100) as u8, (n % 0x100) as u8]);
    assert(be_bytes(n, 4) =~= seq![
        (n / 0x100_0000 % 0x100) as u8,
        (n / 0x1_0000 % 0x100) as u8,
        (n / 0x100 % 0x100) as u8,
        (n % 0x100) as u8,
    ]);
}

/// A byte put in front counts for as many places as there are bytes behind it.
pub proof fn front_byte_counts_most(a: u8, s: Seq<u8>)
    ensures
        be_value(seq![a] + s) == a as nat * pow256(s.len()) + be_value(s),
    decreases s.len(),
{
    let all = seq![a] + s;
    if s.len() == 0 {
        assert(all.drop_last() =~= Seq::<u8>::empty());
        assert(be_value(all.drop_last()) == 0);
        assert(a as nat * 1 == a as nat);
    } else {
        front_byte_counts_most(a, s.drop_last());
        assert(all.drop_last() =~= seq![a] + s.drop_last());
        let p = pow256((s.len() - 1) as nat);
        assert((a as nat * p + be_value(s.drop_last())) * 256 == a as nat * (256 * p) + be_value(
            s.drop_last(),
        ) * 256) by (nonlinear_arith);
    }
}

} // verus!
