//! ZIP archives: files one after the other as they are, and a list of them at
//! the end.

use crate::octets::extend;
use vstd::prelude::*;
use vstd::utf8::*;

verus! {

pub open spec fn crc_bit(c: u32) -> u32 {
    if c & 1 == 1 {
        (c >> 1) ^ 0xedb8_8320u32
    } else {
        c >> 1
    }
}

pub open spec fn crc_bits(c: u32, n: nat) -> u32
    decreases n,
{
    if n == 0 {
        c
    } else {
        crc_bit(crc_bits(c, (n - 1) as nat))
    }
}

/// The remainder that a CRC-32 holds after the bytes.
pub open spec fn crc_over(b: Seq<u8>) -> u32
    decreases b.len(),
{
    if b.len() == 0 {
        0xffff_ffff
    } else {
        crc_bits(crc_over(b.drop_last()) ^ (b.last() as u32), 8)
    }
}

/// The CRC-32 of the bytes.
pub open spec fn crc32_of(b: Seq<u8>) -> u32 {
    crc_over(b) ^ 0xffff_ffff
}

pub fn crc32(b: &[u8]) -> (c: u32)
    ensures
        c == crc32_of(b@),
{
    let mut c: u32 = 0xffff_ffff;
    let mut i: usize = 0;
    assert(b@.take(0) =~= Seq::<u8>::empty());
    while i < b.len()
        invariant
            i <= b@.len(),
            c == crc_over(b@.take(i as int)),
        decreases b@.len() - i,
    {
        assert(b@.take(i + 1).drop_last() =~= b@.take(i as int));
        assert(b@.take(i + 1).last() == b@[i as int]);
        c = c ^ (b[i] as u32);
        let ghost start = c;
        let mut k: usize = 0;
        while k < 8
            invariant
                k <= 8,
                c == crc_bits(start, k as nat),
            decreases 8 - k,
        {
            c = if c & 1 == 1 {
                (c >> 1) ^ 0xedb8_8320u32
            } else {
                c >> 1
            };
            k += 1;
        }
        i += 1;
    }
    assert(b@.take(i as int) =~= b@);
    c ^ 0xffff_ffff
}

/// A number in two bytes, the low one first.
pub open spec fn le16(n: nat) -> Seq<u8> {
    seq![(n % 256) as u8, (n / 256 % 256) as u8]
}

/// A number in four bytes, the low one first.
pub open spec fn le32(n: nat) -> Seq<u8> {
    le16(n) + le16(n / 65536)
}

fn push_le16(v: &mut Vec<u8>, n: u64)
    ensures
        final(v)@ == old(v)@ + le16(n as nat),
{
    let ghost before = v@;
    v.push((n % 256) as u8);
    v.push((n / 256 % 256) as u8);
    assert(v@ =~= before + le16(n as nat));
}

fn push_le32(v: &mut Vec<u8>, n: u64)
    ensures
        final(v)@ == old(v)@ + le32(n as nat),
{
    let ghost before = v@;
    push_le16(v, n);
    push_le16(v, n / 65536);
    assert(v@ =~= before + le32(n as nat));
}

/// What an archive says of a file in both places: version, flags, method, time
/// and date, checksum, the two sizes and the lengths of the name and of what
/// else would follow it.
#[verifier::opaque]
pub open spec fn file_fields(name: Seq<u8>, data: Seq<u8>) -> Seq<u8> {
    le16(20) + le16(0x800) + le16(0) + le16(0) + le16(0x21) + le32(crc32_of(data) as nat) + le32(
        data.len(),
    ) + le32(data.len()) + le16(name.len()) + le16(0)
}

fn push_fields(v: &mut Vec<u8>, name: &[u8], data: &[u8])
    ensures
        final(v)@ == old(v)@ + file_fields(name@, data@),
{
    let ghost before = v@;
    push_le16(v, 20);
    push_le16(v, 0x800);
    push_le16(v, 0);
    push_le16(v, 0);
    push_le16(v, 0x21);
    push_le32(v, crc32(data) as u64);
    push_le32(v, data.len() as u64);
    push_le32(v, data.len() as u64);
    push_le16(v, name.len() as u64);
    push_le16(v, 0);
    reveal(file_fields);
    assert(v@ =~= before + file_fields(name@, data@));
}

/// A file as it stands in an archive.
pub open spec fn stored(name: Seq<u8>, data: Seq<u8>) -> Seq<u8> {
    seq![0x50u8, 0x4b, 3, 4] + file_fields(name, data) + name + data
}

fn push_stored(v: &mut Vec<u8>, name: &[u8], data: &[u8])
    ensures
        final(v)@ == old(v)@ + stored(name@, data@),
{
    let ghost before = v@;
    let sign: [u8; 4] = [0x50, 0x4b, 3, 4];
    extend(v, &sign);
    push_fields(v, name, data);
    extend(v, name);
    extend(v, data);
    assert(sign@ =~= seq![0x50u8, 0x4b, 3, 4]);
    assert(v@ =~= before + stored(name@, data@));
}

/// A file in the list at the end, with where it stands.
pub open spec fn listed(name: Seq<u8>, data: Seq<u8>, at: nat) -> Seq<u8> {
    seq![0x50u8, 0x4b, 1, 2] + le16(20) + file_fields(name, data) + le16(0) + le16(0) + le16(0)
        + le32(0) + le32(at) + name
}

fn push_listed(v: &mut Vec<u8>, name: &[u8], data: &[u8], at: u64)
    ensures
        final(v)@ == old(v)@ + listed(name@, data@, at as nat),
{
    let ghost before = v@;
    let sign: [u8; 4] = [0x50, 0x4b, 1, 2];
    extend(v, &sign);
    push_le16(v, 20);
    push_fields(v, name, data);
    push_le16(v, 0);
    push_le16(v, 0);
    push_le16(v, 0);
    push_le32(v, 0);
    push_le32(v, at);
    extend(v, name);
    assert(sign@ =~= seq![0x50u8, 0x4b, 1, 2]);
    assert(v@ =~= before + listed(name@, data@, at as nat));
}

/// A file for an archive: its path there, and its bytes.
pub struct ZipFile {
    pub name: String,
    pub data: Vec<u8>,
}

pub open spec fn packed(v: Seq<ZipFile>) -> Seq<(Seq<u8>, Seq<u8>)> {
    Seq::new(v.len(), |i: int| (encode_utf8(v[i].name@), v[i].data@))
}

/// The files of an archive, one after the other.
pub open spec fn bodies(fs: Seq<(Seq<u8>, Seq<u8>)>) -> Seq<u8>
    decreases fs.len(),
{
    if fs.len() == 0 {
        Seq::empty()
    } else {
        bodies(fs.drop_last()) + stored(fs.last().0, fs.last().1)
    }
}

/// The list of the files of an archive.
pub open spec fn directory(fs: Seq<(Seq<u8>, Seq<u8>)>) -> Seq<u8>
    decreases fs.len(),
{
    if fs.len() == 0 {
        Seq::empty()
    } else {
        directory(fs.drop_last()) + listed(
            fs.last().0,
            fs.last().1,
            bodies(fs.drop_last()).len(),
        )
    }
}

/// How an archive ends: how many files there are, and where their list is.
#[verifier::opaque]
pub open spec fn closing(n: nat, size: nat, at: nat) -> Seq<u8> {
    seq![0x50u8, 0x4b, 5, 6] + le16(0) + le16(0) + le16(n) + le16(n) + le32(size) + le32(at)
        + le16(0)
}

pub open spec fn zip_of(fs: Seq<(Seq<u8>, Seq<u8>)>) -> Seq<u8> {
    bodies(fs) + directory(fs) + closing(fs.len(), directory(fs).len(), bodies(fs).len())
}

/// Whether every number in the archive fits where it is written.
pub open spec fn zip_fits(fs: Seq<(Seq<u8>, Seq<u8>)>) -> bool {
    &&& fs.len() <= 0xffff
    &&& forall|i: int| 0 <= i < fs.len() ==> (#[trigger] fs[i]).0.len() <= 0xffff
    &&& zip_of(fs).len() <= 0xffff_ffff
}

/// The archive of the files, if they fit into one.
pub fn zip_bytes(files: &Vec<ZipFile>) -> (r: Option<Vec<u8>>)
    ensures
        match r {
            Some(v) => zip_fits(packed(files@)) && v@ == zip_of(packed(files@)),
            None => !zip_fits(packed(files@)),
        },
{
    let ghost fs = packed(files@);
    let mut out: Vec<u8> = Vec::new();
    let mut list: Vec<u8> = Vec::new();
    let mut long_name = false;
    let mut i: usize = 0;
    assert(fs.take(0) =~= Seq::<(Seq<u8>, Seq<u8>)>::empty());
    while i < files.len()
        invariant
            i <= files@.len(),
            fs == packed(files@),
            out@ == bodies(fs.take(i as int)),
            list@ == directory(fs.take(i as int)),
            long_name == exists|k: int| 0 <= k < i && (#[trigger] fs[k]).0.len() > 0xffff,
        decreases files@.len() - i,
    {
        let name = files[i].name.as_str().as_bytes();
        let data = files[i].data.as_slice();
        proof {
            assert(fs[i as int] == (name@, data@));
            assert(fs.take(i + 1).drop_last() =~= fs.take(i as int));
            assert(fs.take(i + 1).last() == fs[i as int]);
        }
        if name.len() > 0xffff {
            long_name = true;
        }
        push_listed(&mut list, name, data, out.len() as u64);
        push_stored(&mut out, name, data);
        i += 1;
    }
    assert(fs.take(i as int) =~= fs);
    let at: u64 = out.len() as u64;
    let size: u64 = list.len() as u64;
    extend(&mut out, list.as_slice());
    let sign: [u8; 4] = [0x50, 0x4b, 5, 6];
    extend(&mut out, &sign);
    push_le16(&mut out, 0);
    push_le16(&mut out, 0);
    push_le16(&mut out, files.len() as u64);
    push_le16(&mut out, files.len() as u64);
    push_le32(&mut out, size);
    push_le32(&mut out, at);
    push_le16(&mut out, 0);
    reveal(closing);
    assert(sign@ =~= seq![0x50u8, 0x4b, 5, 6]);
    assert(out@ =~= zip_of(fs));
    if files.len() > 0xffff || long_name || out.len() as u64 > 0xffff_ffff {
        proof {
            if long_name {
                let k = choose|k: int| 0 <= k < fs.len() && (#[trigger] fs[k]).0.len() > 0xffff;
                assert(!(fs[k].0.len() <= 0xffff));
            }
        }
        return None;
    }
    Some(out)
}

proof fn bodies_before(fs: Seq<(Seq<u8>, Seq<u8>)>, i: int)
    requires
        0 <= i < fs.len(),
    ensures
        (bodies(fs.take(i)) + stored(fs[i].0, fs[i].1)).is_prefix_of(bodies(fs)),
    decreases fs.len(),
{
    let d = fs.drop_last();
    if i == fs.len() - 1 {
        assert(fs.take(i) =~= d);
    } else {
        bodies_before(d, i);
        assert(d.take(i) =~= fs.take(i));
        assert(d[i] == fs[i]);
        let p = bodies(fs.take(i)) + stored(fs[i].0, fs[i].1);
        assert(bodies(fs).subrange(0, p.len() as int) =~= bodies(d).subrange(0, p.len() as int));
    }
}

proof fn stored_parts(name: Seq<u8>, data: Seq<u8>)
    ensures
        ({
            let s = stored(name, data);
            let n = 30 + name.len() as int;
            &&& s.len() == n + data.len()
            &&& s.subrange(30, n) == name
            &&& s.subrange(n, n + data.len()) == data
        }),
{
    let f = file_fields(name, data);
    assert(f.len() == 26) by {
        reveal(file_fields);
    }
    let head = seq![0x50u8, 0x4b, 3, 4] + f;
    let s = head + name + data;
    let n = 30 + name.len() as int;
    assert(s.subrange(30, n) =~= name);
    assert(s.subrange(n, n + data.len()) =~= data);
}

proof fn inner_part(z: Seq<u8>, a: Seq<u8>, s: Seq<u8>, b: Seq<u8>, i: int, j: int)
    requires
        (a + s).is_prefix_of(z),
        0 <= i <= j <= s.len(),
    ensures
        (z + b).subrange(a.len() + i, a.len() + j) == s.subrange(i, j),
{
    let p = a + s;
    let x = (z + b).subrange(a.len() + i, a.len() + j);
    let y = s.subrange(i, j);
    assert forall|k: int| 0 <= k < x.len() implies x[k] == y[k] by {
        assert(z.subrange(0, p.len() as int)[a.len() + i + k] == p[a.len() + i + k]);
    }
    assert(x =~= y);
}

proof fn concat_three(a: Seq<u8>, b: Seq<u8>, c: Seq<u8>)
    ensures
        a + b + c == a + (b + c),
{
    assert(a + b + c =~= a + (b + c));
}

/// Every file stands in the archive as it is, behind its name, where the list
/// says that it does.
pub proof fn zip_holds_the_files(fs: Seq<(Seq<u8>, Seq<u8>)>, i: int)
    requires
        0 <= i < fs.len(),
    ensures
        ({
            let at = bodies(fs.take(i)).len() + 30;
            let name = at + fs[i].0.len();
            &&& zip_of(fs).subrange(at as int, name as int) == fs[i].0
            &&& zip_of(fs).subrange(name as int, (name + fs[i].1.len()) as int) == fs[i].1
        }),
{
    bodies_before(fs, i);
    let a = bodies(fs.take(i));
    let s = stored(fs[i].0, fs[i].1);
    let z = bodies(fs);
    let d = directory(fs);
    let c = closing(fs.len(), d.len(), z.len());
    let n = 30 + fs[i].0.len() as int;
    stored_parts(fs[i].0, fs[i].1);
    concat_three(z, d, c);
    inner_part(z, a, s, d + c, 30, n);
    inner_part(z, a, s, d + c, n, s.len() as int);
}

/// What an archive's end says where a reader looks for it: the number that two
/// bytes stand for, the first counting least.
pub open spec fn two_bytes(s: Seq<u8>, i: int) -> int {
    s[i] + 256 * s[i + 1]
}

/// The number that four bytes stand for, the first counting least.
pub open spec fn four_bytes(s: Seq<u8>, i: int) -> int {
    two_bytes(s, i) + 65536 * two_bytes(s, i + 2)
}

proof fn le_reads_back(n: nat)
    ensures
        le16(n).len() == 2,
        n < 0x1_0000 ==> two_bytes(le16(n), 0) == n,
        le32(n).len() == 4,
        n <= 0xffff_ffff ==> four_bytes(le32(n), 0) == n,
{
}

/// What a file is stored under says that it is stored as it is, with its check
/// sum, its length twice and the length of its name.
pub proof fn stored_files_say_what_they_are(name: Seq<u8>, data: Seq<u8>)
    requires
        name.len() <= 0xffff,
        data.len() <= 0xffff_ffff,
    ensures
        ({
            let s = stored(name, data);
            &&& s.len() == 30 + name.len() + data.len()
            &&& s.subrange(0, 4) == seq![0x50u8, 0x4b, 3, 4]
            &&& two_bytes(s, 4) == 20
            &&& two_bytes(s, 6) == 0x800
            &&& two_bytes(s, 8) == 0
            &&& four_bytes(s, 14) == crc32_of(data)
            &&& four_bytes(s, 18) == data.len()
            &&& four_bytes(s, 22) == data.len()
            &&& two_bytes(s, 26) == name.len()
            &&& two_bytes(s, 28) == 0
        }),
{
    reveal(file_fields);
    le_reads_back(crc32_of(data) as nat);
    le_reads_back(data.len());
    le_reads_back(name.len());
    let s = stored(name, data);
    let f = file_fields(name, data);
    fields_read_back(name, data);
    assert(s.subrange(0, 4) =~= seq![0x50u8, 0x4b, 3, 4]);
    assert forall|i: int| 0 <= i < 26 implies #[trigger] s[i + 4] == f[i] by {}
    assert(s[4] == f[0] && s[5] == f[1] && s[6] == f[2] && s[7] == f[3] && s[8] == f[4] && s[9]
        == f[5]);
    assert(s[14] == f[10] && s[15] == f[11] && s[16] == f[12] && s[17] == f[13]);
    assert(s[18] == f[14] && s[19] == f[15] && s[20] == f[16] && s[21] == f[17]);
    assert(s[22] == f[18] && s[23] == f[19] && s[24] == f[20] && s[25] == f[21]);
    assert(s[26] == f[22] && s[27] == f[23] && s[28] == f[24] && s[29] == f[25]);
}

proof fn fields_read_back(name: Seq<u8>, data: Seq<u8>)
    requires
        name.len() <= 0xffff,
        data.len() <= 0xffff_ffff,
    ensures
        ({
            let f = file_fields(name, data);
            &&& f.len() == 26
            &&& two_bytes(f, 0) == 20
            &&& two_bytes(f, 2) == 0x800
            &&& two_bytes(f, 4) == 0
            &&& four_bytes(f, 10) == crc32_of(data)
            &&& four_bytes(f, 14) == data.len()
            &&& four_bytes(f, 18) == data.len()
            &&& two_bytes(f, 22) == name.len()
            &&& two_bytes(f, 24) == 0
        }),
{
    reveal(file_fields);
    le_reads_back(crc32_of(data) as nat);
    le_reads_back(data.len());
    le_reads_back(name.len());
    let f = file_fields(name, data);
    let c = le32(crc32_of(data) as nat);
    let d = le32(data.len());
    let n = le16(name.len());
    assert(f[10] == c[0] && f[11] == c[1] && f[12] == c[2] && f[13] == c[3]);
    assert(f[14] == d[0] && f[15] == d[1] && f[16] == d[2] && f[17] == d[3]);
    assert(f[18] == d[0] && f[19] == d[1] && f[20] == d[2] && f[21] == d[3]);
    assert(f[22] == n[0] && f[23] == n[1]);
}

/// The list of files says of each where it is stored and what it is called.
pub proof fn the_list_says_where_files_are(name: Seq<u8>, data: Seq<u8>, at: nat)
    requires
        name.len() <= 0xffff,
        data.len() <= 0xffff_ffff,
        at <= 0xffff_ffff,
    ensures
        ({
            let s = listed(name, data, at);
            &&& s.len() == 46 + name.len()
            &&& s.subrange(0, 4) == seq![0x50u8, 0x4b, 1, 2]
            &&& two_bytes(s, 10) == 0
            &&& four_bytes(s, 16) == crc32_of(data)
            &&& four_bytes(s, 20) == data.len()
            &&& four_bytes(s, 24) == data.len()
            &&& two_bytes(s, 28) == name.len()
            &&& two_bytes(s, 30) == 0 && two_bytes(s, 32) == 0
            &&& four_bytes(s, 42) == at
            &&& s.skip(46) == name
        }),
{
    fields_read_back(name, data);
    le_reads_back(at);
    let s = listed(name, data, at);
    let f = file_fields(name, data);
    let a = le32(at);
    assert(s.subrange(0, 4) =~= seq![0x50u8, 0x4b, 1, 2]);
    assert forall|i: int| 0 <= i < 26 implies #[trigger] s[i + 6] == f[i] by {}
    assert(s[10] == f[4] && s[11] == f[5]);
    assert(s[16] == f[10] && s[17] == f[11] && s[18] == f[12] && s[19] == f[13]);
    assert(s[20] == f[14] && s[21] == f[15] && s[22] == f[16] && s[23] == f[17]);
    assert(s[24] == f[18] && s[25] == f[19] && s[26] == f[20] && s[27] == f[21]);
    assert(s[28] == f[22] && s[29] == f[23] && s[30] == f[24] && s[31] == f[25]);
    assert(s[42] == a[0] && s[43] == a[1] && s[44] == a[2] && s[45] == a[3]);
    assert(s.skip(46) =~= name);
}

/// An archive ends by saying how many files it holds and where their list
/// stands, how long it is, and the list stands there.
pub proof fn the_end_says_where_the_list_is(fs: Seq<(Seq<u8>, Seq<u8>)>)
    requires
        zip_fits(fs),
    ensures
        ({
            let z = zip_of(fs);
            let e = z.len() - 22;
            let at = four_bytes(z, e + 16);
            let size = four_bytes(z, e + 12);
            &&& e >= 0
            &&& z.subrange(e, e + 4) == seq![0x50u8, 0x4b, 5, 6]
            &&& two_bytes(z, e + 4) == 0 && two_bytes(z, e + 6) == 0
            &&& two_bytes(z, e + 8) == fs.len() && two_bytes(z, e + 10) == fs.len()
            &&& two_bytes(z, e + 20) == 0
            &&& at + size == e
            &&& z.subrange(at, e) == directory(fs)
            &&& z.take(at) == bodies(fs)
        }),
{
    let b = bodies(fs);
    let d = directory(fs);
    let c = closing(fs.len(), d.len(), b.len());
    let z = zip_of(fs);
    let e = (b.len() + d.len()) as int;
    reveal(closing);
    le_reads_back(fs.len());
    le_reads_back(d.len());
    le_reads_back(b.len());
    assert(c.len() == 22);
    assert(z.len() == e + 22);
    let n = le16(fs.len());
    let s = le32(d.len());
    let a = le32(b.len());
    assert(c[8] == n[0] && c[9] == n[1] && c[10] == n[0] && c[11] == n[1]);
    assert(c[12] == s[0] && c[13] == s[1] && c[14] == s[2] && c[15] == s[3]);
    assert(c[16] == a[0] && c[17] == a[1] && c[18] == a[2] && c[19] == a[3]);
    assert forall|i: int| 0 <= i < 22 implies #[trigger] z[e + i] == c[i] by {}
    assert(z[e + 4] == c[4] && z[e + 5] == c[5] && z[e + 6] == c[6] && z[e + 7] == c[7]);
    assert(z[e + 8] == c[8] && z[e + 9] == c[9] && z[e + 10] == c[10] && z[e + 11] == c[11]);
    assert(z[e + 12] == c[12] && z[e + 13] == c[13] && z[e + 14] == c[14] && z[e + 15] == c[15]);
    assert(z[e + 16] == c[16] && z[e + 17] == c[17] && z[e + 18] == c[18] && z[e + 19] == c[19]);
    assert(z[e + 20] == c[20] && z[e + 21] == c[21]);
    assert(z.subrange(e, e + 4) =~= seq![0x50u8, 0x4b, 5, 6]);
    assert(z.subrange(b.len() as int, e) =~= d);
    assert(z.take(b.len() as int) =~= b);
}

/// Files stand one after the other, each listed at the place where it stands.
pub proof fn files_stand_where_they_are_listed(
    fs: Seq<(Seq<u8>, Seq<u8>)>,
    name: Seq<u8>,
    data: Seq<u8>,
)
    ensures
        bodies(fs.push((name, data))) == bodies(fs) + stored(name, data),
        directory(fs.push((name, data))) == directory(fs) + listed(name, data, bodies(fs).len()),
        bodies(Seq::empty()) == Seq::<u8>::empty(),
        directory(Seq::empty()) == Seq::<u8>::empty(),
{
    assert(fs.push((name, data)).drop_last() =~= fs);
}

/// The check sum takes a bit at a time, eight to a byte, by the polynomial of
/// the format, and begins and ends with all bits turned; that of nothing is zero.
pub proof fn check_sum_is_the_formats(b: Seq<u8>, x: u8, c: u32)
    ensures
        crc32_of(Seq::empty()) == 0,
        crc_over(b.push(x)) == crc_bit(
            crc_bit(
                crc_bit(
                    crc_bit(
                        crc_bit(crc_bit(crc_bit(crc_bit(crc_over(b) ^ (x as u32))))),
                    ),
                ),
            ),
        ),
        c % 2 == 1 ==> crc_bit(c) == (c / 2) ^ 3_988_292_384u32,
        c % 2 == 0 ==> crc_bit(c) == c / 2,
        crc32_of(b) == !crc_over(b),
{
    reveal_with_fuel(crc_bits, 9);
    assert(b.push(x).drop_last() =~= b);
    assert(0xffff_ffffu32 ^ 0xffff_ffff == 0) by (bit_vector);
    assert(c >> 1 == c / 2 && (c & 1 == 1 <==> c % 2 == 1)) by (bit_vector);
    let o = crc_over(b);
    assert(o ^ 0xffff_ffff == !o) by (bit_vector);
}

} // verus!
