//! File transfers in pieces: what is under way, and how far it has come.

use crate::files::{EntryFacts, FileEntry, MAX_CHUNK, MAX_FILE, MAX_TRANSFERS};
use crate::names::{
    folder_name, id_of, name_of, normalize_root, path_of, sanitize_id, sanitize_name, sanitize_rel,
};
use crate::text::same;
use vstd::prelude::*;

verus! {

/// A file on its way in.
#[derive(Debug)]
pub struct Transfer {
    pub id: String,
    pub name: String,
    pub root: String,
    pub rel: String,
    pub written: u64,
    pub size: u64,
}

#[verifier::ext_equal]
pub ghost struct Way {
    pub id: Seq<char>,
    pub name: Seq<char>,
    pub root: Seq<char>,
    pub rel: Seq<char>,
    pub written: u64,
    pub size: u64,
}

impl View for Transfer {
    type V = Way;

    open spec fn view(&self) -> Way {
        Way {
            id: self.id@,
            name: self.name@,
            root: self.root@,
            rel: self.rel@,
            written: self.written,
            size: self.size,
        }
    }
}

impl Way {
    /// No more is written than the file is long, and no file is too long.
    pub open spec fn wf(self) -> bool {
        self.written <= self.size && 0 < self.size <= MAX_FILE
    }

    /// Whether two transfers fill the same file.
    pub open spec fn same_file(self, other: Way) -> bool {
        self.name == other.name && self.root == other.root && self.rel == other.rel
    }
}

impl Transfer {
    pub fn copy(&self) -> (t: Transfer)
        ensures
            t@ == self@,
    {
        Transfer {
            id: self.id.clone(),
            name: self.name.clone(),
            root: self.root.clone(),
            rel: self.rel.clone(),
            written: self.written,
            size: self.size,
        }
    }
}

pub open spec fn ways(v: Seq<Transfer>) -> Seq<Way> {
    Seq::new(v.len(), |i: int| v[i]@)
}

/// The transfer that a request asks for, or why there is none.
pub open spec fn requested(
    id: Seq<char>,
    name: Seq<char>,
    size: u64,
    root: Seq<char>,
    rel: Seq<char>,
) -> Result<Way, Seq<char>> {
    match (id_of(id), name_of(name), folder_name(root), path_of(rel)) {
        (None, _, _, _) => Err("invalid transfer id"@),
        (_, None, _, _) => Err("invalid file name"@),
        (_, _, None, _) => Err("unknown folder"@),
        (_, _, _, None) => Err("invalid path"@),
        (Some(i), Some(n), Some(f), Some(p)) => if size == 0 || size > MAX_FILE {
            Err("invalid file size"@)
        } else {
            Ok(Way { id: i, name: n, root: f, rel: p, written: 0, size })
        },
    }
}

pub fn begin_check(id: &str, name: &str, size: u64, root: &str, rel: &str) -> (r: Result<
    Transfer,
    String,
>)
    ensures
        match (requested(id@, name@, size, root@, rel@), r) {
            (Ok(w), Ok(t)) => t@ == w,
            (Err(t), Err(e)) => e@ == t,
            _ => false,
        },
{
    match (sanitize_id(id), sanitize_name(name), normalize_root(root), sanitize_rel(rel)) {
        (None, _, _, _) => Err("invalid transfer id".to_owned()),
        (_, None, _, _) => Err("invalid file name".to_owned()),
        (_, _, None, _) => Err("unknown folder".to_owned()),
        (_, _, _, None) => Err("invalid path".to_owned()),
        (Some(i), Some(n), Some(f), Some(p)) => if size == 0 || size > MAX_FILE {
            Err("invalid file size".to_owned())
        } else {
            Ok(Transfer { id: i, name: n, root: f.to_owned(), rel: p, written: 0, size })
        },
    }
}

/// How much of a file is there already, from the length of its part file. One
/// that is as long as the file or longer is of no use.
pub open spec fn resumed(part: Option<u64>, size: u64) -> u64 {
    match part {
        Some(n) => if n < size && n <= MAX_FILE {
            n
        } else {
            0
        },
        None => 0,
    }
}

/// Where a transfer stands.
pub open spec fn at(ts: Seq<Way>, id: Seq<char>) -> Option<int>
    decreases ts.len(),
{
    if ts.len() == 0 {
        None
    } else if ts.last().id == id {
        Some(ts.len() - 1)
    } else {
        at(ts.drop_last(), id)
    }
}

/// The transfers without others that fill the same file.
pub open spec fn cleared(ts: Seq<Way>, w: Way) -> Seq<Way>
    decreases ts.len(),
{
    if ts.len() == 0 {
        Seq::empty()
    } else if ts.last().id == w.id || !ts.last().same_file(w) {
        cleared(ts.drop_last(), w).push(ts.last())
    } else {
        cleared(ts.drop_last(), w)
    }
}

/// The transfers with one more; it replaces the one of the same number.
pub open spec fn with_way(ts: Seq<Way>, w: Way) -> Seq<Way> {
    match at(ts, w.id) {
        Some(i) => ts.update(i, w),
        None => ts.push(w),
    }
}

pub open spec fn crowded(ts: Seq<Way>, w: Way) -> bool {
    cleared(ts, w).len() >= MAX_TRANSFERS && at(cleared(ts, w), w.id) is None
}

/// The transfers after one was begun, or refused.
pub open spec fn begun(ts: Seq<Way>, w: Way) -> Seq<Way> {
    if crowded(ts, w) {
        cleared(ts, w)
    } else {
        with_way(cleared(ts, w), w)
    }
}

/// Why a piece is refused, if it is.
pub open spec fn refused_piece(ts: Seq<Way>, id: Seq<char>, len: nat) -> Option<Seq<char>> {
    match id_of(id) {
        None => Some("invalid transfer id"@),
        Some(i) => if len == 0 || len > 2 * MAX_CHUNK {
            Some("invalid chunk"@)
        } else {
            match at(ts, i) {
                None => Some("unknown transfer"@),
                Some(k) => if ts[k].written + len > ts[k].size {
                    Some("file too large"@)
                } else {
                    None
                },
            }
        },
    }
}

/// The transfers after a piece was written.
pub open spec fn grown(ts: Seq<Way>, id: Seq<char>, len: nat) -> Seq<Way> {
    let k = at(ts, id_of(id)->Some_0)->Some_0;
    ts.update(k, Way { written: (ts[k].written + len) as u64, ..ts[k] })
}

/// The transfers without those of a name.
pub open spec fn without_name(ts: Seq<Way>, name: Seq<char>) -> Seq<Way>
    decreases ts.len(),
{
    if ts.len() == 0 {
        Seq::empty()
    } else if ts.last().name == name {
        without_name(ts.drop_last(), name)
    } else {
        without_name(ts.drop_last(), name).push(ts.last())
    }
}

/// No more transfers than allowed, every number once, each well-formed.
pub open spec fn orderly(ts: Seq<Way>) -> bool {
    &&& ts.len() <= MAX_TRANSFERS
    &&& forall|i: int| 0 <= i < ts.len() ==> (#[trigger] ts[i]).wf()
    &&& forall|i: int, j: int|
        0 <= i < j < ts.len() ==> (#[trigger] ts[i]).id != (#[trigger] ts[j]).id
}

proof fn at_found(ts: Seq<Way>, id: Seq<char>)
    ensures
        match at(ts, id) {
            Some(i) => 0 <= i < ts.len() && ts[i].id == id,
            None => forall|j: int| 0 <= j < ts.len() ==> (#[trigger] ts[j]).id != id,
        },
    decreases ts.len(),
{
    if ts.len() > 0 && ts.last().id != id {
        at_found(ts.drop_last(), id);
        if at(ts.drop_last(), id) is None {
            assert forall|j: int| 0 <= j < ts.len() implies (#[trigger] ts[j]).id != id by {
                if j < ts.len() - 1 {
                    assert(ts.drop_last()[j].id != id);
                }
            }
        }
    }
}

proof fn drop_last_orderly(ts: Seq<Way>)
    requires
        orderly(ts),
        ts.len() > 0,
    ensures
        orderly(ts.drop_last()),
        forall|j: int|
            0 <= j < ts.drop_last().len() ==> (#[trigger] ts.drop_last()[j]).id != ts.last().id,
{
    let d = ts.drop_last();
    assert forall|i: int| 0 <= i < d.len() implies (#[trigger] d[i]).wf() by {
        assert(d[i] == ts[i]);
    }
    assert forall|i: int, j: int| 0 <= i < j < d.len() implies (#[trigger] d[i]).id != (
    #[trigger] d[j]).id by {
        assert(d[i] == ts[i] && d[j] == ts[j]);
    }
    assert forall|j: int| 0 <= j < d.len() implies (#[trigger] d[j]).id != ts.last().id by {
        assert(d[j] == ts[j] && ts.last() == ts[ts.len() - 1]);
    }
}

proof fn push_orderly(ts: Seq<Way>, w: Way)
    requires
        orderly(ts),
        ts.len() < MAX_TRANSFERS,
        w.wf(),
        forall|j: int| 0 <= j < ts.len() ==> (#[trigger] ts[j]).id != w.id,
    ensures
        orderly(ts.push(w)),
{
}

/// Some of the transfers, in their order.
pub open spec fn part_of(a: Seq<Way>, b: Seq<Way>) -> bool {
    a.len() <= b.len() && forall|i: int| 0 <= i < a.len() ==> b.contains(#[trigger] a[i])
}

proof fn cleared_orderly(ts: Seq<Way>, w: Way)
    requires
        orderly(ts),
    ensures
        orderly(cleared(ts, w)),
        part_of(cleared(ts, w), ts),
    decreases ts.len(),
{
    if ts.len() > 0 {
        drop_last_orderly(ts);
        let d = ts.drop_last();
        cleared_orderly(d, w);
        let c = cleared(d, w);
        assert forall|i: int| 0 <= i < c.len() implies (#[trigger] c[i]).id != ts.last().id
            && ts.contains(c[i]) by {
            assert(d.contains(c[i]));
            let k = choose|k: int| 0 <= k < d.len() && d[k] == c[i];
            assert(ts[k] == c[i]);
        }
        if ts.last().id == w.id || !ts.last().same_file(w) {
            push_orderly(c, ts.last());
            let r = c.push(ts.last());
            assert forall|i: int| 0 <= i < r.len() implies ts.contains(#[trigger] r[i]) by {
                if i < c.len() {
                    assert(r[i] == c[i]);
                } else {
                    assert(ts[ts.len() - 1] == r[i]);
                }
            }
        }
    }
}

proof fn without_name_orderly(ts: Seq<Way>, name: Seq<char>)
    requires
        orderly(ts),
    ensures
        orderly(without_name(ts, name)),
        part_of(without_name(ts, name), ts),
    decreases ts.len(),
{
    if ts.len() > 0 {
        drop_last_orderly(ts);
        let d = ts.drop_last();
        without_name_orderly(d, name);
        let c = without_name(d, name);
        assert forall|i: int| 0 <= i < c.len() implies (#[trigger] c[i]).id != ts.last().id
            && ts.contains(c[i]) by {
            assert(d.contains(c[i]));
            let k = choose|k: int| 0 <= k < d.len() && d[k] == c[i];
            assert(ts[k] == c[i]);
        }
        if ts.last().name != name {
            push_orderly(c, ts.last());
            let r = c.push(ts.last());
            assert forall|i: int| 0 <= i < r.len() implies ts.contains(#[trigger] r[i]) by {
                if i < c.len() {
                    assert(r[i] == c[i]);
                } else {
                    assert(ts[ts.len() - 1] == r[i]);
                }
            }
        }
    }
}

/// Whatever is begun, no more than four transfers are under way, each under a
/// number of its own.
pub proof fn begun_is_orderly(ts: Seq<Way>, w: Way)
    requires
        orderly(ts),
        w.wf(),
    ensures
        orderly(begun(ts, w)),
        crowded(ts, w) || at(begun(ts, w), w.id) is Some,
{
    let c = cleared(ts, w);
    cleared_orderly(ts, w);
    at_found(c, w.id);
    if !crowded(ts, w) {
        let b = begun(ts, w);
        match at(c, w.id) {
            Some(i) => {
                assert forall|k: int| 0 <= k < b.len() implies (#[trigger] b[k]).wf() by {
                    if k != i {
                        assert(b[k] == c[k]);
                    }
                }
                assert forall|j: int, k: int| 0 <= j < k < b.len() implies (#[trigger] b[j]).id != (
                #[trigger] b[k]).id by {
                    assert(c[j].id != c[k].id);
                }
                at_found(b, w.id);
                assert(b[i].id == w.id);
            },
            None => {
                push_orderly(c, w);
            },
        }
    }
}

pub proof fn grown_is_orderly(ts: Seq<Way>, id: Seq<char>, len: nat)
    requires
        orderly(ts),
        refused_piece(ts, id, len) is None,
    ensures
        orderly(grown(ts, id, len)),
        grown(ts, id, len).len() == ts.len(),
{
    let i = id_of(id)->Some_0;
    at_found(ts, i);
    let k = at(ts, i)->Some_0;
    let g = grown(ts, id, len);
    assert(ts[k].wf());
    assert forall|j: int| 0 <= j < g.len() implies (#[trigger] g[j]).wf() by {
        assert(ts[j].wf());
    }
    assert forall|j: int, m: int| 0 <= j < m < g.len() implies (#[trigger] g[j]).id != (
    #[trigger] g[m]).id by {
        assert(ts[j].id != ts[m].id);
    }
}

proof fn remove_orderly(ts: Seq<Way>, k: int)
    requires
        orderly(ts),
        0 <= k < ts.len(),
    ensures
        orderly(ts.remove(k)),
{
    let r = ts.remove(k);
    assert forall|i: int| 0 <= i < r.len() implies (#[trigger] r[i]).wf() by {
        assert(r[i] == ts[if i < k {
            i
        } else {
            i + 1
        }]);
    }
    assert forall|i: int, j: int| 0 <= i < j < r.len() implies (#[trigger] r[i]).id != (
    #[trigger] r[j]).id by {
        assert(r[i] == ts[if i < k {
            i
        } else {
            i + 1
        }]);
        assert(r[j] == ts[if j < k {
            j
        } else {
            j + 1
        }]);
    }
}

/// The transfers that are under way.
pub struct Inbox {
    incoming: Vec<Transfer>,
}

impl View for Inbox {
    type V = Seq<Way>;

    closed spec fn view(&self) -> Seq<Way> {
        ways(self.incoming@)
    }
}

fn find(v: &Vec<Transfer>, id: &str) -> (r: Option<usize>)
    ensures
        match r {
            Some(i) => at(ways(v@), id@) == Some(i as int) && i < v@.len(),
            None => at(ways(v@), id@) is None,
        },
{
    let ghost ts = ways(v@);
    let mut i: usize = v.len();
    assert(ts.take(ts.len() as int) =~= ts);
    while i > 0
        invariant
            i <= v@.len() == ts.len(),
            ts == ways(v@),
            at(ts.take(i as int), id@) == at(ts, id@),
        decreases i,
    {
        assert(ts.take(i as int).drop_last() =~= ts.take(i - 1));
        assert(ts.take(i as int).last() == v@[i - 1]@);
        if same(v[i - 1].id.as_str(), id) {
            return Some(i - 1);
        }
        i -= 1;
    }
    None
}

impl Inbox {
    #[verifier::type_invariant]
    spec fn inv(self) -> bool {
        orderly(self@)
    }

    pub fn new() -> (b: Self)
        ensures
            b@ == Seq::<Way>::empty(),
    {
        let incoming: Vec<Transfer> = Vec::new();
        assert(ways(incoming@) =~= Seq::<Way>::empty());
        Inbox { incoming }
    }

    /// A transfer is begun. `part` is the length of what is there of the file
    /// already. Says at which byte to go on, and whether what is there is of
    /// no use.
    pub fn begin_at(
        &mut self,
        id: &str,
        name: &str,
        size: u64,
        root: &str,
        rel: &str,
        part: Option<u64>,
    ) -> (r: (Result<u64, String>, bool))
        ensures
            orderly(final(self)@),
            match requested(id@, name@, size, root@, rel@) {
                Err(t) => r.0 matches Err(e) && e@ == t && !r.1 && final(self)@ == old(self)@,
                Ok(w) => {
                    let w2 = Way { written: resumed(part, size), ..w };
                    &&& r.1 == (part is Some && resumed(part, size) != part->Some_0)
                    &&& final(self)@ == begun(old(self)@, w2)
                    &&& match r.0 {
                        Ok(n) => !crowded(old(self)@, w2) && n == w2.written,
                        Err(e) => crowded(old(self)@, w2) && e@ == "too many transfers"@,
                    }
                },
            },
    {
        proof {
            use_type_invariant(&*self);
        }
        let ghost before = self@;
        let mut t = match begin_check(id, name, size, root, rel) {
            Ok(t) => t,
            Err(e) => {
                return (Err(e), false);
            },
        };
        let mut drop_part = false;
        match part {
            Some(n) => if n < size && n <= MAX_FILE {
                t.written = n;
            } else {
                drop_part = true;
            },
            None => {},
        }
        let ghost w = t@;
        let written: u64 = t.written;
        let mut incoming: Vec<Transfer> = Vec::new();
        std::mem::swap(&mut incoming, &mut self.incoming);
        let mut kept: Vec<Transfer> = Vec::new();
        let mut i: usize = 0;
        assert(ways(kept@) =~= cleared(before.take(0), w));
        while i < incoming.len()
            invariant
                i <= incoming@.len(),
                before == ways(incoming@),
                w == t@,
                ways(kept@) == cleared(before.take(i as int), w),
            decreases incoming@.len() - i,
        {
            let ghost here = ways(kept@);
            assert(before.take(i + 1).drop_last() =~= before.take(i as int));
            assert(before.take(i + 1).last() == incoming@[i as int]@);
            if same(incoming[i].id.as_str(), t.id.as_str()) || !(same(
                incoming[i].name.as_str(),
                t.name.as_str(),
            ) && same(incoming[i].root.as_str(), t.root.as_str()) && same(
                incoming[i].rel.as_str(),
                t.rel.as_str(),
            )) {
                let c = incoming[i].copy();
                kept.push(c);
                assert(ways(kept@) =~= here.push(c@));
            }
            i += 1;
        }
        assert(before.take(before.len() as int) =~= before);
        proof {
            begun_is_orderly(before, w);
            cleared_orderly(before, w);
        }
        match find(&kept, t.id.as_str()) {
            Some(k) => {
                let ghost here = ways(kept@);
                kept.set(k, t);
                assert(ways(kept@) =~= here.update(k as int, w));
                self.incoming = kept;
                (Ok(written), drop_part)
            },
            None => {
                if kept.len() >= MAX_TRANSFERS {
                    self.incoming = kept;
                    (Err("too many transfers".to_owned()), drop_part)
                } else {
                    let ghost here = ways(kept@);
                    kept.push(t);
                    assert(ways(kept@) =~= here.push(w));
                    self.incoming = kept;
                    (Ok(written), drop_part)
                }
            },
        }
    }

    /// Whether a piece may be written, and to which transfer it belongs.
    pub fn chunk_check(&self, id: &str, len: usize) -> (r: Result<Transfer, String>)
        ensures
            match refused_piece(self@, id@, len as nat) {
                Some(t) => r matches Err(e) && e@ == t,
                None => r matches Ok(w) && w@ == self@[at(
                    self@,
                    id_of(id@)->Some_0,
                )->Some_0],
            },
    {
        proof {
            use_type_invariant(self);
        }
        match sanitize_id(id) {
            None => Err("invalid transfer id".to_owned()),
            Some(i) => {
                if len == 0 || len > 2 * MAX_CHUNK {
                    return Err("invalid chunk".to_owned());
                }
                match find(&self.incoming, i.as_str()) {
                    None => Err("unknown transfer".to_owned()),
                    Some(k) => {
                        assert(self@[k as int] == self.incoming@[k as int]@);
                        let t = &self.incoming[k];
                        if len as u64 > t.size - t.written {
                            Err("file too large".to_owned())
                        } else {
                            Ok(t.copy())
                        }
                    },
                }
            },
        }
    }

    /// A piece was written.
    pub fn chunk(&mut self, id: &str, len: usize) -> (r: Result<(), String>)
        ensures
            orderly(final(self)@),
            match refused_piece(old(self)@, id@, len as nat) {
                Some(t) => r matches Err(e) && e@ == t && final(self)@ == old(self)@,
                None => r is Ok && final(self)@ == grown(old(self)@, id@, len as nat),
            },
    {
        proof {
            use_type_invariant(&*self);
        }
        let ghost before = self@;
        match self.chunk_check(id, len) {
            Err(e) => Err(e),
            Ok(t) => {
                let mut t = t;
                proof {
                    at_found(before, id_of(id@)->Some_0);
                    grown_is_orderly(before, id@, len as nat);
                }
                match find(&self.incoming, t.id.as_str()) {
                    Some(k) => {
                        t.written = t.written + len as u64;
                        let ghost w = t@;
                        let mut incoming: Vec<Transfer> = Vec::new();
                        std::mem::swap(&mut incoming, &mut self.incoming);
                        incoming.set(k, t);
                        assert(ways(incoming@) =~= grown(before, id@, len as nat));
                        self.incoming = incoming;
                        Ok(())
                    },
                    None => Ok(()),
                }
            },
        }
    }

    /// A transfer is taken off to be finished.
    pub fn end(&mut self, id: &str) -> (r: Result<Transfer, String>)
        ensures
            orderly(final(self)@),
            match id_of(id@) {
                None => r matches Err(e) && e@ == "invalid transfer id"@ && final(self)@ == old(self)@,
                Some(i) => match at(old(self)@, i) {
                    None => r matches Err(e) && e@ == "unknown transfer"@ && final(self)@ == old(
                        self,
                    )@,
                    Some(k) => r matches Ok(t) && t@ == old(self)@[k] && t@.wf() && final(self)@
                        == old(self)@.remove(k),
                },
            },
    {
        proof {
            use_type_invariant(&*self);
        }
        let ghost before = self@;
        match sanitize_id(id) {
            None => Err("invalid transfer id".to_owned()),
            Some(i) => match find(&self.incoming, i.as_str()) {
                None => Err("unknown transfer".to_owned()),
                Some(k) => {
                    let mut incoming: Vec<Transfer> = Vec::new();
                    std::mem::swap(&mut incoming, &mut self.incoming);
                    assert(before[k as int] == incoming@[k as int]@);
                    let t = incoming.remove(k);
                    proof {
                        remove_orderly(before, k as int);
                        assert(ways(incoming@) =~= before.remove(k as int));
                        assert(before[k as int].wf());
                    }
                    self.incoming = incoming;
                    Ok(t)
                },
            },
        }
    }

    /// A file was removed. Whoever was sending one of that name to the inbox
    /// starts anew; says whether the part file goes too.
    pub fn forget(&mut self, root: &str, rel: &str, name: &str) -> (r: bool)
        ensures
            orderly(final(self)@),
            r == (folder_name(root@) == Some("inbox"@) && (path_of(rel@) is None || path_of(
                rel@,
            )->Some_0.len() == 0)),
            final(self)@ == if r {
                without_name(old(self)@, name@)
            } else {
                old(self)@
            },
    {
        proof {
            use_type_invariant(&*self);
        }
        let ghost before = self@;
        let in_inbox = match normalize_root(root) {
            Some(f) => same(f, "inbox"),
            None => false,
        };
        let at_top = match sanitize_rel(rel) {
            Some(p) => p.as_str().is_empty(),
            None => true,
        };
        if !(in_inbox && at_top) {
            return false;
        }
        let mut incoming: Vec<Transfer> = Vec::new();
        std::mem::swap(&mut incoming, &mut self.incoming);
        let mut kept: Vec<Transfer> = Vec::new();
        let mut i: usize = 0;
        assert(ways(kept@) =~= without_name(before.take(0), name@));
        while i < incoming.len()
            invariant
                i <= incoming@.len(),
                before == ways(incoming@),
                ways(kept@) == without_name(before.take(i as int), name@),
            decreases incoming@.len() - i,
        {
            let ghost here = ways(kept@);
            assert(before.take(i + 1).drop_last() =~= before.take(i as int));
            assert(before.take(i + 1).last() == incoming@[i as int]@);
            if !same(incoming[i].name.as_str(), name) {
                let c = incoming[i].copy();
                kept.push(c);
                assert(ways(kept@) =~= here.push(c@));
            }
            i += 1;
        }
        assert(before.take(before.len() as int) =~= before);
        proof {
            without_name_orderly(before, name@);
        }
        self.incoming = kept;
        true
    }

    /// How many transfers are under way.
    pub fn len(&self) -> (n: usize)
        ensures
            n == self@.len(),
            n <= MAX_TRANSFERS,
    {
        proof {
            use_type_invariant(self);
        }
        self.incoming.len()
    }
}

/// What comes of a transfer that is to end: the file, where all of it was sent
/// and all of it is there.
pub open spec fn outcome(w: Way, on_disk: nat) -> Result<EntryFacts, Seq<char>> {
    if w.written == w.size && on_disk == w.size {
        Ok(EntryFacts { name: w.name, size: w.size, dir: false })
    } else {
        Err("incomplete file"@)
    }
}

/// Whether a transfer is complete.
pub fn finished(t: &Transfer, on_disk: u64) -> (r: Result<FileEntry, String>)
    ensures
        match (outcome(t@, on_disk as nat), r) {
            (Ok(f), Ok(e)) => e@ == f,
            (Err(m), Err(e)) => e@ == m,
            _ => false,
        },
{
    if t.written != t.size || on_disk != t.size {
        return Err("incomplete file".to_owned());
    }
    Ok(FileEntry::file(t.name.clone(), t.size))
}

/// The length of pieces together.
pub open spec fn total(lens: Seq<nat>) -> nat
    decreases lens.len(),
{
    if lens.len() == 0 {
        0
    } else {
        total(lens.drop_last()) + lens.last()
    }
}

/// The transfers after pieces were written one after the other.
pub open spec fn grown_by(ts: Seq<Way>, id: Seq<char>, lens: Seq<nat>) -> Seq<Way>
    decreases lens.len(),
{
    if lens.len() == 0 {
        ts
    } else {
        grown(grown_by(ts, id, lens.drop_last()), id, lens.last())
    }
}

/// Whether each of the pieces was accepted when it came.
pub open spec fn all_accepted(ts: Seq<Way>, id: Seq<char>, lens: Seq<nat>) -> bool
    decreases lens.len(),
{
    lens.len() == 0 || (all_accepted(ts, id, lens.drop_last()) && refused_piece(
        grown_by(ts, id, lens.drop_last()),
        id,
        lens.last(),
    ) is None)
}

proof fn at_after_growth(ts: Seq<Way>, k: int, w: Way, id: Seq<char>)
    requires
        at(ts, id) == Some(k),
        0 <= k < ts.len(),
        w.id == id,
        orderly(ts),
    ensures
        at(ts.update(k, w), id) == Some(k),
{
    let u = ts.update(k, w);
    at_found(u, id);
    at_found(ts, id);
    assert(u[k].id == id);
    let m = at(u, id)->Some_0;
    if m != k {
        assert(u[m] == ts[m]);
        if m < k {
            assert(ts[m].id != ts[k].id);
        } else {
            assert(ts[k].id != ts[m].id);
        }
    }
}

/// The pieces of a transfer add up: after they were accepted as much is
/// written as they are long together, never more than the file, and no other
/// transfer has moved.
pub proof fn pieces_add_up(ts: Seq<Way>, id: Seq<char>, lens: Seq<nat>)
    requires
        orderly(ts),
        id_of(id) is Some,
        at(ts, id_of(id)->Some_0) is Some,
        all_accepted(ts, id, lens),
    ensures
        ({
            let i = id_of(id)->Some_0;
            let k = at(ts, i)->Some_0;
            let g = grown_by(ts, id, lens);
            &&& orderly(g)
            &&& g.len() == ts.len()
            &&& at(g, i) == Some(k)
            &&& g[k].written == ts[k].written + total(lens)
            &&& g[k].written <= ts[k].size
            &&& g[k].size == ts[k].size && g[k].id == ts[k].id && g[k].same_file(ts[k])
            &&& forall|j: int| 0 <= j < ts.len() && j != k ==> #[trigger] g[j] == ts[j]
        }),
    decreases lens.len(),
{
    let i = id_of(id)->Some_0;
    at_found(ts, i);
    let k = at(ts, i)->Some_0;
    assert(ts[k].wf());
    if lens.len() > 0 {
        pieces_add_up(ts, id, lens.drop_last());
        let b = grown_by(ts, id, lens.drop_last());
        grown_is_orderly(b, id, lens.last());
        at_found(b, i);
        assert(b[k].wf());
        at_after_growth(
            b,
            k,
            Way { written: (b[k].written + lens.last()) as u64, ..b[k] },
            i,
        );
        assert(grown_by(ts, id, lens) == grown(b, id, lens.last()));
    }
}

pub open spec fn lengths(pieces: Seq<Seq<u8>>) -> Seq<nat> {
    Seq::new(pieces.len(), |i: int| pieces[i].len())
}

proof fn lengths_together(pieces: Seq<Seq<u8>>)
    ensures
        total(lengths(pieces)) == pieces.flatten().len(),
    decreases pieces.len(),
{
    if pieces.len() > 0 {
        let d = pieces.drop_last();
        lengths_together(d);
        assert(lengths(pieces).drop_last() =~= lengths(d));
        pieces.lemma_flatten_and_flatten_alt_are_equivalent();
        d.lemma_flatten_and_flatten_alt_are_equivalent();
    }
}

proof fn pieces_fit(ts: Seq<Way>, id: Seq<char>, lens: Seq<nat>)
    requires
        orderly(ts),
        id_of(id) is Some,
        at(ts, id_of(id)->Some_0) is Some,
        forall|i: int| 0 <= i < lens.len() ==> 0 < #[trigger] lens[i] <= 2 * MAX_CHUNK,
        ({
            let w = ts[at(ts, id_of(id)->Some_0)->Some_0];
            w.written + total(lens) <= w.size
        }),
    ensures
        all_accepted(ts, id, lens),
    decreases lens.len(),
{
    if lens.len() > 0 {
        let d = lens.drop_last();
        assert forall|i: int| 0 <= i < d.len() implies 0 < #[trigger] d[i] <= 2 * MAX_CHUNK by {
            assert(d[i] == lens[i]);
        }
        pieces_fit(ts, id, d);
        pieces_add_up(ts, id, d);
        assert(0 < lens[lens.len() - 1] <= 2 * MAX_CHUNK);
    }
}

/// The bytes of a part file that a transfer goes on from.
pub open spec fn kept_part(there: Option<Seq<u8>>, size: u64) -> Seq<u8> {
    match there {
        Some(b) => if b.len() < size && b.len() <= MAX_FILE {
            b
        } else {
            Seq::empty()
        },
        None => Seq::empty(),
    }
}

pub open spec fn part_len(there: Option<Seq<u8>>) -> Option<u64> {
    match there {
        Some(b) => Some(b.len() as u64),
        None => None,
    }
}

/// A whole transfer: it is begun over what is there of the file, pieces of it
/// are sent that do not exceed its size, each is appended to what is there,
/// and the transfer is ended. Every piece is accepted. The file stands under
/// its name, in its folder, exactly where all of it was sent; otherwise it is
/// incomplete, and a transfer of the file that is begun later goes on at the
/// first byte that is missing.
pub proof fn transfer_runs_through(
    ts: Seq<Way>,
    id: Seq<char>,
    name: Seq<char>,
    size: u64,
    root: Seq<char>,
    rel: Seq<char>,
    there: Option<Seq<u8>>,
    pieces: Seq<Seq<u8>>,
)
    requires
        orderly(ts),
        requested(id, name, size, root, rel) is Ok,
        there matches Some(b) ==> b.len() <= u64::MAX,
        !crowded(
            ts,
            Way {
                written: resumed(part_len(there), size),
                ..requested(id, name, size, root, rel)->Ok_0
            },
        ),
        forall|i: int| 0 <= i < pieces.len() ==> 0 < (#[trigger] pieces[i]).len() <= 2 * MAX_CHUNK,
        kept_part(there, size).len() + pieces.flatten().len() <= size,
    ensures
        ({
            let w = Way {
                written: resumed(part_len(there), size),
                ..requested(id, name, size, root, rel)->Ok_0
            };
            let begun_ts = begun(ts, w);
            let done = grown_by(begun_ts, id, lengths(pieces));
            let on_disk = kept_part(there, size) + pieces.flatten();
            &&& w.written == kept_part(there, size).len()
            &&& all_accepted(begun_ts, id, lengths(pieces))
            &&& at(done, w.id) matches Some(k)
            &&& done[k].root == w.root && done[k].rel == w.rel
            &&& outcome(done[k], on_disk.len()) == if on_disk.len() == size {
                Ok(EntryFacts { name: w.name, size, dir: false })
            } else {
                Err("incomplete file"@)
            }
            &&& on_disk.len() < size ==> resumed(Some(on_disk.len() as u64), size) == on_disk.len()
        }),
{
    let w = Way {
        written: resumed(part_len(there), size),
        ..requested(id, name, size, root, rel)->Ok_0
    };
    let b = begun(ts, w);
    let lens = lengths(pieces);
    begun_is_orderly(ts, w);
    at_found(b, w.id);
    cleared_orderly(ts, w);
    let c = cleared(ts, w);
    at_found(c, w.id);
    let k = at(b, w.id)->Some_0;
    assert(b[k] == w) by {
        match at(c, w.id) {
            Some(i) => {
                assert(b[i] == w);
                if i != k {
                    assert(b[k] == c[k]);
                }
            },
            None => {
                if k < c.len() {
                    assert(b[k] == c[k]);
                }
            },
        }
    }
    lengths_together(pieces);
    assert forall|i: int| 0 <= i < lens.len() implies 0 < #[trigger] lens[i] <= 2 * MAX_CHUNK by {
        assert(lens[i] == pieces[i].len());
    }
    assert(id_of(id) == Some(w.id));
    pieces_fit(b, id, lens);
    pieces_add_up(b, id, lens);
}

/// The pieces of a file, sent from where the part file ends, make the part
/// file the file.
pub proof fn part_becomes_the_file(file: Seq<u8>, there: Option<Seq<u8>>, pieces: Seq<Seq<u8>>)
    requires
        0 < file.len() <= MAX_FILE,
        kept_part(there, file.len() as u64).is_prefix_of(file),
        pieces.flatten() == file.skip(kept_part(there, file.len() as u64).len() as int),
    ensures
        kept_part(there, file.len() as u64) + pieces.flatten() == file,
{
    assert(kept_part(there, file.len() as u64) + pieces.flatten() =~= file);
}

/// A transfer may begin under an id, a name, a folder and a path that pass, for
/// a file of one byte to two gibibytes; otherwise it is told what is wrong.
pub proof fn transfers_that_may_begin(
    id: Seq<char>,
    name: Seq<char>,
    size: u64,
    root: Seq<char>,
    rel: Seq<char>,
)
    ensures
        ({
            let r = requested(id, name, size, root, rel);
            let named = id_of(id) is Some && name_of(name) is Some && folder_name(root) is Some
                && path_of(rel) is Some;
            &&& named && 1 <= size <= 2_147_483_648 ==> r == Ok::<Way, Seq<char>>(
                Way {
                    id: id_of(id)->Some_0,
                    name: name_of(name)->Some_0,
                    root: folder_name(root)->Some_0,
                    rel: path_of(rel)->Some_0,
                    written: 0,
                    size,
                },
            )
            &&& named && (size == 0 || size > 2_147_483_648) ==> r == Err::<Way, Seq<char>>(
                "invalid file size"@,
            )
            &&& id_of(id) is None ==> r == Err::<Way, Seq<char>>("invalid transfer id"@)
            &&& id_of(id) is Some && name_of(name) is None ==> r == Err::<Way, Seq<char>>(
                "invalid file name"@,
            )
            &&& !named ==> r is Err
        }),
{
}

/// A transfer goes on from what is there of it, unless that is as long as the
/// file or longer.
pub proof fn transfers_go_on(n: u64, size: u64)
    requires
        size <= 2_147_483_648,
    ensures
        n < size ==> resumed(Some(n), size) == n,
        n >= size ==> resumed(Some(n), size) == 0,
        resumed(None, size) == 0,
{
}

/// A new transfer of a file ends another one of the same file, and no other;
/// each id has one transfer, the newest.
pub proof fn newest_transfer_counts(ts: Seq<Way>, t: Way, w: Way)
    ensures
        t.id != w.id && t.name == w.name && t.root == w.root && t.rel == w.rel ==> cleared(
            ts.push(t),
            w,
        ) == cleared(ts, w),
        t.id == w.id || t.name != w.name || t.root != w.root || t.rel != w.rel ==> cleared(
            ts.push(t),
            w,
        ) == cleared(ts, w).push(t),
        at(with_way(ts, w), w.id) matches Some(k) && 0 <= k < with_way(ts, w).len() && with_way(
            ts,
            w,
        )[k] == w,
        at(ts, w.id) is None ==> with_way(ts, w) == ts.push(w),
        at(ts, w.id) is Some ==> with_way(ts, w).len() == ts.len(),
{
    assert(ts.push(t).drop_last() =~= ts);
    at_found(ts, w.id);
    let r = with_way(ts, w);
    match at(ts, w.id) {
        Some(k) => {
            assert(r[k] == w);
            at_is_last_of(ts, w.id, k);
            at_last(r, w.id, k);
        },
        None => {
            assert(r.last() == w);
        },
    }
}

proof fn at_is_last_of(ts: Seq<Way>, id: Seq<char>, k: int)
    requires
        at(ts, id) == Some(k),
    ensures
        0 <= k < ts.len(),
        forall|j: int| k < j < ts.len() ==> (#[trigger] ts[j]).id != id,
    decreases ts.len(),
{
    if ts.len() > 0 && ts.last().id != id {
        let d = ts.drop_last();
        at_is_last_of(d, id, k);
        assert forall|j: int| k < j < ts.len() implies (#[trigger] ts[j]).id != id by {
            if j < d.len() {
                assert(d[j] == ts[j]);
            } else {
                assert(ts[j] == ts.last());
            }
        }
    }
}

proof fn at_last(ts: Seq<Way>, id: Seq<char>, k: int)
    requires
        0 <= k < ts.len(),
        ts[k].id == id,
        forall|j: int| k < j < ts.len() ==> (#[trigger] ts[j]).id != id,
    ensures
        at(ts, id) == Some(k),
    decreases ts.len(),
{
    if k < ts.len() - 1 {
        let d = ts.drop_last();
        assert(ts.last() == ts[ts.len() - 1]);
        assert forall|j: int| k < j < d.len() implies (#[trigger] d[j]).id != id by {
            assert(d[j] == ts[j]);
        }
        at_last(d, id, k);
    }
}

/// Four transfers may run; a fifth is turned away.
pub proof fn a_fifth_transfer_is_turned_away(ts: Seq<Way>, w: Way)
    requires
        at(cleared(ts, w), w.id) is None,
    ensures
        crowded(ts, w) <==> cleared(ts, w).len() >= 4,
        cleared(ts, w).len() >= 4 ==> begun(ts, w) == cleared(ts, w),
        cleared(ts, w).len() < 4 ==> begun(ts, w) == cleared(ts, w).push(w),
{
}

/// A piece has one byte to 48 KiB, belongs to a transfer that runs, and does not
/// go past the end of its file.
pub proof fn pieces_that_are_taken(ts: Seq<Way>, id: Seq<char>, k: int, len: nat)
    requires
        id_of(id) is Some,
        at(ts, id_of(id)->Some_0) == Some(k),
    ensures
        refused_piece(ts, id, len) is None <==> 1 <= len <= 49_152 && ts[k].written + len
            <= ts[k].size,
        len == 0 || len > 49_152 ==> refused_piece(ts, id, len) == Some("invalid chunk"@),
        1 <= len <= 49_152 && ts[k].written + len > ts[k].size ==> refused_piece(ts, id, len)
            == Some("file too large"@),
        1 <= len <= 49_152 ==> refused_piece(Seq::empty(), id, len) == Some("unknown transfer"@),
{
}

/// A file that is removed ends its transfers, and no others.
pub proof fn removed_files_end_their_transfers(ts: Seq<Way>, t: Way, name: Seq<char>)
    ensures
        t.name == name ==> without_name(ts.push(t), name) == without_name(ts, name),
        t.name != name ==> without_name(ts.push(t), name) == without_name(ts, name).push(t),
        without_name(Seq::empty(), name) == Seq::<Way>::empty(),
{
    assert(ts.push(t).drop_last() =~= ts);
}

/// A transfer is done where all its bytes came and all are there.
pub proof fn transfers_are_done_when_whole(w: Way, on_disk: nat)
    ensures
        outcome(w, on_disk) is Ok <==> w.written == w.size && on_disk == w.size,
        outcome(w, on_disk) matches Ok(e) ==> e.name == w.name && e.size == w.size && !e.dir,
        outcome(w, on_disk) matches Err(e) ==> e == "incomplete file"@,
{
}

} // verus!
