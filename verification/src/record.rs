//! Record the live fMP4 while a remote session is driving.

use crate::files::{entries_of, EntryFacts, FileEntry};
use crate::names::{name_of, sanitize_name};
use crate::protocol::{TYPE_FRAG, TYPE_INIT};
use crate::text::{
    append, comes_before, concat2, decimal, decimal_text, ends, ends_with, precedes,
    precedes_chain, precedes_total, push_text, texts,
};
use vstd::prelude::*;

verus! {

/// A moment in UTC, in seconds since 1970, as `YYYYmmdd-HHMMSS`.
pub uninterp spec fn stamp_of(secs: i64) -> Option<Seq<char>>;

/// `chrono::DateTime::from_timestamp` with `format`: the date and time of a
/// moment in UTC, nothing where the calendar does not reach it.
#[verifier::external_body]
fn utc_stamp(secs: i64) -> (r: Option<String>)
    ensures
        match r {
            Some(s) => stamp_of(secs) == Some(s@),
            None => stamp_of(secs) is None,
        },
{
    chrono::DateTime::from_timestamp(secs, 0).map(|t| t.format("%Y%m%d-%H%M%S").to_string())
}

/// The name of a recording without its ending.
pub open spec fn stem_at(stamp: Option<Seq<char>>) -> Seq<char> {
    match stamp {
        Some(s) => "session-"@ + s,
        None => "session-"@,
    }
}

/// The name of a recording that begins now, without its ending.
pub fn recording_stem(secs: i64) -> (s: String)
    ensures
        s@ == stem_at(stamp_of(secs)),
{
    match utc_stamp(secs) {
        Some(s) => concat2("session-", s.as_str()),
        None => "session-".to_owned(),
    }
}

/// The names to try for a recording: the plain one, then with a number.
pub open spec fn recording_name(stem: Seq<char>, i: nat) -> Seq<char> {
    if i == 0 {
        stem + ".mp4"@
    } else {
        stem + "-"@ + decimal(i + 1) + ".mp4"@
    }
}

pub open spec fn names_tried(stem: Seq<char>) -> Seq<Seq<char>> {
    Seq::new(99, |i: int| recording_name(stem, i as nat))
}

pub fn recording_names(stem: &str) -> (out: Vec<String>)
    ensures
        texts(out@) == names_tried(stem@),
{
    let mut out: Vec<String> = Vec::new();
    let mut i: u64 = 0;
    assert(texts(out@) =~= names_tried(stem@).take(0));
    while i < 99
        invariant
            i <= 99,
            texts(out@) == names_tried(stem@).take(i as int),
        decreases 99 - i,
    {
        let mut s = stem.to_owned();
        if i > 0 {
            append(&mut s, "-");
            append(&mut s, decimal_text(i + 1).as_str());
        }
        append(&mut s, ".mp4");
        push_text(&mut out, s.as_str());
        assert(names_tried(stem@).take(i + 1) =~= names_tried(stem@).take(i as int).push(
            recording_name(stem@, i as nat),
        ));
        i += 1;
    }
    assert(names_tried(stem@).take(99) =~= names_tried(stem@));
    out
}

/// Which of the names to use, from which of them exist already: the first that
/// does not, and the last where all before it do.
pub fn uniquify(taken: &Vec<bool>) -> (r: usize)
    requires
        taken@.len() == 99,
    ensures
        r < 99,
        forall|k: int| 0 <= k < r ==> taken@[k],
        r < 98 ==> !taken@[r as int],
{
    let mut i: usize = 0;
    while i < 98
        invariant
            i <= 98,
            taken@.len() == 99,
            forall|k: int| 0 <= k < i ==> taken@[k],
        decreases 98 - i,
    {
        if !taken[i] {
            return i;
        }
        i += 1;
    }
    98
}

/// The recording that is being made, if one is.
pub struct Recorder {
    active: Option<String>,
}

impl View for Recorder {
    type V = Option<Seq<char>>;

    closed spec fn view(&self) -> Option<Seq<char>> {
        crate::text::opt_text(self.active)
    }
}

impl Recorder {
    pub fn new() -> (r: Self)
        ensures
            r@ is None,
    {
        Recorder { active: None }
    }

    pub fn is_active(&self) -> (r: bool)
        ensures
            r == (self@ is Some),
    {
        self.active.is_some()
    }

    pub fn active_name(&self) -> (r: Option<String>)
        ensures
            crate::text::opt_text(r) == self@,
    {
        match &self.active {
            Some(n) => Some(n.clone()),
            None => None,
        }
    }

    /// A recording of that name was begun. One that is under way goes on
    /// instead, under its own name.
    pub fn start(&mut self, name: String) -> (r: String)
        ensures
            match old(self)@ {
                Some(n) => r@ == n && final(self)@ == old(self)@,
                None => r@ == name@ && final(self)@ == Some(name@),
            },
    {
        match &self.active {
            Some(n) => n.clone(),
            None => {
                let shown = name.clone();
                self.active = Some(name);
                shown
            },
        }
    }

    /// Whether a unit is written down: video only, while a recording is made.
    pub fn write_unit(&self, kind: u8, len: usize) -> (r: bool)
        ensures
            r == (self@ is Some && (kind == TYPE_INIT || kind == TYPE_FRAG) && len > 0),
    {
        self.active.is_some() && (kind == TYPE_INIT || kind == TYPE_FRAG) && len > 0
    }

    pub fn stop(&mut self) -> (r: Option<String>)
        ensures
            crate::text::opt_text(r) == old(self)@,
            final(self)@ is None,
    {
        let mut out: Option<String> = None;
        std::mem::swap(&mut out, &mut self.active);
        out
    }
}

/// Whether a name is that of a recording.
pub open spec fn is_recording(name: Seq<char>) -> bool {
    name_of(name) is Some && ends(name, ".mp4"@)
}

pub open spec fn recordings(raw: Seq<EntryFacts>) -> Seq<EntryFacts>
    decreases raw.len(),
{
    if raw.len() == 0 {
        Seq::empty()
    } else if is_recording(raw.last().name) {
        recordings(raw.drop_last()).push(EntryFacts { dir: false, ..raw.last() })
    } else {
        recordings(raw.drop_last())
    }
}

/// The newest name comes first.
pub open spec fn newest_first(v: Seq<EntryFacts>) -> bool {
    forall|i: int, j: int|
        0 <= i < j < v.len() ==> !precedes((#[trigger] v[i]).name, (#[trigger] v[j]).name)
}

proof fn not_before_chain(a: Seq<char>, b: Seq<char>, c: Seq<char>)
    requires
        !precedes(a, b),
        !precedes(b, c),
    ensures
        !precedes(a, c),
{
    precedes_total(a, b);
    precedes_total(b, c);
    if precedes(a, c) {
        if precedes(b, a) {
            precedes_chain(b, a, c);
        }
    }
}

fn insert_newest(v: &mut Vec<FileEntry>, e: FileEntry)
    requires
        newest_first(entries_of(old(v)@)),
    ensures
        newest_first(entries_of(final(v)@)),
        entries_of(final(v)@).to_multiset() == entries_of(old(v)@).to_multiset().insert(e@),
        final(v)@.len() == old(v)@.len() + 1,
{
    broadcast use vstd::seq_lib::group_to_multiset_ensures;

    let ghost s = entries_of(v@);
    let ghost x = e@;
    let mut i: usize = v.len();
    while i > 0 && comes_before(v[i - 1].name.as_str(), e.name.as_str())
        invariant
            i <= v@.len() == s.len(),
            s == entries_of(v@),
            x == e@,
            newest_first(s),
            forall|k: int| i <= k < s.len() ==> precedes((#[trigger] s[k]).name, x.name),
        decreases i,
    {
        assert(s[i - 1] == v@[i - 1]@);
        i -= 1;
    }
    proof {
        if i > 0 {
            assert(s[i - 1] == v@[i - 1]@);
            assert forall|k: int| 0 <= k < i implies !precedes((#[trigger] s[k]).name, x.name) by {
                if k < i - 1 {
                    not_before_chain(s[k].name, s[i - 1].name, x.name);
                }
            }
        }
        assert forall|k: int| i <= k < s.len() implies !precedes(x.name, (#[trigger] s[k]).name) by {
            precedes_total(s[k].name, x.name);
        }
    }
    v.insert(i, e);
    proof {
        let t = entries_of(v@);
        assert(t =~= s.insert(i as int, x));
        assert forall|a: int, b: int| 0 <= a < b < t.len() implies !precedes(
            (#[trigger] t[a]).name,
            (#[trigger] t[b]).name,
        ) by {
            if a == i {
                assert(t[b] == s[b - 1]);
            } else if b == i {
                assert(t[a] == s[a]);
            } else {
                let p = if a < i {
                    a
                } else {
                    a - 1
                };
                let q = if b < i {
                    b
                } else {
                    b - 1
                };
                assert(t[a] == s[p]);
                assert(t[b] == s[q]);
            }
        }
    }
}

/// The recordings among the entries of a folder.
pub fn list(raw: &Vec<FileEntry>) -> (out: Vec<FileEntry>)
    ensures
        newest_first(entries_of(out@)),
        entries_of(out@).to_multiset() == recordings(entries_of(raw@)).to_multiset(),
        out@.len() == recordings(entries_of(raw@)).len(),
{
    broadcast use vstd::seq_lib::group_to_multiset_ensures;

    let ghost all = entries_of(raw@);
    let mut out: Vec<FileEntry> = Vec::new();
    let mut i: usize = 0;
    assert(entries_of(out@) =~= recordings(all.take(0)));
    while i < raw.len()
        invariant
            i <= raw@.len(),
            all == entries_of(raw@),
            newest_first(entries_of(out@)),
            entries_of(out@).to_multiset() == recordings(all.take(i as int)).to_multiset(),
            out@.len() == recordings(all.take(i as int)).len(),
        decreases raw@.len() - i,
    {
        broadcast use vstd::seq_lib::group_to_multiset_ensures;

        let ghost before = recordings(all.take(i as int));
        proof {
            assert(all.take(i + 1).drop_last() =~= all.take(i as int));
            assert(all.take(i + 1).last() == raw@[i as int]@);
        }
        if sanitize_name(raw[i].name.as_str()).is_some() && ends_with(
            raw[i].name.as_str(),
            ".mp4",
        ) {
            let e = FileEntry::file(raw[i].name.clone(), raw[i].size);
            proof {
                assert(before.push(e@).to_multiset() =~= before.to_multiset().insert(e@));
            }
            insert_newest(&mut out, e);
        }
        i += 1;
    }
    assert(all.take(all.len() as int) =~= all);
    out
}

/// The name of a recording that may be read, or why it may not.
pub fn readable_name(name: &str) -> (r: Result<String, String>)
    ensures
        match r {
            Ok(n) => name_of(name@) == Some(n@) && ends(name@, ".mp4"@),
            Err(e) => if name_of(name@) is None {
                e@ == "invalid file name"@
            } else {
                !ends(name@, ".mp4"@) && e@ == "file not found"@
            },
        },
{
    match sanitize_name(name) {
        None => Err("invalid file name".to_owned()),
        Some(n) => if ends_with(name, ".mp4") {
            Ok(n)
        } else {
            Err("file not found".to_owned())
        },
    }
}

/// The names that are tried: first the stem itself, then the stem with a number,
/// from two on; no two are alike, and all are of MP4 files.
pub proof fn names_tried_differ(stem: Seq<char>, i: int, j: int)
    requires
        0 <= i < j < 99,
    ensures
        names_tried(stem).len() == 99,
        names_tried(stem)[0] == stem + ".mp4"@,
        names_tried(stem)[j] == stem + "-"@ + decimal((j + 1) as nat) + ".mp4"@,
        names_tried(stem)[i] != names_tried(stem)[j],
        ends(names_tried(stem)[i], ".mp4"@),
        ends(names_tried(stem)[j], ".mp4"@),
{
    let a = names_tried(stem)[i];
    let b = names_tried(stem)[j];
    crate::text::decimal_reads_back((i + 1) as nat);
    crate::text::decimal_reads_back((j + 1) as nat);
    reveal_strlit(".mp4");
    reveal_strlit("-");
    let n = stem.len() as int;
    let fa = if i == 0 {
        stem
    } else {
        stem + "-"@ + decimal((i + 1) as nat)
    };
    let fb = stem + "-"@ + decimal((j + 1) as nat);
    assert(a =~= fa + ".mp4"@);
    assert(b =~= fb + ".mp4"@);
    crate::text::joined_text_begins_and_ends(fa, ".mp4"@);
    crate::text::joined_text_begins_and_ends(fb, ".mp4"@);
    assert(b[n] == '-');
    if i == 0 {
        assert(a[n] == '.');
    } else {
        assert(a.subrange(n + 1, a.len() - 4) =~= decimal((i + 1) as nat));
        assert(b.subrange(n + 1, b.len() - 4) =~= decimal((j + 1) as nat));
    }
}

/// A recording is named after the moment at which it began.
pub proof fn stem_tells_the_moment(stamp: Seq<char>)
    ensures
        stem_at(Some(stamp)) == "session-"@ + stamp,
        stem_at(None) == "session-"@,
{
}

/// The recordings are the MP4 files under plain names, each as a file, and
/// nothing else.
pub proof fn recordings_are_mp4_files(raw: Seq<EntryFacts>, e: EntryFacts)
    ensures
        name_of(e.name) is Some && ends(e.name, ".mp4"@) ==> recordings(raw.push(e)) == recordings(
            raw,
        ).push(EntryFacts { dir: false, ..e }),
        name_of(e.name) is None || !ends(e.name, ".mp4"@) ==> recordings(raw.push(e)) == recordings(
            raw,
        ),
        recordings(Seq::empty()) == Seq::<EntryFacts>::empty(),
{
    assert(raw.push(e).drop_last() =~= raw);
}

/// In a list with the newest first no name stands before a later one, however
/// the list is cut.
pub proof fn newest_names_come_first(v: Seq<EntryFacts>, a: EntryFacts, b: EntryFacts)
    ensures
        newest_first(seq![a, b]) <==> !precedes(a.name, b.name),
        newest_first(seq![a]),
        newest_first(v.push(a).push(b)) ==> newest_first(v.push(a)) && !precedes(a.name, b.name),
{
    let two = seq![a, b];
    assert(two[0] == a && two[1] == b);
    let one = v.push(a);
    let all = one.push(b);
    if newest_first(all) {
        assert(all[v.len() as int] == a && all[v.len() + 1int] == b);
        assert forall|i: int, j: int| 0 <= i < j < one.len() implies !precedes(
            (#[trigger] one[i]).name,
            (#[trigger] one[j]).name,
        ) by {
            assert(all[i] == one[i] && all[j] == one[j]);
        }
    }
}

} // verus!
