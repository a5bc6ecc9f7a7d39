//! Host inbox file transfer. Names are sanitized into a dedicated directory.

use crate::b64::{base64_bytes, base64_of};
use crate::json::{
    array, array_text, items_stand_in_brackets, object, object_shows, object_text, or, pairs, quote,
    quoted, tells, text_or, truth, truth_text, Json, Tree,
};
use crate::names::{folder_name, name_of, normalize_root, path_of};
use crate::text::{
    comes_before, concat2, decimal, decimal_text, ends, ends_with, has_part, lower, part_of_part,
    precedes, precedes_chain, precedes_total, push_text, same, texts, trimmed,
};
use vstd::prelude::*;

pub use crate::b64::{decode_b64, encode_b64};
pub use crate::names::{
    numbered_name, sanitize_id, sanitize_name, sanitize_rel, unique_dest, Dest, MAX_NAME,
};
pub use crate::transfer::{begin_check, finished, Inbox, Transfer};

verus! {

/// The largest file, in bytes.
pub const MAX_FILE: u64 = 2_147_483_648;

/// The largest file that one request may hold.
pub const HTTP_PUT_MAX: u64 = 8_388_608;

/// The bytes of a file that one message carries.
pub const MAX_CHUNK: usize = 24_576;

/// How many transfers may be under way.
pub const MAX_TRANSFERS: usize = 4;

/// How many entries a listing holds.
pub const MAX_LISTED: usize = 400;

#[derive(Debug, PartialEq)]
pub struct FileEntry {
    pub name: String,
    pub size: u64,
    pub dir: bool,
}

#[verifier::ext_equal]
pub ghost struct EntryFacts {
    pub name: Seq<char>,
    pub size: u64,
    pub dir: bool,
}

impl View for FileEntry {
    type V = EntryFacts;

    open spec fn view(&self) -> EntryFacts {
        EntryFacts { name: self.name@, size: self.size, dir: self.dir }
    }
}

pub open spec fn entry_text(e: EntryFacts) -> Seq<char> {
    object_text(
        seq![
            ("dir"@, truth_text(e.dir)),
            ("name"@, quoted(e.name)),
            ("size"@, decimal(e.size as nat)),
        ],
    )
}

impl FileEntry {
    pub fn file(name: String, size: u64) -> (e: Self)
        ensures
            e@ == (EntryFacts { name: name@, size, dir: false }),
    {
        FileEntry { name, size, dir: false }
    }

    pub fn copy(&self) -> (e: FileEntry)
        ensures
            e@ == self@,
    {
        FileEntry { name: self.name.clone(), size: self.size, dir: self.dir }
    }

    pub fn to_json(&self) -> (s: String)
        ensures
            s@ == entry_text(self@),
    {
        let v: Vec<(&str, String)> = vec![
            ("dir", truth(self.dir)),
            ("name", quote(self.name.as_str())),
            ("size", decimal_text(self.size)),
        ];
        assert(pairs(v@) =~= seq![
            ("dir"@, truth_text(self@.dir)),
            ("name"@, quoted(self@.name)),
            ("size"@, decimal(self@.size as nat)),
        ]);
        object(&v)
    }
}

pub open spec fn entries_of(v: Seq<FileEntry>) -> Seq<EntryFacts> {
    Seq::new(v.len(), |i: int| v[i]@)
}

/// A folder that files may be in.
#[derive(Clone, Copy, Debug, PartialEq, Eq, Structural)]
pub enum Folder {
    Inbox,
    Home,
    Desktop,
    Documents,
    Downloads,
}

pub open spec fn folder_of(root: Seq<char>) -> Option<Folder> {
    match folder_name(root) {
        None => None,
        Some(f) => if f == "inbox"@ {
            Some(Folder::Inbox)
        } else if f == "home"@ {
            Some(Folder::Home)
        } else if f == "desktop"@ {
            Some(Folder::Desktop)
        } else if f == "documents"@ {
            Some(Folder::Documents)
        } else {
            Some(Folder::Downloads)
        },
    }
}

/// The folder that a name means, or why there is none. All but the inbox are
/// below the home directory.
pub fn root_dir(root: &str, has_home: bool) -> (r: Result<Folder, String>)
    ensures
        match folder_of(root@) {
            None => r matches Err(e) && e@ == "unknown folder"@,
            Some(f) => if f == Folder::Inbox || has_home {
                r == Ok::<Folder, String>(f)
            } else {
                r matches Err(e) && e@ == "no home directory"@
            },
        },
{
    match normalize_root(root) {
        None => Err("unknown folder".to_owned()),
        Some(f) => {
            if same(f, "inbox") {
                return Ok(Folder::Inbox);
            }
            if !has_home {
                return Err("no home directory".to_owned());
            }
            if same(f, "home") {
                Ok(Folder::Home)
            } else if same(f, "desktop") {
                Ok(Folder::Desktop)
            } else if same(f, "documents") {
                Ok(Folder::Documents)
            } else {
                Ok(Folder::Downloads)
            }
        },
    }
}

/// A place in a folder: the path below it, and the name, which may be empty.
#[derive(Debug)]
pub struct Spot {
    pub folder: Folder,
    pub rel: String,
    pub name: String,
}

#[verifier::ext_equal]
pub ghost struct Place {
    pub folder: Folder,
    pub rel: Seq<char>,
    pub name: Seq<char>,
}

impl View for Spot {
    type V = Place;

    open spec fn view(&self) -> Place {
        Place { folder: self.folder, rel: self.rel@, name: self.name@ }
    }
}

/// The place that a request names, or why there is none. In a folder that does
/// not exist there is nothing but the folder.
pub open spec fn place_of(
    root: Seq<char>,
    rel: Seq<char>,
    name: Seq<char>,
    has_home: bool,
    base_exists: bool,
) -> Result<Place, Seq<char>> {
    match folder_of(root) {
        None => Err("unknown folder"@),
        Some(f) => if f != Folder::Inbox && !has_home {
            Err("no home directory"@)
        } else {
            match path_of(rel) {
                None => Err("invalid path"@),
                Some(p) => if !base_exists {
                    if p.len() == 0 && name.len() == 0 {
                        Ok(Place { folder: f, rel: p, name: Seq::empty() })
                    } else {
                        Err("file not found"@)
                    }
                } else if name.len() == 0 {
                    Ok(Place { folder: f, rel: p, name: Seq::empty() })
                } else {
                    match name_of(name) {
                        None => Err("invalid file name"@),
                        Some(n) => Ok(Place { folder: f, rel: p, name: n }),
                    }
                },
            }
        },
    }
}

/// Where a request leads to. `base_exists` says whether the folder is there.
pub fn join_under(root: &str, rel: &str, name: &str, has_home: bool, base_exists: bool) -> (r:
    Result<Spot, String>)
    ensures
        match (place_of(root@, rel@, name@, has_home, base_exists), r) {
            (Ok(p), Ok(s)) => s@ == p,
            (Err(t), Err(e)) => e@ == t,
            _ => false,
        },
{
    let folder = match root_dir(root, has_home) {
        Ok(f) => f,
        Err(e) => {
            return Err(e);
        },
    };
    let path = match sanitize_rel(rel) {
        Some(p) => p,
        None => {
            return Err("invalid path".to_owned());
        },
    };
    let bare = name.is_empty();
    if !base_exists {
        if path.as_str().is_empty() && bare {
            return Ok(Spot { folder, rel: path, name: String::new() });
        }
        return Err("file not found".to_owned());
    }
    if bare {
        return Ok(Spot { folder, rel: path, name: String::new() });
    }
    match sanitize_name(name) {
        Some(n) => Ok(Spot { folder, rel: path, name: n }),
        None => Err("invalid file name".to_owned()),
    }
}

/// Whether a path, given by its steps, lies in a folder.
pub open spec fn inside(root: Seq<Seq<char>>, path: Seq<Seq<char>>) -> bool {
    root.len() <= path.len() && path.take(root.len() as int) == root
}

pub fn is_inside(root: &Vec<String>, path: &Vec<String>) -> (r: bool)
    ensures
        r == inside(texts(root@), texts(path@)),
{
    if root.len() > path.len() {
        return false;
    }
    let mut i: usize = 0;
    while i < root.len()
        invariant
            i <= root@.len() <= path@.len(),
            forall|k: int| 0 <= k < i ==> texts(path@)[k] == texts(root@)[k],
        decreases root@.len() - i,
    {
        if !same(root[i].as_str(), path[i].as_str()) {
            assert(texts(path@).take(root@.len() as int)[i as int] != texts(root@)[i as int]);
            return false;
        }
        i += 1;
    }
    assert(texts(path@).take(root@.len() as int) =~= texts(root@));
    true
}

/// What was found where a request leads to, links followed.
#[derive(Debug)]
pub struct Found {
    /// Something is there.
    pub exists: bool,
    /// There is a folder above it, and whether that exists.
    pub parent: Option<bool>,
    /// The steps of the path: its own if it exists, else those of the folder
    /// above and the name.
    pub steps: Option<Vec<String>>,
}

pub open spec fn opt_texts(v: Option<Vec<String>>) -> Option<Seq<Seq<char>>> {
    match v {
        Some(s) => Some(texts(s@)),
        None => None,
    }
}

/// Whether a request may go where it leads: links do not lead out of the folder.
pub open spec fn verdict(
    root: Seq<Seq<char>>,
    exists: bool,
    parent: Option<bool>,
    steps: Option<Seq<Seq<char>>>,
) -> Result<(), Seq<char>> {
    if !exists && parent is None {
        Err("invalid path"@)
    } else if !exists && parent == Some(false) {
        Err("file not found"@)
    } else {
        match steps {
            None => Err("invalid file name"@),
            Some(s) => if inside(root, s) {
                Ok(())
            } else {
                Err("invalid path"@)
            },
        }
    }
}

pub fn admitted(root: &Vec<String>, found: &Found) -> (r: Result<(), String>)
    ensures
        match (verdict(texts(root@), found.exists, found.parent, opt_texts(found.steps)), r) {
            (Ok(_), Ok(_)) => true,
            (Err(t), Err(e)) => e@ == t,
            _ => false,
        },
{
    if !found.exists {
        match found.parent {
            Some(true) => {},
            Some(false) => {
                return Err("file not found".to_owned());
            },
            None => {
                return Err("invalid path".to_owned());
            },
        }
    }
    match &found.steps {
        None => Err("invalid file name".to_owned()),
        Some(s) => if is_inside(root, s) {
            Ok(())
        } else {
            Err("invalid path".to_owned())
        },
    }
}

/// An entry of a folder as the disk has it: what it is, if that can be told.
#[derive(Debug)]
pub struct RawEntry {
    pub name: String,
    pub dir: bool,
    pub file: bool,
    pub size: Option<u64>,
}

/// The entry to show: clean names only, no part files, folders without a size.
pub open spec fn shown(name: Seq<char>, dir: bool, file: bool, size: Option<u64>) -> Option<
    EntryFacts,
> {
    if name_of(name) is None || ends(name, ".part"@) {
        None
    } else {
        match size {
            None => None,
            Some(n) => if dir {
                Some(EntryFacts { name, size: 0, dir: true })
            } else if file {
                Some(EntryFacts { name, size: n, dir: false })
            } else {
                None
            },
        }
    }
}

/// The entries to show among the first, up to the most that a listing holds.
pub open spec fn picked(raw: Seq<RawEntry>) -> Seq<EntryFacts>
    decreases raw.len(),
{
    if raw.len() == 0 {
        Seq::empty()
    } else {
        let before = picked(raw.drop_last());
        let e = raw.last();
        if before.len() >= MAX_LISTED {
            before
        } else {
            match shown(e.name@, e.dir, e.file, e.size) {
                Some(f) => before.push(f),
                None => before,
            }
        }
    }
}

/// Folders come first, then by name.
pub open spec fn entry_before(a: EntryFacts, b: EntryFacts) -> bool {
    if a.dir != b.dir {
        a.dir
    } else {
        precedes(a.name, b.name) || a.name == b.name
    }
}

pub open spec fn in_listing_order(v: Seq<EntryFacts>) -> bool {
    forall|i: int, j: int|
        0 <= i < j < v.len() ==> entry_before(#[trigger] v[i], #[trigger] v[j])
}

proof fn entry_before_total(a: EntryFacts, b: EntryFacts)
    ensures
        entry_before(a, b) || entry_before(b, a),
{
    precedes_total(a.name, b.name);
}

proof fn entry_before_chain(a: EntryFacts, b: EntryFacts, c: EntryFacts)
    requires
        entry_before(a, b),
        entry_before(b, c),
    ensures
        entry_before(a, c),
{
    if a.dir == b.dir && b.dir == c.dir && precedes(a.name, b.name) && precedes(b.name, c.name) {
        precedes_chain(a.name, b.name, c.name);
    }
}

fn goes_before(a: &FileEntry, b: &FileEntry) -> (r: bool)
    ensures
        r == entry_before(a@, b@),
{
    if a.dir != b.dir {
        a.dir
    } else {
        comes_before(a.name.as_str(), b.name.as_str()) || same(a.name.as_str(), b.name.as_str())
    }
}

fn insert_entry(v: &mut Vec<FileEntry>, e: FileEntry)
    requires
        in_listing_order(entries_of(old(v)@)),
    ensures
        in_listing_order(entries_of(final(v)@)),
        entries_of(final(v)@).to_multiset() == entries_of(old(v)@).to_multiset().insert(e@),
        final(v)@.len() == old(v)@.len() + 1,
{
    broadcast use vstd::seq_lib::group_to_multiset_ensures;

    let ghost s = entries_of(v@);
    let ghost x = e@;
    let mut i: usize = v.len();
    while i > 0 && !goes_before(&v[i - 1], &e)
        invariant
            i <= v@.len() == s.len(),
            s == entries_of(v@),
            x == e@,
            in_listing_order(s),
            forall|k: int| i <= k < s.len() ==> entry_before(x, #[trigger] s[k]),
        decreases i,
    {
        proof {
            entry_before_total(s[i - 1], x);
            assert(s[i - 1] == v@[i - 1]@);
        }
        i -= 1;
    }
    proof {
        if i > 0 {
            assert(s[i - 1] == v@[i - 1]@);
            assert forall|k: int| 0 <= k < i implies entry_before(#[trigger] s[k], x) by {
                if k < i - 1 {
                    entry_before_chain(s[k], s[i - 1], x);
                }
            }
        }
    }
    v.insert(i, e);
    proof {
        let t = entries_of(v@);
        assert(t =~= s.insert(i as int, x));
        assert forall|a: int, b: int| 0 <= a < b < t.len() implies entry_before(
            #[trigger] t[a],
            #[trigger] t[b],
        ) by {
            let p = if a < i {
                a
            } else {
                a - 1
            };
            let q = if b < i {
                b
            } else {
                b - 1
            };
            if a == i {
                assert(t[b] == s[b - 1]);
            } else if b == i {
                assert(t[a] == s[a]);
            } else {
                assert(t[a] == s[p]);
                assert(t[b] == s[q]);
            }
        }
    }
}

fn pick_entry(e: &RawEntry) -> (r: Option<FileEntry>)
    ensures
        match r {
            Some(f) => shown(e.name@, e.dir, e.file, e.size) == Some(f@),
            None => shown(e.name@, e.dir, e.file, e.size) is None,
        },
{
    if sanitize_name(e.name.as_str()).is_none() {
        return None;
    }
    if ends_with(e.name.as_str(), ".part") {
        return None;
    }
    match e.size {
        None => None,
        Some(n) => if e.dir {
            Some(FileEntry { name: e.name.clone(), size: 0, dir: true })
        } else if e.file {
            Some(FileEntry::file(e.name.clone(), n))
        } else {
            None
        },
    }
}

/// The listing of a folder, from the entries in the order in which the disk
/// gives them.
pub fn listing(raw: &Vec<RawEntry>) -> (out: Vec<FileEntry>)
    ensures
        in_listing_order(entries_of(out@)),
        entries_of(out@).to_multiset() == picked(raw@).to_multiset(),
        out@.len() == picked(raw@).len() <= MAX_LISTED,
{
    broadcast use vstd::seq_lib::group_to_multiset_ensures;

    let mut out: Vec<FileEntry> = Vec::new();
    let mut i: usize = 0;
    proof {
        assert(entries_of(out@) =~= picked(raw@.take(0)));
    }
    while i < raw.len()
        invariant
            i <= raw@.len(),
            in_listing_order(entries_of(out@)),
            entries_of(out@).to_multiset() == picked(raw@.take(i as int)).to_multiset(),
            out@.len() == picked(raw@.take(i as int)).len(),
            out@.len() <= MAX_LISTED,
        decreases raw@.len() - i,
    {
        broadcast use vstd::seq_lib::group_to_multiset_ensures;

        let ghost before = picked(raw@.take(i as int));
        proof {
            assert(raw@.take(i + 1).drop_last() =~= raw@.take(i as int));
            assert(raw@.take(i + 1).last() == raw@[i as int]);
        }
        if out.len() < MAX_LISTED {
            match pick_entry(&raw[i]) {
                Some(e) => {
                    proof {
                        assert(before.push(e@).to_multiset() =~= before.to_multiset().insert(e@));
                    }
                    insert_entry(&mut out, e);
                },
                None => {},
            }
        }
        i += 1;
    }
    assert(raw@.take(raw@.len() as int) =~= raw@);
    out
}

/// Nothing hidden and no unfinished file is ever listed.
pub proof fn listed_entries_are_clean(raw: Seq<RawEntry>)
    ensures
        forall|i: int|
            0 <= i < picked(raw).len() ==> name_of((#[trigger] picked(raw)[i]).name) is Some
                && !ends(picked(raw)[i].name, ".part"@),
    decreases raw.len(),
{
    if raw.len() > 0 {
        listed_entries_are_clean(raw.drop_last());
        let before = picked(raw.drop_last());
        assert forall|i: int| 0 <= i < picked(raw).len() implies name_of(
            (#[trigger] picked(raw)[i]).name,
        ) is Some && !ends(picked(raw)[i].name, ".part"@) by {
            if i < before.len() {
                assert(picked(raw)[i] == before[i]);
            }
        }
    }
}

/// What a message asks of the disk.
#[derive(Debug)]
pub enum FileRequest {
    List { root: String, rel: String },
    Put { root: String, rel: String, name: String, data: Vec<u8> },
    Begin { id: String, name: String, size: u64, root: String, rel: String },
    Chunk { id: String, data: Vec<u8> },
    End { id: String },
    Get { root: String, rel: String, name: String },
    Mkdir { root: String, rel: String, name: String },
    Delete { root: String, rel: String, name: String },
    /// Nothing: it is answered with an error.
    Refuse { error: String },
}

#[verifier::ext_equal]
pub ghost enum FileAsk {
    List { root: Seq<char>, rel: Seq<char> },
    Put { root: Seq<char>, rel: Seq<char>, name: Seq<char>, data: Seq<u8> },
    Begin { id: Seq<char>, name: Seq<char>, size: u64, root: Seq<char>, rel: Seq<char> },
    Chunk { id: Seq<char>, data: Seq<u8> },
    End { id: Seq<char> },
    Get { root: Seq<char>, rel: Seq<char>, name: Seq<char> },
    Mkdir { root: Seq<char>, rel: Seq<char>, name: Seq<char> },
    Delete { root: Seq<char>, rel: Seq<char>, name: Seq<char> },
    Refuse { error: Seq<char> },
}

impl View for FileRequest {
    type V = FileAsk;

    open spec fn view(&self) -> FileAsk {
        match self {
            FileRequest::List { root, rel } => FileAsk::List { root: root@, rel: rel@ },
            FileRequest::Put { root, rel, name, data } => FileAsk::Put {
                root: root@,
                rel: rel@,
                name: name@,
                data: data@,
            },
            FileRequest::Begin { id, name, size, root, rel } => FileAsk::Begin {
                id: id@,
                name: name@,
                size: *size,
                root: root@,
                rel: rel@,
            },
            FileRequest::Chunk { id, data } => FileAsk::Chunk { id: id@, data: data@ },
            FileRequest::End { id } => FileAsk::End { id: id@ },
            FileRequest::Get { root, rel, name } => FileAsk::Get {
                root: root@,
                rel: rel@,
                name: name@,
            },
            FileRequest::Mkdir { root, rel, name } => FileAsk::Mkdir {
                root: root@,
                rel: rel@,
                name: name@,
            },
            FileRequest::Delete { root, rel, name } => FileAsk::Delete {
                root: root@,
                rel: rel@,
                name: name@,
            },
            FileRequest::Refuse { error } => FileAsk::Refuse { error: error@ },
        }
    }
}

/// What a message asks of the disk. Files are in the inbox unless it says
/// otherwise.
pub open spec fn ask_of(v: Tree) -> FileAsk {
    let action = text_or(v.text_at("action"@), Seq::empty());
    let root = text_or(v.text_at("root"@), "inbox"@);
    let rel = text_or(v.text_at("path"@), Seq::empty());
    let name = text_or(v.text_at("name"@), Seq::empty());
    let id = text_or(v.text_at("id"@), Seq::empty());
    let data = base64_bytes(trimmed(text_or(v.text_at("data"@), Seq::empty())));
    if action == "list"@ {
        FileAsk::List { root, rel }
    } else if action == "put"@ {
        match data {
            Some(b) => FileAsk::Put { root, rel, name, data: b },
            None => FileAsk::Refuse { error: "invalid base64"@ },
        }
    } else if action == "begin"@ {
        FileAsk::Begin { id, name, size: or(v.whole_at("size"@), 0), root, rel }
    } else if action == "chunk"@ {
        match data {
            Some(b) => FileAsk::Chunk { id, data: b },
            None => FileAsk::Refuse { error: "invalid base64"@ },
        }
    } else if action == "end"@ {
        FileAsk::End { id }
    } else if action == "get"@ {
        FileAsk::Get { root, rel, name }
    } else if action == "mkdir"@ {
        FileAsk::Mkdir { root, rel, name }
    } else if action == "delete"@ {
        FileAsk::Delete { root, rel, name }
    } else {
        FileAsk::Refuse { error: "unknown file action"@ }
    }
}

pub fn handle_message(v: &Json) -> (r: FileRequest)
    ensures
        r@ == ask_of(v.tree()),
{
    let word = v.text_or_empty("action");
    let action = word.as_str();
    let root = match v.text_at("root") {
        Some(s) => s.to_owned(),
        None => "inbox".to_owned(),
    };
    let rel = v.text_or_empty("path");
    let name = v.text_or_empty("name");
    let id = v.text_or_empty("id");
    if same(action, "list") {
        FileRequest::List { root, rel }
    } else if same(action, "put") {
        match decode_b64(v.text_or_empty("data").as_str()) {
            Ok(data) => FileRequest::Put { root, rel, name, data },
            Err(error) => FileRequest::Refuse { error },
        }
    } else if same(action, "begin") {
        let size: u64 = match v.whole_at("size") {
            Some(n) => n,
            None => 0,
        };
        FileRequest::Begin { id, name, size, root, rel }
    } else if same(action, "chunk") {
        match decode_b64(v.text_or_empty("data").as_str()) {
            Ok(data) => FileRequest::Chunk { id, data },
            Err(error) => FileRequest::Refuse { error },
        }
    } else if same(action, "end") {
        FileRequest::End { id }
    } else if same(action, "get") {
        FileRequest::Get { root, rel, name }
    } else if same(action, "mkdir") {
        FileRequest::Mkdir { root, rel, name }
    } else if same(action, "delete") {
        FileRequest::Delete { root, rel, name }
    } else {
        FileRequest::Refuse { error: "unknown file action".to_owned() }
    }
}

/// A message about files, with its members in order.
pub open spec fn file_text(m: Seq<(Seq<char>, Seq<char>)>) -> Seq<char> {
    object_text(m.push(("type"@, quoted("file"@))))
}

pub open spec fn error_text(msg: Seq<char>) -> Seq<char> {
    file_text(seq![("action"@, quoted("error"@)), ("error"@, quoted(msg))])
}

pub fn err_json(msg: &str) -> (s: String)
    ensures
        s@ == error_text(msg@),
{
    let v: Vec<(&str, String)> = vec![
        ("action", quote("error")),
        ("error", quote(msg)),
        ("type", quote("file")),
    ];
    assert(pairs(v@) =~= seq![("action"@, quoted("error"@)), ("error"@, quoted(msg@))].push(
        ("type"@, quoted("file"@)),
    ));
    object(&v)
}

/// The folder as an answer names it.
pub open spec fn shown_root(root: Seq<char>) -> Seq<char> {
    match folder_name(root) {
        Some(f) => f,
        None => "inbox"@,
    }
}

pub open spec fn shown_path(rel: Seq<char>) -> Seq<char> {
    match path_of(rel) {
        Some(p) => p,
        None => Seq::empty(),
    }
}

fn root_shown(root: &str) -> (s: &'static str)
    ensures
        s@ == shown_root(root@),
{
    match normalize_root(root) {
        Some(f) => f,
        None => "inbox",
    }
}

fn path_shown(rel: &str) -> (s: String)
    ensures
        s@ == shown_path(rel@),
{
    match sanitize_rel(rel) {
        Some(p) => p,
        None => String::new(),
    }
}

/// What is said of a file that was stored or removed.
pub open spec fn entry_reply(action: Seq<char>, e: EntryFacts, root: Seq<char>, rel: Seq<char>) -> Seq<
    char,
> {
    file_text(
        seq![
            ("action"@, quoted(action)),
            ("name"@, quoted(e.name)),
            ("path"@, quoted(shown_path(rel))),
            ("root"@, quoted(shown_root(root))),
            ("size"@, decimal(e.size as nat)),
        ],
    )
}

fn entry_json(action: &str, ent: &FileEntry, root: &str, rel: &str) -> (s: String)
    ensures
        s@ == entry_reply(action@, ent@, root@, rel@),
{
    let v: Vec<(&str, String)> = vec![
        ("action", quote(action)),
        ("name", quote(ent.name.as_str())),
        ("path", quote(path_shown(rel).as_str())),
        ("root", quote(root_shown(root))),
        ("size", decimal_text(ent.size)),
        ("type", quote("file")),
    ];
    assert(pairs(v@) =~= seq![
        ("action"@, quoted(action@)),
        ("name"@, quoted(ent@.name)),
        ("path"@, quoted(shown_path(rel@))),
        ("root"@, quoted(shown_root(root@))),
        ("size"@, decimal(ent@.size as nat)),
    ].push(("type"@, quoted("file"@))));
    object(&v)
}

pub fn ok_json_at(ent: &FileEntry, root: &str, rel: &str) -> (s: String)
    ensures
        s@ == entry_reply("ok"@, ent@, root@, rel@),
{
    entry_json("ok", ent, root, rel)
}

pub open spec fn list_text(root: Seq<char>, path: Seq<char>, files: Seq<EntryFacts>) -> Seq<char> {
    file_text(
        seq![
            ("action"@, quoted("list"@)),
            ("files"@, array_text(Seq::new(files.len(), |i: int| entry_text(files[i])))),
            ("path"@, quoted(path)),
            ("root"@, quoted(root)),
        ],
    )
}

pub(crate) fn entry_texts(files: &Vec<FileEntry>) -> (out: Vec<String>)
    ensures
        texts(out@) == Seq::new(files@.len(), |i: int| entry_text(entries_of(files@)[i])),
{
    let ghost all = Seq::new(files@.len(), |i: int| entry_text(entries_of(files@)[i]));
    let mut out: Vec<String> = Vec::new();
    let mut i: usize = 0;
    assert(texts(out@) =~= all.take(0));
    while i < files.len()
        invariant
            i <= files@.len(),
            all == Seq::new(files@.len(), |i: int| entry_text(entries_of(files@)[i])),
            texts(out@) == all.take(i as int),
        decreases files@.len() - i,
    {
        push_text(&mut out, files[i].to_json().as_str());
        assert(all.take(i + 1) =~= all.take(i as int).push(all[i as int]));
        i += 1;
    }
    assert(all.take(all.len() as int) =~= all);
    out
}

/// A listing as it was taken: the folder, the path, the entries.
#[derive(Debug)]
pub struct Listing {
    pub root: String,
    pub path: String,
    pub files: Vec<FileEntry>,
}

pub open spec fn listing_reply(r: Result<Listing, String>) -> Seq<char> {
    match r {
        Ok(l) => list_text(l.root@, l.path@, entries_of(l.files@)),
        Err(e) => error_text(e@),
    }
}

pub fn list_at_json(r: &Result<Listing, String>) -> (s: String)
    ensures
        s@ == listing_reply(*r),
{
    match r {
        Err(e) => err_json(e.as_str()),
        Ok(l) => {
            let items = entry_texts(&l.files);
            let v: Vec<(&str, String)> = vec![
                ("action", quote("list")),
                ("files", array(&items)),
                ("path", quote(l.path.as_str())),
                ("root", quote(l.root.as_str())),
                ("type", quote("file")),
            ];
            proof {
                let fs = entries_of(l.files@);
                assert(texts(items@) =~= Seq::new(fs.len(), |i: int| entry_text(fs[i])));
                assert(pairs(v@) =~= seq![
                    ("action"@, quoted("list"@)),
                    ("files"@, array_text(Seq::new(fs.len(), |i: int| entry_text(fs[i])))),
                    ("path"@, quoted(l.path@)),
                    ("root"@, quoted(l.root@)),
                ].push(("type"@, quoted("file"@))));
            }
            object(&v)
        },
    }
}

/// The folder and path of a listing, or why there is none.
pub fn list_place(root: &str, rel: &str) -> (r: Result<(String, String), String>)
    ensures
        match r {
            Ok(p) => folder_name(root@) == Some(p.0@) && path_of(rel@) == Some(p.1@),
            Err(e) => if folder_name(root@) is None {
                e@ == "unknown folder"@
            } else {
                path_of(rel@) is None && e@ == "invalid path"@
            },
        },
{
    match normalize_root(root) {
        None => Err("unknown folder".to_owned()),
        Some(f) => match sanitize_rel(rel) {
            None => Err("invalid path".to_owned()),
            Some(p) => Ok((f.to_owned(), p)),
        },
    }
}

pub open spec fn accept_text(id: Seq<char>, offset: u64, size: u64) -> Seq<char> {
    file_text(
        seq![
            ("action"@, quoted("accept"@)),
            ("id"@, quoted(id)),
            ("offset"@, decimal(offset as nat)),
            ("size"@, decimal(size as nat)),
        ],
    )
}

/// The answer to a transfer that was begun, or refused.
pub fn begin_reply(id: &str, size: u64, r: &Result<u64, String>) -> (s: String)
    ensures
        s@ == match r {
            Ok(offset) => accept_text(id@, *offset, size),
            Err(e) => error_text(e@),
        },
{
    match r {
        Err(e) => err_json(e.as_str()),
        Ok(offset) => {
            let v: Vec<(&str, String)> = vec![
                ("action", quote("accept")),
                ("id", quote(id)),
                ("offset", decimal_text(*offset)),
                ("size", decimal_text(size)),
                ("type", quote("file")),
            ];
            assert(pairs(v@) =~= seq![
                ("action"@, quoted("accept"@)),
                ("id"@, quoted(id@)),
                ("offset"@, decimal(*offset as nat)),
                ("size"@, decimal(size as nat)),
            ].push(("type"@, quoted("file"@))));
            object(&v)
        },
    }
}

/// The answer to a file that was stored, or not.
pub fn put_reply(root: &str, rel: &str, r: &Result<FileEntry, String>) -> (s: String)
    ensures
        s@ == match r {
            Ok(ent) => entry_reply("ok"@, ent@, root@, rel@),
            Err(e) => error_text(e@),
        },
{
    match r {
        Ok(ent) => ok_json_at(ent, root, rel),
        Err(e) => err_json(e.as_str()),
    }
}

/// A piece that was written is not answered.
pub fn chunk_reply(r: &Result<(), String>) -> (out: Vec<String>)
    ensures
        texts(out@) == match r {
            Ok(_) => Seq::<Seq<char>>::empty(),
            Err(e) => seq![error_text(e@)],
        },
{
    let mut out: Vec<String> = Vec::new();
    assert(texts(out@) =~= Seq::<Seq<char>>::empty());
    match r {
        Ok(_) => {},
        Err(e) => {
            push_text(&mut out, err_json(e.as_str()).as_str());
            assert(texts(out@) =~= seq![error_text(e@)]);
        },
    }
    out
}

pub open spec fn mkdir_text(name: Seq<char>, root: Seq<char>, rel: Seq<char>) -> Seq<char> {
    file_text(
        seq![
            ("action"@, quoted("mkdir"@)),
            ("dir"@, truth_text(true)),
            ("name"@, quoted(name)),
            ("path"@, quoted(shown_path(rel))),
            ("root"@, quoted(shown_root(root))),
        ],
    )
}

/// The answer to a folder that was made, or not; a new listing follows.
pub fn mkdir_reply(
    root: &str,
    rel: &str,
    r: &Result<FileEntry, String>,
    after: &Result<Listing, String>,
) -> (out: Vec<String>)
    ensures
        texts(out@) == match r {
            Ok(ent) => seq![mkdir_text(ent@.name, root@, rel@), listing_reply(*after)],
            Err(e) => seq![error_text(e@)],
        },
{
    let mut out: Vec<String> = Vec::new();
    match r {
        Err(e) => {
            push_text(&mut out, err_json(e.as_str()).as_str());
            assert(texts(out@) =~= seq![error_text(e@)]);
        },
        Ok(ent) => {
            let v: Vec<(&str, String)> = vec![
                ("action", quote("mkdir")),
                ("dir", truth(true)),
                ("name", quote(ent.name.as_str())),
                ("path", quote(path_shown(rel).as_str())),
                ("root", quote(root_shown(root))),
                ("type", quote("file")),
            ];
            assert(pairs(v@) =~= seq![
                ("action"@, quoted("mkdir"@)),
                ("dir"@, truth_text(true)),
                ("name"@, quoted(ent@.name)),
                ("path"@, quoted(shown_path(rel@))),
                ("root"@, quoted(shown_root(root@))),
            ].push(("type"@, quoted("file"@))));
            push_text(&mut out, object(&v).as_str());
            push_text(&mut out, list_at_json(after).as_str());
            assert(texts(out@) =~= seq![
                mkdir_text(ent@.name, root@, rel@),
                listing_reply(*after),
            ]);
        },
    }
    out
}

/// The answer to a file that was removed, or not; a new listing follows.
pub fn delete_reply(
    root: &str,
    rel: &str,
    r: &Result<FileEntry, String>,
    after: &Result<Listing, String>,
) -> (out: Vec<String>)
    ensures
        texts(out@) == match r {
            Ok(ent) => seq![entry_reply("deleted"@, ent@, root@, rel@), listing_reply(*after)],
            Err(e) => seq![error_text(e@)],
        },
{
    let mut out: Vec<String> = Vec::new();
    match r {
        Err(e) => {
            push_text(&mut out, err_json(e.as_str()).as_str());
            assert(texts(out@) =~= seq![error_text(e@)]);
        },
        Ok(ent) => {
            push_text(&mut out, entry_json("deleted", ent, root, rel).as_str());
            push_text(&mut out, list_at_json(after).as_str());
            assert(texts(out@) =~= seq![
                entry_reply("deleted"@, ent@, root@, rel@),
                listing_reply(*after),
            ]);
        },
    }
    out
}

pub open spec fn blob_text(name: Seq<char>, bytes: Seq<u8>) -> Seq<char> {
    file_text(
        seq![
            ("action"@, quoted("blob"@)),
            ("data"@, quoted(base64_of(bytes))),
            ("name"@, quoted(name)),
            ("size"@, decimal(bytes.len())),
        ],
    )
}

pub open spec fn blob_begin_text(name: Seq<char>, size: nat) -> Seq<char> {
    file_text(
        seq![
            ("action"@, quoted("blob-begin"@)),
            ("name"@, quoted(name)),
            ("size"@, decimal(size)),
        ],
    )
}

pub open spec fn blob_chunk_text(name: Seq<char>, piece: Seq<u8>) -> Seq<char> {
    file_text(
        seq![
            ("action"@, quoted("blob-chunk"@)),
            ("data"@, quoted(base64_of(piece))),
            ("name"@, quoted(name)),
        ],
    )
}

pub open spec fn blob_end_text(name: Seq<char>) -> Seq<char> {
    file_text(seq![("action"@, quoted("blob-end"@)), ("name"@, quoted(name))])
}

/// A small file in one message.
pub fn blob_whole(name: &str, bytes: &[u8]) -> (s: String)
    ensures
        s@ == blob_text(name@, bytes@),
{
    let v: Vec<(&str, String)> = vec![
        ("action", quote("blob")),
        ("data", quote(encode_b64(bytes).as_str())),
        ("name", quote(name)),
        ("size", decimal_text(bytes.len() as u64)),
        ("type", quote("file")),
    ];
    assert(pairs(v@) =~= seq![
        ("action"@, quoted("blob"@)),
        ("data"@, quoted(base64_of(bytes@))),
        ("name"@, quoted(name@)),
        ("size"@, decimal(bytes@.len())),
    ].push(("type"@, quoted("file"@))));
    object(&v)
}

pub fn blob_begin(name: &str, size: u64) -> (s: String)
    ensures
        s@ == blob_begin_text(name@, size as nat),
{
    let v: Vec<(&str, String)> = vec![
        ("action", quote("blob-begin")),
        ("name", quote(name)),
        ("size", decimal_text(size)),
        ("type", quote("file")),
    ];
    assert(pairs(v@) =~= seq![
        ("action"@, quoted("blob-begin"@)),
        ("name"@, quoted(name@)),
        ("size"@, decimal(size as nat)),
    ].push(("type"@, quoted("file"@))));
    object(&v)
}

/// What a stored file begins with when it is sent: nothing where it goes in one
/// message.
pub fn blob_opening(name: &str, size: u64) -> (r: Option<String>)
    ensures
        match r {
            Some(s) => size > MAX_CHUNK && s@ == blob_begin_text(name@, size as nat),
            None => size <= MAX_CHUNK,
        },
{
    if size <= MAX_CHUNK as u64 {
        None
    } else {
        Some(blob_begin(name, size))
    }
}

pub fn blob_chunk(name: &str, piece: &[u8]) -> (s: String)
    ensures
        s@ == blob_chunk_text(name@, piece@),
{
    let v: Vec<(&str, String)> = vec![
        ("action", quote("blob-chunk")),
        ("data", quote(encode_b64(piece).as_str())),
        ("name", quote(name)),
        ("type", quote("file")),
    ];
    assert(pairs(v@) =~= seq![
        ("action"@, quoted("blob-chunk"@)),
        ("data"@, quoted(base64_of(piece@))),
        ("name"@, quoted(name@)),
    ].push(("type"@, quoted("file"@))));
    object(&v)
}

pub fn blob_end(name: &str) -> (s: String)
    ensures
        s@ == blob_end_text(name@),
{
    let v: Vec<(&str, String)> = vec![
        ("action", quote("blob-end")),
        ("name", quote(name)),
        ("type", quote("file")),
    ];
    assert(pairs(v@) =~= seq![("action"@, quoted("blob-end"@)), ("name"@, quoted(name@))].push(
        ("type"@, quoted("file"@)),
    ));
    object(&v)
}

/// Bytes cut into pieces, all of them full but the last.
pub open spec fn pieces(b: Seq<u8>) -> Seq<Seq<u8>>
    decreases b.len(),
{
    if b.len() == 0 {
        Seq::empty()
    } else if b.len() <= MAX_CHUNK {
        seq![b]
    } else {
        seq![b.take(MAX_CHUNK as int)] + pieces(b.skip(MAX_CHUNK as int))
    }
}

pub open spec fn chunk_texts(name: Seq<char>, ps: Seq<Seq<u8>>) -> Seq<Seq<char>> {
    Seq::new(ps.len(), |i: int| blob_chunk_text(name, ps[i]))
}

/// The messages that carry a file.
pub open spec fn blob_texts(name: Seq<char>, bytes: Seq<u8>) -> Seq<Seq<char>> {
    if bytes.len() <= MAX_CHUNK {
        seq![blob_text(name, bytes)]
    } else {
        seq![blob_begin_text(name, bytes.len())] + chunk_texts(name, pieces(bytes)) + seq![
            blob_end_text(name),
        ]
    }
}

pub fn blob_replies(name: &str, bytes: &[u8]) -> (out: Vec<String>)
    ensures
        texts(out@) == blob_texts(name@, bytes@),
{
    let mut out: Vec<String> = Vec::new();
    if bytes.len() <= MAX_CHUNK {
        push_text(&mut out, blob_whole(name, bytes).as_str());
        assert(texts(out@) =~= blob_texts(name@, bytes@));
        return out;
    }
    push_text(&mut out, blob_begin(name, bytes.len() as u64).as_str());
    let ghost head = texts(out@);
    assert(head =~= seq![blob_begin_text(name@, bytes@.len())]);
    let mut at: usize = 0;
    assert(bytes@.skip(0) =~= bytes@);
    assert(head + chunk_texts(name@, pieces(bytes@)) =~= texts(out@) + chunk_texts(
        name@,
        pieces(bytes@.skip(0)),
    ));
    while at < bytes.len()
        invariant
            at <= bytes@.len(),
            texts(out@) + chunk_texts(name@, pieces(bytes@.skip(at as int))) == head + chunk_texts(
                name@,
                pieces(bytes@),
            ),
        decreases bytes@.len() - at,
    {
        let ghost before = texts(out@);
        let ghost rest = bytes@.skip(at as int);
        let end: usize = if bytes.len() - at <= MAX_CHUNK {
            bytes.len()
        } else {
            at + MAX_CHUNK
        };
        let piece = vstd::slice::slice_subrange(bytes, at, end);
        push_text(&mut out, blob_chunk(name, piece).as_str());
        proof {
            let tail = bytes@.skip(end as int);
            if rest.len() <= MAX_CHUNK {
                assert(piece@ =~= rest);
                assert(tail =~= Seq::<u8>::empty());
                assert(pieces(rest) =~= seq![piece@] + pieces(tail));
            } else {
                assert(piece@ =~= rest.take(MAX_CHUNK as int));
                assert(rest.skip(MAX_CHUNK as int) =~= tail);
            }
            assert(chunk_texts(name@, pieces(rest)) =~= seq![blob_chunk_text(name@, piece@)]
                + chunk_texts(name@, pieces(tail)));
            assert(texts(out@) + chunk_texts(name@, pieces(tail)) =~= before + chunk_texts(
                name@,
                pieces(rest),
            ));
        }
        at = end;
    }
    assert(bytes@.skip(at as int) =~= Seq::<u8>::empty());
    assert(texts(out@) =~= head + chunk_texts(name@, pieces(bytes@)));
    push_text(&mut out, blob_end(name).as_str());
    assert(texts(out@) =~= blob_texts(name@, bytes@));
    out
}

/// What is read next of a file that is being sent.
#[derive(Clone, Copy, Debug, PartialEq, Eq, Structural)]
pub enum Want {
    /// All of it.
    All,
    /// A piece, of up to [`MAX_CHUNK`] bytes.
    Piece,
    /// Nothing; everything was said.
    Nothing,
}

/// A file that is being sent while it is read.
pub struct BlobSender {
    name: String,
    whole: bool,
    over: bool,
}

#[verifier::ext_equal]
pub ghost struct BlobState {
    pub name: Seq<char>,
    /// The file goes in one message.
    pub whole: bool,
    pub over: bool,
}

impl View for BlobSender {
    type V = BlobState;

    closed spec fn view(&self) -> BlobState {
        BlobState { name: self.name@, whole: self.whole, over: self.over }
    }
}

impl BlobState {
    /// The message for the bytes that were read. Nothing read means the end.
    pub open spec fn said(self, read: Seq<u8>) -> Seq<char> {
        if self.whole {
            blob_text(self.name, read)
        } else if read.len() == 0 {
            blob_end_text(self.name)
        } else {
            blob_chunk_text(self.name, read)
        }
    }

    pub open spec fn after(self, read: Seq<u8>) -> BlobState {
        BlobState { over: self.whole || read.len() == 0, ..self }
    }
}

pub open spec fn blob_opened(name: Seq<char>, size: nat) -> BlobState {
    BlobState { name, whole: size <= MAX_CHUNK, over: false }
}

/// What is said before anything is read.
pub open spec fn blob_head(name: Seq<char>, size: nat) -> Seq<Seq<char>> {
    if size <= MAX_CHUNK {
        Seq::empty()
    } else {
        seq![blob_begin_text(name, size)]
    }
}

/// What is said of what was read, one read after the other.
pub open spec fn blob_run(st: BlobState, reads: Seq<Seq<u8>>) -> Seq<Seq<char>>
    decreases reads.len(),
{
    if st.over || reads.len() == 0 {
        Seq::empty()
    } else {
        seq![st.said(reads[0])] + blob_run(st.after(reads[0]), reads.drop_first())
    }
}

impl BlobSender {
    /// The sender of a file of this length, and what it says first.
    pub fn open(name: &str, size: u64) -> (r: (BlobSender, Option<String>))
        ensures
            r.0@ == blob_opened(name@, size as nat),
            match r.1 {
                Some(s) => blob_head(name@, size as nat) == seq![s@],
                None => blob_head(name@, size as nat).len() == 0,
            },
    {
        let first = blob_opening(name, size);
        (BlobSender { name: name.to_owned(), whole: first.is_none(), over: false }, first)
    }

    pub fn want(&self) -> (w: Want)
        ensures
            w == if self@.over {
                Want::Nothing
            } else if self@.whole {
                Want::All
            } else {
                Want::Piece
            },
    {
        if self.over {
            Want::Nothing
        } else if self.whole {
            Want::All
        } else {
            Want::Piece
        }
    }

    /// What to say of the bytes that were read.
    pub fn read(&mut self, bytes: &[u8]) -> (r: Option<String>)
        ensures
            match r {
                Some(s) => !old(self)@.over && s@ == old(self)@.said(bytes@) && final(self)@ == old(
                    self,
                )@.after(bytes@),
                None => old(self)@.over && final(self)@ == old(self)@,
            },
    {
        if self.over {
            None
        } else if self.whole {
            self.over = true;
            Some(blob_whole(self.name.as_str(), bytes))
        } else if bytes.len() == 0 {
            self.over = true;
            Some(blob_end(self.name.as_str()))
        } else {
            Some(blob_chunk(self.name.as_str(), bytes))
        }
    }
}

/// However a large file is read, the messages carry each read in turn, between
/// one that opens and one that ends.
pub proof fn blob_reads_are_said(name: Seq<char>, size: nat, reads: Seq<Seq<u8>>)
    requires
        size > MAX_CHUNK,
        forall|i: int| 0 <= i < reads.len() ==> (#[trigger] reads[i]).len() > 0,
    ensures
        blob_run(blob_opened(name, size), reads.push(Seq::empty())) == chunk_texts(name, reads)
            + seq![blob_end_text(name)],
    decreases reads.len(),
{
    let st = blob_opened(name, size);
    let end = Seq::<u8>::empty();
    let all = reads.push(end);
    if reads.len() == 0 {
        assert(all[0] == end);
        assert(blob_run(st.after(end), all.drop_first()) =~= Seq::<Seq<char>>::empty());
        assert(blob_run(st, all) =~= chunk_texts(name, reads) + seq![blob_end_text(name)]);
    } else {
        let rest = reads.drop_first();
        assert forall|i: int| 0 <= i < rest.len() implies (#[trigger] rest[i]).len() > 0 by {
            assert(rest[i] == reads[i + 1]);
        }
        blob_reads_are_said(name, size, rest);
        assert(all.drop_first() =~= rest.push(end));
        assert(reads[0].len() > 0);
        assert(all[0] == reads[0]);
        assert(st.after(reads[0]) =~= st);
        assert(chunk_texts(name, reads) =~= seq![blob_chunk_text(name, reads[0])] + chunk_texts(
            name,
            rest,
        ));
        assert(blob_run(st, all) =~= chunk_texts(name, reads) + seq![blob_end_text(name)]);
    }
}

proof fn pieces_are_not_empty(b: Seq<u8>)
    ensures
        forall|i: int| 0 <= i < pieces(b).len() ==> (#[trigger] pieces(b)[i]).len() > 0,
    decreases b.len(),
{
    if b.len() > MAX_CHUNK {
        let rest = b.skip(MAX_CHUNK as int);
        pieces_are_not_empty(rest);
        assert forall|i: int| 0 <= i < pieces(b).len() implies (#[trigger] pieces(b)[i]).len()
            > 0 by {
            if i > 0 {
                assert(pieces(b)[i] == pieces(rest)[i - 1]);
            }
        }
    }
}

/// A file that is sent while it is read is sent with the messages of the same
/// file held in memory: whole where it is small, else cut into full pieces
/// until the end is read.
pub proof fn blob_stream_is_the_replies(name: Seq<char>, bytes: Seq<u8>)
    ensures
        blob_head(name, bytes.len()) + blob_run(
            blob_opened(name, bytes.len()),
            if bytes.len() <= MAX_CHUNK {
                seq![bytes]
            } else {
                pieces(bytes).push(Seq::empty())
            },
        ) == blob_texts(name, bytes),
{
    let st = blob_opened(name, bytes.len());
    if bytes.len() <= MAX_CHUNK {
        let reads = seq![bytes];
        assert(blob_run(st.after(bytes), reads.drop_first()) =~= Seq::<Seq<char>>::empty());
        assert(blob_run(st, reads) =~= seq![blob_text(name, bytes)]);
        assert(blob_head(name, bytes.len()) + blob_run(st, reads) =~= blob_texts(name, bytes));
    } else {
        pieces_are_not_empty(bytes);
        blob_reads_are_said(name, bytes.len(), pieces(bytes));
        assert(blob_head(name, bytes.len()) + (chunk_texts(name, pieces(bytes)) + seq![
            blob_end_text(name),
        ]) =~= blob_texts(name, bytes));
    }
}

/// Pieces put together again.
pub open spec fn together(ps: Seq<Seq<u8>>) -> Seq<u8>
    decreases ps.len(),
{
    if ps.len() == 0 {
        Seq::empty()
    } else {
        ps[0] + together(ps.drop_first())
    }
}

/// The pieces of a file hold the whole file in order, and none is too large
/// for a message.
pub proof fn pieces_hold_the_file(b: Seq<u8>)
    ensures
        together(pieces(b)) == b,
        forall|i: int|
            0 <= i < pieces(b).len() ==> 0 < (#[trigger] pieces(b)[i]).len() <= MAX_CHUNK,
    decreases b.len(),
{
    if b.len() == 0 {
    } else if b.len() <= MAX_CHUNK {
        assert(pieces(b).drop_first() =~= Seq::<Seq<u8>>::empty());
        assert(together(Seq::<Seq<u8>>::empty()) =~= Seq::<u8>::empty());
        assert(together(pieces(b)) =~= b);
    } else {
        let tail = b.skip(MAX_CHUNK as int);
        pieces_hold_the_file(tail);
        assert(pieces(b).drop_first() =~= pieces(tail));
        assert(b =~= b.take(MAX_CHUNK as int) + tail);
        assert forall|i: int| 0 <= i < pieces(b).len() implies 0 < (#[trigger] pieces(
            b,
        )[i]).len() <= MAX_CHUNK by {
            if i > 0 {
                assert(pieces(b)[i] == pieces(tail)[i - 1]);
            }
        }
    }
}

/// Whether a file may be stored under a name: the name to use, or why not.
pub fn put_check(name: &str, len: u64) -> (r: Result<String, String>)
    ensures
        match r {
            Ok(n) => len <= MAX_FILE && name_of(name@) == Some(n@),
            Err(e) => if len > MAX_FILE {
                e@ == "file too large"@
            } else {
                name_of(name@) is None && e@ == "invalid file name"@
            },
        },
{
    if len > MAX_FILE {
        return Err("file too large".to_owned());
    }
    match sanitize_name(name) {
        Some(n) => Ok(n),
        None => Err("invalid file name".to_owned()),
    }
}

/// The name under which a file is kept until it is whole.
pub fn part_name(name: &str) -> (s: String)
    ensures
        s@ == name@ + ".part"@,
{
    concat2(name, ".part")
}

/// A folder of that name may be made, or why not.
pub fn mkdir_check(exists: bool) -> (r: Result<(), String>)
    ensures
        match r {
            Ok(_) => !exists,
            Err(e) => exists && e@ == "already exists"@,
        },
{
    if exists {
        Err("already exists".to_owned())
    } else {
        Ok(())
    }
}

/// The length of a file that may be read, or why it may not. `len` is its
/// length, if it is there.
pub fn readable(is_dir: bool, len: Option<u64>) -> (r: Result<u64, String>)
    ensures
        match r {
            Ok(n) => !is_dir && len == Some(n) && n <= MAX_FILE,
            Err(e) => e@ == if is_dir {
                "not a file"@
            } else if len is None {
                "file not found"@
            } else {
                "file too large"@
            } && (is_dir || len is None || len->Some_0 > MAX_FILE),
        },
{
    if is_dir {
        return Err("not a file".to_owned());
    }
    match len {
        None => Err("file not found".to_owned()),
        Some(n) => if n > MAX_FILE {
            Err("file too large".to_owned())
        } else {
            Ok(n)
        },
    }
}

/// What is removed, or why nothing is: a file, or a folder with all that is in
/// it. `len` is the length of what is there.
pub fn removable(name: String, is_dir: bool, len: Option<u64>) -> (r: Result<FileEntry, String>)
    ensures
        match r {
            Ok(e) => len is Some && e@ == (EntryFacts {
                name: name@,
                size: if is_dir {
                    0
                } else {
                    len->Some_0
                },
                dir: is_dir,
            }),
            Err(e) => len is None && e@ == "file not found"@,
        },
{
    match len {
        None => Err("file not found".to_owned()),
        Some(n) => if is_dir {
            Ok(FileEntry { name, size: 0, dir: true })
        } else {
            Ok(FileEntry::file(name, n))
        },
    }
}

/// A file of the host that may be copied into the inbox, or why it may not.
/// `name` is its name where it is text, `len` its length or why that is unknown.
pub fn import_check(is_file: bool, name: Option<&str>, len: Result<u64, String>) -> (r: Result<
    FileEntry,
    String,
>)
    ensures
        match r {
            Ok(e) => {
                &&& is_file
                &&& name is Some && name_of(name->Some_0@) == Some(e@.name)
                &&& len is Ok && len->Ok_0 <= MAX_FILE
                &&& e@.size == len->Ok_0 && !e@.dir
            },
            Err(e) => if !is_file {
                e@ == "not a file"@
            } else if name is None || name_of(name->Some_0@) is None {
                e@ == "invalid file name"@
            } else {
                match len {
                    Err(x) => e@ == x@,
                    Ok(k) => k > MAX_FILE && e@ == "file too large"@,
                }
            },
        },
{
    if !is_file {
        return Err("not a file".to_owned());
    }
    let clean = match name {
        Some(n) => sanitize_name(n),
        None => None,
    };
    match clean {
        None => Err("invalid file name".to_owned()),
        Some(n) => match len {
            Err(e) => Err(e),
            Ok(k) => if k > MAX_FILE {
                Err("file too large".to_owned())
            } else {
                Ok(FileEntry::file(n, k))
            },
        },
    }
}

/// Whether a file of the inbox is copied onto the desktop. Files below the
/// directory for temporary files are not.
pub fn deliverable(is_file: bool, is_temp: bool, has_desktop: bool) -> (r: bool)
    ensures
        r == (is_file && !is_temp && has_desktop),
{
    is_file && !is_temp && has_desktop
}

proof fn file_words_are_spelled()
    ensures
        "list"@.len() == 4 && "list"@[0] == 'l',
        "put"@.len() == 3 && "put"@[0] == 'p',
        "begin"@.len() == 5 && "begin"@[0] == 'b',
        "chunk"@.len() == 5 && "chunk"@[0] == 'c',
        "end"@.len() == 3 && "end"@[0] == 'e',
        "get"@.len() == 3 && "get"@[0] == 'g',
        "mkdir"@.len() == 5 && "mkdir"@[0] == 'm',
        "delete"@.len() == 6 && "delete"@[0] == 'd',
{
    reveal_strlit("list");
    reveal_strlit("put");
    reveal_strlit("begin");
    reveal_strlit("chunk");
    reveal_strlit("end");
    reveal_strlit("get");
    reveal_strlit("mkdir");
    reveal_strlit("delete");
}

/// Messages about files ask by a word for what they name: in the inbox where
/// they name no folder, and at its top where they name no path.
pub proof fn file_messages_are_understood(v: Tree, data: Seq<u8>)
    ensures
        ({
            let root = match v.text_at("root"@) {
                Some(s) => s,
                None => "inbox"@,
            };
            let rel = text_or(v.text_at("path"@), Seq::empty());
            let name = text_or(v.text_at("name"@), Seq::empty());
            let id = text_or(v.text_at("id"@), Seq::empty());
            let sent = base64_bytes(trimmed(text_or(v.text_at("data"@), Seq::empty())));
            &&& v.text_at("action"@) == Some("list"@) ==> ask_of(v) == (FileAsk::List { root, rel })
            &&& v.text_at("action"@) == Some("get"@) ==> ask_of(v) == (FileAsk::Get {
                root,
                rel,
                name,
            })
            &&& v.text_at("action"@) == Some("mkdir"@) ==> ask_of(v) == (FileAsk::Mkdir {
                root,
                rel,
                name,
            })
            &&& v.text_at("action"@) == Some("delete"@) ==> ask_of(v) == (FileAsk::Delete {
                root,
                rel,
                name,
            })
            &&& v.text_at("action"@) == Some("end"@) ==> ask_of(v) == (FileAsk::End { id })
            &&& v.text_at("action"@) == Some("begin"@) ==> ask_of(v) == (FileAsk::Begin {
                id,
                name,
                size: match v.whole_at("size"@) {
                    Some(n) => n,
                    None => 0,
                },
                root,
                rel,
            })
            &&& v.text_at("action"@) == Some("put"@) && sent == Some(data) ==> ask_of(v)
                == (FileAsk::Put { root, rel, name, data })
            &&& v.text_at("action"@) == Some("chunk"@) && sent == Some(data) ==> ask_of(v)
                == (FileAsk::Chunk { id, data })
            &&& (v.text_at("action"@) == Some("put"@) || v.text_at("action"@) == Some("chunk"@))
                && sent is None ==> ask_of(v) is Refuse
            &&& v.text_at("action"@) is None ==> ask_of(v) is Refuse
        }),
{
    file_words_are_spelled();
    let none = Seq::<char>::empty();
    assert(none.len() == 0);
}

/// A place that is given out lies in a folder that can be named, under a path
/// and a name that pass; everything else is refused with what is wrong with it.
pub proof fn places_are_checked(
    root: Seq<char>,
    rel: Seq<char>,
    name: Seq<char>,
    has_home: bool,
    base_exists: bool,
)
    ensures
        ({
            let r = place_of(root, rel, name, has_home, base_exists);
            &&& r matches Ok(p) ==> folder_of(root) == Some(p.folder) && path_of(rel) == Some(p.rel)
                && (p.folder == Folder::Inbox || has_home) && (p.name.len() == 0 || name_of(name)
                == Some(p.name)) && (name.len() == 0 ==> p.name.len() == 0)
            &&& folder_of(root) is None ==> r == Err::<Place, Seq<char>>("unknown folder"@)
            &&& folder_of(root) == Some(Folder::Home) && !has_home ==> r == Err::<Place, Seq<char>>(
                "no home directory"@,
            )
            &&& folder_of(root) == Some(Folder::Inbox) && path_of(rel) is None ==> r == Err::<
                Place,
                Seq<char>,
            >("invalid path"@)
            &&& folder_of(root) is Some && has_home && path_of(rel) is Some && base_exists
                && name_of(name) is Some && name.len() > 0 ==> r is Ok
            &&& folder_of(root) is Some && has_home && path_of(rel) is Some && base_exists
                && name_of(name) is None && name.len() > 0 ==> r == Err::<Place, Seq<char>>(
                "invalid file name"@,
            )
            &&& folder_of(root) is Some && has_home && path_of(rel) is Some && !base_exists
                && name.len() > 0 ==> r == Err::<Place, Seq<char>>("file not found"@)
        }),
{
}

/// Folders go by their names.
pub proof fn folders_go_by_name(root: Seq<char>)
    ensures
        ({
            let r = lower(trimmed(root));
            &&& r.len() == 0 || r == "inbox"@ ==> folder_of(root) == Some(Folder::Inbox)
            &&& r == "home"@ ==> folder_of(root) == Some(Folder::Home)
            &&& r == "desktop"@ ==> folder_of(root) == Some(Folder::Desktop)
            &&& r == "documents"@ ==> folder_of(root) == Some(Folder::Documents)
            &&& r == "downloads"@ ==> folder_of(root) == Some(Folder::Downloads)
        }),
{
    crate::names::folders_that_can_be_named(root);
    reveal_strlit("inbox");
    reveal_strlit("home");
    reveal_strlit("desktop");
    reveal_strlit("documents");
    reveal_strlit("downloads");
    assert("documents"@[2] == 'c' && "downloads"@[2] == 'w');
    assert("inbox"@.len() == 5 && "home"@.len() == 4 && "desktop"@.len() == 7 && "documents"@.len()
        == 9 && "downloads"@.len() == 9);
}

/// A path is inside a folder where it goes on from the folder's own.
pub proof fn inside_goes_on_from_the_folder(
    root: Seq<Seq<char>>,
    more: Seq<Seq<char>>,
    path: Seq<Seq<char>>,
)
    ensures
        inside(root, root + more),
        inside(root, path) ==> path == root + path.skip(root.len() as int),
        path.len() < root.len() ==> !inside(root, path),
{
    assert((root + more).take(root.len() as int) =~= root);
    if inside(root, path) {
        assert(path =~= path.take(root.len() as int) + path.skip(root.len() as int));
    }
}

/// What is found is admitted where it is inside the folder, or would be; what is
/// outside never is.
pub proof fn outside_is_never_admitted(
    root: Seq<Seq<char>>,
    exists_there: bool,
    parent: Option<bool>,
    steps: Seq<Seq<char>>,
)
    ensures
        verdict(root, exists_there, parent, Some(steps)) is Ok ==> inside(root, steps),
        inside(root, steps) && (exists_there || parent == Some(true)) ==> verdict(
            root,
            exists_there,
            parent,
            Some(steps),
        ) is Ok,
        verdict(root, exists_there, parent, None) is Err,
        !exists_there && parent == Some(false) ==> verdict(root, exists_there, parent, Some(steps))
            == Err::<(), Seq<char>>("file not found"@),
        !inside(root, steps) && exists_there ==> verdict(root, exists_there, parent, Some(steps))
            == Err::<(), Seq<char>>("invalid path"@),
{
}

/// A listing shows folders and files under names that pass, with their sizes,
/// but no unfinished transfers, and at most four hundred.
pub proof fn listings_show_files_and_folders(raw: Seq<RawEntry>, e: RawEntry)
    ensures
        ({
            let n = picked(raw).len();
            let hidden = name_of(e.name@) is None || ends(e.name@, ".part"@) || e.size is None || (
            !e.dir && !e.file);
            &&& n <= 400
            &&& hidden || n == 400 ==> picked(raw.push(e)) == picked(raw)
            &&& !hidden && n < 400 && e.dir ==> picked(raw.push(e)) == picked(raw).push(
                EntryFacts { name: e.name@, size: 0, dir: true },
            )
            &&& !hidden && n < 400 && !e.dir ==> picked(raw.push(e)) == picked(raw).push(
                EntryFacts { name: e.name@, size: e.size->Some_0, dir: false },
            )
        }),
    decreases raw.len(),
{
    assert(raw.push(e).drop_last() =~= raw);
    if raw.len() > 0 {
        listings_show_files_and_folders(raw.drop_last(), raw.last());
        assert(raw.drop_last().push(raw.last()) =~= raw);
    }
}

/// Folders stand before files, and each by name.
pub proof fn folders_stand_first(a: EntryFacts, b: EntryFacts)
    ensures
        a.dir && !b.dir ==> entry_before(a, b) && !entry_before(b, a),
        a.dir == b.dir && precedes(a.name, b.name) ==> entry_before(a, b),
        a.dir == b.dir && a.name == b.name ==> entry_before(a, b) && entry_before(b, a),
        a.dir == b.dir && entry_before(a, b) ==> precedes(a.name, b.name) || a.name == b.name,
{
}

/// All pieces of a file but the last have 24 KiB, and the last has the rest.
pub proof fn pieces_are_full(b: Seq<u8>)
    ensures
        b.len() == 0 ==> pieces(b).len() == 0,
        0 < b.len() <= 24_576 ==> pieces(b) == seq![b],
        b.len() > 24_576 ==> pieces(b) == seq![b.take(24_576)] + pieces(b.skip(24_576)),
{
}

/// A small file goes out in one message, a larger one with its length first,
/// then every piece of it, then its end.
pub proof fn files_go_out_whole(name: Seq<char>, bytes: Seq<u8>)
    ensures
        ({
            let m = blob_texts(name, bytes);
            &&& bytes.len() <= 24_576 ==> m == seq![blob_text(name, bytes)]
            &&& bytes.len() > 24_576 ==> m.len() == pieces(bytes).len() + 2 && m[0]
                == blob_begin_text(name, bytes.len()) && m.last() == blob_end_text(name) && forall|
                i: int,
            |
                0 <= i < pieces(bytes).len() ==> #[trigger] m[i + 1] == blob_chunk_text(
                    name,
                    pieces(bytes)[i],
                )
        }),
{
}

/// The limits: two gibibytes to a file, eight mebibytes to an upload in one go,
/// 24 KiB to a piece, four transfers at a time.
pub proof fn limits_of_files()
    ensures
        MAX_FILE == 2_147_483_648,
        HTTP_PUT_MAX == 8_388_608,
        MAX_CHUNK == 24_576,
        MAX_TRANSFERS == 4,
{
}

/// An entry is told with its name, its size and what it is.
pub proof fn entries_are_told(e: EntryFacts)
    ensures
        ({
            let t = entry_text(e);
            &&& tells(t, "dir"@, e.dir)
            &&& has_part(t, crate::json::shown("name"@, quoted(e.name)))
            &&& has_part(t, crate::json::shown("size"@, decimal(e.size as nat)))
        }),
{
    let m = seq![
        ("dir"@, truth_text(e.dir)),
        ("name"@, quoted(e.name)),
        ("size"@, decimal(e.size as nat)),
    ];
    object_shows(m, 0);
    object_shows(m, 1);
    object_shows(m, 2);
}

/// An error is told in words.
pub proof fn errors_are_told(msg: Seq<char>)
    ensures
        ({
            let t = error_text(msg);
            &&& has_part(t, crate::json::shown("action"@, quoted("error"@)))
            &&& has_part(t, crate::json::shown("error"@, quoted(msg)))
            &&& has_part(t, crate::json::shown("type"@, quoted("file"@)))
        }),
{
    let m = seq![
        ("action"@, quoted("error"@)),
        ("error"@, quoted(msg)),
    ].push(("type"@, quoted("file"@)));
    object_shows(m, 0);
    object_shows(m, 1);
    object_shows(m, 2);
}

/// An answer about a file tells what was done, to which, and where it is.
pub proof fn entries_are_answered(action: Seq<char>, e: EntryFacts, root: Seq<char>, rel: Seq<char>)
    ensures
        ({
            let t = entry_reply(action, e, root, rel);
            &&& has_part(t, crate::json::shown("action"@, quoted(action)))
            &&& has_part(t, crate::json::shown("name"@, quoted(e.name)))
            &&& has_part(t, crate::json::shown("path"@, quoted(shown_path(rel))))
            &&& has_part(t, crate::json::shown("root"@, quoted(shown_root(root))))
            &&& has_part(t, crate::json::shown("size"@, decimal(e.size as nat)))
            &&& has_part(t, crate::json::shown("type"@, quoted("file"@)))
        }),
{
    let m = seq![
        ("action"@, quoted(action)),
        ("name"@, quoted(e.name)),
        ("path"@, quoted(shown_path(rel))),
        ("root"@, quoted(shown_root(root))),
        ("size"@, decimal(e.size as nat)),
    ].push(("type"@, quoted("file"@)));
    object_shows(m, 0);
    object_shows(m, 1);
    object_shows(m, 2);
    object_shows(m, 3);
    object_shows(m, 4);
    object_shows(m, 5);
}

/// A transfer that is accepted is told from where to go on.
pub proof fn acceptance_is_told(id: Seq<char>, offset: u64, size: u64)
    ensures
        ({
            let t = accept_text(id, offset, size);
            &&& has_part(t, crate::json::shown("action"@, quoted("accept"@)))
            &&& has_part(t, crate::json::shown("id"@, quoted(id)))
            &&& has_part(t, crate::json::shown("offset"@, decimal(offset as nat)))
            &&& has_part(t, crate::json::shown("size"@, decimal(size as nat)))
            &&& has_part(t, crate::json::shown("type"@, quoted("file"@)))
        }),
{
    let m = seq![
        ("action"@, quoted("accept"@)),
        ("id"@, quoted(id)),
        ("offset"@, decimal(offset as nat)),
        ("size"@, decimal(size as nat)),
    ].push(("type"@, quoted("file"@)));
    object_shows(m, 0);
    object_shows(m, 1);
    object_shows(m, 2);
    object_shows(m, 3);
    object_shows(m, 4);
}

/// A folder that was made is told.
pub proof fn new_folders_are_told(name: Seq<char>, root: Seq<char>, rel: Seq<char>)
    ensures
        ({
            let t = mkdir_text(name, root, rel);
            &&& has_part(t, crate::json::shown("action"@, quoted("mkdir"@)))
            &&& tells(t, "dir"@, true)
            &&& has_part(t, crate::json::shown("name"@, quoted(name)))
            &&& has_part(t, crate::json::shown("path"@, quoted(shown_path(rel))))
            &&& has_part(t, crate::json::shown("root"@, quoted(shown_root(root))))
            &&& has_part(t, crate::json::shown("type"@, quoted("file"@)))
        }),
{
    let m = seq![
        ("action"@, quoted("mkdir"@)),
        ("dir"@, truth_text(true)),
        ("name"@, quoted(name)),
        ("path"@, quoted(shown_path(rel))),
        ("root"@, quoted(shown_root(root))),
    ].push(("type"@, quoted("file"@)));
    object_shows(m, 0);
    object_shows(m, 1);
    object_shows(m, 2);
    object_shows(m, 3);
    object_shows(m, 4);
    object_shows(m, 5);
}

/// A file in one message has its name, its length and all its bytes.
pub proof fn whole_files_are_told(name: Seq<char>, bytes: Seq<u8>)
    ensures
        ({
            let t = blob_text(name, bytes);
            &&& has_part(t, crate::json::shown("action"@, quoted("blob"@)))
            &&& has_part(t, crate::json::shown("data"@, quoted(base64_of(bytes))))
            &&& has_part(t, crate::json::shown("name"@, quoted(name)))
            &&& has_part(t, crate::json::shown("size"@, decimal(bytes.len())))
            &&& has_part(t, crate::json::shown("type"@, quoted("file"@)))
        }),
{
    let m = seq![
        ("action"@, quoted("blob"@)),
        ("data"@, quoted(base64_of(bytes))),
        ("name"@, quoted(name)),
        ("size"@, decimal(bytes.len())),
    ].push(("type"@, quoted("file"@)));
    object_shows(m, 0);
    object_shows(m, 1);
    object_shows(m, 2);
    object_shows(m, 3);
    object_shows(m, 4);
}

/// The first message of a file has its name and its length.
pub proof fn beginnings_are_told(name: Seq<char>, size: nat)
    ensures
        ({
            let t = blob_begin_text(name, size);
            &&& has_part(t, crate::json::shown("action"@, quoted("blob-begin"@)))
            &&& has_part(t, crate::json::shown("name"@, quoted(name)))
            &&& has_part(t, crate::json::shown("size"@, decimal(size)))
            &&& has_part(t, crate::json::shown("type"@, quoted("file"@)))
        }),
{
    let m = seq![
        ("action"@, quoted("blob-begin"@)),
        ("name"@, quoted(name)),
        ("size"@, decimal(size)),
    ].push(("type"@, quoted("file"@)));
    object_shows(m, 0);
    object_shows(m, 1);
    object_shows(m, 2);
    object_shows(m, 3);
}

/// A piece of a file has the file's name and its bytes.
pub proof fn pieces_are_told(name: Seq<char>, piece: Seq<u8>)
    ensures
        ({
            let t = blob_chunk_text(name, piece);
            &&& has_part(t, crate::json::shown("action"@, quoted("blob-chunk"@)))
            &&& has_part(t, crate::json::shown("data"@, quoted(base64_of(piece))))
            &&& has_part(t, crate::json::shown("name"@, quoted(name)))
            &&& has_part(t, crate::json::shown("type"@, quoted("file"@)))
        }),
{
    let m = seq![
        ("action"@, quoted("blob-chunk"@)),
        ("data"@, quoted(base64_of(piece))),
        ("name"@, quoted(name)),
    ].push(("type"@, quoted("file"@)));
    object_shows(m, 0);
    object_shows(m, 1);
    object_shows(m, 2);
    object_shows(m, 3);
}

/// The last message of a file names it.
pub proof fn ends_are_told(name: Seq<char>)
    ensures
        ({
            let t = blob_end_text(name);
            &&& has_part(t, crate::json::shown("action"@, quoted("blob-end"@)))
            &&& has_part(t, crate::json::shown("name"@, quoted(name)))
            &&& has_part(t, crate::json::shown("type"@, quoted("file"@)))
        }),
{
    let m = seq![
        ("action"@, quoted("blob-end"@)),
        ("name"@, quoted(name)),
    ].push(("type"@, quoted("file"@)));
    object_shows(m, 0);
    object_shows(m, 1);
    object_shows(m, 2);
}

/// A list names its folder and path and holds every entry.
pub proof fn lists_hold_the_entries(root: Seq<char>, path: Seq<char>, files: Seq<EntryFacts>, i: int)
    requires
        0 <= i < files.len(),
    ensures
        ({
            let t = list_text(root, path, files);
            &&& has_part(t, entry_text(files[i]))
            &&& has_part(t, crate::json::shown("action"@, quoted("list"@)))
            &&& has_part(t, crate::json::shown("path"@, quoted(path)))
            &&& has_part(t, crate::json::shown("root"@, quoted(root)))
            &&& has_part(t, crate::json::shown("type"@, quoted("file"@)))
        }),
{
    let items = Seq::new(files.len(), |i: int| entry_text(files[i]));
    let m = seq![
        ("action"@, quoted("list"@)),
        ("files"@, array_text(items)),
        ("path"@, quoted(path)),
        ("root"@, quoted(root)),
    ].push(("type"@, quoted("file"@)));
    let t = list_text(root, path, files);
    assert(t == object_text(m));
    object_shows(m, 0);
    object_shows(m, 1);
    object_shows(m, 2);
    object_shows(m, 3);
    object_shows(m, 4);
    items_stand_in_brackets(items, Seq::empty());
    assert(items[i] == entry_text(files[i]));
    part_of_part(t, array_text(items), items[i]);
}

/// A place is shown under the name of its folder and its clean path.
pub proof fn places_are_shown(root: Seq<char>, rel: Seq<char>)
    ensures
        folder_name(root) matches Some(f) ==> shown_root(root) == f,
        folder_name(root) is None ==> shown_root(root) == "inbox"@,
        path_of(rel) matches Some(p) ==> shown_path(rel) == p,
        path_of(rel) is None ==> shown_path(rel).len() == 0,
{
}

} // verus!
