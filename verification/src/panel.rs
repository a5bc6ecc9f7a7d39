//! The file panel: folders are made, files and folders renamed, copied,
//! removed and downloaded.

use crate::access::{form_of, form_pairs, last_value, query_value, Refusal};
use crate::api::{body_object, body_tree, object_refused};
use crate::files::{entries_of, EntryFacts, FileEntry};
use crate::json::{
    array, array_text, object, object_shows, object_text, pairs, quote, quoted, shown, tells,
    text_or, trees, truth, truth_text, Json, Tree,
};
use crate::link::text_pairs;
use crate::names::{name_of, sanitize_name};
use crate::text::{concat2, copy_texts, has_part, push_text, same, texts};
use vstd::prelude::*;

verus! {

/// What is asked of the panel.
#[derive(Debug)]
pub enum PanelOp {
    Mkdir { root: String, path: String, name: String },
    Rename { root: String, path: String, name: String, to: String },
    Copy { root: String, path: String, names: Vec<String>, to_root: String, to_path: String },
    Delete { root: String, path: String, names: Vec<String> },
}

#[verifier::ext_equal]
pub ghost enum PanelAsk {
    Mkdir { root: Seq<char>, path: Seq<char>, name: Seq<char> },
    Rename { root: Seq<char>, path: Seq<char>, name: Seq<char>, to: Seq<char> },
    Copy {
        root: Seq<char>,
        path: Seq<char>,
        names: Seq<Seq<char>>,
        to_root: Seq<char>,
        to_path: Seq<char>,
    },
    Delete { root: Seq<char>, path: Seq<char>, names: Seq<Seq<char>> },
}

impl View for PanelOp {
    type V = PanelAsk;

    open spec fn view(&self) -> PanelAsk {
        match self {
            PanelOp::Mkdir { root, path, name } => PanelAsk::Mkdir {
                root: root@,
                path: path@,
                name: name@,
            },
            PanelOp::Rename { root, path, name, to } => PanelAsk::Rename {
                root: root@,
                path: path@,
                name: name@,
                to: to@,
            },
            PanelOp::Copy { root, path, names, to_root, to_path } => PanelAsk::Copy {
                root: root@,
                path: path@,
                names: texts(names@),
                to_root: to_root@,
                to_path: to_path@,
            },
            PanelOp::Delete { root, path, names } => PanelAsk::Delete {
                root: root@,
                path: path@,
                names: texts(names@),
            },
        }
    }
}

/// The values under a name that are not empty, in their order.
pub open spec fn values_named(q: Seq<(Seq<char>, Seq<char>)>, name: Seq<char>) -> Seq<Seq<char>>
    decreases q.len(),
{
    if q.len() == 0 {
        Seq::empty()
    } else if q.last().0 == name && q.last().1.len() > 0 {
        values_named(q.drop_last(), name).push(q.last().1)
    } else {
        values_named(q.drop_last(), name)
    }
}

fn all_values(q: &Vec<(String, String)>, name: &str) -> (out: Vec<String>)
    ensures
        texts(out@) == values_named(text_pairs(q@), name@),
{
    let ghost all = text_pairs(q@);
    let mut out: Vec<String> = Vec::new();
    let mut i: usize = 0;
    assert(texts(out@) =~= values_named(all.take(0), name@));
    while i < q.len()
        invariant
            i <= q@.len(),
            all == text_pairs(q@),
            texts(out@) == values_named(all.take(i as int), name@),
        decreases q@.len() - i,
    {
        assert(all.take(i + 1).drop_last() =~= all.take(i as int));
        assert(all.take(i + 1).last() == all[i as int]);
        if same(q[i].0.as_str(), name) && !q[i].1.as_str().is_empty() {
            push_text(&mut out, q[i].1.as_str());
        }
        i += 1;
    }
    assert(all.take(all.len() as int) =~= all);
    out
}

/// The files that a query names.
pub fn query_names(query: &str) -> (r: Result<Vec<String>, Refusal>)
    ensures
        match r {
            Ok(v) => texts(v@) == values_named(form_of(query@), "name"@) && v@.len() > 0,
            Err(e) => values_named(form_of(query@), "name"@).len() == 0 && e.status == 400
                && e.reason@ == "missing name"@,
        },
{
    let v = all_values(&form_pairs(query), "name");
    assert(texts(v@).len() == v@.len());
    if v.len() == 0 {
        Err(Refusal { status: 400, reason: "missing name" })
    } else {
        Ok(v)
    }
}

/// A folder that is named, or the inbox.
pub open spec fn root_or_inbox(s: Seq<char>) -> Seq<char> {
    if s.len() == 0 {
        "inbox"@
    } else {
        s
    }
}

fn or_inbox(s: String) -> (r: String)
    ensures
        r@ == root_or_inbox(s@),
{
    if s.as_str().is_empty() {
        "inbox".to_owned()
    } else {
        s
    }
}

/// What a query asks to be removed.
pub fn delete_request(query: &str) -> (r: Result<PanelOp, Refusal>)
    ensures
        match r {
            Ok(op) => values_named(form_of(query@), "name"@).len() > 0 && op@ == (PanelAsk::Delete {
                root: root_or_inbox(last_value(form_of(query@), "root"@)),
                path: last_value(form_of(query@), "path"@),
                names: values_named(form_of(query@), "name"@),
            }),
            Err(e) => values_named(form_of(query@), "name"@).len() == 0 && e.status == 400
                && e.reason@ == "missing name"@,
        },
{
    match query_names(query) {
        Err(e) => Err(e),
        Ok(names) => {
            let root = or_inbox(query_value(query, "root"));
            let path = query_value(query, "path");
            assert(texts(names@).len() == names@.len());
            Ok(PanelOp::Delete { root, path, names })
        },
    }
}

pub open spec fn word_at(v: Tree, k: Seq<char>) -> Seq<char> {
    text_or(v.text_at(k), Seq::empty())
}

/// The texts in a list that are not empty.
pub open spec fn item_words(items: Seq<Tree>) -> Seq<Seq<char>>
    decreases items.len(),
{
    if items.len() == 0 {
        Seq::empty()
    } else {
        match items.last() {
            Tree::Str(s) => if s.len() > 0 {
                item_words(items.drop_last()).push(s)
            } else {
                item_words(items.drop_last())
            },
            _ => item_words(items.drop_last()),
        }
    }
}

fn words_in(v: &Vec<Json>) -> (out: Vec<String>)
    ensures
        texts(out@) == item_words(trees(v@)),
{
    let ghost all = trees(v@);
    let mut out: Vec<String> = Vec::new();
    let mut i: usize = 0;
    assert(texts(out@) =~= item_words(all.take(0)));
    while i < v.len()
        invariant
            i <= v@.len(),
            all == trees(v@),
            texts(out@) == item_words(all.take(i as int)),
        decreases v@.len() - i,
    {
        assert(all.take(i + 1).drop_last() =~= all.take(i as int));
        assert(all.take(i + 1).last() == v@[i as int].tree());
        if let Some(s) = v[i].as_text() {
            if !s.is_empty() {
                push_text(&mut out, s);
            }
        }
        i += 1;
    }
    assert(all.take(all.len() as int) =~= all);
    out
}

/// The files that a request names: a list, or one.
pub open spec fn names_asked(v: Tree) -> Seq<Seq<char>> {
    match v.items_at("names"@) {
        Some(items) => item_words(items),
        None => if word_at(v, "name"@).len() > 0 {
            seq![word_at(v, "name"@)]
        } else {
            Seq::empty()
        },
    }
}

fn names_in(v: &Json) -> (out: Vec<String>)
    ensures
        texts(out@) == names_asked(v.tree()),
{
    match v.items_at("names") {
        Some(items) => words_in(items),
        None => {
            let name = v.text_or_empty("name");
            let mut out: Vec<String> = Vec::new();
            assert(texts(out@) =~= Seq::<Seq<char>>::empty());
            if !name.as_str().is_empty() {
                push_text(&mut out, name.as_str());
                assert(texts(out@) =~= seq![name@]);
            }
            out
        },
    }
}

/// The folder that a body asks to be made, or why it is refused.
pub open spec fn mkdir_asked(body: Option<Tree>) -> Result<PanelAsk, Seq<char>> {
    match object_refused(body) {
        Some(why) => Err(why),
        None => {
            let v = body->Some_0;
            let name = word_at(v, "name"@);
            if name.len() == 0 {
                Err("missing name"@)
            } else {
                Ok(
                    PanelAsk::Mkdir {
                        root: root_or_inbox(word_at(v, "root"@)),
                        path: word_at(v, "path"@),
                        name,
                    },
                )
            }
        },
    }
}

pub open spec fn asked_of(r: Result<PanelOp, Refusal>, want: Result<PanelAsk, Seq<char>>) -> bool {
    match (r, want) {
        (Ok(op), Ok(ask)) => op@ == ask,
        (Err(e), Err(why)) => e.status == 400 && e.reason@ == why,
        _ => false,
    }
}

pub fn mkdir_request(body: &[u8]) -> (r: Result<PanelOp, Refusal>)
    ensures
        asked_of(r, mkdir_asked(body_tree(body@))),
{
    let v = match body_object(body) {
        Ok(v) => v,
        Err(e) => {
            return Err(e);
        },
    };
    let name = v.text_or_empty("name");
    if name.as_str().is_empty() {
        return Err(Refusal { status: 400, reason: "missing name" });
    }
    let root = or_inbox(v.text_or_empty("root"));
    Ok(PanelOp::Mkdir { root, path: v.text_or_empty("path"), name })
}

/// What a body asks to be renamed, or why it is refused.
pub open spec fn rename_asked(body: Option<Tree>) -> Result<PanelAsk, Seq<char>> {
    match object_refused(body) {
        Some(why) => Err(why),
        None => {
            let v = body->Some_0;
            let name = word_at(v, "name"@);
            let to = word_at(v, "to"@);
            if name.len() == 0 || to.len() == 0 {
                Err("missing name"@)
            } else {
                Ok(
                    PanelAsk::Rename {
                        root: root_or_inbox(word_at(v, "root"@)),
                        path: word_at(v, "path"@),
                        name,
                        to,
                    },
                )
            }
        },
    }
}

pub fn rename_request(body: &[u8]) -> (r: Result<PanelOp, Refusal>)
    ensures
        asked_of(r, rename_asked(body_tree(body@))),
{
    let v = match body_object(body) {
        Ok(v) => v,
        Err(e) => {
            return Err(e);
        },
    };
    let name = v.text_or_empty("name");
    let to = v.text_or_empty("to");
    if name.as_str().is_empty() || to.as_str().is_empty() {
        return Err(Refusal { status: 400, reason: "missing name" });
    }
    let root = or_inbox(v.text_or_empty("root"));
    Ok(PanelOp::Rename { root, path: v.text_or_empty("path"), name, to })
}

/// What a body asks to be copied, or why it is refused.
pub open spec fn copy_asked(body: Option<Tree>) -> Result<PanelAsk, Seq<char>> {
    match object_refused(body) {
        Some(why) => Err(why),
        None => {
            let v = body->Some_0;
            let names = names_asked(v);
            if names.len() == 0 {
                Err("missing name"@)
            } else {
                Ok(
                    PanelAsk::Copy {
                        root: root_or_inbox(word_at(v, "root"@)),
                        path: word_at(v, "path"@),
                        names,
                        to_root: root_or_inbox(word_at(v, "toRoot"@)),
                        to_path: word_at(v, "toPath"@),
                    },
                )
            }
        },
    }
}

pub fn copy_request(body: &[u8]) -> (r: Result<PanelOp, Refusal>)
    ensures
        asked_of(r, copy_asked(body_tree(body@))),
{
    let v = match body_object(body) {
        Ok(v) => v,
        Err(e) => {
            return Err(e);
        },
    };
    let names = names_in(&v);
    assert(texts(names@).len() == names@.len());
    if names.len() == 0 {
        return Err(Refusal { status: 400, reason: "missing name" });
    }
    let root = or_inbox(v.text_or_empty("root"));
    let to_root = or_inbox(v.text_or_empty("toRoot"));
    Ok(
        PanelOp::Copy {
            root,
            path: v.text_or_empty("path"),
            names,
            to_root,
            to_path: v.text_or_empty("toPath"),
        },
    )
}

/// What is asked of the panel by the name of an operation; nothing under any
/// other name, and nothing where no file is named.
pub open spec fn managed(
    op: Seq<char>,
    names: Seq<Seq<char>>,
    root: Seq<char>,
    path: Seq<char>,
    to: Seq<char>,
    to_root: Seq<char>,
    to_path: Seq<char>,
) -> Option<PanelAsk> {
    let root = root_or_inbox(root);
    if names.len() == 0 {
        None
    } else if op == "mkdir"@ {
        Some(PanelAsk::Mkdir { root, path, name: names[0] })
    } else if op == "rename"@ {
        Some(PanelAsk::Rename { root, path, name: names[0], to })
    } else if op == "copy"@ {
        Some(
            PanelAsk::Copy { root, path, names, to_root: root_or_inbox(to_root), to_path },
        )
    } else if op == "delete"@ {
        Some(PanelAsk::Delete { root, path, names })
    } else {
        None
    }
}

/// The names of an operation: those in its list, or its one name.
pub open spec fn managed_names(name: Seq<char>, names: Seq<Seq<char>>) -> Seq<Seq<char>> {
    if names.len() > 0 || name.len() == 0 {
        names
    } else {
        seq![name]
    }
}

pub fn manage(
    op: &str,
    name: &str,
    names: &Vec<String>,
    root: &str,
    path: &str,
    to: &str,
    to_root: &str,
    to_path: &str,
) -> (r: Option<PanelOp>)
    ensures
        match r {
            Some(p) => managed(
                op@,
                managed_names(name@, texts(names@)),
                root@,
                path@,
                to@,
                to_root@,
                to_path@,
            ) == Some(p@),
            None => managed(
                op@,
                managed_names(name@, texts(names@)),
                root@,
                path@,
                to@,
                to_root@,
                to_path@,
            ) is None,
        },
{
    let mut all = copy_texts(names);
    assert(texts(all@).len() == all@.len());
    if all.len() == 0 && !name.is_empty() {
        push_text(&mut all, name);
        assert(texts(all@) =~= seq![name@]);
    }
    assert(texts(all@) == managed_names(name@, texts(names@)));
    assert(texts(all@).len() == all@.len());
    if all.len() == 0 {
        return None;
    }
    assert(texts(all@)[0] == all@[0]@);
    let root = or_inbox(root.to_owned());
    let path = path.to_owned();
    if same(op, "mkdir") {
        Some(PanelOp::Mkdir { root, path, name: all[0].clone() })
    } else if same(op, "rename") {
        Some(PanelOp::Rename { root, path, name: all[0].clone(), to: to.to_owned() })
    } else if same(op, "copy") {
        Some(
            PanelOp::Copy {
                root,
                path,
                names: all,
                to_root: or_inbox(to_root.to_owned()),
                to_path: to_path.to_owned(),
            },
        )
    } else if same(op, "delete") {
        Some(PanelOp::Delete { root, path, names: all })
    } else {
        None
    }
}

/// What a file or folder is renamed to, or why it is not. `there` says whether
/// it exists, `taken` whether the new name does.
pub fn rename_check(to: &str, there: bool, taken: bool) -> (r: Result<String, String>)
    ensures
        match r {
            Ok(n) => name_of(to@) == Some(n@) && there && !taken,
            Err(e) => e@ == if name_of(to@) is None {
                "invalid file name"@
            } else if !there {
                "file not found"@
            } else {
                "already exists"@
            } && (name_of(to@) is None || !there || taken),
        },
{
    match sanitize_name(to) {
        None => Err("invalid file name".to_owned()),
        Some(n) => if !there {
            Err("file not found".to_owned())
        } else if taken {
            Err("already exists".to_owned())
        } else {
            Ok(n)
        },
    }
}

/// The HTTP status of an error: what is not there, what is there already, and
/// anything else that cannot be asked for.
pub open spec fn error_status(error: Seq<char>) -> u16 {
    if error == "file not found"@ {
        404
    } else if error == "already exists"@ {
        409
    } else {
        400
    }
}

pub fn status_of(error: &str) -> (n: u16)
    ensures
        n == error_status(error@),
{
    if same(error, "file not found") {
        404
    } else if same(error, "already exists") {
        409
    } else {
        400
    }
}

/// How files are downloaded: one as it is; a folder, or several, as an archive.
#[derive(Debug)]
pub enum Download {
    Plain { name: String },
    Archive { name: String },
}

pub fn download_as(names: &Vec<String>, is_dir: bool) -> (d: Download)
    requires
        names@.len() > 0,
    ensures
        match d {
            Download::Plain { name } => names@.len() == 1 && !is_dir && name@ == names@[0]@,
            Download::Archive { name } => if names@.len() == 1 {
                is_dir && name@ == names@[0]@ + ".zip"@
            } else {
                name@ == "files.zip"@
            },
        },
{
    if names.len() > 1 {
        Download::Archive { name: "files.zip".to_owned() }
    } else if is_dir {
        Download::Archive { name: concat2(names[0].as_str(), ".zip") }
    } else {
        Download::Plain { name: names[0].clone() }
    }
}

pub open spec fn mkdir_body(name: Seq<char>) -> Seq<char> {
    object_text(
        seq![
            ("dir"@, truth_text(true)),
            ("mkdir"@, truth_text(true)),
            ("name"@, quoted(name)),
            ("ok"@, truth_text(true)),
        ],
    )
}

/// What a folder that was made is answered.
pub fn made_json(name: &str) -> (s: String)
    ensures
        s@ == mkdir_body(name@),
{
    let v: Vec<(&str, String)> = vec![
        ("dir", truth(true)),
        ("mkdir", truth(true)),
        ("name", quote(name)),
        ("ok", truth(true)),
    ];
    assert(pairs(v@) =~= seq![
        ("dir"@, truth_text(true)),
        ("mkdir"@, truth_text(true)),
        ("name"@, quoted(name@)),
        ("ok"@, truth_text(true)),
    ]);
    object(&v)
}

pub open spec fn renamed_body(name: Seq<char>) -> Seq<char> {
    object_text(
        seq![
            ("name"@, quoted(name)),
            ("ok"@, truth_text(true)),
            ("renamed"@, truth_text(true)),
        ],
    )
}

/// What a file that has a new name is answered.
pub fn renamed_json(name: &str) -> (s: String)
    ensures
        s@ == renamed_body(name@),
{
    let v: Vec<(&str, String)> = vec![
        ("name", quote(name)),
        ("ok", truth(true)),
        ("renamed", truth(true)),
    ];
    assert(pairs(v@) =~= seq![
        ("name"@, quoted(name@)),
        ("ok"@, truth_text(true)),
        ("renamed"@, truth_text(true)),
    ]);
    object(&v)
}

pub open spec fn quoted_all(v: Seq<Seq<char>>) -> Seq<Seq<char>> {
    Seq::new(v.len(), |i: int| quoted(v[i]))
}

fn quote_all(v: &Vec<String>) -> (out: Vec<String>)
    ensures
        texts(out@) == quoted_all(texts(v@)),
{
    let ghost all = quoted_all(texts(v@));
    let mut out: Vec<String> = Vec::new();
    let mut i: usize = 0;
    assert(texts(out@) =~= all.take(0));
    while i < v.len()
        invariant
            i <= v@.len(),
            all == quoted_all(texts(v@)),
            texts(out@) == all.take(i as int),
        decreases v@.len() - i,
    {
        push_text(&mut out, quote(v[i].as_str()).as_str());
        assert(all.take(i + 1) =~= all.take(i as int).push(all[i as int]));
        i += 1;
    }
    assert(all.take(all.len() as int) =~= all);
    out
}

pub open spec fn copied_body(names: Seq<Seq<char>>) -> Seq<char> {
    object_text(
        seq![
            ("copied"@, truth_text(true)),
            ("name"@, quoted(names[0])),
            ("names"@, array_text(quoted_all(names))),
            ("ok"@, truth_text(true)),
        ],
    )
}

/// What copies are answered: the names that they got.
pub fn copied_json(names: &Vec<String>) -> (s: String)
    requires
        names@.len() > 0,
    ensures
        s@ == copied_body(texts(names@)),
{
    let all = quote_all(names);
    let v: Vec<(&str, String)> = vec![
        ("copied", truth(true)),
        ("name", quote(names[0].as_str())),
        ("names", array(&all)),
        ("ok", truth(true)),
    ];
    assert(pairs(v@) =~= seq![
        ("copied"@, truth_text(true)),
        ("name"@, quoted(texts(names@)[0])),
        ("names"@, array_text(quoted_all(texts(names@)))),
        ("ok"@, truth_text(true)),
    ]);
    object(&v)
}

pub open spec fn entry_names(v: Seq<EntryFacts>) -> Seq<Seq<char>> {
    Seq::new(v.len(), |i: int| v[i].name)
}

pub open spec fn deleted_body(gone: Seq<EntryFacts>) -> Seq<char> {
    object_text(
        seq![
            ("deleted"@, truth_text(true)),
            ("dir"@, truth_text(gone[0].dir)),
            ("name"@, quoted(gone[0].name)),
            ("names"@, array_text(quoted_all(entry_names(gone)))),
            ("ok"@, truth_text(true)),
        ],
    )
}

/// What is answered when files and folders were removed.
pub fn deleted_json(gone: &Vec<FileEntry>) -> (s: String)
    requires
        gone@.len() > 0,
    ensures
        s@ == deleted_body(entries_of(gone@)),
{
    let ghost want = entry_names(entries_of(gone@));
    let mut names: Vec<String> = Vec::new();
    let mut i: usize = 0;
    assert(texts(names@) =~= want.take(0));
    while i < gone.len()
        invariant
            i <= gone@.len(),
            want == entry_names(entries_of(gone@)),
            texts(names@) == want.take(i as int),
        decreases gone@.len() - i,
    {
        push_text(&mut names, gone[i].name.as_str());
        assert(want.take(i + 1) =~= want.take(i as int).push(want[i as int]));
        i += 1;
    }
    assert(want.take(want.len() as int) =~= want);
    let all = quote_all(&names);
    let v: Vec<(&str, String)> = vec![
        ("deleted", truth(true)),
        ("dir", truth(gone[0].dir)),
        ("name", quote(gone[0].name.as_str())),
        ("names", array(&all)),
        ("ok", truth(true)),
    ];
    assert(pairs(v@) =~= seq![
        ("deleted"@, truth_text(true)),
        ("dir"@, truth_text(entries_of(gone@)[0].dir)),
        ("name"@, quoted(entries_of(gone@)[0].name)),
        ("names"@, array_text(quoted_all(want))),
        ("ok"@, truth_text(true)),
    ]);
    object(&v)
}

proof fn panel_words_are_spelled()
    ensures
        "mkdir"@.len() == 5,
        "rename"@.len() == 6 && "rename"@[0] == 'r',
        "copy"@.len() == 4,
        "delete"@.len() == 6 && "delete"@[0] == 'd',
{
    reveal_strlit("mkdir");
    reveal_strlit("rename");
    reveal_strlit("copy");
    reveal_strlit("delete");
}

/// A task works the panel by four words, on what it names, in the inbox where it
/// names no folder; without a name it does nothing.
pub proof fn four_words_work_the_panel(
    names: Seq<Seq<char>>,
    root: Seq<char>,
    path: Seq<char>,
    to: Seq<char>,
    to_root: Seq<char>,
    to_path: Seq<char>,
)
    requires
        names.len() > 0,
    ensures
        ({
            let r = if root.len() == 0 {
                "inbox"@
            } else {
                root
            };
            let t = if to_root.len() == 0 {
                "inbox"@
            } else {
                to_root
            };
            &&& managed("mkdir"@, names, root, path, to, to_root, to_path) == Some(
                PanelAsk::Mkdir { root: r, path, name: names[0] },
            )
            &&& managed("rename"@, names, root, path, to, to_root, to_path) == Some(
                PanelAsk::Rename { root: r, path, name: names[0], to },
            )
            &&& managed("copy"@, names, root, path, to, to_root, to_path) == Some(
                PanelAsk::Copy { root: r, path, names, to_root: t, to_path },
            )
            &&& managed("delete"@, names, root, path, to, to_root, to_path) == Some(
                PanelAsk::Delete { root: r, path, names },
            )
        }),
        forall|op: Seq<char>|
            #[trigger] managed(op, Seq::empty(), root, path, to, to_root, to_path) is None,
{
    panel_words_are_spelled();
}

/// Names that are listed go before a single one.
pub proof fn listed_names_go_first(name: Seq<char>, names: Seq<Seq<char>>)
    ensures
        names.len() > 0 ==> managed_names(name, names) == names,
        names.len() == 0 && name.len() > 0 ==> managed_names(name, names) == seq![name],
        names.len() == 0 && name.len() == 0 ==> managed_names(name, names).len() == 0,
{
}

/// A folder is made under the name that is asked for; a request without a name,
/// or that is no object, is refused.
pub proof fn requests_for_folders(v: Tree, name: Seq<char>)
    requires
        v is Obj,
    ensures
        v.get("name"@) == Some(Tree::Str(name)) && name.len() > 0 ==> mkdir_asked(Some(v)) == Ok::<
            PanelAsk,
            Seq<char>,
        >(
            PanelAsk::Mkdir {
                root: root_or_inbox(word_at(v, "root"@)),
                path: word_at(v, "path"@),
                name,
            },
        ),
        v.get("name"@) is None ==> mkdir_asked(Some(v)) == Err::<PanelAsk, Seq<char>>(
            "missing name"@,
        ),
        mkdir_asked(None) is Err,
        rename_asked(None) is Err,
        copy_asked(None) is Err,
{
}

/// A file is renamed from one name to the other, and copied from one folder to
/// the other, all that are named.
pub proof fn requests_for_files(v: Tree, name: Seq<char>, to: Seq<char>, names: Seq<Tree>)
    requires
        v is Obj,
        v.get("name"@) == Some(Tree::Str(name)),
        name.len() > 0,
    ensures
        v.get("to"@) == Some(Tree::Str(to)) && to.len() > 0 ==> rename_asked(Some(v)) == Ok::<
            PanelAsk,
            Seq<char>,
        >(
            PanelAsk::Rename {
                root: root_or_inbox(word_at(v, "root"@)),
                path: word_at(v, "path"@),
                name,
                to,
            },
        ),
        v.get("to"@) is None ==> rename_asked(Some(v)) is Err,
        v.get("names"@) is None ==> copy_asked(Some(v)) == Ok::<PanelAsk, Seq<char>>(
            PanelAsk::Copy {
                root: root_or_inbox(word_at(v, "root"@)),
                path: word_at(v, "path"@),
                names: seq![name],
                to_root: root_or_inbox(word_at(v, "toRoot"@)),
                to_path: word_at(v, "toPath"@),
            },
        ),
        v.get("names"@) == Some(Tree::Arr(names)) && item_words(names).len() > 0 ==> copy_asked(
            Some(v),
        ) == Ok::<PanelAsk, Seq<char>>(
            PanelAsk::Copy {
                root: root_or_inbox(word_at(v, "root"@)),
                path: word_at(v, "path"@),
                names: item_words(names),
                to_root: root_or_inbox(word_at(v, "toRoot"@)),
                to_path: word_at(v, "toPath"@),
            },
        ),
{
}

/// Names are taken in their order, those that are texts and not empty.
pub proof fn names_are_taken_in_order(items: Seq<Tree>, q: Seq<(Seq<char>, Seq<char>)>, s: Seq<char>)
    ensures
        s.len() > 0 ==> item_words(items.push(Tree::Str(s))) == item_words(items).push(s),
        item_words(items.push(Tree::Null)) == item_words(items),
        item_words(items.push(Tree::Str(Seq::empty()))) == item_words(items),
        s.len() > 0 ==> values_named(q.push(("name"@, s)), "name"@) == values_named(q, "name"@).push(
            s,
        ),
        values_named(q.push(("name"@, Seq::empty())), "name"@) == values_named(q, "name"@),
        values_named(q.push(("path"@, s)), "name"@) == values_named(q, "name"@),
{
    let none = Seq::<char>::empty();
    assert(items.push(Tree::Str(s)).drop_last() =~= items);
    assert(items.push(Tree::Null).drop_last() =~= items);
    assert(items.push(Tree::Str(none)).drop_last() =~= items);
    assert(q.push(("name"@, s)).drop_last() =~= q);
    assert(q.push(("name"@, none)).drop_last() =~= q);
    assert(q.push(("path"@, s)).drop_last() =~= q);
    reveal_strlit("name");
    reveal_strlit("path");
    assert("name"@[0] == 'n' && "path"@[0] == 'p');
}

/// What is missing is answered as not found, what is there already as a
/// conflict, and anything else as a bad request.
pub proof fn refusals_have_their_status(e: Seq<char>)
    ensures
        error_status("file not found"@) == 404,
        error_status("already exists"@) == 409,
        e.len() != 14 ==> error_status(e) == 400,
{
    reveal_strlit("file not found");
    reveal_strlit("already exists");
    assert("file not found"@[0] == 'f' && "already exists"@[0] == 'a');
    assert("file not found"@.len() == 14 && "already exists"@.len() == 14);
}

/// Answers tell what was done and to what.
pub proof fn answers_tell_what_was_done(name: Seq<char>, names: Seq<Seq<char>>, gone: Seq<EntryFacts>)
    requires
        names.len() > 0,
        gone.len() > 0,
    ensures
        tells(mkdir_body(name), "ok"@, true) && tells(mkdir_body(name), "mkdir"@, true) && tells(
            mkdir_body(name),
            "dir"@,
            true,
        ) && has_part(mkdir_body(name), shown("name"@, quoted(name))),
        tells(renamed_body(name), "ok"@, true) && tells(renamed_body(name), "renamed"@, true)
            && has_part(renamed_body(name), shown("name"@, quoted(name))),
        tells(copied_body(names), "ok"@, true) && tells(copied_body(names), "copied"@, true)
            && has_part(copied_body(names), shown("name"@, quoted(names[0]))) && has_part(
            copied_body(names),
            shown("names"@, array_text(quoted_all(names))),
        ),
        tells(deleted_body(gone), "ok"@, true) && tells(deleted_body(gone), "deleted"@, true)
            && tells(deleted_body(gone), "dir"@, gone[0].dir) && has_part(
            deleted_body(gone),
            shown("name"@, quoted(gone[0].name)),
        ) && has_part(
            deleted_body(gone),
            shown("names"@, array_text(quoted_all(entry_names(gone)))),
        ),
        quoted_all(names).len() == names.len(),
        forall|i: int| 0 <= i < names.len() ==> #[trigger] quoted_all(names)[i] == quoted(names[i]),
        entry_names(gone).len() == gone.len(),
        forall|i: int| 0 <= i < gone.len() ==> #[trigger] entry_names(gone)[i] == gone[i].name,
{
    let a = seq![
        ("dir"@, truth_text(true)),
        ("mkdir"@, truth_text(true)),
        ("name"@, quoted(name)),
        ("ok"@, truth_text(true)),
    ];
    object_shows(a, 0);
    object_shows(a, 1);
    object_shows(a, 2);
    object_shows(a, 3);
    let b = seq![
        ("name"@, quoted(name)),
        ("ok"@, truth_text(true)),
        ("renamed"@, truth_text(true)),
    ];
    object_shows(b, 0);
    object_shows(b, 1);
    object_shows(b, 2);
    let c = seq![
        ("copied"@, truth_text(true)),
        ("name"@, quoted(names[0])),
        ("names"@, array_text(quoted_all(names))),
        ("ok"@, truth_text(true)),
    ];
    object_shows(c, 0);
    object_shows(c, 1);
    object_shows(c, 2);
    object_shows(c, 3);
    let d = seq![
        ("deleted"@, truth_text(true)),
        ("dir"@, truth_text(gone[0].dir)),
        ("name"@, quoted(gone[0].name)),
        ("names"@, array_text(quoted_all(entry_names(gone)))),
        ("ok"@, truth_text(true)),
    ];
    object_shows(d, 0);
    object_shows(d, 1);
    object_shows(d, 2);
    object_shows(d, 3);
    object_shows(d, 4);
}

} // verus!
