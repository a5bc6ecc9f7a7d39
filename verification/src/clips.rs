//! The host's pasteboard: what is on it goes to the watchers, and what they
//! send is put on it.

use crate::files::{entries_of, EntryFacts, FileEntry};
use crate::input::{file_clip_key, paths_key, Act, Action, CLIP_FILES_MAX};
use crate::json::{
    object, object_shows, object_text, pairs, parsed, quote, quoted, shown, tells, truth, truth_text,
    Json, Tree,
};
use crate::otp::{hex_reads_back, hex_text};
use crate::panel::{manage, managed, managed_names};
use crate::server::{emit, fxs, one, App, AppState, Effect, Fx};
use crate::text::{
    begins, chars_of, copy_texts, decimal, decimal_text, ends, ends_with, has_part, opt_text, push_text, same,
    starts_with, texts, trim, trimmed,
};
use crate::wol::{hex_byte, hex_digit, is_hex};
use vstd::prelude::*;

verus! {

/// A file of the host's pasteboard is offered.
pub open spec fn offer_text(e: EntryFacts) -> Seq<char> {
    object_text(
        seq![
            ("action"@, quoted("ok"@)),
            ("name"@, quoted(e.name)),
            ("offer"@, truth_text(true)),
            ("size"@, decimal(e.size as nat)),
            ("type"@, quoted("file"@)),
        ],
    )
}

fn offer_json(e: &FileEntry) -> (s: String)
    ensures
        s@ == offer_text(e@),
{
    let v: Vec<(&str, String)> = vec![
        ("action", quote("ok")),
        ("name", quote(e.name.as_str())),
        ("offer", truth(true)),
        ("size", decimal_text(e.size)),
        ("type", quote("file")),
    ];
    assert(pairs(v@) =~= seq![
        ("action"@, quoted("ok"@)),
        ("name"@, quoted(e@.name)),
        ("offer"@, truth_text(true)),
        ("size"@, decimal(e@.size as nat)),
        ("type"@, quoted("file"@)),
    ]);
    object(&v)
}

pub open spec fn offer_texts(entries: Seq<EntryFacts>) -> Seq<Seq<char>> {
    Seq::new(entries.len(), |i: int| offer_text(entries[i]))
}

/// The name of a file that an answer says is there.
pub open spec fn kept_name(msg: Seq<char>) -> Option<Seq<char>> {
    match parsed(msg) {
        Some(v) => if v.text_at("type"@) == Some("file"@) && v.text_at("action"@) == Some("ok"@) {
            v.text_at("name"@)
        } else {
            None
        },
        None => None,
    }
}

fn name_kept(msg: &str) -> (r: Option<String>)
    ensures
        opt_text(r) == kept_name(msg@),
{
    match Json::parse(msg) {
        Some(v) => {
            let of_file = match v.text_at("type") {
                Some(t) => same(t, "file"),
                None => false,
            };
            let ok = match v.text_at("action") {
                Some(a) => same(a, "ok"),
                None => false,
            };
            if !of_file || !ok {
                return None;
            }
            match v.text_at("name") {
                Some(n) => Some(n.to_owned()),
                None => None,
            }
        },
        None => None,
    }
}

impl AppState {
    /// Whether the files on the host's pasteboard are new.
    pub open spec fn takes_files(self, paths: Seq<Seq<char>>) -> bool {
        &&& self.cfg.control.enabled
        &&& paths.len() > 0
        &&& paths_key(paths) != "files:"@
        &&& self.last_clip != paths_key(paths)
    }

    /// The files that came into the inbox from the pasteboard are offered, and
    /// the new listing follows.
    pub open spec fn files_clipped(self, entries: Seq<EntryFacts>, list: Seq<char>) -> (
        AppState,
        Seq<Fx>,
    ) {
        if entries.len() == 0 {
            (self, Seq::empty())
        } else {
            self.shared(offer_texts(entries).push(list))
        }
    }

    /// Whether what is on the pasteboard besides files is shared.
    pub open spec fn polls(self, png: Option<Seq<u8>>, text: Option<Seq<char>>) -> bool {
        &&& self.cfg.control.enabled
        &&& (png is Some && self.clips_png(png->Some_0)) || (text is Some && self.clips_text(
            text->Some_0,
        ))
    }

    /// What is on the pasteboard besides files is shared: an image before text.
    pub open spec fn polled(self, png: Option<Seq<u8>>, text: Option<Seq<char>>) -> (
        AppState,
        Seq<Fx>,
    ) {
        if !self.cfg.control.enabled {
            (self, Seq::empty())
        } else if png is Some && self.clips_png(png->Some_0) {
            self.png_clipped(png->Some_0)
        } else {
            match text {
                Some(t) => self.text_clipped(t),
                None => (self, Seq::empty()),
            }
        }
    }

    /// Answers about files go out; each file that was kept is offered first.
    pub open spec fn answered(self, msgs: Seq<Seq<char>>) -> (AppState, Seq<Fx>)
        decreases msgs.len(),
    {
        if msgs.len() == 0 {
            (self, Seq::empty())
        } else {
            let r = self.answered(msgs.drop_last());
            let offer = match kept_name(msgs.last()) {
                Some(n) => seq![Fx::Offer(n)],
                None => Seq::empty(),
            };
            let s = r.0.shared(one(msgs.last()));
            (s.0, r.1 + offer + s.1)
        }
    }

    /// What an action that a model asks for leads to. One that picks a display
    /// does so first; one that brings a file only keeps it, and one for the
    /// file panel goes there.
    pub open spec fn hooked(self, a: Act) -> (AppState, Seq<Fx>) {
        match a {
            Act::Display { id } => {
                let r = self.shown_on(id);
                (r.0, r.1.push(Fx::Inject(a)))
            },
            Act::File { name, data } => (self, seq![Fx::Keep { name, data }]),
            Act::FileManage { op, name, names, root, path, to, to_root, to_path } => (
                self,
                match managed(op, managed_names(name, names), root, path, to, to_root, to_path) {
                    Some(ask) => seq![Fx::Manage(ask)],
                    None => Seq::empty(),
                },
            ),
            _ => (self, seq![Fx::Inject(a)]),
        }
    }
}

impl App {
    /// The files on the host's pasteboard: those to bring into the inbox, if
    /// they are new.
    pub fn take_clipboard_files(&mut self, paths: &Vec<String>) -> (r: Option<Vec<String>>)
        ensures
            match r {
                Some(v) => {
                    &&& old(self)@.takes_files(texts(paths@))
                    &&& final(self)@ == (AppState {
                        last_clip: paths_key(texts(paths@)),
                        ..old(self)@
                    })
                    &&& texts(v@) == if paths@.len() <= CLIP_FILES_MAX {
                        texts(paths@)
                    } else {
                        texts(paths@).take(CLIP_FILES_MAX as int)
                    }
                },
                None => !old(self)@.takes_files(texts(paths@)) && final(self)@ == old(self)@,
            },
    {
        if !self.cfg.control.enabled || paths.len() == 0 {
            return None;
        }
        let key = file_clip_key(paths);
        if same(key.as_str(), "files:") || same(self.last_clip.as_str(), key.as_str()) {
            return None;
        }
        self.last_clip = key;
        assert(self@ =~= (AppState { last_clip: paths_key(texts(paths@)), ..old(self)@ }));
        let mut v = copy_texts(paths);
        if v.len() > CLIP_FILES_MAX {
            v.truncate(CLIP_FILES_MAX);
            assert(texts(v@) =~= texts(paths@).take(CLIP_FILES_MAX as int));
        }
        Some(v)
    }

    /// Offers the files that came into the inbox from the pasteboard.
    pub fn push_clipboard_files(
        &mut self,
        entries: &Vec<FileEntry>,
        list: String,
        out: &mut Vec<Effect>,
    ) -> (any: bool)
        ensures
            any == (entries@.len() > 0),
            final(self)@ == old(self)@.files_clipped(entries_of(entries@), list@).0,
            fxs(final(out)@) == fxs(old(out)@) + old(self)@.files_clipped(
                entries_of(entries@),
                list@,
            ).1,
    {
        if entries.len() == 0 {
            assert(fxs(out@) + Seq::<Fx>::empty() =~= fxs(out@));
            return false;
        }
        let ghost all = offer_texts(entries_of(entries@));
        let mut msgs: Vec<String> = Vec::new();
        let mut i: usize = 0;
        assert(texts(msgs@) =~= all.take(0));
        while i < entries.len()
            invariant
                i <= entries@.len() == all.len(),
                all == offer_texts(entries_of(entries@)),
                texts(msgs@) == all.take(i as int),
            decreases entries@.len() - i,
        {
            push_text(&mut msgs, offer_json(&entries[i]).as_str());
            assert(all.take(i + 1) =~= all.take(i as int).push(all[i as int]));
            i += 1;
        }
        assert(all.take(all.len() as int) =~= all);
        push_text(&mut msgs, list.as_str());
        self.share_all(msgs, out);
        true
    }

    /// Push host pasteboard to watchers when it changes. No-op if control is off.
    pub fn poll_clipboard(
        &mut self,
        png: Option<&[u8]>,
        text: Option<&str>,
        out: &mut Vec<Effect>,
    ) -> (r: bool)
        ensures
            ({
                let p = match png {
                    Some(b) => Some(b@),
                    None => None,
                };
                let t = match text {
                    Some(s) => Some(s@),
                    None => None,
                };
                &&& r == old(self)@.polls(p, t)
                &&& final(self)@ == old(self)@.polled(p, t).0
                &&& fxs(final(out)@) == fxs(old(out)@) + old(self)@.polled(p, t).1
            }),
    {
        assert(fxs(out@) + Seq::<Fx>::empty() =~= fxs(out@));
        if !self.cfg.control.enabled {
            return false;
        }
        if let Some(b) = png {
            if self.push_clipboard_png(b, out) {
                return true;
            }
        }
        match text {
            Some(t) => self.push_clipboard_text(t, out),
            None => false,
        }
    }

    /// A file that came in is put on the host's pasteboard, so that pasting
    /// works; it is then not new to the host.
    pub fn offer_incoming_file(&mut self, path: &str, out: &mut Vec<Effect>)
        ensures
            final(self)@ == (AppState { last_clip: paths_key(one(path@)), ..old(self)@ }),
            fxs(final(out)@) == fxs(old(out)@).push(Fx::PutFiles(one(path@))),
    {
        let paths: Vec<String> = vec![path.to_owned()];
        assert(texts(paths@) =~= one(path@));
        self.last_clip = file_clip_key(&paths);
        emit(out, Effect::PutFiles(paths));
        assert(self@ =~= (AppState { last_clip: paths_key(one(path@)), ..old(self)@ }));
    }

    /// Answers about files go to the watchers.
    pub fn send_file_replies(&mut self, msgs: &Vec<String>, out: &mut Vec<Effect>)
        ensures
            final(self)@ == old(self)@.answered(texts(msgs@)).0,
            fxs(final(out)@) == fxs(old(out)@) + old(self)@.answered(texts(msgs@)).1,
    {
        let ghost start = self@;
        let ghost before = fxs(out@);
        let ghost all = texts(msgs@);
        let mut i: usize = 0;
        assert(all.take(0) =~= Seq::<Seq<char>>::empty());
        assert(before + start.answered(all.take(0)).1 =~= before);
        while i < msgs.len()
            invariant
                i <= msgs@.len(),
                all == texts(msgs@),
                self@ == start.answered(all.take(i as int)).0,
                fxs(out@) == before + start.answered(all.take(i as int)).1,
            decreases msgs@.len() - i,
        {
            let ghost here = self@;
            let ghost there = fxs(out@);
            proof {
                assert(all.take(i + 1).drop_last() =~= all.take(i as int));
                assert(all.take(i + 1).last() == msgs@[i as int]@);
            }
            if let Some(name) = name_kept(msgs[i].as_str()) {
                emit(out, Effect::Offer(name));
            }
            self.share(msgs[i].clone(), out);
            proof {
                assert(fxs(out@) =~= before + start.answered(all.take(i + 1)).1);
            }
            i += 1;
        }
        assert(all.take(all.len() as int) =~= all);
    }

    /// An action that a model asks for.
    pub fn hook(&mut self, a: &Action, out: &mut Vec<Effect>)
        ensures
            final(self)@ == old(self)@.hooked(a@).0,
            fxs(final(out)@) == fxs(old(out)@) + old(self)@.hooked(a@).1,
    {
        let ghost before = fxs(out@);
        match a {
            Action::Display { id } => {
                self.select_display(id.as_str(), out);
                emit(out, Effect::Inject(a.copy()));
            },
            Action::File { name, data } => {
                emit(
                    out,
                    Effect::Keep { name: name.clone(), data: crate::octets::copy_of(data) },
                );
            },
            Action::FileManage { op, name, names, root, path, to, to_root, to_path } => {
                let asked = manage(
                    op.as_str(),
                    name.as_str(),
                    names,
                    root.as_str(),
                    path.as_str(),
                    to.as_str(),
                    to_root.as_str(),
                    to_path.as_str(),
                );
                if let Some(p) = asked {
                    emit(out, Effect::Manage(p));
                }
            },
            _ => {
                emit(out, Effect::Inject(a.copy()));
            },
        }
        assert(fxs(out@) =~= before + old(self)@.hooked(a@).1);
    }
}

/// A file that came in from a watcher is not sent back when the pasteboard is
/// looked at.
pub proof fn own_file_is_not_echoed(s: AppState, path: Seq<char>)
    ensures
        !(AppState { last_clip: paths_key(one(path)), ..s }).takes_files(one(path)),
{
}

/// With remote control off, nothing on the host's pasteboard is shared.
pub proof fn clipboard_needs_control(
    s: AppState,
    paths: Seq<Seq<char>>,
    png: Option<Seq<u8>>,
    text: Option<Seq<char>>,
)
    requires
        !s.cfg.control.enabled,
    ensures
        !s.takes_files(paths),
        !s.polls(png, text),
        s.polled(png, text) == (s, Seq::<Fx>::empty()),
{
}

/// The PNG that AppleScript writes for the pasteboard: pairs of hexadecimal
/// digits between `«data PNGf` and `»`.
pub open spec fn script_png(text: Seq<char>) -> Option<Seq<u8>> {
    let t = trimmed(text);
    let head = "«data PNGf"@;
    if begins(t, head) && ends(t, "»"@) && head.len() + 1 <= t.len() {
        unhexed(t.subrange(head.len() as int, t.len() - 1))
    } else {
        None
    }
}

/// The bytes that pairs of hexadecimal digits stand for.
pub open spec fn unhexed(h: Seq<char>) -> Option<Seq<u8>> {
    if h.len() % 2 == 0 && forall|i: int| 0 <= i < h.len() ==> is_hex(#[trigger] h[i]) {
        Some(Seq::new((h.len() / 2) as nat, |i: int| hex_byte(h, i) as u8))
    } else {
        None
    }
}

fn unhex(v: &Vec<char>, from: usize, to: usize) -> (r: Option<Vec<u8>>)
    requires
        from <= to <= v@.len(),
    ensures
        match r {
            Some(b) => unhexed(v@.subrange(from as int, to as int)) == Some(b@),
            None => unhexed(v@.subrange(from as int, to as int)) is None,
        },
{
    let ghost h = v@.subrange(from as int, to as int);
    if (to - from) % 2 != 0 {
        return None;
    }
    let mut out: Vec<u8> = Vec::new();
    let mut i: usize = from;
    while i < to
        invariant
            from <= i <= to <= v@.len(),
            h == v@.subrange(from as int, to as int),
            (to - from) % 2 == 0,
            (i - from) % 2 == 0,
            out@.len() == (i - from) / 2,
            forall|k: int| 0 <= k < i - from ==> is_hex(#[trigger] h[k]),
            forall|k: int| 0 <= k < out@.len() ==> #[trigger] out@[k] == hex_byte(h, k) as u8,
        decreases to - i,
    {
        assert(h[i - from] == v@[i as int]);
        assert(h[i - from + 1] == v@[i + 1]);
        match (hex_digit(v[i]), hex_digit(v[i + 1])) {
            (Some(a), Some(b)) => {
                let ghost n = out@.len() as int;
                assert(hex_byte(h, n) == a * 16 + b);
                out.push(a * 16 + b);
            },
            _ => {
                assert(!is_hex(h[i - from]) || !is_hex(h[i - from + 1]));
                return None;
            },
        }
        i += 2;
    }
    assert(out@ =~= unhexed(h)->Some_0);
    Some(out)
}

pub fn png_of_script(text: &str) -> (r: Option<Vec<u8>>)
    ensures
        match r {
            Some(b) => script_png(text@) == Some(b@),
            None => script_png(text@) is None,
        },
{
    let t = trim(text);
    let v = chars_of(t.as_str());
    let head = chars_of("«data PNGf");
    if starts_with(t.as_str(), "«data PNGf") && ends_with(t.as_str(), "»") && v.len() > head.len() {
        unhex(&v, head.len(), v.len() - 1)
    } else {
        None
    }
}

/// An offer names the file and its size.
pub proof fn offers_name_the_file(e: EntryFacts)
    ensures
        ({
            let t = offer_text(e);
            &&& has_part(t, shown("name"@, quoted(e.name)))
            &&& has_part(t, shown("size"@, decimal(e.size as nat)))
            &&& has_part(t, shown("action"@, quoted("ok"@)))
            &&& has_part(t, shown("type"@, quoted("file"@)))
            &&& tells(t, "offer"@, true)
        }),
{
    let m = seq![
        ("action"@, quoted("ok"@)),
        ("name"@, quoted(e.name)),
        ("offer"@, truth_text(true)),
        ("size"@, decimal(e.size as nat)),
        ("type"@, quoted("file"@)),
    ];
    object_shows(m, 0);
    object_shows(m, 1);
    object_shows(m, 2);
    object_shows(m, 3);
    object_shows(m, 4);
}

/// Files on the pasteboard are taken where control is on and they are not those
/// that were shared last.
pub proof fn new_files_are_taken(s: AppState, paths: Seq<Seq<char>>)
    requires
        paths.len() > 0,
        paths[0].len() > 0,
        s.cfg.control.enabled,
    ensures
        s.takes_files(paths) <==> s.last_clip != paths_key(paths),
        !s.takes_files(Seq::empty()),
{
    files_make_a_key(paths);
    reveal_strlit("files:");
    assert(paths_key(paths).len() > 6);
}

proof fn files_make_a_key(paths: Seq<Seq<char>>)
    requires
        paths.len() > 0,
        paths[0].len() > 0,
    ensures
        crate::json::joined(paths, "\n"@).len() > 0,
    decreases paths.len(),
{
    if paths.len() > 1 {
        files_make_a_key(paths.drop_last());
    }
}

/// Every file that was taken is offered, and then the list is sent.
pub proof fn taken_files_are_offered(s: AppState, entries: Seq<EntryFacts>, list: Seq<char>)
    ensures
        entries.len() == 0 ==> s.files_clipped(entries, list) == (s, Seq::<Fx>::empty()),
        entries.len() > 0 ==> s.files_clipped(entries, list).1 == s.shared(offer_texts(entries)).1
            + seq![Fx::Wire(list), Fx::Tell(list)],
        offer_texts(entries).len() == entries.len(),
        forall|i: int|
            0 <= i < entries.len() ==> #[trigger] offer_texts(entries)[i] == offer_text(entries[i]),
{
    crate::server::sharing_goes_both_ways(s, offer_texts(entries), list);
}

/// Of the clipboard the image is shared where there is a new one, and otherwise
/// the text.
pub proof fn images_go_before_text(s: AppState, png: Seq<u8>, text: Seq<char>)
    requires
        s.cfg.control.enabled,
    ensures
        s.clips_png(png) ==> s.polled(Some(png), Some(text)) == s.png_clipped(png) && s.polls(
            Some(png),
            None,
        ),
        !s.clips_png(png) ==> s.polled(Some(png), Some(text)) == s.text_clipped(text),
        s.polled(None, Some(text)) == s.text_clipped(text),
        s.polled(None, None) == (s, Seq::<Fx>::empty()),
        s.polls(None, Some(text)) <==> text.len() > 0 && text != s.last_clip,
        !s.polls(None, None),
{
}

/// Each reply is shared, in order; a file that was kept is offered first.
pub proof fn replies_are_shared(s: AppState, msgs: Seq<Seq<char>>, m: Seq<char>)
    ensures
        ({
            let before = s.answered(msgs);
            let after = s.answered(msgs.push(m));
            &&& kept_name(m) matches Some(n) ==> after.1 == before.1 + seq![
                Fx::Offer(n),
                Fx::Wire(m),
                Fx::Tell(m),
            ]
            &&& kept_name(m) is None ==> after.1 == before.1 + seq![Fx::Wire(m), Fx::Tell(m)]
            &&& after.0 == before.0.wired(m)
        }),
        s.answered(Seq::empty()) == (s, Seq::<Fx>::empty()),
{
    assert(msgs.push(m).drop_last() =~= msgs);
    let b = s.answered(msgs);
    let none = Seq::<Seq<char>>::empty();
    crate::server::sharing_goes_both_ways(b.0, none, m);
    assert(none.push(m) =~= one(m));
    assert(b.0.shared(one(m)).1 =~= seq![Fx::Wire(m), Fx::Tell(m)]);
    match kept_name(m) {
        Some(n) => {
            assert(s.answered(msgs.push(m)).1 =~= b.1 + seq![
                Fx::Offer(n),
                Fx::Wire(m),
                Fx::Tell(m),
            ]);
        },
        None => {
            assert(s.answered(msgs.push(m)).1 =~= b.1 + seq![Fx::Wire(m), Fx::Tell(m)]);
        },
    }
}

/// A reply tells of a kept file where it is the answer that one is there.
pub proof fn kept_files_are_recognised(msg: Seq<char>, v: Tree, name: Seq<char>)
    requires
        parsed(msg) == Some(v),
        v.get("name"@) == Some(Tree::Str(name)),
    ensures
        v.get("type"@) == Some(Tree::Str("file"@)) && v.get("action"@) == Some(Tree::Str("ok"@))
            ==> kept_name(msg) == Some(name),
        v.get("type"@) is None || v.get("action"@) is None ==> kept_name(msg) is None,
{
}

/// Of a task's actions a screen is switched and then mapped, a file is kept, the
/// panel is worked, and anything else is handed to the host.
pub proof fn task_actions_are_done(s: AppState, a: Act)
    ensures
        a matches Act::Display { id } ==> s.hooked(a).0 == s.shown_on(id).0 && s.hooked(a).1
            == s.shown_on(id).1.push(Fx::Inject(a)),
        a matches Act::File { name, data } ==> s.hooked(a) == (s, seq![Fx::Keep { name, data }]),
        !(a is Display) && !(a is File) && !(a is FileManage) ==> s.hooked(a) == (
            s,
            seq![Fx::Inject(a)],
        ),
        a is FileManage ==> s.hooked(a).0 == s && s.hooked(a).1.len() <= 1 && !s.hooked(a).1.contains(
            Fx::Inject(a),
        ),
{
}

/// An image that a script prints is the bytes that its digits spell.
pub proof fn script_images_are_read(b: Seq<u8>)
    ensures
        unhexed(hex_text(b)) == Some(b),
        script_png("«data PNGf"@ + hex_text(b) + "»"@) == Some(b),
        script_png("\n"@ + ("«data PNGf"@ + hex_text(b) + "»"@) + "\n"@) == Some(b),
{
    let h = hex_text(b);
    assert forall|i: int| 0 <= i < h.len() implies is_hex(#[trigger] h[i]) by {
        let k = i / 2;
        hex_reads_back(b, k);
        assert(i == 2 * k || i == 2 * k + 1);
        assert(h[i] == crate::wol::byte_text(b[i / 2])[i % 2]);
    }
    let r = unhexed(h)->Some_0;
    assert forall|i: int| 0 <= i < b.len() implies #[trigger] r[i] == b[i] by {
        hex_reads_back(b, i);
        assert(is_hex(h[2 * i]) && is_hex(h[2 * i + 1]));
        assert(h[2 * i] == crate::wol::byte_text(b[(2 * i) / 2])[(2 * i) % 2]);
        assert(h[2 * i + 1] == crate::wol::byte_text(b[(2 * i + 1) / 2])[(2 * i + 1) % 2]);
    }
    assert(r =~= b);
    reveal_strlit("«data PNGf");
    reveal_strlit("»");
    reveal_strlit("\n");
    let head = "«data PNGf"@;
    let tail = "»"@;
    let s = head + h + tail;
    assert(s[0] == head[0]);
    assert(s.last() == tail[0]);
    assert(!crate::text::is_white(s[0]) && !crate::text::is_white(s.last()));
    assert(trimmed(s) == s);
    assert(s.take(head.len() as int) =~= head);
    assert(s.skip(s.len() - 1) =~= tail);
    assert(s.subrange(head.len() as int, s.len() - 1) =~= h);
    crate::text::trimmed_of_padded("\n"@, s, "\n"@);
}

} // verus!
