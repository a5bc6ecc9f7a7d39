//! Live JPEGs of inactive displays so the all-monitors map is a preview, not a still.

use crate::b64::{base64_of, encode_b64};
use crate::device::{devices, Device};
use crate::encoder::{has_option, option_at, MACOS_RECORDING_HUD_PX};
use crate::input::{same_device, Screen};
use crate::json::{
    array, array_text, items_stand_in_brackets, object, object_shows, object_text, pairs, parsed,
    printed, quote, quoted, shown, trees, Json, Tree,
};
use crate::text::{
    append, concat2, contains, decimal, decimal_text, has_part, part_of_part, push_text, same, texts,
    trim_end_char,
};
use vstd::prelude::*;

verus! {

/// Preview fps for unselected monitors. Tiny 180px JPEGs; 15 fps feels live
/// without a second full-res 30 fps encode on every display.
pub const THUMB_FPS: u32 = 15;

pub const THUMB_WIDTH: u32 = 180;

/// How often the displays are looked up anew.
pub const MEMBER_POLL: u64 = 400_000_000;

/// How long a preview may take until its first frame.
pub const FIRST_FRAME: u64 = 8_000_000_000;

/// How long it may then be silent.
pub const STALL: u64 = 3_000_000_000;

pub fn same_input(a: &str, b: &str) -> (r: bool)
    ensures
        r == same_device(a@, b@),
{
    same(trim_end_char(a, ':').as_str(), trim_end_char(b, ':').as_str())
}

/// The devices that are not being captured, in their order.
pub open spec fn others(ds: Seq<Screen>, current: Seq<char>) -> Seq<Screen>
    decreases ds.len(),
{
    if ds.len() == 0 {
        Seq::empty()
    } else if same_device(ds.last().id, current) {
        others(ds.drop_last(), current)
    } else {
        others(ds.drop_last(), current).push(ds.last())
    }
}

pub fn inactive_devices(all: &Vec<Device>, current: &str) -> (out: Vec<Device>)
    ensures
        devices(out@) == others(devices(all@), current@),
{
    let mut out: Vec<Device> = Vec::new();
    let ghost ds = devices(all@);
    let mut i: usize = 0;
    assert(devices(out@) =~= others(ds.take(0), current@));
    while i < all.len()
        invariant
            i <= all@.len(),
            ds == devices(all@),
            devices(out@) == others(ds.take(i as int), current@),
        decreases all@.len() - i,
    {
        let ghost before = devices(out@);
        proof {
            assert(ds.take(i + 1).drop_last() =~= ds.take(i as int));
            assert(ds.take(i + 1).last() == all@[i as int]@);
        }
        if !same_input(all[i].id.as_str(), current) {
            let d = all[i].copy();
            out.push(d);
            assert(devices(out@) =~= before.push(d@));
        }
        i += 1;
    }
    assert(ds.take(ds.len() as int) =~= ds);
    out
}

/// Whether bytes begin like a JPEG image.
pub open spec fn looks_jpeg(b: Seq<u8>) -> bool {
    b.len() >= 2 && b[0] == 0xff && b[1] == 0xd8
}

pub fn is_jpeg(b: &[u8]) -> (r: bool)
    ensures
        r == looks_jpeg(b@),
{
    b.len() >= 2 && b[0] == 0xff && b[1] == 0xd8
}

pub open spec fn tile_text(id: Seq<char>, jpeg: Seq<u8>) -> Seq<char> {
    object_text(seq![("data"@, quoted(base64_of(jpeg))), ("id"@, quoted(id))])
}

pub open spec fn tile_texts(items: Seq<(Seq<char>, Seq<u8>)>) -> Seq<Seq<char>>
    decreases items.len(),
{
    if items.len() == 0 {
        Seq::empty()
    } else if looks_jpeg(items.last().1) {
        tile_texts(items.drop_last()).push(tile_text(items.last().0, items.last().1))
    } else {
        tile_texts(items.drop_last())
    }
}

/// A message of previews.
pub open spec fn thumbs_text(items: Seq<Seq<char>>) -> Seq<char> {
    object_text(seq![("items"@, array_text(items)), ("type"@, quoted("thumbs"@))])
}

pub open spec fn tiles(v: Seq<(String, Vec<u8>)>) -> Seq<(Seq<char>, Seq<u8>)> {
    Seq::new(v.len(), |i: int| (v[i].0@, v[i].1@))
}

fn thumbs_message(items: &Vec<String>) -> (s: String)
    ensures
        s@ == thumbs_text(texts(items@)),
{
    let v: Vec<(&str, String)> = vec![("items", array(items)), ("type", quote("thumbs"))];
    assert(pairs(v@) =~= seq![
        ("items"@, array_text(texts(items@))),
        ("type"@, quoted("thumbs"@)),
    ]);
    object(&v)
}

pub fn thumbs_json(items: &Vec<(String, Vec<u8>)>) -> (s: String)
    ensures
        s@ == thumbs_text(tile_texts(tiles(items@))),
{
    let mut out: Vec<String> = Vec::new();
    let ghost all = tiles(items@);
    let mut i: usize = 0;
    assert(texts(out@) =~= tile_texts(all.take(0)));
    while i < items.len()
        invariant
            i <= items@.len(),
            all == tiles(items@),
            texts(out@) == tile_texts(all.take(i as int)),
        decreases items@.len() - i,
    {
        assert(all.take(i + 1).drop_last() =~= all.take(i as int));
        assert(all.take(i + 1).last() == (items@[i as int].0@, items@[i as int].1@));
        if is_jpeg(items[i].1.as_slice()) {
            let data = encode_b64(items[i].1.as_slice());
            let v: Vec<(&str, String)> = vec![
                ("data", quote(data.as_str())),
                ("id", quote(items[i].0.as_str())),
            ];
            assert(pairs(v@) =~= seq![
                ("data"@, quoted(base64_of(items@[i as int].1@))),
                ("id"@, quoted(items@[i as int].0@)),
            ]);
            let tile = object(&v);
            push_text(&mut out, tile.as_str());
        }
        i += 1;
    }
    assert(all.take(all.len() as int) =~= all);
    thumbs_message(&out)
}

/// Where a tile of that display stands.
pub open spec fn tile_at(m: Seq<(Seq<char>, Seq<char>)>, id: Seq<char>) -> Option<int>
    decreases m.len(),
{
    if m.len() == 0 {
        None
    } else if m.last().0 == id {
        Some(m.len() - 1)
    } else {
        tile_at(m.drop_last(), id)
    }
}

/// A tile takes the place of the one of the same display.
pub open spec fn with_tile(m: Seq<(Seq<char>, Seq<char>)>, id: Seq<char>, text: Seq<char>) -> Seq<
    (Seq<char>, Seq<char>),
> {
    match tile_at(m, id) {
        Some(i) => m.update(i, (id, text)),
        None => m.push((id, text)),
    }
}

/// The tiles among items, put in one after the other; an item without a
/// display is none.
pub open spec fn with_tiles(m: Seq<(Seq<char>, Seq<char>)>, items: Seq<Tree>) -> Seq<
    (Seq<char>, Seq<char>),
>
    decreases items.len(),
{
    if items.len() == 0 {
        m
    } else {
        let before = with_tiles(m, items.drop_last());
        match items.last().text_at("id"@) {
            Some(id) => with_tile(before, id, printed(items.last())),
            None => before,
        }
    }
}

pub open spec fn tile_pairs(v: Seq<(String, String)>) -> Seq<(Seq<char>, Seq<char>)> {
    Seq::new(v.len(), |i: int| (v[i].0@, v[i].1@))
}

pub open spec fn second_of(m: Seq<(Seq<char>, Seq<char>)>) -> Seq<Seq<char>> {
    Seq::new(m.len(), |i: int| m[i].1)
}

fn put_tile(v: &mut Vec<(String, String)>, id: String, text: String)
    ensures
        tile_pairs(final(v)@) == with_tile(tile_pairs(old(v)@), id@, text@),
{
    let ghost m = tile_pairs(v@);
    let mut i: usize = v.len();
    assert(m.take(m.len() as int) =~= m);
    while i > 0
        invariant
            i <= v@.len() == m.len(),
            v@ == old(v)@,
            m == tile_pairs(v@),
            tile_at(m.take(i as int), id@) == tile_at(m, id@),
        decreases i,
    {
        assert(m.take(i as int).drop_last() =~= m.take(i - 1));
        assert(m.take(i as int).last() == m[i - 1]);
        if same(v[i - 1].0.as_str(), id.as_str()) {
            v.set(i - 1, (id, text));
            assert(tile_pairs(v@) =~= m.update(i - 1, (id@, text@)));
            return;
        }
        i -= 1;
    }
    v.push((id, text));
    assert(tile_pairs(v@) =~= m.push((id@, text@)));
}

fn put_tiles(v: &mut Vec<(String, String)>, items: &Vec<Json>)
    ensures
        tile_pairs(final(v)@) == with_tiles(tile_pairs(old(v)@), trees(items@)),
{
    let ghost m = tile_pairs(v@);
    let ghost all = trees(items@);
    let mut i: usize = 0;
    assert(with_tiles(m, all.take(0)) =~= m);
    while i < items.len()
        invariant
            i <= items@.len(),
            all == trees(items@),
            tile_pairs(v@) == with_tiles(m, all.take(i as int)),
        decreases items@.len() - i,
    {
        assert(all.take(i + 1).drop_last() =~= all.take(i as int));
        assert(all.take(i + 1).last() == items@[i as int].tree());
        match items[i].text_at("id") {
            Some(id) => {
                put_tile(v, id.to_owned(), items[i].print());
            },
            None => {},
        }
        i += 1;
    }
    assert(all.take(all.len() as int) =~= all);
}

fn tile_list(v: &Vec<(String, String)>) -> (out: Vec<String>)
    ensures
        texts(out@) == second_of(tile_pairs(v@)),
{
    let mut out: Vec<String> = Vec::new();
    let ghost all = second_of(tile_pairs(v@));
    let mut i: usize = 0;
    assert(texts(out@) =~= all.take(0));
    while i < v.len()
        invariant
            i <= v@.len() == all.len(),
            all == second_of(tile_pairs(v@)),
            texts(out@) == all.take(i as int),
        decreases v@.len() - i,
    {
        push_text(&mut out, v[i].1.as_str());
        assert(all.take(i + 1) =~= all.take(i as int).push(all[i as int]));
        i += 1;
    }
    assert(all.take(all.len() as int) =~= all);
    out
}

/// The first message that holds a text.
pub open spec fn first_with(v: Seq<Seq<char>>, part: Seq<char>) -> Option<int>
    decreases v.len(),
{
    if v.len() == 0 {
        None
    } else {
        match first_with(v.drop_last(), part) {
            Some(i) => Some(i),
            None => if has_part(v.last(), part) {
                Some(v.len() - 1)
            } else {
                None
            },
        }
    }
}

proof fn first_with_kept(v: Seq<Seq<char>>, part: Seq<char>, n: int)
    requires
        0 <= n <= v.len(),
    ensures
        first_with(v.take(n), part) is Some ==> first_with(v, part) == first_with(v.take(n), part),
    decreases v.len() - n,
{
    if n < v.len() {
        first_with_kept(v, part, n + 1);
        assert(v.take(n + 1).drop_last() =~= v.take(n));
    } else {
        assert(v.take(n) =~= v);
    }
}

fn find_with(v: &Vec<String>, part: &str) -> (r: Option<usize>)
    ensures
        match r {
            Some(i) => i < v@.len() && first_with(texts(v@), part@) == Some(i as int),
            None => first_with(texts(v@), part@) is None,
        },
{
    let ghost all = texts(v@);
    let mut i: usize = 0;
    while i < v.len()
        invariant
            i <= v@.len(),
            all == texts(v@),
            first_with(all.take(i as int), part@) is None,
        decreases v@.len() - i,
    {
        assert(all.take(i + 1).drop_last() =~= all.take(i as int));
        if contains(v[i].as_str(), part) {
            proof {
                first_with_kept(all, part@, i + 1);
            }
            return Some(i);
        }
        i += 1;
    }
    assert(all.take(all.len() as int) =~= all);
    None
}

pub open spec fn items_or_none(t: Tree) -> Seq<Tree> {
    match t.items_at("items"@) {
        Some(v) => v,
        None => Seq::empty(),
    }
}

/// The kept messages after a message of previews, whose value is `v`; nothing
/// where the message is none. The tiles join those that are kept.
pub open spec fn merged_value(latest: Seq<Seq<char>>, msg: Seq<char>, v: Tree) -> Option<
    Seq<Seq<char>>,
> {
    if v.text_at("type"@) != Some("thumbs"@) {
        None
    } else {
        match v.items_at("items"@) {
            None => None,
            Some(new) => match first_with(latest, "\"thumbs\""@) {
                Some(i) => match parsed(latest[i]) {
                    Some(cur) => Some(
                        latest.update(
                            i,
                            thumbs_text(
                                second_of(
                                    with_tiles(with_tiles(Seq::empty(), items_or_none(cur)), new),
                                ),
                            ),
                        ),
                    ),
                    None => Some(latest.push(msg)),
                },
                None => Some(latest.push(msg)),
            },
        }
    }
}

pub open spec fn merged(latest: Seq<Seq<char>>, msg: Seq<char>) -> Option<Seq<Seq<char>>> {
    match parsed(msg) {
        Some(v) => merged_value(latest, msg, v),
        None => None,
    }
}

/// Merges a message whose value is `v`.
pub fn merge_thumbs_value(latest: &mut Vec<String>, msg: &str, v: &Json) -> (r: bool)
    ensures
        match merged_value(texts(old(latest)@), msg@, v.tree()) {
            Some(l) => r && texts(final(latest)@) == l,
            None => !r && texts(final(latest)@) == texts(old(latest)@),
        },
{
    let is_thumbs = match v.text_at("type") {
        Some(t) => same(t, "thumbs"),
        None => false,
    };
    if !is_thumbs {
        return false;
    }
    match v.items_at("items") {
        None => false,
        Some(new_items) => {
            match find_with(latest, "\"thumbs\"") {
                Some(i) => {
                    match Json::parse(latest[i].as_str()) {
                        Some(cur) => {
                            let mut map: Vec<(String, String)> = Vec::new();
                            assert(tile_pairs(map@) =~= Seq::<(Seq<char>, Seq<char>)>::empty());
                            match cur.items_at("items") {
                                Some(arr) => put_tiles(&mut map, arr),
                                None => {},
                            }
                            put_tiles(&mut map, new_items);
                            let ghost before = texts(latest@);
                            let text = thumbs_message(&tile_list(&map));
                            latest.set(i, text);
                            assert(texts(latest@) =~= before.update(i as int, text@));
                            return true;
                        },
                        None => {},
                    }
                },
                None => {},
            }
            push_text(latest, msg);
            true
        },
    }
}

/// Merge a live `{type:thumbs}` frame into the publisher snapshot so a
/// reconnecting watcher gets every inactive display, not only the last tile.
pub fn merge_thumbs_latest(latest: &mut Vec<String>, msg: &str) -> (r: bool)
    ensures
        match merged(texts(old(latest)@), msg@) {
            Some(l) => r && texts(final(latest)@) == l,
            None => !r && texts(final(latest)@) == texts(old(latest)@),
        },
{
    match Json::parse(msg) {
        Some(v) => merge_thumbs_value(latest, msg, &v),
        None => false,
    }
}

proof fn tile_at_found(m: Seq<(Seq<char>, Seq<char>)>, id: Seq<char>)
    ensures
        match tile_at(m, id) {
            Some(i) => 0 <= i < m.len() && m[i].0 == id,
            None => forall|j: int| 0 <= j < m.len() ==> (#[trigger] m[j]).0 != id,
        },
    decreases m.len(),
{
    if m.len() > 0 && m.last().0 != id {
        tile_at_found(m.drop_last(), id);
        if tile_at(m.drop_last(), id) is None {
            assert forall|j: int| 0 <= j < m.len() implies (#[trigger] m[j]).0 != id by {
                if j < m.len() - 1 {
                    assert(m.drop_last()[j].0 != id);
                }
            }
        }
    }
}

/// Whether some tile is of that display.
pub open spec fn shows(m: Seq<(Seq<char>, Seq<char>)>, id: Seq<char>) -> bool {
    tile_at(m, id) is Some
}

/// A display that was in the map stays in it, and one that comes joins it.
pub proof fn tiles_are_joined(m: Seq<(Seq<char>, Seq<char>)>, items: Seq<Tree>, id: Seq<char>)
    requires
        shows(m, id) || exists|i: int|
            0 <= i < items.len() && (#[trigger] items[i]).text_at("id"@) == Some(id),
    ensures
        shows(with_tiles(m, items), id),
    decreases items.len(),
{
    if items.len() > 0 {
        let before = with_tiles(m, items.drop_last());
        let last = items.last();
        if last.text_at("id"@) != Some(id) {
            if !shows(m, id) {
                let i = choose|i: int|
                    0 <= i < items.len() && (#[trigger] items[i]).text_at("id"@) == Some(id);
                assert(items.drop_last()[i].text_at("id"@) == Some(id));
            }
            tiles_are_joined(m, items.drop_last(), id);
        }
        if last.text_at("id"@) is Some {
            let k = last.text_at("id"@)->Some_0;
            let after = with_tile(before, k, printed(last));
            tile_at_found(before, k);
            tile_at_found(before, id);
            tile_at_found(after, id);
            if tile_at(after, id) is None {
                if k == id {
                    let at = match tile_at(before, k) {
                        Some(i) => i,
                        None => before.len() as int,
                    };
                    assert(after[at].0 == id);
                } else {
                    let at = tile_at(before, id)->Some_0;
                    assert(after[at].0 == id);
                }
            }
        }
    }
}

pub open spec fn thumb_filter() -> Seq<char> {
    "crop=iw:ih-"@ + decimal(MACOS_RECORDING_HUD_PX as nat) + ":0:"@ + decimal(
        MACOS_RECORDING_HUD_PX as nat,
    ) + ",scale=min("@ + decimal(THUMB_WIDTH as nat) + "\\,iw):-2"@
}

pub fn thumb_vf() -> (s: String)
    ensures
        s@ == thumb_filter(),
{
    let mut s = concat2("crop=iw:ih-", decimal_text(MACOS_RECORDING_HUD_PX as u64).as_str());
    append(&mut s, ":0:");
    append(&mut s, decimal_text(MACOS_RECORDING_HUD_PX as u64).as_str());
    append(&mut s, ",scale=min(");
    append(&mut s, decimal_text(THUMB_WIDTH as u64).as_str());
    append(&mut s, "\\,iw):-2");
    s
}

pub open spec fn thumb_args(input: Seq<char>, oneshot: bool) -> Seq<Seq<char>> {
    seq!["-hide_banner"@, "-loglevel"@, "error"@] + (if oneshot {
        Seq::empty()
    } else {
        seq!["-fflags"@, "+nobuffer"@, "-flags"@, "low_delay"@]
    }) + seq![
        "-f"@,
        "avfoundation"@,
        "-framerate"@,
        decimal(
            if oneshot {
                1
            } else {
                THUMB_FPS as nat
            },
        ),
        "-i"@,
        input,
        "-an"@,
    ] + (if oneshot {
        seq!["-frames:v"@, "1"@]
    } else {
        Seq::empty()
    }) + seq!["-vf"@, thumb_filter(), "-q:v"@, "12"@, "-f"@, "mjpeg"@, "pipe:1"@]
}

/// `oneshot` grabs a single JPEG (tests / fallback). Live omits `-frames:v`.
pub fn thumb_ffmpeg_args(input_id: &str, oneshot: bool) -> (argv: Vec<String>)
    ensures
        texts(argv@) == thumb_args(input_id@, oneshot),
{
    let fps: u32 = if oneshot {
        1
    } else {
        THUMB_FPS
    };
    let mut argv: Vec<String> = Vec::new();
    push_text(&mut argv, "-hide_banner");
    push_text(&mut argv, "-loglevel");
    push_text(&mut argv, "error");
    if !oneshot {
        push_text(&mut argv, "-fflags");
        push_text(&mut argv, "+nobuffer");
        push_text(&mut argv, "-flags");
        push_text(&mut argv, "low_delay");
    }
    push_text(&mut argv, "-f");
    push_text(&mut argv, "avfoundation");
    push_text(&mut argv, "-framerate");
    push_text(&mut argv, decimal_text(fps as u64).as_str());
    push_text(&mut argv, "-i");
    push_text(&mut argv, input_id);
    push_text(&mut argv, "-an");
    if oneshot {
        push_text(&mut argv, "-frames:v");
        push_text(&mut argv, "1");
    }
    push_text(&mut argv, "-vf");
    push_text(&mut argv, thumb_vf().as_str());
    push_text(&mut argv, "-q:v");
    push_text(&mut argv, "12");
    push_text(&mut argv, "-f");
    push_text(&mut argv, "mjpeg");
    push_text(&mut argv, "pipe:1");
    assert(texts(argv@) =~= thumb_args(input_id@, oneshot));
    argv
}

/// Whether previews are taken at all: only of a named input on macOS.
pub fn can_preview(input_id: &str, sysname: &str) -> (r: bool)
    ensures
        r == (sysname@ == "Darwin"@ && input_id@.len() > 0),
{
    same(sysname, "Darwin") && !input_id.is_empty()
}

/// How long to wait for the next piece of a preview.
pub fn preview_wait(got: bool) -> (d: u64)
    ensures
        d == if got {
            STALL
        } else {
            FIRST_FRAME
        },
{
    if got {
        STALL
    } else {
        FIRST_FRAME
    }
}

/// The texts of a list that are not in another, in their order.
pub open spec fn not_among(v: Seq<Seq<char>>, w: Seq<Seq<char>>) -> Seq<Seq<char>>
    decreases v.len(),
{
    if v.len() == 0 {
        Seq::empty()
    } else if w.contains(v.last()) {
        not_among(v.drop_last(), w)
    } else {
        not_among(v.drop_last(), w).push(v.last())
    }
}

fn is_among(w: &Vec<String>, s: &str) -> (r: bool)
    ensures
        r == texts(w@).contains(s@),
{
    let mut i: usize = 0;
    while i < w.len()
        invariant
            i <= w@.len(),
            forall|k: int| 0 <= k < i ==> #[trigger] texts(w@)[k] != s@,
        decreases w@.len() - i,
    {
        if same(w[i].as_str(), s) {
            assert(texts(w@)[i as int] == s@);
            return true;
        }
        i += 1;
    }
    false
}

fn left_over(v: &Vec<String>, w: &Vec<String>) -> (out: Vec<String>)
    ensures
        texts(out@) == not_among(texts(v@), texts(w@)),
{
    let ghost all = texts(v@);
    let mut out: Vec<String> = Vec::new();
    let mut i: usize = 0;
    assert(texts(out@) =~= not_among(all.take(0), texts(w@)));
    while i < v.len()
        invariant
            i <= v@.len(),
            all == texts(v@),
            texts(out@) == not_among(all.take(i as int), texts(w@)),
        decreases v@.len() - i,
    {
        assert(all.take(i + 1).drop_last() =~= all.take(i as int));
        assert(all.take(i + 1).last() == v@[i as int]@);
        if !is_among(w, v[i].as_str()) {
            push_text(&mut out, v[i].as_str());
        }
        i += 1;
    }
    assert(all.take(all.len() as int) =~= all);
    out
}

/// The previews to end and those to start, when some are running and some are
/// wanted.
pub fn reconcile(running: &Vec<String>, want: &Vec<String>) -> (r: (Vec<String>, Vec<String>))
    ensures
        texts(r.0@) == not_among(texts(running@), texts(want@)),
        texts(r.1@) == not_among(texts(want@), texts(running@)),
{
    (left_over(running, want), left_over(want, running))
}

proof fn not_among_members(v: Seq<Seq<char>>, w: Seq<Seq<char>>, t: Seq<char>)
    ensures
        not_among(v, w).contains(t) <==> v.contains(t) && !w.contains(t),
    decreases v.len(),
{
    if v.len() > 0 {
        let d = v.drop_last();
        not_among_members(d, w, t);
        let r = not_among(d, w);
        assert(v =~= d.push(v.last()));
        assert(v.contains(t) <==> d.contains(t) || t == v.last()) by {
            if d.contains(t) {
                let k = choose|k: int| 0 <= k < d.len() && d[k] == t;
                assert(v[k] == t);
            }
            if t == v.last() {
                assert(v[v.len() - 1] == t);
            }
            if v.contains(t) {
                let k = choose|k: int| 0 <= k < v.len() && v[k] == t;
                if k < d.len() {
                    assert(d[k] == t);
                }
            }
        }
        let p = r.push(v.last());
        assert(p.contains(t) <==> r.contains(t) || t == v.last()) by {
            if r.contains(t) {
                let k = choose|k: int| 0 <= k < r.len() && r[k] == t;
                assert(p[k] == t);
            }
            if t == v.last() {
                assert(p[r.len() as int] == t);
            }
            if p.contains(t) {
                let k = choose|k: int| 0 <= k < p.len() && p[k] == t;
                if k < r.len() {
                    assert(r[k] == t);
                }
            }
        }
    }
}

/// Afterwards just the wanted previews run: what ran and was not ended, and
/// what was started.
pub proof fn wanted_previews_run(running: Seq<Seq<char>>, want: Seq<Seq<char>>, t: Seq<char>)
    ensures
        want.contains(t) <==> (running.contains(t) && !not_among(running, want).contains(t))
            || not_among(want, running).contains(t),
{
    not_among_members(running, want, t);
    not_among_members(want, running, t);
}

/// The screens to preview are all but the one that is watched, in their order.
pub proof fn the_watched_screen_is_left_out(ds: Seq<Screen>, d: Screen, current: Seq<char>)
    ensures
        same_device(d.id, current) ==> others(ds.push(d), current) == others(ds, current),
        !same_device(d.id, current) ==> others(ds.push(d), current) == others(ds, current).push(d),
        others(Seq::empty(), current) == Seq::<Screen>::empty(),
{
    assert(ds.push(d).drop_last() =~= ds);
}

/// A preview goes out with the screen that it shows and its whole picture; what
/// is no picture does not go out.
pub proof fn previews_show_their_screens(
    items: Seq<(Seq<char>, Seq<u8>)>,
    id: Seq<char>,
    jpeg: Seq<u8>,
)
    ensures
        has_part(tile_text(id, jpeg), shown("id"@, quoted(id))),
        has_part(tile_text(id, jpeg), shown("data"@, quoted(base64_of(jpeg)))),
        jpeg.len() >= 2 && jpeg[0] == 255 && jpeg[1] == 216 ==> tile_texts(items.push((id, jpeg)))
            == tile_texts(items).push(tile_text(id, jpeg)),
        jpeg.len() < 2 || jpeg[0] != 255 || jpeg[1] != 216 ==> tile_texts(items.push((id, jpeg)))
            == tile_texts(items),
        tile_texts(Seq::empty()) == Seq::<Seq<char>>::empty(),
{
    assert(items.push((id, jpeg)).drop_last() =~= items);
    let m = seq![("data"@, quoted(base64_of(jpeg))), ("id"@, quoted(id))];
    object_shows(m, 0);
    object_shows(m, 1);
}

/// The message names its kind and holds every preview.
pub proof fn message_holds_the_previews(items: Seq<Seq<char>>)
    ensures
        has_part(thumbs_text(items), shown("type"@, quoted("thumbs"@))),
        has_part(thumbs_text(items), shown("items"@, array_text(items))),
        forall|i: int| 0 <= i < items.len() ==> has_part(thumbs_text(items), #[trigger] items[i]),
{
    let m = seq![("items"@, array_text(items)), ("type"@, quoted("thumbs"@))];
    object_shows(m, 0);
    object_shows(m, 1);
    items_stand_in_brackets(items, Seq::empty());
    assert forall|i: int| 0 <= i < items.len() implies has_part(
        thumbs_text(items),
        #[trigger] items[i],
    ) by {
        part_of_part(thumbs_text(items), array_text(items), items[i]);
    }
}

/// What is shown of a screen, if it is shown.
pub open spec fn shown_of(m: Seq<(Seq<char>, Seq<char>)>, id: Seq<char>) -> Option<Seq<char>> {
    match tile_at(m, id) {
        Some(i) => Some(m[i].1),
        None => None,
    }
}

/// Whether no screen is shown twice.
pub open spec fn shown_once(m: Seq<(Seq<char>, Seq<char>)>) -> bool {
    forall|i: int, j: int| 0 <= i < j < m.len() ==> (#[trigger] m[i]).0 != (#[trigger] m[j]).0
}

proof fn tile_at_is(m: Seq<(Seq<char>, Seq<char>)>, i: int)
    requires
        shown_once(m),
        0 <= i < m.len(),
    ensures
        tile_at(m, m[i].0) == Some(i),
{
    tile_at_found(m, m[i].0);
}

/// The newest preview of a screen takes the place of the one before; those of
/// other screens stay as they are, and none is shown twice.
pub proof fn newest_preview_counts(
    m: Seq<(Seq<char>, Seq<char>)>,
    id: Seq<char>,
    text: Seq<char>,
    other: Seq<char>,
)
    requires
        shown_once(m),
    ensures
        shown_once(with_tile(m, id, text)),
        shown_of(with_tile(m, id, text), id) == Some(text),
        other != id ==> shown_of(with_tile(m, id, text), other) == shown_of(m, other),
{
    tile_at_found(m, id);
    tile_at_found(m, other);
    let r = with_tile(m, id, text);
    tile_at_found(r, other);
    tile_at_found(r, id);
    let at = match tile_at(m, id) {
        Some(i) => i,
        None => m.len() as int,
    };
    assert(r[at] == (id, text));
    tile_at_is(r, at);
    if other != id {
        if tile_at(m, other) is Some {
            let k = tile_at(m, other)->Some_0;
            assert(r[k] == m[k]);
            tile_at_is(r, k);
        } else if tile_at(r, other) is Some {
            let k = tile_at(r, other)->Some_0;
            assert(r[k].0 == other);
            assert(k != at);
            assert(m[k].0 == other);
        }
    }
}

/// Joining takes the items in turn, each under its screen; an item that names
/// none is left out.
pub proof fn items_are_joined_in_turn(m: Seq<(Seq<char>, Seq<char>)>, items: Seq<Tree>, t: Tree)
    ensures
        t.text_at("id"@) matches Some(id) ==> with_tiles(m, items.push(t)) == with_tile(
            with_tiles(m, items),
            id,
            printed(t),
        ),
        t.text_at("id"@) is None ==> with_tiles(m, items.push(t)) == with_tiles(m, items),
        with_tiles(m, Seq::empty()) == m,
{
    assert(items.push(t).drop_last() =~= items);
}

/// The first text that holds a part is found.
pub proof fn first_holder_is_found(v: Seq<Seq<char>>, part: Seq<char>)
    ensures
        match first_with(v, part) {
            Some(i) => 0 <= i < v.len() && has_part(v[i], part) && forall|j: int|
                0 <= j < i ==> !has_part(#[trigger] v[j], part),
            None => forall|j: int| 0 <= j < v.len() ==> !has_part(#[trigger] v[j], part),
        },
    decreases v.len(),
{
    if v.len() > 0 {
        let d = v.drop_last();
        first_holder_is_found(d, part);
        match first_with(d, part) {
            Some(i) => {
                assert(d[i] == v[i]);
                assert forall|j: int| 0 <= j < i implies !has_part(#[trigger] v[j], part) by {
                    assert(d[j] == v[j]);
                }
            },
            None => {
                assert forall|j: int| 0 <= j < d.len() implies !has_part(#[trigger] v[j], part) by {
                    assert(d[j] == v[j]);
                }
            },
        }
    }
}

/// A message of previews is joined with the one that is kept, in its place; the
/// first is kept as it comes, and no other message is touched.
pub proof fn previews_are_kept_as_one(
    latest: Seq<Seq<char>>,
    msg: Seq<char>,
    v: Tree,
    items: Seq<Tree>,
)
    requires
        v.text_at("type"@) == Some("thumbs"@),
        v.get("items"@) == Some(Tree::Arr(items)),
    ensures
        (forall|i: int| 0 <= i < latest.len() ==> !has_part(#[trigger] latest[i], "\"thumbs\""@))
            ==> merged_value(latest, msg, v) == Some(latest.push(msg)),
        merged_value(latest, msg, v) is Some,
        first_with(latest, "\"thumbs\""@) matches Some(i) ==> (parsed(latest[i]) is Some ==> ({
            let r = merged_value(latest, msg, v)->Some_0;
            &&& r.len() == latest.len()
            &&& forall|k: int| 0 <= k < r.len() && k != i ==> #[trigger] r[k] == latest[k]
            &&& has_part(r[i], shown("type"@, quoted("thumbs"@)))
        })),
{
    first_holder_is_found(latest, "\"thumbs\""@);
    if let Some(i) = first_with(latest, "\"thumbs\""@) {
        if let Some(cur) = parsed(latest[i]) {
            message_holds_the_previews(
                second_of(with_tiles(with_tiles(Seq::empty(), items_or_none(cur)), items)),
            );
        }
    }
}

/// Messages that are no previews are not joined.
pub proof fn other_messages_are_not_joined(latest: Seq<Seq<char>>, msg: Seq<char>, v: Tree)
    ensures
        v.text_at("type"@) != Some("thumbs"@) ==> merged_value(latest, msg, v) is None,
        v.items_at("items"@) is None ==> merged_value(latest, msg, v) is None,
        parsed(msg) is None ==> merged(latest, msg) is None,
{
}

/// A preview leaves out the forty rows that the recording indicator covers and
/// is no wider than 180 pixels.
pub proof fn previews_are_small()
    ensures
        thumb_filter() == "crop=iw:ih-40:0:40,scale=min(180\\,iw):-2"@,
{
    reveal_with_fuel(decimal, 4);
    assert(decimal(40) =~= seq!['4', '0']);
    assert(decimal(180) =~= seq!['1', '8', '0']);
    reveal_strlit("crop=iw:ih-");
    reveal_strlit(":0:");
    reveal_strlit(",scale=min(");
    reveal_strlit("\\,iw):-2");
    reveal_strlit("crop=iw:ih-40:0:40,scale=min(180\\,iw):-2");
    assert(thumb_filter() =~= "crop=iw:ih-40:0:40,scale=min(180\\,iw):-2"@);
}

/// A preview is a stream of fifteen JPEGs a second, or a single one, of the
/// screen that was asked for.
pub proof fn previews_are_jpegs_of_the_screen(input: Seq<char>, oneshot: bool)
    ensures
        ({
            let v = thumb_args(input, oneshot);
            let n = v.len() as int;
            &&& has_option(v, "-i"@, input)
            &&& has_option(v, "-vf"@, thumb_filter())
            &&& has_option(v, "-q:v"@, "12"@)
            &&& has_option(v, "-loglevel"@, "error"@)
            &&& has_option(v, "-f"@, "avfoundation"@)
            &&& v[n - 3] == "-f"@ && v[n - 2] == "mjpeg"@ && v[n - 1] == "pipe:1"@
            &&& v.contains("-an"@)
            &&& oneshot ==> has_option(v, "-framerate"@, seq!['1']) && has_option(
                v,
                "-frames:v"@,
                "1"@,
            )
            &&& !oneshot ==> has_option(v, "-framerate"@, seq!['1', '5']) && has_option(
                v,
                "-fflags"@,
                "+nobuffer"@,
            ) && has_option(v, "-flags"@, "low_delay"@)
        }),
{
    let v = thumb_args(input, oneshot);
    let n = v.len() as int;
    let b: int = if oneshot {
        3
    } else {
        7
    };
    reveal_with_fuel(decimal, 3);
    assert(decimal(15) =~= seq!['1', '5']);
    assert(decimal(1) =~= seq!['1']);
    option_at(v, 1);
    option_at(v, b);
    option_at(v, b + 2);
    option_at(v, b + 4);
    assert(v[b + 6] == "-an"@);
    option_at(v, n - 7);
    option_at(v, n - 5);
    if oneshot {
        option_at(v, b + 7);
    } else {
        option_at(v, 3);
        option_at(v, 5);
    }
}

} // verus!
