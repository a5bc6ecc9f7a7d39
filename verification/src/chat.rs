//! Session chat between host and watchers.

use crate::json::{
    array, array_text, object, object_shows, object_text, pairs, parsed, printed, quote, quoted,
    shown, Json,
};
use crate::text::{
    chars_of, decimal, decimal_text, has_part, lower, lowercase, push_text, same, slice_text, texts,
    trim, trimmed,
};
use vstd::prelude::*;

verus! {

pub const CHAT_MAX_CHARS: usize = 2000;

pub const CHAT_HISTORY: usize = 40;

/// A message without the white space around it, cut to the longest allowed.
pub open spec fn clamped(raw: Seq<char>) -> Seq<char> {
    let t = trimmed(raw);
    if t.len() <= CHAT_MAX_CHARS {
        t
    } else {
        t.take(CHAT_MAX_CHARS as int)
    }
}

pub fn clamp_chat(raw: &str) -> (s: String)
    ensures
        s@ == clamped(raw@),
        s@.len() <= CHAT_MAX_CHARS,
{
    let t = trim(raw);
    let v = chars_of(t.as_str());
    if v.len() <= CHAT_MAX_CHARS {
        t
    } else {
        assert(v@.subrange(0, CHAT_MAX_CHARS as int) =~= t@.take(CHAT_MAX_CHARS as int));
        slice_text(&v, 0, CHAT_MAX_CHARS)
    }
}

/// The name that a message claims to come from.
pub open spec fn claimed(raw: Option<Seq<char>>) -> Seq<char> {
    match raw {
        Some(s) => lower(trimmed(s)),
        None => lower(trimmed(Seq::empty())),
    }
}

pub open spec fn opt(raw: Option<&str>) -> Option<Seq<char>> {
    match raw {
        Some(s) => Some(s@),
        None => None,
    }
}

/// Who a message comes from: one of two names, by the session where none is given.
pub open spec fn sender(raw: Option<Seq<char>>, session: Seq<char>) -> Seq<char> {
    let c = claimed(raw);
    if c == "host"@ {
        "host"@
    } else if c == "viewer"@ {
        "viewer"@
    } else if trimmed(session).len() == 0 {
        "host"@
    } else {
        "viewer"@
    }
}

fn claim(raw: Option<&str>) -> (s: String)
    ensures
        s@ == claimed(opt(raw)),
{
    match raw {
        Some(s) => lowercase(trim(s).as_str()),
        None => {
            proof {
                reveal_strlit("");
                assert(""@ =~= Seq::<char>::empty());
            }
            lowercase(trim("").as_str())
        },
    }
}

pub fn chat_from(raw: Option<&str>, session: &str) -> (s: &'static str)
    ensures
        s@ == sender(opt(raw), session@),
{
    let c = claim(raw);
    if same(c.as_str(), "host") {
        "host"
    } else if same(c.as_str(), "viewer") {
        "viewer"
    } else if chars_of(trim(session).as_str()).len() == 0 {
        "host"
    } else {
        "viewer"
    }
}

/// Whether a message already says who sent it.
pub open spec fn attributed(raw: Option<Seq<char>>) -> bool {
    claimed(raw) == "host"@ || claimed(raw) == "viewer"@
}

pub fn already_attributed(raw: Option<&str>) -> (r: bool)
    ensures
        r == attributed(opt(raw)),
{
    let c = claim(raw);
    same(c.as_str(), "host") || same(c.as_str(), "viewer")
}

pub open spec fn chat_text(text: Seq<char>, from: Seq<char>, ts: u64) -> Seq<char> {
    object_text(
        seq![
            ("from"@, quoted(from)),
            ("text"@, quoted(text)),
            ("ts"@, decimal(ts as nat)),
            ("type"@, quoted("chat"@)),
        ],
    )
}

pub fn chat_json(text: &str, from: &str, ts: u64) -> (s: String)
    ensures
        s@ == chat_text(text@, from@, ts),
{
    let v: Vec<(&str, String)> = vec![
        ("from", quote(from)),
        ("text", quote(text)),
        ("ts", decimal_text(ts)),
        ("type", quote("chat")),
    ];
    assert(pairs(v@) =~= seq![
        ("from"@, quoted(from@)),
        ("text"@, quoted(text@)),
        ("ts"@, decimal(ts as nat)),
        ("type"@, quoted("chat"@)),
    ]);
    object(&v)
}

/// The messages that are JSON, each written anew.
pub open spec fn readable(messages: Seq<Seq<char>>) -> Seq<Seq<char>>
    decreases messages.len(),
{
    if messages.len() == 0 {
        Seq::empty()
    } else {
        let before = readable(messages.drop_last());
        match parsed(messages.last()) {
            Some(t) => before.push(printed(t)),
            None => before,
        }
    }
}

pub open spec fn history_text(messages: Seq<Seq<char>>) -> Seq<char> {
    object_text(
        seq![
            ("messages"@, array_text(readable(messages))),
            ("type"@, quoted("chat-history"@)),
        ],
    )
}

pub fn history_json(messages: &Vec<String>) -> (s: String)
    ensures
        s@ == history_text(texts(messages@)),
{
    let mut items: Vec<String> = Vec::new();
    let mut i: usize = 0;
    let ghost all = texts(messages@);
    assert(texts(items@) =~= readable(all.take(0)));
    while i < messages.len()
        invariant
            i <= messages@.len(),
            all == texts(messages@),
            texts(items@) == readable(all.take(i as int)),
        decreases messages@.len() - i,
    {
        assert(all.take(i + 1).drop_last() =~= all.take(i as int));
        match Json::parse(messages[i].as_str()) {
            Some(j) => {
                push_text(&mut items, j.print().as_str());
            },
            None => {},
        }
        i += 1;
    }
    assert(all.take(all.len() as int) =~= all);
    let v: Vec<(&str, String)> = vec![("messages", array(&items)), ("type", quote("chat-history"))];
    assert(pairs(v@) =~= seq![
        ("messages"@, array_text(readable(all))),
        ("type"@, quoted("chat-history"@)),
    ]);
    object(&v)
}

/// The newest messages, no more than the history holds.
pub open spec fn newest(log: Seq<Seq<char>>) -> Seq<Seq<char>> {
    if log.len() <= CHAT_HISTORY {
        log
    } else {
        log.skip(log.len() - CHAT_HISTORY)
    }
}

pub fn push_history(log: &mut Vec<String>, msg: String)
    ensures
        texts(final(log)@) == newest(texts(old(log)@).push(msg@)),
        final(log)@.len() <= CHAT_HISTORY,
{
    let ghost all = texts(log@).push(msg@);
    log.push(msg);
    assert(texts(log@) =~= all);
    let ghost mut gone: int = 0;
    assert(all.skip(0) =~= all);
    while log.len() > CHAT_HISTORY
        invariant
            0 <= gone <= all.len(),
            log@.len() == all.len() - gone,
            gone > 0 ==> log@.len() >= CHAT_HISTORY,
            texts(log@) == all.skip(gone),
        decreases log@.len(),
    {
        let ghost before = texts(log@);
        log.remove(0);
        assert(texts(log@) =~= before.skip(1));
        assert(before.skip(1) =~= all.skip(gone + 1));
        proof {
            gone = gone + 1;
        }
    }
    assert(all.skip(gone) =~= newest(all));
}

/// The log keeps the latest messages in the order they came: message by
/// message it holds what a longer log would end with.
pub proof fn history_keeps_the_newest(log: Seq<Seq<char>>, msg: Seq<char>)
    requires
        log.len() <= CHAT_HISTORY,
    ensures
        newest(log.push(msg)).last() == msg,
        newest(log.push(msg)).len() == if log.len() < CHAT_HISTORY {
            log.len() + 1
        } else {
            CHAT_HISTORY as nat
        },
        forall|earlier: Seq<Seq<char>>|
            newest(#[trigger] newest(earlier).push(msg)) == newest(earlier.push(msg)),
{
    assert forall|earlier: Seq<Seq<char>>|
        newest(#[trigger] newest(earlier).push(msg)) == newest(earlier.push(msg)) by {
        assert(newest(newest(earlier).push(msg)) =~= newest(earlier.push(msg)));
    }
}

/// A message is cut, never changed: what is kept is the beginning of the
/// message without the white space around it.
pub proof fn clamped_is_a_prefix(raw: Seq<char>)
    ensures
        clamped(raw).len() <= CHAT_MAX_CHARS,
        clamped(raw) == trimmed(raw).take(clamped(raw).len() as int),
        trimmed(raw).len() <= CHAT_MAX_CHARS ==> clamped(clamped(raw)) == clamped(raw),
{
    crate::text::trimmed_twice(raw);
    assert(clamped(raw) =~= trimmed(raw).take(clamped(raw).len() as int));
}

/// A message has at most two thousand characters, without white space around
/// it; what is shorter is kept whole.
pub proof fn messages_are_cut_to_length(raw: Seq<char>)
    ensures
        trimmed(raw).len() <= 2000 ==> clamped(raw) == trimmed(raw),
        trimmed(raw).len() > 2000 ==> clamped(raw).len() == 2000 && clamped(raw) == trimmed(
            raw,
        ).take(2000),
{
}

/// Who said it: what the message claims where it claims host or viewer, in any
/// letters; otherwise the host without a session and a viewer with one.
pub proof fn senders_are_told(raw: Option<Seq<char>>, session: Seq<char>)
    ensures
        ({
            let c = lower(trimmed(crate::json::text_or(raw, Seq::empty())));
            &&& c == "host"@ ==> sender(raw, session) == "host"@ && attributed(raw)
            &&& c == "viewer"@ ==> sender(raw, session) == "viewer"@ && attributed(raw)
            &&& c != "host"@ && c != "viewer"@ ==> !attributed(raw)
            &&& c != "host"@ && c != "viewer"@ && trimmed(session).len() == 0 ==> sender(raw, session)
                == "host"@
            &&& c != "host"@ && c != "viewer"@ && trimmed(session).len() > 0 ==> sender(raw, session)
                == "viewer"@
        }),
{
    reveal_strlit("host");
    reveal_strlit("viewer");
    assert("host"@.len() == 4 && "viewer"@.len() == 6);
}

/// A message goes out with its text, its sender and its time.
pub proof fn chat_goes_out_whole(text: Seq<char>, from: Seq<char>, ts: u64)
    ensures
        has_part(chat_text(text, from, ts), shown("text"@, quoted(text))),
        has_part(chat_text(text, from, ts), shown("from"@, quoted(from))),
        has_part(chat_text(text, from, ts), shown("ts"@, decimal(ts as nat))),
        has_part(chat_text(text, from, ts), shown("type"@, quoted("chat"@))),
{
    let m = seq![
        ("from"@, quoted(from)),
        ("text"@, quoted(text)),
        ("ts"@, decimal(ts as nat)),
        ("type"@, quoted("chat"@)),
    ];
    object_shows(m, 0);
    object_shows(m, 1);
    object_shows(m, 2);
    object_shows(m, 3);
}

/// The history holds every message that can be read, in order, and at most the
/// newest forty.
pub proof fn history_holds_the_messages(messages: Seq<Seq<char>>, msg: Seq<char>)
    ensures
        has_part(history_text(messages), shown("messages"@, array_text(readable(messages)))),
        has_part(history_text(messages), shown("type"@, quoted("chat-history"@))),
        parsed(msg) matches Some(t) ==> readable(messages.push(msg)) == readable(messages).push(
            printed(t),
        ),
        parsed(msg) is None ==> readable(messages.push(msg)) == readable(messages),
        readable(Seq::empty()) == Seq::<Seq<char>>::empty(),
        messages.len() <= 40 ==> newest(messages) == messages,
        messages.len() > 40 ==> newest(messages) == messages.skip(messages.len() - 40),
{
    assert(messages.push(msg).drop_last() =~= messages);
    let m = seq![
        ("messages"@, array_text(readable(messages))),
        ("type"@, quoted("chat-history"@)),
    ];
    object_shows(m, 0);
    object_shows(m, 1);
}

} // verus!
