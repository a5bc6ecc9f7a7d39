//! Snapshot → model actions → injector loop.

use crate::b64::{base64_of, encode_b64};
use crate::config::LlmConfig;
use crate::float::{Real, HALF};
use crate::hub::{buffer_slice, Hub, HubState};
use crate::inject::Injector;
use crate::input::{acts, control_act, parse_control_json, Act, Action, MouseButton};
use crate::json::{
    array, array_text, items_stand_in_brackets, object, object_shows, object_text, pairs, parsed,
    quote, quoted, shown, trees, Json, Tree,
};
use crate::snapshot::{encode_snapshot, picture_of, Picture, Snapshot};
use crate::text::{
    append, begins, char_at, char_is_first, chars_of, concat2, decimal, decimal_text, ends, ends_with, find_char,
    has_part, part_at, part_between, part_of_part, part_stays, same, slice_text, starts_with, texts, trim, trim_end_char,
    trimmed, without_trailing,
};
use vstd::prelude::*;

verus! {

pub const MAX_STEPS: u32 = 20;

/// How long to wait after the display was switched, in milliseconds.
pub const DISPLAY_PAUSE_MS: u64 = 400;

pub trait ActionModel {
    /// The actions that the model plans for a step.
    spec fn plans(&self, task: Seq<char>, step: u32, jpeg: Seq<u8>) -> Seq<Act>;

    fn kind(&self) -> (s: &'static str)
        default_ensures
            s@ == "stub"@,
    {
        "stub"
    }

    fn plan(&self, task: &str, step: u32, jpeg: &[u8]) -> (v: Vec<Action>)
        ensures
            acts(v@) == self.plans(task@, step, jpeg@),
    ;
}

/// A model that is done at once.
pub struct DoneModel;

impl ActionModel for DoneModel {
    open spec fn plans(&self, task: Seq<char>, step: u32, jpeg: Seq<u8>) -> Seq<Act> {
        seq![Act::Done]
    }

    fn kind(&self) -> (s: &'static str)
        ensures
            s@ == "done"@,
    {
        "done"
    }

    fn plan(&self, _task: &str, _step: u32, _jpeg: &[u8]) -> (v: Vec<Action>) {
        let v = vec![Action::Done];
        assert(acts(v@) =~= seq![Act::Done]);
        v
    }
}

/// Scripted stub: step 0 click, step 1 type, then done. Ignores pixels.
pub struct StubClickTypeModel {
    pub x: Real,
    pub y: Real,
    pub text: String,
}

impl Default for StubClickTypeModel {
    fn default() -> (m: Self)
        ensures
            m.x.bits == HALF,
            m.y.bits == HALF,
            m.text@ == "hello"@,
    {
        StubClickTypeModel {
            x: Real { bits: HALF },
            y: Real { bits: HALF },
            text: "hello".to_owned(),
        }
    }
}

impl ActionModel for StubClickTypeModel {
    open spec fn plans(&self, task: Seq<char>, step: u32, jpeg: Seq<u8>) -> Seq<Act> {
        if step == 0 {
            seq![Act::Click { x: self.x.bits, y: self.y.bits, button: MouseButton::Left, clicks: 1 }]
        } else if step == 1 {
            seq![Act::Type { text: self.text@ }]
        } else {
            seq![Act::Done]
        }
    }

    fn plan(&self, _task: &str, step: u32, _jpeg: &[u8]) -> (v: Vec<Action>) {
        let v = if step == 0 {
            vec![Action::click(self.x, self.y)]
        } else if step == 1 {
            vec![Action::Type { text: self.text.clone() }]
        } else {
            vec![Action::Done]
        };
        assert(acts(v@) =~= self.plans(_task@, step, _jpeg@));
        v
    }
}

/// A model behind an HTTP endpoint that speaks the chat completions protocol.
#[derive(Debug)]
pub struct LlmActionModel {
    pub base_url: String,
    pub api_key: String,
    pub model: String,
}

pub const PROMPT_HEAD: &'static str = "You operate a computer from a screenshot like a human at the keyboard and mouse. Task: ";

pub const PROMPT_TAIL: &'static str = "\nCoordinates are normalized 0–1 relative to the image.\nUse right-click, drag (down/move/up), modifier keys, paste, clipboard images, inbox files, and switch displays when a person would.\nIf the task lists [displays]=JSON, pick another screen with action display and that id, then wait.\nRespond ONLY with JSON: {\"actions\":[{\"action\":\"click\",\"x\":0.5,\"y\":0.5},{\"action\":\"click\",\"x\":0.5,\"y\":0.5,\"button\":\"right\"},{\"action\":\"dblclick\",\"x\":0.5,\"y\":0.5},{\"action\":\"down\",\"x\":0.2,\"y\":0.2},{\"action\":\"move\",\"x\":0.8,\"y\":0.8},{\"action\":\"up\",\"x\":0.8,\"y\":0.8},{\"action\":\"type\",\"text\":\"hi\"},{\"action\":\"key\",\"key\":\"Enter\"},{\"action\":\"key\",\"key\":\"c\",\"modifiers\":[\"Meta\"]},{\"action\":\"paste\",\"text\":\"clipboard text\"},{\"action\":\"clipboard\",\"mime\":\"image/png\",\"data\":\"base64-png\"},{\"action\":\"file\",\"name\":\"notes.txt\",\"text\":\"file body\"},{\"action\":\"display\",\"id\":\"2:\"},{\"action\":\"scroll\",\"x\":0.5,\"y\":0.5,\"dy\":-1},{\"action\":\"wait\",\"ms\":200},{\"action\":\"done\"}]}.";

pub open spec fn prompt(task: Seq<char>, step: u32) -> Seq<char> {
    PROMPT_HEAD@ + task + "\nStep: "@ + decimal(step as nat) + PROMPT_TAIL@
}

/// The request body: the prompt, and the picture as a data URL.
pub open spec fn vision_body(model: Seq<char>, task: Seq<char>, step: u32, jpeg: Seq<u8>) -> Seq<
    char,
> {
    object_text(
        seq![
            ("max_tokens"@, "1024"@),
            (
                "messages"@,
                array_text(
                    seq![
                        object_text(
                            seq![
                                (
                                    "content"@,
                                    array_text(
                                        seq![
                                            object_text(
                                                seq![
                                                    ("text"@, quoted(prompt(task, step))),
                                                    ("type"@, quoted("text"@)),
                                                ],
                                            ),
                                            object_text(
                                                seq![
                                                    (
                                                        "image_url"@,
                                                        object_text(
                                                            seq![
                                                                (
                                                                    "url"@,
                                                                    quoted(
                                                                        "data:image/jpeg;base64,"@
                                                                            + base64_of(jpeg),
                                                                    ),
                                                                ),
                                                            ],
                                                        ),
                                                    ),
                                                    ("type"@, quoted("image_url"@)),
                                                ],
                                            ),
                                        ],
                                    ),
                                ),
                                ("role"@, quoted("user"@)),
                            ],
                        ),
                    ],
                ),
            ),
            ("model"@, quoted(model)),
            ("temperature"@, "0.2"@),
        ],
    )
}

fn one_member(name: &'static str, value: String) -> (s: String)
    ensures
        s@ == object_text(seq![(name@, value@)]),
{
    let v: Vec<(&str, String)> = vec![(name, value)];
    assert(pairs(v@) =~= seq![(name@, value@)]);
    object(&v)
}

fn two_members(a: &'static str, x: String, b: &'static str, y: String) -> (s: String)
    ensures
        s@ == object_text(seq![(a@, x@), (b@, y@)]),
{
    let v: Vec<(&str, String)> = vec![(a, x), (b, y)];
    assert(pairs(v@) =~= seq![(a@, x@), (b@, y@)]);
    object(&v)
}

fn body_text(model: &str, task: &str, step: u32, jpeg: &[u8]) -> (s: String)
    ensures
        s@ == vision_body(model@, task@, step, jpeg@),
{
    let text = two_members(
        "text",
        quote(LlmActionModel::action_prompt(task, step).as_str()),
        "type",
        quote("text"),
    );
    let url = concat2("data:image/jpeg;base64,", encode_b64(jpeg).as_str());
    let image = two_members(
        "image_url",
        one_member("url", quote(url.as_str())),
        "type",
        quote("image_url"),
    );
    let parts: Vec<String> = vec![text, image];
    assert(texts(parts@) =~= seq![text@, image@]);
    let message = two_members("content", array(&parts), "role", quote("user"));
    let messages: Vec<String> = vec![message];
    assert(texts(messages@) =~= seq![message@]);
    let v: Vec<(&str, String)> = vec![
        ("max_tokens", "1024".to_owned()),
        ("messages", array(&messages)),
        ("model", quote(model)),
        ("temperature", "0.2".to_owned()),
    ];
    assert(pairs(v@) =~= seq![
        ("max_tokens"@, "1024"@),
        ("messages"@, array_text(seq![message@])),
        ("model"@, quoted(model@)),
        ("temperature"@, "0.2"@),
    ]);
    object(&v)
}

/// What a reference token leads to: a member of an object, or an item of an
/// array by its number.
pub open spec fn step_into(v: Tree, token: Seq<char>) -> Option<Tree> {
    match v {
        Tree::Arr(a) => if token == "0"@ && a.len() > 0 {
            Some(a[0])
        } else {
            None
        },
        _ => v.get(token),
    }
}

/// The text that the model answered with.
pub open spec fn answer_of(v: Tree) -> Seq<char> {
    match step_into(v, "choices"@) {
        None => Seq::empty(),
        Some(c) => match step_into(c, "0"@) {
            None => Seq::empty(),
            Some(first) => match step_into(first, "message"@) {
                None => Seq::empty(),
                Some(m) => match step_into(m, "content"@) {
                    None => Seq::empty(),
                    Some(t) => crate::json::text_or(t.text(), Seq::empty()),
                },
            },
        },
    }
}

fn into_step<'a>(v: &'a Json, token: &str) -> (r: Option<&'a Json>)
    ensures
        match r {
            Some(j) => step_into(v.tree(), token@) == Some(j.tree()),
            None => step_into(v.tree(), token@) is None,
        },
{
    match v {
        Json::Arr(a) => if same(token, "0") && a.len() > 0 {
            Some(&a[0])
        } else {
            None
        },
        _ => v.get(token),
    }
}

fn answer_text(v: &Json) -> (s: String)
    ensures
        s@ == answer_of(v.tree()),
{
    match into_step(v, "choices") {
        None => String::new(),
        Some(c) => match into_step(c, "0") {
            None => String::new(),
            Some(first) => match into_step(first, "message") {
                None => String::new(),
                Some(m) => match into_step(m, "content") {
                    None => String::new(),
                    Some(t) => match t.as_text() {
                        Some(s) => s.to_owned(),
                        None => String::new(),
                    },
                },
            },
        },
    }
}

/// The text inside a code fence, or the text itself.
pub open spec fn unfenced(text: Seq<char>) -> Seq<char> {
    let s = trimmed(text);
    if begins(s, "```"@) {
        let t = match char_at(s, '\n', 0) {
            Some(i) => s.skip(i + 1),
            None => s,
        };
        if ends(t, "```"@) {
            trimmed(t.take(t.len() - 3))
        } else {
            t
        }
    } else {
        s
    }
}

/// Where the object ends that is `depth` braces deep at `i`. Braces in strings
/// do not count.
pub open spec fn object_end(s: Seq<char>, i: int, depth: int, in_str: bool, esc: bool) -> Option<int>
    decreases s.len() - i,
{
    if i >= s.len() {
        None
    } else if in_str {
        if esc {
            object_end(s, i + 1, depth, true, false)
        } else if s[i] == '\\' {
            object_end(s, i + 1, depth, true, true)
        } else if s[i] == '"' {
            object_end(s, i + 1, depth, false, false)
        } else {
            object_end(s, i + 1, depth, true, false)
        }
    } else if s[i] == '"' {
        object_end(s, i + 1, depth, true, false)
    } else if s[i] == '{' {
        object_end(s, i + 1, depth + 1, false, false)
    } else if s[i] == '}' {
        if depth == 1 {
            Some(i)
        } else {
            object_end(s, i + 1, depth - 1, false, false)
        }
    } else {
        object_end(s, i + 1, depth, false, false)
    }
}

/// The text of the first object in a text.
pub open spec fn first_object(text: Seq<char>) -> Option<Seq<char>> {
    let s = unfenced(text);
    match char_at(s, '{', 0) {
        None => None,
        Some(start) => match object_end(s, start, 0, false, false) {
            None => None,
            Some(end) => Some(s.subrange(start, end + 1)),
        },
    }
}

fn without_fence(text: &str) -> (r: String)
    ensures
        r@ == unfenced(text@),
{
    let s = trim(text);
    if !starts_with(s.as_str(), "```") {
        return s;
    }
    let v = chars_of(s.as_str());
    let from: usize = match find_char(&v, '\n', 0) {
        Some(i) => i + 1,
        None => 0,
    };
    let t = slice_text(&v, from, v.len());
    assert(t@ =~= match char_at(s@, '\n', 0) {
        Some(i) => s@.skip(i + 1),
        None => s@,
    });
    proof {
        reveal_strlit("```");
    }
    if ends_with(t.as_str(), "```") {
        let w = chars_of(t.as_str());
        let body = slice_text(&w, 0, w.len() - 3);
        assert(body@ =~= t@.take(t@.len() - 3));
        trim(body.as_str())
    } else {
        t
    }
}

fn find_object_end(v: &Vec<char>, start: usize) -> (r: Option<usize>)
    requires
        start < v.len(),
        v@[start as int] == '{',
    ensures
        match r {
            Some(i) => object_end(v@, start as int, 0, false, false) == Some(i as int) && start <= i
                && i < v@.len(),
            None => object_end(v@, start as int, 0, false, false) is None,
        },
{
    let mut i: usize = start;
    let mut depth: usize = 0;
    let mut in_str = false;
    let mut esc = false;
    while i < v.len()
        invariant
            start <= i <= v@.len(),
            start < v@.len(),
            v@[start as int] == '{',
            object_end(v@, i as int, depth as int, in_str, esc) == object_end(
                v@,
                start as int,
                0,
                false,
                false,
            ),
            depth <= i - start,
            i == start ==> !in_str && depth == 0,
            i > start ==> depth >= 1,
            !in_str ==> !esc,
        decreases v@.len() - i,
    {
        let c = v[i];
        if in_str {
            if esc {
                esc = false;
            } else if c == '\\' {
                esc = true;
            } else if c == '"' {
                in_str = false;
            }
        } else if c == '"' {
            in_str = true;
        } else if c == '{' {
            depth = depth + 1;
        } else if c == '}' {
            if depth == 1 {
                return Some(i);
            }
            depth = depth - 1;
        }
        i += 1;
    }
    None
}

/// The first object in a text, as text.
pub fn object_in(text: &str) -> (r: Option<String>)
    ensures
        crate::text::opt_text(r) == first_object(text@),
{
    let s = without_fence(text);
    let v = chars_of(s.as_str());
    match find_char(&v, '{', 0) {
        None => None,
        Some(start) => match find_object_end(&v, start) {
            None => None,
            Some(end) => Some(slice_text(&v, start, end + 1)),
        },
    }
}

/// The first object in a text, if it is JSON.
pub open spec fn object_of(text: Seq<char>) -> Option<Tree> {
    match first_object(text) {
        Some(s) => parsed(s),
        None => None,
    }
}

pub fn extract_json_object(text: &str) -> (r: Option<Json>)
    ensures
        match r {
            Some(j) => object_of(text@) == Some(j.tree()),
            None => object_of(text@) is None,
        },
{
    match object_in(text) {
        Some(s) => Json::parse(s.as_str()),
        None => None,
    }
}

/// The actions among items.
pub open spec fn item_acts(items: Seq<Tree>) -> Seq<Act>
    decreases items.len(),
{
    if items.len() == 0 {
        Seq::empty()
    } else {
        let before = item_acts(items.drop_last());
        match control_act(items.last()) {
            Some(a) => before.push(a),
            None => before,
        }
    }
}

/// The actions that a model's answer lists, or the one that it is.
pub open spec fn model_acts(v: Tree) -> Seq<Act> {
    match v.items_at("actions"@) {
        Some(items) => item_acts(items),
        None => if v.get("action"@) is Some {
            item_acts(seq![v])
        } else {
            Seq::empty()
        },
    }
}

pub fn actions_from_model_json(v: &Json) -> (out: Vec<Action>)
    ensures
        acts(out@) == model_acts(v.tree()),
{
    let mut out: Vec<Action> = Vec::new();
    assert(acts(out@) =~= Seq::<Act>::empty());
    match v.items_at("actions") {
        Some(list) => {
            let ghost all = trees(list@);
            let mut i: usize = 0;
            assert(all.take(0) =~= Seq::<Tree>::empty());
            while i < list.len()
                invariant
                    i <= list@.len(),
                    all == trees(list@),
                    acts(out@) == item_acts(all.take(i as int)),
                decreases list@.len() - i,
            {
                let ghost before = acts(out@);
                proof {
                    assert(all.take(i + 1).drop_last() =~= all.take(i as int));
                    assert(all.take(i + 1).last() == list@[i as int].tree());
                }
                match parse_control_json(&list[i]) {
                    Some(a) => {
                        out.push(a);
                        assert(acts(out@) =~= before.push(a@));
                    },
                    None => {},
                }
                i += 1;
            }
            assert(all.take(all.len() as int) =~= all);
        },
        None => {
            if v.get("action").is_some() {
                proof {
                    let one = seq![v.tree()];
                    assert(one.drop_last() =~= Seq::<Tree>::empty());
                    assert(item_acts(one.drop_last()) =~= Seq::<Act>::empty());
                }
                match parse_control_json(v) {
                    Some(a) => {
                        out.push(a);
                        assert(acts(out@) =~= Seq::<Act>::empty().push(a@));
                    },
                    None => {},
                }
            }
        },
    }
    out
}

/// The actions that a model's answer asks for: done where there are none.
pub open spec fn answer_acts(content: Seq<char>) -> Seq<Act> {
    let v = match object_of(content) {
        Some(t) => t,
        None => Tree::Null,
    };
    if model_acts(v).len() == 0 {
        seq![Act::Done]
    } else {
        model_acts(v)
    }
}

/// The actions that an HTTP reply asks for; one that is no JSON, or that never
/// came, asks for nothing more.
pub open spec fn reply_acts(reply: Option<Tree>) -> Seq<Act> {
    match reply {
        Some(v) => answer_acts(answer_of(v)),
        None => seq![Act::Done],
    }
}

fn actions_in(content: &str) -> (out: Vec<Action>)
    ensures
        acts(out@) == answer_acts(content@),
{
    let v = match extract_json_object(content) {
        Some(j) => j,
        None => Json::Null,
    };
    let mut out = actions_from_model_json(&v);
    if out.len() == 0 {
        assert(acts(out@).len() == 0);
        out.push(Action::Done);
        assert(acts(out@) =~= seq![Act::Done]);
    }
    out
}

/// The actions that a reply asks for, from the JSON value of its body.
pub fn vision_actions(reply: Option<Json>) -> (out: Vec<Action>)
    ensures
        acts(out@) == reply_acts(
            match reply {
                Some(j) => Some(j.tree()),
                None => None,
            },
        ),
{
    match reply {
        Some(v) => actions_in(answer_text(&v).as_str()),
        None => {
            let out = vec![Action::Done];
            assert(acts(out@) =~= seq![Act::Done]);
            out
        },
    }
}

/// The actions that the body of a reply asks for, if there was a reply.
pub fn vision_reply(body: Option<&str>) -> (out: Vec<Action>)
    ensures
        acts(out@) == match body {
            Some(s) => reply_acts(parsed(s@)),
            None => reply_acts(None),
        },
{
    match body {
        Some(s) => vision_actions(Json::parse(s)),
        None => vision_actions(None),
    }
}

/// A request to a model: where it goes, and its body.
#[derive(Debug)]
pub struct VisionRequest {
    pub url: String,
    pub body: String,
}

impl LlmActionModel {
    pub fn from_cfg(cfg: &LlmConfig) -> (m: Self)
        ensures
            m.base_url@ == cfg@.base_url,
            m.api_key@ == cfg@.api_key,
            m.model@ == cfg@.model,
    {
        LlmActionModel {
            base_url: cfg.base_url.clone(),
            api_key: cfg.api_key.clone(),
            model: cfg.model.clone(),
        }
    }

    pub fn action_prompt(task: &str, step: u32) -> (s: String)
        ensures
            s@ == prompt(task@, step),
    {
        let mut s = concat2(PROMPT_HEAD, task);
        append(&mut s, "\nStep: ");
        append(&mut s, decimal_text(step as u64).as_str());
        append(&mut s, PROMPT_TAIL);
        s
    }

    /// The request for the next actions; none without a key, and then the task
    /// is done.
    pub fn plan_vision(&self, task: &str, step: u32, jpeg: &[u8]) -> (r: Option<VisionRequest>)
        ensures
            match r {
                None => trimmed(self.api_key@).len() == 0,
                Some(q) => trimmed(self.api_key@).len() > 0 && q.url@ == without_trailing(
                    self.base_url@,
                    '/',
                ) + "/chat/completions"@ && q.body@ == vision_body(
                    self.model@,
                    task@,
                    step,
                    jpeg@,
                ),
            },
    {
        if chars_of(trim(self.api_key.as_str()).as_str()).len() == 0 {
            return None;
        }
        let url = concat2(
            trim_end_char(self.base_url.as_str(), '/').as_str(),
            "/chat/completions",
        );
        Some(VisionRequest { url, body: body_text(self.model.as_str(), task, step, jpeg) })
    }
}

impl ActionModel for LlmActionModel {
    open spec fn plans(&self, task: Seq<char>, step: u32, jpeg: Seq<u8>) -> Seq<Act> {
        seq![Act::Done]
    }

    fn kind(&self) -> (s: &'static str)
        ensures
            s@ == "llm"@,
    {
        "llm"
    }

    fn plan(&self, _task: &str, _step: u32, _jpeg: &[u8]) -> (v: Vec<Action>) {
        let v = vec![Action::Done];
        assert(acts(v@) =~= seq![Act::Done]);
        v
    }
}

pub fn production_model(llm: &LlmConfig) -> (m: LlmActionModel)
    ensures
        m.base_url@ == llm@.base_url,
        m.api_key@ == llm@.api_key,
        m.model@ == llm@.model,
{
    LlmActionModel::from_cfg(llm)
}

/// Actions up to the one that ends the task, that one too.
pub open spec fn until_done(plan: Seq<Act>) -> Seq<Act>
    decreases plan.len(),
{
    if plan.len() == 0 {
        Seq::empty()
    } else if plan[0] is Done {
        seq![Act::Done]
    } else {
        seq![plan[0]] + until_done(plan.drop_first())
    }
}

pub open spec fn ends_task(plan: Seq<Act>) -> bool
    decreases plan.len(),
{
    plan.len() > 0 && (plan[0] is Done || ends_task(plan.drop_first()))
}

/// What a task does from a step on, when `plans` gives the plan of each step.
pub open spec fn task_acts(plans: spec_fn(u32) -> Seq<Act>, step: u32, max: u32) -> Seq<Act>
    decreases max - step,
{
    if step >= max {
        Seq::empty()
    } else if ends_task(plans(step)) {
        until_done(plans(step))
    } else {
        plans(step) + task_acts(plans, (step + 1) as u32, max)
    }
}

/// The actions that are handed to the injector: all but waits and the end.
pub open spec fn handed_over(v: Seq<Act>) -> Seq<Act>
    decreases v.len(),
{
    if v.len() == 0 {
        Seq::empty()
    } else if v.last() is Wait || v.last() is Done {
        handed_over(v.drop_last())
    } else {
        handed_over(v.drop_last()).push(v.last())
    }
}

proof fn until_done_whole(plan: Seq<Act>)
    ensures
        !ends_task(plan) ==> until_done(plan) == plan,
    decreases plan.len(),
{
    if plan.len() > 0 {
        until_done_whole(plan.drop_first());
        assert(plan =~= seq![plan[0]] + plan.drop_first());
    } else {
        assert(until_done(plan) =~= plan);
    }
}

proof fn handed_over_push(v: Seq<Act>, a: Act)
    ensures
        handed_over(v.push(a)) == if a is Wait || a is Done {
            handed_over(v)
        } else {
            handed_over(v).push(a)
        },
{
    assert(v.push(a).drop_last() =~= v);
}

proof fn handed_over_concat(a: Seq<Act>, b: Seq<Act>)
    ensures
        handed_over(a + b) == handed_over(a) + handed_over(b),
    decreases b.len(),
{
    if b.len() == 0 {
        assert(a + b =~= a);
        assert(handed_over(a) + handed_over(b) =~= handed_over(a));
    } else {
        handed_over_concat(a, b.drop_last());
        assert((a + b).drop_last() =~= a + b.drop_last());
        assert((a + b).last() == b.last());
        assert(handed_over(a + b) =~= handed_over(a) + handed_over(b));
    }
}

/// Whether a task is to stop. It is asked again before every step and before
/// every action.
pub trait Cancel {
    /// What was answered up to now.
    spec fn answers(&self) -> Seq<bool>;

    fn cancelled(&mut self) -> (r: bool)
        ensures
            final(self).answers() == old(self).answers().push(r),
    ;
}

/// A flag that another thread may raise at any time.
pub struct SharedFlag<'a> {
    flag: &'a std::sync::atomic::AtomicBool,
    log: Ghost<Seq<bool>>,
}

impl<'a> SharedFlag<'a> {
    pub fn new(flag: &'a std::sync::atomic::AtomicBool) -> (f: Self)
        ensures
            f.answers() == Seq::<bool>::empty(),
    {
        SharedFlag { flag, log: Ghost(Seq::empty()) }
    }
}

impl<'a> Cancel for SharedFlag<'a> {
    closed spec fn answers(&self) -> Seq<bool> {
        self.log@
    }

    fn cancelled(&mut self) -> (r: bool) {
        let r = self.flag.load(std::sync::atomic::Ordering::SeqCst);
        proof {
            self.log@ = self.log@.push(r);
        }
        r
    }
}

/// Answers laid down beforehand; the last of them stands for all that follow,
/// and where there is none nothing is cancelled.
pub struct Answers {
    list: Vec<bool>,
    at: usize,
    log: Ghost<Seq<bool>>,
}

impl Answers {
    pub closed spec fn list(&self) -> Seq<bool> {
        self.list@
    }

    /// How many of the answers were given.
    pub closed spec fn at(&self) -> int {
        self.at as int
    }

    pub fn new(list: Vec<bool>) -> (a: Self)
        ensures
            a.list() == list@,
            a.at() == 0,
            a.answers() == Seq::<bool>::empty(),
    {
        Answers { list, at: 0, log: Ghost(Seq::empty()) }
    }
}

impl Cancel for Answers {
    closed spec fn answers(&self) -> Seq<bool> {
        self.log@
    }

    fn cancelled(&mut self) -> (r: bool)
        ensures
            final(self).list() == old(self).list(),
            old(self).at() < old(self).list().len() ==> r == old(self).list()[old(self).at()]
                && final(self).at() == old(self).at() + 1,
            old(self).at() >= old(self).list().len() ==> final(self).at() == old(self).at() && r == (
            old(self).list().len() > 0 && old(self).list().last()),
    {
        let r = if self.at < self.list.len() {
            self.at = self.at + 1;
            self.list[self.at - 1]
        } else if self.list.len() > 0 {
            self.list[self.list.len() - 1]
        } else {
            false
        };
        proof {
            self.log@ = self.log@.push(r);
        }
        r
    }
}

/// What is done of a plan when the question whether to stop is answered with
/// `asked`, one answer before each action: the actions, the answers that are
/// left, and whether the task is over.
pub open spec fn plan_under(plan: Seq<Act>, asked: Seq<bool>) -> (Seq<Act>, Seq<bool>, bool)
    decreases plan.len(),
{
    if plan.len() == 0 {
        (Seq::empty(), asked, false)
    } else if asked.len() == 0 {
        (Seq::empty(), asked, true)
    } else if asked[0] {
        (Seq::empty(), asked.drop_first(), true)
    } else if plan[0] is Done {
        (seq![Act::Done], asked.drop_first(), true)
    } else {
        let r = plan_under(plan.drop_first(), asked.drop_first());
        (seq![plan[0]] + r.0, r.1, r.2)
    }
}

/// What a task does from a step on when the question whether to stop is
/// answered with `asked`, one answer before each step and each action, and the
/// answers that are left.
pub open spec fn task_under(
    plans: spec_fn(u32) -> Seq<Act>,
    step: u32,
    max: u32,
    asked: Seq<bool>,
) -> (Seq<Act>, Seq<bool>)
    decreases max - step,
{
    if step >= max || asked.len() == 0 {
        (Seq::empty(), asked)
    } else if asked[0] {
        (Seq::empty(), asked.drop_first())
    } else {
        let r = plan_under(plans(step), asked.drop_first());
        if r.2 {
            (r.0, r.1)
        } else {
            let t = task_under(plans, (step + 1) as u32, max, r.1);
            (r.0 + t.0, t.1)
        }
    }
}

/// One step of a task: what is planned is done, up to the end of the task.
fn run_plan<I: Injector, C: Cancel>(
    plan: Vec<Action>,
    injector: &mut I,
    applied: &mut Vec<Action>,
    cancel: &mut C,
) -> (over: bool)
    ensures
        ({
            let asked = final(cancel).answers().skip(old(cancel).answers().len() as int);
            let done = acts(final(applied)@).skip(old(applied)@.len() as int);
            &&& final(cancel).answers() == old(cancel).answers() + asked
            &&& acts(final(applied)@) == acts(old(applied)@) + done
            &&& final(injector).given() == old(injector).given() + handed_over(done)
            &&& forall|x: Seq<bool>| #[trigger]
                plan_under(acts(plan@), asked + x) == (done, x, over)
        }),
{
    let ghost all = acts(plan@);
    let ghost before = acts(applied@);
    let ghost given = injector.given();
    let ghost log = cancel.answers();
    let mut rest = plan;
    let ghost mut n: int = 0;
    let ghost mut asked = Seq::<bool>::empty();
    proof {
        assert(all.skip(0) =~= all);
        assert(all.take(0) =~= Seq::<Act>::empty());
        assert(before + all.take(0) =~= before);
        assert(given + handed_over(all.take(0)) =~= given);
        assert(log + asked =~= log);
        assert forall|x: Seq<bool>| #[trigger] plan_under(all, asked + x) == (
            all.take(0) + plan_under(all.skip(0), x).0,
            plan_under(all.skip(0), x).1,
            plan_under(all.skip(0), x).2,
        ) by {
            assert(asked + x =~= x);
            assert(all.take(0) + plan_under(all, x).0 =~= plan_under(all, x).0);
        }
    }
    while rest.len() > 0
        invariant
            0 <= n <= all.len(),
            all == acts(plan@),
            before == acts(old(applied)@),
            given == old(injector).given(),
            log == old(cancel).answers(),
            acts(rest@) == all.skip(n),
            acts(applied@) == before + all.take(n),
            injector.given() == given + handed_over(all.take(n)),
            cancel.answers() == log + asked,
            forall|x: Seq<bool>| #[trigger]
                plan_under(all, asked + x) == (
                    all.take(n) + plan_under(all.skip(n), x).0,
                    plan_under(all.skip(n), x).1,
                    plan_under(all.skip(n), x).2,
                ),
        decreases rest@.len(),
    {
        let ghost here = acts(rest@);
        let ghost done_before = acts(applied@);
        assert(here.len() > 0 && n < all.len());
        let stop = cancel.cancelled();
        let ghost asked_before = asked;
        proof {
            asked = asked.push(stop);
            assert(cancel.answers() =~= log + asked);
            assert(cancel.answers().skip(log.len() as int) =~= asked);
            assert forall|x: Seq<bool>| #[trigger] plan_under(all, asked + x) == (
                all.take(n) + plan_under(all.skip(n), seq![stop] + x).0,
                plan_under(all.skip(n), seq![stop] + x).1,
                plan_under(all.skip(n), seq![stop] + x).2,
            ) by {
                assert(asked + x =~= asked_before + (seq![stop] + x));
            }
        }
        if stop {
            proof {
                assert forall|x: Seq<bool>| #[trigger] plan_under(all, asked + x) == (
                    all.take(n),
                    x,
                    true,
                ) by {
                    assert((seq![stop] + x).drop_first() =~= x);
                    assert(all.take(n) + Seq::<Act>::empty() =~= all.take(n));
                }
                assert(acts(applied@).skip(before.len() as int) =~= all.take(n));
            }
            return true;
        }
        let a = rest.remove(0);
        proof {
            assert(here[0] == a@);
            assert(all.skip(n)[0] == all[n]);
            assert(acts(rest@) =~= here.skip(1));
            assert(here.skip(1) =~= all.skip(n + 1));
            assert(all.skip(n).drop_first() =~= all.skip(n + 1));
            assert(all.take(n + 1) =~= all.take(n).push(all[n]));
            handed_over_push(all.take(n), all[n]);
        }
        match &a {
            Action::Done => {
                applied.push(a);
                proof {
                    assert(acts(applied@) =~= done_before.push(Act::Done));
                    assert(acts(applied@).skip(before.len() as int) =~= all.take(n + 1));
                    assert forall|x: Seq<bool>| #[trigger] plan_under(all, asked + x) == (
                        all.take(n + 1),
                        x,
                        true,
                    ) by {
                        assert((seq![stop] + x).drop_first() =~= x);
                        assert(all.take(n) + seq![Act::Done] =~= all.take(n + 1));
                    }
                }
                return true;
            },
            Action::Wait { .. } => {
                applied.push(a);
                assert(acts(applied@) =~= done_before.push(a@));
            },
            _ => {
                injector.apply(&a);
                applied.push(a);
                assert(acts(applied@) =~= done_before.push(a@));
            },
        }
        proof {
            assert(acts(applied@) =~= before + all.take(n + 1));
            assert(injector.given() =~= given + handed_over(all.take(n + 1)));
            assert forall|x: Seq<bool>| #[trigger] plan_under(all, asked + x) == (
                all.take(n + 1) + plan_under(all.skip(n + 1), x).0,
                plan_under(all.skip(n + 1), x).1,
                plan_under(all.skip(n + 1), x).2,
            ) by {
                assert((seq![stop] + x).drop_first() =~= x);
                assert(all.take(n) + (seq![all[n]] + plan_under(all.skip(n + 1), x).0)
                    =~= all.take(n + 1) + plan_under(all.skip(n + 1), x).0);
            }
            n = n + 1;
        }
    }
    proof {
        assert(all.take(n) =~= all);
        assert(all.skip(n) =~= Seq::<Act>::empty());
        assert(acts(applied@).skip(before.len() as int) =~= all);
        assert(cancel.answers().skip(log.len() as int) =~= asked);
        assert forall|x: Seq<bool>| #[trigger] plan_under(all, asked + x) == (all, x, false) by {
            assert(all.take(n) + Seq::<Act>::empty() =~= all);
        }
    }
    false
}

/// The plan of each step of a task.
pub open spec fn planned<M: ActionModel>(
    model: M,
    task: Seq<char>,
    jpeg: Seq<u8>,
) -> spec_fn(u32) -> Seq<Act> {
    |step: u32| model.plans(task, step, jpeg)
}

/// Works on a task until the model is done, the steps are used up or it is to
/// stop, which is asked before every step and every action. A blank task does
/// nothing. What is done follows from the plans and from what was answered.
pub fn run_task_while<M: ActionModel, I: Injector, C: Cancel>(
    task: &str,
    model: &M,
    injector: &mut I,
    jpeg: &[u8],
    max_steps: u32,
    cancel: &mut C,
) -> (applied: Vec<Action>)
    ensures
        ({
            let t = trimmed(task@);
            let asked = final(cancel).answers().skip(old(cancel).answers().len() as int);
            &&& final(cancel).answers() == old(cancel).answers() + asked
            &&& final(injector).given() == old(injector).given() + handed_over(acts(applied@))
            &&& if t.len() == 0 {
                acts(applied@).len() == 0 && asked.len() == 0
            } else {
                forall|x: Seq<bool>| #[trigger]
                    task_under(planned(*model, t, jpeg@), 0, max_steps, asked + x) == (
                        acts(applied@),
                        x,
                    )
            }
        }),
{
    let mut applied: Vec<Action> = Vec::new();
    let ghost given = injector.given();
    let ghost log = cancel.answers();
    let ghost mut asked = Seq::<bool>::empty();
    proof {
        assert(acts(applied@) =~= Seq::<Act>::empty());
        assert(given + handed_over(acts(applied@)) =~= given);
        assert(log + asked =~= log);
        assert(log.skip(log.len() as int) =~= asked);
    }
    let t = trim(task);
    if chars_of(t.as_str()).len() == 0 {
        return applied;
    }
    let ghost plans = planned(*model, t@, jpeg@);
    proof {
        assert forall|x: Seq<bool>| #[trigger] task_under(plans, 0, max_steps, asked + x) == (
            acts(applied@) + task_under(plans, 0, max_steps, x).0,
            task_under(plans, 0, max_steps, x).1,
        ) by {
            assert(asked + x =~= x);
            assert(acts(applied@) + task_under(plans, 0, max_steps, x).0 =~= task_under(
                plans,
                0,
                max_steps,
                x,
            ).0);
        }
    }
    let mut step: u32 = 0;
    while step < max_steps
        invariant
            step <= max_steps,
            plans == planned(*model, t@, jpeg@),
            t@ == trimmed(task@),
            t@.len() > 0,
            given == old(injector).given(),
            log == old(cancel).answers(),
            injector.given() == given + handed_over(acts(applied@)),
            cancel.answers() == log + asked,
            forall|x: Seq<bool>| #[trigger]
                task_under(plans, 0, max_steps, asked + x) == (
                    acts(applied@) + task_under(plans, step, max_steps, x).0,
                    task_under(plans, step, max_steps, x).1,
                ),
        decreases max_steps - step,
    {
        let ghost before = acts(applied@);
        let ghost given_before = injector.given();
        let ghost asked_before = asked;
        let stop = cancel.cancelled();
        proof {
            asked = asked.push(stop);
            assert(cancel.answers() =~= log + asked);
            assert(cancel.answers().skip(log.len() as int) =~= asked);
            assert forall|x: Seq<bool>| #[trigger] task_under(plans, 0, max_steps, asked + x) == (
                before + task_under(plans, step, max_steps, seq![stop] + x).0,
                task_under(plans, step, max_steps, seq![stop] + x).1,
            ) by {
                assert(asked + x =~= asked_before + (seq![stop] + x));
            }
        }
        if stop {
            proof {
                assert forall|x: Seq<bool>| #[trigger] task_under(plans, 0, max_steps, asked + x)
                    == (before, x) by {
                    assert((seq![stop] + x).drop_first() =~= x);
                    assert(before + Seq::<Act>::empty() =~= before);
                }
            }
            return applied;
        }
        let ghost log_here = cancel.answers();
        let ghost asked_here = asked;
        let actions = model.plan(t.as_str(), step, jpeg);
        let ghost plan = acts(actions@);
        assert(plan == plans(step));
        let over = run_plan(actions, injector, &mut applied, cancel);
        let ghost more = cancel.answers().skip(log_here.len() as int);
        let ghost done = acts(applied@).skip(before.len() as int);
        proof {
            asked = asked + more;
            assert(cancel.answers() =~= log + asked);
            assert(cancel.answers().skip(log.len() as int) =~= asked);
            handed_over_concat(before, done);
            assert(given + handed_over(before + done) =~= given_before + handed_over(done));
            assert forall|x: Seq<bool>| #[trigger] task_under(plans, 0, max_steps, asked + x) == (
                before + task_under(plans, step, max_steps, seq![stop] + (more + x)).0,
                task_under(plans, step, max_steps, seq![stop] + (more + x)).1,
            ) by {
                assert(asked + x =~= asked_here + (more + x));
            }
        }
        if over {
            proof {
                assert forall|x: Seq<bool>| #[trigger] task_under(plans, 0, max_steps, asked + x)
                    == (acts(applied@), x) by {
                    assert((seq![stop] + (more + x)).drop_first() =~= more + x);
                    assert(plan_under(plan, more + x) == (done, x, over));
                }
            }
            return applied;
        }
        proof {
            assert forall|x: Seq<bool>| #[trigger] task_under(plans, 0, max_steps, asked + x) == (
                acts(applied@) + task_under(plans, (step + 1) as u32, max_steps, x).0,
                task_under(plans, (step + 1) as u32, max_steps, x).1,
            ) by {
                assert((seq![stop] + (more + x)).drop_first() =~= more + x);
                assert(plan_under(plan, more + x) == (done, x, over));
                let t = task_under(plans, (step + 1) as u32, max_steps, x).0;
                assert(before + (done + t) =~= before + done + t);
            }
        }
        step += 1;
    }
    proof {
        assert(cancel.answers().skip(log.len() as int) =~= asked);
        assert forall|x: Seq<bool>| #[trigger] task_under(plans, 0, max_steps, asked + x) == (
            acts(applied@),
            x,
        ) by {
            assert(acts(applied@) + Seq::<Act>::empty() =~= acts(applied@));
        }
    }
    applied
}

/// Works on a task as [`run_task_while`] does, with a flag that may be raised
/// at any time. When it is raised is not known beforehand: whatever the flag
/// says each time that it is read, the actions are those of these answers.
pub fn run_task<M: ActionModel, I: Injector>(
    task: &str,
    model: &M,
    injector: &mut I,
    jpeg: &[u8],
    max_steps: u32,
    cancel: &std::sync::atomic::AtomicBool,
) -> (applied: Vec<Action>)
    ensures
        final(injector).given() == old(injector).given() + handed_over(acts(applied@)),
        if trimmed(task@).len() == 0 {
            acts(applied@).len() == 0
        } else {
            exists|asked: Seq<bool>| #[trigger]
                task_under(planned(*model, trimmed(task@), jpeg@), 0, max_steps, asked) == (
                    acts(applied@),
                    Seq::<bool>::empty(),
                )
        },
{
    let mut flag = SharedFlag::new(cancel);
    let applied = run_task_while(task, model, injector, jpeg, max_steps, &mut flag);
    proof {
        let asked = flag.answers().skip(0);
        let none = Seq::<bool>::empty();
        assert(asked + none =~= asked);
        if trimmed(task@).len() > 0 {
            assert(task_under(
                planned(*model, trimmed(task@), jpeg@),
                0,
                max_steps,
                asked + none,
            ) == (acts(applied@), none));
        }
    }
    applied
}

proof fn plan_when_not_stopped(plan: Seq<Act>, asked: Seq<bool>)
    requires
        forall|i: int| 0 <= i < asked.len() ==> !#[trigger] asked[i],
        plan_under(plan, asked).1.len() > 0,
    ensures
        plan_under(plan, asked).0 == until_done(plan),
        plan_under(plan, asked).2 == ends_task(plan),
        forall|i: int|
            0 <= i < plan_under(plan, asked).1.len() ==> !#[trigger] plan_under(plan, asked).1[i],
    decreases plan.len(),
{
    if plan.len() > 0 && asked.len() > 0 {
        let rest = asked.drop_first();
        assert(!asked[0]);
        assert forall|i: int| 0 <= i < rest.len() implies !#[trigger] rest[i] by {
            assert(!asked[i + 1]);
        }
        if !(plan[0] is Done) {
            plan_when_not_stopped(plan.drop_first(), rest);
        }
    }
}

proof fn task_when_not_stopped(
    plans: spec_fn(u32) -> Seq<Act>,
    step: u32,
    max: u32,
    asked: Seq<bool>,
)
    requires
        forall|i: int| 0 <= i < asked.len() ==> !#[trigger] asked[i],
        task_under(plans, step, max, asked).1.len() > 0,
    ensures
        task_under(plans, step, max, asked).0 == task_acts(plans, step, max),
    decreases max - step,
{
    if step < max && asked.len() > 0 {
        assert(!asked[0]);
        let rest = asked.drop_first();
        assert forall|i: int| 0 <= i < rest.len() implies !#[trigger] rest[i] by {
            assert(!asked[i + 1]);
        }
        let plan = plans(step);
        let r = plan_under(plan, rest);
        if !r.2 {
            answers_shrink(plans, (step + 1) as u32, max, r.1);
        }
        plan_when_not_stopped(plan, rest);
        until_done_whole(plan);
        if !r.2 {
            task_when_not_stopped(plans, (step + 1) as u32, max, r.1);
        }
    }
}

proof fn answers_shrink(plans: spec_fn(u32) -> Seq<Act>, step: u32, max: u32, asked: Seq<bool>)
    ensures
        task_under(plans, step, max, asked).1.len() <= asked.len(),
    decreases max - step,
{
    if step < max && asked.len() > 0 && !asked[0] {
        let r = plan_under(plans(step), asked.drop_first());
        plan_answers_shrink(plans(step), asked.drop_first());
        if !r.2 {
            answers_shrink(plans, (step + 1) as u32, max, r.1);
        }
    }
}

proof fn plan_answers_shrink(plan: Seq<Act>, asked: Seq<bool>)
    ensures
        plan_under(plan, asked).1.len() <= asked.len(),
    decreases plan.len(),
{
    if plan.len() > 0 && asked.len() > 0 && !asked[0] && !(plan[0] is Done) {
        plan_answers_shrink(plan.drop_first(), asked.drop_first());
    }
}

/// A task that nobody stops does all that is planned: where no answer was to
/// stop, and the answers were all that it asked for.
pub proof fn unstopped_task_does_all(
    plans: spec_fn(u32) -> Seq<Act>,
    max: u32,
    asked: Seq<bool>,
    done: Seq<Act>,
)
    requires
        forall|i: int| 0 <= i < asked.len() ==> !#[trigger] asked[i],
        forall|x: Seq<bool>| #[trigger] task_under(plans, 0, max, asked + x) == (done, x),
    ensures
        done == task_acts(plans, 0, max),
{
    let more = asked + seq![false];
    assert(task_under(plans, 0, max, more) == (done, seq![false]));
    assert forall|i: int| 0 <= i < more.len() implies !#[trigger] more[i] by {
        if i < asked.len() {
            assert(!asked[i]);
        }
    }
    task_when_not_stopped(plans, 0, max, more);
}

proof fn plan_prefix(plan: Seq<Act>, asked: Seq<bool>)
    ensures
        plan_under(plan, asked).0.is_prefix_of(until_done(plan)),
        !plan_under(plan, asked).2 ==> plan_under(plan, asked).0 == plan && !ends_task(plan),
    decreases plan.len(),
{
    if plan.len() > 0 && asked.len() > 0 && !asked[0] && !(plan[0] is Done) {
        plan_prefix(plan.drop_first(), asked.drop_first());
        assert(plan =~= seq![plan[0]] + plan.drop_first());
    }
    if plan.len() == 0 {
        assert(plan =~= Seq::<Act>::empty());
    }
}

/// A task that is stopped has done the first of the actions that it would have
/// done otherwise, and none besides.
pub proof fn stopped_task_does_the_first(
    plans: spec_fn(u32) -> Seq<Act>,
    step: u32,
    max: u32,
    asked: Seq<bool>,
)
    ensures
        task_under(plans, step, max, asked).0.is_prefix_of(task_acts(plans, step, max)),
    decreases max - step,
{
    if step < max && asked.len() > 0 && !asked[0] {
        let plan = plans(step);
        let r = plan_under(plan, asked.drop_first());
        plan_prefix(plan, asked.drop_first());
        until_done_whole(plan);
        if !r.2 {
            stopped_task_does_the_first(plans, (step + 1) as u32, max, r.1);
            let a = task_under(plans, (step + 1) as u32, max, r.1).0;
            let b = task_acts(plans, (step + 1) as u32, max);
            assert(plan + a =~= (plan + b).subrange(0, (plan + a).len() as int));
        } else if !ends_task(plan) {
            let b = task_acts(plans, (step + 1) as u32, max);
            assert(r.0 =~= (plan + b).subrange(0, r.0.len() as int));
        }
    }
}

/// What a task that waits in between has come to.
#[verifier::ext_equal]
pub ghost struct RunState {
    pub task: Seq<char>,
    pub step: int,
    pub max: int,
    /// What is left of the plan of this step.
    pub queue: Seq<Act>,
    pub applied: Seq<Act>,
    pub over: bool,
}

/// A task that is worked on bit by bit: a picture is taken, a plan asked for,
/// and its actions are done one by one, with pauses.
pub struct TaskRun {
    task: String,
    step: u32,
    max: u32,
    queue: Vec<Action>,
    applied: Vec<Action>,
    over: bool,
}

impl View for TaskRun {
    type V = RunState;

    closed spec fn view(&self) -> RunState {
        RunState {
            task: self.task@,
            step: self.step as int,
            max: self.max as int,
            queue: acts(self.queue@),
            applied: acts(self.applied@),
            over: self.over,
        }
    }
}

/// What is to be done next.
#[derive(Debug)]
pub enum Todo {
    /// Take a picture, and ask for the plan of this step.
    Plan { step: u32 },
    /// Hand an action to the injector, then pause.
    Inject { action: Action, pause_ms: u64 },
    /// Pause, unless the task is cancelled meanwhile.
    Pause { ms: u64 },
    Finished,
}

#[verifier::ext_equal]
pub ghost enum Next {
    Plan { step: u32 },
    Inject { action: Act, pause_ms: u64 },
    Pause { ms: u64 },
    Finished,
}

impl View for Todo {
    type V = Next;

    open spec fn view(&self) -> Next {
        match self {
            Todo::Plan { step } => Next::Plan { step: *step },
            Todo::Inject { action, pause_ms } => Next::Inject {
                action: action@,
                pause_ms: *pause_ms,
            },
            Todo::Pause { ms } => Next::Pause { ms: *ms },
            Todo::Finished => Next::Finished,
        }
    }
}

impl RunState {
    /// What is to be done next: the next action of the plan, or the next plan.
    pub open spec fn next(self, cancel: bool) -> Next {
        if self.over || cancel {
            Next::Finished
        } else if self.queue.len() == 0 {
            if self.step < self.max {
                Next::Plan { step: self.step as u32 }
            } else {
                Next::Finished
            }
        } else {
            match self.queue[0] {
                Act::Done => Next::Finished,
                Act::Wait { ms } => Next::Pause { ms },
                Act::Display { .. } => Next::Inject {
                    action: self.queue[0],
                    pause_ms: DISPLAY_PAUSE_MS,
                },
                a => Next::Inject { action: a, pause_ms: 0 },
            }
        }
    }

    pub open spec fn moved(self, cancel: bool) -> RunState {
        if self.over || cancel {
            RunState { over: true, ..self }
        } else if self.queue.len() == 0 {
            if self.step < self.max {
                RunState { step: self.step + 1, ..self }
            } else {
                RunState { over: true, ..self }
            }
        } else {
            RunState {
                queue: self.queue.drop_first(),
                applied: self.applied.push(self.queue[0]),
                over: self.queue[0] is Done,
                ..self
            }
        }
    }

    pub open spec fn with_plan(self, plan: Seq<Act>) -> RunState {
        RunState { queue: plan, ..self }
    }
}

impl TaskRun {
    /// A blank task is over before it begins.
    pub fn new(task: &str, max_steps: u32) -> (r: Self)
        ensures
            r@ == (RunState {
                task: trimmed(task@),
                step: 0,
                max: max_steps as int,
                queue: Seq::empty(),
                applied: Seq::empty(),
                over: trimmed(task@).len() == 0,
            }),
    {
        let t = trim(task);
        let over = chars_of(t.as_str()).len() == 0;
        let r = TaskRun {
            task: t,
            step: 0,
            max: max_steps,
            queue: Vec::new(),
            applied: Vec::new(),
            over,
        };
        assert(r@.queue =~= Seq::<Act>::empty());
        assert(r@.applied =~= Seq::<Act>::empty());
        r
    }

    pub fn task(&self) -> (s: &str)
        ensures
            s@ == self@.task,
    {
        self.task.as_str()
    }

    /// The actions that were done so far.
    pub fn applied(&self) -> (v: &Vec<Action>)
        ensures
            acts(v@) == self@.applied,
    {
        &self.applied
    }

    pub fn next(&mut self, cancel: bool) -> (t: Todo)
        ensures
            t@ == old(self)@.next(cancel),
            final(self)@ == old(self)@.moved(cancel),
    {
        let ghost st = self@;
        if self.over || cancel {
            self.over = true;
            return Todo::Finished;
        }
        if self.queue.len() == 0 {
            if self.step < self.max {
                let step: u32 = self.step;
                self.step = self.step + 1;
                return Todo::Plan { step };
            }
            self.over = true;
            return Todo::Finished;
        }
        let a = self.queue.remove(0);
        proof {
            assert(st.queue[0] == a@);
            assert(self@.queue =~= st.queue.drop_first());
        }
        let todo = match &a {
            Action::Done => {
                self.over = true;
                Todo::Finished
            },
            Action::Wait { ms } => Todo::Pause { ms: *ms },
            Action::Display { .. } => Todo::Inject { action: a.copy(), pause_ms: DISPLAY_PAUSE_MS },
            _ => Todo::Inject { action: a.copy(), pause_ms: 0 },
        };
        self.applied.push(a);
        assert(self@.applied =~= st.applied.push(a@));
        todo
    }

    /// The plan of this step has come.
    pub fn plan(&mut self, actions: Vec<Action>)
        ensures
            final(self)@ == old(self)@.with_plan(acts(actions@)),
    {
        self.queue = actions;
        assert(self@ =~= old(self)@.with_plan(acts(actions@)));
    }
}

/// A run that goes on for `fuel` moves with nobody cancelling it, when `plans`
/// gives the plan of each step.
pub open spec fn run_on(r: RunState, plans: spec_fn(u32) -> Seq<Act>, fuel: nat) -> RunState
    decreases fuel,
{
    if fuel == 0 || r.over {
        r
    } else {
        let next = match r.next(false) {
            Next::Plan { step } => r.moved(false).with_plan(plans(step)),
            _ => r.moved(false),
        };
        run_on(next, plans, (fuel - 1) as nat)
    }
}

/// What a run has still to do.
pub open spec fn still_to_do(r: RunState, plans: spec_fn(u32) -> Seq<Act>) -> Seq<Act> {
    if r.over {
        Seq::empty()
    } else if ends_task(r.queue) {
        until_done(r.queue)
    } else {
        r.queue + task_acts(plans, r.step as u32, r.max as u32)
    }
}

/// A task that is worked on bit by bit does what one that is worked on at a
/// stretch does: what was done and what is still to do never changes, and when
/// the run is over nothing is left to do.
pub proof fn run_does_the_task(r: RunState, plans: spec_fn(u32) -> Seq<Act>, fuel: nat)
    requires
        0 <= r.step <= r.max <= u32::MAX,
    ensures
        ({
            let e = run_on(r, plans, fuel);
            &&& e.applied + still_to_do(e, plans) == r.applied + still_to_do(r, plans)
            &&& e.over ==> e.applied == r.applied + still_to_do(r, plans)
        }),
    decreases fuel,
{
    if fuel == 0 || r.over {
        if r.over {
            assert(r.applied + Seq::<Act>::empty() =~= r.applied);
        }
    } else {
        let next = match r.next(false) {
            Next::Plan { step } => r.moved(false).with_plan(plans(step)),
            _ => r.moved(false),
        };
        run_does_the_task(next, plans, (fuel - 1) as nat);
        if r.queue.len() == 0 {
            assert(!ends_task(r.queue));
            if r.step < r.max {
                let t = task_acts(plans, r.step as u32, r.max as u32);
                assert(still_to_do(r, plans) =~= t);
                assert(still_to_do(next, plans) =~= t);
            } else {
                assert(still_to_do(r, plans) =~= Seq::<Act>::empty());
            }
        } else {
            let q = r.queue;
            let d = q.drop_first();
            assert(q =~= seq![q[0]] + d);
            if q[0] is Done {
                assert(next.applied + still_to_do(next, plans) =~= r.applied + still_to_do(
                    r,
                    plans,
                ));
            } else {
                assert(ends_task(q) == ends_task(d));
                assert(next.applied + still_to_do(next, plans) =~= r.applied + still_to_do(
                    r,
                    plans,
                ));
            }
        }
        let e = run_on(r, plans, fuel);
        if e.over {
            assert(e.applied + Seq::<Act>::empty() =~= e.applied);
        }
    }
}

/// A run that is cancelled does nothing more, whatever was planned and however
/// often it is asked.
pub proof fn cancel_stops_the_run(r: RunState, plan: Seq<Act>, again: bool)
    ensures
        r.next(true) is Finished,
        r.moved(true).applied == r.applied,
        r.moved(true).with_plan(plan).next(again) is Finished,
        r.moved(true).with_plan(plan).moved(again).applied == r.applied,
        r.moved(true).with_plan(plan).moved(again).over,
{
}

/// The picture to show a model: the last snapshot, else the latest unit.
pub open spec fn best_picture(h: HubState) -> Picture {
    let snap = match h.snap {
        Some(m) => picture_of(None, m),
        None => Picture::Unfit,
    };
    if snap is Unfit {
        match h.latest {
            Some(m) => picture_of(h.init, m),
            None => Picture::Unfit,
        }
    } else {
        snap
    }
}

/// Prefer TYPE_SNAP JPEG; otherwise encode the latest fragment via ffmpeg.
pub fn grab_jpeg(hub: &Hub) -> (s: Snapshot)
    ensures
        s@ == best_picture(hub@),
{
    match hub.last_snap() {
        Some(snap) => {
            match encode_snapshot(None, &snap) {
                Snapshot::Unfit => {},
                s => {
                    return s;
                },
            }
        },
        None => {},
    }
    match hub.latest() {
        Some(lat) => match hub.init_segment() {
            Some(init) => encode_snapshot(Some(buffer_slice(&init)), &lat),
            None => encode_snapshot(None, &lat),
        },
        None => Snapshot::Unfit,
    }
}

/// Every prompt tells the model its task and the number of the step.
pub proof fn prompt_tells_the_task(task: Seq<char>, step: u32)
    ensures
        has_part(prompt(task, step), task),
        has_part(prompt(task, step), "Task: "@ + task + "\nStep: "@),
        has_part(prompt(task, step), "\nStep: "@ + decimal(step as nat) + "\n"@),
        begins(prompt(task, step), "You operate a computer from a screenshot"@),
        has_part(prompt(task, step), "Respond ONLY with JSON: {\"actions\":["@),
{
    reveal_strlit("Task: ");
    reveal_strlit("You operate a computer from a screenshot");
    reveal_strlit(
        "You operate a computer from a screenshot like a human at the keyboard and mouse. Task: ",
    );
    reveal_strlit("\n");
    let s = prompt(task, step);
    let d = decimal(step as nat);
    let mark = "\nStep: "@;
    let tail = PROMPT_TAIL@;
    let head = PROMPT_HEAD@;
    prompt_tail_begins();
    assert(s =~= head + task + (mark + d + tail));
    part_between(head, task, mark + d + tail);
    let h = head.take(head.len() - 6);
    assert(head =~= h + "Task: "@);
    assert(s =~= h + ("Task: "@ + task + mark) + (d + tail));
    part_between(h, "Task: "@ + task + mark, d + tail);
    assert(s =~= (head + task) + (mark + d + "\n"@) + tail.skip(1));
    part_between(head + task, mark + d + "\n"@, tail.skip(1));
    let none = Seq::<char>::empty();
    part_stays(head + task + mark + d, tail, none, "Respond ONLY with JSON: {\"actions\":["@);
    assert(head + task + mark + d + tail + none =~= s);
    assert(s.take("You operate a computer from a screenshot"@.len() as int)
        =~= "You operate a computer from a screenshot"@);
}

proof fn prompt_tail_begins()
    ensures
        PROMPT_TAIL@.len() > 0,
        PROMPT_TAIL@[0] == '\n',
        has_part(PROMPT_TAIL@, "Respond ONLY with JSON: {\"actions\":["@),
{
    reveal_strlit(
        "\nCoordinates are normalized 0–1 relative to the image.\nUse right-click, drag (down/move/up), modifier keys, paste, clipboard images, inbox files, and switch displays when a person would.\nIf the task lists [displays]=JSON, pick another screen with action display and that id, then wait.\nRespond ONLY with JSON: {\"actions\":[{\"action\":\"click\",\"x\":0.5,\"y\":0.5},{\"action\":\"click\",\"x\":0.5,\"y\":0.5,\"button\":\"right\"},{\"action\":\"dblclick\",\"x\":0.5,\"y\":0.5},{\"action\":\"down\",\"x\":0.2,\"y\":0.2},{\"action\":\"move\",\"x\":0.8,\"y\":0.8},{\"action\":\"up\",\"x\":0.8,\"y\":0.8},{\"action\":\"type\",\"text\":\"hi\"},{\"action\":\"key\",\"key\":\"Enter\"},{\"action\":\"key\",\"key\":\"c\",\"modifiers\":[\"Meta\"]},{\"action\":\"paste\",\"text\":\"clipboard text\"},{\"action\":\"clipboard\",\"mime\":\"image/png\",\"data\":\"base64-png\"},{\"action\":\"file\",\"name\":\"notes.txt\",\"text\":\"file body\"},{\"action\":\"display\",\"id\":\"2:\"},{\"action\":\"scroll\",\"x\":0.5,\"y\":0.5,\"dy\":-1},{\"action\":\"wait\",\"ms\":200},{\"action\":\"done\"}]}.",
    );
    reveal_strlit("Respond ONLY with JSON: {\"actions\":[");
    let t = PROMPT_TAIL@;
    let ask = "Respond ONLY with JSON: {\"actions\":["@;
    part_at(t, ask, 286);
}

/// Prompts for different tasks differ, and so do those for different steps.
pub proof fn prompts_are_told_apart(a: Seq<char>, i: u32, b: Seq<char>, j: u32)
    requires
        prompt(a, i) == prompt(b, j),
    ensures
        a == b,
        i == j,
{
    let head = PROMPT_HEAD@;
    let tail = PROMPT_TAIL@;
    let mark = "\nStep: "@;
    let d = decimal(i as nat);
    let e = decimal(j as nat);
    reveal_strlit("\nStep: ");
    crate::text::decimal_reads_back(i as nat);
    crate::text::decimal_reads_back(j as nat);
    let s = head + a + mark + d;
    let t = head + b + mark + e;
    assert(prompt(a, i).take(s.len() as int) =~= s);
    assert(prompt(b, j).take(t.len() as int) =~= t);
    assert(prompt(a, i).len() == s.len() + tail.len());
    assert(s == t);
    assert(s[s.len() - d.len() - 1] == ' ');
    assert(t[t.len() - e.len() - 1] == ' ');
    if d.len() < e.len() {
        assert(t[s.len() - d.len() - 1] == e[e.len() - d.len() - 1]);
    } else if e.len() < d.len() {
        assert(s[t.len() - e.len() - 1] == d[d.len() - e.len() - 1]);
    }
    assert(s.skip(s.len() - d.len()) =~= d);
    assert(t.skip(t.len() - e.len()) =~= e);
    assert(s.subrange(head.len() as int, (head.len() + a.len()) as int) =~= a);
    assert(t.subrange(head.len() as int, (head.len() + b.len()) as int) =~= b);
}

/// A request holds the prompt for its task and step, the name of the model, and
/// the whole picture as a data URL.
pub proof fn request_holds_prompt_and_picture(
    model: Seq<char>,
    task: Seq<char>,
    step: u32,
    jpeg: Seq<u8>,
)
    ensures
        ({
            let body = vision_body(model, task, step, jpeg);
            let url = quoted("data:image/jpeg;base64,"@ + base64_of(jpeg));
            &&& has_part(body, shown("text"@, quoted(prompt(task, step))))
            &&& has_part(body, shown("image_url"@, object_text(seq![("url"@, url)])))
            &&& has_part(body, shown("url"@, url))
            &&& has_part(body, shown("type"@, quoted("text"@)))
            &&& has_part(body, shown("type"@, quoted("image_url"@)))
            &&& has_part(body, shown("role"@, quoted("user"@)))
            &&& has_part(body, shown("model"@, quoted(model)))
            &&& has_part(body, shown("max_tokens"@, "1024"@))
            &&& has_part(body, shown("temperature"@, "0.2"@))
        }),
{
    let url = quoted("data:image/jpeg;base64,"@ + base64_of(jpeg));
    let link = seq![("url"@, url)];
    let words = seq![("text"@, quoted(prompt(task, step))), ("type"@, quoted("text"@))];
    let picture = seq![("image_url"@, object_text(link)), ("type"@, quoted("image_url"@))];
    let parts = seq![object_text(words), object_text(picture)];
    let message = seq![("content"@, array_text(parts)), ("role"@, quoted("user"@))];
    let messages = seq![object_text(message)];
    let all = seq![
        ("max_tokens"@, "1024"@),
        ("messages"@, array_text(messages)),
        ("model"@, quoted(model)),
        ("temperature"@, "0.2"@),
    ];
    let body = vision_body(model, task, step, jpeg);
    assert(body == object_text(all));
    object_shows(all, 0);
    object_shows(all, 1);
    object_shows(all, 2);
    object_shows(all, 3);
    items_stand_in_brackets(messages, Seq::empty());
    assert(has_part(array_text(messages), messages[0]));
    part_of_part(body, array_text(messages), object_text(message));
    object_shows(message, 0);
    object_shows(message, 1);
    part_of_part(body, object_text(message), shown("role"@, quoted("user"@)));
    part_of_part(body, object_text(message), array_text(parts));
    items_stand_in_brackets(parts, Seq::empty());
    assert(has_part(array_text(parts), parts[0]));
    assert(has_part(array_text(parts), parts[1]));
    part_of_part(body, array_text(parts), object_text(words));
    part_of_part(body, array_text(parts), object_text(picture));
    object_shows(words, 0);
    object_shows(words, 1);
    object_shows(picture, 0);
    object_shows(picture, 1);
    object_shows(link, 0);
    part_of_part(body, object_text(words), shown(words[0].0, words[0].1));
    part_of_part(body, object_text(words), shown(words[1].0, words[1].1));
    part_of_part(body, object_text(picture), shown(picture[0].0, picture[0].1));
    part_of_part(body, object_text(picture), shown(picture[1].0, picture[1].1));
    part_of_part(body, object_text(picture), object_text(link));
    part_of_part(body, object_text(link), shown(link[0].0, link[0].1));
}

/// The answer is the content of the first choice's message, whatever else the
/// reply holds; a reply without one answers with nothing.
pub proof fn answer_is_the_first_choice(
    v: Tree,
    choices: Seq<Tree>,
    message: Tree,
    content: Seq<char>,
)
    requires
        v.get("choices"@) == Some(Tree::Arr(choices)),
        choices.len() > 0,
        choices[0].get("message"@) == Some(message),
        message.get("content"@) == Some(Tree::Str(content)),
    ensures
        answer_of(v) == content,
{
}

/// No more actions than the model listed come out of its answer, in the order
/// of its list, and each is the action that its item asks for.
pub proof fn listed_actions_come_in_order(items: Seq<Tree>, more: Tree)
    ensures
        control_act(more) matches Some(a) ==> item_acts(items.push(more)) == item_acts(items).push(a),
        control_act(more) is None ==> item_acts(items.push(more)) == item_acts(items),
        item_acts(Seq::empty()) == Seq::<Act>::empty(),
{
    assert(items.push(more).drop_last() =~= items);
}

/// Every item that asks for an action gives it, where no item is without one.
pub proof fn every_listed_action_is_done(v: Tree, items: Seq<Tree>)
    requires
        v.get("actions"@) == Some(Tree::Arr(items)),
        items.len() > 0,
        forall|i: int| 0 <= i < items.len() ==> control_act(#[trigger] items[i]) is Some,
    ensures
        model_acts(v).len() == items.len(),
        forall|i: int|
            0 <= i < items.len() ==> control_act(#[trigger] items[i]) == Some(model_acts(v)[i]),
{
    every_item_gives_its_action(items);
}

proof fn every_item_gives_its_action(items: Seq<Tree>)
    requires
        forall|i: int| 0 <= i < items.len() ==> control_act(#[trigger] items[i]) is Some,
    ensures
        item_acts(items).len() == items.len(),
        forall|i: int|
            0 <= i < items.len() ==> control_act(#[trigger] items[i]) == Some(item_acts(items)[i]),
    decreases items.len(),
{
    if items.len() > 0 {
        let d = items.drop_last();
        assert forall|i: int| 0 <= i < d.len() implies control_act(#[trigger] d[i]) is Some by {
            assert(d[i] == items[i]);
        }
        every_item_gives_its_action(d);
        assert forall|i: int| 0 <= i < items.len() implies control_act(#[trigger] items[i]) == Some(
            item_acts(items)[i],
        ) by {
            if i < d.len() {
                assert(d[i] == items[i]);
            }
        }
    }
}

/// A model that asks for nothing is done, and so is one that never answered or
/// whose answer holds no object.
pub proof fn silence_is_done(v: Tree)
    ensures
        reply_acts(None) == seq![Act::Done],
        first_object(answer_of(v)) is None ==> reply_acts(Some(v)) == seq![Act::Done],
        reply_acts(Some(v)).len() > 0,
{
    if first_object(answer_of(v)) is None {
        assert(model_acts(Tree::Null) =~= Seq::<Act>::empty());
    }
}

/// A flat object, one without braces or quotes inside, is found whole behind
/// words that hold no brace.
pub proof fn flat_object_is_found(words: Seq<char>, inside: Seq<char>, rest: Seq<char>)
    requires
        forall|i: int| 0 <= i < words.len() ==> #[trigger] words[i] != '{',
        forall|i: int|
            0 <= i < inside.len() ==> #[trigger] inside[i] != '{' && inside[i] != '}' && inside[i]
                != '"',
        ({
            let s = words + seq!['{'] + inside + seq!['}'] + rest;
            unfenced(s) == s
        }),
    ensures
        first_object(words + seq!['{'] + inside + seq!['}'] + rest) == Some(
            seq!['{'] + inside + seq!['}'],
        ),
{
    let s = words + seq!['{'] + inside + seq!['}'] + rest;
    let start = words.len() as int;
    let end = start + 1 + inside.len();
    assert(s[start] == '{' && s[end] == '}');
    assert forall|i: int| 0 <= i < start implies s[i] != '{' by {
        assert(s[i] == words[i]);
    }
    crate::text::char_at_found(s, '{', 0);
    let at = char_at(s, '{', 0);
    assert(at == Some(start)) by {
        char_is_first(s, '{', start);
    }
    flat_end(s, start + 1, end);
    assert(object_end(s, start, 0, false, false) == object_end(s, start + 1, 1, false, false));
    assert(s.subrange(start, end + 1) =~= seq!['{'] + inside + seq!['}']);
}

proof fn flat_end(s: Seq<char>, i: int, end: int)
    requires
        0 <= i <= end < s.len(),
        s[end] == '}',
        forall|k: int|
            i <= k < end ==> #[trigger] s[k] != '{' && s[k] != '}' && s[k] != '"',
    ensures
        object_end(s, i, 1, false, false) == Some(end),
    decreases end - i,
{
    if i < end {
        flat_end(s, i + 1, end);
    }
}

/// A fence around an answer is taken off, with the word behind its first mark.
pub proof fn fence_is_taken_off(word: Seq<char>, inside: Seq<char>)
    requires
        forall|i: int| 0 <= i < word.len() ==> #[trigger] word[i] != '\n',
        inside.len() > 0,
        inside == trimmed(inside),
    ensures
        unfenced("```"@ + word + seq!['\n'] + inside + "\n```"@) == inside,
{
    reveal_strlit("```");
    reveal_strlit("\n```");
    let s = "```"@ + word + seq!['\n'] + inside + "\n```"@;
    crate::text::ascii_white_space('`');
    crate::text::ascii_white_space('\n');
    assert(s[0] == '`' && s.last() == '`');
    assert(trimmed(s) == s);
    assert(s.take(3) =~= "```"@);
    let at = 3 + word.len() as int;
    assert forall|i: int| 0 <= i < at implies #[trigger] s[i] != '\n' by {
        if i >= 3 {
            assert(s[i] == word[i - 3]);
        }
    }
    assert(s[at] == '\n');
    char_is_first(s, '\n', at);
    let t = s.skip(at + 1);
    assert(t =~= inside + "\n```"@);
    assert(t.skip(t.len() - 3) =~= "```"@);
    let body = t.take(t.len() - 3);
    assert(body =~= inside + seq!['\n']);
    let none = Seq::<char>::empty();
    crate::text::trimmed_of_padded(none, inside, seq!['\n']);
    assert(none + inside + seq!['\n'] =~= body);
}

/// A task ends with the first action that is done: what stands before it is
/// done in order, and nothing after it.
pub proof fn done_ends_the_plan(before: Seq<Act>, after: Seq<Act>)
    requires
        forall|i: int| 0 <= i < before.len() ==> !(#[trigger] before[i] is Done),
    ensures
        until_done(before + seq![Act::Done] + after) == before.push(Act::Done),
        until_done(before) == before,
        ends_task(before + seq![Act::Done] + after),
        !ends_task(before),
    decreases before.len(),
{
    let s = before + seq![Act::Done] + after;
    if before.len() > 0 {
        let d = before.drop_first();
        assert forall|i: int| 0 <= i < d.len() implies !(#[trigger] d[i] is Done) by {
            assert(d[i] == before[i + 1]);
        }
        done_ends_the_plan(d, after);
        assert(s.drop_first() =~= d + seq![Act::Done] + after);
        assert(until_done(s) =~= before.push(Act::Done));
        assert(until_done(before) =~= before);
    } else {
        assert(s[0] is Done);
        assert(until_done(s) =~= before.push(Act::Done));
    }
}

/// The injector is handed each action but waits and the end, in order.
pub proof fn waits_are_not_handed_over(v: Seq<Act>, a: Act)
    ensures
        handed_over(v.push(a)) == if a is Wait || a is Done {
            handed_over(v)
        } else {
            handed_over(v).push(a)
        },
        handed_over(Seq::empty()) == Seq::<Act>::empty(),
{
    handed_over_push(v, a);
}

/// A model is shown the last snapshot where there is one, and otherwise the
/// latest picture, or the latest fragment to be decoded.
pub proof fn the_best_picture_is_shown(h: HubState, m: crate::hub::MediaFacts)
    ensures
        h.snap matches Some(s) ==> (s.kind == 4 && crate::thumbs::looks_jpeg(s.data) ==> best_picture(
            h,
        ) == Picture::Ready(s.data)),
        h.snap is None && h.latest is None ==> best_picture(h) is Unfit,
        h.snap is None && h.latest == Some(m) && m.kind == 3 && crate::thumbs::looks_jpeg(m.data)
            ==> best_picture(h) == Picture::Ready(m.data),
        h.snap is None && h.latest == Some(m) && m.kind == 2 && h.init is Some ==> best_picture(h)
            == Picture::Decode(h.init->Some_0 + m.data),
{
}

/// The stub clicks once where it was told, then types its text, and is done from
/// the third step on; the model that is done does nothing else.
pub proof fn stubs_do_as_told(m: StubClickTypeModel, task: Seq<char>, step: u32, jpeg: Seq<u8>)
    ensures
        m.plans(task, 0, jpeg) == seq![
            Act::Click { x: m.x.bits, y: m.y.bits, button: MouseButton::Left, clicks: 1 },
        ],
        m.plans(task, 1, jpeg) == seq![Act::Type { text: m.text@ }],
        step >= 2 ==> m.plans(task, step, jpeg) == seq![Act::Done],
        (DoneModel).plans(task, step, jpeg) == seq![Act::Done],
{
}

/// A task has at most twenty steps, and a display has four tenths of a second to
/// change.
pub proof fn limits_of_tasks()
    ensures
        MAX_STEPS == 20,
        DISPLAY_PAUSE_MS == 400,
{
}

} // verus!
