//! JSON values as messages carry them, and JSON text as replies are written.

use crate::float::{float_of_signed, float_of_whole, signed_bits, whole_bits, Real};
use crate::text::{
    append, decimal, decimal_reads_back, decimal_text, digits_value, has_part, part_between,
    part_of_itself, part_of_part, part_stays, same, signed_decimal, signed_text, texts,
};
use serde_json::Value;
use vstd::prelude::*;

verus! {

#[derive(Debug)]
pub enum Amount {
    UInt(u64),
    /// A negative whole number.
    Int(i64),
    /// A double by its bits, with its text in JSON.
    Float { bits: u64, text: String },
}

#[derive(Debug)]
pub enum Json {
    Null,
    Bool(bool),
    Num(Amount),
    Str(String),
    Arr(Vec<Json>),
    Obj(Vec<(String, Json)>),
}

#[verifier::ext_equal]
pub ghost enum Figure {
    UInt(u64),
    Int(i64),
    Float { bits: u64, text: Seq<char> },
}

/// A JSON value. An object is a row of members; the first of a name counts.
#[verifier::ext_equal]
pub ghost enum Tree {
    Null,
    Bool(bool),
    Num(Figure),
    Str(Seq<char>),
    Arr(Seq<Tree>),
    Obj(Seq<(Seq<char>, Tree)>),
}

impl View for Amount {
    type V = Figure;

    open spec fn view(&self) -> Figure {
        match self {
            Amount::UInt(n) => Figure::UInt(*n),
            Amount::Int(n) => Figure::Int(*n),
            Amount::Float { bits, text } => Figure::Float { bits: *bits, text: text@ },
        }
    }
}

impl Json {
    pub open spec fn tree(self) -> Tree
        decreases self,
    {
        match self {
            Json::Null => Tree::Null,
            Json::Bool(b) => Tree::Bool(b),
            Json::Num(n) => Tree::Num(n@),
            Json::Str(s) => Tree::Str(s@),
            Json::Arr(v) => Tree::Arr(
                Seq::new(
                    v@.len(),
                    |i: int|
                        if 0 <= i < v@.len() {
                            v@[i].tree()
                        } else {
                            Tree::Null
                        },
                ),
            ),
            Json::Obj(v) => Tree::Obj(
                Seq::new(
                    v@.len(),
                    |i: int|
                        if 0 <= i < v@.len() {
                            (v@[i].0@, v@[i].1.tree())
                        } else {
                            (Seq::empty(), Tree::Null)
                        },
                ),
            ),
        }
    }
}

/// The value of the first member of that name.
pub open spec fn member(m: Seq<(Seq<char>, Tree)>, k: Seq<char>) -> Option<Tree>
    decreases m.len(),
{
    if m.len() == 0 {
        None
    } else if m[0].0 == k {
        Some(m[0].1)
    } else {
        member(m.drop_first(), k)
    }
}

impl Tree {
    /// The member of an object; nothing else has members.
    pub open spec fn get(self, k: Seq<char>) -> Option<Tree> {
        match self {
            Tree::Obj(m) => member(m, k),
            _ => None,
        }
    }

    pub open spec fn text(self) -> Option<Seq<char>> {
        match self {
            Tree::Str(s) => Some(s),
            _ => None,
        }
    }

    pub open spec fn whole(self) -> Option<u64> {
        match self {
            Tree::Num(Figure::UInt(n)) => Some(n),
            _ => None,
        }
    }

    /// Any number as a double.
    pub open spec fn float(self) -> Option<u64> {
        match self {
            Tree::Num(Figure::UInt(n)) => Some(whole_bits(n as nat) as u64),
            Tree::Num(Figure::Int(n)) => Some(signed_bits(n as int) as u64),
            Tree::Num(Figure::Float { bits, .. }) => Some(bits),
            _ => None,
        }
    }

    pub open spec fn truth(self) -> Option<bool> {
        match self {
            Tree::Bool(b) => Some(b),
            _ => None,
        }
    }

    pub open spec fn items(self) -> Option<Seq<Tree>> {
        match self {
            Tree::Arr(v) => Some(v),
            _ => None,
        }
    }

    /// The text member of that name.
    pub open spec fn text_at(self, k: Seq<char>) -> Option<Seq<char>> {
        match self.get(k) {
            Some(t) => t.text(),
            None => None,
        }
    }

    pub open spec fn whole_at(self, k: Seq<char>) -> Option<u64> {
        match self.get(k) {
            Some(t) => t.whole(),
            None => None,
        }
    }

    pub open spec fn float_at(self, k: Seq<char>) -> Option<u64> {
        match self.get(k) {
            Some(t) => t.float(),
            None => None,
        }
    }

    pub open spec fn truth_at(self, k: Seq<char>) -> Option<bool> {
        match self.get(k) {
            Some(t) => t.truth(),
            None => None,
        }
    }

    pub open spec fn items_at(self, k: Seq<char>) -> Option<Seq<Tree>> {
        match self.get(k) {
            Some(t) => t.items(),
            None => None,
        }
    }
}

pub open spec fn text_or(t: Option<Seq<char>>, d: Seq<char>) -> Seq<char> {
    match t {
        Some(s) => s,
        None => d,
    }
}

pub open spec fn or<T>(t: Option<T>, d: T) -> T {
    match t {
        Some(v) => v,
        None => d,
    }
}

impl Json {
    pub fn get(&self, k: &str) -> (r: Option<&Json>)
        ensures
            match r {
                Some(j) => self.tree().get(k@) == Some(j.tree()),
                None => self.tree().get(k@) is None,
            },
    {
        match self {
            Json::Obj(v) => {
                let ghost m = self.tree()->Obj_0;
                let mut i: usize = 0;
                assert(m.skip(0) =~= m);
                while i < v.len()
                    invariant
                        i <= v@.len() == m.len(),
                        self.tree() == Tree::Obj(m),
                        *self == Json::Obj(*v),
                        member(m.skip(i as int), k@) == member(m, k@),
                    decreases v@.len() - i,
                {
                    assert(m[i as int] == (v@[i as int].0@, v@[i as int].1.tree()));
                    assert(m.skip(i as int).drop_first() =~= m.skip(i + 1));
                    if same(v[i].0.as_str(), k) {
                        return Some(&v[i].1);
                    }
                    i += 1;
                }
                None
            },
            _ => None,
        }
    }

    pub fn as_text(&self) -> (r: Option<&str>)
        ensures
            match r {
                Some(s) => self.tree().text() == Some(s@),
                None => self.tree().text() is None,
            },
    {
        match self {
            Json::Str(s) => Some(s.as_str()),
            _ => None,
        }
    }

    pub fn as_whole(&self) -> (r: Option<u64>)
        ensures
            r == self.tree().whole(),
    {
        match self {
            Json::Num(Amount::UInt(n)) => Some(*n),
            _ => None,
        }
    }

    pub fn as_float(&self) -> (r: Option<Real>)
        ensures
            match r {
                Some(x) => self.tree().float() == Some(x.bits),
                None => self.tree().float() is None,
            },
    {
        match self {
            Json::Num(Amount::UInt(n)) => Some(Real { bits: float_of_whole(*n) }),
            Json::Num(Amount::Int(n)) => Some(Real { bits: float_of_signed(*n) }),
            Json::Num(Amount::Float { bits, .. }) => Some(Real { bits: *bits }),
            _ => None,
        }
    }

    pub fn as_truth(&self) -> (r: Option<bool>)
        ensures
            r == self.tree().truth(),
    {
        match self {
            Json::Bool(b) => Some(*b),
            _ => None,
        }
    }

    pub fn as_items(&self) -> (r: Option<&Vec<Json>>)
        ensures
            match r {
                Some(v) => self.tree().items() == Some(trees(v@)),
                None => self.tree().items() is None,
            },
    {
        match self {
            Json::Arr(v) => {
                assert(self.tree()->Arr_0 =~= trees(v@));
                Some(v)
            },
            _ => None,
        }
    }

    pub fn text_at(&self, k: &str) -> (r: Option<&str>)
        ensures
            match r {
                Some(s) => self.tree().text_at(k@) == Some(s@),
                None => self.tree().text_at(k@) is None,
            },
    {
        match self.get(k) {
            Some(j) => j.as_text(),
            None => None,
        }
    }

    /// The text member of that name as an owned text, empty if there is none.
    pub fn text_or_empty(&self, k: &str) -> (r: String)
        ensures
            r@ == text_or(self.tree().text_at(k@), Seq::empty()),
    {
        match self.text_at(k) {
            Some(s) => s.to_owned(),
            None => String::new(),
        }
    }

    pub fn whole_at(&self, k: &str) -> (r: Option<u64>)
        ensures
            r == self.tree().whole_at(k@),
    {
        match self.get(k) {
            Some(j) => j.as_whole(),
            None => None,
        }
    }

    pub fn float_at(&self, k: &str) -> (r: Option<Real>)
        ensures
            match r {
                Some(x) => self.tree().float_at(k@) == Some(x.bits),
                None => self.tree().float_at(k@) is None,
            },
    {
        match self.get(k) {
            Some(j) => j.as_float(),
            None => None,
        }
    }

    pub fn truth_at(&self, k: &str) -> (r: Option<bool>)
        ensures
            r == self.tree().truth_at(k@),
    {
        match self.get(k) {
            Some(j) => j.as_truth(),
            None => None,
        }
    }

    pub fn items_at(&self, k: &str) -> (r: Option<&Vec<Json>>)
        ensures
            match r {
                Some(v) => self.tree().items_at(k@) == Some(trees(v@)),
                None => self.tree().items_at(k@) is None,
            },
    {
        match self.get(k) {
            Some(j) => j.as_items(),
            None => None,
        }
    }
}

pub open spec fn trees(v: Seq<Json>) -> Seq<Tree> {
    Seq::new(v.len(), |i: int| v[i].tree())
}

/// `serde_json::Value`, a JSON value.
#[verifier::external_type_specification]
#[verifier::external_body]
pub struct ExValue(serde_json::Value);

/// What a `serde_json::Value` holds: its members in the order of the map that
/// holds them.
pub uninterp spec fn tree_of(v: serde_json::Value) -> Tree;

/// The JSON value that a text spells, nothing where it spells none.
pub uninterp spec fn parsed(s: Seq<char>) -> Option<Tree>;

/// `serde_json::from_str` into a `serde_json::Value`. Which texts are JSON, and
/// what they spell, is left to the name.
#[verifier::external_body]
fn parse_value(s: &str) -> (r: Option<Value>)
    ensures
        match r {
            Some(v) => parsed(s@) == Some(tree_of(v)),
            None => parsed(s@) is None,
        },
{
    serde_json::from_str::<Value>(s).ok()
}

/// `serde_json::Number`, a number of a JSON value.
#[verifier::external_type_specification]
#[verifier::external_body]
pub struct ExNumber(serde_json::Number);

/// The number that a `serde_json::Number` holds.
pub uninterp spec fn figure_of(n: serde_json::Number) -> Figure;

/// `serde_json::Number`: one that it holds as an integer stays one; any other
/// is a double, with the text that `Number::to_string` gives it. Which is
/// which is left to the name.
#[verifier::external_body]
fn number_of(n: &serde_json::Number) -> (r: Amount)
    ensures
        r@ == figure_of(*n),
{
    match (n.as_u64(), n.as_i64(), n.as_f64()) {
        (Some(u), _, _) => Amount::UInt(u),
        (_, Some(i), _) => Amount::Int(i),
        (_, _, x) => Amount::Float { bits: x.map_or(0, |x| x.to_bits()), text: n.to_string() },
    }
}

/// The outermost part of a JSON value.
enum Shape<'a> {
    Null,
    Bool(bool),
    Num(&'a serde_json::Number),
    Str(&'a String),
    Arr(&'a Vec<Value>),
    Obj(Vec<(&'a String, &'a Value)>),
}

pub open spec fn item_trees(a: Seq<Value>) -> Seq<Tree> {
    Seq::new(a.len(), |i: int| tree_of(a[i]))
}

pub open spec fn member_trees(m: Seq<(&String, &Value)>) -> Seq<(Seq<char>, Tree)> {
    Seq::new(m.len(), |i: int| (m[i].0@, tree_of(*m[i].1)))
}

/// The kinds of `serde_json::Value`, one for one; the members of an object as
/// `serde_json::Map::iter` gives them.
#[verifier::external_body]
fn shape_of(v: &Value) -> (r: Shape<'_>)
    ensures
        tree_of(*v) == match r {
            Shape::Null => Tree::Null,
            Shape::Bool(b) => Tree::Bool(b),
            Shape::Num(n) => Tree::Num(figure_of(*n)),
            Shape::Str(s) => Tree::Str(s@),
            Shape::Arr(a) => Tree::Arr(item_trees(a@)),
            Shape::Obj(m) => Tree::Obj(member_trees(m@)),
        },
{
    match v {
        Value::Null => Shape::Null,
        Value::Bool(b) => Shape::Bool(*b),
        Value::Number(n) => Shape::Num(n),
        Value::String(s) => Shape::Str(s),
        Value::Array(a) => Shape::Arr(a),
        Value::Object(m) => Shape::Obj(m.iter().collect()),
    }
}

fn json_of(v: &Value) -> (r: Json)
    ensures
        r.tree() == tree_of(*v),
    decreases tree_of(*v),
{
    let ghost t = tree_of(*v);
    match shape_of(v) {
        Shape::Null => Json::Null,
        Shape::Bool(b) => Json::Bool(b),
        Shape::Num(n) => Json::Num(number_of(n)),
        Shape::Str(s) => Json::Str(s.clone()),
        Shape::Arr(a) => {
            let mut out: Vec<Json> = Vec::new();
            let mut i: usize = 0;
            while i < a.len()
                invariant
                    i <= a@.len(),
                    t == tree_of(*v),
                    t == Tree::Arr(item_trees(a@)),
                    out@.len() == i,
                    forall|k: int| 0 <= k < i ==> #[trigger] out@[k].tree() == tree_of(a@[k]),
                decreases a@.len() - i,
            {
                assert(decreases_to!(t => t->Arr_0));
                assert(decreases_to!(t->Arr_0 => t->Arr_0[i as int]));
                out.push(json_of(&a[i]));
                i += 1;
            }
            let ghost done = out@;
            let r = Json::Arr(out);
            proof {
                let got = r.tree()->Arr_0;
                assert forall|k: int| 0 <= k < a@.len() implies got[k] == item_trees(a@)[k] by {
                    assert(got[k] == done[k].tree());
                }
                assert(got =~= item_trees(a@));
            }
            r
        },
        Shape::Obj(m) => {
            let mut out: Vec<(String, Json)> = Vec::new();
            let mut i: usize = 0;
            while i < m.len()
                invariant
                    i <= m@.len(),
                    t == tree_of(*v),
                    t == Tree::Obj(member_trees(m@)),
                    out@.len() == i,
                    forall|k: int|
                        0 <= k < i ==> (#[trigger] out@[k]).0@ == m@[k].0@ && out@[k].1.tree()
                            == tree_of(*m@[k].1),
                decreases m@.len() - i,
            {
                assert(decreases_to!(t => t->Obj_0));
                assert(decreases_to!(t->Obj_0 => t->Obj_0[i as int]));
                assert(decreases_to!(t->Obj_0[i as int] => t->Obj_0[i as int].1));
                let name = m[i].0.clone();
                let value = json_of(m[i].1);
                out.push((name, value));
                i += 1;
            }
            let r = Json::Obj(out);
            assert(r.tree()->Obj_0 =~= member_trees(m@));
            r
        },
    }
}

impl Json {
    /// The JSON value that a text spells.
    pub fn parse(s: &str) -> (r: Option<Json>)
        ensures
            match r {
                Some(j) => parsed(s@) == Some(j.tree()),
                None => parsed(s@) is None,
            },
    {
        match parse_value(s) {
            Some(v) => Some(json_of(&v)),
            None => None,
        }
    }
}

/// A text as a JSON string, with its quotes and escapes.
pub uninterp spec fn quoted(s: Seq<char>) -> Seq<char>;

/// `serde_json::to_string` on a text: the JSON string. Which characters are
/// escaped, and how, is left to the name.
#[verifier::external_body]
pub(crate) fn quote(s: &str) -> (r: String)
    ensures
        r@ == quoted(s@),
{
    serde_json::to_string(s).unwrap_or_default()
}

/// One member of an object: its name, which needs no escapes, and the text of
/// its value.
pub open spec fn member_text(name: Seq<char>, value: Seq<char>) -> Seq<char> {
    seq!['"'] + name + seq!['"', ':'] + value
}

pub open spec fn members_text(m: Seq<(Seq<char>, Seq<char>)>) -> Seq<char>
    decreases m.len(),
{
    if m.len() == 0 {
        Seq::empty()
    } else if m.len() == 1 {
        member_text(m[0].0, m[0].1)
    } else {
        members_text(m.drop_last()).push(',') + member_text(m.last().0, m.last().1)
    }
}

/// The text of an object from the texts of its members.
pub open spec fn object_text(m: Seq<(Seq<char>, Seq<char>)>) -> Seq<char> {
    seq!['{'] + members_text(m) + seq!['}']
}

pub open spec fn pairs(v: Seq<(&str, String)>) -> Seq<(Seq<char>, Seq<char>)> {
    Seq::new(v.len(), |i: int| (v[i].0@, v[i].1@))
}

pub fn object(v: &Vec<(&str, String)>) -> (s: String)
    ensures
        s@ == object_text(pairs(v@)),
{
    let mut s = String::new();
    s.push('{');
    let mut i: usize = 0;
    let ghost m = pairs(v@);
    assert(s@ =~= seq!['{'] + members_text(m.take(0)));
    while i < v.len()
        invariant
            i <= v@.len(),
            m == pairs(v@),
            s@ == seq!['{'] + members_text(m.take(i as int)),
        decreases v@.len() - i,
    {
        proof {
            let t = m.take(i + 1);
            assert(t.drop_last() =~= m.take(i as int));
            assert(t.last() == m[i as int]);
            if i == 0 {
                assert(t[0] == m[0]);
            }
        }
        if i > 0 {
            s.push(',');
        }
        s.push('"');
        append(&mut s, v[i].0);
        s.push('"');
        s.push(':');
        append(&mut s, v[i].1.as_str());
        assert(s@ =~= seq!['{'] + members_text(m.take(i + 1)));
        i += 1;
    }
    assert(m.take(m.len() as int) =~= m);
    s.push('}');
    assert(s@ =~= object_text(m));
    s
}

/// Texts with a separator between them.
pub open spec fn joined(v: Seq<Seq<char>>, sep: Seq<char>) -> Seq<char>
    decreases v.len(),
{
    if v.len() == 0 {
        Seq::empty()
    } else if v.len() == 1 {
        v[0]
    } else {
        joined(v.drop_last(), sep) + sep + v.last()
    }
}

pub fn join(v: &Vec<String>, sep: &str) -> (s: String)
    ensures
        s@ == joined(texts(v@), sep@),
{
    let mut s = String::new();
    let mut i: usize = 0;
    let ghost m = texts(v@);
    while i < v.len()
        invariant
            i <= v@.len(),
            m == texts(v@),
            s@ == joined(m.take(i as int), sep@),
        decreases v@.len() - i,
    {
        proof {
            let t = m.take(i + 1);
            assert(t.drop_last() =~= m.take(i as int));
            assert(t.last() == m[i as int]);
        }
        if i > 0 {
            append(&mut s, sep);
        }
        append(&mut s, v[i].as_str());
        assert(s@ =~= joined(m.take(i + 1), sep@));
        i += 1;
    }
    assert(m.take(m.len() as int) =~= m);
    s
}

/// The text of an array from the texts of its items.
pub open spec fn array_text(v: Seq<Seq<char>>) -> Seq<char> {
    seq!['['] + joined(v, seq![',']) + seq![']']
}

pub fn array(v: &Vec<String>) -> (s: String)
    ensures
        s@ == array_text(texts(v@)),
{
    let body = join(v, ",");
    proof {
        reveal_strlit(",");
        assert(","@ =~= seq![',']);
    }
    let mut s = String::new();
    s.push('[');
    append(&mut s, body.as_str());
    s.push(']');
    assert(s@ =~= array_text(texts(v@)));
    s
}

pub open spec fn truth_text(b: bool) -> Seq<char> {
    if b {
        "true"@
    } else {
        "false"@
    }
}

pub fn truth(b: bool) -> (s: String)
    ensures
        s@ == truth_text(b),
{
    if b {
        "true".to_owned()
    } else {
        "false".to_owned()
    }
}

/// The text of a JSON value, without white space.
pub open spec fn printed(t: Tree) -> Seq<char>
    decreases t,
{
    match t {
        Tree::Null => "null"@,
        Tree::Bool(b) => truth_text(b),
        Tree::Num(Figure::UInt(n)) => decimal(n as nat),
        Tree::Num(Figure::Int(n)) => signed_decimal(n as int),
        Tree::Num(Figure::Float { text, .. }) => text,
        Tree::Str(s) => quoted(s),
        Tree::Arr(a) => array_text(prints(a)),
        Tree::Obj(m) => seq!['{'] + joined(member_prints(m), ","@) + seq!['}'],
    }
}

/// The texts of the items of an array.
pub open spec fn prints(a: Seq<Tree>) -> Seq<Seq<char>>
    decreases a,
{
    Seq::new(
        a.len(),
        |i: int|
            if 0 <= i < a.len() {
                printed(a[i])
            } else {
                Seq::empty()
            },
    )
}

/// The texts of the members of an object.
pub open spec fn member_prints(m: Seq<(Seq<char>, Tree)>) -> Seq<Seq<char>>
    decreases m,
{
    Seq::new(
        m.len(),
        |i: int|
            if 0 <= i < m.len() {
                quoted(m[i].0) + ":"@ + printed(m[i].1)
            } else {
                Seq::empty()
            },
    )
}

impl Json {
    /// The text of this value.
    pub fn print(&self) -> (s: String)
        ensures
            s@ == printed(self.tree()),
        decreases self,
    {
        match self {
            Json::Null => "null".to_owned(),
            Json::Bool(b) => truth(*b),
            Json::Num(Amount::UInt(n)) => decimal_text(*n),
            Json::Num(Amount::Int(n)) => signed_text(*n),
            Json::Num(Amount::Float { text, .. }) => text.clone(),
            Json::Str(s) => quote(s.as_str()),
            Json::Arr(v) => {
                let mut parts: Vec<String> = Vec::new();
                let mut i: usize = 0;
                let ghost a = self.tree()->Arr_0;
                while i < v.len()
                    invariant
                        i <= v@.len() == a.len(),
                        *self == Json::Arr(*v),
                        self.tree() == Tree::Arr(a),
                        parts@.len() == i,
                        forall|k: int| 0 <= k < i ==> #[trigger] texts(parts@)[k] == printed(a[k]),
                    decreases v@.len() - i,
                {
                    let ghost before = texts(parts@);
                    assert(decreases_to!(self => self->Arr_0));
                    assert(decreases_to!(v => v@));
                    assert(decreases_to!(v@ => v@[i as int]));
                    assert(a[i as int] == v@[i as int].tree());
                    let part = v[i].print();
                    parts.push(part);
                    assert(texts(parts@) =~= before.push(part@));
                    i += 1;
                }
                let s = array(&parts);
                assert(texts(parts@) =~= prints(a));
                s
            },
            Json::Obj(v) => {
                let mut parts: Vec<String> = Vec::new();
                let mut i: usize = 0;
                let ghost m = self.tree()->Obj_0;
                while i < v.len()
                    invariant
                        i <= v@.len() == m.len(),
                        *self == Json::Obj(*v),
                        self.tree() == Tree::Obj(m),
                        parts@.len() == i,
                        forall|k: int|
                            0 <= k < i ==> #[trigger] texts(parts@)[k] == quoted(m[k].0) + ":"@
                                + printed(m[k].1),
                    decreases v@.len() - i,
                {
                    let ghost before = texts(parts@);
                    assert(decreases_to!(self => self->Obj_0));
                    assert(decreases_to!(v => v@));
                    assert(decreases_to!(v@ => v@[i as int]));
                    assert(decreases_to!(v@[i as int] => v@[i as int].1));
                    assert(m[i as int] == (v@[i as int].0@, v@[i as int].1.tree()));
                    let mut part = quote(v[i].0.as_str());
                    append(&mut part, ":");
                    append(&mut part, v[i].1.print().as_str());
                    parts.push(part);
                    assert(texts(parts@) =~= before.push(part@));
                    i += 1;
                }
                let mut s = String::new();
                s.push('{');
                append(&mut s, join(&parts, ",").as_str());
                s.push('}');
                assert(texts(parts@) =~= member_prints(m));
                assert(s@ =~= printed(self.tree()));
                s
            },
        }
    }
}

/// A member as an object shows it: its name in quotes, a colon, its value.
pub open spec fn shown(name: Seq<char>, value: Seq<char>) -> Seq<char> {
    seq!['"'] + name + seq!['"', ':'] + value
}

/// The text of an object stands in braces and shows its members, a comma
/// between each two.
pub proof fn members_stand_in_braces(m: Seq<(Seq<char>, Seq<char>)>, name: Seq<char>, value: Seq<char>)
    ensures
        object_text(Seq::empty()) == seq!['{', '}'],
        object_text(seq![(name, value)]) == seq!['{'] + shown(name, value) + seq!['}'],
        m.len() > 0 ==> object_text(m.push((name, value))) == object_text(m).drop_last() + seq![',']
            + shown(name, value) + seq!['}'],
{
    assert(object_text(Seq::empty()) =~= seq!['{', '}']);
    let p = m.push((name, value));
    assert(p.drop_last() =~= m);
    if m.len() > 0 {
        assert(object_text(m).drop_last() =~= seq!['{'] + members_text(m));
        assert(object_text(p) =~= object_text(m).drop_last() + seq![','] + shown(name, value)
            + seq!['}']);
    }
}

proof fn members_show(m: Seq<(Seq<char>, Seq<char>)>, i: int)
    requires
        0 <= i < m.len(),
    ensures
        has_part(members_text(m), shown(m[i].0, m[i].1)),
    decreases m.len(),
{
    let none = Seq::<char>::empty();
    let it = shown(m[i].0, m[i].1);
    if m.len() == 1 {
        part_of_itself(it);
    } else if i == m.len() - 1 {
        let a = members_text(m.drop_last()).push(',');
        part_between(a, it, none);
        assert(a + it + none =~= members_text(m));
    } else {
        let d = m.drop_last();
        members_show(d, i);
        assert(d[i] == m[i]);
        let b = seq![','] + member_text(m.last().0, m.last().1);
        part_stays(none, members_text(d), b, it);
        assert(none + members_text(d) + b =~= members_text(m));
    }
}

/// An object shows each of its members.
pub proof fn object_shows(m: Seq<(Seq<char>, Seq<char>)>, i: int)
    requires
        0 <= i < m.len(),
    ensures
        has_part(object_text(m), shown(m[i].0, m[i].1)),
        has_part(object_text(m), m[i].1),
{
    members_show(m, i);
    part_stays(seq!['{'], members_text(m), seq!['}'], shown(m[i].0, m[i].1));
    let front = seq!['"'] + m[i].0 + seq!['"', ':'];
    let none = Seq::<char>::empty();
    part_between(front, m[i].1, none);
    assert(front + m[i].1 + none =~= shown(m[i].0, m[i].1));
    part_of_part(object_text(m), shown(m[i].0, m[i].1), m[i].1);
}

proof fn joined_shows(v: Seq<Seq<char>>, sep: Seq<char>, i: int)
    requires
        0 <= i < v.len(),
    ensures
        has_part(joined(v, sep), v[i]),
    decreases v.len(),
{
    let none = Seq::<char>::empty();
    if v.len() == 1 {
        part_of_itself(v[i]);
    } else if i == v.len() - 1 {
        let a = joined(v.drop_last(), sep) + sep;
        part_between(a, v[i], none);
        assert(a + v[i] + none =~= joined(v, sep));
    } else {
        let d = v.drop_last();
        joined_shows(d, sep, i);
        let b = sep + v.last();
        part_stays(none, joined(d, sep), b, v[i]);
        assert(none + joined(d, sep) + b =~= joined(v, sep));
    }
}

/// An array stands in brackets and shows its items in their order, a comma
/// between each two.
pub proof fn items_stand_in_brackets(v: Seq<Seq<char>>, item: Seq<char>)
    ensures
        array_text(Seq::empty()) == seq!['[', ']'],
        array_text(seq![item]) == seq!['['] + item + seq![']'],
        v.len() > 0 ==> array_text(v.push(item)) == array_text(v).drop_last() + seq![','] + item
            + seq![']'],
        forall|i: int| 0 <= i < v.len() ==> has_part(array_text(v), #[trigger] v[i]),
{
    assert(array_text(Seq::empty()) =~= seq!['[', ']']);
    let p = v.push(item);
    assert(p.drop_last() =~= v);
    if v.len() > 0 {
        assert(array_text(v).drop_last() =~= seq!['['] + joined(v, seq![',']));
        assert(array_text(p) =~= array_text(v).drop_last() + seq![','] + item + seq![']']);
    }
    assert forall|i: int| 0 <= i < v.len() implies has_part(array_text(v), #[trigger] v[i]) by {
        joined_shows(v, seq![','], i);
        part_stays(seq!['['], joined(v, seq![',']), seq![']'], v[i]);
    }
}

/// Truth is spelled out.
pub proof fn truth_is_spelled(b: bool)
    ensures
        b ==> truth_text(b) == seq!['t', 'r', 'u', 'e'],
        !b ==> truth_text(b) == seq!['f', 'a', 'l', 's', 'e'],
{
    reveal_strlit("true");
    reveal_strlit("false");
    assert("true"@ =~= seq!['t', 'r', 'u', 'e']);
    assert("false"@ =~= seq!['f', 'a', 'l', 's', 'e']);
}

/// A value prints as its kind asks: numbers in digits, texts in quotes, arrays
/// in brackets and objects in braces, each member under its name.
pub proof fn values_print_by_kind(t: Tree)
    ensures
        t matches Tree::Null ==> printed(t) == "null"@,
        t matches Tree::Num(Figure::UInt(n)) ==> digits_value(printed(t)) == n,
        t matches Tree::Num(Figure::Int(n)) ==> (n < 0 ==> printed(t)[0] == '-' && digits_value(
            printed(t).drop_first(),
        ) == -n),
        t matches Tree::Num(Figure::Float { text, .. }) ==> printed(t) == text,
        t matches Tree::Str(s) ==> printed(t) == quoted(s),
        t matches Tree::Arr(a) ==> forall|i: int|
            0 <= i < a.len() ==> has_part(printed(t), printed(#[trigger] a[i])),
        t matches Tree::Obj(m) ==> forall|i: int|
            0 <= i < m.len() ==> has_part(
                printed(t),
                quoted((#[trigger] m[i]).0) + seq![':'] + printed(m[i].1),
            ),
{
    match t {
        Tree::Num(Figure::UInt(n)) => {
            decimal_reads_back(n as nat);
        },
        Tree::Num(Figure::Int(n)) => {
            if n < 0 {
                decimal_reads_back((-n) as nat);
                reveal_strlit("-");
                assert(signed_decimal(n as int).drop_first() =~= decimal((-n) as nat));
            }
        },
        Tree::Arr(a) => {
            items_stand_in_brackets(prints(a), Seq::empty());
            assert forall|i: int| 0 <= i < a.len() implies has_part(
                printed(t),
                printed(#[trigger] a[i]),
            ) by {
                assert(prints(a)[i] == printed(a[i]));
            }
        },
        Tree::Obj(m) => {
            reveal_strlit(":");
            assert(":"@ =~= seq![':']);
            assert forall|i: int| 0 <= i < m.len() implies has_part(
                printed(t),
                quoted((#[trigger] m[i]).0) + seq![':'] + printed(m[i].1),
            ) by {
                let v = member_prints(m);
                assert(v[i] == quoted(m[i].0) + ":"@ + printed(m[i].1));
                joined_shows(v, ","@, i);
                part_stays(seq!['{'], joined(v, ","@), seq!['}'], v[i]);
            }
        },
        _ => {},
    }
}

/// A member is found by its name, the first of that name; a value that is no
/// object has none.
pub proof fn first_of_a_name_counts(m: Seq<(Seq<char>, Tree)>, k: Seq<char>, i: int)
    requires
        0 <= i < m.len(),
        m[i].0 == k,
        forall|j: int| 0 <= j < i ==> (#[trigger] m[j]).0 != k,
    ensures
        Tree::Obj(m).get(k) == Some(m[i].1),
    decreases m.len(),
{
    if i > 0 {
        let d = m.drop_first();
        assert(d[i - 1] == m[i]);
        assert forall|j: int| 0 <= j < i - 1 implies (#[trigger] d[j]).0 != k by {
            assert(d[j] == m[j + 1]);
        }
        first_of_a_name_counts(d, k, i - 1);
    }
}

/// A name that no member has is not found.
pub proof fn other_names_are_not_found(m: Seq<(Seq<char>, Tree)>, k: Seq<char>)
    requires
        forall|j: int| 0 <= j < m.len() ==> (#[trigger] m[j]).0 != k,
    ensures
        Tree::Obj(m).get(k) is None,
    decreases m.len(),
{
    if m.len() > 0 {
        let d = m.drop_first();
        assert forall|j: int| 0 <= j < d.len() implies (#[trigger] d[j]).0 != k by {
            assert(d[j] == m[j + 1]);
        }
        other_names_are_not_found(d, k);
    }
}

/// Whether a text shows a member that is true or false as told.
pub open spec fn tells(t: Seq<char>, name: Seq<char>, b: bool) -> bool {
    has_part(
        t,
        shown(
            name,
            if b {
                "true"@
            } else {
                "false"@
            },
        ),
    )
}

} // verus!
