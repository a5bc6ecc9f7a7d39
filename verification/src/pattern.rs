//! Regular expressions.

use crate::text::opt_text;
use vstd::prelude::*;

verus! {

/// All matches of a regular expression in a text, one after the other, each
/// with its groups; the whole match comes first.
pub uninterp spec fn all_matches(pattern: Seq<char>, text: Seq<char>) -> Seq<
    Seq<Option<Seq<char>>>,
>;

pub open spec fn groups(v: Seq<Option<String>>) -> Seq<Option<Seq<char>>> {
    Seq::new(v.len(), |i: int| opt_text(v[i]))
}

pub open spec fn all_groups(v: Seq<Vec<Option<String>>>) -> Seq<Seq<Option<Seq<char>>>> {
    Seq::new(v.len(), |i: int| groups(v[i]@))
}

/// `regex::Regex::captures_iter`: the successive matches that do not overlap,
/// each with the text of its groups. What a pattern matches is left to the
/// name; a pattern that is none matches nothing.
#[verifier::external_body]
pub(crate) fn matches_of(pattern: &str, text: &str) -> (r: Vec<Vec<Option<String>>>)
    ensures
        all_groups(r@) == all_matches(pattern@, text@),
{
    match regex::Regex::new(pattern) {
        Ok(re) => re.captures_iter(text).map(
            |c| c.iter().map(|g| g.map(|m| m.as_str().to_string())).collect(),
        ).collect(),
        Err(_) => Vec::new(),
    }
}

/// One group of a match.
pub open spec fn group(m: Seq<Option<Seq<char>>>, i: int) -> Option<Seq<char>> {
    if 0 <= i < m.len() {
        m[i]
    } else {
        None
    }
}

pub fn group_text(m: &Vec<Option<String>>, i: usize) -> (r: Option<String>)
    ensures
        opt_text(r) == group(groups(m@), i as int),
{
    if i < m.len() {
        match &m[i] {
            Some(s) => Some(s.clone()),
            None => None,
        }
    } else {
        None
    }
}

/// A group is found by its place; there is none past the last.
pub proof fn groups_are_found_by_place(m: Seq<Option<Seq<char>>>, i: int)
    ensures
        0 <= i < m.len() ==> group(m, i) == m[i],
        i >= m.len() || i < 0 ==> group(m, i) is None,
{
}

} // verus!
