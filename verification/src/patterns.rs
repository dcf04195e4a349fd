//! Regular expressions, matched by the `regex` crate.

use crate::text;
use vstd::prelude::*;

verus! {

/// The texts of a match's groups, the whole match first; a group that took no
/// part in the match has none.
pub type Groups = Seq<Option<Seq<char>>>;

/// What `regex::Regex::captures` gives for the leftmost match of the regular
/// expression `pattern` in `haystack`: the texts of the groups, in the order of
/// their opening parentheses. There is none where nothing matches, nor where
/// `pattern` does not compile.
pub uninterp spec fn regex_captures(pattern: Seq<char>, haystack: Seq<char>) -> Option<
    Seq<Option<Seq<char>>>,
>;

/// What `regex::Regex::captures_iter` gives for the successive matches of the
/// regular expression `pattern` in `haystack`: for each match, from left to
/// right, the texts of its groups. There are none where `pattern` does not
/// compile.
pub uninterp spec fn regex_captures_iter(pattern: Seq<char>, haystack: Seq<char>) -> Seq<
    Seq<Option<Seq<char>>>,
>;

/// The groups that `g` holds.
pub open spec fn groups_of(g: Seq<Option<String>>) -> Groups {
    g.map_values(|o: Option<String>| text::opt_text(o))
}

/// The groups that `g` holds, if any.
pub open spec fn opt_groups(g: Option<Vec<Option<String>>>) -> Option<Groups> {
    match g {
        Some(v) => Some(groups_of(v@)),
        None => None,
    }
}

/// The groups of each match that `m` holds.
pub open spec fn matches_of(m: Seq<Vec<Option<String>>>) -> Seq<Groups> {
    m.map_values(|v: Vec<Option<String>>| groups_of(v@))
}

/// The text of group `i`, empty where that group took no part in the match.
pub open spec fn group_text(g: Groups, i: int) -> Seq<char> {
    if 0 <= i < g.len() {
        text::or_empty(g[i])
    } else {
        Seq::empty()
    }
}

/// `Regex::new` on `pattern`, then `Regex::captures` on `haystack`. The groups
/// of the leftmost match are what `regex_captures` names; nothing is claimed of
/// which texts a pattern matches.
#[verifier::external_body]
pub(crate) fn captures(pattern: &str, haystack: &str) -> (r: Option<Vec<Option<String>>>)
    ensures
        opt_groups(r) == regex_captures(pattern@, haystack@),
{
    let re = regex::Regex::new(pattern).ok()?;
    let caps = re.captures(haystack)?;
    Some(caps.iter().map(|m| m.map(|m| m.as_str().to_string())).collect())
}

/// `Regex::new` on `pattern`, then `Regex::captures_iter` on `haystack`. The
/// groups of the matches are what `regex_captures_iter` names; nothing is
/// claimed of which texts a pattern matches.
#[verifier::external_body]
pub(crate) fn captures_iter(pattern: &str, haystack: &str) -> (r: Vec<Vec<Option<String>>>)
    ensures
        matches_of(r@) == regex_captures_iter(pattern@, haystack@),
{
    match regex::Regex::new(pattern) {
        Ok(re) => re.captures_iter(haystack).map(
            |caps| caps.iter().map(|m| m.map(|m| m.as_str().to_string())).collect(),
        ).collect(),
        Err(_) => Vec::new(),
    }
}

/// The text of group `i`, empty where that group took no part in the match.
pub(crate) fn group(g: &Vec<Option<String>>, i: usize) -> (r: String)
    ensures
        r@ == group_text(groups_of(g@), i as int),
{
    if i < g.len() {
        match &g[i] {
            Some(s) => s.clone(),
            None => String::new(),
        }
    } else {
        String::new()
    }
}

} // verus!
