//! Pattern matching through the `regex` crate.
//!
//! Every match of a pattern in a text is listed once, by `captures_iter`; a
//! match carries its character span and its capture groups (group 0 being the
//! whole match). The first match is the one `captures` finds.
use vstd::prelude::*;

verus! {

/// One match: character offsets of its span and its capture groups.
pub struct RegexMatch {
    pub start: usize,
    pub end: usize,
    pub groups: Vec<Option<String>>,
}

impl View for RegexMatch {
    type V = (int, int, Seq<Option<Seq<char>>>);

    open spec fn view(&self) -> (int, int, Seq<Option<Seq<char>>>) {
        (self.start as int, self.end as int, self.groups.deep_view())
    }
}

/// The successive non-overlapping matches of `pattern` in `text`; empty when
/// the pattern does not compile.
pub uninterp spec fn regex_matches(pattern: Seq<char>, text: Seq<char>) -> Seq<(int, int, Seq<Option<Seq<char>>>)>;

/// What `regex` promises of the matches it lists: each span lies in the text,
/// in order without overlap, and group 0 is the spanned text.
pub open spec fn well_placed(ms: Seq<(int, int, Seq<Option<Seq<char>>>)>, text: Seq<char>) -> bool {
    &&& forall|i: int|
        0 <= i < ms.len() ==> 0 <= (#[trigger] ms[i]).0 <= ms[i].1 <= text.len() && ms[i].2.len()
            >= 1 && ms[i].2[0] == Some(text.subrange(ms[i].0, ms[i].1))
    &&& forall|i: int, j: int| 0 <= i < j < ms.len() ==> (#[trigger] ms[i]).1 <= (#[trigger] ms[j]).0
}

/// `Regex::new(pattern)` then `captures_iter(text)`, with byte offsets turned
/// into character offsets.
#[verifier::external_body]
pub(crate) fn regex_all(pattern: &str, text: &str) -> (r: Vec<RegexMatch>)
    ensures
        r@.map_values(|m: RegexMatch| m@) == regex_matches(pattern@, text@),
        well_placed(r@.map_values(|m: RegexMatch| m@), text@),
{
    let Ok(re) = regex::Regex::new(pattern) else { return Vec::new() };
    re.captures_iter(text)
        .map(|c| {
            let m = c.get(0).unwrap();
            RegexMatch {
                start: text[..m.start()].chars().count(),
                end: text[..m.end()].chars().count(),
                groups: c.iter().map(|g| g.map(|x| x.as_str().to_owned())).collect(),
            }
        })
        .collect()
}

/// The groups of the first match, if there is one.
pub open spec fn first_match(pattern: Seq<char>, text: Seq<char>) -> Option<Seq<Option<Seq<char>>>> {
    let ms = regex_matches(pattern, text);
    if ms.len() > 0 {
        Some(ms[0].2)
    } else {
        None
    }
}

/// Group `g` of the first match: `re.captures(text).and_then(|c| c.get(g))`.
pub open spec fn first_group(pattern: Seq<char>, text: Seq<char>, g: int) -> Option<Seq<char>> {
    match first_match(pattern, text) {
        Some(groups) => if 0 <= g < groups.len() {
            groups[g]
        } else {
            None
        },
        None => None,
    }
}

/// Group `g` of a match's groups.
pub open spec fn group(groups: Seq<Option<Seq<char>>>, g: int) -> Option<Seq<char>> {
    if 0 <= g < groups.len() {
        groups[g]
    } else {
        None
    }
}

/// Group `g` of `m`, owned.
pub fn group_of(m: &RegexMatch, g: usize) -> (r: Option<String>)
    ensures
        r.deep_view() == group(m@.2, g as int),
{
    if g < m.groups.len() {
        m.groups[g].clone()
    } else {
        None
    }
}

/// Group `g` of the first match of `pattern` in `text`.
pub fn capture(pattern: &str, text: &str, g: usize) -> (r: Option<String>)
    ensures
        r.deep_view() == first_group(pattern@, text@, g as int),
{
    let ms = regex_all(pattern, text);
    if ms.len() == 0 {
        return None;
    }
    let ghost views = ms@.map_values(|m: RegexMatch| m@);
    assert(views[0] == ms@[0]@);
    group_of(&ms[0], g)
}

/// Whether `pattern` matches anywhere in `text`.
pub fn is_match(pattern: &str, text: &str) -> (r: bool)
    ensures
        r == (regex_matches(pattern@, text@).len() > 0),
{
    let ms = regex_all(pattern, text);
    ms.len() > 0
}

} // verus!
