//! Release notes out of the bundled changelog.
use vstd::prelude::*;

use crate::text;
use crate::text::{joined, lines, texts, trimmed};

verus! {

/// The heading that opens the notes of a version: `## [v1.2.3]`.
pub open spec fn version_heading(version: Seq<char>) -> Seq<char> {
    "## [v"@ + version + "]"@
}

/// The number of leading lines that do not begin with `prefix`.
pub open spec fn lines_without(ls: Seq<Seq<char>>, prefix: Seq<char>) -> int
    decreases ls.len(),
{
    if ls.len() == 0 || prefix.is_prefix_of(ls.first()) {
        0
    } else {
        1 + lines_without(ls.drop_first(), prefix)
    }
}

/// The lines under the first heading of `version`, up to the next `## ` heading;
/// none where no line opens the version's notes.
pub open spec fn section_lines(md: Seq<char>, version: Seq<char>) -> Option<Seq<Seq<char>>> {
    let ls = lines(md);
    let start = lines_without(ls, version_heading(version));
    if start == ls.len() {
        None
    } else {
        let below = ls.skip(start + 1);
        Some(below.take(lines_without(below, "## "@)))
    }
}

/// The notes of `version`: the lines of its section without the blank space around
/// them; none where nothing is left.
pub open spec fn section(md: Seq<char>, version: Seq<char>) -> Option<Seq<char>> {
    match section_lines(md, version) {
        Some(body) => {
            let t = trimmed(joined(body, '\n'));
            if t.len() > 0 {
                Some(t)
            } else {
                None
            }
        },
        None => None,
    }
}

/// The first line of `ls[from..]` that begins with `prefix`, or the end.
fn find_heading(ls: &Vec<String>, from: usize, prefix: &str) -> (r: usize)
    requires
        from <= ls@.len(),
    ensures
        from <= r <= ls@.len(),
        r == from + lines_without(texts(ls@).skip(from as int), prefix@),
{
    let ghost model = texts(ls@);
    let mut i: usize = from;
    while i < ls.len()
        invariant
            from <= i <= ls@.len(),
            model == texts(ls@),
            lines_without(model.skip(from as int), prefix@) == i - from + lines_without(
                model.skip(i as int),
                prefix@,
            ),
        decreases ls@.len() - i,
    {
        assert(model.skip(i as int).first() == ls@[i as int]@);
        if text::starts_with(ls[i].as_str(), prefix) {
            return i;
        }
        assert(model.skip(i as int).drop_first() =~= model.skip(i + 1));
        i = i + 1;
    }
    i
}

/// The notes of `version` in the changelog `md`: everything under its heading up to
/// the next `## ` heading.
pub fn changelog_section(md: &str, version: &str) -> (r: Option<String>)
    ensures
        match r {
            Some(s) => section(md@, version@) == Some(s@),
            None => section(md@, version@) is None,
        },
{
    let heading = text::concat(text::concat("## [v", version).as_str(), "]");
    let ls = text::to_lines(md);
    let ghost model = lines(md@);
    assert(model.skip(0) =~= model);
    let start: usize = find_heading(&ls, 0, heading.as_str());
    if start == ls.len() {
        return None;
    }
    let end: usize = find_heading(&ls, start + 1, "## ");
    let ghost below = model.skip(start + 1);
    assert(model.subrange(start + 1, end as int) =~= below.take(lines_without(below, "## "@)));
    let body = text::trim(text::join(&ls, start + 1, end, '\n').as_str());
    if body.as_str().is_empty() {
        None
    } else {
        Some(body)
    }
}

/// What the release notes say of `version`: its section of the changelog, or a
/// pointer to the releases page.
pub fn whats_new(md: &str, version: &str) -> (r: String)
    ensures
        r@ == match section(md@, version@) {
            Some(s) => s,
            None => "Release notes are on the GitHub releases page."@,
        },
{
    match changelog_section(md, version) {
        Some(s) => s,
        None => "Release notes are on the GitHub releases page.".to_owned(),
    }
}

} // verus!
