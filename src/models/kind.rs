//! The kinds of rows a command can act on.

use vstd::prelude::*;

verus! {

/// What a command acts on.
#[derive(PartialEq, Eq, Structural, Clone, Copy, Debug)]
pub enum Kind {
    Timer,
    Project,
    Tag,
}

pub open spec fn is_timer_word(s: Seq<char>) -> bool {
    s == "t"@ || s == "timer"@ || s == "timers"@
}

pub open spec fn is_project_word(s: Seq<char>) -> bool {
    s == "p"@ || s == "project"@ || s == "projects"@
}

pub open spec fn is_tag_word(s: Seq<char>) -> bool {
    s == "ta"@ || s == "tag"@ || s == "tags"@
}

/// The kind a word names, if any.
pub open spec fn kind_of(s: Seq<char>) -> Option<Kind> {
    if is_timer_word(s) {
        Some(Kind::Timer)
    } else if is_project_word(s) {
        Some(Kind::Project)
    } else if is_tag_word(s) {
        Some(Kind::Tag)
    } else {
        None
    }
}

fn is_one_of(s: &String, a: &str, b: &str, c: &str) -> (r: bool)
    ensures
        r == (s@ == a@ || s@ == b@ || s@ == c@),
{
    *s == a.to_string() || *s == b.to_string() || *s == c.to_string()
}

/// Reads a kind as the command line writes it: `t`, `timer`, `timers`;
/// `p`, `project`, `projects`; `ta`, `tag`, `tags`.
pub fn parse_kind(s: &str) -> (r: Option<Kind>)
    ensures
        r == kind_of(s@),
{
    let s = s.to_string();
    if is_one_of(&s, "t", "timer", "timers") {
        Some(Kind::Timer)
    } else if is_one_of(&s, "p", "project", "projects") {
        Some(Kind::Project)
    } else if is_one_of(&s, "ta", "tag", "tags") {
        Some(Kind::Tag)
    } else {
        None
    }
}

} // verus!
