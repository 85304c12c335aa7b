//! Inserting a middle name between a component and its version number
//! (`kg2` becomes `kg-sophon2` with the middle name `-sophon`).

use vstd::prelude::*;

verus! {

/// The pattern that splits a pod name into a component (group 1) and the
/// run of digits at its end (group 2).
pub const MIDDLE_NAME_PATTERN: &'static str = "(.*?)(\\d*)$";

/// What `regex::Regex::captures` finds when the regex compiled from
/// `pattern` searches `text`: `None` when the pattern does not compile or
/// does not match, else the text of each capture group by index (group 0 is
/// the whole match), `None` for a group that took no part in the match.
pub uninterp spec fn regex_captures_of(pattern: Seq<char>, text: Seq<char>) -> Option<
    Seq<Option<Seq<char>>>,
>;

/// The text of each capture group, by their views.
pub open spec fn group_texts(groups: Seq<Option<String>>) -> Seq<Option<Seq<char>>> {
    groups.map_values(
        |g: Option<String>|
            match g {
                Some(s) => Some(s@),
                None => None,
            },
    )
}

/// The capture groups handed back by [`regex_captures`], by their views.
pub open spec fn groups_view(groups: Option<Vec<Option<String>>>) -> Option<
    Seq<Option<Seq<char>>>,
> {
    match groups {
        Some(v) => Some(group_texts(v@)),
        None => None,
    }
}

/// The groups, read back as texts, are the middle-name pattern's component
/// and version, and together they make up `text`.
pub open spec fn splits_into_component_and_version(groups: Option<Vec<Option<String>>>, text: Seq<char>) -> bool {
    groups matches Some(g) && g@.len() == 3 && g@[1] is Some && g@[2] is Some && g@[1]->0@ + g@[2]->0@
        == text
}

/// The character is one of the ASCII digits `0` to `9`.
pub open spec fn is_ascii_digit(c: char) -> bool {
    '0' <= c && c <= '9'
}

/// Every character of the text is ASCII.
pub open spec fn is_ascii_text(s: Seq<char>) -> bool {
    forall|i: int| 0 <= i < s.len() ==> s[i] <= '\u{7f}'
}

/// How many ASCII digits the text ends with.
pub open spec fn trailing_digits(s: Seq<char>) -> nat
    decreases s.len(),
{
    if s.len() > 0 && is_ascii_digit(s.last()) {
        1 + trailing_digits(s.drop_last())
    } else {
        0
    }
}

/// Where the run of digits at the end of the text begins.
pub open spec fn version_start(s: Seq<char>) -> int {
    s.len() - trailing_digits(s)
}

/// The digits at the end of a text are no more than its characters.
pub proof fn lemma_trailing_digits_bound(s: Seq<char>)
    ensures
        trailing_digits(s) <= s.len(),
    decreases s.len(),
{
    if s.len() > 0 {
        lemma_trailing_digits_bound(s.drop_last());
    }
}

/// The groups, read back as texts, are the text before its run of
/// trailing digits and that run.
pub open spec fn splits_at_trailing_digits(groups: Option<Vec<Option<String>>>, text: Seq<char>) -> bool {
    groups matches Some(g) && g@.len() == 3 && g@[1] is Some && g@[2] is Some && g@[1]->0@
        == text.take(version_start(text)) && g@[2]->0@ == text.skip(version_start(text))
}

/// Compiles `pattern` with `regex::Regex::new` and searches `text` with
/// `regex::Regex::captures`, handing back the text of each group
/// (`regex::Captures::iter`, `regex::Match::as_str`). The contract claims
/// that the result is [`regex_captures_of`] of the two arguments (the same
/// pattern and text give the same groups), and one fact of the regex syntax
/// for the middle-name pattern `(.*?)(\d*)$` on a text without a newline:
/// `.` matches every character but `\n`, both groups can match the empty
/// text and `$` matches only at the end of the text, so the leftmost match
/// starts at the beginning and ends at the end, and its two groups (it has
/// two, plus group 0) take part and make up the whole text. On an ASCII
/// text, where `\d` matches exactly `0` to `9`, the match that the regex's
/// leftmost-first semantics prefers gives the lazy group 1 as few characters
/// as it can, so group 2 is the longest run of digits that ends the text.
/// What the groups are beyond that (where the Unicode `\d` run starts in a
/// non-ASCII text, the matches on texts with a newline) is left to the name.
#[verifier::external_body]
fn regex_captures(pattern: &str, text: &str) -> (res: Option<Vec<Option<String>>>)
    ensures
        groups_view(res) == regex_captures_of(pattern@, text@),
        pattern@ == MIDDLE_NAME_PATTERN@ && !text@.contains('\n') ==> splits_into_component_and_version(
            res,
            text@,
        ),
        pattern@ == MIDDLE_NAME_PATTERN@ && !text@.contains('\n') && is_ascii_text(text@)
            ==> splits_at_trailing_digits(res, text@),
{
    let re = regex::Regex::new(pattern).ok()?;
    let caps = re.captures(text)?;
    Some(caps.iter().map(|m| m.map(|m| m.as_str().to_string())).collect())
}

/// The groups hold a component (group 1) and a version (group 2).
pub open spec fn has_component_and_version(groups: Seq<Option<Seq<char>>>) -> bool {
    groups.len() > 2 && groups[1] is Some && groups[2] is Some
}

/// The component, then the middle name, then the version.
pub open spec fn with_middle(groups: Seq<Option<Seq<char>>>, middle_name: Seq<char>) -> Seq<
    char,
> {
    groups[1]->0 + middle_name + groups[2]->0
}

/// Puts `middle_name` between the component (group 1) and the version
/// (group 2) that the middle-name pattern captured.
pub fn fill_in_middle_name(groups: &Vec<Option<String>>, middle_name: &str) -> (res: String)
    requires
        has_component_and_version(group_texts(groups@)),
    ensures
        res@ == with_middle(group_texts(groups@), middle_name@),
{
    let ghost g = group_texts(groups@);
    assert(g[1] == match groups@[1] { Some(s) => Some(s@), None => None::<Seq<char>> });
    assert(g[2] == match groups@[2] { Some(s) => Some(s@), None => None::<Seq<char>> });
    match (&groups[1], &groups[2]) {
        (Some(component), Some(version)) => {
            String::from_str(component.as_str()).concat(middle_name).concat(version.as_str())
        },
        _ => {
            assert(false);
            String::new()
        },
    }
}

/// The pod name with the middle name filled in: when the middle-name
/// pattern captures a component and a version, they with the middle name
/// between them, else the pod name as it is.
pub open spec fn filled_middle_name(pod_name: Seq<char>, middle_name: Seq<char>) -> Seq<char> {
    match regex_captures_of(MIDDLE_NAME_PATTERN@, pod_name) {
        Some(groups) => if has_component_and_version(groups) {
            with_middle(groups, middle_name)
        } else {
            pod_name
        },
        None => pod_name,
    }
}

/// Inserts `middle_name` between the component of `pod_name` and the
/// version number at its end.
/// On a name without a newline, the middle name goes in at one place of the
/// name: before the run of digits at its end (for an ASCII name, exactly
/// before its trailing `0`-`9` run: `kg2` becomes `kg-sophon2`); so an
/// empty middle name leaves such a name as it is.
pub fn filled_with_middle_name(pod_name: &str, middle_name: &str) -> (res: String)
    ensures
        res@ == filled_middle_name(pod_name@, middle_name@),
        !pod_name@.contains('\n') ==> exists|k: int|
            0 <= k <= pod_name@.len() && res@ == pod_name@.take(k) + middle_name@ + pod_name@.skip(k),
        !pod_name@.contains('\n') && middle_name@.len() == 0 ==> res@ == pod_name@,
        !pod_name@.contains('\n') && is_ascii_text(pod_name@) ==> res@ == pod_name@.take(
            version_start(pod_name@),
        ) + middle_name@ + pod_name@.skip(version_start(pod_name@)),
{
    let captured = regex_captures(MIDDLE_NAME_PATTERN, pod_name);
    proof {
        lemma_trailing_digits_bound(pod_name@);
        if !pod_name@.contains('\n') {
            let g = captured->0@;
            let c = g[1]->0@;
            let v = g[2]->0@;
            assert(c + v == pod_name@);
            let k = c.len() as int;
            assert(pod_name@.take(k) == c);
            assert(pod_name@.skip(k) == v);
            assert(group_texts(g)[1] == Some(c));
            assert(group_texts(g)[2] == Some(v));
            assert(has_component_and_version(group_texts(g)));
            assert(filled_middle_name(pod_name@, middle_name@) == pod_name@.take(k) + middle_name@
                + pod_name@.skip(k));
            if middle_name@.len() == 0 {
                assert(pod_name@.take(k) + middle_name@ + pod_name@.skip(k) == pod_name@);
            }
        }
    }
    match captured {
        Some(groups) => {
            if groups.len() > 2 && groups[1].is_some() && groups[2].is_some() {
                assert(has_component_and_version(group_texts(groups@)));
                fill_in_middle_name(&groups, middle_name)
            } else {
                assert(!has_component_and_version(group_texts(groups@)));
                String::from_str(pod_name)
            }
        },
        None => String::from_str(pod_name),
    }
}

} // verus!
