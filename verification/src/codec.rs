//! Codec identifiers without their track-kind markers.
//!
//! A probe prefixes the codec identifier of a video track with `V_` and that
//! of an audio track with `A_`. The markers are found by a regular
//! expression, which the `regex` crate compiles and applies; they are
//! deleted wherever they stand, not only at the front.

use vstd::prelude::*;

verus! {

/// `regex::Regex`, a compiled expression. The library hands it on and never
/// looks inside.
#[verifier::external_type_specification]
#[verifier::external_body]
pub struct ExRegex(regex::Regex);

/// `regex::Error`, the reason why a pattern did not compile. The library
/// never looks inside.
#[verifier::external_type_specification]
#[verifier::external_body]
pub struct ExRegexError(regex::Error);

/// The expression that matches a marker: `V` or `A`, then an underscore.
pub const MARKER_PATTERN: &'static str = "[VA]_";

/// Whether a marker stands at place `at` of a text: a `V` or an `A` there,
/// and an underscore right after it.
pub open spec fn is_marker_at(s: Seq<char>, at: int) -> bool {
    &&& 0 <= at
    &&& at + 1 < s.len()
    &&& (s[at] == 'V' || s[at] == 'A')
    &&& s[at + 1] == '_'
}

/// Whether a text holds a marker anywhere.
pub open spec fn has_marker(s: Seq<char>) -> bool {
    exists|at: int| is_marker_at(s, at)
}

/// Whether the character at place `at` is one of the two characters of a
/// marker.
pub open spec fn in_marker(s: Seq<char>, at: int) -> bool {
    is_marker_at(s, at) || is_marker_at(s, at - 1)
}

/// A text with its markers deleted in one pass from the left: a marker is
/// skipped, any other character is kept.
pub open spec fn deleted_markers(s: Seq<char>) -> Seq<char>
    decreases s.len(),
{
    if s.len() == 0 {
        s
    } else if is_marker_at(s, 0) {
        deleted_markers(s.skip(2))
    } else {
        seq![s[0]] + deleted_markers(s.skip(1))
    }
}

/// The characters from place `from` on that belong to no marker.
pub open spec fn outside_markers(s: Seq<char>, from: int) -> Seq<char>
    decreases s.len() - from,
{
    if from < 0 || from >= s.len() {
        Seq::empty()
    } else if in_marker(s, from) {
        outside_markers(s, from + 1)
    } else {
        seq![s[from]] + outside_markers(s, from + 1)
    }
}

/// The pattern that `regex::Regex::new` compiled an expression from.
pub uninterp spec fn regex_pattern(re: regex::Regex) -> Seq<char>;

/// Calls `regex::Regex::new`. The contract claims that an expression that
/// comes back was compiled from the pattern given, and that the marker
/// expression does compile: `regex` documents `[xyz]` as a class of
/// characters, any other character of the expression as itself and `xy` as
/// one after the other, and it refuses a valid pattern only where the
/// compiled form is larger than ten megabytes. Of every other pattern the
/// contract leaves open whether it compiles.
#[verifier::external_body]
fn compile(pattern: &str) -> (made: Result<regex::Regex, regex::Error>)
    ensures
        pattern@ == MARKER_PATTERN@ ==> made is Ok,
        made matches Ok(re) ==> regex_pattern(re) == pattern@,
{
    regex::Regex::new(pattern)
}

/// Calls `regex::Regex::replace_all` and copies what it returns into a
/// `String`. It is for an expression that `regex::Regex::new` compiled from
/// the marker pattern and for the empty replacement alone. Of these the
/// contract claims that the result is the haystack with its markers deleted
/// in one pass from the left. This rests on what `regex` documents:
/// `replace_all` replaces all the matches that a search from the left finds
/// one after the other, none overlapping another; `[VA]` matches one
/// character, a `V` or an `A`, and `_` matches itself, so a match of the
/// expression is a marker and every marker is a match; and a replacement
/// without `$` is put in as it is.
#[verifier::external_body]
fn replace_markers(re: &regex::Regex, haystack: &str, replacement: &str) -> (text: String)
    requires
        regex_pattern(*re) == MARKER_PATTERN@,
        replacement@.len() == 0,
    ensures
        text@ == deleted_markers(haystack@),
{
    re.replace_all(haystack, replacement).into_owned()
}

/// From a place where no marker is under way, deleting the markers of what
/// follows keeps the characters that belong to no marker.
proof fn lemma_deleted_from(s: Seq<char>, from: int)
    requires
        0 <= from <= s.len(),
        !is_marker_at(s, from - 1),
    ensures
        deleted_markers(s.skip(from)) == outside_markers(s, from),
    decreases s.len() - from,
{
    let rest = s.skip(from);
    if from < s.len() {
        assert(is_marker_at(rest, 0) == is_marker_at(s, from));
        assert(rest[0] == s[from]);
        if is_marker_at(s, from) {
            assert(rest.skip(2) =~= s.skip(from + 2));
            lemma_deleted_from(s, from + 2);
            assert(in_marker(s, from) && in_marker(s, from + 1));
            assert(outside_markers(s, from) == outside_markers(s, from + 1));
            assert(outside_markers(s, from + 1) == outside_markers(s, from + 2));
        } else {
            assert(rest.skip(1) =~= s.skip(from + 1));
            lemma_deleted_from(s, from + 1);
            assert(!in_marker(s, from));
        }
    } else {
        assert(rest =~= Seq::<char>::empty());
    }
}

/// Deleting the markers drops every character of every marker of the text
/// and no other character.
pub proof fn deleting_markers_drops_every_marker(s: Seq<char>)
    ensures
        deleted_markers(s) == outside_markers(s, 0),
{
    assert(s.skip(0) =~= s);
    lemma_deleted_from(s, 0);
}

/// Where no marker stands at or after `from`, every character from there on
/// is outside the markers.
proof fn lemma_outside_without_markers(s: Seq<char>, from: int)
    requires
        0 <= from <= s.len(),
        forall|at: int| from - 1 <= at ==> !is_marker_at(s, at),
    ensures
        outside_markers(s, from) == s.skip(from),
    decreases s.len() - from,
{
    if from < s.len() {
        lemma_outside_without_markers(s, from + 1);
        assert(s.skip(from) =~= seq![s[from]] + s.skip(from + 1));
    } else {
        assert(s.skip(from) =~= Seq::<char>::empty());
    }
}

/// Deleting never makes a text longer, and makes a text with a marker
/// shorter.
proof fn lemma_deleting_shortens(s: Seq<char>)
    ensures
        deleted_markers(s).len() <= s.len(),
        has_marker(s) ==> deleted_markers(s).len() < s.len(),
    decreases s.len(),
{
    if s.len() > 0 {
        if is_marker_at(s, 0) {
            lemma_deleting_shortens(s.skip(2));
        } else {
            let rest = s.skip(1);
            lemma_deleting_shortens(rest);
            if has_marker(s) {
                let at = choose|at: int| is_marker_at(s, at);
                assert(is_marker_at(rest, at - 1));
            }
        }
    }
}

/// A text that holds no marker is left as it is.
pub proof fn text_without_markers_is_kept(s: Seq<char>)
    requires
        !has_marker(s),
    ensures
        deleted_markers(s) == s,
{
    deleting_markers_drops_every_marker(s);
    lemma_outside_without_markers(s, 0);
    assert(s.skip(0) =~= s);
}

/// Deleting the markers a second time changes nothing exactly where the
/// first pass left no marker behind. It can leave one: in `VV__` the pass
/// deletes the inner `V_`, and what is left is `V_`.
pub proof fn deleting_markers_twice(s: Seq<char>)
    ensures
        deleted_markers(deleted_markers(s)) == deleted_markers(s) <==> !has_marker(
            deleted_markers(s),
        ),
{
    let once = deleted_markers(s);
    if has_marker(once) {
        lemma_deleting_shortens(once);
    } else {
        text_without_markers_is_kept(once);
    }
}

/// Removes the `V_` and `A_` markers from a codec identifier, wherever in
/// the text they stand: every character of every marker is dropped and no
/// other. An identifier without markers comes back as it is.
pub fn remove_prefixes(input: &str) -> (stripped: String)
    ensures
        stripped@ == deleted_markers(input@),
        stripped@ == outside_markers(input@, 0),
        !has_marker(input@) ==> stripped@ == input@,
{
    proof {
        deleting_markers_drops_every_marker(input@);
        if !has_marker(input@) {
            text_without_markers_is_kept(input@);
        }
        reveal_strlit("");
    }
    match compile(MARKER_PATTERN) {
        Ok(re) => replace_markers(&re, input, ""),
        // `compile` never refuses the marker expression.
        Err(_) => input.to_owned(),
    }
}

} // verus!
