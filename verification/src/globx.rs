//! The one outside capability the ignore engine needs: glob-style matching.
//! The matcher is reached through a single trusted wrapper; everything said
//! about it beyond the two named results below is limited to pattern shapes
//! whose behaviour the glob crate fixes exactly.

use vstd::prelude::*;

verus! {

/// Whether `glob::Pattern::new` accepts the pattern.
pub uninterp spec fn glob_accepts(pattern: Seq<char>) -> bool;

/// What `glob::Pattern::matches` answers for a compiled pattern and a text.
pub uninterp spec fn glob_matches(pattern: Seq<char>, text: Seq<char>) -> bool;

/// A pattern with none of the matcher's special characters.
pub open spec fn is_glob_literal(p: Seq<char>) -> bool {
    forall|i: int| 0 <= i < p.len() ==> p[i] != '*' && p[i] != '?' && p[i] != '[' && p[i] != ']'
}

/// A single leading `*` followed by ordinary characters only.
pub open spec fn is_star_then_literal(p: Seq<char>) -> bool {
    p.len() >= 1 && p[0] == '*' && is_glob_literal(p.skip(1))
}

pub open spec fn is_suffix_of(suffix: Seq<char>, s: Seq<char>) -> bool {
    suffix.len() <= s.len() && s.skip(s.len() - suffix.len()) == suffix
}

/// Whether the pattern compiles, pinned down for the two shapes whose
/// acceptance the glob crate guarantees.
pub open spec fn glob_ok(p: Seq<char>) -> bool {
    if is_glob_literal(p) || is_star_then_literal(p) {
        true
    } else {
        glob_accepts(p)
    }
}

/// The match verdict, pinned down for the two shapes whose behaviour the
/// glob crate fixes: a literal pattern matches exactly itself, and a leading
/// `*` before a literal tail matches exactly the texts ending in that tail.
pub open spec fn glob_match(p: Seq<char>, t: Seq<char>) -> bool {
    if is_glob_literal(p) {
        t == p
    } else if is_star_then_literal(p) {
        is_suffix_of(p.skip(1), t)
    } else {
        glob_matches(p, t)
    }
}

/// Relies on glob::Pattern::new and glob::Pattern::matches (glob 0.3), with
/// the crate's default match options: case sensitive, no literal-separator or
/// literal-leading-dot requirement.  A pattern that compiles yields Some of
/// the match verdict; one that does not compile yields None.  Both results
/// depend on the pattern and text characters alone.  A pattern free of
/// `*`, `?`, `[` and `]` compiles to a sequence of single-character tokens and
/// therefore matches exactly itself; a pattern of `*` followed by such
/// characters compiles to a wildcard token plus that literal tail, and since
/// the wildcard matches any character sequence (separators included under the
/// default options), it matches exactly the texts that end with the tail.
#[verifier::external_body]
pub fn try_glob_match(pattern: &Vec<char>, text: &Vec<char>) -> (r: Option<bool>)
    ensures
        (r is Some) == glob_ok(pattern@),
        r is Some ==> r == Some(glob_match(pattern@, text@)),
        !(is_glob_literal(pattern@) || is_star_then_literal(pattern@)) ==> (r is Some)
            == glob_accepts(pattern@),
        !(is_glob_literal(pattern@) || is_star_then_literal(pattern@)) && r is Some ==> r == Some(
            glob_matches(pattern@, text@),
        ),
{
    let p: String = pattern.iter().collect();
    let t: String = text.iter().collect();
    match glob::Pattern::new(&p) {
        Ok(g) => Some(g.matches(&t)),
        Err(_) => None,
    }
}

} // verus!
