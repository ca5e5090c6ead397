//! Reading the Csound version out of what `csound --version` prints.

use vstd::prelude::*;

verus! {

/// The leftmost-first match of the regular expression `pattern` in
/// `haystack`, as the `regex` crate finds it; `None` when there is no match
/// or the pattern does not compile.
pub uninterp spec fn regex_leftmost_match(pattern: Seq<char>, haystack: Seq<char>) -> Option<Seq<char>>;

/// `m` occurs in `s`.
pub open spec fn is_substring(m: Seq<char>, s: Seq<char>) -> bool {
    exists|i: int| 0 <= i && i + m.len() <= s.len() && #[trigger] s.subrange(i, i + m.len()) == m
}

/// The text of the leftmost-first match of `pattern` in `haystack`, with
/// `regex::Regex::new` and `Regex::find`. The contract claims that the
/// result is a function of the two texts (named above) and, as the crate
/// documents, that a match is a piece of the haystack.
#[verifier::external_body]
fn regex_find(pattern: &str, haystack: &str) -> (r: Option<String>)
    ensures
        match r {
            Some(m) => regex_leftmost_match(pattern@, haystack@) == Some(m@) && is_substring(
                m@,
                haystack@,
            ),
            None => regex_leftmost_match(pattern@, haystack@) is None,
        },
{
    regex::Regex::new(pattern).ok().and_then(|re| re.find(haystack).map(|m| m.as_str().to_string()))
}

/// The version pattern: digits, a dot, digits, and optionally a dot and digits.
pub open spec fn version_pattern() -> Seq<char> {
    "\\d+\\.\\d+(\\.\\d+)?"@
}

/// The first version number (`major.minor` or `major.minor.patch`) in what
/// Csound printed on its standard output, then its standard error.
pub fn csound_version_from_output(stdout: &str, stderr: &str) -> (r: Option<String>)
    ensures
        match r {
            Some(v) => regex_leftmost_match(version_pattern(), stdout@ + stderr@) == Some(v@),
            None => regex_leftmost_match(version_pattern(), stdout@ + stderr@) is None,
        },
{
    let mut text = stdout.to_owned();
    text.append(stderr);
    regex_find("\\d+\\.\\d+(\\.\\d+)?", text.as_str())
}

} // verus!
