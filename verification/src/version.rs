//! Numeric `major.minor.patch` versions: parsing and ordering.

use vstd::prelude::*;
use crate::text::{split_chars, split_on, views, chars_of};

verus! {

/// Whether `c` is an ASCII decimal digit.
pub open spec fn is_digit(c: char) -> bool {
    '0' <= c && c <= '9'
}

/// The value of the decimal digit `c`.
pub open spec fn digit_of(c: char) -> nat {
    ((c as int) - ('0' as int)) as nat
}

/// Whether every character of `d` is a decimal digit.
pub open spec fn all_digits(d: Seq<char>) -> bool {
    forall|i: int| 0 <= i < d.len() ==> is_digit(#[trigger] d[i])
}

/// The number written by the decimal digits `d` (most significant first).
pub open spec fn digits_value(d: Seq<char>) -> nat
    decreases d.len(),
{
    if d.len() == 0 {
        0
    } else {
        digits_value(d.drop_last()) * 10 + digit_of(d.last())
    }
}

/// The digits that `u32::from_str` reads: the text after an optional leading `+`.
pub open spec fn unsigned_digits(s: Seq<char>) -> Seq<char> {
    if s.len() > 0 && s[0] == '+' {
        s.drop_first()
    } else {
        s
    }
}

/// What `u32::from_str` gives for `s`: an optional `+`, then at least one
/// decimal digit and nothing else, of a value that fits in a `u32`.
pub open spec fn parse_u32_spec(s: Seq<char>) -> Option<u32> {
    let d = unsigned_digits(s);
    if d.len() > 0 && all_digits(d) && digits_value(d) <= u32::MAX {
        Some(digits_value(d) as u32)
    } else {
        None
    }
}

/// A version of a module or project.
#[derive(Debug, Clone, Copy, PartialEq, Eq, Structural)]
pub struct Version {
    pub major: u32,
    pub minor: u32,
    pub patch: u32,
}

/// How a version stands against another one.
#[derive(Debug, Clone, Copy, PartialEq, Eq, Structural)]
pub enum VersionStatus {
    Same,
    Young,
    Old,
}

/// A version text that is not of the form `major.minor.patch`.
#[derive(Debug, Clone, Copy, PartialEq, Eq, Structural)]
pub enum VersionError {
    InvalidFormat,
}

/// The dot-separated components of a version text.
pub open spec fn version_components(s: Seq<char>) -> Seq<Seq<char>> {
    split_on(s, '.')
}

/// Whether every component is a `u32`.
pub open spec fn all_components_numeric(p: Seq<Seq<char>>) -> bool {
    forall|i: int| 0 <= i < p.len() ==> (#[trigger] parse_u32_spec(p[i])) is Some
}

/// The inputs on which `Version::parse` gives an answer: every text but
/// those of fewer than three components that are all numeric.
pub open spec fn version_parse_defined(s: Seq<char>) -> bool {
    let p = version_components(s);
    !(all_components_numeric(p) && p.len() < 3)
}

/// What `Version::parse` gives: the first three components when every
/// component is a `u32` (further components are ignored), an error otherwise.
pub open spec fn version_parse_spec(s: Seq<char>) -> Result<Version, VersionError> {
    let p = version_components(s);
    if all_components_numeric(p) {
        Ok(
            Version {
                major: parse_u32_spec(p[0])->0,
                minor: parse_u32_spec(p[1])->0,
                patch: parse_u32_spec(p[2])->0,
            },
        )
    } else {
        Err(VersionError::InvalidFormat)
    }
}

/// Whether `a` is strictly newer than `b`, comparing major, then minor, then patch.
pub open spec fn is_newer(a: Version, b: Version) -> bool {
    ||| a.major > b.major
    ||| (a.major == b.major && a.minor > b.minor)
    ||| (a.major == b.major && a.minor == b.minor && a.patch > b.patch)
}

/// What `Version::compare` gives: `Young` when `a` is newer, `Old` when it is older.
pub open spec fn compare_spec(a: Version, b: Version) -> VersionStatus {
    if is_newer(a, b) {
        VersionStatus::Young
    } else if is_newer(b, a) {
        VersionStatus::Old
    } else {
        VersionStatus::Same
    }
}

proof fn lemma_digits_value_grows(d: Seq<char>, c: char)
    requires
        is_digit(c),
    ensures
        digits_value(d.push(c)) >= digits_value(d),
        digits_value(d.push(c)) == digits_value(d) * 10 + digit_of(c),
{
    assert(d.push(c).drop_last() =~= d);
}

/// `u32::from_str`: decimal digits after an optional `+`.
pub fn parse_u32(s: &str) -> (r: Option<u32>)
    ensures
        r == parse_u32_spec(s@),
{
    let cs = chars_of(s);
    let n = cs.len();
    let mut i: usize = 0;
    if n > 0 && cs[0] == '+' {
        i = 1;
    }
    let start = i;
    let ghost d = unsigned_digits(s@);
    assert(d =~= cs@.subrange(start as int, n as int));
    if start == n {
        return None;
    }
    let mut acc: u64 = 0;
    let mut overflow = false;
    while i < n
        invariant
            cs@ == s@,
            n == cs@.len(),
            start <= i <= n,
            d == cs@.subrange(start as int, n as int),
            d == unsigned_digits(s@),
            all_digits(cs@.subrange(start as int, i as int)),
            !overflow ==> acc == digits_value(cs@.subrange(start as int, i as int)) && acc
                <= u32::MAX,
            overflow ==> digits_value(cs@.subrange(start as int, i as int)) > u32::MAX,
        decreases n - i,
    {
        let c = cs[i];
        if !('0' <= c && c <= '9') {
            assert(!all_digits(d)) by {
                assert(d[i - start] == c);
            }
            return None;
        }
        let ghost prefix = cs@.subrange(start as int, i as int);
        proof {
            lemma_digits_value_grows(prefix, c);
            assert(prefix.push(c) =~= cs@.subrange(start as int, i + 1));
        }
        if !overflow {
            let v = acc * 10 + ((c as u64) - ('0' as u64));
            if v > 0xffff_ffff {
                overflow = true;
            } else {
                acc = v;
            }
        }
        i = i + 1;
        assert(all_digits(cs@.subrange(start as int, i as int))) by {
            assert forall|j: int| 0 <= j < i - start implies is_digit(
                #[trigger] cs@.subrange(start as int, i as int)[j],
            ) by {
                if j < i - 1 - start {
                    assert(cs@.subrange(start as int, i as int)[j] == prefix[j]);
                }
            }
        }
    }
    assert(cs@.subrange(start as int, i as int) =~= d);
    if overflow {
        None
    } else {
        Some(acc as u32)
    }
}

impl Version {
    /// Reads a version written `major.minor.patch`.
    pub fn parse(version: &str) -> (r: Result<Version, VersionError>)
        requires
            version_parse_defined(version@),
        ensures
            r == version_parse_spec(version@),
    {
        let pieces = split_chars(version, '.');
        let ghost p = version_components(version@);
        assert(views(pieces@) == p);
        let mut values: Vec<u32> = Vec::new();
        let mut i: usize = 0;
        while i < pieces.len()
            invariant
                views(pieces@) == p,
                p == version_components(version@),
                i <= pieces@.len(),
                values@.len() == i,
                forall|j: int| 0 <= j < i ==> parse_u32_spec(p[j]) == Some(#[trigger] values@[j]),
            decreases pieces.len() - i,
        {
            assert(p[i as int] == pieces@[i as int]@);
            match parse_u32(pieces[i].as_str()) {
                Some(v) => {
                    values.push(v);
                },
                None => {
                    assert(!all_components_numeric(p));
                    return Err(VersionError::InvalidFormat);
                },
            }
            i = i + 1;
        }
        assert(all_components_numeric(p)) by {
            assert forall|j: int| 0 <= j < p.len() implies (#[trigger] parse_u32_spec(
                p[j],
            )) is Some by {
                assert(parse_u32_spec(p[j]) == Some(values@[j]));
            }
        }
        assert(values@.len() >= 3);
        Ok(Version { major: values[0], minor: values[1], patch: values[2] })
    }

    /// Whether `Version::parse` answers on `version`: false only for texts of
    /// fewer than three components that are all numeric.
    pub fn is_parse_defined(version: &str) -> (r: bool)
        ensures
            r == version_parse_defined(version@),
    {
        let pieces = split_chars(version, '.');
        let ghost p = version_components(version@);
        if pieces.len() >= 3 {
            return true;
        }
        let mut i: usize = 0;
        while i < pieces.len()
            invariant
                views(pieces@) == p,
                p == version_components(version@),
                i <= pieces@.len(),
                forall|j: int| 0 <= j < i ==> (#[trigger] parse_u32_spec(p[j])) is Some,
            decreases pieces.len() - i,
        {
            assert(p[i as int] == pieces@[i as int]@);
            if parse_u32(pieces[i].as_str()).is_none() {
                return true;
            }
            i = i + 1;
        }
        false
    }

    /// Compares `self` with `other`: `Young` when `self` is newer, `Old` when
    /// it is older, `Same` when all three numbers agree.
    pub fn compare(&self, other: &Version) -> (r: VersionStatus)
        ensures
            r == compare_spec(*self, *other),
    {
        if self.major > other.major {
            return VersionStatus::Young
        } else if self.major < other.major {
            return VersionStatus::Old
        } else {
            if self.minor > other.minor {
                return VersionStatus::Young
            } else if self.minor < other.minor {
                return VersionStatus::Old
            } else {
                if self.patch > other.patch {
                    return VersionStatus::Young
                } else if self.patch < other.patch {
                    return VersionStatus::Old
                } else {
                    return VersionStatus::Same
                }
            }
        }
    }
}

/// Two versions compare as `Same` exactly when their three numbers agree.
pub proof fn law_compare_same_iff_equal(a: Version, b: Version)
    ensures
        (compare_spec(a, b) == VersionStatus::Same) <==> (a == b),
{
}

/// Comparing in the other direction swaps `Young` and `Old`.
pub proof fn law_compare_antisymmetric(a: Version, b: Version)
    ensures
        (compare_spec(a, b) == VersionStatus::Young) <==> (compare_spec(b, a)
            == VersionStatus::Old),
        (compare_spec(a, b) == VersionStatus::Same) <==> (compare_spec(b, a)
            == VersionStatus::Same),
{
}

/// Being newer is transitive.
pub proof fn law_compare_transitive(a: Version, b: Version, c: Version)
    requires
        compare_spec(a, b) == VersionStatus::Young,
        compare_spec(b, c) == VersionStatus::Young,
    ensures
        compare_spec(a, c) == VersionStatus::Young,
{
}

} // verus!
