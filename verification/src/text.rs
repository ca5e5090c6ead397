//! Character-level text helpers shared by the parsers of this crate:
//! splitting on a separator (as `str::split` does), trimming Unicode
//! whitespace (as `str::trim` does) and building strings.

use vstd::prelude::*;
use vstd::string::*;

verus! {

/// The pieces that `str::split(sep)` yields for `s`: `k` separators give
/// `k + 1` pieces, empty pieces included.
pub open spec fn split_on(s: Seq<char>, sep: char) -> Seq<Seq<char>>
    decreases s.len(),
{
    if s.len() == 0 {
        seq![Seq::<char>::empty()]
    } else {
        let prev = split_on(s.drop_last(), sep);
        if s.last() == sep {
            prev.push(Seq::<char>::empty())
        } else {
            prev.update(prev.len() - 1, prev.last().push(s.last()))
        }
    }
}

/// `char::is_whitespace`: the characters with the Unicode `White_Space` property.
pub open spec fn is_unicode_whitespace(c: char) -> bool {
    ||| ('\u{9}' <= c && c <= '\u{d}')
    ||| c == ' '
    ||| c == '\u{85}'
    ||| c == '\u{a0}'
    ||| c == '\u{1680}'
    ||| ('\u{2000}' <= c && c <= '\u{200a}')
    ||| c == '\u{2028}'
    ||| c == '\u{2029}'
    ||| c == '\u{202f}'
    ||| c == '\u{205f}'
    ||| c == '\u{3000}'
}

/// `s` without its leading whitespace.
pub open spec fn trim_start(s: Seq<char>) -> Seq<char>
    decreases s.len(),
{
    if s.len() > 0 && is_unicode_whitespace(s[0]) {
        trim_start(s.drop_first())
    } else {
        s
    }
}

/// `s` without its trailing whitespace.
pub open spec fn trim_end(s: Seq<char>) -> Seq<char>
    decreases s.len(),
{
    if s.len() > 0 && is_unicode_whitespace(s.last()) {
        trim_end(s.drop_last())
    } else {
        s
    }
}

/// `str::trim`: `s` without leading and trailing whitespace.
pub open spec fn trim(s: Seq<char>) -> Seq<char> {
    trim_end(trim_start(s))
}

/// The views of a sequence of strings.
pub open spec fn views(v: Seq<String>) -> Seq<Seq<char>> {
    v.map_values(|x: String| x@)
}

/// The views of a sequence with one more string.
pub proof fn lemma_views_push(s: Seq<String>, x: String)
    ensures
        views(s.push(x)) == views(s).push(x@),
{
    assert(views(s.push(x)) =~= views(s).push(x@));
}

/// The views of one more string of a prefix.
pub proof fn lemma_views_take_step(s: Seq<String>, k: int)
    requires
        0 <= k < s.len(),
    ensures
        views(s.take(k + 1)) == views(s.take(k)).push(s[k]@),
{
    assert(s.take(k + 1) =~= s.take(k).push(s[k]));
    lemma_views_push(s.take(k), s[k]);
}

/// `a`, the character `sep`, then `b`.
pub open spec fn joined(a: Seq<char>, sep: char, b: Seq<char>) -> Seq<char> {
    a + seq![sep] + b
}

/// `split_on` always yields at least one piece.
pub proof fn lemma_split_nonempty(s: Seq<char>, sep: char)
    ensures
        split_on(s, sep).len() >= 1,
    decreases s.len(),
{
    if s.len() > 0 {
        lemma_split_nonempty(s.drop_last(), sep);
    }
}

/// A text without the separator is a single piece.
pub proof fn lemma_split_no_sep(s: Seq<char>, sep: char)
    requires
        !s.contains(sep),
    ensures
        split_on(s, sep) == seq![s],
    decreases s.len(),
{
    if s.len() > 0 {
        let t = s.drop_last();
        assert(!t.contains(sep)) by {
            if t.contains(sep) {
                let i = choose|i: int| 0 <= i < t.len() && t[i] == sep;
                assert(s[i] == sep);
            }
        }
        lemma_split_no_sep(t, sep);
        assert(s.last() != sep) by {
            assert(s[s.len() - 1] == s.last());
        }
        assert(t.push(s.last()) =~= s);
        assert(seq![t].update(0, t.push(s.last())) =~= seq![s]);
    } else {
        assert(s =~= Seq::<char>::empty());
    }
}

/// Appending a separator and a separator-free tail adds that tail as one more piece.
pub proof fn lemma_split_append(t: Seq<char>, sep: char, b: Seq<char>)
    requires
        !b.contains(sep),
    ensures
        split_on(t + seq![sep] + b, sep) == split_on(t, sep).push(b),
    decreases b.len(),
{
    lemma_split_nonempty(t, sep);
    if b.len() == 0 {
        assert(b =~= Seq::<char>::empty());
        assert(t + seq![sep] + b =~= t.push(sep));
        assert((t.push(sep)).drop_last() =~= t);
        assert(split_on(t, sep).push(Seq::<char>::empty()) =~= split_on(t, sep).push(b));
    } else {
        let b2 = b.drop_last();
        let c = b.last();
        assert(!b2.contains(sep)) by {
            if b2.contains(sep) {
                let i = choose|i: int| 0 <= i < b2.len() && b2[i] == sep;
                assert(b[i] == sep);
            }
        }
        assert(c != sep) by {
            assert(b[b.len() - 1] == c);
        }
        lemma_split_append(t, sep, b2);
        let whole = t + seq![sep] + b;
        assert(whole.drop_last() =~= t + seq![sep] + b2);
        assert(whole.last() == c);
        let prev = split_on(t, sep).push(b2);
        assert(prev.update(prev.len() - 1, prev.last().push(c)) =~= split_on(t, sep).push(b)) by {
            assert(b2.push(c) =~= b);
        }
    }
}

/// Splitting a text whose first part ends with the separator gives the
/// pieces of that part (without its last separator), then those of the rest.
pub proof fn lemma_split_concat(a: Seq<char>, sep: char, b: Seq<char>)
    requires
        a.len() > 0,
        a.last() == sep,
    ensures
        split_on(a + b, sep) == split_on(a.drop_last(), sep) + split_on(b, sep),
    decreases b.len(),
{
    let a0 = a.drop_last();
    lemma_split_nonempty(a0, sep);
    if b.len() == 0 {
        assert(a + b =~= a);
        assert(split_on(a0, sep) + split_on(b, sep) =~= split_on(a0, sep).push(Seq::<char>::empty()));
    } else {
        let b0 = b.drop_last();
        lemma_split_concat(a, sep, b0);
        lemma_split_nonempty(b0, sep);
        let x = a + b;
        assert(x.drop_last() =~= a + b0);
        assert(x.last() == b.last());
        let p = split_on(a0, sep);
        let q = split_on(b0, sep);
        if b.last() == sep {
            assert((p + q).push(Seq::<char>::empty()) =~= p + q.push(Seq::<char>::empty()));
        } else {
            let pq = p + q;
            assert(pq.update(pq.len() - 1, pq.last().push(b.last())) =~= p + q.update(
                q.len() - 1,
                q.last().push(b.last()),
            ));
        }
    }
}

/// Splitting `a`, `sep`, `b` with both parts free of `sep` gives back `[a, b]`.
pub proof fn lemma_split_joined(a: Seq<char>, sep: char, b: Seq<char>)
    requires
        !a.contains(sep),
        !b.contains(sep),
    ensures
        split_on(joined(a, sep, b), sep) == seq![a, b],
{
    lemma_split_no_sep(a, sep);
    lemma_split_append(a, sep, b);
    assert(seq![a].push(b) =~= seq![a, b]);
}

/// Trimming from the front stops at the first non-whitespace character.
proof fn lemma_trim_start_skip(s: Seq<char>, k: int)
    requires
        0 <= k <= s.len(),
        forall|i: int| 0 <= i < k ==> is_unicode_whitespace(#[trigger] s[i]),
    ensures
        trim_start(s) == trim_start(s.subrange(k, s.len() as int)),
    decreases k,
{
    if k > 0 {
        assert(s.drop_first().subrange(k - 1, s.drop_first().len() as int) =~= s.subrange(
            k,
            s.len() as int,
        ));
        lemma_trim_start_skip(s.drop_first(), k - 1);
    } else {
        assert(s.subrange(0, s.len() as int) =~= s);
    }
}

/// Trimming from the back stops at the last non-whitespace character.
proof fn lemma_trim_end_skip(s: Seq<char>, k: int)
    requires
        0 <= k <= s.len(),
        forall|i: int| k <= i < s.len() ==> is_unicode_whitespace(#[trigger] s[i]),
    ensures
        trim_end(s) == trim_end(s.subrange(0, k)),
    decreases s.len() - k,
{
    if k < s.len() {
        assert(s.drop_last().subrange(0, k) =~= s.subrange(0, k));
        assert(is_unicode_whitespace(s[s.len() - 1]));
        lemma_trim_end_skip(s.drop_last(), k);
    } else {
        assert(s.subrange(0, s.len() as int) =~= s);
    }
}

/// Whether `c` is whitespace in the sense of `char::is_whitespace`.
pub fn is_whitespace_char(c: char) -> (r: bool)
    ensures
        r == is_unicode_whitespace(c),
{
    ('\u{9}' <= c && c <= '\u{d}') || c == ' ' || c == '\u{85}' || c == '\u{a0}' || c
        == '\u{1680}' || ('\u{2000}' <= c && c <= '\u{200a}') || c == '\u{2028}' || c
        == '\u{2029}' || c == '\u{202f}' || c == '\u{205f}' || c == '\u{3000}'
}

/// The characters of `s`, in order.
pub fn chars_of(s: &str) -> (r: Vec<char>)
    ensures
        r@ == s@,
{
    let n = s.unicode_len();
    let mut r: Vec<char> = Vec::new();
    let mut i: usize = 0;
    while i < n
        invariant
            n == s@.len(),
            i <= n,
            r@ == s@.take(i as int),
        decreases n - i,
    {
        let c = s.get_char(i);
        r.push(c);
        i = i + 1;
        assert(r@ =~= s@.take(i as int));
    }
    assert(s@.take(n as int) =~= s@);
    r
}

/// A string made of `v[from..to]`.
pub fn string_of_range(v: &Vec<char>, from: usize, to: usize) -> (r: String)
    requires
        from <= to <= v@.len(),
    ensures
        r@ == v@.subrange(from as int, to as int),
{
    let mut r = String::new();
    let mut i = from;
    while i < to
        invariant
            from <= i <= to,
            to <= v@.len(),
            r@ == v@.subrange(from as int, i as int),
        decreases to - i,
    {
        push_char(&mut r, v[i]);
        i = i + 1;
        assert(r@ =~= v@.subrange(from as int, i as int));
    }
    r
}

/// Appends the character `c` to `s`, with `String::push`. The contract
/// claims what its documentation says: the characters of `s` afterwards are
/// those before it, then `c`.
#[verifier::external_body]
pub(crate) fn push_char(s: &mut String, c: char)
    ensures
        final(s)@ == old(s)@.push(c),
{
    s.push(c);
}

/// `a`, then `sep`, then `b`, as one string.
pub fn join_with(a: &str, sep: char, b: &str) -> (r: String)
    ensures
        r@ == joined(a@, sep, b@),
{
    let mut r = a.to_owned();
    push_char(&mut r, sep);
    r.append(b);
    assert(r@ =~= joined(a@, sep, b@));
    r
}

/// Whether the two strings hold the same characters.
pub fn same_text(a: &str, b: &str) -> (r: bool)
    ensures
        r == (a@ == b@),
{
    let x = a.to_owned();
    let y = b.to_owned();
    x == y
}

/// The pieces of `s` between occurrences of `sep` (`str::split`).
pub fn split_chars(s: &str, sep: char) -> (r: Vec<String>)
    ensures
        views(r@) == split_on(s@, sep),
{
    let cs = chars_of(s);
    let n = cs.len();
    let mut pieces: Vec<String> = Vec::new();
    let mut start: usize = 0;
    let mut i: usize = 0;
    assert(cs@.take(0) =~= Seq::<char>::empty());
    assert(views(pieces@).push(cs@.subrange(0, 0)) =~= split_on(cs@.take(0), sep));
    while i < n
        invariant
            n == cs@.len(),
            cs@ == s@,
            start <= i <= n,
            views(pieces@).push(cs@.subrange(start as int, i as int)) == split_on(
                cs@.take(i as int),
                sep,
            ),
        decreases n - i,
    {
        let c = cs[i];
        let ghost prev_pieces = views(pieces@);
        let ghost prev_t = cs@.take(i as int);
        assert(cs@.take(i + 1).drop_last() =~= prev_t);
        assert(cs@.take(i + 1).last() == c);
        proof {
            lemma_split_nonempty(prev_t, sep);
        }
        if c == sep {
            let piece = string_of_range(&cs, start, i);
            let ghost pv = piece@;
            let ghost old_p = pieces@;
            pieces.push(piece);
            assert(pieces@ == old_p.push(piece));
            assert(views(pieces@) =~= views(old_p).push(pv));
            start = i + 1;
            assert(cs@.subrange(start as int, (i + 1) as int) =~= Seq::<char>::empty());
        } else {
            assert(cs@.subrange(start as int, i as int).push(c) =~= cs@.subrange(
                start as int,
                (i + 1) as int,
            ));
            let ghost full = prev_pieces.push(cs@.subrange(start as int, i as int));
            assert(full.update(full.len() - 1, full.last().push(c)) =~= prev_pieces.push(
                cs@.subrange(start as int, (i + 1) as int),
            ));
        }
        i = i + 1;
    }
    let last = string_of_range(&cs, start, n);
    let ghost lv = last@;
    let ghost old_p = pieces@;
    pieces.push(last);
    assert(views(pieces@) =~= views(old_p).push(lv));
    assert(cs@.take(n as int) =~= cs@);
    pieces
}

/// `str::trim`: the text without leading and trailing Unicode whitespace.
pub fn trim_text(s: &str) -> (r: String)
    ensures
        r@ == trim(s@),
{
    let cs = chars_of(s);
    let n = cs.len();
    let mut start: usize = 0;
    while start < n && is_whitespace_char(cs[start])
        invariant
            n == cs@.len(),
            start <= n,
            forall|i: int| 0 <= i < start ==> is_unicode_whitespace(#[trigger] cs@[i]),
        decreases n - start,
    {
        start = start + 1;
    }
    proof {
        lemma_trim_start_skip(cs@, start as int);
        let t = cs@.subrange(start as int, n as int);
        if t.len() > 0 {
            assert(t[0] == cs@[start as int]);
        }
        assert(trim_start(t) == t);
    }
    let mut end: usize = n;
    while end > start && is_whitespace_char(cs[end - 1])
        invariant
            n == cs@.len(),
            start <= end <= n,
            forall|i: int| end <= i < n ==> is_unicode_whitespace(#[trigger] cs@[i]),
        decreases end,
    {
        end = end - 1;
    }
    proof {
        let t = cs@.subrange(start as int, n as int);
        let k = end - start;
        assert forall|i: int| k <= i < t.len() implies is_unicode_whitespace(#[trigger] t[i]) by {
            assert(t[i] == cs@[start + i]);
        }
        lemma_trim_end_skip(t, k as int);
        let u = t.subrange(0, k as int);
        assert(u =~= cs@.subrange(start as int, end as int));
        if u.len() > 0 {
            assert(u.last() == cs@[end - 1]);
        }
        assert(trim_end(u) == u);
    }
    string_of_range(&cs, start, end)
}

} // verus!
