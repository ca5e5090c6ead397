//! The checksum of a module folder: SHA-256 over each file's relative path
//! followed by its contents, files taken in path order, written as
//! lower-case hexadecimal.

use vstd::prelude::*;
use sha2::Digest;
use crate::text::push_char;
use crate::names::ModuleTools;
use crate::path_order::{distinct_paths, entry_views, lemma_sort_unique, sort_entries, sort_spec};

verus! {

/// The SHA-256 digest of `data`, as computed by the `sha2` crate.
pub uninterp spec fn sha256_spec(data: Seq<u8>) -> Seq<u8>;

/// The SHA-256 digest of `data`, with `sha2::Sha256::digest`. The contract
/// claims that the digest is a function of the bytes, named above, and that
/// it has 32 bytes (the output size of `Sha256`).
#[verifier::external_body]
fn sha256_digest(data: &[u8]) -> (r: Vec<u8>)
    ensures
        r@ == sha256_spec(data@),
        r@.len() == 32,
{
    sha2::Sha256::digest(data).to_vec()
}

/// The lower-case hexadecimal digit of `n` (below 16).
pub open spec fn hex_digit(n: nat) -> char {
    if n < 10 {
        (('0' as nat) + n) as char
    } else {
        (('a' as nat) + n - 10) as char
    }
}

/// Each byte as two lower-case hexadecimal digits, high digit first.
pub open spec fn hex_lower(s: Seq<u8>) -> Seq<char>
    decreases s.len(),
{
    if s.len() == 0 {
        Seq::empty()
    } else {
        hex_lower(s.drop_last()) + seq![hex_digit((s.last() / 16) as nat), hex_digit((s.last() % 16) as nat)]
    }
}

/// The bytes that the checksum is taken over: each entry's relative path,
/// then its contents, in order.
pub open spec fn checksum_input(entries: Seq<(Seq<u8>, Seq<u8>)>) -> Seq<u8>
    decreases entries.len(),
{
    if entries.len() == 0 {
        Seq::empty()
    } else {
        checksum_input(entries.drop_last()) + entries.last().0 + entries.last().1
    }
}

/// The checksum of a module folder given as its files: SHA-256 over the
/// files in path order, in lower-case hexadecimal.
pub open spec fn checksum_spec(entries: Seq<(Vec<u8>, Vec<u8>)>) -> Seq<char> {
    hex_lower(sha256_spec(checksum_input(sort_spec(entry_views(entries)))))
}

fn hex_char(n: u8) -> (c: char)
    requires
        n < 16,
    ensures
        c == hex_digit(n as nat),
{
    if n < 10 {
        (48u8 + n) as char
    } else {
        (87u8 + n) as char
    }
}

/// Each byte as two lower-case hexadecimal digits.
pub fn to_hex_lower(data: &Vec<u8>) -> (r: String)
    ensures
        r@ == hex_lower(data@),
{
    let mut r = String::new();
    let mut i: usize = 0;
    while i < data.len()
        invariant
            i <= data@.len(),
            r@ == hex_lower(data@.take(i as int)),
        decreases data.len() - i,
    {
        let b = data[i];
        push_char(&mut r, hex_char(b / 16));
        push_char(&mut r, hex_char(b % 16));
        assert(data@.take(i + 1).drop_last() =~= data@.take(i as int));
        i = i + 1;
        assert(r@ =~= hex_lower(data@.take(i as int)));
    }
    assert(data@.take(i as int) =~= data@);
    r
}

impl ModuleTools {
    /// The checksum of a module folder from its files, each given as its path
    /// relative to the folder and its contents, in any order: the files are
    /// taken in path order.
    pub fn compute_checksum(entries: &Vec<(Vec<u8>, Vec<u8>)>) -> (r: String)
        ensures
            r@ == checksum_spec(entries@),
            r@.len() == 64,
            forall|i: int| 0 <= i < r@.len() ==> is_hex_lower_char(#[trigger] r@[i]),
    {
        let sorted = sort_entries(entries);
        let ghost sv = entry_views(sorted@);
        let mut data: Vec<u8> = Vec::new();
        let mut i: usize = 0;
        while i < sorted.len()
            invariant
                sv == entry_views(sorted@),
                i <= sorted@.len(),
                data@ == checksum_input(sv.take(i as int)),
            decreases sorted.len() - i,
        {
            let mut path = sorted[i].0.clone();
            let mut contents = sorted[i].1.clone();
            data.append(&mut path);
            data.append(&mut contents);
            assert(sv.take(i + 1).drop_last() =~= sv.take(i as int));
            assert(sv.take(i + 1).last() == (sorted@[i as int].0@, sorted@[i as int].1@));
            i = i + 1;
            assert(data@ =~= checksum_input(sv.take(i as int)));
        }
        assert(sv.take(i as int) =~= sv);
        let digest = sha256_digest(data.as_slice());
        proof {
            lemma_hex_lower_len(digest@);
            lemma_hex_lower_chars(digest@);
        }
        to_hex_lower(&digest)
    }
}

/// Two hexadecimal digits per byte.
proof fn lemma_hex_lower_len(s: Seq<u8>)
    ensures
        hex_lower(s).len() == 2 * s.len(),
    decreases s.len(),
{
    if s.len() > 0 {
        lemma_hex_lower_len(s.drop_last());
    }
}

/// A lower-case hexadecimal digit.
pub open spec fn is_hex_lower_char(c: char) -> bool {
    ('0' <= c && c <= '9') || ('a' <= c && c <= 'f')
}

/// Every character of `hex_lower(s)` is a lower-case hexadecimal digit.
proof fn lemma_hex_lower_chars(s: Seq<u8>)
    ensures
        forall|i: int| 0 <= i < hex_lower(s).len() ==> is_hex_lower_char(#[trigger] hex_lower(s)[i]),
    decreases s.len(),
{
    if s.len() > 0 {
        lemma_hex_lower_chars(s.drop_last());
        lemma_hex_lower_len(s.drop_last());
        let hi = (s.last() / 16) as nat;
        let lo = (s.last() % 16) as nat;
        assert((hex_digit(hi) as nat) == if hi < 10 { 48 + hi } else { 87 + hi });
        assert((hex_digit(lo) as nat) == if lo < 10 { 48 + lo } else { 87 + lo });
        assert(is_hex_lower_char(hex_digit(hi)));
        assert(is_hex_lower_char(hex_digit(lo)));
        let p = hex_lower(s.drop_last());
        assert forall|i: int| 0 <= i < hex_lower(s).len() implies is_hex_lower_char(
            #[trigger] hex_lower(s)[i],
        ) by {
            if i < p.len() {
                assert(hex_lower(s)[i] == p[i]);
            }
        }
    }
}

/// Two listings of a module folder's files, with distinct paths, in any
/// order, have the same checksum: the checksum depends on the files alone,
/// not on the order in which the folder was listed nor on where it lies.
pub proof fn law_checksum_ignores_listing_order(a: Seq<(Vec<u8>, Vec<u8>)>, b: Seq<(Vec<u8>, Vec<u8>)>)
    requires
        a.len() == b.len(),
        distinct_paths(entry_views(a)),
        distinct_paths(entry_views(b)),
        forall|x: (Seq<u8>, Seq<u8>)| #[trigger] entry_views(a).contains(x) <==> entry_views(b).contains(x),
    ensures
        checksum_spec(a) == checksum_spec(b),
{
    lemma_sort_unique(entry_views(a), entry_views(b));
}

/// Distinct digit values are written as distinct digits.
proof fn lemma_hex_digit_injective(a: nat, b: nat)
    requires
        a < 16,
        b < 16,
        hex_digit(a) == hex_digit(b),
    ensures
        a == b,
{
    assert((hex_digit(a) as nat) == if a < 10 { 48 + a } else { 87 + a });
    assert((hex_digit(b) as nat) == if b < 10 { 48 + b } else { 87 + b });
}

/// Two byte strings written the same way in hexadecimal are the same: two
/// checksums agree exactly when the digests they write agree.
pub proof fn law_hex_lower_injective(a: Seq<u8>, b: Seq<u8>)
    requires
        hex_lower(a) == hex_lower(b),
    ensures
        a == b,
    decreases a.len(),
{
    lemma_hex_lower_len(a);
    lemma_hex_lower_len(b);
    if a.len() == 0 {
        assert(a =~= b);
    } else {
        let (pa, pb) = (a.drop_last(), b.drop_last());
        lemma_hex_lower_len(pa);
        lemma_hex_lower_len(pb);
        let h = hex_lower(a);
        let n = h.len() as int;
        assert(hex_lower(pa) =~= h.subrange(0, n - 2));
        assert(hex_lower(pb) =~= h.subrange(0, n - 2));
        law_hex_lower_injective(pa, pb);
        let (x, y) = (a.last(), b.last());
        assert(h[n - 2] == hex_digit((x / 16) as nat) && h[n - 2] == hex_digit((y / 16) as nat));
        assert(h[n - 1] == hex_digit((x % 16) as nat) && h[n - 1] == hex_digit((y % 16) as nat));
        lemma_hex_digit_injective((x / 16) as nat, (y / 16) as nat);
        lemma_hex_digit_injective((x % 16) as nat, (y % 16) as nat);
        assert(x == y);
        assert(a =~= pa.push(x));
        assert(b =~= pb.push(y));
    }
}

/// Whether a freshly downloaded module has the checksum that the lock file records.
pub fn checksum_matches(downloaded: &str, expected: &str) -> (r: bool)
    ensures
        r == (downloaded@ == expected@),
{
    crate::text::same_text(downloaded, expected)
}

/// The total length of the paths and contents of `entries`.
pub open spec fn entries_len(entries: Seq<(Seq<u8>, Seq<u8>)>) -> nat
    decreases entries.len(),
{
    if entries.len() == 0 {
        0
    } else {
        entries_len(entries.drop_last()) + entries.last().0.len() + entries.last().1.len()
    }
}

/// The input of two listings one after the other is the input of the
/// first, then that of the second.
proof fn lemma_input_concat(a: Seq<(Seq<u8>, Seq<u8>)>, b: Seq<(Seq<u8>, Seq<u8>)>)
    ensures
        checksum_input(a + b) == checksum_input(a) + checksum_input(b),
        entries_len(a + b) == entries_len(a) + entries_len(b),
    decreases b.len(),
{
    if b.len() == 0 {
        assert(a + b =~= a);
        assert(checksum_input(a) + checksum_input(b) =~= checksum_input(a));
    } else {
        lemma_input_concat(a, b.drop_last());
        assert((a + b).drop_last() =~= a + b.drop_last());
        assert((a + b).last() == b.last());
        assert(checksum_input(a + b) =~= checksum_input(a) + checksum_input(b));
    }
}

/// The checksum is taken over every byte of every path and every file:
/// its input is as long as all of them together.
pub proof fn law_checksum_input_len(entries: Seq<(Seq<u8>, Seq<u8>)>)
    ensures
        checksum_input(entries).len() == entries_len(entries),
    decreases entries.len(),
{
    if entries.len() > 0 {
        law_checksum_input_len(entries.drop_last());
    }
}

/// Each file's whole path, then its whole contents, stand in the checksum
/// input right after the paths and contents of the files before it.
pub proof fn law_checksum_input_holds_each_file(entries: Seq<(Seq<u8>, Seq<u8>)>, i: int)
    requires
        0 <= i < entries.len(),
    ensures
        ({
            let start = entries_len(entries.take(i)) as int;
            let e = entries[i];
            checksum_input(entries).subrange(start, start + e.0.len() + e.1.len()) == e.0 + e.1
        }),
{
    let a = entries.take(i);
    let x = seq![entries[i]];
    let c = entries.skip(i + 1);
    assert(entries =~= a + x + c);
    lemma_input_concat(a + x, c);
    lemma_input_concat(a, x);
    law_checksum_input_len(a);
    assert(x.drop_last() =~= Seq::<(Seq<u8>, Seq<u8>)>::empty());
    assert(checksum_input(x.drop_last()) =~= Seq::<u8>::empty());
    assert(x.last() == entries[i]);
    assert(checksum_input(x) =~= entries[i].0 + entries[i].1);
    let start = entries_len(a) as int;
    let e = entries[i];
    assert(checksum_input(entries).subrange(start, start + e.0.len() + e.1.len()) =~= e.0 + e.1);
}

/// Two listings that differ in one byte of one file's contents, and in
/// nothing else, give different checksum inputs: no change to a file goes
/// unseen.
pub proof fn law_checksum_input_detects_change(
    a: Seq<(Seq<u8>, Seq<u8>)>,
    b: Seq<(Seq<u8>, Seq<u8>)>,
    i: int,
    j: int,
)
    requires
        a.len() == b.len(),
        0 <= i < a.len(),
        forall|k: int| 0 <= k < a.len() && k != i ==> #[trigger] a[k] == b[k],
        a[i].0 == b[i].0,
        a[i].1.len() == b[i].1.len(),
        0 <= j < a[i].1.len(),
        a[i].1[j] != b[i].1[j],
    ensures
        checksum_input(a) != checksum_input(b),
{
    assert(a.take(i) =~= b.take(i));
    law_checksum_input_holds_each_file(a, i);
    law_checksum_input_holds_each_file(b, i);
    let start = entries_len(a.take(i)) as int;
    let p = a[i].0.len() as int;
    let n = p + a[i].1.len();
    let sa = checksum_input(a).subrange(start, start + n);
    let sb = checksum_input(b).subrange(start, start + n);
    assert(sa[p + j] == a[i].1[j]);
    assert(sb[p + j] == b[i].1[j]);
    if checksum_input(a) == checksum_input(b) {
        assert(sa == sb);
    }
}

} // verus!
