//! Byte-level text primitives shared by the index and the query evaluator:
//! ASCII lowercasing, lexicographic order on byte strings, subsequence
//! matching, and character containment.
use vstd::prelude::*;
use vstd::slice::slice_index_get;
use vstd::string::StringSliceAdditionalSpecFns;
use vstd::std_specs::iter::IteratorSpec;

verus! {

/// ASCII lowercase of a single byte: `A`..`Z` map to `a`..`z`, all other
/// bytes (including UTF-8 continuation bytes, which are >= 0x80) unchanged.
pub open spec fn lower_byte(b: u8) -> u8 {
    if 65 <= b <= 90 {
        (b + 32) as u8
    } else {
        b
    }
}

/// ASCII lowercase of a byte string, applied byte by byte.
pub open spec fn lower_bytes(s: Seq<u8>) -> Seq<u8> {
    Seq::new(s.len(), |i: int| lower_byte(s[i]))
}

/// Strict lexicographic (dictionary) order on byte strings.
pub open spec fn lex_lt(a: Seq<u8>, b: Seq<u8>) -> bool
    decreases a.len(),
{
    if b.len() == 0 {
        false
    } else if a.len() == 0 {
        true
    } else if a[0] < b[0] {
        true
    } else if a[0] > b[0] {
        false
    } else {
        lex_lt(a.skip(1), b.skip(1))
    }
}

/// Non-strict lexicographic order on byte strings.
pub open spec fn lex_leq(a: Seq<u8>, b: Seq<u8>) -> bool {
    lex_lt(a, b) || a == b
}

/// Lexicographic order is irreflexive.
pub proof fn lemma_lex_lt_irrefl(a: Seq<u8>)
    ensures
        !lex_lt(a, a),
    decreases a.len(),
{
    if a.len() > 0 {
        lemma_lex_lt_irrefl(a.skip(1));
    }
}

/// Lexicographic order is transitive.
pub proof fn lemma_lex_lt_trans(a: Seq<u8>, b: Seq<u8>, c: Seq<u8>)
    requires
        lex_lt(a, b),
        lex_lt(b, c),
    ensures
        lex_lt(a, c),
    decreases a.len(),
{
    if a.len() == 0 {
    } else {
        if a[0] == b[0] && b[0] == c[0] {
            lemma_lex_lt_trans(a.skip(1), b.skip(1), c.skip(1));
        }
    }
}

/// Lexicographic order is asymmetric, and strictly ordered byte strings differ.
pub proof fn lemma_lex_lt_asym(a: Seq<u8>, b: Seq<u8>)
    requires
        lex_lt(a, b),
    ensures
        !lex_lt(b, a),
        a != b,
{
    lemma_lex_lt_irrefl(a);
    if lex_lt(b, a) {
        lemma_lex_lt_trans(a, b, a);
    }
}

/// `needle` occurs inside `hay` as an ordered, possibly non-contiguous
/// subsequence. The greedy characterization used here (always consume a
/// matching head byte) is the transition function of the subsequence
/// automaton that the query evaluator runs over the index keys.
pub open spec fn is_subseq(needle: Seq<u8>, hay: Seq<u8>) -> bool
    decreases hay.len(),
{
    if needle.len() == 0 {
        true
    } else if hay.len() == 0 {
        false
    } else if needle[0] == hay[0] {
        is_subseq(needle.skip(1), hay.skip(1))
    } else {
        is_subseq(needle, hay.skip(1))
    }
}

/// The character `c` occurs somewhere in `s`.
pub open spec fn contains_char(s: Seq<char>, c: char) -> bool {
    exists|i: int| 0 <= i < s.len() && s[i] == c
}

/// Two byte strings agreeing on a proper prefix are ordered by the first
/// byte on which they differ.
pub proof fn lemma_lex_from_prefix(a: Seq<u8>, b: Seq<u8>, i: int)
    requires
        0 <= i < a.len(),
        i < b.len(),
        a.subrange(0, i) == b.subrange(0, i),
        a[i] < b[i],
    ensures
        lex_lt(a, b),
    decreases i,
{
    if i == 0 {
    } else {
        assert(a[0] == a.subrange(0, i)[0] && b[0] == b.subrange(0, i)[0]);
        assert(a.skip(1).subrange(0, i - 1) =~= a.subrange(0, i).skip(1));
        assert(b.skip(1).subrange(0, i - 1) =~= b.subrange(0, i).skip(1));
        assert(a.skip(1)[i - 1] == a[i] && b.skip(1)[i - 1] == b[i]);
        lemma_lex_from_prefix(a.skip(1), b.skip(1), i - 1);
    }
}

/// A proper prefix precedes the longer byte string.
pub proof fn lemma_lex_prefix_short(a: Seq<u8>, b: Seq<u8>)
    requires
        a.len() < b.len(),
        a == b.subrange(0, a.len() as int),
    ensures
        lex_lt(a, b),
    decreases a.len(),
{
    if a.len() == 0 {
    } else {
        assert(a[0] == b.subrange(0, a.len() as int)[0]);
        assert(a.skip(1) =~= b.skip(1).subrange(0, a.len() - 1));
        lemma_lex_prefix_short(a.skip(1), b.skip(1));
    }
}

/// ASCII lowercase of a single byte, executable form.
pub fn lower_byte_exec(b: u8) -> (r: u8)
    ensures
        r == lower_byte(b),
{
    if 65 <= b && b <= 90 {
        b + 32
    } else {
        b
    }
}

/// ASCII lowercase of the UTF-8 bytes of a string.
pub fn lowercase_bytes(s: &str) -> (r: Vec<u8>)
    ensures
        r@ == lower_bytes(s.spec_bytes()),
{
    let bytes = s.as_bytes();
    let mut r: Vec<u8> = Vec::new();
    let mut i: usize = 0;
    while i < bytes.len()
        invariant
            0 <= i <= bytes.len(),
            bytes@ == s.spec_bytes(),
            r@ =~= lower_bytes(s.spec_bytes()).subrange(0, i as int),
        decreases bytes.len() - i,
    {
        let b: u8 = *slice_index_get(bytes, i);
        r.push(lower_byte_exec(b));
        assert(r@ =~= lower_bytes(s.spec_bytes()).subrange(0, i as int + 1));
        i = i + 1;
    }
    assert(r@ =~= lower_bytes(s.spec_bytes()));
    r
}

/// Byte-string equality.
pub fn bytes_eq(a: &Vec<u8>, b: &Vec<u8>) -> (r: bool)
    ensures
        r <==> a@ == b@,
{
    if a.len() != b.len() {
        return false;
    }
    let mut i: usize = 0;
    while i < a.len()
        invariant
            0 <= i <= a.len(),
            a.len() == b.len(),
            forall|j: int| 0 <= j < i ==> a@[j] == b@[j],
        decreases a.len() - i,
    {
        if a[i] != b[i] {
            return false;
        }
        i = i + 1;
    }
    assert(a@ =~= b@);
    true
}

/// Three-way byte-string comparison under lexicographic order.
pub fn bytes_cmp(a: &Vec<u8>, b: &Vec<u8>) -> (r: core::cmp::Ordering)
    ensures
        r == core::cmp::Ordering::Less <==> lex_lt(a@, b@),
        r == core::cmp::Ordering::Equal <==> a@ == b@,
        r == core::cmp::Ordering::Greater <==> lex_lt(b@, a@),
{
    let mut i: usize = 0;
    while i < a.len() && i < b.len()
        invariant
            0 <= i <= a.len(),
            i <= b.len(),
            a@.subrange(0, i as int) == b@.subrange(0, i as int),
        decreases a.len() - i,
    {
        if a[i] < b[i] {
            proof {
                lemma_lex_from_prefix(a@, b@, i as int);
                lemma_lex_lt_asym(a@, b@);
            }
            return core::cmp::Ordering::Less;
        }
        if a[i] > b[i] {
            proof {
                lemma_lex_from_prefix(b@, a@, i as int);
                lemma_lex_lt_asym(b@, a@);
            }
            return core::cmp::Ordering::Greater;
        }
        assert(a@.subrange(0, i as int + 1) =~= a@.subrange(0, i as int).push(a@[i as int]));
        assert(b@.subrange(0, i as int + 1) =~= b@.subrange(0, i as int).push(b@[i as int]));
        i = i + 1;
    }
    if a.len() == b.len() {
        assert(a@.subrange(0, i as int) =~= a@);
        assert(b@.subrange(0, i as int) =~= b@);
        proof {
            lemma_lex_lt_irrefl(a@);
        }
        core::cmp::Ordering::Equal
    } else if a.len() < b.len() {
        proof {
            assert(a@ =~= b@.subrange(0, a@.len() as int));
            lemma_lex_prefix_short(a@, b@);
            lemma_lex_lt_asym(a@, b@);
        }
        core::cmp::Ordering::Less
    } else {
        proof {
            assert(b@ =~= a@.subrange(0, b@.len() as int));
            lemma_lex_prefix_short(b@, a@);
            lemma_lex_lt_asym(b@, a@);
        }
        core::cmp::Ordering::Greater
    }
}

/// Whether the character `c` occurs in `s`.
pub fn str_contains_char(s: &str, c: char) -> (r: bool)
    ensures
        r <==> contains_char(s@, c),
{
    broadcast use vstd::string::next_postcondition;

    let mut it = s.chars();
    let ghost mut k: int = 0;
    loop
        invariant
            0 <= k <= s@.len(),
            it.remaining() == s@.skip(k),
            forall|m: int| 0 <= m < k ==> s@[m] != c,
        decreases s@.len() - k,
    {
        match it.next() {
            None => {
                assert(s@.skip(k).len() == 0);
                return false;
            },
            Some(ch) => {
                assert(ch == s@.skip(k)[0] && s@.skip(k)[0] == s@[k]);
                if ch == c {
                    return true;
                }
                assert(s@.skip(k).drop_first() =~= s@.skip(k + 1));
                proof {
                    k = k + 1;
                }
            },
        }
    }
}

/// Whether every character of `query` occurs somewhere in `name`.
pub fn all_chars_contained(query: &str, name: &str) -> (r: bool)
    ensures
        r <==> (forall|i: int| 0 <= i < query@.len() ==> contains_char(name@, #[trigger] query@[i])),
{
    broadcast use vstd::string::next_postcondition;

    let mut it = query.chars();
    let ghost mut k: int = 0;
    loop
        invariant
            0 <= k <= query@.len(),
            it.remaining() == query@.skip(k),
            forall|m: int| 0 <= m < k ==> contains_char(name@, #[trigger] query@[m]),
        decreases query@.len() - k,
    {
        match it.next() {
            None => {
                assert(query@.skip(k).len() == 0);
                return true;
            },
            Some(ch) => {
                assert(ch == query@.skip(k)[0] && query@.skip(k)[0] == query@[k]);
                if !str_contains_char(name, ch) {
                    return false;
                }
                assert(query@.skip(k).drop_first() =~= query@.skip(k + 1));
                proof {
                    k = k + 1;
                }
            },
        }
    }
}

} // verus!
