//! The index invariants and the round-trip and union facts, stated as
//! standalone lemmas over the contracts of the build and search functions.
use vstd::prelude::*;
use vstd::utf8::{encode_utf8, is_ascii_chars};
use crate::index::{SymbolIndex, batch_start, batch_end, range_to_value, sorted_by_key};
use crate::symbols::{SymbolView, symbol_key};
use crate::text::{lex_leq, lower_byte, lower_bytes, is_subseq};
use crate::query::{QueryView, accepted, appears_in, is_search_result};

verus! {

/// The ASCII-lowercase value of a character, as a code point.
pub open spec fn lower_code(c: char) -> u32 {
    if 65 <= c as u32 <= 90 {
        (c as u32 + 32) as u32
    } else {
        c as u32
    }
}

/// The lowercased characters of `q` appear in order within the lowercased
/// characters of `n`: a case-insensitive subsequence at the character level.
pub open spec fn subseq_ci(q: Seq<char>, n: Seq<char>) -> bool
    decreases n.len(),
{
    if q.len() == 0 {
        true
    } else if n.len() == 0 {
        false
    } else if lower_code(q[0]) == lower_code(n[0]) {
        subseq_ci(q.skip(1), n.skip(1))
    } else {
        subseq_ci(q, n.skip(1))
    }
}

/// On ASCII character sequences, the byte-level subsequence test that the
/// automaton performs over lowercased UTF-8 bytes coincides with the
/// case-insensitive character-level subsequence.
proof fn lemma_byte_subseq_ci_iff(q: Seq<char>, n: Seq<char>)
    requires
        is_ascii_chars(q),
        is_ascii_chars(n),
    ensures
        is_subseq(lower_bytes(encode_utf8(q)), lower_bytes(encode_utf8(n))) <==> subseq_ci(q, n),
    decreases n.len(), q.len(),
{
    broadcast use vstd::utf8::is_ascii_chars_encode_utf8;

    let qb = lower_bytes(encode_utf8(q));
    let nb = lower_bytes(encode_utf8(n));
    assert(qb.len() == q.len() && nb.len() == n.len());
    if q.len() == 0 {
    } else if n.len() == 0 {
    } else {
        assert(qb[0] == lower_byte(q[0] as u8) && nb[0] == lower_byte(n[0] as u8));
        assert(q[0] as u8 == q[0] as u32 as u8 && n[0] as u8 == n[0] as u32 as u8);
        assert(q[0] as u32 <= 0x7f && n[0] as u32 <= 0x7f);
        assert(qb[0] == lower_code(q[0]) as u8 && nb[0] == lower_code(n[0]) as u8);
        assert(lower_code(q[0]) < 128 && lower_code(n[0]) < 128);
        assert(is_ascii_chars(q.skip(1)) && is_ascii_chars(n.skip(1)));
        assert(lower_bytes(encode_utf8(q.skip(1))) =~= qb.skip(1));
        assert(lower_bytes(encode_utf8(n.skip(1))) =~= nb.skip(1));
        if lower_code(q[0]) == lower_code(n[0]) {
            assert(qb[0] == nb[0]);
            lemma_byte_subseq_ci_iff(q.skip(1), n.skip(1));
        } else {
            assert(qb[0] != nb[0]);
            lemma_byte_subseq_ci_iff(q, n.skip(1));
        }
    }
}

/// Subsequence soundness at the character level, for ASCII input: with no
/// flags set, every record a search returns carries the query as a
/// case-insensitive character subsequence of its name. At the byte level
/// the same holds of every input through the `accepted` clause of
/// `is_search_result`; the character-level reading needs ASCII, because
/// the automaton runs over UTF-8 bytes.
pub proof fn lemma_subsequence_soundness_ascii(
    q: QueryView,
    indices: Seq<&SymbolIndex>,
    rs: Seq<SymbolView>,
    x: int,
)
    requires
        is_search_result(q, indices, rs),
        0 <= x < rs.len(),
        is_ascii_chars(q.query),
        is_ascii_chars(rs[x].name),
        encode_utf8(q.lowercased) == lower_bytes(encode_utf8(q.query)),
    ensures
        subseq_ci(q.query, rs[x].name),
{
    assert(accepted(q, rs[x]));
    lemma_byte_subseq_ci_iff(q.query, rs[x].name);
}

/// Subsequence completeness at the character level, for ASCII input: with
/// no flags set and the result cap not reached, every record whose name
/// carries the query as a case-insensitive character subsequence is among
/// the results.
pub proof fn lemma_subsequence_completeness_ascii(
    q: QueryView,
    indices: Seq<&SymbolIndex>,
    rs: Seq<SymbolView>,
    t: int,
    p: int,
)
    requires
        is_search_result(q, indices, rs),
        rs.len() < q.limit,
        !q.only_types && !q.exact && !q.case_sensitive,
        0 <= t < indices.len(),
        0 <= p < indices[t]@.len(),
        is_ascii_chars(q.query),
        is_ascii_chars(indices[t]@[p].name),
        encode_utf8(q.lowercased) == lower_bytes(encode_utf8(q.query)),
        subseq_ci(q.query, indices[t]@[p].name),
    ensures
        rs.contains(indices[t]@[p]),
{
    lemma_byte_subseq_ci_iff(q.query, indices[t]@[p].name);
    assert(accepted(q, indices[t]@[p]));
}

/// Sort-and-batch: in a well-formed index, every key of the map stores a
/// non-empty range within bounds, and every record in that range carries
/// the key as its lowercased name.
pub proof fn lemma_sort_and_batch(idx: SymbolIndex)
    requires
        idx.wf(),
    ensures
        forall|k: Seq<u8>| #[trigger] idx.entries().contains_key(k) ==> {
            let v = idx.entries()[k];
            &&& 0 <= batch_start(v) < batch_end(v) <= idx@.len()
            &&& forall|j: int|
                batch_start(v) <= j < batch_end(v) ==> symbol_key(#[trigger] idx@[j]) == k
        },
{
}

/// Partition: the stored ranges cover every position of the symbol table,
/// and the ranges of distinct keys are disjoint.
pub proof fn lemma_partition(idx: SymbolIndex)
    requires
        idx.wf(),
    ensures
        forall|j: int| 0 <= j < idx@.len() ==> idx.entries().contains_key(
            symbol_key(#[trigger] idx@[j]),
        ) && batch_start(idx.entries()[symbol_key(idx@[j])]) <= j < batch_end(
            idx.entries()[symbol_key(idx@[j])],
        ),
        forall|k1: Seq<u8>, k2: Seq<u8>|
            #[trigger] idx.entries().contains_key(k1) && #[trigger] idx.entries().contains_key(k2)
                && k1 != k2 ==> batch_end(idx.entries()[k1]) <= batch_start(idx.entries()[k2])
                || batch_end(idx.entries()[k2]) <= batch_start(idx.entries()[k1]),
{
    assert forall|k1: Seq<u8>, k2: Seq<u8>|
        #[trigger] idx.entries().contains_key(k1) && #[trigger] idx.entries().contains_key(k2)
            && k1 != k2 implies batch_end(idx.entries()[k1]) <= batch_start(idx.entries()[k2])
        || batch_end(idx.entries()[k2]) <= batch_start(idx.entries()[k1]) by {
        let v1 = idx.entries()[k1];
        let v2 = idx.entries()[k2];
        if !(batch_end(v1) <= batch_start(v2) || batch_end(v2) <= batch_start(v1)) {
            let j = if batch_start(v1) >= batch_start(v2) {
                batch_start(v1)
            } else {
                batch_start(v2)
            };
            assert(batch_start(v1) <= j < batch_end(v1));
            assert(batch_start(v2) <= j < batch_end(v2));
            assert(symbol_key(idx@[j]) == k1 && symbol_key(idx@[j]) == k2);
        }
    }
}

/// Sort invariant: a well-formed index keeps its records in dictionary
/// order of their lowercased names.
pub proof fn lemma_sorted(idx: SymbolIndex)
    requires
        idx.wf(),
    ensures
        forall|i: int, j: int|
            0 <= i <= j < idx@.len() ==> lex_leq(
                symbol_key(#[trigger] idx@[i]),
                symbol_key(#[trigger] idx@[j]),
            ),
{
    assert(sorted_by_key(idx@));
}

/// Round trip of the batch encoding: packing a range into a 64-bit map
/// value and unpacking it returns the range, for all endpoints below 2^32.
pub proof fn lemma_range_value_round_trip(start: u64, end: u64)
    requires
        start <= u32::MAX,
        end <= u32::MAX,
    ensures
        batch_start(range_to_value(start, end)) == start,
        batch_end(range_to_value(start, end)) == end,
{
    assert((((start << 32) | end) >> 32) == start && (((start << 32) | end) & 0xffff_ffff) == end)
        by (bit_vector)
        requires
            start <= 0xffff_ffffu64,
            end <= 0xffff_ffffu64,
    ;
}

/// Union equivalence, membership form: with the result cap not reached, a
/// record is among the results of a search over two indexes exactly when it
/// is among the results of the search over either index alone. The order of
/// the combined results may differ from either single search.
pub proof fn lemma_union_equivalence(
    q: QueryView,
    a: &SymbolIndex,
    b: &SymbolIndex,
    rab: Seq<SymbolView>,
    ra: Seq<SymbolView>,
    rb: Seq<SymbolView>,
    s: SymbolView,
)
    requires
        is_search_result(q, seq![a, b], rab),
        is_search_result(q, seq![a], ra),
        is_search_result(q, seq![b], rb),
        rab.len() < q.limit,
        ra.len() < q.limit,
        rb.len() < q.limit,
    ensures
        rab.contains(s) <==> (ra.contains(s) || rb.contains(s)),
{
    let both: Seq<&SymbolIndex> = seq![a, b];
    let only_a: Seq<&SymbolIndex> = seq![a];
    let only_b: Seq<&SymbolIndex> = seq![b];
    if rab.contains(s) {
        let x = choose|x: int| 0 <= x < rab.len() && rab[x] == s;
        assert(accepted(q, s) && appears_in(both, s));
        let (t, j) = choose|t: int, j: int|
            0 <= t < both.len() && 0 <= j < both[t]@.len() && #[trigger] both[t]@[j] == s;
        if t == 0 {
            assert(only_a[0]@[j] == s && accepted(q, only_a[0]@[j]));
            assert(ra.contains(s));
        } else {
            assert(only_b[0]@[j] == s && accepted(q, only_b[0]@[j]));
            assert(rb.contains(s));
        }
    }
    if ra.contains(s) {
        let x = choose|x: int| 0 <= x < ra.len() && ra[x] == s;
        assert(accepted(q, s) && appears_in(only_a, s));
        let (t, j) = choose|t: int, j: int|
            0 <= t < only_a.len() && 0 <= j < only_a[t]@.len() && #[trigger] only_a[t]@[j] == s;
        assert(both[0]@[j] == s && accepted(q, both[0]@[j]));
        assert(rab.contains(s));
    }
    if rb.contains(s) {
        let x = choose|x: int| 0 <= x < rb.len() && rb[x] == s;
        assert(accepted(q, s) && appears_in(only_b, s));
        let (t, j) = choose|t: int, j: int|
            0 <= t < only_b.len() && 0 <= j < only_b[t]@.len() && #[trigger] only_b[t]@[j] == s;
        assert(both[1]@[j] == s && accepted(q, both[1]@[j]));
        assert(rab.contains(s));
    }
}

} // verus!
