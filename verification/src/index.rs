//! The per-scope symbol index: a symbol table sorted by lowercased name,
//! plus a finite-state-transducer (FST) map from each distinct lowercased
//! name to the contiguous batch of records carrying it.
//!
//! The FST itself comes from the `fst` crate; every call into it sits behind
//! a trusted declaration whose contract states what the crate's
//! documentation promises, over the abstract contents of the map.
use vstd::prelude::*;
use vstd::string::StringSliceAdditionalSpecFns;
use rayon::slice::ParallelSliceMut;
use fst::Streamer;
use crate::symbols::{FileSymbol, SymbolView, symbol_key, symbol_lower_key};
use crate::text::{lex_lt, lex_leq, is_subseq, lemma_lex_lt_trans, bytes_eq};

verus! {

#[verifier::external_type_specification]
#[verifier::external_body]
#[verifier::reject_recursive_types(D)]
pub struct ExFstMap<D>(fst::Map<D>);

#[verifier::external_type_specification]
#[verifier::external_body]
#[verifier::reject_recursive_types(W)]
pub struct ExFstMapBuilder<W>(fst::MapBuilder<W>);

/// The contents of a built FST map: the finite map from byte-string keys to
/// their stored 64-bit values.
pub uninterp spec fn fst_map_entries(m: fst::Map<Vec<u8>>) -> Map<Seq<u8>, u64>;

/// The entries inserted so far into an FST map builder.
pub uninterp spec fn fst_builder_entries(b: fst::MapBuilder<Vec<u8>>) -> Map<Seq<u8>, u64>;

/// The byte size of a built FST map's transducer, a function of the map
/// value alone.
pub uninterp spec fn fst_size_of(m: fst::Map<Vec<u8>>) -> usize;

/// Relies on `fst::raw::Fst::size` (through `Map::as_fst`): the number of
/// bytes used by the map's underlying transducer.
#[verifier::external_body]
fn fst_size(m: &fst::Map<Vec<u8>>) -> (r: usize)
    ensures
        r == fst_size_of(*m),
{
    m.as_fst().size()
}

/// Relies on `fst::MapBuilder::memory`: a fresh in-memory builder holds no
/// entries.
#[verifier::external_body]
fn fst_builder_new() -> (r: fst::MapBuilder<Vec<u8>>)
    ensures
        forall|k: Seq<u8>| !fst_builder_entries(r).contains_key(k),
{
    fst::MapBuilder::memory()
}

/// Relies on `fst::MapBuilder::insert`: adds one key-value pair. The builder
/// accepts keys in strictly ascending byte order and errors otherwise; under
/// the precondition, and with the in-memory writer (which cannot fail), the
/// insertion always succeeds.
#[verifier::external_body]
fn fst_builder_insert(b: &mut fst::MapBuilder<Vec<u8>>, key: &Vec<u8>, val: u64)
    requires
        forall|k: Seq<u8>| fst_builder_entries(*old(b)).contains_key(k) ==> lex_lt(k, key@),
    ensures
        fst_builder_entries(*final(b)) == fst_builder_entries(*old(b)).insert(key@, val),
{
    b.insert(key.as_slice(), val).unwrap();
}

/// Relies on `fst::MapBuilder::into_map`: finishing the builder yields a map
/// holding exactly the inserted entries.
#[verifier::external_body]
fn fst_builder_finish(b: fst::MapBuilder<Vec<u8>>) -> (r: fst::Map<Vec<u8>>)
    ensures
        fst_map_entries(r) == fst_builder_entries(b),
{
    b.into_map()
}

/// An immutable index over one batch of records: `symbols` sorted by
/// lowercased name, and an FST map sending each distinct lowercased name to
/// the half-open range of positions holding it.
pub struct SymbolIndex {
    symbols: Vec<FileSymbol>,
    map: fst::Map<Vec<u8>>,
}

/// Position range encoded in a stored map value: the upper 32 bits.
pub open spec fn batch_start(v: u64) -> int {
    (v >> 32) as int
}

/// Position range encoded in a stored map value: the lower 32 bits.
pub open spec fn batch_end(v: u64) -> int {
    (v & 0xffff_ffff) as int
}

/// The stored value packing the half-open range `[start, end)`.
pub open spec fn range_to_value(start: u64, end: u64) -> u64 {
    (start << 32) | end
}

/// The record sequence is sorted by lowercased name under dictionary order.
pub open spec fn sorted_by_key(s: Seq<SymbolView>) -> bool {
    forall|i: int, j: int|
        0 <= i <= j < s.len() ==> lex_leq(symbol_key(s[i]), symbol_key(s[j]))
}

impl View for SymbolIndex {
    type V = Seq<SymbolView>;

    closed spec fn view(&self) -> Seq<SymbolView> {
        self.symbols.deep_view()
    }
}

impl SymbolIndex {
    /// The contents of the FST map of this index.
    pub closed spec fn entries(self) -> Map<Seq<u8>, u64> {
        fst_map_entries(self.map)
    }

    /// The byte size of the FST blob of this index.
    pub closed spec fn fst_bytes(self) -> usize {
        fst_size_of(self.map)
    }

    /// Well-formedness: every key's stored range is a non-empty in-bounds
    /// batch of records carrying that key; every record is covered by the
    /// batch of its own key; and the records are sorted by key.
    pub open spec fn wf(self) -> bool {
        &&& self@.len() <= u32::MAX
        &&& forall|k: Seq<u8>| #[trigger] self.entries().contains_key(k) ==> {
            let v = self.entries()[k];
            &&& 0 <= batch_start(v) < batch_end(v) <= self@.len()
            &&& forall|j: int| batch_start(v) <= j < batch_end(v) ==> symbol_key(#[trigger] self@[j]) == k
        }
        &&& forall|j: int| 0 <= j < self@.len() ==> {
            let k = symbol_key(#[trigger] self@[j]);
            &&& self.entries().contains_key(k)
            &&& batch_start(self.entries()[k]) <= j < batch_end(self.entries()[k])
        }
        &&& sorted_by_key(self@)
    }

    /// Builds the index: sorts the records by lowercased name, then sweeps
    /// left to right, inserting one map entry per maximal run of equal keys.
    /// Both endpoints of each range must fit in 32 bits, which the length
    /// precondition guarantees.
    pub fn new(symbols: Vec<FileSymbol>) -> (r: SymbolIndex)
        requires
            symbols@.len() <= u32::MAX,
        ensures
            r.wf(),
            r@.to_multiset() == symbols.deep_view().to_multiset(),
    {
        let mut symbols = symbols;
        par_sort_by_key(&mut symbols);
        let ghost sorted = symbols.deep_view();

        let mut builder = fst_builder_new();
        let mut last_batch_start: usize = 0;
        let mut idx: usize = 0;
        let n = symbols.len();
        while idx < n
            invariant
                n == symbols@.len(),
                n <= u32::MAX,
                symbols.deep_view() == sorted,
                sorted_by_key(sorted),
                0 <= last_batch_start <= idx <= n,
                idx == n ==> last_batch_start == n,
                forall|j: int|
                    last_batch_start <= j <= idx && j < n ==> symbol_key(#[trigger] sorted[j])
                        == symbol_key(sorted[last_batch_start as int]),
                forall|k: Seq<u8>| #[trigger] fst_builder_entries(builder).contains_key(k)
                    ==> exists|j: int| 0 <= j < last_batch_start && symbol_key(sorted[j]) == k,
                forall|k: Seq<u8>| #[trigger] fst_builder_entries(builder).contains_key(k) ==> {
                    let v = fst_builder_entries(builder)[k];
                    &&& 0 <= batch_start(v) < batch_end(v) <= last_batch_start
                    &&& forall|j: int|
                        batch_start(v) <= j < batch_end(v) ==> symbol_key(#[trigger] sorted[j]) == k
                },
                forall|j: int| 0 <= j < last_batch_start ==> {
                    let k = symbol_key(#[trigger] sorted[j]);
                    let es = fst_builder_entries(builder);
                    &&& es.contains_key(k)
                    &&& batch_start(es[k]) <= j < batch_end(es[k])
                },
                last_batch_start < n ==> forall|k: Seq<u8>|
                    #[trigger] fst_builder_entries(builder).contains_key(k)
                        ==> lex_lt(k, symbol_key(sorted[last_batch_start as int])),
            decreases n - idx,
        {
            let mut close = true;
            if idx + 1 < n {
                let run_key = symbol_lower_key(&symbols[last_batch_start]);
                let next_key = symbol_lower_key(&symbols[idx + 1]);
                if bytes_eq(&run_key, &next_key) {
                    close = false;
                    assert(symbol_key(sorted[idx + 1]) == symbol_key(sorted[last_batch_start as int]));
                }
            }
            if close {
                let start = last_batch_start;
                let end = idx + 1;
                let key = symbol_lower_key(&symbols[start]);
                let value = SymbolIndex::range_to_map_value(start, end);
                proof {
                    if fst_builder_entries(builder).contains_key(key@) {
                        assert(lex_lt(key@, key@));
                        crate::text::lemma_lex_lt_irrefl(key@);
                    }
                }
                let ghost pre = fst_builder_entries(builder);
                fst_builder_insert(&mut builder, &key, value);
                proof {
                    assert forall|k: Seq<u8>| #[trigger] fst_builder_entries(builder).contains_key(k)
                        implies exists|j: int| 0 <= j < end && symbol_key(sorted[j]) == k by {
                        if k == key@ {
                            assert(symbol_key(sorted[start as int]) == k);
                        } else {
                            assert(pre.contains_key(k));
                            let j = choose|j: int| 0 <= j < start && symbol_key(sorted[j]) == k;
                            assert(0 <= j < end && symbol_key(sorted[j]) == k);
                        }
                    }
                    if end < n {
                        assert(lex_leq(symbol_key(sorted[start as int]), symbol_key(sorted[end as int])));
                        assert(symbol_key(sorted[end as int]) != symbol_key(sorted[start as int]));
                        assert forall|k: Seq<u8>|
                            #[trigger] fst_builder_entries(builder).contains_key(k)
                                implies lex_lt(k, symbol_key(sorted[end as int])) by {
                            if k == key@ {
                            } else {
                                lemma_lex_lt_trans(k, key@, symbol_key(sorted[end as int]));
                            }
                        }
                    }
                }
                last_batch_start = end;
            }
            idx = idx + 1;
        }
        let map = fst_builder_finish(builder);
        let r = SymbolIndex { symbols, map };
        assert(r@ == sorted);
        assert(r.wf());
        r
    }

    /// The number of records stored.
    pub fn len(&self) -> (r: usize)
        ensures
            r == self@.len(),
    {
        self.symbols.len()
    }

    /// Bytes held by the index: the FST blob plus the symbol table,
    /// saturating at the address-space bound. Used for diagnostics only.
    pub fn memory_size(&self) -> (r: usize)
        ensures
            r == vstd::math::min(
                usize::MAX as int,
                self.fst_bytes() + self@.len() * vstd::layout::size_of::<FileSymbol>(),
            ),
    {
        let per: usize = core::mem::size_of::<FileSymbol>();
        let table: usize = match self.symbols.len().checked_mul(per) {
            Some(v) => v,
            None => usize::MAX,
        };
        fst_size(&self.map).saturating_add(table)
    }

    /// Borrows the record at position `j`.
    pub fn symbol_at(&self, j: usize) -> (r: &FileSymbol)
        requires
            j < self@.len(),
        ensures
            r@ == self@[j as int],
    {
        &self.symbols[j]
    }

    /// Packs a batch range into a stored map value; both endpoints must fit
    /// in 32 bits.
    pub(crate) fn range_to_map_value(start: usize, end: usize) -> (r: u64)
        requires
            start <= u32::MAX,
            end <= u32::MAX,
        ensures
            r == range_to_value(start as u64, end as u64),
            batch_start(r) == start,
            batch_end(r) == end,
    {
        let r = ((start as u64) << 32) | (end as u64);
        proof {
            let s = start as u64;
            let e = end as u64;
            assert((((s << 32) | e) >> 32) == s && (((s << 32) | e) & 0xffff_ffff) == e)
                by (bit_vector)
                requires
                    s <= 0xffff_ffffu64,
                    e <= 0xffff_ffffu64,
            ;
        }
        r
    }

    /// Unpacks a stored map value into its batch range.
    pub(crate) fn map_value_to_range(value: u64) -> (r: (usize, usize))
        ensures
            r.0 == batch_start(value),
            r.1 == batch_end(value),
    {
        let end = value as u32 as usize;
        let start = (value >> 32) as usize;
        proof {
            assert(value as u32 == (value & 0xffff_ffff) as u32 && (value & 0xffff_ffff)
                <= 0xffff_ffffu64 && (value >> 32) <= 0xffff_ffffu64) by (bit_vector);
        }
        (start, end)
    }
}

/// Relies on `fst`'s map streams: `Map::search` with a `Subsequence`
/// automaton streams exactly the keys of the map that contain the pattern's
/// bytes as an ordered subsequence, in ascending byte order and with their
/// stored values; `OpBuilder::union` merges such streams key by key, tagging
/// each merged key with the list of the streams holding it (each at most
/// once, in no promised order) and the value each one stores.
#[verifier::external_body]
pub(crate) fn fst_union_search(indices: &[&SymbolIndex], pattern: &str) -> (r: Vec<
    (Vec<u8>, Vec<(usize, u64)>),
>)
    ensures
        forall|i: int| 0 <= i < r@.len() ==> is_subseq(pattern.spec_bytes(), #[trigger] r@[i].0@),
        forall|i: int, i2: int| 0 <= i < i2 < r@.len() ==> lex_lt(#[trigger] r@[i].0@, #[trigger] r@[i2].0@),
        forall|i: int, j: int|
            #![trigger r@[i].1@[j]]
            0 <= i < r@.len() && 0 <= j < r@[i].1@.len() ==> {
                let t = r@[i].1@[j].0;
                &&& t < indices@.len()
                &&& indices@[t as int].entries().contains_key(r@[i].0@)
                &&& r@[i].1@[j].1 == indices@[t as int].entries()[r@[i].0@]
            },
        forall|i: int, j: int, j2: int|
            #![trigger r@[i].1@[j], r@[i].1@[j2]]
            0 <= i < r@.len() && 0 <= j < j2 < r@[i].1@.len() ==> r@[i].1@[j].0 != r@[i].1@[j2].0,
        forall|i: int, t: int|
            #![trigger indices@[t].entries().contains_key(r@[i].0@)]
            0 <= i < r@.len() && 0 <= t < indices@.len() && indices@[t].entries().contains_key(
                r@[i].0@,
            ) ==> exists|j: int| 0 <= j < r@[i].1@.len() && #[trigger] r@[i].1@[j].0 == t,
        forall|t: int, k: Seq<u8>|
            #![trigger indices@[t].entries().contains_key(k)]
            0 <= t < indices@.len() && indices@[t].entries().contains_key(k) && is_subseq(
                pattern.spec_bytes(),
                k,
            ) ==> exists|i: int| 0 <= i < r@.len() && #[trigger] r@[i].0@ == k,
{
    let mut op = fst::map::OpBuilder::new();
    for idx in indices.iter() {
        op = op.add(idx.map.search(fst::automaton::Subsequence::new(pattern)));
    }
    let mut stream = op.union();
    let mut r = Vec::new();
    while let Some((key, vals)) = stream.next() {
        r.push((key.to_vec(), vals.iter().map(|iv| (iv.index, iv.value)).collect()));
    }
    r
}

/// Field-wise comparison of two records.
fn file_symbol_eq(a: &FileSymbol, b: &FileSymbol) -> (r: bool)
    ensures
        r == (a@ == b@),
{
    let container_eq = match &a.container_name {
        Some(x) => match &b.container_name {
            Some(y) => *x == *y,
            None => false,
        },
        None => b.container_name.is_none(),
    };
    proof {
        assert(container_eq == (a@.container_name == b@.container_name));
    }
    let name_eq = a.name == b.name;
    let loc_eq = a.loc == b.loc;
    let kind_eq = a.kind == b.kind;
    proof {
        assert(name_eq == (a@.name == b@.name));
        assert(loc_eq == (a@.loc == b@.loc));
        assert(kind_eq == (a@.kind == b@.kind));
    }
    let r = name_eq && loc_eq && kind_eq && container_eq;
    proof {
        if r {
            assert(a@ == b@);
        } else {
            assert(a@ != b@);
        }
    }
    r
}

impl PartialEq for SymbolIndex {
    /// Equality depends only on the records; the FST map is a derived
    /// projection of them.
    fn eq(&self, other: &SymbolIndex) -> (r: bool) {
        proof {
            assert(self@.len() == self.symbols@.len());
            assert(other@.len() == other.symbols@.len());
        }
        if self.symbols.len() != other.symbols.len() {
            proof {
                assert(self@ != other@);
            }
            return false;
        }
        let n = self.symbols.len();
        let mut i: usize = 0;
        while i < n
            invariant
                n == self.symbols@.len(),
                n == other.symbols@.len(),
                0 <= i <= n,
                forall|y: int| 0 <= y < i ==> #[trigger] self@[y] == other@[y],
            decreases n - i,
        {
            if !file_symbol_eq(&self.symbols[i], &other.symbols[i]) {
                proof {
                    assert(self@[i as int] != other@[i as int]);
                }
                return false;
            }
            i = i + 1;
        }
        proof {
            assert(self@ =~= other@);
        }
        true
    }
}

impl vstd::std_specs::cmp::PartialEqSpecImpl for SymbolIndex {
    open spec fn obeys_eq_spec() -> bool {
        true
    }

    open spec fn eq_spec(&self, other: &SymbolIndex) -> bool {
        self@ == other@
    }
}

/// Relies on rayon's `par_sort_by`: reorders the vector into a permutation
/// of itself that is sorted by the comparator. The comparator is the
/// verified three-way comparison of lowercased-name keys, a total order.
#[verifier::external_body]
fn par_sort_by_key(symbols: &mut Vec<FileSymbol>)
    ensures
        final(symbols)@.len() == old(symbols)@.len(),
        final(symbols).deep_view().to_multiset() == old(symbols).deep_view().to_multiset(),
        sorted_by_key(final(symbols).deep_view()),
{
    symbols.par_sort_by(|a, b| symbol_key_cmp(a, b));
}

/// Three-way comparison of two records by their lowercased-name keys.
fn symbol_key_cmp(a: &FileSymbol, b: &FileSymbol) -> (r: core::cmp::Ordering)
    ensures
        r == core::cmp::Ordering::Less <==> lex_lt(symbol_key(a@), symbol_key(b@)),
        r == core::cmp::Ordering::Equal <==> symbol_key(a@) == symbol_key(b@),
        r == core::cmp::Ordering::Greater <==> lex_lt(symbol_key(b@), symbol_key(a@)),
{
    let ka = symbol_lower_key(a);
    let kb = symbol_lower_key(b);
    crate::text::bytes_cmp(&ka, &kb)
}

} // verus!
