//! Query compilation and evaluation: a query string with its flags, and the
//! search that runs a subsequence automaton over the union of the FST maps
//! of many indexes, filters each matched batch, and caps the result count.
use vstd::prelude::*;
use vstd::string::StringSliceAdditionalSpecFns;
use vstd::utf8::{encode_utf8, is_ascii_chars};
use crate::symbols::{FileSymbol, SymbolView, symbol_key, is_type_kind};
use crate::index::{SymbolIndex, batch_start, batch_end, fst_union_search, sorted_by_key};
use crate::text::{is_subseq, lex_lt, lex_leq, contains_char, lower_bytes, all_chars_contained,
    lemma_lex_lt_irrefl};

verus! {

/// The mathematical value of a query: the raw and lowercased query strings
/// as character sequences, the four flags, and the result cap.
pub struct QueryView {
    pub query: Seq<char>,
    pub lowercased: Seq<char>,
    pub only_types: bool,
    pub libs: bool,
    pub exact: bool,
    pub case_sensitive: bool,
    pub limit: int,
}

/// A compiled query: the string as typed, its cached lowercase form, the
/// filter flags, and the maximum number of results to return.
pub struct Query {
    query: String,
    lowercased: String,
    only_types: bool,
    libs: bool,
    exact: bool,
    case_sensitive: bool,
    limit: usize,
}

impl View for Query {
    type V = QueryView;

    closed spec fn view(&self) -> QueryView {
        QueryView {
            query: self.query@,
            lowercased: self.lowercased@,
            only_types: self.only_types,
            libs: self.libs,
            exact: self.exact,
            case_sensitive: self.case_sensitive,
            limit: self.limit as int,
        }
    }
}

/// The Unicode lowercase mapping of a character sequence, as `str::to_lowercase`
/// computes it; a function of the characters alone.
pub uninterp spec fn unicode_lower_of(s: Seq<char>) -> Seq<char>;

/// Relies on `str::to_lowercase`: the result depends on the input characters
/// alone (the Unicode lowercase mapping), and on ASCII input it lowercases
/// exactly the letters `A`..`Z`, so its UTF-8 bytes are the ASCII-lowercased
/// bytes of the input.
#[verifier::external_body]
fn to_lowercase(s: &str) -> (r: String)
    ensures
        r@ == unicode_lower_of(s@),
        is_ascii_chars(s@) ==> encode_utf8(r@) == lower_bytes(encode_utf8(s@)),
{
    s.to_lowercase()
}

impl Query {
    /// Compiles a query string: caches its lowercase form, clears every
    /// flag, and leaves the result count unbounded.
    pub fn new(query: String) -> (r: Query)
        ensures
            r@.query == query@,
            r@.lowercased == unicode_lower_of(query@),
            is_ascii_chars(query@) ==> encode_utf8(r@.lowercased) == lower_bytes(
                encode_utf8(query@),
            ),
            !r@.only_types && !r@.libs && !r@.exact && !r@.case_sensitive,
            r@.limit == usize::MAX,
    {
        let lowercased = to_lowercase(query.as_str());
        Query {
            query,
            lowercased,
            only_types: false,
            libs: false,
            exact: false,
            case_sensitive: false,
            limit: usize::MAX,
        }
    }

    /// Restricts the results to records whose kind introduces a type.
    pub fn only_types(&mut self)
        ensures
            final(self)@ == (QueryView { only_types: true, ..old(self)@ }),
    {
        self.only_types = true;
    }

    /// Directs the search at the dependency (library) indexes.
    pub fn libs(&mut self)
        ensures
            final(self)@ == (QueryView { libs: true, ..old(self)@ }),
    {
        self.libs = true;
    }

    /// Restricts the results to records whose name equals the query exactly.
    pub fn exact(&mut self)
        ensures
            final(self)@ == (QueryView { exact: true, ..old(self)@ }),
    {
        self.exact = true;
    }

    /// Requires every character of the query to occur in the original-case
    /// name of each result.
    pub fn case_sensitive(&mut self)
        ensures
            final(self)@ == (QueryView { case_sensitive: true, ..old(self)@ }),
    {
        self.case_sensitive = true;
    }

    /// Caps the number of results.
    pub fn limit(&mut self, limit: usize)
        ensures
            final(self)@ == (QueryView { limit: limit as int, ..old(self)@ }),
    {
        self.limit = limit;
    }

    /// Whether the query targets the library indexes.
    pub(crate) fn is_libs(&self) -> (r: bool)
        ensures
            r == self@.libs,
    {
        self.libs
    }
}

/// A record passes the query's filters: its lowercased name contains the
/// lowercased query's bytes as an ordered subsequence (the automaton's
/// test); it is a type if `only_types` demands so; under `exact` its name
/// equals the query byte for byte; and under `case_sensitive` without
/// `exact`, every character of the query occurs somewhere in the
/// original-case name.
pub open spec fn accepted(q: QueryView, s: SymbolView) -> bool {
    &&& is_subseq(encode_utf8(q.lowercased), symbol_key(s))
    &&& q.only_types ==> is_type_kind(s.kind)
    &&& q.exact ==> s.name == q.query
    &&& !q.exact && q.case_sensitive ==> (forall|i: int|
        0 <= i < q.query.len() ==> contains_char(s.name, #[trigger] q.query[i]))
}

/// The record `s` is stored in one of the given indexes.
pub open spec fn appears_in(indices: Seq<&SymbolIndex>, s: SymbolView) -> bool {
    exists|t: int, j: int|
        0 <= t < indices.len() && 0 <= j < indices[t]@.len() && #[trigger] indices[t]@[j] == s
}

/// Some hit among the first `upto` carries the key `k`.
pub open spec fn key_hit(hits: Seq<(Vec<u8>, Vec<(usize, u64)>)>, upto: int, k: Seq<u8>) -> bool {
    exists|h: int| 0 <= h < upto && #[trigger] hits[h].0@ == k
}

/// Every accepted record of index `t` whose key is `k` occurs in `rs`.
pub open spec fn batch_collected(
    q: QueryView,
    indices: Seq<&SymbolIndex>,
    t: int,
    k: Seq<u8>,
    rs: Seq<SymbolView>,
) -> bool {
    forall|p: int|
        0 <= p < indices[t]@.len() && symbol_key(#[trigger] indices[t]@[p]) == k && accepted(
            q,
            indices[t]@[p],
        ) ==> rs.contains(indices[t]@[p])
}

/// The stored pair named for result position `x` holds that position's
/// record.
pub open spec fn origin_ok(
    indices: Seq<&SymbolIndex>,
    rs: Seq<SymbolView>,
    origins: Seq<(int, int)>,
    x: int,
) -> bool {
    let (t, p) = origins[x];
    &&& 0 <= t < indices.len()
    &&& 0 <= p < indices[t]@.len()
    &&& indices[t]@[p] == rs[x]
}

/// The pair `(t, p)` occurs among the named origins.
pub open spec fn pair_listed(origins: Seq<(int, int)>, t: int, p: int) -> bool {
    exists|x: int| 0 <= x < origins.len() && #[trigger] origins[x] == (t, p)
}

/// Every accepted position of index `t` whose record carries the key `k` is
/// named among the origins.
pub open spec fn batch_pairs_listed(
    q: QueryView,
    indices: Seq<&SymbolIndex>,
    t: int,
    k: Seq<u8>,
    origins: Seq<(int, int)>,
) -> bool {
    forall|p: int|
        0 <= p < indices[t]@.len() && symbol_key(#[trigger] indices[t]@[p]) == k && accepted(
            q,
            indices[t]@[p],
        ) ==> pair_listed(origins, t, p)
}

/// The key of the record behind one named origin.
pub open spec fn origin_key(
    indices: Seq<&SymbolIndex>,
    origins: Seq<(int, int)>,
    x: int,
) -> Seq<u8> {
    symbol_key(indices[origins[x].0]@[origins[x].1])
}

/// The evaluation order on stored positions: ascending lowercased name,
/// ties broken by index id, then by position within the batch.
pub open spec fn origin_lt(
    indices: Seq<&SymbolIndex>,
    origins: Seq<(int, int)>,
    x: int,
    y: int,
) -> bool {
    ||| lex_lt(origin_key(indices, origins, x), origin_key(indices, origins, y))
    ||| (origin_key(indices, origins, x) == origin_key(indices, origins, y) && (origins[x].0
        < origins[y].0 || (origins[x].0 == origins[y].0 && origins[x].1 < origins[y].1)))
}

/// Result positions map one-to-one onto stored positions: each result
/// position names an (index, position) pair holding exactly its record, no
/// pair repeats, and below the cap every accepted stored position is named.
/// This pins the result's multiset: a record cannot appear more often than
/// it is stored and accepted, and below the cap it appears exactly once per
/// accepted stored position.
pub open spec fn search_origins(
    q: QueryView,
    indices: Seq<&SymbolIndex>,
    rs: Seq<SymbolView>,
    origins: Seq<(int, int)>,
) -> bool {
    &&& origins.len() == rs.len()
    &&& forall|x: int| 0 <= x < origins.len() ==> origin_ok(indices, rs, origins, x)
    &&& forall|x: int, y: int|
        #![trigger origins[x], origins[y]]
        0 <= x < y < origins.len() ==> origins[x] != origins[y]
    &&& forall|x: int, y: int|
        #![trigger origins[x], origins[y]]
        0 <= x < y < origins.len() ==> origin_lt(indices, origins, x, y)
    &&& rs.len() < q.limit ==> forall|t: int, p: int|
        0 <= t < indices.len() && 0 <= p < indices[t]@.len() && accepted(
            q,
            #[trigger] indices[t]@[p],
        ) ==> pair_listed(origins, t, p)
    &&& rs.len() == q.limit && rs.len() > 0 ==> forall|t: int, p: int|
        0 <= t < indices.len() && 0 <= p < indices[t]@.len() && accepted(
            q,
            #[trigger] indices[t]@[p],
        ) && !pair_listed(origins, t, p) ==> lex_leq(
            symbol_key(rs[rs.len() - 1]),
            symbol_key(indices[t]@[p]),
        )
}

/// Inserting one element anywhere in a sequence adds it to the multiset.
proof fn lemma_seq_insert_to_multiset(s: Seq<(usize, u64)>, i: int, v: (usize, u64))
    requires
        0 <= i <= s.len(),
    ensures
        s.insert(i, v).to_multiset() == s.to_multiset().insert(v),
{
    vstd::seq_lib::lemma_multiset_commutative(s.subrange(0, i).push(v), s.subrange(i, s.len() as int));
    vstd::seq_lib::lemma_multiset_commutative(s.subrange(0, i), s.subrange(i, s.len() as int));
    s.subrange(0, i).to_multiset_ensures();
    assert(s.insert(i, v) =~= s.subrange(0, i).push(v) + s.subrange(i, s.len() as int));
    assert(s =~= s.subrange(0, i) + s.subrange(i, s.len() as int));
    assert(s.insert(i, v).to_multiset() =~= s.to_multiset().insert(v));
}

/// Sorts one key's occurrence list by stream index, ascending: a permuted
/// copy, so that results within one key come out in index order.
fn sort_occurrences(occs: &Vec<(usize, u64)>) -> (r: Vec<(usize, u64)>)
    ensures
        r@.to_multiset() == occs@.to_multiset(),
        r@.len() == occs@.len(),
        forall|a: int, b: int|
            0 <= a < b < r@.len() ==> (#[trigger] r@[a]).0 <= (#[trigger] r@[b]).0,
{
    let mut r: Vec<(usize, u64)> = Vec::new();
    let mut i: usize = 0;
    proof {
        r@.to_multiset_ensures();
        occs@.subrange(0, 0).to_multiset_ensures();
        assert(r@.to_multiset() =~= occs@.subrange(0, 0).to_multiset());
    }
    while i < occs.len()
        invariant
            0 <= i <= occs@.len(),
            r@.len() == i,
            r@.to_multiset() == occs@.subrange(0, i as int).to_multiset(),
            forall|a: int, b: int|
                0 <= a < b < r@.len() ==> (#[trigger] r@[a]).0 <= (#[trigger] r@[b]).0,
        decreases occs@.len() - i,
    {
        let item = occs[i];
        let mut j: usize = r.len();
        while j > 0 && r[j - 1].0 > item.0
            invariant
                0 <= j <= r@.len(),
                forall|y: int| j <= y < r@.len() ==> (#[trigger] r@[y]).0 > item.0,
                forall|a: int, b: int|
                    0 <= a < b < r@.len() ==> (#[trigger] r@[a]).0 <= (#[trigger] r@[b]).0,
            decreases j,
        {
            j = j - 1;
        }
        let ghost pre = r@;
        r.insert(j, item);
        proof {
            lemma_seq_insert_to_multiset(pre, j as int, item);
            assert(occs@.subrange(0, i as int + 1) =~= occs@.subrange(0, i as int).push(
                occs@[i as int],
            ));
            occs@.subrange(0, i as int).to_multiset_ensures();
            assert(r@.to_multiset() =~= occs@.subrange(0, i as int + 1).to_multiset());
            assert forall|a: int, b: int| 0 <= a < b < r@.len() implies (#[trigger] r@[a]).0 <= (
            #[trigger] r@[b]).0 by {
                if a < j && b == j {
                    assert(r@[a] == pre[a]);
                    if j > 0 {
                        assert(pre[j - 1].0 <= item.0 && pre[a].0 <= pre[j - 1].0);
                    }
                } else if a == j {
                    assert(r@[b] == pre[b - 1] && pre[b - 1].0 > item.0);
                } else if a < j && b > j {
                    assert(r@[a] == pre[a] && r@[b] == pre[b - 1]);
                } else if a > j {
                    assert(r@[a] == pre[a - 1] && r@[b] == pre[b - 1]);
                } else {
                    assert(r@[a] == pre[a] && r@[b] == pre[b]);
                }
            }
        }
        i = i + 1;
    }
    proof {
        assert(occs@.subrange(0, occs@.len() as int) =~= occs@);
    }
    r
}

/// What `search` promises: no more than `limit` results; every result is an
/// accepted record of one of the indexes; results come in ascending order of
/// lowercased name; the results map one-to-one onto accepted stored
/// positions (exactly below the cap); and when the cap was not reached,
/// every accepted record of every index is among the results.
pub open spec fn is_search_result(
    q: QueryView,
    indices: Seq<&SymbolIndex>,
    rs: Seq<SymbolView>,
) -> bool {
    &&& rs.len() <= q.limit
    &&& forall|x: int| 0 <= x < rs.len() ==> accepted(q, #[trigger] rs[x]) && appears_in(indices, rs[x])
    &&& sorted_by_key(rs)
    &&& rs.len() < q.limit ==> forall|t: int, p: int|
        0 <= t < indices.len() && 0 <= p < indices[t]@.len() && accepted(
            q,
            #[trigger] indices[t]@[p],
        ) ==> rs.contains(indices[t]@[p])
    &&& exists|origins: Seq<(int, int)>| search_origins(q, indices, rs, origins)
}

impl Query {
    /// Evaluates the query over the given indexes: runs the subsequence
    /// automaton over the union of their FST maps, scans each matched batch
    /// in key order, applies the flag filters, and returns as soon as
    /// `limit` records are collected.
    pub fn search(self, indices: &[&SymbolIndex]) -> (r: Vec<FileSymbol>)
        requires
            forall|t: int| 0 <= t < indices@.len() ==> (#[trigger] indices@[t]).wf(),
        ensures
            is_search_result(self@, indices@, r.deep_view()),
    {
        let mut res: Vec<FileSymbol> = Vec::new();
        let ghost mut origins: Seq<(int, int)> = Seq::empty();
        if self.limit == 0 {
            assert(res.deep_view() =~= Seq::<SymbolView>::empty());
            assert(search_origins(self@, indices@, res.deep_view(), origins));
            return res;
        }
        let ghost q = self@;
        let pattern = self.lowercased.as_str();
        assert(pattern.spec_bytes() == encode_utf8(q.lowercased));
        let ghost pat = encode_utf8(q.lowercased);
        let hits = fst_union_search(indices, pattern);
        let mut i: usize = 0;
        while i < hits.len()
            invariant
                forall|t: int| 0 <= t < indices@.len() ==> (#[trigger] indices@[t]).wf(),
                q == self@,
                pat == encode_utf8(q.lowercased),
                0 <= i <= hits@.len(),
                res.deep_view().len() < q.limit,
                forall|x: int|
                    0 <= x < res.deep_view().len() ==> accepted(q, #[trigger] res.deep_view()[x])
                        && appears_in(indices@, res.deep_view()[x]),
                sorted_by_key(res.deep_view()),
                forall|x: int|
                    0 <= x < res.deep_view().len() ==> key_hit(
                        hits@,
                        i as int,
                        symbol_key(#[trigger] res.deep_view()[x]),
                    ),
                forall|t: int, p: int|
                    0 <= t < indices@.len() && 0 <= p < indices@[t]@.len() && accepted(
                        q,
                        #[trigger] indices@[t]@[p],
                    ) && key_hit(hits@, i as int, symbol_key(indices@[t]@[p]))
                        ==> res.deep_view().contains(indices@[t]@[p]),
                origins.len() == res.deep_view().len(),
                forall|x: int| 0 <= x < origins.len() ==> origin_ok(
                    indices@,
                    res.deep_view(),
                    origins,
                    x,
                ),
                forall|x: int, y: int|
                    #![trigger origins[x], origins[y]]
                    0 <= x < y < origins.len() ==> origins[x] != origins[y],
                forall|x: int, y: int|
                    #![trigger origins[x], origins[y]]
                    0 <= x < y < origins.len() ==> origin_lt(indices@, origins, x, y),
                forall|x: int|
                    #![trigger origins[x]]
                    0 <= x < origins.len() ==> key_hit(
                        hits@,
                        i as int,
                        origin_key(indices@, origins, x),
                    ),
                forall|t: int, p: int|
                    0 <= t < indices@.len() && 0 <= p < indices@[t]@.len() && accepted(
                        q,
                        #[trigger] indices@[t]@[p],
                    ) && key_hit(hits@, i as int, symbol_key(indices@[t]@[p])) ==> pair_listed(
                        origins,
                        t,
                        p,
                    ),
                forall|h: int, j1: int, j2: int|
                    #![trigger hits@[h].1@[j1], hits@[h].1@[j2]]
                    0 <= h < hits@.len() && 0 <= j1 < j2 < hits@[h].1@.len() ==> hits@[h].1@[j1].0
                        != hits@[h].1@[j2].0,
                forall|i1: int, i2: int| 0 <= i1 < i2 < hits@.len() ==> lex_lt(
                    #[trigger] hits@[i1].0@,
                    #[trigger] hits@[i2].0@,
                ),
                forall|h: int| 0 <= h < hits@.len() ==> is_subseq(pat, #[trigger] hits@[h].0@),
                forall|h: int, j: int|
                    #![trigger hits@[h].1@[j]]
                    0 <= h < hits@.len() && 0 <= j < hits@[h].1@.len() ==> {
                        let t = hits@[h].1@[j].0;
                        &&& t < indices@.len()
                        &&& indices@[t as int].entries().contains_key(hits@[h].0@)
                        &&& hits@[h].1@[j].1 == indices@[t as int].entries()[hits@[h].0@]
                    },
                forall|h: int, t: int|
                    #![trigger indices@[t].entries().contains_key(hits@[h].0@)]
                    0 <= h < hits@.len() && 0 <= t < indices@.len()
                        && indices@[t].entries().contains_key(hits@[h].0@) ==> exists|j: int|
                        0 <= j < hits@[h].1@.len() && #[trigger] hits@[h].1@[j].0 == t,
                forall|t: int, k: Seq<u8>|
                    #![trigger indices@[t].entries().contains_key(k)]
                    0 <= t < indices@.len() && indices@[t].entries().contains_key(k) && is_subseq(
                        pat,
                        k,
                    ) ==> key_hit(hits@, hits@.len() as int, k),
            decreases hits@.len() - i,
        {
            let ghost k = hits@[i as int].0@;
            let occs = sort_occurrences(&hits[i].1);
            proof {
                let orig = hits@[i as int].1@;
                occs@.to_multiset_ensures();
                orig.to_multiset_ensures();
                assert forall|jo: int| 0 <= jo < occs@.len() implies {
                    let t = (#[trigger] occs@[jo]).0;
                    &&& t < indices@.len()
                    &&& indices@[t as int].entries().contains_key(k)
                    &&& occs@[jo].1 == indices@[t as int].entries()[k]
                } by {
                    assert(occs@.to_multiset().count(occs@[jo]) > 0);
                    assert(orig.contains(occs@[jo]));
                    let j2 = choose|j2: int| 0 <= j2 < orig.len() && orig[j2] == occs@[jo];
                    assert(hits@[i as int].1@[j2] == occs@[jo]);
                }
                assert forall|a: int, b: int| 0 <= a < b < occs@.len() implies (
                #[trigger] occs@[a]).0 < (#[trigger] occs@[b]).0 by {
                    if occs@[a].0 == occs@[b].0 {
                        if occs@[a] == occs@[b] {
                            let ra = occs@.remove(a);
                            occs@.to_multiset_ensures();
                            ra.to_multiset_ensures();
                            assert(ra[b - 1] == occs@[b]);
                            assert(ra.contains(occs@[b]));
                            assert(orig.to_multiset().count(occs@[b]) >= 2) by {
                                assert(occs@.to_multiset() =~= ra.to_multiset().insert(occs@[a]));
                            }
                            let ja = choose|ja: int| 0 <= ja < orig.len() && orig[ja] == occs@[b];
                            let ro = orig.remove(ja);
                            orig.to_multiset_ensures();
                            ro.to_multiset_ensures();
                            assert(orig.to_multiset() =~= ro.to_multiset().insert(orig[ja]));
                            assert(ro.to_multiset().count(occs@[b]) >= 1);
                            assert(ro.contains(occs@[b]));
                            let jb = choose|jb: int| 0 <= jb < ro.len() && ro[jb] == occs@[b];
                            if jb < ja {
                                assert(orig[jb] == occs@[b]);
                                assert(hits@[i as int].1@[jb].0 == hits@[i as int].1@[ja].0);
                            } else {
                                assert(orig[jb + 1] == occs@[b]);
                                assert(hits@[i as int].1@[ja].0 == hits@[i as int].1@[jb + 1].0);
                            }
                        } else {
                            assert(occs@.to_multiset().count(occs@[a]) > 0);
                            assert(orig.contains(occs@[a]));
                            assert(occs@.to_multiset().count(occs@[b]) > 0);
                            assert(orig.contains(occs@[b]));
                            let ja = choose|ja: int| 0 <= ja < orig.len() && orig[ja] == occs@[a];
                            let jb = choose|jb: int| 0 <= jb < orig.len() && orig[jb] == occs@[b];
                            assert(ja != jb);
                            assert(hits@[i as int].1@[ja].0 == hits@[i as int].1@[jb].0);
                        }
                    }
                }
                assert forall|t: int|
                    0 <= t < indices@.len() && indices@[t].entries().contains_key(k) implies exists|
                    jo: int,
                |
                    0 <= jo < occs@.len() && (#[trigger] occs@[jo]).0 as int == t by {
                    let j2 = choose|j2: int|
                        0 <= j2 < hits@[i as int].1@.len() && #[trigger] hits@[i as int].1@[j2].0
                            == t;
                    assert(orig.contains(orig[j2]));
                    assert(occs@.to_multiset().count(orig[j2]) > 0);
                    assert(occs@.contains(orig[j2]));
                    let jo = choose|jo: int| 0 <= jo < occs@.len() && occs@[jo] == orig[j2];
                    assert((occs@[jo]).0 as int == t);
                }
            }
            let mut j: usize = 0;
            while j < occs.len()
                invariant
                    forall|t: int| 0 <= t < indices@.len() ==> (#[trigger] indices@[t]).wf(),
                    q == self@,
                    pat == encode_utf8(q.lowercased),
                    0 <= i < hits@.len(),
                    k == hits@[i as int].0@,
                    forall|jo: int|
                        0 <= jo < occs@.len() ==> {
                            let t = (#[trigger] occs@[jo]).0;
                            &&& t < indices@.len()
                            &&& indices@[t as int].entries().contains_key(k)
                            &&& occs@[jo].1 == indices@[t as int].entries()[k]
                        },
                    forall|a: int, b: int|
                        0 <= a < b < occs@.len() ==> (#[trigger] occs@[a]).0 < (
                        #[trigger] occs@[b]).0,
                    forall|t: int|
                        0 <= t < indices@.len() && indices@[t].entries().contains_key(k)
                            ==> exists|jo: int|
                            0 <= jo < occs@.len() && (#[trigger] occs@[jo]).0 as int == t,
                    0 <= j <= occs@.len(),
                    res.deep_view().len() < q.limit,
                    forall|x: int|
                        0 <= x < res.deep_view().len() ==> accepted(
                            q,
                            #[trigger] res.deep_view()[x],
                        ) && appears_in(indices@, res.deep_view()[x]),
                    sorted_by_key(res.deep_view()),
                    forall|x: int|
                        0 <= x < res.deep_view().len() ==> key_hit(
                            hits@,
                            i as int + 1,
                            symbol_key(#[trigger] res.deep_view()[x]),
                        ),
                    forall|t: int, p: int|
                        0 <= t < indices@.len() && 0 <= p < indices@[t]@.len() && accepted(
                            q,
                            #[trigger] indices@[t]@[p],
                        ) && key_hit(hits@, i as int, symbol_key(indices@[t]@[p]))
                            ==> res.deep_view().contains(indices@[t]@[p]),
                    forall|jo: int|
                        0 <= jo < j ==> batch_collected(
                            q,
                            indices@,
                            #[trigger] occs@[jo].0 as int,
                            k,
                            res.deep_view(),
                        ),
                    origins.len() == res.deep_view().len(),
                    forall|x: int| 0 <= x < origins.len() ==> origin_ok(
                        indices@,
                        res.deep_view(),
                        origins,
                        x,
                    ),
                    forall|x: int, y: int|
                        #![trigger origins[x], origins[y]]
                        0 <= x < y < origins.len() ==> origins[x] != origins[y],
                    forall|x: int, y: int|
                        #![trigger origins[x], origins[y]]
                        0 <= x < y < origins.len() ==> origin_lt(indices@, origins, x, y),
                    forall|x: int|
                        #![trigger origins[x]]
                        0 <= x < origins.len() ==> key_hit(
                            hits@,
                            i as int,
                            origin_key(indices@, origins, x),
                        ) || (origin_key(indices@, origins, x) == k && exists|jo: int|
                            0 <= jo < j && (#[trigger] occs@[jo]).0 as int == origins[x].0),
                    forall|t: int, p: int|
                        0 <= t < indices@.len() && 0 <= p < indices@[t]@.len() && accepted(
                            q,
                            #[trigger] indices@[t]@[p],
                        ) && key_hit(hits@, i as int, symbol_key(indices@[t]@[p])) ==> pair_listed(
                            origins,
                            t,
                            p,
                        ),
                    forall|jo: int|
                        0 <= jo < j ==> batch_pairs_listed(
                            q,
                            indices@,
                            #[trigger] occs@[jo].0 as int,
                            k,
                            origins,
                        ),

                    forall|i1: int, i2: int| 0 <= i1 < i2 < hits@.len() ==> lex_lt(
                        #[trigger] hits@[i1].0@,
                        #[trigger] hits@[i2].0@,
                    ),
                    forall|h: int| 0 <= h < hits@.len() ==> is_subseq(pat, #[trigger] hits@[h].0@),
                    forall|h: int, j2: int|
                        #![trigger hits@[h].1@[j2]]
                        0 <= h < hits@.len() && 0 <= j2 < hits@[h].1@.len() ==> {
                            let t = hits@[h].1@[j2].0;
                            &&& t < indices@.len()
                            &&& indices@[t as int].entries().contains_key(hits@[h].0@)
                            &&& hits@[h].1@[j2].1 == indices@[t as int].entries()[hits@[h].0@]
                        },
                    forall|t: int, k2: Seq<u8>|
                        #![trigger indices@[t].entries().contains_key(k2)]
                        0 <= t < indices@.len() && indices@[t].entries().contains_key(k2)
                            && is_subseq(pat, k2) ==> key_hit(hits@, hits@.len() as int, k2),
                decreases occs@.len() - j,
            {
                let tv: (usize, u64) = occs[j];
                let t = tv.0;
                let idx: &SymbolIndex = *vstd::slice::slice_index_get(indices, t);
                assert(idx.wf());
                let ghost v = tv.1;
                assert(indices@[t as int].entries().contains_key(k) && v
                    == indices@[t as int].entries()[k]);
                let range = SymbolIndex::map_value_to_range(tv.1);
                let start = range.0;
                let end = range.1;
                assert(0 <= start < end <= idx@.len());
                let mut p: usize = start;
                while p < end
                    invariant
                        forall|tt: int| 0 <= tt < indices@.len() ==> (#[trigger] indices@[tt]).wf(),
                        q == self@,
                        pat == encode_utf8(q.lowercased),
                        0 <= i < hits@.len(),
                        k == hits@[i as int].0@,
                        is_subseq(pat, k),
                        0 <= t < indices@.len(),
                        idx == indices@[t as int],
                        indices@[t as int].entries().contains_key(k),
                        start == batch_start(indices@[t as int].entries()[k]),
                        end == batch_end(indices@[t as int].entries()[k]),
                        0 <= start <= p <= end <= idx@.len(),
                        forall|p2: int| start <= p2 < end ==> symbol_key(#[trigger] idx@[p2]) == k,
                        res.deep_view().len() < q.limit,
                        forall|x: int|
                            0 <= x < res.deep_view().len() ==> accepted(
                                q,
                                #[trigger] res.deep_view()[x],
                            ) && appears_in(indices@, res.deep_view()[x]),
                        sorted_by_key(res.deep_view()),
                        forall|x: int|
                            0 <= x < res.deep_view().len() ==> key_hit(
                                hits@,
                                i as int + 1,
                                symbol_key(#[trigger] res.deep_view()[x]),
                            ),
                        forall|tt: int, pp: int|
                            0 <= tt < indices@.len() && 0 <= pp < indices@[tt]@.len() && accepted(
                                q,
                                #[trigger] indices@[tt]@[pp],
                            ) && key_hit(hits@, i as int, symbol_key(indices@[tt]@[pp]))
                                ==> res.deep_view().contains(indices@[tt]@[pp]),
                        forall|jo: int|
                            0 <= jo < j ==> batch_collected(
                                q,
                                indices@,
                                #[trigger] occs@[jo].0 as int,
                                k,
                                res.deep_view(),
                            ),
                        forall|p2: int|
                            start <= p2 < p && accepted(q, #[trigger] idx@[p2])
                                ==> res.deep_view().contains(idx@[p2]),
                        0 <= j < occs@.len(),
                        t == occs@[j as int].0,
                        origins.len() == res.deep_view().len(),
                        forall|x: int| 0 <= x < origins.len() ==> origin_ok(
                            indices@,
                            res.deep_view(),
                            origins,
                            x,
                        ),
                        forall|x: int, y: int|
                            #![trigger origins[x], origins[y]]
                            0 <= x < y < origins.len() ==> origins[x] != origins[y],
                        forall|x: int, y: int|
                            #![trigger origins[x], origins[y]]
                            0 <= x < y < origins.len() ==> origin_lt(indices@, origins, x, y),
                        forall|x: int|
                            #![trigger origins[x]]
                            0 <= x < origins.len() ==> key_hit(
                                hits@,
                                i as int,
                                origin_key(indices@, origins, x),
                            ) || (origin_key(indices@, origins, x) == k && ((exists|jo: int|
                                0 <= jo < j && (#[trigger] occs@[jo]).0 as int == origins[x].0) || (
                            origins[x].0 == t as int && start <= origins[x].1 < p))),
                        forall|tt: int, pp: int|
                            0 <= tt < indices@.len() && 0 <= pp < indices@[tt]@.len() && accepted(
                                q,
                                #[trigger] indices@[tt]@[pp],
                            ) && key_hit(hits@, i as int, symbol_key(indices@[tt]@[pp]))
                                ==> pair_listed(origins, tt, pp),
                        forall|jo: int|
                            0 <= jo < j ==> batch_pairs_listed(
                                q,
                                indices@,
                                #[trigger] occs@[jo].0 as int,
                                k,
                                origins,
                            ),
                        forall|p2: int|
                            start <= p2 < p && accepted(q, #[trigger] idx@[p2]) ==> pair_listed(
                                origins,
                                t as int,
                                p2,
                            ),
                        forall|j1: int, j2: int|
                            0 <= j1 < j2 < occs@.len() ==> (#[trigger] occs@[j1]).0 < (
                            #[trigger] occs@[j2]).0,
                        forall|t2: int, k2: Seq<u8>|
                            #![trigger indices@[t2].entries().contains_key(k2)]
                            0 <= t2 < indices@.len() && indices@[t2].entries().contains_key(k2)
                                && is_subseq(pat, k2) ==> key_hit(hits@, hits@.len() as int, k2),
                        forall|i1: int, i2: int| 0 <= i1 < i2 < hits@.len() ==> lex_lt(
                            #[trigger] hits@[i1].0@,
                            #[trigger] hits@[i2].0@,
                        ),
                    decreases end - p,
                {
                    let sym = idx.symbol_at(p);
                    assert(sym@ == idx@[p as int] && symbol_key(sym@) == k);
                    let type_ok = !self.only_types || sym.kind.is_type();
                    let name_ok = if self.exact {
                        sym.name == self.query
                    } else if self.case_sensitive {
                        all_chars_contained(self.query.as_str(), sym.name.as_str())
                    } else {
                        true
                    };
                    let keep = type_ok && name_ok;
                    proof {
                        assert(type_ok == (q.only_types ==> is_type_kind(sym@.kind)));
                        if q.exact {
                            assert(name_ok == (sym@.name == q.query));
                        } else if q.case_sensitive {
                            assert(self.query@ == q.query && sym.name@ == sym@.name);
                            if name_ok {
                                assert forall|c: int| 0 <= c < q.query.len() implies contains_char(
                                    sym@.name,
                                    #[trigger] q.query[c],
                                ) by {
                                    assert(contains_char(sym.name@, self.query@[c]));
                                }
                            } else {
                                let w = choose|w: int|
                                    !(0 <= w < self.query@.len() ==> contains_char(
                                        sym.name@,
                                        self.query@[w],
                                    ));
                                assert(!(0 <= w < q.query.len() ==> contains_char(
                                    sym@.name,
                                    q.query[w],
                                )));
                            }
                        }
                        assert(keep == accepted(q, idx@[p as int]));
                    }
                    if keep {
                        let ghost before = res.deep_view();
                        let ghost beforeo = origins;
                        res.push(sym.clone());
                        proof {
                            origins = origins.push((t as int, p as int));
                            assert(res.deep_view() =~= before.push(idx@[p as int]));
                            assert forall|x: SymbolView| before.contains(x) implies res.deep_view()
                                .contains(x) by {
                                let w = choose|w: int| 0 <= w < before.len() && before[w] == x;
                                assert(res.deep_view()[w] == x);
                            }
                            assert(res.deep_view()[before.len() as int] == idx@[p as int]);
                            assert(res.deep_view().contains(idx@[p as int]));
                            assert(origins[beforeo.len() as int] == (t as int, p as int));
                            assert(pair_listed(origins, t as int, p as int));
                            assert forall|tt: int, pp: int|
                                pair_listed(beforeo, tt, pp) implies pair_listed(
                                origins,
                                tt,
                                pp,
                            ) by {
                                let w = choose|w: int|
                                    0 <= w < beforeo.len() && #[trigger] beforeo[w] == (tt, pp);
                                assert(origins[w] == (tt, pp));
                            }
                            assert forall|x: int| 0 <= x < beforeo.len() implies beforeo[x] != (
                                t as int,
                                p as int,
                            ) by {
                                if key_hit(hits@, i as int, origin_key(indices@, beforeo, x)) {
                                    if beforeo[x] == (t as int, p as int) {
                                        let h = choose|h: int|
                                            0 <= h < i as int && #[trigger] hits@[h].0@
                                                == origin_key(indices@, beforeo, x);
                                        assert(origin_key(indices@, beforeo, x) == k);
                                        assert(lex_lt(hits@[h].0@, hits@[i as int].0@));
                                        lemma_lex_lt_irrefl(k);
                                    }
                                } else {
                                    if beforeo[x] == (t as int, p as int) {
                                        if exists|jo: int|
                                            0 <= jo < j && (#[trigger] occs@[jo]).0 as int
                                                == beforeo[x].0 {
                                            let jo = choose|jo: int|
                                                0 <= jo < j && (#[trigger] occs@[jo]).0 as int
                                                    == beforeo[x].0;
                                            assert(occs@[jo].0 != occs@[j as int].0);
                                        }
                                    }
                                }
                            }
                            assert forall|x: int| 0 <= x < beforeo.len() implies origin_lt(
                                indices@,
                                origins,
                                x,
                                beforeo.len() as int,
                            ) by {
                                assert(origins[beforeo.len() as int] == (t as int, p as int));
                                assert(origin_key(indices@, origins, beforeo.len() as int) == k);
                                assert(origins[x] == beforeo[x]);
                                if key_hit(hits@, i as int, origin_key(indices@, beforeo, x)) {
                                    let h = choose|h: int|
                                        0 <= h < i as int && #[trigger] hits@[h].0@ == origin_key(
                                            indices@,
                                            beforeo,
                                            x,
                                        );
                                    assert(lex_lt(hits@[h].0@, hits@[i as int].0@));
                                } else {
                                    assert(origin_key(indices@, origins, x) == k);
                                    if exists|jo: int|
                                        0 <= jo < j && (#[trigger] occs@[jo]).0 as int
                                            == beforeo[x].0 {
                                        let jo = choose|jo: int|
                                            0 <= jo < j && (#[trigger] occs@[jo]).0 as int
                                                == beforeo[x].0;
                                        assert((occs@[jo]).0 < occs@[j as int].0);
                                    }
                                }
                            }
                            assert forall|x: int| 0 <= x < origins.len() implies origin_ok(
                                indices@,
                                res.deep_view(),
                                origins,
                                x,
                            ) by {
                                if x < beforeo.len() {
                                    assert(origin_ok(indices@, before, beforeo, x));
                                    assert(origins[x] == beforeo[x] && res.deep_view()[x]
                                        == before[x]);
                                }
                            }
                            assert(appears_in(indices@, idx@[p as int]));
                            assert(key_hit(hits@, i as int + 1, symbol_key(idx@[p as int])));
                            assert forall|x: int, y: int|
                                0 <= x <= y < res.deep_view().len() implies lex_leq(
                                symbol_key(res.deep_view()[x]),
                                symbol_key(res.deep_view()[y]),
                            ) by {
                                if y == res.deep_view().len() - 1 && x < y {
                                    let kx = symbol_key(before[x]);
                                    let h = choose|h: int|
                                        0 <= h < i as int + 1 && hits@[h].0@ == kx;
                                    if h < i as int {
                                        assert(lex_lt(hits@[h].0@, hits@[i as int].0@));
                                    }
                                }
                            }
                        }
                        if res.len() >= self.limit {
                            proof {
                                assert(res.deep_view().len() == res@.len());
                                assert forall|tt: int, pp: int|
                                    0 <= tt < indices@.len() && 0 <= pp < indices@[tt]@.len()
                                        && accepted(q, #[trigger] indices@[tt]@[pp])
                                        && !pair_listed(origins, tt, pp) implies lex_leq(
                                    symbol_key(res.deep_view()[res.deep_view().len() - 1]),
                                    symbol_key(indices@[tt]@[pp]),
                                ) by {
                                    let sv = indices@[tt]@[pp];
                                    assert(res.deep_view()[res.deep_view().len() - 1]
                                        == idx@[p as int]);
                                    assert(symbol_key(res.deep_view()[res.deep_view().len() - 1])
                                        == k);
                                    if key_hit(hits@, i as int, symbol_key(sv)) {
                                        assert(pair_listed(beforeo, tt, pp));
                                        assert(pair_listed(origins, tt, pp));
                                    }
                                    assert((indices@[tt]).wf());
                                    assert(indices@[tt].entries().contains_key(symbol_key(sv)));
                                    assert(is_subseq(pat, symbol_key(sv)));
                                    assert(key_hit(hits@, hits@.len() as int, symbol_key(sv)));
                                    let h = choose|h2: int|
                                        0 <= h2 < hits@.len() && #[trigger] hits@[h2].0@
                                            == symbol_key(sv);
                                    if h > i as int {
                                        assert(lex_lt(hits@[i as int].0@, hits@[h].0@));
                                    }
                                }
                                assert(search_origins(q, indices@, res.deep_view(), origins));
                            }
                            return res;
                        }
                    }
                    p = p + 1;
                }
                proof {
                    assert(batch_collected(q, indices@, t as int, k, res.deep_view())) by {
                        assert forall|pp: int|
                            0 <= pp < indices@[t as int]@.len() && symbol_key(
                                #[trigger] indices@[t as int]@[pp],
                            ) == k && accepted(q, indices@[t as int]@[pp]) implies res.deep_view()
                            .contains(indices@[t as int]@[pp]) by {
                            assert(batch_start(indices@[t as int].entries()[k]) <= pp < batch_end(
                                indices@[t as int].entries()[k],
                            ));
                        }
                    }
                    assert(batch_pairs_listed(q, indices@, t as int, k, origins)) by {
                        assert forall|pp: int|
                            0 <= pp < indices@[t as int]@.len() && symbol_key(
                                #[trigger] indices@[t as int]@[pp],
                            ) == k && accepted(q, indices@[t as int]@[pp]) implies pair_listed(
                            origins,
                            t as int,
                            pp,
                        ) by {
                            assert(batch_start(indices@[t as int].entries()[k]) <= pp < batch_end(
                                indices@[t as int].entries()[k],
                            ));
                        }
                    }
                    assert forall|x: int|
                        #![trigger origins[x]]
                        0 <= x < origins.len() implies key_hit(
                        hits@,
                        i as int,
                        origin_key(indices@, origins, x),
                    ) || (origin_key(indices@, origins, x) == k && exists|jo: int|
                        0 <= jo < j + 1 && (#[trigger] occs@[jo]).0 as int == origins[x].0) by {
                        if !key_hit(hits@, i as int, origin_key(indices@, origins, x)) {
                            if !(exists|jo: int|
                                0 <= jo < j && (#[trigger] occs@[jo]).0 as int == origins[x].0) {
                                assert((occs@[j as int]).0 as int == origins[x].0);
                            }
                        }
                    }
                }
                j = j + 1;
            }
            proof {
                assert forall|tt: int, pp: int|
                    0 <= tt < indices@.len() && 0 <= pp < indices@[tt]@.len() && accepted(
                        q,
                        #[trigger] indices@[tt]@[pp],
                    ) && key_hit(hits@, i as int + 1, symbol_key(indices@[tt]@[pp])) implies res
                    .deep_view().contains(indices@[tt]@[pp]) by {
                    let s = indices@[tt]@[pp];
                    let h = choose|h: int| 0 <= h < i as int + 1 && hits@[h].0@ == symbol_key(s);
                    if h == i as int {
                        assert(indices@[tt].entries().contains_key(symbol_key(s)));
                        let jo = choose|jo: int|
                            0 <= jo < occs@.len() && (#[trigger] occs@[jo]).0 as int == tt;
                        assert(batch_collected(q, indices@, tt, k, res.deep_view()));
                    }
                }
                assert forall|tt: int, pp: int|
                    0 <= tt < indices@.len() && 0 <= pp < indices@[tt]@.len() && accepted(
                        q,
                        #[trigger] indices@[tt]@[pp],
                    ) && key_hit(hits@, i as int + 1, symbol_key(indices@[tt]@[pp]))
                    implies pair_listed(origins, tt, pp) by {
                    let s = indices@[tt]@[pp];
                    let h = choose|h: int| 0 <= h < i as int + 1 && hits@[h].0@ == symbol_key(s);
                    if h == i as int {
                        assert(indices@[tt].entries().contains_key(symbol_key(s)));
                        let jo = choose|jo: int|
                            0 <= jo < occs@.len() && (#[trigger] occs@[jo]).0 as int == tt;
                        assert(batch_pairs_listed(q, indices@, tt, k, origins));
                    }
                }
                assert forall|x: int|
                    #![trigger origins[x]]
                    0 <= x < origins.len() implies key_hit(
                    hits@,
                    i as int + 1,
                    origin_key(indices@, origins, x),
                ) by {
                    if key_hit(hits@, i as int, origin_key(indices@, origins, x)) {
                        let h = choose|h: int|
                            0 <= h < i as int && #[trigger] hits@[h].0@ == origin_key(
                                indices@,
                                origins,
                                x,
                            );
                        assert(0 <= h < i as int + 1 && hits@[h].0@ == origin_key(
                            indices@,
                            origins,
                            x,
                        ));
                    } else {
                        assert(hits@[i as int].0@ == origin_key(indices@, origins, x));
                    }
                }
            }
            i = i + 1;
        }
        proof {
            assert forall|t: int, p: int|
                0 <= t < indices@.len() && 0 <= p < indices@[t]@.len() && accepted(
                    q,
                    #[trigger] indices@[t]@[p],
                ) implies res.deep_view().contains(indices@[t]@[p]) && pair_listed(
                origins,
                t,
                p,
            ) by {
                let s = indices@[t]@[p];
                assert(indices@[t].entries().contains_key(symbol_key(s)));
                assert(key_hit(hits@, hits@.len() as int, symbol_key(s)));
            }
            assert(search_origins(q, indices@, res.deep_view(), origins));
        }
        res
    }
}

} // verus!
