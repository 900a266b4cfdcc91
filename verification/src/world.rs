//! The public facade: choosing the granule set for a query, building (or,
//! under the host's memoizing database, fetching) the per-granule indexes,
//! and running the evaluator over them.
use vstd::prelude::*;
use vstd::utf8::encode_utf8;
use crate::symbols::{FileSymbol, SymbolView, symbol_key};
use crate::text::is_subseq;
use crate::semantics::{SymbolsDatabase, FileEntry};
use crate::index::{SymbolIndex, sorted_by_key};
use crate::query::{Query, accepted, appears_in, unicode_lower_of};
use crate::collector::{collect_module_symbols, collected, emitted_by, Cancelled};

verus! {

/// Why an index could not be produced: the host raised its cancellation
/// flag, or a granule held more records than the 32-bit batch encoding of
/// the map values can carry.
#[derive(Clone, Copy, PartialEq, Eq, Debug, Structural)]
pub enum SymbolsError {
    Cancelled,
    IndexTooLarge,
}

/// Extracts records from one parsed library file. Extraction from bare
/// syntax is not implemented: library indexes exist but hold no records.
pub fn source_file_to_file_symbols(file: &FileEntry) -> (r: Vec<FileSymbol>)
    ensures
        r@.len() == 0,
{
    Vec::new()
}

impl SymbolIndex {
    /// Builds one index over a batch of library files, each flat-mapped
    /// through the syntax-only extractor.
    pub fn for_files(files: &Vec<FileEntry>) -> (r: SymbolIndex)
        ensures
            r.wf(),
            r@.len() == 0,
    {
        let mut symbols: Vec<FileSymbol> = Vec::new();
        let mut i: usize = 0;
        while i < files.len()
            invariant
                symbols@.len() == 0,
            decreases files@.len() - i,
        {
            let mut fs = source_file_to_file_symbols(&files[i]);
            symbols.append(&mut fs);
            i = i + 1;
        }
        let ghost sv = symbols.deep_view();
        let r = SymbolIndex::new(symbols);
        proof {
            assert(sv =~= Seq::<SymbolView>::empty());
            r@.to_multiset_ensures();
            sv.to_multiset_ensures();
        }
        r
    }
}

/// The position of the first source root carrying the given id, if any,
/// scanning from position `i`.
pub open spec fn spec_root_pos(db: SymbolsDatabase, root_id: u32, i: int) -> Option<int>
    decreases db.source_roots@.len() - i,
{
    if 0 <= i < db.source_roots@.len() {
        if db.source_roots@[i].root_id == root_id {
            Some(i)
        } else {
            spec_root_pos(db, root_id, i + 1)
        }
    } else {
        None
    }
}

/// The module ids of the crates of source root `r`, from crate position `i`
/// on.
pub open spec fn crates_modules(db: SymbolsDatabase, r: int, i: int) -> Seq<usize>
    decreases db.source_roots@[r].crates@.len() - i,
{
    if 0 <= r < db.source_roots@.len() && 0 <= i < db.source_roots@[r].crates@.len() {
        db.crates@[db.source_roots@[r].crates@[i] as int].module_ids@ + crates_modules(db, r, i + 1)
    } else {
        Seq::empty()
    }
}

/// The module granules of the workspace: every module of every crate under
/// every local root, in enumeration order, from root position `i` on.
pub open spec fn workspace_modules(db: SymbolsDatabase, i: int) -> Seq<usize>
    decreases db.local_roots@.len() - i,
{
    if 0 <= i < db.local_roots@.len() {
        (match spec_root_pos(db, db.local_roots@[i], 0) {
            Some(p) => crates_modules(db, p, 0),
            None => Seq::empty(),
        }) + workspace_modules(db, i + 1)
    } else {
        Seq::empty()
    }
}

/// The position of the source root carrying the given id, if any.
fn source_root_pos(db: &SymbolsDatabase, root_id: u32) -> (r: Option<usize>)
    ensures
        r matches Some(p) ==> p < db.source_roots@.len(),
        match r {
            Some(p) => spec_root_pos(*db, root_id, 0) == Some(p as int),
            None => spec_root_pos(*db, root_id, 0) == None::<int>,
        },
{
    let mut i: usize = 0;
    while i < db.source_roots.len()
        invariant
            0 <= i <= db.source_roots@.len(),
            spec_root_pos(*db, root_id, 0) == spec_root_pos(*db, root_id, i as int),
        decreases db.source_roots@.len() - i,
    {
        if db.source_roots[i].root_id == root_id {
            return Some(i);
        }
        i = i + 1;
    }
    None
}

/// Builds one index per library root, each over every file under the root.
/// The host's database caches this computation as a single memoized
/// derivation, invalidated only when the library-roots input changes.
pub fn library_symbols(db: &SymbolsDatabase) -> (r: Vec<(u32, SymbolIndex)>)
    requires
        db.wf(),
    ensures
        r@.len() == db.library_roots@.len(),
        forall|x: int| 0 <= x < r@.len() ==> (#[trigger] r@[x]).0 == db.library_roots@[x],
        forall|x: int| 0 <= x < r@.len() ==> (#[trigger] r@[x]).1.wf() && r@[x].1@.len() == 0,
{
    let mut res: Vec<(u32, SymbolIndex)> = Vec::new();
    let mut i: usize = 0;
    while i < db.library_roots.len()
        invariant
            db.wf(),
            0 <= i <= db.library_roots@.len(),
            res@.len() == i,
            forall|x: int| 0 <= x < res@.len() ==> (#[trigger] res@[x]).0 == db.library_roots@[x],
            forall|x: int| 0 <= x < res@.len() ==> (#[trigger] res@[x]).1.wf() && res@[x].1@.len()
                == 0,
        decreases db.library_roots@.len() - i,
    {
        let root_id = db.library_roots[i];
        let empty: Vec<FileEntry> = Vec::new();
        let index = match source_root_pos(db, root_id) {
            Some(p) => SymbolIndex::for_files(&db.source_roots[p].files),
            None => SymbolIndex::for_files(&empty),
        };
        res.push((root_id, index));
        i = i + 1;
    }
    res
}

/// Every granule in the list yields few enough records for the 32-bit
/// batch encoding of the map values.
pub open spec fn granules_fit(db: SymbolsDatabase, ids: Seq<usize>) -> bool {
    forall|x: int|
        0 <= x < ids.len() ==> collected(db, #[trigger] ids[x] as int).len() <= u32::MAX
}

/// Builds the index of one module granule: runs the collector, then sorts
/// and batches its output. The host's database caches this derivation per
/// module id.
pub fn module_symbols(db: &SymbolsDatabase, module_id: usize) -> (r: Result<
    SymbolIndex,
    SymbolsError,
>)
    requires
        db.wf(),
        module_id < db.modules@.len(),
    ensures
        r == Err::<SymbolIndex, SymbolsError>(SymbolsError::Cancelled) <==> db.cancelled,
        r is Ok <==> !db.cancelled && collected(*db, module_id as int).len() <= u32::MAX,
        r matches Ok(idx) ==> idx.wf() && forall|x: int|
            0 <= x < idx@.len() ==> emitted_by(*db, #[trigger] idx@[x]),
        r matches Ok(idx) ==> idx@.to_multiset() == collected(*db, module_id as int),
{
    match collect_module_symbols(db, module_id) {
        Err(Cancelled) => Err(SymbolsError::Cancelled),
        Ok(symbols) => {
            proof {
                symbols.deep_view().to_multiset_ensures();
                assert(symbols.deep_view().len() == collected(*db, module_id as int).len());
            }
            if symbols.len() <= (u32::MAX as usize) {
                let ghost sv = symbols.deep_view();
                let idx = SymbolIndex::new(symbols);
                proof {
                    idx@.to_multiset_ensures();
                    sv.to_multiset_ensures();
                    assert forall|x: int| 0 <= x < idx@.len() implies emitted_by(
                        *db,
                        #[trigger] idx@[x],
                    ) by {
                        assert(idx@.to_multiset().count(idx@[x]) > 0);
                        assert(sv.contains(idx@[x]));
                        let j = choose|j: int| 0 <= j < sv.len() && sv[j] == idx@[x];
                        assert(emitted_by(*db, sv[j]));
                    }
                }
                Ok(idx)
            } else {
                Err(SymbolsError::IndexTooLarge)
            }
        },
    }
}

/// The module ids of one crate's def-map.
pub fn module_ids_for_crate(db: &SymbolsDatabase, krate: usize) -> (r: Vec<usize>)
    requires
        db.wf(),
        krate < db.crates@.len(),
    ensures
        r@ == db.crates@[krate as int].module_ids@,
{
    let ids = &db.crates[krate].module_ids;
    let mut r: Vec<usize> = Vec::new();
    let mut i: usize = 0;
    while i < ids.len()
        invariant
            ids == &db.crates@[krate as int].module_ids,
            0 <= i <= ids@.len(),
            r@ =~= ids@.subrange(0, i as int),
        decreases ids@.len() - i,
    {
        r.push(ids[i]);
        i = i + 1;
    }
    assert(r@ =~= ids@);
    r
}

/// Builds the per-module indexes for a list of module granules, stopping at
/// the first failure.
fn build_module_indexes(db: &SymbolsDatabase, module_ids: &Vec<usize>) -> (r: Result<
    Vec<SymbolIndex>,
    SymbolsError,
>)
    requires
        db.wf(),
        forall|x: int| 0 <= x < module_ids@.len() ==> #[trigger] module_ids@[x] < db.modules@.len(),
    ensures
        r == Err::<Vec<SymbolIndex>, SymbolsError>(SymbolsError::Cancelled) <==> db.cancelled
            && module_ids@.len() > 0,
        r is Ok <==> module_ids@.len() == 0 || (!db.cancelled && granules_fit(*db, module_ids@)),
        r matches Ok(v) ==> forall|x: int| 0 <= x < v@.len() ==> (#[trigger] v@[x]).wf(),
        r matches Ok(v) ==> forall|x: int, j: int|
            0 <= x < v@.len() && 0 <= j < v@[x]@.len() ==> emitted_by(*db, #[trigger] v@[x]@[j]),
        r matches Ok(v) ==> v@.len() == module_ids@.len() && forall|x: int|
            0 <= x < v@.len() ==> (#[trigger] v@[x])@.to_multiset() == collected(
                *db,
                module_ids@[x] as int,
            ),
{
    let mut built: Vec<SymbolIndex> = Vec::new();
    let mut i: usize = 0;
    while i < module_ids.len()
        invariant
            db.wf(),
            forall|x: int| 0 <= x < module_ids@.len() ==> #[trigger] module_ids@[x]
                < db.modules@.len(),
            0 <= i <= module_ids@.len(),
            built@.len() == i,
            i > 0 ==> !db.cancelled,
            forall|x: int|
                0 <= x < i ==> collected(*db, #[trigger] module_ids@[x] as int).len() <= u32::MAX,
            forall|x: int| 0 <= x < built@.len() ==> (#[trigger] built@[x]).wf(),
            forall|x: int, j: int|
                0 <= x < built@.len() && 0 <= j < built@[x]@.len() ==> emitted_by(
                    *db,
                    #[trigger] built@[x]@[j],
                ),
            forall|x: int|
                0 <= x < built@.len() ==> (#[trigger] built@[x])@.to_multiset() == collected(
                    *db,
                    module_ids@[x] as int,
                ),
        decreases module_ids@.len() - i,
    {
        match module_symbols(db, module_ids[i]) {
            Ok(idx) => {
                built.push(idx);
            },
            Err(e) => {
                return Err(e);
            },
        }
        i = i + 1;
    }
    Ok(built)
}

/// The result rows map one-to-one onto stored positions of the given owned
/// indexes: each row names a distinct (index, position) pair holding exactly
/// its record.
pub open spec fn table_origins(
    indexes: Seq<SymbolIndex>,
    rs: Seq<SymbolView>,
    origins: Seq<(int, int)>,
) -> bool {
    &&& origins.len() == rs.len()
    &&& forall|x: int|
        0 <= x < origins.len() ==> {
            let (t, p) = #[trigger] origins[x];
            &&& 0 <= t < indexes.len()
            &&& 0 <= p < indexes[t]@.len()
            &&& indexes[t]@[p] == rs[x]
        }
    &&& forall|x: int, y: int|
        #![trigger origins[x], origins[y]]
        0 <= x < y < origins.len() ==> origins[x] != origins[y]
}

/// The result rows map one-to-one onto positions of granule tables whose
/// contents are exactly the granules' collected records: no record can
/// appear in the result more often than the granules hold it.
pub open spec fn granule_origins(
    db: SymbolsDatabase,
    ids: Seq<usize>,
    rs: Seq<SymbolView>,
) -> bool {
    exists|tables: Seq<Seq<SymbolView>>, origins: Seq<(int, int)>| {
        &&& tables.len() == ids.len()
        &&& forall|g: int|
            0 <= g < tables.len() ==> (#[trigger] tables[g]).to_multiset() == collected(
                db,
                ids[g] as int,
            )
        &&& table_origins_over(tables, rs, origins)
    }
}

/// As `table_origins`, over bare record tables.
pub open spec fn table_origins_over(
    tables: Seq<Seq<SymbolView>>,
    rs: Seq<SymbolView>,
    origins: Seq<(int, int)>,
) -> bool {
    &&& origins.len() == rs.len()
    &&& forall|x: int|
        0 <= x < origins.len() ==> {
            let (t, p) = #[trigger] origins[x];
            &&& 0 <= t < tables.len()
            &&& 0 <= p < tables[t].len()
            &&& tables[t][p] == rs[x]
        }
    &&& forall|x: int, y: int|
        #![trigger origins[x], origins[y]]
        0 <= x < y < origins.len() ==> origins[x] != origins[y]
}

/// The record `s` is stored in one of the given indexes.
pub open spec fn drawn_from(indexes: Seq<SymbolIndex>, s: SymbolView) -> bool {
    exists|t: int, j: int|
        0 <= t < indexes.len() && 0 <= j < indexes[t]@.len() && #[trigger] indexes[t]@[j] == s
}

/// Runs a query over a batch of owned indexes.
fn search_over(query: Query, indexes: &Vec<SymbolIndex>) -> (r: Vec<FileSymbol>)
    requires
        forall|x: int| 0 <= x < indexes@.len() ==> (#[trigger] indexes@[x]).wf(),
    ensures
        r.deep_view().len() <= query@.limit,
        sorted_by_key(r.deep_view()),
        forall|x: int| 0 <= x < r.deep_view().len() ==> accepted(query@, #[trigger] r.deep_view()[x]),
        forall|x: int|
            0 <= x < r.deep_view().len() ==> drawn_from(indexes@, #[trigger] r.deep_view()[x]),
        r.deep_view().len() < query@.limit ==> forall|t: int, p: int|
            0 <= t < indexes@.len() && 0 <= p < indexes@[t]@.len() && accepted(
                query@,
                #[trigger] indexes@[t]@[p],
            ) ==> r.deep_view().contains(indexes@[t]@[p]),
        exists|origins: Seq<(int, int)>| table_origins(indexes@, r.deep_view(), origins),
{
    let mut refs: Vec<&SymbolIndex> = Vec::new();
    let mut i: usize = 0;
    while i < indexes.len()
        invariant
            forall|x: int| 0 <= x < indexes@.len() ==> (#[trigger] indexes@[x]).wf(),
            0 <= i <= indexes@.len(),
            refs@.len() == i,
            forall|x: int| 0 <= x < refs@.len() ==> (#[trigger] refs@[x]).wf(),
            forall|x: int| 0 <= x < refs@.len() ==> (#[trigger] refs@[x])@ == indexes@[x]@,
        decreases indexes@.len() - i,
    {
        refs.push(&indexes[i]);
        i = i + 1;
    }
    let out = query.search(refs.as_slice());
    proof {
        let origins = choose|origins: Seq<(int, int)>|
            crate::query::search_origins(query@, refs@, out.deep_view(), origins);
        assert forall|x: int| 0 <= x < origins.len() implies {
            let (t, p) = #[trigger] origins[x];
            &&& 0 <= t < indexes@.len()
            &&& 0 <= p < indexes@[t]@.len()
            &&& indexes@[t]@[p] == out.deep_view()[x]
        } by {
            assert(crate::query::origin_ok(refs@, out.deep_view(), origins, x));
            let (t, p) = origins[x];
            assert(refs@[t]@ == indexes@[t]@);
        }
        assert(table_origins(indexes@, out.deep_view(), origins));
        if out.deep_view().len() < query@.limit {
            assert forall|t: int, p: int|
                0 <= t < indexes@.len() && 0 <= p < indexes@[t]@.len() && accepted(
                    query@,
                    #[trigger] indexes@[t]@[p],
                ) implies out.deep_view().contains(indexes@[t]@[p]) by {
                assert(refs@[t]@[p] == indexes@[t]@[p] && accepted(query@, refs@[t]@[p]));
            }
        }
        assert forall|x: int| 0 <= x < out.deep_view().len() implies drawn_from(
            indexes@,
            #[trigger] out.deep_view()[x],
        ) by {
            assert(appears_in(refs@, out.deep_view()[x]));
            let (t, j) = choose|t: int, j: int|
                0 <= t < refs@.len() && 0 <= j < refs@[t]@.len() && #[trigger] refs@[t]@[j]
                    == out.deep_view()[x];
            assert(indexes@[t]@[j] == out.deep_view()[x]);
        }
    }
    out
}

/// Searches the whole workspace. Under `libs` the search runs over the
/// library indexes; otherwise over the index of every module of every
/// crate under the local roots. The host runs the per-module builds on a
/// snapshot of the database, in parallel; the outcome is the same.
pub fn world_symbols(db: &SymbolsDatabase, query: Query) -> (r: Result<
    Vec<FileSymbol>,
    SymbolsError,
>)
    requires
        db.wf(),
    ensures
        r == Err::<Vec<FileSymbol>, SymbolsError>(SymbolsError::Cancelled) <==> !query@.libs
            && db.cancelled && workspace_modules(*db, 0).len() > 0,
        r is Ok <==> query@.libs || workspace_modules(*db, 0).len() == 0 || (!db.cancelled
            && granules_fit(*db, workspace_modules(*db, 0))),
        r matches Ok(v) ==> {
            &&& v.deep_view().len() <= query@.limit
            &&& sorted_by_key(v.deep_view())
            &&& forall|x: int|
                0 <= x < v.deep_view().len() ==> accepted(query@, #[trigger] v.deep_view()[x])
                    && emitted_by(*db, v.deep_view()[x])
        },
        r matches Ok(v) ==> (query@.libs ==> v.deep_view().len() == 0),
        r matches Ok(v) ==> (!query@.libs ==> granule_origins(
            *db,
            workspace_modules(*db, 0),
            v.deep_view(),
        )),
        r matches Ok(v) ==> (!query@.libs ==> forall|x: int|
            0 <= x < v.deep_view().len() ==> exists|g: int|
                0 <= g < workspace_modules(*db, 0).len() && collected(
                    *db,
                    workspace_modules(*db, 0)[g] as int,
                ).contains(#[trigger] v.deep_view()[x])),
        r matches Ok(v) ==> (!query@.libs && v.deep_view().len() < query@.limit ==> forall|
            x: int,
            sv: SymbolView,
        |
            #![trigger collected(*db, workspace_modules(*db, 0)[x] as int).contains(sv)]
            0 <= x < workspace_modules(*db, 0).len() && collected(
                *db,
                workspace_modules(*db, 0)[x] as int,
            ).contains(sv) && accepted(query@, sv) ==> v.deep_view().contains(sv)),
{
    if query.is_libs() {
        let libs = library_symbols(db);
        let mut refs: Vec<&SymbolIndex> = Vec::new();
        let mut i: usize = 0;
        while i < libs.len()
            invariant
                0 <= i <= libs@.len(),
                forall|x: int| 0 <= x < libs@.len() ==> (#[trigger] libs@[x]).1.wf()
                    && libs@[x].1@.len() == 0,
                forall|x: int| 0 <= x < refs@.len() ==> (#[trigger] refs@[x]).wf() && refs@[x]@.len()
                    == 0,
            decreases libs@.len() - i,
        {
            refs.push(&libs[i].1);
            i = i + 1;
        }
        let out = query.search(refs.as_slice());
        proof {
            assert forall|x: int| 0 <= x < out.deep_view().len() implies accepted(
                query@,
                #[trigger] out.deep_view()[x],
            ) && emitted_by(*db, out.deep_view()[x]) by {
                assert(appears_in(refs@, out.deep_view()[x]));
                let (t, j) = choose|t: int, j: int|
                    0 <= t < refs@.len() && 0 <= j < refs@[t]@.len() && #[trigger] refs@[t]@[j]
                        == out.deep_view()[x];
                assert(refs@[t]@.len() == 0);
            }
            if out.deep_view().len() > 0 {
                assert(appears_in(refs@, out.deep_view()[0]));
                let (t, j) = choose|t: int, j: int|
                    0 <= t < refs@.len() && 0 <= j < refs@[t]@.len() && #[trigger] refs@[t]@[j]
                        == out.deep_view()[0];
                assert(refs@[t]@.len() == 0);
            }
        }
        Ok(out)
    } else {
        let mut module_ids: Vec<usize> = Vec::new();
        let mut ri: usize = 0;
        while ri < db.local_roots.len()
            invariant
                db.wf(),
                0 <= ri <= db.local_roots@.len(),
                forall|x: int| 0 <= x < module_ids@.len() ==> #[trigger] module_ids@[x]
                    < db.modules@.len(),
                module_ids@ + workspace_modules(*db, ri as int) == workspace_modules(*db, 0),
            decreases db.local_roots@.len() - ri,
        {
            let root_id = db.local_roots[ri];
            let ghost before_root = module_ids@;
            match source_root_pos(db, root_id) {
                Some(p) => {
                    let mut ci: usize = 0;
                    while ci < db.source_roots[p].crates.len()
                        invariant
                            db.wf(),
                            0 <= ri < db.local_roots@.len(),
                            root_id == db.local_roots@[ri as int],
                            p < db.source_roots@.len(),
                            spec_root_pos(*db, root_id, 0) == Some(p as int),
                            before_root + workspace_modules(*db, ri as int) == workspace_modules(
                                *db,
                                0,
                            ),
                            0 <= ci <= db.source_roots@[p as int].crates@.len(),
                            forall|x: int| 0 <= x < module_ids@.len() ==> #[trigger] module_ids@[x]
                                < db.modules@.len(),
                            module_ids@ + crates_modules(*db, p as int, ci as int) == before_root
                                + crates_modules(*db, p as int, 0),
                        decreases db.source_roots@[p as int].crates@.len() - ci,
                    {
                        let krate = db.source_roots[p].crates[ci];
                        assert(krate < db.crates@.len());
                        let mut ids = module_ids_for_crate(db, krate);
                        let ghost pre = module_ids@;
                        module_ids.append(&mut ids);
                        proof {
                            assert forall|x: int| 0 <= x < module_ids@.len() implies #[trigger] module_ids@[x]
                                < db.modules@.len() by {
                                if x >= pre.len() {
                                    assert(module_ids@[x] == db.crates@[krate as int].module_ids@[
                                        x - pre.len()]);
                                }
                            }
                            assert(module_ids@ + crates_modules(*db, p as int, ci as int + 1)
                                =~= pre + crates_modules(*db, p as int, ci as int));
                        }
                        ci = ci + 1;
                    }
                    proof {
                        assert(crates_modules(
                            *db,
                            p as int,
                            db.source_roots@[p as int].crates@.len() as int,
                        ) =~= Seq::<usize>::empty());
                        assert(module_ids@ =~= before_root + crates_modules(*db, p as int, 0));
                        assert(module_ids@ + workspace_modules(*db, ri as int + 1)
                            =~= before_root + (crates_modules(*db, p as int, 0)
                            + workspace_modules(*db, ri as int + 1)));
                        assert(module_ids@ + workspace_modules(*db, ri as int + 1)
                            =~= before_root + workspace_modules(*db, ri as int));
                    }
                },
                None => {
                    proof {
                        assert(workspace_modules(*db, ri as int) =~= Seq::<usize>::empty()
                            + workspace_modules(*db, ri as int + 1));
                        assert(module_ids@ + workspace_modules(*db, ri as int + 1)
                            =~= module_ids@ + workspace_modules(*db, ri as int));
                    }
                },
            }
            ri = ri + 1;
        }
        proof {
            assert(workspace_modules(*db, db.local_roots@.len() as int) =~= Seq::<usize>::empty());
            assert(module_ids@ =~= workspace_modules(*db, 0));
        }
        let built = match build_module_indexes(db, &module_ids) {
            Ok(v) => v,
            Err(e) => {
                return Err(e);
            },
        };
        let out = search_over(query, &built);
        proof {
            let origins = choose|origins: Seq<(int, int)>|
                table_origins(built@, out.deep_view(), origins);
            let tables = Seq::new(built@.len(), |g: int| built@[g]@);
            assert forall|x: int| 0 <= x < origins.len() implies {
                let (t, p) = #[trigger] origins[x];
                &&& 0 <= t < tables.len()
                &&& 0 <= p < tables[t].len()
                &&& tables[t][p] == out.deep_view()[x]
            } by {
                let (t, p) = origins[x];
                assert(tables[t] == built@[t]@);
            }
            assert(table_origins_over(tables, out.deep_view(), origins));
            assert forall|g: int| 0 <= g < tables.len() implies (#[trigger] tables[g]).to_multiset()
                == collected(*db, workspace_modules(*db, 0)[g] as int) by {
                assert(tables[g] == built@[g]@);
            }
            assert(granule_origins(*db, workspace_modules(*db, 0), out.deep_view()));
            assert forall|x: int| 0 <= x < out.deep_view().len() implies emitted_by(
                *db,
                #[trigger] out.deep_view()[x],
            ) by {
                assert(drawn_from(built@, out.deep_view()[x]));
                let (t, j) = choose|t: int, j: int|
                    0 <= t < built@.len() && 0 <= j < built@[t]@.len() && #[trigger] built@[t]@[j]
                        == out.deep_view()[x];
                assert(emitted_by(*db, built@[t]@[j]));
            }
            assert forall|x: int| 0 <= x < out.deep_view().len() implies exists|g: int|
                0 <= g < workspace_modules(*db, 0).len() && collected(
                    *db,
                    workspace_modules(*db, 0)[g] as int,
                ).contains(#[trigger] out.deep_view()[x]) by {
                assert(drawn_from(built@, out.deep_view()[x]));
                let (t, j) = choose|t: int, j: int|
                    0 <= t < built@.len() && 0 <= j < built@[t]@.len() && #[trigger] built@[t]@[j]
                        == out.deep_view()[x];
                built@[t]@.to_multiset_ensures();
                assert(built@[t]@.contains(out.deep_view()[x]));
                assert(collected(*db, workspace_modules(*db, 0)[t] as int).contains(
                    out.deep_view()[x],
                ));
            }
            if out.deep_view().len() < query@.limit {
                assert forall|x: int, sv: SymbolView|
                    #![trigger collected(*db, workspace_modules(*db, 0)[x] as int).contains(sv)]
                    0 <= x < workspace_modules(*db, 0).len() && collected(
                        *db,
                        workspace_modules(*db, 0)[x] as int,
                    ).contains(sv) && accepted(query@, sv) implies out.deep_view().contains(
                    sv,
                ) by {
                    assert(built@[x]@.to_multiset() == collected(*db, module_ids@[x] as int));
                    built@[x]@.to_multiset_ensures();
                    assert(built@[x]@.contains(sv));
                    let pp = choose|pp: int| 0 <= pp < built@[x]@.len() && built@[x]@[pp] == sv;
                    assert(accepted(query@, built@[x]@[pp]));
                }
            }
        }
        Ok(out)
    }
}

/// Searches a single crate: the indexes of every module of its def-map.
pub fn crate_symbols(db: &SymbolsDatabase, krate: usize, query: Query) -> (r: Result<
    Vec<FileSymbol>,
    SymbolsError,
>)
    requires
        db.wf(),
        krate < db.crates@.len(),
    ensures
        r == Err::<Vec<FileSymbol>, SymbolsError>(SymbolsError::Cancelled) <==> db.cancelled
            && db.crates@[krate as int].module_ids@.len() > 0,
        r is Ok <==> db.crates@[krate as int].module_ids@.len() == 0 || (!db.cancelled
            && granules_fit(*db, db.crates@[krate as int].module_ids@)),
        r matches Ok(v) ==> {
            &&& v.deep_view().len() <= query@.limit
            &&& sorted_by_key(v.deep_view())
            &&& forall|x: int|
                0 <= x < v.deep_view().len() ==> accepted(query@, #[trigger] v.deep_view()[x])
                    && emitted_by(*db, v.deep_view()[x])
        },
        r matches Ok(v) ==> granule_origins(
            *db,
            db.crates@[krate as int].module_ids@,
            v.deep_view(),
        ),
        r matches Ok(v) ==> forall|x: int|
            0 <= x < v.deep_view().len() ==> exists|g: int|
                0 <= g < db.crates@[krate as int].module_ids@.len() && collected(
                    *db,
                    db.crates@[krate as int].module_ids@[g] as int,
                ).contains(#[trigger] v.deep_view()[x]),
        r matches Ok(v) ==> (v.deep_view().len() < query@.limit ==> forall|x: int, sv: SymbolView|
            #![trigger collected(*db, db.crates@[krate as int].module_ids@[x] as int).contains(sv)]
            0 <= x < db.crates@[krate as int].module_ids@.len() && collected(
                *db,
                db.crates@[krate as int].module_ids@[x] as int,
            ).contains(sv) && accepted(query@, sv) ==> v.deep_view().contains(sv)),
{
    let module_ids = module_ids_for_crate(db, krate);
    let built = match build_module_indexes(db, &module_ids) {
        Ok(v) => v,
        Err(e) => {
            return Err(e);
        },
    };
    let out = search_over(query, &built);
    proof {
        let origins = choose|origins: Seq<(int, int)>|
            table_origins(built@, out.deep_view(), origins);
        let tables = Seq::new(built@.len(), |g: int| built@[g]@);
        assert forall|x: int| 0 <= x < origins.len() implies {
            let (t, p) = #[trigger] origins[x];
            &&& 0 <= t < tables.len()
            &&& 0 <= p < tables[t].len()
            &&& tables[t][p] == out.deep_view()[x]
        } by {
            let (t, p) = origins[x];
            assert(tables[t] == built@[t]@);
        }
        assert(table_origins_over(tables, out.deep_view(), origins));
        assert forall|g: int| 0 <= g < tables.len() implies (#[trigger] tables[g]).to_multiset()
            == collected(*db, db.crates@[krate as int].module_ids@[g] as int) by {
            assert(tables[g] == built@[g]@);
        }
        assert(granule_origins(*db, db.crates@[krate as int].module_ids@, out.deep_view()));
        assert forall|x: int| 0 <= x < out.deep_view().len() implies emitted_by(
            *db,
            #[trigger] out.deep_view()[x],
        ) by {
            assert(drawn_from(built@, out.deep_view()[x]));
            let (t, j) = choose|t: int, j: int|
                0 <= t < built@.len() && 0 <= j < built@[t]@.len() && #[trigger] built@[t]@[j]
                    == out.deep_view()[x];
            assert(emitted_by(*db, built@[t]@[j]));
        }
        assert forall|x: int| 0 <= x < out.deep_view().len() implies exists|g: int|
            0 <= g < db.crates@[krate as int].module_ids@.len() && collected(
                *db,
                db.crates@[krate as int].module_ids@[g] as int,
            ).contains(#[trigger] out.deep_view()[x]) by {
            assert(drawn_from(built@, out.deep_view()[x]));
            let (t, j) = choose|t: int, j: int|
                0 <= t < built@.len() && 0 <= j < built@[t]@.len() && #[trigger] built@[t]@[j]
                    == out.deep_view()[x];
            built@[t]@.to_multiset_ensures();
            assert(built@[t]@.contains(out.deep_view()[x]));
            assert(collected(*db, db.crates@[krate as int].module_ids@[t] as int).contains(
                out.deep_view()[x],
            ));
        }
        if out.deep_view().len() < query@.limit {
            assert forall|x: int, sv: SymbolView|
                #![trigger collected(*db, db.crates@[krate as int].module_ids@[x] as int).contains(sv)]
                0 <= x < db.crates@[krate as int].module_ids@.len() && collected(
                    *db,
                    db.crates@[krate as int].module_ids@[x] as int,
                ).contains(sv) && accepted(query@, sv) implies out.deep_view().contains(sv) by {
                assert(built@[x]@.to_multiset() == collected(*db, module_ids@[x] as int));
                built@[x]@.to_multiset_ensures();
                assert(built@[x]@.contains(sv));
                let pp = choose|pp: int| 0 <= pp < built@[x]@.len() && built@[x]@[pp] == sv;
                assert(accepted(query@, built@[x]@[pp]));
            }
        }
    }
    Ok(out)
}

/// Looks a name up across the workspace: an exact search capped at four
/// results.
pub fn index_resolve(db: &SymbolsDatabase, name: &str) -> (r: Result<
    Vec<FileSymbol>,
    SymbolsError,
>)
    requires
        db.wf(),
    ensures
        r == Err::<Vec<FileSymbol>, SymbolsError>(SymbolsError::Cancelled) <==> db.cancelled
            && workspace_modules(*db, 0).len() > 0,
        r is Ok <==> workspace_modules(*db, 0).len() == 0 || (!db.cancelled && granules_fit(
            *db,
            workspace_modules(*db, 0),
        )),
        r matches Ok(v) ==> v.deep_view().len() <= 4 && forall|x: int|
            0 <= x < v.deep_view().len() ==> (#[trigger] v.deep_view()[x]).name == name@
                && emitted_by(*db, v.deep_view()[x]),
        r matches Ok(v) ==> granule_origins(*db, workspace_modules(*db, 0), v.deep_view()),
        r matches Ok(v) ==> (v.deep_view().len() < 4 ==> forall|x: int, sv: SymbolView|
            #![trigger collected(*db, workspace_modules(*db, 0)[x] as int).contains(sv)]
            0 <= x < workspace_modules(*db, 0).len() && collected(
                *db,
                workspace_modules(*db, 0)[x] as int,
            ).contains(sv) && sv.name == name@ && is_subseq(
                encode_utf8(unicode_lower_of(name@)),
                symbol_key(sv),
            ) ==> v.deep_view().contains(sv)),
{
    let mut query = Query::new(name.to_owned());
    query.exact();
    query.limit(4);
    let ghost q = query@;
    let r = world_symbols(db, query);
    proof {
        match &r {
            Ok(v) => {
                if v.deep_view().len() < 4 {
                    assert forall|x: int, sv: SymbolView|
                        #![trigger collected(*db, workspace_modules(*db, 0)[x] as int).contains(sv)]
                        0 <= x < workspace_modules(*db, 0).len() && collected(
                            *db,
                            workspace_modules(*db, 0)[x] as int,
                        ).contains(sv) && sv.name == name@ && is_subseq(
                            encode_utf8(unicode_lower_of(name@)),
                            symbol_key(sv),
                        ) implies v.deep_view().contains(sv) by {
                        assert(accepted(q, sv));
                    }
                }
            },
            Err(e) => {},
        }
    }
    r
}

} // verus!
